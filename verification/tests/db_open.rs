use garage::db::open::{open_db, recommended_map_size, Engine, OpenOpt};

#[test]
fn engine_names_round_trip() {
    assert_eq!(Engine::Lmdb.as_str(), "lmdb");
    assert_eq!(Engine::Sqlite.as_str(), "sqlite");
    assert_eq!(Engine::Fjall.as_str(), "fjall");

    assert_eq!(Engine::from_str("lmdb").unwrap(), Engine::Lmdb);
    assert_eq!(Engine::from_str("heed").unwrap(), Engine::Lmdb);
    assert_eq!(Engine::from_str("sqlite").unwrap(), Engine::Sqlite);
    assert_eq!(Engine::from_str("sqlite3").unwrap(), Engine::Sqlite);
    assert_eq!(Engine::from_str("rusqlite").unwrap(), Engine::Sqlite);
    assert_eq!(Engine::from_str("fjall").unwrap(), Engine::Fjall);
    assert!(Engine::from_str("sled").is_err());
    assert!(Engine::from_str("surely-not-a-db").is_err());
}

#[test]
fn db_paths_are_engine_specific() {
    assert_eq!(Engine::Lmdb.db_path("/var/lib/meta"), "/var/lib/meta/db.lmdb");
    assert_eq!(Engine::Sqlite.db_path("/var/lib/meta"), "/var/lib/meta/db.sqlite");
    assert_eq!(Engine::Fjall.db_path("/var/lib/meta"), "/var/lib/meta/db.fjall");
}

#[test]
fn open_defaults_and_engine_availability() {
    let opt = OpenOpt::default();
    assert!(!opt.fsync);
    assert!(opt.lmdb_map_size.is_none());
    assert!(opt.fjall_block_cache_size.is_none());
    assert_eq!(recommended_map_size(), 1u64 << 40);

    assert!(open_db("/tmp/garage_db_open_test", Engine::Lmdb, &opt).is_err());
    assert!(open_db("/tmp/garage_db_open_test", Engine::Sqlite, &opt).is_err());
    let db = open_db("/tmp/garage_db_open_test", Engine::Fjall, &opt).unwrap();
    assert_eq!(db.engine(), "LSM trees (using Fjall crate)");
}
