//! Choosing and opening a database engine.

use vstd::prelude::*;

use vstd::string::StringExecFns;

use crate::db::fjall_adapter::{Db, DbError};
use crate::util::text::str_eq;

verus! {

/// The database engines a metadata store can name.
///
/// The list holds every engine the store knows of, whether or not this
/// build carries it, so that an unknown name and a known-but-absent engine
/// can be told apart.
#[derive(Clone, Copy, Debug, PartialEq, Eq, Structural)]
pub enum Engine {
    /// The memory-mapped B-tree engine.
    Lmdb,
    /// The SQL engine.
    Sqlite,
    /// The LSM-tree engine.
    Fjall,
}

impl Engine {
    /// The engine's name.
    pub fn as_str(&self) -> (r: &'static str)
        ensures
            match self {
                Engine::Lmdb => r@ == "lmdb"@,
                Engine::Sqlite => r@ == "sqlite"@,
                Engine::Fjall => r@ == "fjall"@,
            },
    {
        match self {
            Engine::Lmdb => "lmdb",
            Engine::Sqlite => "sqlite",
            Engine::Fjall => "fjall",
        }
    }

    /// The engine-specific database path under a base directory.
    pub fn db_path(&self, base_path: &str) -> (r: String)
        ensures
            match self {
                Engine::Lmdb => r@ == base_path@ + "/db.lmdb"@,
                Engine::Sqlite => r@ == base_path@ + "/db.sqlite"@,
                Engine::Fjall => r@ == base_path@ + "/db.fjall"@,
            },
    {
        let mut ret = String::from_str(base_path);
        match self {
            Engine::Lmdb => ret.append("/db.lmdb"),
            Engine::Sqlite => ret.append("/db.sqlite"),
            Engine::Fjall => ret.append("/db.fjall"),
        }
        ret
    }

    /// Parse an engine name, with its historical synonyms. The retired
    /// tree engine is refused with its own explanation; anything else
    /// unknown is an error.
    pub fn from_str(text: &str) -> (r: Result<Engine, DbError>)
        ensures
            r matches Result::Ok(e) ==> {
                ||| (e == Engine::Lmdb && (text@ == "lmdb"@ || text@ == "heed"@))
                ||| (e == Engine::Sqlite && (text@ == "sqlite"@ || text@ == "sqlite3"@ || text@
                    == "rusqlite"@))
                ||| (e == Engine::Fjall && text@ == "fjall"@)
            },
            r is Err <==> !(text@ == "lmdb"@ || text@ == "heed"@ || text@ == "sqlite"@ || text@
                == "sqlite3"@ || text@ == "rusqlite"@ || text@ == "fjall"@),
    {
        if str_eq(text, "lmdb") || str_eq(text, "heed") {
            Result::Ok(Engine::Lmdb)
        } else if str_eq(text, "sqlite") || str_eq(text, "sqlite3") || str_eq(text, "rusqlite") {
            Result::Ok(Engine::Sqlite)
        } else if str_eq(text, "fjall") {
            Result::Ok(Engine::Fjall)
        } else if str_eq(text, "sled") {
            Result::Err(
                DbError(
                    "Sled is no longer supported as a database engine. Converting an old metadata db requires an older release.".to_owned(),
                ),
            )
        } else {
            Result::Err(DbError("Invalid DB engine (options are: lmdb, sqlite, fjall)".to_owned()))
        }
    }
}

/// Tuning knobs for opening a database.
#[derive(Debug)]
pub struct OpenOpt {
    /// Whether every write must reach the disk before it is acknowledged.
    pub fsync: bool,
    /// Size of the B-tree engine's memory map, when set.
    pub lmdb_map_size: Option<usize>,
    /// Size of the LSM engine's block cache, when set.
    pub fjall_block_cache_size: Option<usize>,
}

impl Default for OpenOpt {
    /// No fsync, engine-default sizes.
    fn default() -> (r: Self)
        ensures
            r.fsync == false,
            r.lmdb_map_size is None,
            r.fjall_block_cache_size is None,
    {
        Self { fsync: false, lmdb_map_size: None, fjall_block_cache_size: None }
    }
}

/// Recommended size for the B-tree engine's memory map: one terabyte,
/// stated in bytes.
pub fn recommended_map_size() -> (r: u64)
    ensures
        r == 0x10000000000u64,
{
    0x10000000000u64
}

/// Open a database with the chosen engine. Only the LSM engine is carried
/// by this build; naming another one is reported, not attempted.
pub fn open_db(path: &str, engine: Engine, _opt: &OpenOpt) -> (r: Result<Db, DbError>)
    ensures
        r matches Result::Ok(db) ==> engine == Engine::Fjall && db.wf() && db.tree_count() == 0,
        engine != Engine::Fjall ==> r is Err,
{
    match engine {
        Engine::Fjall => Db::open(path),
        Engine::Lmdb | Engine::Sqlite => Result::Err(
            DbError("DB engine support not available in this build".to_owned()),
        ),
    }
}

} // verus!
