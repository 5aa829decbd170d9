use garage::db::fjall_adapter::{Db, ScanBound};

fn open_fresh(dir: &str, tree: &str) -> (Db, usize) {
    let mut db = Db::open(dir).expect("the keyspace must open");
    let t = db.open_tree(tree).expect("the tree must open");
    db.clear(t).expect("the tree must clear");
    (db, t)
}

#[test]
fn get_after_insert_and_remove() {
    let (mut db, t) = open_fresh("/tmp/garage_kv_test_basic", "values");
    assert_eq!(db.len(t).unwrap(), 0);

    db.insert(t, b"alpha", b"1").unwrap();
    db.insert(t, b"beta", b"2").unwrap();
    assert_eq!(db.get(t, b"alpha").unwrap(), Some(b"1".to_vec()));
    assert_eq!(db.get(t, b"beta").unwrap(), Some(b"2".to_vec()));
    assert_eq!(db.get(t, b"gamma").unwrap(), None);
    assert_eq!(db.len(t).unwrap(), 2);

    db.insert(t, b"alpha", b"3").unwrap();
    assert_eq!(db.get(t, b"alpha").unwrap(), Some(b"3".to_vec()));
    assert_eq!(db.len(t).unwrap(), 2);

    db.remove(t, b"alpha").unwrap();
    assert_eq!(db.get(t, b"alpha").unwrap(), None);
    assert_eq!(db.len(t).unwrap(), 1);
}

#[test]
fn ranges_come_back_sorted_and_complete() {
    let (mut db, t) = open_fresh("/tmp/garage_kv_test_range", "rows");
    for key in [&b"d"[..], b"a", b"c", b"b", b"e"] {
        db.insert(t, key, b"v").unwrap();
    }
    let all = db.iter(t).unwrap();
    let keys: Vec<Vec<u8>> = all.iter().map(|(k, _)| k.clone()).collect();
    assert_eq!(keys, vec![b"a".to_vec(), b"b".to_vec(), b"c".to_vec(), b"d".to_vec(), b"e".to_vec()]);

    let mid = db
        .range(t, &ScanBound::Included(b"b".to_vec()), &ScanBound::Excluded(b"d".to_vec()))
        .unwrap();
    let mid_keys: Vec<Vec<u8>> = mid.iter().map(|(k, _)| k.clone()).collect();
    assert_eq!(mid_keys, vec![b"b".to_vec(), b"c".to_vec()]);

    let back = db.iter_rev(t).unwrap();
    let back_keys: Vec<Vec<u8>> = back.iter().map(|(k, _)| k.clone()).collect();
    assert_eq!(
        back_keys,
        vec![b"e".to_vec(), b"d".to_vec(), b"c".to_vec(), b"b".to_vec(), b"a".to_vec()]
    );
}

#[test]
fn paired_insert_lands_in_both_trees() {
    let mut db = Db::open("/tmp/garage_kv_test_pair").expect("the keyspace must open");
    let data = db.open_tree("data").unwrap();
    let merkle = db.open_tree("merkle").unwrap();
    db.clear(data).unwrap();
    db.clear(merkle).unwrap();

    db.insert_pair(data, b"row", b"payload", merkle, b"node", b"digest").unwrap();
    assert_eq!(db.get(data, b"row").unwrap(), Some(b"payload".to_vec()));
    assert_eq!(db.get(merkle, b"node").unwrap(), Some(b"digest".to_vec()));
}

#[test]
fn batched_writes_apply_together_in_order() {
    let mut db = Db::open("/tmp/garage_kv_test_batch").expect("the keyspace must open");
    let data = db.open_tree("batch_data").unwrap();
    let merkle = db.open_tree("batch_merkle").unwrap();
    db.clear(data).unwrap();
    db.clear(merkle).unwrap();
    db.insert(merkle, b"stale", b"node").unwrap();

    db.apply_batch(&vec![
        (data, b"row".to_vec(), Some(b"v1".to_vec())),
        (merkle, b"node".to_vec(), Some(b"digest".to_vec())),
        (data, b"row".to_vec(), Some(b"v2".to_vec())),
        (merkle, b"stale".to_vec(), None),
    ])
    .unwrap();

    assert_eq!(db.get(data, b"row").unwrap(), Some(b"v2".to_vec()), "the later write wins");
    assert_eq!(db.get(merkle, b"node").unwrap(), Some(b"digest".to_vec()));
    assert_eq!(db.get(merkle, b"stale").unwrap(), None, "a batched removal lands too");
}

#[test]
fn tree_names_stay_distinct_and_listable() {
    let mut db = Db::open("/tmp/garage_kv_test_names").expect("the keyspace must open");
    let a = db.open_tree("bucket:alias").unwrap();
    let b = db.open_tree("bucket_alias").unwrap();
    assert_ne!(a, b, "the mapping is injective, so distinct names open distinct trees");
    let c = db.open_tree("bucket-alias").unwrap();
    assert_ne!(a, c);
    assert_eq!(a, db.open_tree("bucket:alias").unwrap(), "reopening finds the same tree");
    let trees = db.list_trees();
    assert!(trees.iter().any(|n| n == "bucket:alias"), "the original name comes back");
    assert!(trees.iter().any(|n| n == "bucket_alias"));
    assert!(trees.iter().any(|n| n == "bucket-alias"));
    assert!(!trees.iter().any(|n| n == "bucket_alias_copy"));
}

#[test]
fn canonical_names_round_trip() {
    let cases = ["plain-name", "with_underscore", "mixed:éxotic/näme", "a.b#c$d", ""];
    for name in cases {
        let canonical = garage::db::fjall_adapter::canonicalize(name);
        assert!(canonical.chars().all(|c| c.is_ascii_alphanumeric() || c == '-' || c == '_'));
        let back = garage::db::fjall_adapter::decode_name(&canonical)
            .expect("a canonical form decodes");
        assert_eq!(back, name);
    }
    assert_eq!(garage::db::fjall_adapter::canonicalize("a:b"), "a_00003ab");
    assert_eq!(garage::db::fjall_adapter::canonicalize("a_b"), "a_00005fb");
    assert_eq!(garage::db::fjall_adapter::decode_name("not_an_escape"), None);
}

#[test]
fn tree_name_outside_the_backend_limit_is_rejected() {
    let mut db = Db::open("/tmp/garage_kv_test_badname").expect("the keyspace must open");
    assert!(db.open_tree("").is_err(), "an empty name has an empty canonical form");
    let long = "x".repeat(300);
    assert!(db.open_tree(&long).is_err(), "the backend caps partition names at 255 bytes");
}
