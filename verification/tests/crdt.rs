use garage::model::block_ref::BlockRef;
use garage::model::bucket::{Bucket, BucketAlias};
use garage::model::object::{
    Object, ObjectVersion, ObjectVersionData, ObjectVersionState,
};
use garage::model::key::{BucketKeyPerm, Key, KeyGrant};
use garage::model::version::{Version, VersionBlock};

fn alias(name: &str, timestamp: u64, active: bool) -> BucketAlias {
    BucketAlias { name: name.to_string(), timestamp, active }
}

fn bucket(id: u64, aliases: Vec<BucketAlias>) -> Bucket {
    Bucket { id, aliases, website_timestamp: 0, website_access: false }
}

fn active_aliases(b: &Bucket) -> Vec<String> {
    let mut names: Vec<String> =
        b.aliases.iter().filter(|a| a.active).map(|a| a.name.clone()).collect();
    names.sort();
    names
}

#[test]
fn concurrent_alias_writes_both_survive() {
    // two clients concurrently set distinct aliases on the same bucket
    let ours = bucket(7, vec![alias("x", 100, true)]);
    let theirs = bucket(7, vec![alias("y", 101, true)]);

    let merged_here = ours.merged(&theirs);
    let merged_there = theirs.merged(&ours);

    assert_eq!(active_aliases(&merged_here), vec!["x".to_string(), "y".to_string()]);
    assert_eq!(active_aliases(&merged_there), vec!["x".to_string(), "y".to_string()]);
}

#[test]
fn newer_alias_write_wins() {
    let old = bucket(7, vec![alias("x", 100, true)]);
    let tombstoned = bucket(7, vec![alias("x", 200, false)]);
    let merged = old.merged(&tombstoned);
    assert_eq!(active_aliases(&merged), Vec::<String>::new());
    // merging again changes nothing
    let again = merged.merged(&tombstoned);
    assert_eq!(active_aliases(&again), Vec::<String>::new());
}

#[test]
fn website_parameter_is_last_writer_wins() {
    let mut a = bucket(7, vec![]);
    a.website_timestamp = 50;
    a.website_access = true;
    let mut b = bucket(7, vec![]);
    b.website_timestamp = 60;
    b.website_access = false;
    assert_eq!(a.merged(&b).website_access, false);
    assert_eq!(b.merged(&a).website_access, false);
}

fn object_version(uuid: u64, timestamp: u64, state: ObjectVersionState) -> ObjectVersion {
    ObjectVersion {
        uuid,
        timestamp,
        mime_type: "blob".to_string(),
        size: 3,
        state,
        data: ObjectVersionData::Inline(vec![1, 2, 3]),
    }
}

fn object(versions: Vec<ObjectVersion>) -> Object {
    Object { bucket: "b".to_string(), key: "k".to_string(), versions }
}

#[test]
fn object_merge_unites_versions_and_advances_state() {
    let uploading = object(vec![object_version(1, 10, ObjectVersionState::Uploading)]);
    let complete = object(vec![
        object_version(1, 10, ObjectVersionState::Complete),
        object_version(2, 20, ObjectVersionState::Uploading),
    ]);
    let m1 = uploading.merged(&complete);
    let m2 = complete.merged(&uploading);
    assert_eq!(m1.versions.len(), 2);
    assert_eq!(m2.versions.len(), 2);
    for m in [&m1, &m2] {
        let v1 = m.versions.iter().find(|v| v.uuid == 1).unwrap();
        assert_eq!(v1.state, ObjectVersionState::Complete);
        let v2 = m.versions.iter().find(|v| v.uuid == 2).unwrap();
        assert_eq!(v2.state, ObjectVersionState::Uploading);
    }
    // idempotence
    let m3 = m1.merged(&m1);
    assert_eq!(m3.versions.len(), 2);
}

#[test]
fn block_ref_deletion_is_sticky() {
    let live = BlockRef { block: garage::data::FixedBytes32::repeat(9), version: 5, deleted: false };
    let dead = BlockRef { block: garage::data::FixedBytes32::repeat(9), version: 5, deleted: true };
    assert!(live.merged(&dead).deleted);
    assert!(dead.merged(&live).deleted);
    assert!(!live.merged(&live).deleted);
    assert!(dead.merged(&dead).deleted);
}

fn version_row(deleted: bool, offsets: &[u64]) -> Version {
    Version {
        uuid: 9,
        deleted,
        blocks: offsets
            .iter()
            .map(|o| VersionBlock { offset: *o, hash: garage::data::hash(&o.to_be_bytes()) })
            .collect(),
        bucket: "b".to_string(),
        key: "k".to_string(),
    }
}

#[test]
fn version_block_lists_unite_in_offset_order() {
    let a = version_row(false, &[0, 200]);
    let b = version_row(false, &[100, 200, 300]);
    let m = a.merged(&b);
    let offsets: Vec<u64> = m.blocks.iter().map(|vb| vb.offset).collect();
    assert_eq!(offsets, vec![0, 100, 200, 300]);
    assert!(!m.deleted);
    // the same from the other side
    let m2 = b.merged(&a);
    let offsets2: Vec<u64> = m2.blocks.iter().map(|vb| vb.offset).collect();
    assert_eq!(offsets2, vec![0, 100, 200, 300]);
}

#[test]
fn a_deleted_version_stays_deleted_and_empty() {
    let a = version_row(false, &[0, 100]);
    let d = version_row(true, &[]);
    let m = a.merged(&d);
    assert!(m.deleted);
    assert!(m.blocks.is_empty());
}

fn key_row(deleted: bool, grants: Vec<KeyGrant>) -> Key {
    Key {
        key_id: "GK1".to_string(),
        secret_key: "a-test-secret".to_string(),
        deleted,
        grants,
    }
}

fn grant(bucket_id: u64, timestamp: u64, read: bool, write: bool) -> KeyGrant {
    KeyGrant {
        bucket_id,
        perm: BucketKeyPerm {
            timestamp,
            allow_read: read,
            allow_write: write,
            allow_owner: false,
        },
    }
}

#[test]
fn key_grants_merge_per_bucket() {
    let a = key_row(false, vec![grant(1, 100, true, false)]);
    let b = key_row(false, vec![grant(1, 200, true, true), grant(2, 50, true, false)]);
    let m = a.merged(&b);
    assert!(!m.deleted);
    assert_eq!(m.grants.len(), 2);
    let g1 = m.grants.iter().find(|g| g.bucket_id == 1).unwrap();
    assert!(g1.perm.allow_write, "the newer grant wins");
    let g2 = m.grants.iter().find(|g| g.bucket_id == 2).unwrap();
    assert!(g2.perm.allow_read && !g2.perm.allow_write);
    // both merge orders agree bucket by bucket
    let m2 = b.merged(&a);
    let h1 = m2.grants.iter().find(|g| g.bucket_id == 1).unwrap();
    assert_eq!(h1.perm, g1.perm);
}

#[test]
fn a_deleted_key_grants_nothing() {
    let a = key_row(false, vec![grant(1, 100, true, true)]);
    let d = key_row(true, vec![]);
    let m = a.merged(&d);
    assert!(m.deleted);
    assert!(m.grants.is_empty());
}
