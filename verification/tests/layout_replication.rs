use garage::data::FixedBytes32;
use garage::layout::{ConsistencyMode, LayoutHistory, LayoutVersion, NodeRole};
use garage::table::fullcopy::TableFullReplication;
use garage::table::sharded::TableShardedReplication;

fn role(zone: &str) -> NodeRole {
    NodeRole { zone: zone.to_string(), capacity: Some(1 << 30), tags: vec!["default".to_string()] }
}

/// A layout version where every partition is replicated on all the nodes.
fn version(v: u64, nodes: &[u64], rf: usize) -> LayoutVersion {
    let roles: Vec<(u64, NodeRole)> =
        nodes.iter().enumerate().map(|(i, n)| (*n, role(if i % 2 == 0 { "dc1" } else { "dc2" }))).collect();
    let replicas = rf.min(nodes.len());
    let partitions: Vec<Vec<u64>> =
        (0..256).map(|p| (0..replicas).map(|i| nodes[(p + i) % nodes.len()]).collect()).collect();
    LayoutVersion { version: v, replication_factor: rf, roles, partitions }
}

fn history(versions: Vec<LayoutVersion>, acked: u64, synced: u64, sync_acked: u64) -> LayoutHistory {
    let nodes: Vec<u64> = versions.last().unwrap().roles.iter().map(|r| r.0).collect();
    LayoutHistory {
        versions,
        ack_map: nodes.iter().map(|n| (*n, acked)).collect(),
        sync_map: nodes.iter().map(|n| (*n, synced)).collect(),
        sync_ack_map: nodes.iter().map(|n| (*n, sync_acked)).collect(),
        staging: vec![],
    }
}

#[test]
fn consistent_quorums_survive_one_failure_with_three_replicas() {
    // three nodes, replication factor 3, Consistent mode
    let layout = history(vec![version(1, &[1, 2, 3], 3)], 1, 1, 1);
    let sharded = TableShardedReplication { consistency_mode: ConsistencyMode::Consistent };
    let hash = FixedBytes32::repeat(0x42);

    let write_quorum = sharded.write_quorum(&layout);
    let read_quorum = sharded.read_quorum(&layout);
    assert_eq!(write_quorum, 2);
    assert_eq!(read_quorum, 2);

    // with one of the three replicas down, two survivors still reach both
    // quorums, and any read quorum meets any write quorum
    let survivors = 2;
    assert!(survivors >= write_quorum);
    assert!(survivors >= read_quorum);
    assert!(read_quorum + write_quorum > 3);

    let storage = sharded.storage_nodes(&layout, &hash);
    assert_eq!(storage, vec![1, 2, 3]);
    let writes = sharded.write_sets(&layout, &hash);
    assert_eq!(writes.len(), 1);
    assert_eq!(writes[0].len(), 3);
}

#[test]
fn dangerous_and_degraded_quorums() {
    let layout = history(vec![version(1, &[1, 2, 3, 4], 3)], 1, 1, 1);
    let hash = FixedBytes32::repeat(0x01);
    for mode in [ConsistencyMode::Dangerous, ConsistencyMode::Degraded] {
        let sharded = TableShardedReplication { consistency_mode: mode };
        assert_eq!(sharded.read_quorum(&layout), 1);
        assert_eq!(
            sharded.write_quorum(&layout),
            if mode == ConsistencyMode::Dangerous { 1 } else { 2 }
        );
        assert_eq!(sharded.read_nodes(&layout, &hash).len(), 3);
    }
}

#[test]
fn layout_change_mid_read_keeps_the_read_version() {
    // one committed, fully acknowledged version
    let v1 = version(1, &[1, 2, 3], 3);
    let mut layout = history(vec![v1], 1, 1, 1);
    assert_eq!(layout.read_version().version, 1);

    // a long scan begins now; meanwhile a new version moves the partition
    // to other nodes, but nobody has acknowledged it yet
    let v2 = version(2, &[4, 5, 6], 3);
    layout.versions.push(v2);
    assert_eq!(layout.read_version().version, 1, "the scan keeps its version");

    // both versions stay live until the new one is sync-acknowledged
    assert_eq!(layout.live_versions().len(), 2);

    // once every node acknowledged the new version, reads move over
    layout.ack_map = vec![(1, 2), (2, 2), (3, 2)];
    layout.sync_map = vec![(1, 2), (2, 2), (3, 2)];
    layout.sync_ack_map = vec![(1, 2), (2, 2), (3, 2)];
    assert_eq!(layout.read_version().version, 2);
    assert_eq!(layout.live_versions().len(), 1);
}

#[test]
fn fullcopy_write_quorum_falls_back_when_versions_disagree() {
    // two live versions of very different sizes: no common majority exists
    let small = version(1, &[1], 3);
    let big = version(2, &[1, 2, 3, 4, 5], 3);
    let layout = history(vec![small, big], 1, 1, 1);
    let full = TableFullReplication { consistency_mode: ConsistencyMode::Consistent };
    // min cluster size 1 is below the largest majority 3: liveness wins
    assert_eq!(full.write_quorum(&layout), 1);

    let agreeing = history(vec![version(1, &[1, 2, 3], 3)], 1, 1, 1);
    assert_eq!(full.write_quorum(&agreeing), 2);
    assert_eq!(full.read_quorum(&agreeing), 2);
}

#[test]
fn sync_partitions_cover_the_hash_space_in_order() {
    let layout = history(vec![version(1, &[1, 2, 3], 3)], 1, 1, 1);
    let sharded = TableShardedReplication { consistency_mode: ConsistencyMode::Consistent };
    let sp = sharded.sync_partitions(&layout);
    assert_eq!(sp.layout_version, 1);
    assert_eq!(sp.partitions.len(), 256);
    for (i, p) in sp.partitions.iter().enumerate() {
        assert_eq!(p.partition as usize, i);
        assert_eq!(p.first_hash.as_slice()[0] as usize, i);
        assert_eq!(p.storage_sets.len(), 1);
        assert_eq!(p.storage_sets[0].len(), 3);
    }
    assert_eq!(sp.partitions[255].last_hash.as_slice(), &[0xffu8; 32][..]);

    let full = TableFullReplication { consistency_mode: ConsistencyMode::Consistent };
    let fp = full.sync_partitions(&layout);
    assert_eq!(fp.partitions.len(), 1);
    assert_eq!(fp.partitions[0].partition, 0);
    assert_eq!(fp.partitions[0].first_hash.as_slice(), &[0u8; 32][..]);
}

#[test]
fn partition_of_is_the_leading_byte() {
    let mut bytes = vec![0u8; 32];
    bytes[0] = 0xab;
    bytes[1] = 0xcd;
    let h = FixedBytes32::from_bytes(bytes);
    assert_eq!(h.partition(), 0xab);
    let sharded = TableShardedReplication { consistency_mode: ConsistencyMode::Consistent };
    assert_eq!(sharded.partition_of(&h), 0xab);
    let full = TableFullReplication { consistency_mode: ConsistencyMode::Consistent };
    assert_eq!(full.partition_of(&h), 0);
}
