use garage::bootstrap::{check_existing_default_key, single_node_init_plan, InitAction};
use garage::layout::{LayoutHistory, LayoutVersion, NodeRole};

fn role(zone: &str, capacity: u64) -> NodeRole {
    NodeRole { zone: zone.to_string(), capacity: Some(capacity), tags: vec!["default".to_string()] }
}

fn base_history() -> LayoutHistory {
    let nodes: Vec<u64> = vec![1, 2, 3];
    let version = LayoutVersion {
        version: 1,
        replication_factor: 3,
        roles: nodes.iter().map(|n| (*n, role("dc1", 100))).collect(),
        partitions: (0..256).map(|p| (0..3).map(|i| nodes[(p + i) % 3]).collect()).collect(),
    };
    LayoutHistory {
        versions: vec![version],
        ack_map: vec![(1, 1), (2, 1), (3, 1)],
        sync_map: vec![(1, 1), (2, 1), (3, 1)],
        sync_ack_map: vec![(1, 1), (2, 1), (3, 1)],
        staging: vec![],
    }
}

#[test]
fn staged_changes_produce_the_next_version() {
    let mut layout = base_history();
    layout.staging = vec![
        (4, Some(role("dc2", 200))), // a new node joins
        (3, None),                   // one node retires
        (1, Some(role("dc1", 100))), // an unchanged role does not count
    ];
    let committed = layout.apply_staged_changes(2).expect("two real changes are enough");
    let current = committed.current();
    assert_eq!(current.version, 2);
    let mut ids: Vec<u64> = current.roles.iter().map(|r| r.0).collect();
    ids.sort();
    assert_eq!(ids, vec![1, 2, 4]);
    assert_eq!(current.partitions.len(), 256);
    for set in &current.partitions {
        assert_eq!(set.len(), 3);
        let mut s = set.clone();
        s.sort();
        s.dedup();
        assert_eq!(s.len(), 3, "replicas must be distinct nodes");
    }
    // the staging area was consumed, the trackers still point at version 1
    assert!(committed.staging.is_empty());
    assert_eq!(committed.read_version().version, 1);
}

#[test]
fn too_few_changes_are_refused() {
    let mut layout = base_history();
    layout.staging = vec![(1, Some(role("dc1", 100)))];
    assert!(layout.apply_staged_changes(1).is_err());
    assert!(layout.apply_staged_changes(0).is_ok());
}

#[test]
fn a_layout_cannot_lose_its_last_node() {
    let mut layout = base_history();
    layout.staging = vec![(1, None), (2, None), (3, None)];
    assert!(layout.apply_staged_changes(1).is_err());
}

#[test]
fn single_node_bootstrap_decisions() {
    // a fresh, lone node seeds itself
    match single_node_init_plan(1, 0, false, Some(5000)).unwrap() {
        InitAction::CreateLayout(r) => {
            assert_eq!(r.zone, "dc1");
            assert_eq!(r.capacity, Some(5000));
            assert_eq!(r.tags, vec!["default".to_string()]);
        }
        _ => panic!("a fresh node must create its layout"),
    }
    // without a measured disk, a default capacity is assumed
    match single_node_init_plan(1, 0, false, None).unwrap() {
        InitAction::CreateLayout(r) => assert_eq!(r.capacity, Some(1 << 30)),
        _ => panic!("a fresh node must create its layout"),
    }
    // an initialised node does nothing
    assert!(matches!(
        single_node_init_plan(1, 1, true, None).unwrap(),
        InitAction::AlreadyInitialized
    ));
    // refusals: replication, a moved-on layout, company
    assert!(single_node_init_plan(3, 0, false, None).is_err());
    assert!(single_node_init_plan(1, 2, false, None).is_err());
    assert!(single_node_init_plan(1, 0, true, None).is_err());

    // the default key may be reused only unchanged and alive
    assert_eq!(check_existing_default_key(false, false, false).unwrap(), false);
    assert_eq!(check_existing_default_key(true, false, true).unwrap(), true);
    assert!(check_existing_default_key(true, true, true).is_err());
    assert!(check_existing_default_key(true, false, false).is_err());
}
