//! Versioned cluster layout: the assignment of partitions to replica sets.
//!
//! A [`LayoutVersion`] is an immutable snapshot: it records which nodes carry
//! a role and, for each of the 256 partitions, the replica set that stores
//! it. A [`LayoutHistory`] keeps the window of versions that are still in
//! use during a rebalance, together with per-node acknowledgement trackers
//! that decide which version serves reads and when old versions retire.

use vstd::prelude::*;

use vstd::seq_lib::*;

use crate::data::Partition;

verus! {

/// Identifier of a cluster node inside the layout.
pub type NodeId = u64;

/// Number of partitions the hash space is divided into.
pub const NB_PARTITIONS: usize = 256;

/// How much a caller is willing to trade consistency for availability.
#[derive(Clone, Copy, Debug, PartialEq, Eq, Structural)]
pub enum ConsistencyMode {
    /// Quorum 1 for both reads and writes.
    Dangerous,
    /// Reads accept one answer; writes still need a majority.
    Degraded,
    /// Majority reads and writes, so that they always intersect.
    Consistent,
}

/// The role a node carries in a layout version.
#[derive(Debug)]
pub struct NodeRole {
    /// The failure zone the node belongs to.
    pub zone: String,
    /// Declared storage capacity; `None` marks a gateway that stores nothing.
    pub capacity: Option<u64>,
    /// Free-form labels.
    pub tags: Vec<String>,
}

/// Mathematical image of a [`NodeRole`].
#[verifier::ext_equal]
pub ghost struct NodeRoleV {
    pub zone: Seq<char>,
    pub capacity: Option<u64>,
    pub tags: Seq<Seq<char>>,
}

impl View for NodeRole {
    type V = NodeRoleV;

    open spec fn view(&self) -> NodeRoleV {
        NodeRoleV {
            zone: self.zone@,
            capacity: self.capacity,
            tags: self.tags@.map_values(|t: String| t@),
        }
    }
}

impl NodeRole {
    /// A field-for-field copy.
    pub fn duplicate(&self) -> (r: NodeRole)
        ensures
            r@ == self@,
    {
        let mut tags: Vec<String> = Vec::new();
        let mut i: usize = 0;
        while i < self.tags.len()
            invariant
                i <= self.tags@.len(),
                tags@.len() == i,
                forall|j: int| 0 <= j < i ==> tags@[j] == self.tags@[j],
            decreases self.tags@.len() - i,
        {
            let t = vstd::std_specs::vec::vec_index(&self.tags, i);
            tags.push(t.clone());
            i = i + 1;
        }
        let r = NodeRole { zone: self.zone.clone(), capacity: self.capacity, tags };
        proof {
            assert(r.tags@ =~= self.tags@);
            assert(r@ =~~= self@);
        }
        r
    }
}

/// One immutable layout version.
#[derive(Debug)]
pub struct LayoutVersion {
    /// Monotonically increasing version number.
    pub version: u64,
    /// How many replicas each partition should have.
    pub replication_factor: usize,
    /// The nodes that carry a role, each at most once.
    pub roles: Vec<(NodeId, NodeRole)>,
    /// For each partition, the replica set that stores it.
    pub partitions: Vec<Vec<NodeId>>,
}

/// Mathematical image of a [`LayoutVersion`].
#[verifier::ext_equal]
pub ghost struct LayoutVersionV {
    pub version: u64,
    pub replication_factor: int,
    pub roles: Seq<(NodeId, NodeRoleV)>,
    pub partitions: Seq<Seq<NodeId>>,
}

impl View for LayoutVersion {
    type V = LayoutVersionV;

    open spec fn view(&self) -> LayoutVersionV {
        LayoutVersionV {
            version: self.version,
            replication_factor: self.replication_factor as int,
            roles: self.roles@.map_values(|p: (NodeId, NodeRole)| (p.0, p.1@)),
            partitions: self.partitions@.map_values(|v: Vec<NodeId>| v@),
        }
    }
}

impl LayoutVersionV {
    /// The ids of all nodes that carry a role, in declaration order.
    pub open spec fn node_ids(&self) -> Seq<NodeId> {
        self.roles.map_values(|p: (NodeId, NodeRoleV)| p.0)
    }

    /// The replica-set size this version actually achieves: the replication
    /// factor, capped by the number of nodes.
    pub open spec fn replicas(&self) -> int {
        if self.replication_factor <= self.roles.len() {
            self.replication_factor
        } else {
            self.roles.len() as int
        }
    }

    /// Well-formedness: one replica set per partition, each of the achieved
    /// size, made of distinct role-carrying nodes.
    pub open spec fn wf(&self) -> bool {
        &&& self.replication_factor >= 1
        &&& self.roles.len() >= 1
        &&& self.node_ids().no_duplicates()
        &&& self.partitions.len() == NB_PARTITIONS
        &&& forall|p: int|
            0 <= p < NB_PARTITIONS ==> {
                let set = #[trigger] self.partitions[p];
                &&& set.len() == self.replicas()
                &&& set.no_duplicates()
                &&& forall|j: int| 0 <= j < set.len() ==> self.node_ids().contains(set[j])
            }
    }

    /// The replica set of one partition.
    pub open spec fn nodes_of_partition(&self, p: int) -> Seq<NodeId> {
        self.partitions[p]
    }

    /// How many replicas a read needs under `mode`.
    pub open spec fn spec_read_quorum(&self, mode: ConsistencyMode) -> int {
        if mode == ConsistencyMode::Consistent {
            (self.replicas() + 1) / 2
        } else {
            1
        }
    }

    /// How many acknowledgements a write needs under `mode`.
    pub open spec fn spec_write_quorum(&self, mode: ConsistencyMode) -> int {
        if mode == ConsistencyMode::Dangerous {
            1
        } else {
            self.replicas() / 2 + 1
        }
    }
}

impl LayoutVersion {
    /// All nodes of this version.
    pub fn all_nodes(&self) -> (r: Vec<NodeId>)
        ensures
            r@ == self@.node_ids(),
    {
        let mut r: Vec<NodeId> = Vec::new();
        let mut i: usize = 0;
        while i < self.roles.len()
            invariant
                i <= self.roles@.len(),
                r@ =~= self@.node_ids().take(i as int),
            decreases self.roles@.len() - i,
        {
            let id = self.roles[i].0;
            r.push(id);
            proof {
                assert(r@ =~= self@.node_ids().take(i + 1 as int));
            }
            i = i + 1;
        }
        proof {
            assert(self@.node_ids().take(self.roles@.len() as int) =~= self@.node_ids());
        }
        r
    }

    /// The replica set that stores `hash`, in replica order.
    pub fn nodes_of(&self, hash: &crate::data::Hash) -> (r: Vec<NodeId>)
        requires
            self@.wf(),
            hash.wf(),
        ensures
            r@ == self@.nodes_of_partition(hash.spec_partition() as int),
    {
        let p = hash.partition();
        let set = vstd::std_specs::vec::vec_index(&self.partitions, p as usize);
        let mut r: Vec<NodeId> = Vec::new();
        let mut i: usize = 0;
        while i < set.len()
            invariant
                i <= set@.len(),
                r@ =~= set@.take(i as int),
            decreases set@.len() - i,
        {
            r.push(set[i]);
            proof {
                assert(r@ =~= set@.take(i + 1 as int));
            }
            i = i + 1;
        }
        proof {
            assert(set@.take(set@.len() as int) =~= set@);
        }
        r
    }

    /// The partition that `hash` falls in.
    pub fn partition_of(&self, hash: &crate::data::Hash) -> (r: Partition)
        requires
            hash.wf(),
        ensures
            r == hash.spec_partition(),
            r < 256,
    {
        hash.partition()
    }

    /// How many replicas must answer a read under `mode`: one, except a
    /// majority of the replica set under `Consistent`.
    pub fn read_quorum(&self, mode: ConsistencyMode) -> (r: usize)
        requires
            self@.wf(),
        ensures
            r == self@.spec_read_quorum(mode),
            1 <= r <= self@.replicas(),
    {
        match mode {
            ConsistencyMode::Dangerous | ConsistencyMode::Degraded => 1,
            ConsistencyMode::Consistent => {
                let n = if self.replication_factor <= self.roles.len() {
                    self.replication_factor
                } else {
                    self.roles.len()
                };
                n - n / 2
            },
        }
    }

    /// How many replicas must acknowledge a write under `mode`: one under
    /// `Dangerous`, a strict majority of the replica set otherwise.
    pub fn write_quorum(&self, mode: ConsistencyMode) -> (r: usize)
        requires
            self@.wf(),
        ensures
            r == self@.spec_write_quorum(mode),
            1 <= r <= self@.replicas(),
    {
        match mode {
            ConsistencyMode::Dangerous => 1,
            ConsistencyMode::Degraded | ConsistencyMode::Consistent => {
                let n = if self.replication_factor <= self.roles.len() {
                    self.replication_factor
                } else {
                    self.roles.len()
                };
                n / 2 + 1
            },
        }
    }

    /// A field-for-field copy.
    pub fn duplicate(&self) -> (r: LayoutVersion)
        ensures
            r@ == self@,
    {
        let mut roles: Vec<(NodeId, NodeRole)> = Vec::new();
        let mut i: usize = 0;
        while i < self.roles.len()
            invariant
                i <= self.roles@.len(),
                roles@.len() == i,
                forall|j: int|
                    0 <= j < i ==> roles@[j].0 == self.roles@[j].0 && roles@[j].1@
                        == self.roles@[j].1@,
            decreases self.roles@.len() - i,
        {
            let pair = vstd::std_specs::vec::vec_index(&self.roles, i);
            roles.push((pair.0, pair.1.duplicate()));
            i = i + 1;
        }
        let mut partitions: Vec<Vec<NodeId>> = Vec::new();
        let mut p: usize = 0;
        while p < self.partitions.len()
            invariant
                p <= self.partitions@.len(),
                partitions@.len() == p,
                forall|j: int| 0 <= j < p ==> partitions@[j]@ == self.partitions@[j]@,
            decreases self.partitions@.len() - p,
        {
            let set = vstd::std_specs::vec::vec_index(&self.partitions, p);
            let mut copy: Vec<NodeId> = Vec::new();
            let mut j: usize = 0;
            while j < set.len()
                invariant
                    j <= set@.len(),
                    copy@ =~= set@.take(j as int),
                decreases set@.len() - j,
            {
                copy.push(set[j]);
                proof {
                    assert(copy@ =~= set@.take(j + 1 as int));
                }
                j = j + 1;
            }
            proof {
                assert(set@.take(set@.len() as int) =~= set@);
            }
            partitions.push(copy);
            p = p + 1;
        }
        let r = LayoutVersion {
            version: self.version,
            replication_factor: self.replication_factor,
            roles,
            partitions,
        };
        proof {
            assert(r@.roles =~~= self@.roles);
            assert(r@.partitions =~~= self@.partitions);
            assert(r@ =~~= self@);
        }
        r
    }
}

/// The window of layout versions a cluster still uses, with the per-node
/// progress trackers that drive retirement of old versions.
#[derive(Debug)]
pub struct LayoutHistory {
    /// Stored versions, oldest first, version numbers strictly increasing.
    pub versions: Vec<LayoutVersion>,
    /// Per node, the newest version it uses for its own writes.
    pub ack_map: Vec<(NodeId, u64)>,
    /// Per node, the newest version whose data it has fully received.
    pub sync_map: Vec<(NodeId, u64)>,
    /// Per node, the newest version it knows everybody has synced.
    pub sync_ack_map: Vec<(NodeId, u64)>,
    /// Role changes accumulated for the next version.
    pub staging: Vec<(NodeId, Option<NodeRole>)>,
}

/// Mathematical image of a [`LayoutHistory`].
#[verifier::ext_equal]
pub ghost struct LayoutHistoryV {
    pub versions: Seq<LayoutVersionV>,
    pub ack_map: Seq<(NodeId, u64)>,
    pub sync_map: Seq<(NodeId, u64)>,
    pub sync_ack_map: Seq<(NodeId, u64)>,
    pub staging: Seq<(NodeId, Option<NodeRoleV>)>,
}

impl View for LayoutHistory {
    type V = LayoutHistoryV;

    open spec fn view(&self) -> LayoutHistoryV {
        LayoutHistoryV {
            versions: self.versions@.map_values(|v: LayoutVersion| v@),
            ack_map: self.ack_map@,
            sync_map: self.sync_map@,
            sync_ack_map: self.sync_ack_map@,
            staging: self.staging@.map_values(
                |p: (NodeId, Option<NodeRole>)|
                    (
                        p.0,
                        match p.1 {
                            Option::Some(r) => Option::Some(r@),
                            Option::None => Option::None,
                        },
                    ),
            ),
        }
    }
}

/// The smallest version number a tracker records.
pub open spec fn tracker_min(t: Seq<(NodeId, u64)>) -> u64
    recommends
        t.len() >= 1,
    decreases t.len(),
{
    if t.len() <= 1 {
        t[0].1
    } else {
        let m = tracker_min(t.drop_last());
        if t.last().1 < m {
            t.last().1
        } else {
            m
        }
    }
}

proof fn lemma_tracker_min_le(t: Seq<(NodeId, u64)>, i: int)
    requires
        t.len() >= 1,
        0 <= i < t.len(),
    ensures
        tracker_min(t) <= t[i].1,
    decreases t.len(),
{
    if t.len() > 1 && i < t.len() - 1 {
        lemma_tracker_min_le(t.drop_last(), i);
    }
}

proof fn lemma_tracker_min_member(t: Seq<(NodeId, u64)>)
    requires
        t.len() >= 1,
    ensures
        exists|i: int| 0 <= i < t.len() && t[i].1 == tracker_min(t),
    decreases t.len(),
{
    if t.len() == 1 {
        assert(t[0].1 == tracker_min(t));
    } else {
        lemma_tracker_min_member(t.drop_last());
        if t.last().1 < tracker_min(t.drop_last()) {
            assert(t[t.len() - 1].1 == tracker_min(t));
        } else {
            let i = choose|i: int|
                0 <= i < t.drop_last().len() && t.drop_last()[i].1 == tracker_min(t.drop_last());
            assert(t[i].1 == tracker_min(t));
        }
    }
}

proof fn lemma_tracker_min_pointwise(a: Seq<(NodeId, u64)>, b: Seq<(NodeId, u64)>)
    requires
        a.len() == b.len(),
        a.len() >= 1,
        forall|i: int| 0 <= i < a.len() ==> (#[trigger] a[i]).1 >= b[i].1,
    ensures
        tracker_min(a) >= tracker_min(b),
    decreases a.len(),
{
    if a.len() > 1 {
        lemma_tracker_min_pointwise(a.drop_last(), b.drop_last());
        assert(a.last().1 >= b.last().1);
    }
}

/// The suffix of `vs` whose version numbers reach `m`, in order.
pub open spec fn live_filter(vs: Seq<LayoutVersionV>, m: u64) -> Seq<LayoutVersionV>
    decreases vs.len(),
{
    if vs.len() == 0 {
        Seq::empty()
    } else {
        let rest = live_filter(vs.drop_last(), m);
        if vs.last().version >= m {
            rest.push(vs.last())
        } else {
            rest
        }
    }
}

proof fn lemma_live_filter_members(vs: Seq<LayoutVersionV>, m: u64)
    ensures
        forall|k: int|
            0 <= k < live_filter(vs, m).len() ==> (#[trigger] live_filter(vs, m)[k]).version >= m,
        forall|k: int|
            0 <= k < live_filter(vs, m).len() ==> vs.contains(#[trigger] live_filter(vs, m)[k]),
    decreases vs.len(),
{
    if vs.len() > 0 {
        lemma_live_filter_members(vs.drop_last(), m);
        let rest = live_filter(vs.drop_last(), m);
        let l = live_filter(vs, m);
        assert forall|k: int| 0 <= k < l.len() implies (#[trigger] l[k]).version >= m
            && vs.contains(l[k]) by {
            if k < rest.len() {
                assert(l[k] == rest[k]);
                assert(vs.drop_last().contains(rest[k]));
                let j = choose|j: int|
                    0 <= j < vs.drop_last().len() && vs.drop_last()[j] == rest[k];
                assert(vs[j] == rest[k]);
            } else {
                assert(l[k] == vs.last());
                assert(vs[vs.len() - 1] == vs.last());
            }
        }
    }
}

proof fn lemma_live_filter_complete(vs: Seq<LayoutVersionV>, m: u64, i: int)
    requires
        0 <= i < vs.len(),
        vs[i].version >= m,
    ensures
        live_filter(vs, m).contains(vs[i]),
    decreases vs.len(),
{
    if i == vs.len() - 1 {
        assert(live_filter(vs, m).last() == vs.last());
    } else {
        lemma_live_filter_complete(vs.drop_last(), m, i);
        let rest = live_filter(vs.drop_last(), m);
        let k = choose|k: int| 0 <= k < rest.len() && rest[k] == vs.drop_last()[i];
        if vs.last().version >= m {
            assert(live_filter(vs, m)[k] == vs[i]);
        }
    }
}

impl LayoutHistoryV {
    /// The newest stored version.
    pub open spec fn current(&self) -> LayoutVersionV {
        self.versions.last()
    }

    /// The oldest stored version number.
    pub open spec fn min_stored(&self) -> u64 {
        self.versions[0].version
    }

    /// The smallest version any node still writes with.
    pub open spec fn ack_map_min(&self) -> u64 {
        tracker_min(self.ack_map)
    }

    /// The smallest version any node knows to be fully synced everywhere.
    pub open spec fn sync_ack_min(&self) -> u64 {
        tracker_min(self.sync_ack_map)
    }

    /// The versions still in use: those not yet sync-acknowledged by all.
    pub open spec fn live_versions(&self) -> Seq<LayoutVersionV> {
        live_filter(self.versions, self.sync_ack_min())
    }

    /// Index of the version that serves reads: the one every node has
    /// acknowledged.
    pub open spec fn read_version_idx(&self) -> int {
        choose|j: int|
            0 <= j < self.versions.len() && (#[trigger] self.versions[j]).version
                == self.ack_map_min()
    }

    /// The version that serves reads.
    pub open spec fn read_version(&self) -> LayoutVersionV {
        self.versions[self.read_version_idx()]
    }

    /// Well-formedness of the whole history.
    pub open spec fn wf(&self) -> bool {
        &&& self.versions.len() >= 1
        &&& forall|i: int| 0 <= i < self.versions.len() ==> (#[trigger] self.versions[i]).wf()
        &&& forall|i: int, j: int|
            0 <= i < j < self.versions.len() ==> self.versions[i].version
                < self.versions[j].version
        &&& self.ack_map.len() >= 1
        &&& self.ack_map.len() == self.sync_map.len()
        &&& self.ack_map.len() == self.sync_ack_map.len()
        &&& forall|i: int|
            0 <= i < self.ack_map.len() ==> (#[trigger] self.sync_map[i]).0 == self.ack_map[i].0
                && self.sync_ack_map[i].0 == self.ack_map[i].0
        &&& forall|i: int|
            0 <= i < self.ack_map.len() ==> (#[trigger] self.ack_map[i]).1 >= self.sync_map[i].1
                && self.sync_map[i].1 >= self.sync_ack_map[i].1
        &&& forall|i: int|
            0 <= i < self.ack_map.len() ==> exists|j: int|
                0 <= j < self.versions.len() && (#[trigger] self.ack_map[i]).1
                    == self.versions[j].version
    }

    /// Version numbers are unique, so two indexes with the same number agree.
    pub proof fn lemma_version_idx_unique(&self, i: int, j: int)
        requires
            self.wf(),
            0 <= i < self.versions.len(),
            0 <= j < self.versions.len(),
            self.versions[i].version == self.versions[j].version,
        ensures
            i == j,
    {
    }

    /// The read version is well defined: it is stored, and its number is the
    /// acknowledged minimum.
    pub proof fn lemma_read_version_exists(&self)
        requires
            self.wf(),
        ensures
            0 <= self.read_version_idx() < self.versions.len(),
            self.read_version().version == self.ack_map_min(),
    {
        lemma_tracker_min_member(self.ack_map);
        let i = choose|i: int|
            0 <= i < self.ack_map.len() && self.ack_map[i].1 == tracker_min(self.ack_map);
        assert(exists|j: int|
            0 <= j < self.versions.len() && (#[trigger] self.ack_map[i]).1
                == self.versions[j].version);
    }
}

/// Once every node has sync-acknowledged at least version `v`, versions
/// before `v` are never used again: every live version — hence every write
/// set — and the version that serves reads are all at least `v`.
pub proof fn lemma_layout_monotonicity(h: LayoutHistoryV, v: u64)
    requires
        h.wf(),
        forall|i: int| 0 <= i < h.sync_ack_map.len() ==> (#[trigger] h.sync_ack_map[i]).1 >= v,
    ensures
        forall|k: int|
            0 <= k < h.live_versions().len() ==> (#[trigger] h.live_versions()[k]).version >= v,
        h.read_version().version >= v,
{
    lemma_tracker_min_member(h.sync_ack_map);
    assert(h.sync_ack_min() >= v);
    lemma_live_filter_members(h.versions, h.sync_ack_min());
    lemma_tracker_min_pointwise(h.ack_map, h.sync_ack_map);
    h.lemma_read_version_exists();
}

/// Committing a new layout version while per-node acknowledgements are
/// unchanged does not move the version that serves reads: a scan that began
/// under it completes under it.
pub proof fn lemma_read_version_stable(h1: LayoutHistoryV, h2: LayoutHistoryV)
    requires
        h1.wf(),
        h2.wf(),
        h2.versions == h1.versions.push(h2.versions.last()),
        h2.ack_map == h1.ack_map,
    ensures
        h2.read_version() == h1.read_version(),
{
    h1.lemma_read_version_exists();
    h2.lemma_read_version_exists();
    let j1 = h1.read_version_idx();
    let j2 = h2.read_version_idx();
    assert(h2.versions[j1] == h1.versions[j1]);
    assert(h2.versions[j1].version == h2.ack_map_min());
    h2.lemma_version_idx_unique(j1, j2);
}

proof fn lemma_disjoint_union_len<A>(a: Set<A>, b: Set<A>)
    requires
        a.finite(),
        b.finite(),
        a.intersect(b) == Set::<A>::empty(),
    ensures
        a.union(b).len() == a.len() + b.len(),
    decreases a.len(),
{
    if a.len() == 0 {
        assert(a =~= Set::<A>::empty());
        assert(a.union(b) =~= b);
    } else {
        let x = a.choose();
        assert(a.contains(x));
        assert(!b.contains(x)) by {
            if b.contains(x) {
                assert(a.intersect(b).contains(x));
            }
        }
        assert(a.remove(x).intersect(b) =~= Set::<A>::empty()) by {
            assert forall|y: A| !(a.remove(x).intersect(b).contains(y)) by {
                if a.remove(x).intersect(b).contains(y) {
                    assert(a.intersect(b).contains(y));
                }
            }
        }
        lemma_disjoint_union_len(a.remove(x), b);
        assert(a.remove(x).union(b) =~= a.union(b).remove(x));
        assert(a.union(b).contains(x));
    }
}

/// Read and write quorums of one replica set intersect under `Consistent`
/// mode: any read that reaches its quorum after a successful write meets at
/// least one node that acknowledged the write.
pub proof fn lemma_consistent_quorum_overlap(
    v: LayoutVersionV,
    p: int,
    readers: Set<NodeId>,
    writers: Set<NodeId>,
)
    requires
        v.wf(),
        0 <= p < NB_PARTITIONS,
        readers.finite(),
        writers.finite(),
        readers.subset_of(v.nodes_of_partition(p).to_set()),
        writers.subset_of(v.nodes_of_partition(p).to_set()),
        readers.len() >= v.spec_read_quorum(ConsistencyMode::Consistent),
        writers.len() >= v.spec_write_quorum(ConsistencyMode::Consistent),
    ensures
        exists|n: NodeId| readers.contains(n) && writers.contains(n),
{
    let rs = v.nodes_of_partition(p);
    rs.unique_seq_to_set();
    if !(exists|n: NodeId| readers.contains(n) && writers.contains(n)) {
        assert(readers.intersect(writers) =~= Set::<NodeId>::empty());
        lemma_disjoint_union_len(readers, writers);
        vstd::set_lib::lemma_len_subset(readers.union(writers), rs.to_set());
        assert(readers.union(writers).len() <= v.replicas());
        assert((v.replicas() + 1) / 2 + (v.replicas() / 2 + 1) > v.replicas());
        assert(false);
    }
}

impl LayoutHistory {
    /// The newest stored version.
    pub fn current(&self) -> (r: &LayoutVersion)
        requires
            self@.versions.len() >= 1,
        ensures
            r@ == self@.current(),
    {
        vstd::std_specs::vec::vec_index(&self.versions, self.versions.len() - 1)
    }

    /// All nodes of the newest version.
    pub fn all_nodes(&self) -> (r: Vec<NodeId>)
        requires
            self@.versions.len() >= 1,
        ensures
            r@ == self@.current().node_ids(),
    {
        self.current().all_nodes()
    }

    /// The oldest stored version number.
    pub fn min_stored(&self) -> (r: u64)
        requires
            self@.versions.len() >= 1,
        ensures
            r == self@.min_stored(),
    {
        vstd::std_specs::vec::vec_index(&self.versions, 0).version
    }

    /// The smallest version any node still writes with.
    pub fn ack_map_min(&self) -> (r: u64)
        requires
            self@.ack_map.len() >= 1,
        ensures
            r == self@.ack_map_min(),
    {
        tracker_min_exec(&self.ack_map)
    }

    /// The smallest version any node knows to be fully synced everywhere.
    pub fn sync_ack_min(&self) -> (r: u64)
        requires
            self@.sync_ack_map.len() >= 1,
        ensures
            r == self@.sync_ack_min(),
    {
        tracker_min_exec(&self.sync_ack_map)
    }

    /// The version that serves reads: the newest one acknowledged by every
    /// node.
    pub fn read_version(&self) -> (r: &LayoutVersion)
        requires
            self@.wf(),
        ensures
            r@ == self@.read_version(),
            r@.version == self@.ack_map_min(),
    {
        proof {
            self@.lemma_read_version_exists();
        }
        let target = self.ack_map_min();
        let n = self.versions.len();
        let mut i: usize = 0;
        while i < n
            invariant
                self@.wf(),
                n == self@.versions.len(),
                i <= n,
                target == self@.ack_map_min(),
                forall|j: int| 0 <= j < i ==> (#[trigger] self@.versions[j]).version != target,
            decreases n - i,
        {
            let v = vstd::std_specs::vec::vec_index(&self.versions, i);
            if v.version == target {
                proof {
                    self@.lemma_read_version_exists();
                    self@.lemma_version_idx_unique(i as int, self@.read_version_idx());
                }
                return v;
            }
            i = i + 1;
        }
        proof {
            self@.lemma_read_version_exists();
            assert(false);
        }
        vstd::pervasive::unreached()
    }

    /// The versions still in use, oldest first.
    pub fn live_versions(&self) -> (r: Vec<LayoutVersion>)
        requires
            self@.wf(),
        ensures
            r@.map_values(|v: LayoutVersion| v@) == self@.live_versions(),
    {
        let m = self.sync_ack_min();
        let n = self.versions.len();
        let mut r: Vec<LayoutVersion> = Vec::new();
        let mut i: usize = 0;
        while i < n
            invariant
                self@.wf(),
                n == self@.versions.len(),
                i <= n,
                m == self@.sync_ack_min(),
                r@.map_values(|v: LayoutVersion| v@) =~~= live_filter(
                    self@.versions.take(i as int),
                    m,
                ),
            decreases n - i,
        {
            let v = vstd::std_specs::vec::vec_index(&self.versions, i);
            if v.version >= m {
                r.push(v.duplicate());
            }
            proof {
                assert(self@.versions.take(i + 1 as int).drop_last() =~= self@.versions.take(
                    i as int,
                ));
                assert(self@.versions.take(i + 1 as int).last() == self@.versions[i as int]);
                assert(r@.map_values(|v: LayoutVersion| v@) =~~= live_filter(
                    self@.versions.take(i + 1 as int),
                    m,
                ));
            }
            i = i + 1;
        }
        proof {
            assert(self@.versions.take(n as int) =~= self@.versions);
        }
        r
    }
}

/// The roles of a version, keyed by node.
pub open spec fn roles_map_of(roles: Seq<(NodeId, NodeRoleV)>) -> Map<NodeId, NodeRoleV>
    decreases roles.len(),
{
    if roles.len() == 0 {
        Map::empty()
    } else {
        roles_map_of(roles.drop_last()).insert(roles.last().0, roles.last().1)
    }
}

/// The role map after the staged edits are applied, newest last.
pub open spec fn apply_staging_map(
    m: Map<NodeId, NodeRoleV>,
    staging: Seq<(NodeId, Option<NodeRoleV>)>,
) -> Map<NodeId, NodeRoleV>
    decreases staging.len(),
{
    if staging.len() == 0 {
        m
    } else {
        let prev = apply_staging_map(m, staging.drop_last());
        match staging.last().1 {
            Option::Some(r) => prev.insert(staging.last().0, r),
            Option::None => prev.remove(staging.last().0),
        }
    }
}

/// Whether one staged edit actually changes the given role map.
pub open spec fn is_staged_change(
    m: Map<NodeId, NodeRoleV>,
    entry: (NodeId, Option<NodeRoleV>),
) -> bool {
    match entry.1 {
        Option::Some(r) => !(m.dom().contains(entry.0) && m[entry.0] == r),
        Option::None => m.dom().contains(entry.0),
    }
}

/// How many staged edits change the given role map.
pub open spec fn staged_change_count(
    m: Map<NodeId, NodeRoleV>,
    staging: Seq<(NodeId, Option<NodeRoleV>)>,
) -> int
    decreases staging.len(),
{
    if staging.len() == 0 {
        0
    } else {
        staged_change_count(m, staging.drop_last()) + if is_staged_change(m, staging.last()) {
            1int
        } else {
            0int
        }
    }
}

/// No node occurs twice in a role list.
pub open spec fn distinct_role_ids(roles: Seq<(NodeId, NodeRoleV)>) -> bool {
    forall|i: int, j: int| 0 <= i < j < roles.len() ==> roles[i].0 != roles[j].0
}

proof fn lemma_roles_map_facts(roles: Seq<(NodeId, NodeRoleV)>)
    requires
        distinct_role_ids(roles),
    ensures
        forall|id: NodeId|
            roles_map_of(roles).dom().contains(id) <==> exists|i: int|
                0 <= i < roles.len() && (#[trigger] roles[i]).0 == id,
        forall|i: int|
            0 <= i < roles.len() ==> roles_map_of(roles).dom().contains((#[trigger] roles[i]).0)
                && roles_map_of(roles)[roles[i].0] == roles[i].1,
    decreases roles.len(),
{
    if roles.len() > 0 {
        lemma_roles_map_facts(roles.drop_last());
        assert forall|id: NodeId| roles_map_of(roles).dom().contains(id) implies exists|i: int|
            0 <= i < roles.len() && (#[trigger] roles[i]).0 == id by {
            if id == roles.last().0 {
                assert(roles[roles.len() - 1].0 == id);
            } else {
                assert(roles_map_of(roles.drop_last()).dom().contains(id));
                let i = choose|i: int|
                    0 <= i < roles.drop_last().len() && (#[trigger] roles.drop_last()[i]).0 == id;
                assert(roles.drop_last()[i] == roles[i]);
                assert(roles[i].0 == id);
            }
        }
        assert forall|i: int| 0 <= i < roles.len() implies roles_map_of(roles).dom().contains(
            (#[trigger] roles[i]).0,
        ) && roles_map_of(roles)[roles[i].0] == roles[i].1 by {
            if i == roles.len() - 1 {
            } else {
                assert(roles.drop_last()[i] == roles[i]);
                assert(roles[i].0 != roles.last().0);
            }
        }
    }
}

proof fn lemma_roles_map_update(roles: Seq<(NodeId, NodeRoleV)>, i: int, e: (NodeId, NodeRoleV))
    requires
        distinct_role_ids(roles),
        0 <= i < roles.len(),
        e.0 == roles[i].0,
    ensures
        roles_map_of(roles.update(i, e)) == roles_map_of(roles).insert(e.0, e.1),
        distinct_role_ids(roles.update(i, e)),
{
    lemma_roles_map_facts(roles);
    let updated = roles.update(i, e);
    assert(distinct_role_ids(updated));
    lemma_roles_map_facts(updated);
    assert forall|id: NodeId|
        roles_map_of(updated).dom().contains(id) <==> roles_map_of(roles).insert(
            e.0,
            e.1,
        ).dom().contains(id) by {
        if roles_map_of(updated).dom().contains(id) {
            let a = choose|a: int| 0 <= a < updated.len() && (#[trigger] updated[a]).0 == id;
            if a != i {
                assert(roles[a].0 == id);
            }
        }
        if roles_map_of(roles).insert(e.0, e.1).dom().contains(id) {
            if id == e.0 {
                assert(updated[i].0 == id);
            } else {
                let a = choose|a: int| 0 <= a < roles.len() && (#[trigger] roles[a]).0 == id;
                assert(updated[a].0 == id);
            }
        }
    }
    assert forall|id: NodeId| #[trigger] roles_map_of(updated).dom().contains(
        id,
    ) implies roles_map_of(updated)[id] == roles_map_of(roles).insert(e.0, e.1)[id] by {
        let a = choose|a: int| 0 <= a < updated.len() && (#[trigger] updated[a]).0 == id;
        assert(roles_map_of(updated)[id] == updated[a].1);
        if id == e.0 {
            assert(a == i) by {
                if a != i {
                    assert(roles[a].0 == roles[i].0);
                }
            }
        } else {
            assert(a != i);
            assert(updated[a] == roles[a]);
            assert(roles_map_of(roles)[id] == roles[a].1);
        }
    }
    assert(roles_map_of(updated) =~= roles_map_of(roles).insert(e.0, e.1));
}

proof fn lemma_roles_map_remove(roles: Seq<(NodeId, NodeRoleV)>, i: int)
    requires
        distinct_role_ids(roles),
        0 <= i < roles.len(),
    ensures
        roles_map_of(roles.remove(i)) == roles_map_of(roles).remove(roles[i].0),
        distinct_role_ids(roles.remove(i)),
    decreases roles.len(),
{
    lemma_roles_map_facts(roles);
    let removed = roles.remove(i);
    assert(forall|a: int|
        0 <= a < removed.len() ==> #[trigger] removed[a] == (if a < i {
            roles[a]
        } else {
            roles[a + 1]
        }));
    assert(distinct_role_ids(removed));
    lemma_roles_map_facts(removed);
    assert forall|id: NodeId|
        roles_map_of(removed).dom().contains(id) <==> roles_map_of(roles).remove(
            roles[i].0,
        ).dom().contains(id) by {
        if roles_map_of(removed).dom().contains(id) {
            let a = choose|a: int| 0 <= a < removed.len() && (#[trigger] removed[a]).0 == id;
            if a < i {
                assert(roles[a].0 == id);
                assert(id != roles[i].0);
            } else {
                assert(roles[a + 1].0 == id);
                assert(id != roles[i].0);
            }
        }
        if roles_map_of(roles).remove(roles[i].0).dom().contains(id) {
            let a = choose|a: int| 0 <= a < roles.len() && (#[trigger] roles[a]).0 == id;
            assert(a != i);
            if a < i {
                assert(removed[a].0 == id);
            } else {
                assert(removed[a - 1].0 == id);
            }
        }
    }
    assert forall|id: NodeId| #[trigger] roles_map_of(removed).dom().contains(
        id,
    ) implies roles_map_of(removed)[id] == roles_map_of(roles).remove(roles[i].0)[id] by {
        let a = choose|a: int| 0 <= a < removed.len() && (#[trigger] removed[a]).0 == id;
        assert(roles_map_of(removed)[id] == removed[a].1);
        if a < i {
            assert(roles_map_of(roles)[id] == roles[a].1);
        } else {
            assert(roles_map_of(roles)[id] == roles[a + 1].1);
        }
    }
    assert(roles_map_of(removed) =~= roles_map_of(roles).remove(roles[i].0));
}

/// Index of the role for the given node, if any.
fn find_role(roles: &Vec<(NodeId, NodeRole)>, id: NodeId) -> (r: Option<usize>)
    ensures
        match r {
            Option::Some(i) => i < roles@.len() && roles@[i as int].0 == id,
            Option::None => forall|a: int| 0 <= a < roles@.len() ==> (#[trigger] roles@[a]).0 != id,
        },
{
    let n = roles.len();
    let mut i: usize = 0;
    while i < n
        invariant
            n == roles@.len(),
            i <= n,
            forall|a: int| 0 <= a < i ==> (#[trigger] roles@[a]).0 != id,
        decreases n - i,
    {
        if vstd::std_specs::vec::vec_index(roles, i).0 == id {
            return Option::Some(i);
        }
        i = i + 1;
    }
    Option::None
}

/// Structural equality of two roles.
fn role_eq(a: &NodeRole, b: &NodeRole) -> (r: bool)
    ensures
        r == (a@ == b@),
{
    if !crate::util::text::str_eq(a.zone.as_str(), b.zone.as_str()) {
        return false;
    }
    let cap_eq = match (a.capacity, b.capacity) {
        (Option::Some(x), Option::Some(y)) => x == y,
        (Option::None, Option::None) => true,
        _ => false,
    };
    if !cap_eq {
        return false;
    }
    if a.tags.len() != b.tags.len() {
        proof {
            assert(a@.tags.len() != b@.tags.len());
        }
        return false;
    }
    let n = a.tags.len();
    let mut i: usize = 0;
    while i < n
        invariant
            n == a.tags@.len(),
            n == b.tags@.len(),
            i <= n,
            a@.zone == b@.zone,
            a@.capacity == b@.capacity,
            forall|j: int| 0 <= j < i ==> a@.tags[j] == b@.tags[j],
        decreases n - i,
    {
        let at = vstd::std_specs::vec::vec_index(&a.tags, i);
        let bt = vstd::std_specs::vec::vec_index(&b.tags, i);
        if !crate::util::text::str_eq(at.as_str(), bt.as_str()) {
            proof {
                assert(a@.tags[i as int] != b@.tags[i as int]);
            }
            return false;
        }
        i = i + 1;
    }
    proof {
        assert(a@.tags =~= b@.tags);
        assert(a@ =~~= b@);
    }
    true
}

/// One partition of an anti-entropy round: its hash range and the replica
/// sets, one per live layout version, that must converge on it.
#[derive(Debug)]
pub struct SyncPartition {
    /// The partition number.
    pub partition: Partition,
    /// The smallest hash of the partition's range.
    pub first_hash: crate::data::Hash,
    /// The upper bound of the range: the first hash of the next partition,
    /// or all-ones for the last.
    pub last_hash: crate::data::Hash,
    /// The replica sets to reconcile, one per live layout version.
    pub storage_sets: Vec<Vec<NodeId>>,
}

/// The partitions one anti-entropy round walks.
#[derive(Debug)]
pub struct SyncPartitions {
    /// The layout version the round was planned against.
    pub layout_version: u64,
    /// The partitions to reconcile, in range order.
    pub partitions: Vec<SyncPartition>,
}

/// The newest version is always among the live ones.
pub proof fn lemma_live_nonempty(h: LayoutHistoryV)
    requires
        h.wf(),
    ensures
        h.live_versions().len() >= 1,
        h.live_versions().last() == h.current(),
        h.current().version >= h.sync_ack_min(),
{
    lemma_tracker_min_member(h.sync_ack_map);
    let i = choose|i: int|
        0 <= i < h.sync_ack_map.len() && h.sync_ack_map[i].1 == tracker_min(h.sync_ack_map);
    assert(h.ack_map[i].1 >= h.sync_ack_map[i].1);
    let j = choose|j: int|
        0 <= j < h.versions.len() && (#[trigger] h.ack_map[i]).1 == h.versions[j].version;
    assert(h.versions[j].version <= h.current().version) by {
        if j < h.versions.len() - 1 {
            assert(h.versions[j].version < h.versions[h.versions.len() - 1].version);
        }
        assert(h.current() == h.versions[h.versions.len() - 1]);
    }
    assert(h.current().version >= h.sync_ack_min());
    assert(h.live_versions().last() == h.current());
}

/// Every live version is a stored version, hence well formed.
pub proof fn lemma_live_versions_wf(h: LayoutHistoryV)
    requires
        h.wf(),
    ensures
        forall|k: int|
            0 <= k < h.live_versions().len() ==> (#[trigger] h.live_versions()[k]).wf(),
{
    lemma_live_filter_members(h.versions, h.sync_ack_min());
    assert forall|k: int|
        0 <= k < h.live_versions().len() implies (#[trigger] h.live_versions()[k]).wf() by {
        assert(h.versions.contains(h.live_versions()[k]));
        let j = choose|j: int| 0 <= j < h.versions.len() && h.versions[j] == h.live_versions()[k];
        assert(h.versions[j].wf());
    }
}

/// Fold one staged edit into an accumulating role list.
fn stage_in(
    roles: &mut Vec<(NodeId, NodeRole)>,
    id: NodeId,
    staged: &Option<NodeRole>,
)
    requires
        distinct_role_ids(old(roles)@.map_values(|p: (NodeId, NodeRole)| (p.0, p.1@))),
    ensures
        distinct_role_ids(final (roles)@.map_values(|p: (NodeId, NodeRole)| (p.0, p.1@))),
        roles_map_of(final (roles)@.map_values(|p: (NodeId, NodeRole)| (p.0, p.1@))) == (
        match staged {
            Option::Some(r) => roles_map_of(
                old(roles)@.map_values(|p: (NodeId, NodeRole)| (p.0, p.1@)),
            ).insert(id, r@),
            Option::None => roles_map_of(
                old(roles)@.map_values(|p: (NodeId, NodeRole)| (p.0, p.1@)),
            ).remove(id),
        }),
{
    let ghost accv = roles@.map_values(|p: (NodeId, NodeRole)| (p.0, p.1@));
    proof {
        lemma_roles_map_facts(accv);
    }
    let pos = find_role(roles, id);
    match (staged, pos) {
        (Option::Some(r), Option::Some(i)) => {
            let slot = vstd::std_specs::vec::vec_index_mut(roles, i);
            *slot = (id, r.duplicate());
            proof {
                let newacc = roles@.map_values(|p: (NodeId, NodeRole)| (p.0, p.1@));
                assert(newacc =~= accv.update(i as int, (id, r@)));
                lemma_roles_map_update(accv, i as int, (id, r@));
            }
        },
        (Option::Some(r), Option::None) => {
            roles.push((id, r.duplicate()));
            proof {
                let newacc = roles@.map_values(|p: (NodeId, NodeRole)| (p.0, p.1@));
                assert(newacc.drop_last() =~= accv);
                assert(newacc.last() == (id, r@));
                assert forall|x: int, y: int|
                    0 <= x < y < newacc.len() implies newacc[x].0 != newacc[y].0 by {
                    if y == newacc.len() - 1 {
                        assert(newacc[x] == accv[x]);
                        assert(accv[x].0 == old(roles)@[x].0);
                    } else {
                        assert(newacc[x] == accv[x]);
                        assert(newacc[y] == accv[y]);
                    }
                }
            }
        },
        (Option::None, Option::Some(i)) => {
            roles.remove(i);
            proof {
                let newacc = roles@.map_values(|p: (NodeId, NodeRole)| (p.0, p.1@));
                assert(newacc =~= accv.remove(i as int));
                lemma_roles_map_remove(accv, i as int);
            }
        },
        (Option::None, Option::None) => {
            proof {
                assert(!roles_map_of(accv).dom().contains(id)) by {
                    if roles_map_of(accv).dom().contains(id) {
                        let a = choose|a: int|
                            0 <= a < accv.len() && (#[trigger] accv[a]).0 == id;
                        assert(roles@[a].0 == id);
                    }
                }
                assert(roles_map_of(accv).remove(id) =~= roles_map_of(accv));
            }
        },
    }
}

/// Where the `a`-th replica of a partition starting at `start` sits in a
/// ring of `n` nodes.
pub open spec fn wrap_idx(start: int, a: int, n: int) -> int {
    if start + a < n {
        start + a
    } else {
        start + a - n
    }
}

/// The replica set of one partition: `k` nodes taken round-robin from
/// `ids`, starting at the partition number modulo the node count.
fn ring_replicas(ids: &Vec<NodeId>, p: usize, k: usize) -> (r: Vec<NodeId>)
    requires
        1 <= k <= ids@.len(),
        ids@.no_duplicates(),
    ensures
        r@.len() == k,
        r@.no_duplicates(),
        forall|a: int| 0 <= a < k ==> ids@.contains(#[trigger] r@[a]),
{
    let n = ids.len();
    let start = p % n;
    let mut r: Vec<NodeId> = Vec::new();
    let mut a: usize = 0;
    while a < k
        invariant
            1 <= k <= ids@.len(),
            n == ids@.len(),
            start < n,
            a <= k,
            r@.len() == a,
            forall|b: int| 0 <= b < a ==> #[trigger] r@[b] == ids@[wrap_idx(start as int, b, n as int)],
        decreases k - a,
    {
        let d = n - start;
        let idx = if a < d {
            start + a
        } else {
            a - d
        };
        r.push(ids[idx]);
        a = a + 1;
    }
    proof {
        assert forall|x: int, y: int| 0 <= x < y < k implies r@[x] != r@[y] by {
            assert(wrap_idx(start as int, x, n as int) != wrap_idx(start as int, y, n as int));
            assert(ids@[wrap_idx(start as int, x, n as int)] != ids@[wrap_idx(
                start as int,
                y,
                n as int,
            )]);
        }
        assert forall|b: int| 0 <= b < k implies ids@.contains(#[trigger] r@[b]) by {
            assert(r@[b] == ids@[wrap_idx(start as int, b, n as int)]);
        }
    }
    r
}

impl LayoutHistory {
    /// Validate and commit the staged role edits: when at least
    /// `min_changes` of them actually change a role and at least one node
    /// keeps a role, a new layout version is appended with the next
    /// version number, the edited roles, and a fresh round-robin partition
    /// assignment; the staging area empties and the trackers stay as they
    /// were, so reads keep their version until the nodes acknowledge.
    pub fn apply_staged_changes(&self, min_changes: usize) -> (r: Result<LayoutHistory, crate::util::error::Error>)
        requires
            self@.wf(),
            self@.current().version < u64::MAX,
        ensures
            ({
                let m0 = roles_map_of(self@.current().roles);
                let staged = apply_staging_map(m0, self@.staging);
                match r {
                    Result::Ok(h2) => {
                        &&& staged_change_count(m0, self@.staging) >= min_changes
                        &&& h2@.wf()
                        &&& h2@.versions == self@.versions.push(h2@.current())
                        &&& h2@.current().version == self@.current().version + 1
                        &&& h2@.current().replication_factor
                            == self@.current().replication_factor
                        &&& roles_map_of(h2@.current().roles) == staged
                        &&& h2@.current().roles.len() >= 1
                        &&& h2@.staging == Seq::<(NodeId, Option<NodeRoleV>)>::empty()
                        &&& h2@.ack_map == self@.ack_map
                        &&& h2@.sync_map == self@.sync_map
                        &&& h2@.sync_ack_map == self@.sync_ack_map
                    },
                    Result::Err(_) => staged_change_count(m0, self@.staging) < min_changes
                        || staged =~= Map::<NodeId, NodeRoleV>::empty(),
                }
            }),
    {
        let cur = self.current();
        proof {
            assert(self@.versions[self@.versions.len() - 1].wf());
            assert(cur@.node_ids().no_duplicates());
            assert(distinct_role_ids(cur@.roles)) by {
                assert forall|i: int, j: int|
                    0 <= i < j < cur@.roles.len() implies cur@.roles[i].0 != cur@.roles[j].0 by {
                    assert(cur@.node_ids()[i] == cur@.roles[i].0);
                    assert(cur@.node_ids()[j] == cur@.roles[j].0);
                }
            }
            lemma_roles_map_facts(cur@.roles);
        }
        let ghost m0 = roles_map_of(cur@.roles);
        let base = cur.duplicate();
        let mut roles = base.roles;
        proof {
            assert(roles@.map_values(|p: (NodeId, NodeRole)| (p.0, p.1@)) =~= cur@.roles);
        }
        let mut changes: usize = 0;
        let sn = self.staging.len();
        let mut j: usize = 0;
        while j < sn
            invariant
                self@.wf(),
                sn == self.staging@.len(),
                j <= sn,
                m0 == roles_map_of(self@.current().roles),
                cur@ == self@.current(),
                distinct_role_ids(self@.current().roles),
                distinct_role_ids(roles@.map_values(|p: (NodeId, NodeRole)| (p.0, p.1@))),
                roles_map_of(roles@.map_values(|p: (NodeId, NodeRole)| (p.0, p.1@)))
                    == apply_staging_map(m0, self@.staging.take(j as int)),
                changes <= j,
                changes == staged_change_count(m0, self@.staging.take(j as int)),
            decreases sn - j,
        {
            let entry = vstd::std_specs::vec::vec_index(&self.staging, j);
            let id = entry.0;
            proof {
                assert(self@.staging[j as int] == (
                    id,
                    match entry.1 {
                        Option::Some(ref r) => Option::Some(r@),
                        Option::None => Option::<NodeRoleV>::None,
                    },
                ));
                assert(self@.staging.take(j + 1 as int).drop_last() =~= self@.staging.take(
                    j as int,
                ));
                assert(self@.staging.take(j + 1 as int).last() == self@.staging[j as int]);
                lemma_roles_map_facts(self@.current().roles);
            }
            // does this edit change anything, measured against the
            // committed roles?
            let cur_pos = find_role(&cur.roles, id);
            let changed = match (&entry.1, cur_pos) {
                (Option::Some(r), Option::Some(i)) => {
                    let at = vstd::std_specs::vec::vec_index(&cur.roles, i);
                    let same = role_eq(&at.1, r);
                    proof {
                        assert(self@.current().roles[i as int] == (at.0, at.1@));
                        assert(m0.dom().contains(id));
                        assert(m0[id] == at.1@);
                    }
                    !same
                },
                (Option::Some(_), Option::None) => {
                    proof {
                        if m0.dom().contains(id) {
                            let a = choose|a: int|
                                0 <= a < self@.current().roles.len() && (
                                #[trigger] self@.current().roles[a]).0 == id;
                            assert(cur.roles@[a].0 == id);
                        }
                    }
                    true
                },
                (Option::None, Option::Some(i)) => {
                    proof {
                        assert(self@.current().roles[i as int].0 == id);
                        assert(m0.dom().contains(id));
                    }
                    true
                },
                (Option::None, Option::None) => {
                    proof {
                        if m0.dom().contains(id) {
                            let a = choose|a: int|
                                0 <= a < self@.current().roles.len() && (
                                #[trigger] self@.current().roles[a]).0 == id;
                            assert(cur.roles@[a].0 == id);
                        }
                    }
                    false
                },
            };
            proof {
                assert(changed == is_staged_change(m0, self@.staging[j as int]));
            }
            if changed {
                changes = changes + 1;
            }
            stage_in(&mut roles, id, &entry.1);
            j = j + 1;
        }
        proof {
            assert(self@.staging.take(sn as int) =~= self@.staging);
        }
        if changes < min_changes {
            return Result::Err(
                crate::util::error::Error::BadRequest(
                    <String as vstd::string::StringExecFns>::from_str("Not enough role changes staged"),
                ),
            );
        }
        if roles.len() == 0 {
            proof {
                let accv = roles@.map_values(|p: (NodeId, NodeRole)| (p.0, p.1@));
                assert(accv =~= Seq::<(NodeId, NodeRoleV)>::empty());
                assert(roles_map_of(accv) =~= Map::<NodeId, NodeRoleV>::empty());
            }
            return Result::Err(
                crate::util::error::Error::BadRequest(
                    <String as vstd::string::StringExecFns>::from_str("The staged layout has no nodes left"),
                ),
            );
        }
        // the new assignment: replica sets taken round-robin over the nodes
        let mut ids: Vec<NodeId> = Vec::new();
        let mut i: usize = 0;
        while i < roles.len()
            invariant
                i <= roles@.len(),
                ids@.len() == i,
                forall|a: int| 0 <= a < i ==> #[trigger] ids@[a] == roles@[a].0,
            decreases roles@.len() - i,
        {
            ids.push(vstd::std_specs::vec::vec_index(&roles, i).0);
            i = i + 1;
        }
        proof {
            let accv = roles@.map_values(|p: (NodeId, NodeRole)| (p.0, p.1@));
            assert forall|x: int, y: int| 0 <= x < y < ids@.len() implies ids@[x] != ids@[y] by {
                assert(accv[x].0 == ids@[x]);
                assert(accv[y].0 == ids@[y]);
            }
            assert(ids@.no_duplicates());
        }
        let rf = base.replication_factor;
        let k = if rf <= ids.len() {
            rf
        } else {
            ids.len()
        };
        let mut partitions: Vec<Vec<NodeId>> = Vec::new();
        let mut p: usize = 0;
        while p < NB_PARTITIONS
            invariant
                1 <= k <= ids@.len(),
                ids@.no_duplicates(),
                rf >= 1,
                k == if rf <= ids@.len() {
                    rf as int
                } else {
                    ids@.len() as int
                },
                p <= NB_PARTITIONS,
                partitions@.len() == p,
                forall|q: int|
                    0 <= q < p ==> {
                        let set = (#[trigger] partitions@[q])@;
                        &&& set.len() == k
                        &&& set.no_duplicates()
                        &&& forall|b: int| 0 <= b < set.len() ==> ids@.contains(#[trigger] set[b])
                    },
            decreases NB_PARTITIONS - p,
        {
            partitions.push(ring_replicas(&ids, p, k));
            p = p + 1;
        }
        let new_version = LayoutVersion {
            version: cur.version + 1,
            replication_factor: rf,
            roles,
            partitions,
        };
        proof {
            let nv = new_version@;
            assert(nv.roles == new_version.roles@.map_values(|p: (NodeId, NodeRole)| (p.0, p.1@)));
            assert(nv.node_ids().no_duplicates()) by {
                assert forall|x: int, y: int|
                    0 <= x < y < nv.node_ids().len() implies nv.node_ids()[x]
                    != nv.node_ids()[y] by {
                    assert(nv.node_ids()[x] == nv.roles[x].0);
                    assert(nv.node_ids()[y] == nv.roles[y].0);
                }
            }
            assert(nv.wf()) by {
                assert forall|q: int| 0 <= q < NB_PARTITIONS implies {
                    let set = #[trigger] nv.partitions[q];
                    &&& set.len() == nv.replicas()
                    &&& set.no_duplicates()
                    &&& forall|b: int| 0 <= b < set.len() ==> nv.node_ids().contains(set[b])
                } by {
                    let set = nv.partitions[q];
                    assert(set == partitions@[q]@);
                    assert(set.len() == k);
                    assert forall|b: int| 0 <= b < set.len() implies nv.node_ids().contains(
                        #[trigger] set[b],
                    ) by {
                        assert(ids@.contains(set[b]));
                        let w = choose|w: int| 0 <= w < ids@.len() && ids@[w] == set[b];
                        assert(nv.node_ids()[w] == nv.roles[w].0);
                        assert(nv.roles[w].0 == ids@[w]);
                    }
                }
            }
        }
        let mut versions: Vec<LayoutVersion> = Vec::new();
        let mut vi: usize = 0;
        while vi < self.versions.len()
            invariant
                vi <= self.versions@.len(),
                versions@.len() == vi,
                forall|a: int| 0 <= a < vi ==> (#[trigger] versions@[a])@ == self@.versions[a],
            decreases self.versions@.len() - vi,
        {
            versions.push(vstd::std_specs::vec::vec_index(&self.versions, vi).duplicate());
            vi = vi + 1;
        }
        versions.push(new_version);
        let h2 = LayoutHistory {
            versions,
            ack_map: copy_tracker(&self.ack_map),
            sync_map: copy_tracker(&self.sync_map),
            sync_ack_map: copy_tracker(&self.sync_ack_map),
            staging: Vec::new(),
        };
        proof {
            assert(h2@.versions =~= self@.versions.push(new_version@));
            assert(h2@.current() == new_version@);
            assert(h2@.staging =~= Seq::<(NodeId, Option<NodeRoleV>)>::empty());
            assert(h2@.wf()) by {
                assert forall|a: int, b: int|
                    0 <= a < b < h2@.versions.len() implies h2@.versions[a].version
                    < h2@.versions[b].version by {
                    if b < h2@.versions.len() - 1 {
                        assert(h2@.versions[a] == self@.versions[a]);
                        assert(h2@.versions[b] == self@.versions[b]);
                    } else {
                        assert(h2@.versions[b].version == self@.current().version + 1);
                        if a < h2@.versions.len() - 1 {
                            assert(h2@.versions[a] == self@.versions[a]);
                            if a < self@.versions.len() - 1 {
                                assert(self@.versions[a].version < self@.versions[self@.versions.len() - 1].version);
                            }
                        }
                    }
                }
                assert forall|a: int|
                    0 <= a < h2@.ack_map.len() implies exists|b: int|
                    0 <= b < h2@.versions.len() && (#[trigger] h2@.ack_map[a]).1
                        == h2@.versions[b].version by {
                    let b = choose|b: int|
                        0 <= b < self@.versions.len() && (#[trigger] self@.ack_map[a]).1
                            == self@.versions[b].version;
                    assert(h2@.versions[b] == self@.versions[b]);
                }
            }
        }
        Result::Ok(h2)
    }
}

/// A copy of a progress tracker.
fn copy_tracker(t: &Vec<(NodeId, u64)>) -> (r: Vec<(NodeId, u64)>)
    ensures
        r@ == t@,
{
    let mut r: Vec<(NodeId, u64)> = Vec::new();
    let mut i: usize = 0;
    while i < t.len()
        invariant
            i <= t@.len(),
            r@ =~= t@.take(i as int),
        decreases t@.len() - i,
    {
        r.push(t[i]);
        proof {
            assert(r@ =~= t@.take(i + 1 as int));
        }
        i = i + 1;
    }
    proof {
        assert(t@.take(t@.len() as int) =~= t@);
    }
    r
}

/// The smallest version number in a tracker.
fn tracker_min_exec(t: &Vec<(NodeId, u64)>) -> (r: u64)
    requires
        t@.len() >= 1,
    ensures
        r == tracker_min(t@),
{
    let mut m = t[0].1;
    let mut i: usize = 1;
    while i < t.len()
        invariant
            1 <= i <= t@.len(),
            m == tracker_min(t@.take(i as int)),
        decreases t@.len() - i,
    {
        let v = t[i].1;
        proof {
            assert(t@.take(i + 1 as int).drop_last() =~= t@.take(i as int));
            assert(t@.take(i + 1 as int).last() == t@[i as int]);
        }
        if v < m {
            m = v;
        }
        i = i + 1;
    }
    proof {
        assert(t@.take(t@.len() as int) =~= t@);
    }
    m
}

} // verus!
