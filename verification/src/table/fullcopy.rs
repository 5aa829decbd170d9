//! Full replication: every node stores every record.
//!
//! Reads can then be answered locally; the price is that the whole table
//! must fit on every node, so this suits small metadata tables only. There
//! is a single partition, and anti-entropy reconciles it often.

use vstd::prelude::*;

use crate::data::Partition;
use crate::layout::{
    ConsistencyMode, LayoutHistory, LayoutVersion, LayoutVersionV, NodeId, SyncPartition,
    SyncPartitions,
};

verus! {

/// Seconds between two anti-entropy rounds of a fully replicated table.
pub const FULLCOPY_ANTI_ENTROPY_INTERVAL_SECS: u64 = 10;

/// The smallest node count among the given layout versions.
pub open spec fn min_nodes(vs: Seq<LayoutVersionV>) -> int
    recommends
        vs.len() >= 1,
    decreases vs.len(),
{
    if vs.len() <= 1 {
        vs[0].roles.len() as int
    } else {
        let m = min_nodes(vs.drop_last());
        if vs.last().roles.len() < m {
            vs.last().roles.len() as int
        } else {
            m
        }
    }
}

/// The largest majority quorum among the given layout versions.
pub open spec fn max_quorum(vs: Seq<LayoutVersionV>) -> int
    recommends
        vs.len() >= 1,
    decreases vs.len(),
{
    if vs.len() <= 1 {
        vs[0].roles.len() as int / 2 + 1
    } else {
        let m = max_quorum(vs.drop_last());
        if vs.last().roles.len() as int / 2 + 1 > m {
            vs.last().roles.len() as int / 2 + 1
        } else {
            m
        }
    }
}

/// The write quorum of a fully replicated table: a majority of every live
/// version, unless the live versions disagree so much that none exists, in
/// which case liveness wins and the smallest cluster size is accepted.
pub open spec fn spec_fullcopy_write_quorum(vs: Seq<LayoutVersionV>, mode: ConsistencyMode) -> int
    recommends
        vs.len() >= 1,
{
    if mode == ConsistencyMode::Dangerous {
        1
    } else {
        if min_nodes(vs) < max_quorum(vs) {
            if min_nodes(vs) < 1 {
                1
            } else {
                min_nodes(vs)
            }
        } else {
            max_quorum(vs)
        }
    }
}

/// Full replication: all nodes store everything.
#[derive(Clone, Copy, Debug)]
pub struct TableFullReplication {
    /// How strictly quorums are enforced.
    pub consistency_mode: ConsistencyMode,
}

impl TableFullReplication {
    /// Every node that may hold a record: all nodes of the newest version.
    pub fn storage_nodes(&self, layout: &LayoutHistory, _hash: &crate::data::Hash) -> (r: Vec<
        NodeId,
    >)
        requires
            layout@.wf(),
        ensures
            r@ == layout@.current().node_ids(),
    {
        layout.all_nodes()
    }

    /// Where reads are issued: all nodes of the version that serves reads.
    pub fn read_nodes(&self, layout: &LayoutHistory, _hash: &crate::data::Hash) -> (r: Vec<NodeId>)
        requires
            layout@.wf(),
        ensures
            r@ == layout@.read_version().node_ids(),
    {
        layout.read_version().all_nodes()
    }

    /// How many answers a read needs: one, except a majority of the cluster
    /// under `Consistent`.
    pub fn read_quorum(&self, layout: &LayoutHistory) -> (r: usize)
        requires
            layout@.wf(),
        ensures
            self.consistency_mode != ConsistencyMode::Consistent ==> r == 1,
            self.consistency_mode == ConsistencyMode::Consistent ==> r == (
            layout@.read_version().roles.len() + 1) / 2,
    {
        match self.consistency_mode {
            ConsistencyMode::Dangerous | ConsistencyMode::Degraded => 1,
            ConsistencyMode::Consistent => {
                let n = layout.read_version().roles.len();
                n - n / 2
            },
        }
    }

    /// The node sets a write must reach: all nodes of every live version.
    pub fn write_sets(&self, layout: &LayoutHistory, _hash: &crate::data::Hash) -> (r: Vec<Vec<
        NodeId,
    >>)
        requires
            layout@.wf(),
        ensures
            r@.map_values(|s: Vec<NodeId>| s@) == layout@.live_versions().map_values(
                |v: LayoutVersionV| v.node_ids(),
            ),
    {
        let live = layout.live_versions();
        write_sets(&live)
    }

    /// How many acknowledgements a write needs on every live version.
    pub fn write_quorum(&self, layout: &LayoutHistory) -> (r: usize)
        requires
            layout@.wf(),
        ensures
            r == spec_fullcopy_write_quorum(layout@.live_versions(), self.consistency_mode),
            r >= 1,
    {
        proof {
            crate::layout::lemma_live_nonempty(layout@);
        }
        match self.consistency_mode {
            ConsistencyMode::Dangerous => 1,
            ConsistencyMode::Degraded | ConsistencyMode::Consistent => {
                let live = layout.live_versions();
                let ghost lv = layout@.live_versions();
                let first = vstd::std_specs::vec::vec_index(&live, 0);
                let mut min_len: usize = first.roles.len();
                let mut max_q: usize = first.roles.len() / 2 + 1;
                let mut i: usize = 1;
                proof {
                    assert(lv[0] == live@[0]@);
                    assert(lv.take(1).len() == 1);
                    assert(lv.take(1)[0] == lv[0]);
                }
                while i < live.len()
                    invariant
                        1 <= i <= live@.len(),
                        live@.map_values(|v: LayoutVersion| v@) == lv,
                        lv.len() == live@.len(),
                        min_len == min_nodes(lv.take(i as int)),
                        max_q == max_quorum(lv.take(i as int)),
                    decreases live@.len() - i,
                {
                    let v = vstd::std_specs::vec::vec_index(&live, i);
                    let n = v.roles.len();
                    proof {
                        assert(lv.take(i + 1 as int).drop_last() =~= lv.take(i as int));
                        assert(lv.take(i + 1 as int).last() == lv[i as int]);
                        assert(lv[i as int] == live@[i as int]@);
                        assert(lv[i as int].roles.len() == n);
                    }
                    if n < min_len {
                        min_len = n;
                    }
                    if n / 2 + 1 > max_q {
                        max_q = n / 2 + 1;
                    }
                    i = i + 1;
                }
                proof {
                    assert(lv.take(lv.len() as int) =~= lv);
                }
                if min_len < max_q {
                    if min_len < 1 {
                        1
                    } else {
                        min_len
                    }
                } else {
                    max_q
                }
            },
        }
    }

    /// A fully replicated table has a single partition.
    pub fn partition_of(&self, _hash: &crate::data::Hash) -> (r: Partition)
        ensures
            r == 0,
    {
        0
    }

    /// The one partition an anti-entropy round reconciles, covering the
    /// whole hash range on the write sets of every live version.
    pub fn sync_partitions(&self, layout: &LayoutHistory) -> (r: SyncPartitions)
        requires
            layout@.wf(),
        ensures
            r.layout_version == layout@.ack_map_min(),
            r.partitions@.len() == 1,
            r.partitions@[0].partition == 0,
            r.partitions@[0].first_hash@ == Seq::new(32, |i: int| 0u8),
            r.partitions@[0].last_hash@ == Seq::new(32, |i: int| 0xffu8),
            r.partitions@[0].storage_sets@.map_values(|s: Vec<NodeId>| s@)
                == layout@.live_versions().map_values(|v: LayoutVersionV| v.node_ids()),
    {
        let layout_version = layout.ack_map_min();
        let live = layout.live_versions();
        let storage_sets = write_sets(&live);
        let first_hash = crate::data::FixedBytes32::repeat(0x00);
        let last_hash = crate::data::FixedBytes32::repeat(0xff);
        let mut partitions: Vec<SyncPartition> = Vec::new();
        partitions.push(SyncPartition { partition: 0, first_hash, last_hash, storage_sets });
        SyncPartitions { layout_version, partitions }
    }
}

/// The write sets of the given layout versions: all nodes of each.
pub fn write_sets(layout_versions: &Vec<LayoutVersion>) -> (r: Vec<Vec<NodeId>>)
    ensures
        r@.map_values(|s: Vec<NodeId>| s@) == layout_versions@.map_values(
            |v: LayoutVersion| v@,
        ).map_values(|v: LayoutVersionV| v.node_ids()),
{
    let ghost target = layout_versions@.map_values(|v: LayoutVersion| v@).map_values(
        |v: LayoutVersionV| v.node_ids(),
    );
    let mut r: Vec<Vec<NodeId>> = Vec::new();
    let mut i: usize = 0;
    while i < layout_versions.len()
        invariant
            i <= layout_versions@.len(),
            target == layout_versions@.map_values(|v: LayoutVersion| v@).map_values(
                |v: LayoutVersionV| v.node_ids(),
            ),
            target.len() == layout_versions@.len(),
            r@.len() == i,
            forall|j: int| 0 <= j < i ==> (#[trigger] r@[j])@ == target[j],
        decreases layout_versions@.len() - i,
    {
        let v = vstd::std_specs::vec::vec_index(layout_versions, i);
        r.push(v.all_nodes());
        i = i + 1;
    }
    proof {
        assert(r@.map_values(|s: Vec<NodeId>| s@) =~~= target);
    }
    r
}

} // verus!
