//! Sharded replication: each record lives on the few nodes its partition
//! hash selects.
//!
//! Reads and writes go to the replica set of the record's partition; during
//! a rebalance, writes must reach the replica set of every live layout
//! version, and anti-entropy reconciles partition by partition.

use vstd::prelude::*;

use vstd::seq_lib::*;

use crate::data::Partition;
use crate::layout::{
    ConsistencyMode, LayoutHistory, LayoutVersion, LayoutVersionV, NodeId, SyncPartition,
    SyncPartitions, NB_PARTITIONS,
};

verus! {

/// Seconds between two anti-entropy rounds of a sharded table.
pub const SHARDED_ANTI_ENTROPY_INTERVAL_SECS: u64 = 600;

/// Strictly increasing, hence duplicate-free.
pub open spec fn sorted_strict(s: Seq<u64>) -> bool {
    forall|i: int, j: int| 0 <= i < j < s.len() ==> s[i] < s[j]
}

/// Every node that stores partition `p` under any of the given versions.
pub open spec fn storage_set(vs: Seq<LayoutVersionV>, p: int) -> Set<NodeId>
    decreases vs.len(),
{
    if vs.len() == 0 {
        Set::empty()
    } else {
        storage_set(vs.drop_last(), p).union(vs.last().partitions[p].to_set())
    }
}

/// First index whose element is not below `x`.
fn lower_bound(v: &Vec<u64>, x: u64) -> (i: usize)
    requires
        sorted_strict(v@),
    ensures
        i <= v@.len(),
        forall|j: int| 0 <= j < i ==> v@[j] < x,
        i < v@.len() ==> v@[i as int] >= x,
{
    let n = v.len();
    let mut i: usize = 0;
    while i < n
        invariant
            i <= n,
            n == v@.len(),
            forall|j: int| 0 <= j < i ==> v@[j] < x,
        decreases n - i,
    {
        if v[i] >= x {
            return i;
        }
        i = i + 1;
    }
    n
}

/// Insert `x` into a strictly sorted vector, keeping it strictly sorted;
/// inserting a present value changes nothing.
fn sorted_insert(v: &mut Vec<u64>, x: u64)
    requires
        sorted_strict(old(v)@),
    ensures
        sorted_strict(final (v)@),
        final (v)@.to_set() == old(v)@.to_set().insert(x),
{
    let i = lower_bound(v, x);
    if i < v.len() {
        let present = *vstd::std_specs::vec::vec_index(v, i) == x;
        if present {
            proof {
                assert(v@.contains(x));
                assert(v@.to_set() =~= v@.to_set().insert(x));
            }
            return ;
        }
    }
    let ghost oldv = v@;
    v.insert(i, x);
    proof {
        assert(v@ =~= oldv.take(i as int).push(x) + oldv.skip(i as int));
        assert forall|a: int, b: int| 0 <= a < b < v@.len() implies v@[a] < v@[b] by {
            assert(v@.len() == oldv.len() + 1);
            assert(forall|k: int| 0 <= k < i ==> v@[k] == oldv[k]);
            assert(v@[i as int] == x);
            assert(forall|k: int| i < k < v@.len() ==> v@[k] == oldv[k - 1]);
            assert(forall|k: int| i <= k < oldv.len() ==> oldv[k] > x || oldv[k] == x);
            assert(i < oldv.len() ==> oldv[i as int] != x);
        }
        assert(v@.to_set() =~= oldv.to_set().insert(x)) by {
            assert forall|y: u64| v@.to_set().contains(y) implies oldv.to_set().insert(x).contains(
                y,
            ) by {
                let k = choose|k: int| 0 <= k < v@.len() && v@[k] == y;
                if k < i {
                    assert(oldv[k] == y);
                } else if k > i {
                    assert(oldv[k - 1] == y);
                }
            }
            assert forall|y: u64| oldv.to_set().insert(x).contains(y) implies v@.to_set().contains(
                y,
            ) by {
                if y == x {
                    assert(v@[i as int] == y);
                } else {
                    let k = choose|k: int| 0 <= k < oldv.len() && oldv[k] == y;
                    if k < i {
                        assert(v@[k] == y);
                    } else {
                        assert(v@[k + 1] == y);
                    }
                }
            }
        }
    }
}

/// Sharded replication: the record's hash picks its replica set.
#[derive(Clone, Copy, Debug)]
pub struct TableShardedReplication {
    /// How strictly quorums are enforced.
    pub consistency_mode: ConsistencyMode,
}

impl TableShardedReplication {
    /// Every node that may hold the record: the union, over all live layout
    /// versions, of the partition's replica sets, sorted and deduplicated.
    pub fn storage_nodes(&self, layout: &LayoutHistory, hash: &crate::data::Hash) -> (r: Vec<
        NodeId,
    >)
        requires
            layout@.wf(),
            hash.wf(),
        ensures
            sorted_strict(r@),
            r@.to_set() == storage_set(layout@.live_versions(), hash.spec_partition() as int),
    {
        let ghost p = hash.spec_partition() as int;
        proof {
            crate::layout::lemma_live_versions_wf(layout@);
        }
        let live = layout.live_versions();
        let ghost lv = layout@.live_versions();
        let mut out: Vec<NodeId> = Vec::new();
        let mut i: usize = 0;
        while i < live.len()
            invariant
                i <= live@.len(),
                live@.map_values(|v: LayoutVersion| v@) == lv,
                lv.len() == live@.len(),
                layout@.wf(),
                hash.wf(),
                p == hash.spec_partition() as int,
                forall|j: int| 0 <= j < lv.len() ==> (#[trigger] lv[j]).wf(),
                forall|j: int| 0 <= j < live@.len() ==> live@[j]@ == lv[j],
                sorted_strict(out@),
                out@.to_set() == storage_set(lv.take(i as int), p),
            decreases live@.len() - i,
        {
            let v = vstd::std_specs::vec::vec_index(&live, i);
            proof {
                assert(lv[i as int] == live@[i as int]@);
            }
            let nodes = v.nodes_of(hash);
            let mut j: usize = 0;
            while j < nodes.len()
                invariant
                    j <= nodes@.len(),
                    nodes@ == lv[i as int].partitions[p],
                    0 <= i < lv.len(),
                    sorted_strict(out@),
                    out@.to_set() == storage_set(lv.take(i as int), p).union(
                        nodes@.take(j as int).to_set(),
                    ),
                decreases nodes@.len() - j,
            {
                let x = nodes[j];
                sorted_insert(&mut out, x);
                proof {
                    assert(nodes@.take(j + 1 as int) =~= nodes@.take(j as int).push(nodes@[j as int]));
                    nodes@.take(j as int).lemma_push_to_set_commute(nodes@[j as int]);
                    assert(out@.to_set() =~= storage_set(lv.take(i as int), p).union(
                        nodes@.take(j + 1 as int).to_set(),
                    ));
                }
                j = j + 1;
            }
            proof {
                assert(nodes@.take(nodes@.len() as int) =~= nodes@);
                assert(lv.take(i + 1 as int).drop_last() =~= lv.take(i as int));
                assert(lv.take(i + 1 as int).last() == lv[i as int]);
                assert(out@.to_set() =~= storage_set(lv.take(i + 1 as int), p));
            }
            i = i + 1;
        }
        proof {
            assert(lv.take(lv.len() as int) =~= lv);
        }
        out
    }

    /// Where reads are issued: the replica set under the version that
    /// serves reads.
    pub fn read_nodes(&self, layout: &LayoutHistory, hash: &crate::data::Hash) -> (r: Vec<NodeId>)
        requires
            layout@.wf(),
            hash.wf(),
        ensures
            r@ == layout@.read_version().partitions[hash.spec_partition() as int],
    {
        proof {
            layout@.lemma_read_version_exists();
            assert(layout@.versions[layout@.read_version_idx()].wf());
        }
        layout.read_version().nodes_of(hash)
    }

    /// How many answers a read needs, under the version that serves reads.
    pub fn read_quorum(&self, layout: &LayoutHistory) -> (r: usize)
        requires
            layout@.wf(),
        ensures
            r == layout@.read_version().spec_read_quorum(self.consistency_mode),
    {
        proof {
            layout@.lemma_read_version_exists();
        }
        layout.read_version().read_quorum(self.consistency_mode)
    }

    /// The node sets a write must reach: the partition's replica set under
    /// every live layout version.
    pub fn write_sets(&self, layout: &LayoutHistory, hash: &crate::data::Hash) -> (r: Vec<Vec<
        NodeId,
    >>)
        requires
            layout@.wf(),
            hash.wf(),
        ensures
            r@.map_values(|s: Vec<NodeId>| s@) == layout@.live_versions().map_values(
                |v: LayoutVersionV| v.partitions[hash.spec_partition() as int],
            ),
    {
        proof {
            crate::layout::lemma_live_versions_wf(layout@);
        }
        let live = layout.live_versions();
        proof {
            let ghost lv = layout@.live_versions();
            assert forall|j: int| 0 <= j < live@.len() implies (#[trigger] live@[j]@).wf() by {
                assert(live@.map_values(|v: LayoutVersion| v@)[j] == live@[j]@);
                assert(live@[j]@ == lv[j]);
            }
        }
        write_sets(&live, hash)
    }

    /// How many acknowledgements a write needs, under the newest version.
    pub fn write_quorum(&self, layout: &LayoutHistory) -> (r: usize)
        requires
            layout@.wf(),
        ensures
            r == layout@.current().spec_write_quorum(self.consistency_mode),
    {
        layout.current().write_quorum(self.consistency_mode)
    }

    /// The partition of a record's hash.
    pub fn partition_of(&self, hash: &crate::data::Hash) -> (r: Partition)
        requires
            hash.wf(),
        ensures
            r == hash.spec_partition(),
            r < 256,
    {
        hash.partition()
    }

    /// The partitions one anti-entropy round walks: all 256, in range
    /// order, each with the replica sets of every live layout version.
    pub fn sync_partitions(&self, layout: &LayoutHistory) -> (r: SyncPartitions)
        requires
            layout@.wf(),
        ensures
            r.layout_version == layout@.ack_map_min(),
            r.partitions@.len() == NB_PARTITIONS,
            forall|p: int|
                0 <= p < NB_PARTITIONS ==> {
                    let sp = #[trigger] r.partitions@[p];
                    &&& sp.partition == p
                    &&& sp.first_hash.wf()
                    &&& sp.first_hash.spec_partition() == p
                    &&& sp.first_hash@ == Seq::new(
                        32,
                        |k: int| if k == 0 { p as u8 } else { 0u8 },
                    )
                    &&& sp.last_hash.wf()
                    &&& (p < 255 ==> sp.last_hash.spec_partition() == p + 1 && sp.last_hash@
                        == Seq::new(32, |k: int| if k == 0 { (p + 1) as u8 } else { 0u8 }))
                    &&& (p == 255 ==> sp.last_hash@ == Seq::new(32, |k: int| 0xffu8))
                    &&& (p < 255 ==> sp.last_hash@ == r.partitions@[p + 1].first_hash@)
                    &&& sp.storage_sets@.map_values(|s: Vec<NodeId>| s@)
                        == layout@.live_versions().map_values(|v: LayoutVersionV| v.partitions[p])
                },
    {
        let layout_version = layout.ack_map_min();
        proof {
            crate::layout::lemma_live_versions_wf(layout@);
        }
        let live = layout.live_versions();
        let ghost lv = layout@.live_versions();
        proof {
            assert forall|j: int| 0 <= j < live@.len() implies (#[trigger] live@[j]@).wf() by {
                assert(live@.map_values(|v: LayoutVersion| v@)[j] == live@[j]@);
                assert(live@[j]@ == lv[j]);
            }
        }
        let mut partitions: Vec<SyncPartition> = Vec::new();
        let mut p: u16 = 0;
        while p < 256
            invariant
                p <= 256,
                live@.map_values(|v: LayoutVersion| v@) == lv,
                lv == layout@.live_versions(),
                forall|j: int| 0 <= j < live@.len() ==> (#[trigger] live@[j]@).wf(),
                partitions@.len() == p,
                forall|q: int|
                    0 <= q < p ==> {
                        let sp = #[trigger] partitions@[q];
                        &&& sp.partition == q
                        &&& sp.first_hash.wf()
                        &&& sp.first_hash.spec_partition() == q
                        &&& sp.first_hash@ == Seq::new(
                            32,
                            |k: int| if k == 0 { q as u8 } else { 0u8 },
                        )
                        &&& sp.last_hash.wf()
                        &&& (q < 255 ==> sp.last_hash.spec_partition() == q + 1 && sp.last_hash@
                            == Seq::new(32, |k: int| if k == 0 { (q + 1) as u8 } else { 0u8 }))
                        &&& (q == 255 ==> sp.last_hash@ == Seq::new(32, |k: int| 0xffu8))
                        &&& sp.storage_sets@.map_values(|s: Vec<NodeId>| s@) == lv.map_values(
                            |v: LayoutVersionV| v.partitions[q],
                        )
                    },
            decreases 256 - p,
        {
            let first_hash = crate::data::FixedBytes32::first_of_partition(p);
            let last_hash = if p < 255 {
                crate::data::FixedBytes32::first_of_partition(p + 1)
            } else {
                crate::data::FixedBytes32::repeat(0xff)
            };
            let storage_sets = partition_write_sets(&live, p);
            partitions.push(
                SyncPartition { partition: p, first_hash, last_hash, storage_sets },
            );
            p = p + 1;
        }
        proof {
            assert forall|q: int| 0 <= q < 255 implies (#[trigger] partitions@[q]).last_hash@
                == partitions@[q + 1].first_hash@ by {
                assert(partitions@[q].last_hash@ =~= partitions@[q + 1].first_hash@);
            }
        }
        SyncPartitions { layout_version, partitions }
    }
}

/// The write sets of the partition that `hash` falls in, one per version.
pub fn write_sets(layout_versions: &Vec<LayoutVersion>, hash: &crate::data::Hash) -> (r: Vec<Vec<
    NodeId,
>>)
    requires
        hash.wf(),
        forall|j: int|
            0 <= j < layout_versions@.len() ==> (#[trigger] layout_versions@[j]@).wf(),
    ensures
        r@.map_values(|s: Vec<NodeId>| s@) == layout_versions@.map_values(
            |v: LayoutVersion| v@,
        ).map_values(|v: LayoutVersionV| v.partitions[hash.spec_partition() as int]),
{
    let ghost target = layout_versions@.map_values(|v: LayoutVersion| v@).map_values(
        |v: LayoutVersionV| v.partitions[hash.spec_partition() as int],
    );
    let mut r: Vec<Vec<NodeId>> = Vec::new();
    let mut i: usize = 0;
    while i < layout_versions.len()
        invariant
            i <= layout_versions@.len(),
            hash.wf(),
            forall|j: int|
                0 <= j < layout_versions@.len() ==> (#[trigger] layout_versions@[j]@).wf(),
            target == layout_versions@.map_values(|v: LayoutVersion| v@).map_values(
                |v: LayoutVersionV| v.partitions[hash.spec_partition() as int],
            ),
            target.len() == layout_versions@.len(),
            r@.len() == i,
            forall|j: int| 0 <= j < i ==> (#[trigger] r@[j])@ == target[j],
        decreases layout_versions@.len() - i,
    {
        let v = vstd::std_specs::vec::vec_index(layout_versions, i);
        r.push(v.nodes_of(hash));
        i = i + 1;
    }
    proof {
        assert(r@.map_values(|s: Vec<NodeId>| s@) =~~= target);
    }
    r
}

/// The replica sets of one partition, one per version.
fn partition_write_sets(layout_versions: &Vec<LayoutVersion>, p: u16) -> (r: Vec<Vec<NodeId>>)
    requires
        p < 256,
        forall|j: int|
            0 <= j < layout_versions@.len() ==> (#[trigger] layout_versions@[j]@).wf(),
    ensures
        r@.map_values(|s: Vec<NodeId>| s@) == layout_versions@.map_values(
            |v: LayoutVersion| v@,
        ).map_values(|v: LayoutVersionV| v.partitions[p as int]),
{
    let ghost target = layout_versions@.map_values(|v: LayoutVersion| v@).map_values(
        |v: LayoutVersionV| v.partitions[p as int],
    );
    let mut r: Vec<Vec<NodeId>> = Vec::new();
    let mut i: usize = 0;
    while i < layout_versions.len()
        invariant
            i <= layout_versions@.len(),
            p < 256,
            forall|j: int|
                0 <= j < layout_versions@.len() ==> (#[trigger] layout_versions@[j]@).wf(),
            target == layout_versions@.map_values(|v: LayoutVersion| v@).map_values(
                |v: LayoutVersionV| v.partitions[p as int],
            ),
            target.len() == layout_versions@.len(),
            r@.len() == i,
            forall|j: int| 0 <= j < i ==> (#[trigger] r@[j])@ == target[j],
        decreases layout_versions@.len() - i,
    {
        let v = vstd::std_specs::vec::vec_index(layout_versions, i);
        proof {
            assert((layout_versions@[i as int]@).wf());
            assert(v@.partitions.len() == crate::layout::NB_PARTITIONS);
        }
        let set = vstd::std_specs::vec::vec_index(&v.partitions, p as usize);
        let mut copy: Vec<NodeId> = Vec::new();
        let mut j: usize = 0;
        while j < set.len()
            invariant
                j <= set@.len(),
                copy@ =~= set@.take(j as int),
            decreases set@.len() - j,
        {
            copy.push(set[j]);
            proof {
                assert(copy@ =~= set@.take(j + 1 as int));
            }
            j = j + 1;
        }
        proof {
            assert(set@.take(set@.len() as int) =~= set@);
            assert(target[i as int] == layout_versions@[i as int]@.partitions[p as int]);
        }
        r.push(copy);
        i = i + 1;
    }
    proof {
        assert(r@.map_values(|s: Vec<NodeId>| s@) =~~= target);
    }
    r
}

} // verus!
