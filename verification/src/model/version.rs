//! The block list of one object version.
//!
//! While a large body is uploaded, the blocks it was cut into are recorded
//! here, one row per version, append-only until the version completes.

use vstd::prelude::*;

use crate::model::object::VersionUuid;

verus! {

/// One block of a version's body.
#[derive(Debug)]
pub struct VersionBlock {
    /// Byte offset of the block inside the body.
    pub offset: u64,
    /// Content hash of the block.
    pub hash: crate::data::Hash,
}

/// Mathematical image of a [`VersionBlock`].
#[verifier::ext_equal]
pub ghost struct VersionBlockV {
    pub offset: u64,
    pub hash: Seq<u8>,
}

impl View for VersionBlock {
    type V = VersionBlockV;

    open spec fn view(&self) -> VersionBlockV {
        VersionBlockV { offset: self.offset, hash: self.hash@ }
    }
}

/// The block list of one object version.
#[derive(Debug)]
pub struct Version {
    /// The object version the blocks belong to.
    pub uuid: VersionUuid,
    /// Set once the version is deleted; the blocks may then be dereferenced.
    pub deleted: bool,
    /// The blocks, in strictly increasing offset order.
    pub blocks: Vec<VersionBlock>,
    /// Back-pointer: the bucket of the owning object.
    pub bucket: String,
    /// Back-pointer: the key of the owning object.
    pub key: String,
}

/// Mathematical image of a [`Version`].
#[verifier::ext_equal]
pub ghost struct VersionV {
    pub uuid: VersionUuid,
    pub deleted: bool,
    pub blocks: Seq<VersionBlockV>,
    pub bucket: Seq<char>,
    pub key: Seq<char>,
}

impl View for Version {
    type V = VersionV;

    open spec fn view(&self) -> VersionV {
        VersionV {
            uuid: self.uuid,
            deleted: self.deleted,
            blocks: self.blocks@.map_values(|b: VersionBlock| b@),
            bucket: self.bucket@,
            key: self.key@,
        }
    }
}

impl VersionV {
    /// Offsets strictly increase, so blocks never overlap backwards.
    pub open spec fn wf(&self) -> bool {
        strictly_increasing_offsets(self.blocks)
    }

    /// The blocks keyed by offset.
    pub open spec fn blocks_map(&self) -> Map<u64, Seq<u8>> {
        map_of_blocks(self.blocks)
    }
}

/// Offsets strictly increase along the list.
pub open spec fn strictly_increasing_offsets(bs: Seq<VersionBlockV>) -> bool {
    forall|i: int, j: int| 0 <= i < j < bs.len() ==> bs[i].offset < bs[j].offset
}

/// The blocks of a version, keyed by offset.
pub open spec fn map_of_blocks(bs: Seq<VersionBlockV>) -> Map<u64, Seq<u8>>
    decreases bs.len(),
{
    if bs.len() == 0 {
        Map::empty()
    } else {
        map_of_blocks(bs.drop_last()).insert(bs.last().offset, bs.last().hash)
    }
}

/// Two copies of a version's block list never contradict each other: an
/// offset fixes its block.
pub open spec fn block_maps_agree(m1: Map<u64, Seq<u8>>, m2: Map<u64, Seq<u8>>) -> bool {
    forall|k: u64|
        m1.dom().contains(k) && m2.dom().contains(k) ==> #[trigger] m1[k] == #[trigger] m2[k]
}

/// The merge of two block maps: the union; on a shared offset both sides
/// hold the same hash, so either one serves.
pub open spec fn merge_block_maps(m1: Map<u64, Seq<u8>>, m2: Map<u64, Seq<u8>>) -> Map<
    u64,
    Seq<u8>,
> {
    Map::new(
        |k: u64| m1.dom().contains(k) || m2.dom().contains(k),
        |k: u64|
            if m1.dom().contains(k) {
                m1[k]
            } else {
                m2[k]
            },
    )
}

/// Merging block maps is commutative on agreeing inputs.
pub proof fn lemma_version_merge_commutative(m1: Map<u64, Seq<u8>>, m2: Map<u64, Seq<u8>>)
    requires
        block_maps_agree(m1, m2),
    ensures
        merge_block_maps(m1, m2) == merge_block_maps(m2, m1),
{
    assert(merge_block_maps(m1, m2) =~= merge_block_maps(m2, m1));
}

/// Merging block maps is associative.
pub proof fn lemma_version_merge_associative(
    m1: Map<u64, Seq<u8>>,
    m2: Map<u64, Seq<u8>>,
    m3: Map<u64, Seq<u8>>,
)
    ensures
        merge_block_maps(m1, merge_block_maps(m2, m3)) == merge_block_maps(
            merge_block_maps(m1, m2),
            m3,
        ),
{
    assert(merge_block_maps(m1, merge_block_maps(m2, m3)) =~= merge_block_maps(
        merge_block_maps(m1, m2),
        m3,
    ));
}

/// Merging a block map with itself changes nothing.
pub proof fn lemma_version_merge_idempotent(m: Map<u64, Seq<u8>>)
    ensures
        merge_block_maps(m, m) == m,
{
    assert(merge_block_maps(m, m) =~= m);
}

proof fn lemma_map_of_blocks_facts(bs: Seq<VersionBlockV>)
    requires
        strictly_increasing_offsets(bs),
    ensures
        forall|k: u64|
            map_of_blocks(bs).dom().contains(k) <==> exists|i: int|
                0 <= i < bs.len() && (#[trigger] bs[i]).offset == k,
        forall|i: int|
            0 <= i < bs.len() ==> map_of_blocks(bs).dom().contains((#[trigger] bs[i]).offset)
                && map_of_blocks(bs)[bs[i].offset] == bs[i].hash,
    decreases bs.len(),
{
    if bs.len() > 0 {
        lemma_map_of_blocks_facts(bs.drop_last());
        assert forall|k: u64| map_of_blocks(bs).dom().contains(k) implies exists|i: int|
            0 <= i < bs.len() && (#[trigger] bs[i]).offset == k by {
            if k == bs.last().offset {
                assert(bs[bs.len() - 1].offset == k);
            } else {
                assert(map_of_blocks(bs.drop_last()).dom().contains(k));
                let i = choose|i: int|
                    0 <= i < bs.drop_last().len() && (#[trigger] bs.drop_last()[i]).offset == k;
                assert(bs.drop_last()[i] == bs[i]);
                assert(bs[i].offset == k);
            }
        }
        assert forall|i: int| 0 <= i < bs.len() implies map_of_blocks(bs).dom().contains(
            (#[trigger] bs[i]).offset,
        ) && map_of_blocks(bs)[bs[i].offset] == bs[i].hash by {
            if i == bs.len() - 1 {
            } else {
                assert(bs.drop_last()[i] == bs[i]);
                assert(bs[i].offset != bs.last().offset);
            }
        }
    }
}

/// First index whose offset is not below `offset`.
fn block_lower_bound(blocks: &Vec<VersionBlock>, offset: u64) -> (i: usize)
    ensures
        i <= blocks@.len(),
        forall|a: int| 0 <= a < i ==> (#[trigger] blocks@[a]@).offset < offset,
        i < blocks@.len() ==> blocks@[i as int]@.offset >= offset,
{
    let n = blocks.len();
    let mut i: usize = 0;
    while i < n
        invariant
            n == blocks@.len(),
            i <= n,
            forall|a: int| 0 <= a < i ==> (#[trigger] blocks@[a]@).offset < offset,
        decreases n - i,
    {
        if vstd::std_specs::vec::vec_index(blocks, i).offset >= offset {
            return i;
        }
        i = i + 1;
    }
    n
}

/// Insert a block at its place in an offset-sorted list; a block whose
/// offset is present already changes nothing.
fn insert_block(blocks: &mut Vec<VersionBlock>, nb: &VersionBlock)
    requires
        strictly_increasing_offsets(old(blocks)@.map_values(|b: VersionBlock| b@)),
    ensures
        strictly_increasing_offsets(final (blocks)@.map_values(|b: VersionBlock| b@)),
        map_of_blocks(final (blocks)@.map_values(|b: VersionBlock| b@)) == (
        if map_of_blocks(old(blocks)@.map_values(|b: VersionBlock| b@)).dom().contains(nb@.offset) {
            map_of_blocks(old(blocks)@.map_values(|b: VersionBlock| b@))
        } else {
            map_of_blocks(old(blocks)@.map_values(|b: VersionBlock| b@)).insert(
                nb@.offset,
                nb@.hash,
            )
        }),
{
    let ghost accv = blocks@.map_values(|b: VersionBlock| b@);
    proof {
        lemma_map_of_blocks_facts(accv);
    }
    let i = block_lower_bound(blocks, nb.offset);
    if i < blocks.len() {
        let at = vstd::std_specs::vec::vec_index(blocks, i);
        if at.offset == nb.offset {
            proof {
                assert(accv[i as int].offset == nb@.offset);
                assert(map_of_blocks(accv).dom().contains(nb@.offset));
            }
            return ;
        }
        proof {
            assert(accv[i as int].offset > nb@.offset);
        }
    }
    proof {
        assert(!map_of_blocks(accv).dom().contains(nb@.offset)) by {
            if map_of_blocks(accv).dom().contains(nb@.offset) {
                let a = choose|a: int|
                    0 <= a < accv.len() && (#[trigger] accv[a]).offset == nb@.offset;
                if a < i {
                } else {
                    assert(i < accv.len() ==> accv[i as int].offset <= accv[a].offset);
                }
            }
        }
    }
    let ghost pos = i as int;
    blocks.insert(i, VersionBlock { offset: nb.offset, hash: nb.hash.duplicate() });
    proof {
        let newacc = blocks@.map_values(|b: VersionBlock| b@);
        assert(newacc =~= accv.insert(pos, nb@));
        assert(forall|a: int| 0 <= a < pos ==> #[trigger] newacc[a] == accv[a]);
        assert(newacc[pos] == nb@);
        assert(forall|a: int| pos < a < newacc.len() ==> #[trigger] newacc[a] == accv[a - 1]);
        assert forall|a: int, b: int|
            0 <= a < b < newacc.len() implies newacc[a].offset < newacc[b].offset by {
            assert(forall|c: int| pos <= c < accv.len() ==> (#[trigger] accv[c]).offset >= nb@.offset);
        }
        lemma_map_of_blocks_facts(newacc);
        lemma_map_of_blocks_facts(accv);
        assert forall|k: u64|
            map_of_blocks(newacc).dom().contains(k) <==> map_of_blocks(accv).insert(
                nb@.offset,
                nb@.hash,
            ).dom().contains(k) by {
            if map_of_blocks(newacc).dom().contains(k) {
                let a = choose|a: int| 0 <= a < newacc.len() && (#[trigger] newacc[a]).offset == k;
                if a < pos {
                    assert(accv[a].offset == k);
                } else if a > pos {
                    assert(accv[a - 1].offset == k);
                }
            }
            if map_of_blocks(accv).insert(nb@.offset, nb@.hash).dom().contains(k) {
                if k == nb@.offset {
                    assert(newacc[pos].offset == k);
                } else {
                    let a = choose|a: int| 0 <= a < accv.len() && (#[trigger] accv[a]).offset == k;
                    if a < pos {
                        assert(newacc[a].offset == k);
                    } else {
                        assert(newacc[a + 1].offset == k);
                    }
                }
            }
        }
        assert forall|k: u64| #[trigger] map_of_blocks(newacc).dom().contains(
            k,
        ) implies map_of_blocks(newacc)[k] == map_of_blocks(accv).insert(nb@.offset, nb@.hash)[k] by {
            let a = choose|a: int| 0 <= a < newacc.len() && (#[trigger] newacc[a]).offset == k;
            assert(map_of_blocks(newacc)[k] == newacc[a].hash);
            if k == nb@.offset {
                assert(a == pos) by {
                    if a != pos {
                        if a < pos {
                            assert(accv[a].offset == nb@.offset);
                        } else {
                            assert(accv[a - 1].offset == nb@.offset);
                        }
                    }
                }
            } else {
                if a < pos {
                    assert(map_of_blocks(accv)[k] == accv[a].hash);
                } else {
                    assert(map_of_blocks(accv)[k] == accv[a - 1].hash);
                }
            }
        }
        assert(map_of_blocks(newacc) =~= map_of_blocks(accv).insert(nb@.offset, nb@.hash));
    }
}

impl Version {
    /// The CRDT merge of two copies of one block list: deletion is sticky
    /// and clears the list; otherwise the lists unite, keyed by offset.
    pub fn merged(&self, other: &Version) -> (r: Version)
        requires
            self@.wf(),
            other@.wf(),
            self@.uuid == other@.uuid,
            self@.bucket == other@.bucket,
            self@.key == other@.key,
            block_maps_agree(self@.blocks_map(), other@.blocks_map()),
        ensures
            r@.wf(),
            r@.uuid == self@.uuid,
            r@.bucket == self@.bucket,
            r@.key == self@.key,
            r@.deleted == (self@.deleted || other@.deleted),
            r@.deleted ==> r@.blocks.len() == 0,
            !r@.deleted ==> r@.blocks_map() == merge_block_maps(
                self@.blocks_map(),
                other@.blocks_map(),
            ),
    {
        let deleted = self.deleted || other.deleted;
        if deleted {
            return Version {
                uuid: self.uuid,
                deleted: true,
                blocks: Vec::new(),
                bucket: self.bucket.clone(),
                key: self.key.clone(),
            };
        }
        proof {
            lemma_map_of_blocks_facts(self@.blocks);
            lemma_map_of_blocks_facts(other@.blocks);
        }
        let mut blocks: Vec<VersionBlock> = Vec::new();
        let mut i: usize = 0;
        while i < self.blocks.len()
            invariant
                i <= self.blocks@.len(),
                blocks@.len() == i,
                forall|a: int| 0 <= a < i ==> (#[trigger] blocks@[a])@ == self@.blocks[a],
            decreases self.blocks@.len() - i,
        {
            let b = vstd::std_specs::vec::vec_index(&self.blocks, i);
            blocks.push(VersionBlock { offset: b.offset, hash: b.hash.duplicate() });
            i = i + 1;
        }
        proof {
            assert(blocks@.map_values(|b: VersionBlock| b@) =~= self@.blocks);
        }
        let ghost m1 = self@.blocks_map();
        let ghost othervs = other@.blocks;
        let mut j: usize = 0;
        while j < other.blocks.len()
            invariant
                j <= other.blocks@.len(),
                othervs == other@.blocks,
                m1 == map_of_blocks(self@.blocks),
                strictly_increasing_offsets(othervs),
                block_maps_agree(m1, map_of_blocks(othervs)),
                strictly_increasing_offsets(blocks@.map_values(|b: VersionBlock| b@)),
                map_of_blocks(blocks@.map_values(|b: VersionBlock| b@)) == merge_block_maps(
                    m1,
                    map_of_blocks(othervs.take(j as int)),
                ),
            decreases other.blocks@.len() - j,
        {
            let nb = vstd::std_specs::vec::vec_index(&other.blocks, j);
            proof {
                assert(othervs[j as int] == nb@);
                assert(othervs.take(j + 1 as int).drop_last() =~= othervs.take(j as int));
                assert(othervs.take(j + 1 as int).last() == othervs[j as int]);
                lemma_map_of_blocks_facts(othervs);
                lemma_map_of_blocks_facts(othervs.take(j as int));
                assert(!map_of_blocks(othervs.take(j as int)).dom().contains(nb@.offset)) by {
                    if map_of_blocks(othervs.take(j as int)).dom().contains(nb@.offset) {
                        let a = choose|a: int|
                            0 <= a < othervs.take(j as int).len() && (#[trigger] othervs.take(
                                j as int,
                            )[a]).offset == nb@.offset;
                        assert(othervs[a].offset == othervs[j as int].offset);
                    }
                }
            }
            insert_block(&mut blocks, nb);
            proof {
                let newacc = blocks@.map_values(|b: VersionBlock| b@);
                assert(map_of_blocks(othervs.take(j + 1 as int)) == map_of_blocks(
                    othervs.take(j as int),
                ).insert(nb@.offset, nb@.hash));
                // the maps agree on the shared offset, so either biasing
                // yields the same merge
                assert(map_of_blocks(newacc) =~= merge_block_maps(
                    m1,
                    map_of_blocks(othervs.take(j + 1 as int)),
                )) by {
                    lemma_map_of_blocks_facts(othervs);
                    assert(map_of_blocks(othervs)[nb@.offset] == nb@.hash);
                    if m1.dom().contains(nb@.offset) {
                        assert(map_of_blocks(othervs).dom().contains(nb@.offset));
                        assert(m1[nb@.offset] == nb@.hash);
                    }
                }
            }
            j = j + 1;
        }
        proof {
            assert(othervs.take(othervs.len() as int) =~= othervs);
        }
        let r = Version {
            uuid: self.uuid,
            deleted: false,
            blocks,
            bucket: self.bucket.clone(),
            key: self.key.clone(),
        };
        proof {
            assert(r@.blocks == r.blocks@.map_values(|b: VersionBlock| b@));
        }
        r
    }
}

} // verus!
