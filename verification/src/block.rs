//! The block manager's core: content checks, reference counting and
//! garbage collection.
//!
//! Blocks are content-addressed: a stored or received block must re-hash to
//! the hash that names it. A per-hash reference counter follows the live
//! `BlockRef` rows; a block becomes collectable only after its counter has
//! been zero for a grace period.

use vstd::prelude::*;

use crate::digest::sha256_of;
use crate::model::object::VersionUuid;
use crate::util::error::Error;

verus! {

/// Milliseconds a block must stay unreferenced before it is collected.
pub const BLOCK_GC_DELAY_MSEC: u64 = 600000;

/// Accept a block for storage only when its bytes hash to its name.
pub fn check_put_block(hash: &crate::data::Hash, data: &[u8]) -> (r: Result<(), Error>)
    requires
        hash.wf(),
    ensures
        r is Ok <==> sha256_of(data@) == hash@,
        r is Err ==> match r {
            Result::Err(e) => match e {
                Error::CorruptData { expected_hash } => expected_hash@ == hash@,
                _ => false,
            },
            _ => true,
        },
{
    let computed = crate::data::hash(data);
    if computed.same(hash) {
        Result::Ok(())
    } else {
        Result::Err(Error::CorruptData { expected_hash: hash.duplicate() })
    }
}

/// The first answered block whose bytes re-hash to the requested hash; the
/// answers before it were corrupt or wrong.
pub fn first_valid_block(hash: &crate::data::Hash, responses: &Vec<Vec<u8>>) -> (r: Option<Vec<
    u8,
>>)
    requires
        hash.wf(),
    ensures
        match r {
            Option::Some(d) => exists|i: int|
                {
                    &&& 0 <= i < responses@.len()
                    &&& (#[trigger] responses@[i])@ == d@
                    &&& sha256_of(d@) == hash@
                    &&& forall|j: int|
                        0 <= j < i ==> sha256_of((#[trigger] responses@[j])@) != hash@
                },
            Option::None => forall|i: int|
                0 <= i < responses@.len() ==> sha256_of((#[trigger] responses@[i])@) != hash@,
        },
{
    let n = responses.len();
    let mut i: usize = 0;
    while i < n
        invariant
            n == responses@.len(),
            hash.wf(),
            i <= n,
            forall|j: int| 0 <= j < i ==> sha256_of((#[trigger] responses@[j])@) != hash@,
        decreases n - i,
    {
        let cand = vstd::std_specs::vec::vec_index(responses, i);
        let computed = crate::data::hash(cand.as_slice());
        if computed.same(hash) {
            let mut copy: Vec<u8> = Vec::new();
            let mut k: usize = 0;
            while k < cand.len()
                invariant
                    k <= cand@.len(),
                    copy@ =~= cand@.take(k as int),
                decreases cand@.len() - k,
            {
                copy.push(cand[k]);
                proof {
                    assert(copy@ =~= cand@.take(k + 1 as int));
                }
                k = k + 1;
            }
            proof {
                assert(cand@.take(cand@.len() as int) =~= cand@);
                assert(responses@[i as int]@ == copy@);
            }
            return Option::Some(copy);
        }
        i = i + 1;
    }
    Option::None
}

/// One counter: how many live references name the block, and since when
/// none has.
#[derive(Debug)]
pub struct RcEntry {
    /// The counted block.
    pub hash: crate::data::Hash,
    /// Number of live references.
    pub count: u64,
    /// When the count last reached zero, if it is zero.
    pub zero_since: Option<u64>,
}

/// Mathematical image of one counter.
#[verifier::ext_equal]
pub ghost struct RcInfoV {
    pub count: u64,
    pub zero_since: Option<u64>,
}

/// The per-hash counters as a map.
pub open spec fn map_of_entries(es: Seq<RcEntry>) -> Map<Seq<u8>, RcInfoV>
    decreases es.len(),
{
    if es.len() == 0 {
        Map::empty()
    } else {
        map_of_entries(es.drop_last()).insert(
            es.last().hash@,
            RcInfoV { count: es.last().count, zero_since: es.last().zero_since },
        )
    }
}

/// No block is counted twice.
pub open spec fn distinct_hashes(es: Seq<RcEntry>) -> bool {
    forall|i: int, j: int| 0 <= i < j < es.len() ==> es[i].hash@ != es[j].hash@
}

/// The reference counter of the block store.
///
/// The ghost `live` map names, for each block, the versions whose
/// references are currently alive; the well-formedness invariant ties every
/// counter to the size of that set, which is what makes garbage collection
/// safe.
pub struct BlockRc {
    entries: Vec<RcEntry>,
    live: Ghost<Map<Seq<u8>, Set<VersionUuid>>>,
}

impl BlockRc {
    /// The counters, keyed by block hash.
    pub closed spec fn counts(&self) -> Map<Seq<u8>, RcInfoV> {
        map_of_entries(self.entries@)
    }

    /// The live references the counters follow.
    pub closed spec fn live_refs(&self) -> Map<Seq<u8>, Set<VersionUuid>> {
        self.live@
    }

    /// The count of a block: zero when it was never referenced.
    pub open spec fn count_of(&self, h: Seq<u8>) -> u64 {
        if self.counts().dom().contains(h) {
            self.counts()[h].count
        } else {
            0
        }
    }

    /// The live references naming one block.
    pub open spec fn live_of(&self, h: Seq<u8>) -> Set<VersionUuid> {
        if self.live_refs().dom().contains(h) {
            self.live_refs()[h]
        } else {
            Set::empty()
        }
    }

    /// Every counter equals the number of live references to its block,
    /// and a grace-period mark stands only on a zero counter.
    pub closed spec fn wf(&self) -> bool {
        &&& distinct_hashes(self.entries@)
        &&& forall|h: Seq<u8>| (#[trigger] self.live_of(h)).finite()
        &&& forall|h: Seq<u8>| self.count_of(h) == (#[trigger] self.live_of(h)).len()
        &&& forall|i: int|
            0 <= i < self.entries@.len() ==> ((#[trigger] self.entries@[i]).zero_since is Some
                ==> self.entries@[i].count == 0)
    }

    /// An empty counter table.
    pub fn new() -> (r: BlockRc)
        ensures
            r.wf(),
            forall|h: Seq<u8>| #[trigger] r.count_of(h) == 0,
            forall|h: Seq<u8>| #[trigger] r.live_of(h) == Set::<VersionUuid>::empty(),
    {
        let r = BlockRc { entries: Vec::new(), live: Ghost(Map::empty()) };
        proof {
            assert forall|h: Seq<u8>| #[trigger] r.live_of(h) == Set::<VersionUuid>::empty() by {
                assert(r.live_of(h) =~= Set::empty());
            }
            assert forall|h: Seq<u8>| (#[trigger] r.live_of(h)).finite() by {
                assert(r.live_of(h) =~= Set::empty());
            }
            assert forall|h: Seq<u8>| r.count_of(h) == (#[trigger] r.live_of(h)).len() by {
                assert(r.live_of(h) =~= Set::empty());
            }
        }
        r
    }

    /// A new live reference `(h, version)` appeared: count it.
    pub fn block_incref(&mut self, h: &crate::data::Hash, version: VersionUuid)
        requires
            old(self).wf(),
            h.wf(),
            !old(self).live_of(h@).contains(version),
            old(self).count_of(h@) < u64::MAX,
        ensures
            final (self).wf(),
            final (self).count_of(h@) == old(self).count_of(h@) + 1,
            final (self).live_of(h@) == old(self).live_of(h@).insert(version),
            forall|other: Seq<u8>|
                other != h@ ==> final (self).count_of(other) == old(self).count_of(other)
                    && #[trigger] final (self).live_of(other) == old(self).live_of(other),
    {
        proof {
            lemma_map_of_entries_facts(self.entries@);
        }
        let ghost oldself = *self;
        let pos = find_hash(&self.entries, h);
        let new_count: u64 = match pos {
            Option::Some(i) => {
                proof {
                    assert(self.counts()[h@] == RcInfoV {
                        count: self.entries@[i as int].count,
                        zero_since: self.entries@[i as int].zero_since,
                    });
                }
                let at = vstd::std_specs::vec::vec_index(&self.entries, i);
                at.count + 1
            },
            Option::None => {
                proof {
                    if self.counts().dom().contains(h@) {
                        let k = choose|k: int|
                            0 <= k < self.entries@.len() && (#[trigger] self.entries@[k]).hash@
                                == h@;
                        assert(false);
                    }
                }
                1
            },
        };
        let new_entry = RcEntry { hash: h.duplicate(), count: new_count, zero_since: Option::None };
        let ghost olde = self.entries@;
        match pos {
            Option::Some(i) => {
                let slot = vstd::std_specs::vec::vec_index_mut(&mut self.entries, i);
                *slot = new_entry;
                proof {
                    lemma_map_of_update_entries(
                        olde,
                        i as int,
                        self.entries@[i as int],
                    );
                }
            },
            Option::None => {
                self.entries.push(new_entry);
                proof {
                    assert(self.entries@.drop_last() =~= olde);
                    assert(distinct_hashes(self.entries@));
                }
            },
        }
        proof {
            self.live@ = oldself.live@.insert(h@, oldself.live_of(h@).insert(version));
            assert(self.counts() =~= oldself.counts().insert(
                h@,
                RcInfoV { count: (oldself.count_of(h@) + 1) as u64, zero_since: Option::None },
            ));
            assert(oldself.live_of(h@).insert(version).len() == oldself.live_of(h@).len() + 1);
            assert forall|x: Seq<u8>| (#[trigger] self.live_of(x)).finite() by {
                if x != h@ {
                    assert(self.live_of(x) == oldself.live_of(x));
                }
            }
            assert forall|x: Seq<u8>| self.count_of(x) == (#[trigger] self.live_of(x)).len() by {
                if x != h@ {
                    assert(self.live_of(x) == oldself.live_of(x));
                    assert(self.count_of(x) == oldself.count_of(x));
                }
            }
            assert forall|other: Seq<u8>|
                other != h@ implies self.count_of(other) == oldself.count_of(other)
                && #[trigger] self.live_of(other) == oldself.live_of(other) by {}
        }
    }

    /// A live reference `(h, version)` went away: discount it; a counter
    /// that reaches zero starts the grace period at `now`.
    pub fn block_decref(&mut self, h: &crate::data::Hash, version: VersionUuid, now: u64)
        requires
            old(self).wf(),
            h.wf(),
            old(self).live_of(h@).contains(version),
        ensures
            final (self).wf(),
            final (self).count_of(h@) == old(self).count_of(h@) - 1,
            final (self).live_of(h@) == old(self).live_of(h@).remove(version),
            final (self).count_of(h@) == 0 ==> final (self).counts().dom().contains(h@) && final (
            self).counts()[h@].zero_since == Option::Some(now),
            forall|other: Seq<u8>|
                other != h@ ==> final (self).count_of(other) == old(self).count_of(other)
                    && #[trigger] final (self).live_of(other) == old(self).live_of(other),
    {
        proof {
            lemma_map_of_entries_facts(self.entries@);
            assert(old(self).live_of(h@).len() >= 1) by {
                if old(self).live_of(h@).len() == 0 {
                    assert(old(self).live_of(h@) =~= Set::empty());
                }
            }
            assert(old(self).count_of(h@) >= 1);
        }
        let ghost oldself = *self;
        let pos = find_hash(&self.entries, h);
        match pos {
            Option::Some(i) => {
                proof {
                    assert(self.counts()[h@] == RcInfoV {
                        count: self.entries@[i as int].count,
                        zero_since: self.entries@[i as int].zero_since,
                    });
                }
                let at = vstd::std_specs::vec::vec_index(&self.entries, i);
                let new_count = at.count - 1;
                let zero_since = if new_count == 0 {
                    Option::Some(now)
                } else {
                    Option::None
                };
                let new_entry = RcEntry { hash: h.duplicate(), count: new_count, zero_since };
                let ghost olde = self.entries@;
                let slot = vstd::std_specs::vec::vec_index_mut(&mut self.entries, i);
                *slot = new_entry;
                proof {
                    lemma_map_of_update_entries(olde, i as int, self.entries@[i as int]);
                    self.live@ = oldself.live@.insert(h@, oldself.live_of(h@).remove(version));
                    assert(self.counts() =~= oldself.counts().insert(
                        h@,
                        RcInfoV {
                            count: (oldself.count_of(h@) - 1) as u64,
                            zero_since: if oldself.count_of(h@) - 1 == 0 {
                                Option::Some(now)
                            } else {
                                Option::None
                            },
                        },
                    ));
                    assert(oldself.live_of(h@).remove(version).len() == oldself.live_of(
                        h@,
                    ).len() - 1);
                    assert forall|x: Seq<u8>| (#[trigger] self.live_of(x)).finite() by {
                        if x != h@ {
                            assert(self.live_of(x) == oldself.live_of(x));
                        }
                    }
                    assert forall|x: Seq<u8>|
                        self.count_of(x) == (#[trigger] self.live_of(x)).len() by {
                        if x != h@ {
                            assert(self.live_of(x) == oldself.live_of(x));
                            assert(self.count_of(x) == oldself.count_of(x));
                        }
                    }
                }
            },
            Option::None => {
                proof {
                    // a live reference exists, so by well-formedness the
                    // counter is at least one and its entry is present
                    if self.counts().dom().contains(h@) {
                        let k = choose|k: int|
                            0 <= k < self.entries@.len() && (#[trigger] self.entries@[k]).hash@
                                == h@;
                        assert(false);
                    }
                    assert(false);
                }
            },
        }
    }

    /// The blocks whose counter has been zero since before the grace
    /// period: exactly those are safe to delete now.
    pub fn gc_candidates(&self, now: u64, gc_delay: u64) -> (r: Vec<crate::data::Hash>)
        requires
            self.wf(),
        ensures
            forall|k: int|
                0 <= k < r@.len() ==> self.counts().dom().contains((#[trigger] r@[k])@)
                    && self.count_of(r@[k]@) == 0,
            forall|k: int|
                0 <= k < r@.len() ==> match self.counts()[(#[trigger] r@[k])@].zero_since {
                    Option::Some(t) => t + gc_delay <= now,
                    Option::None => false,
                },
            forall|h: Seq<u8>|
                #[trigger] self.counts().dom().contains(h) && (match self.counts()[h].zero_since {
                    Option::Some(t) => t + gc_delay <= now,
                    Option::None => false,
                }) ==> exists|k: int| 0 <= k < r@.len() && (#[trigger] r@[k])@ == h,
    {
        proof {
            lemma_map_of_entries_facts(self.entries@);
        }
        let mut r: Vec<crate::data::Hash> = Vec::new();
        let n = self.entries.len();
        let mut i: usize = 0;
        while i < n
            invariant
                self.wf(),
                n == self.entries@.len(),
                i <= n,
                forall|k: int|
                    0 <= k < r@.len() ==> self.counts().dom().contains((#[trigger] r@[k])@)
                        && self.count_of(r@[k]@) == 0,
                forall|k: int|
                    0 <= k < r@.len() ==> match self.counts()[(#[trigger] r@[k])@].zero_since {
                        Option::Some(t) => t + gc_delay <= now,
                        Option::None => false,
                    },
                forall|e: int|
                    0 <= e < i && (match (#[trigger] self.entries@[e]).zero_since {
                        Option::Some(t) => t + gc_delay <= now,
                        Option::None => false,
                    }) ==> exists|k: int|
                        0 <= k < r@.len() && (#[trigger] r@[k])@ == self.entries@[e].hash@,
            decreases n - i,
        {
            proof {
                lemma_map_of_entries_facts(self.entries@);
            }
            let e = vstd::std_specs::vec::vec_index(&self.entries, i);
            let due = match e.zero_since {
                Option::Some(t) => t <= now && now - t >= gc_delay,
                Option::None => false,
            };
            if due {
                proof {
                    assert(self.counts()[e.hash@] == RcInfoV {
                        count: self.entries@[i as int].count,
                        zero_since: self.entries@[i as int].zero_since,
                    });
                    // a zero-since mark exists only while the count is zero:
                    // the counter invariant pins the count itself
                    assert(self.count_of(e.hash@) == self.entries@[i as int].count);
                }
                let ghost prev = r@;
                r.push(e.hash.duplicate());
                proof {
                    let rr = r@;
                    assert forall|e2: int|
                        0 <= e2 < i + 1 && (match (#[trigger] self.entries@[e2]).zero_since {
                            Option::Some(t) => t + gc_delay <= now,
                            Option::None => false,
                        }) implies exists|k: int|
                        0 <= k < rr.len() && (#[trigger] rr[k])@ == self.entries@[e2].hash@ by {
                        if e2 == i {
                            assert(rr[rr.len() - 1]@ == self.entries@[i as int].hash@);
                        } else {
                            let k0 = choose|k: int|
                                0 <= k < prev.len() && (#[trigger] prev[k])@
                                    == self.entries@[e2].hash@;
                            assert(rr[k0] == prev[k0]);
                        }
                    }
                }
            } else {
                proof {
                    let rr = r@;
                    assert forall|e2: int|
                        0 <= e2 < i + 1 && (match (#[trigger] self.entries@[e2]).zero_since {
                            Option::Some(t) => t + gc_delay <= now,
                            Option::None => false,
                        }) implies exists|k: int|
                        0 <= k < rr.len() && (#[trigger] rr[k])@ == self.entries@[e2].hash@ by {
                        if e2 == i {
                            assert(self.entries@[i as int].zero_since == e.zero_since);
                            assert(false);
                        }
                    }
                }
            }
            i = i + 1;
        }
        proof {
            assert forall|h: Seq<u8>|
                #[trigger] self.counts().dom().contains(h) && (match self.counts()[h].zero_since {
                    Option::Some(t) => t + gc_delay <= now,
                    Option::None => false,
                }) implies exists|k: int| 0 <= k < r@.len() && (#[trigger] r@[k])@ == h by {
                let e = choose|e: int|
                    0 <= e < self.entries@.len() && (#[trigger] self.entries@[e]).hash@ == h;
                assert(self.counts()[h] == RcInfoV {
                    count: self.entries@[e].count,
                    zero_since: self.entries@[e].zero_since,
                });
            }
        }
        r
    }
}

/// Refcount safety: while any live reference names a block, its counter is
/// positive, so the block is never among the garbage-collection candidates.
pub proof fn lemma_refcount_safety(
    rc: &BlockRc,
    h: Seq<u8>,
    version: VersionUuid,
    candidates: Seq<crate::data::Hash>,
)
    requires
        rc.wf(),
        rc.live_of(h).contains(version),
        forall|k: int|
            0 <= k < candidates.len() ==> rc.count_of((#[trigger] candidates[k])@) == 0,
    ensures
        forall|k: int| 0 <= k < candidates.len() ==> (#[trigger] candidates[k])@ != h,
{
    assert(rc.live_of(h).len() >= 1) by {
        if rc.live_of(h).len() == 0 {
            assert(rc.live_of(h) =~= Set::empty());
        }
    }
    assert(rc.count_of(h) >= 1);
}

/// Index of the counter for the given hash, if any.
fn find_hash(entries: &Vec<RcEntry>, h: &crate::data::Hash) -> (r: Option<usize>)
    ensures
        match r {
            Option::Some(i) => i < entries@.len() && entries@[i as int].hash@ == h@,
            Option::None => forall|a: int|
                0 <= a < entries@.len() ==> (#[trigger] entries@[a]).hash@ != h@,
        },
{
    let n = entries.len();
    let mut i: usize = 0;
    while i < n
        invariant
            n == entries@.len(),
            i <= n,
            forall|a: int| 0 <= a < i ==> (#[trigger] entries@[a]).hash@ != h@,
        decreases n - i,
    {
        let at = vstd::std_specs::vec::vec_index(entries, i);
        if at.hash.same(h) {
            return Option::Some(i);
        }
        i = i + 1;
    }
    Option::None
}

proof fn lemma_map_of_entries_facts(es: Seq<RcEntry>)
    requires
        distinct_hashes(es),
    ensures
        forall|h: Seq<u8>|
            map_of_entries(es).dom().contains(h) <==> exists|i: int|
                0 <= i < es.len() && (#[trigger] es[i]).hash@ == h,
        forall|i: int|
            0 <= i < es.len() ==> map_of_entries(es).dom().contains((#[trigger] es[i]).hash@)
                && map_of_entries(es)[es[i].hash@] == (RcInfoV {
                count: es[i].count,
                zero_since: es[i].zero_since,
            }),
    decreases es.len(),
{
    if es.len() > 0 {
        lemma_map_of_entries_facts(es.drop_last());
        assert forall|h: Seq<u8>| map_of_entries(es).dom().contains(h) implies exists|i: int|
            0 <= i < es.len() && (#[trigger] es[i]).hash@ == h by {
            if h == es.last().hash@ {
                assert(es[es.len() - 1].hash@ == h);
            } else {
                assert(map_of_entries(es.drop_last()).dom().contains(h));
                let i = choose|i: int|
                    0 <= i < es.drop_last().len() && (#[trigger] es.drop_last()[i]).hash@ == h;
                assert(es.drop_last()[i] == es[i]);
                assert(es[i].hash@ == h);
            }
        }
        assert forall|i: int| 0 <= i < es.len() implies map_of_entries(es).dom().contains(
            (#[trigger] es[i]).hash@,
        ) && map_of_entries(es)[es[i].hash@] == (RcInfoV {
            count: es[i].count,
            zero_since: es[i].zero_since,
        }) by {
            if i == es.len() - 1 {
            } else {
                assert(es.drop_last()[i] == es[i]);
                assert(es[i].hash@ != es.last().hash@);
            }
        }
    }
}

proof fn lemma_map_of_update_entries(es: Seq<RcEntry>, i: int, e: RcEntry)
    requires
        distinct_hashes(es),
        0 <= i < es.len(),
        e.hash@ == es[i].hash@,
    ensures
        map_of_entries(es.update(i, e)) == map_of_entries(es).insert(
            e.hash@,
            (RcInfoV { count: e.count, zero_since: e.zero_since }),
        ),
        distinct_hashes(es.update(i, e)),
{
    lemma_map_of_entries_facts(es);
    let updated = es.update(i, e);
    assert(distinct_hashes(updated));
    lemma_map_of_entries_facts(updated);
    assert forall|h: Seq<u8>|
        map_of_entries(updated).dom().contains(h) <==> map_of_entries(es).insert(
            e.hash@,
            RcInfoV { count: e.count, zero_since: e.zero_since },
        ).dom().contains(h) by {
        if map_of_entries(updated).dom().contains(h) {
            let a = choose|a: int| 0 <= a < updated.len() && (#[trigger] updated[a]).hash@ == h;
            if a == i {
            } else {
                assert(es[a].hash@ == h);
            }
        }
        if map_of_entries(es).insert(
            e.hash@,
            RcInfoV { count: e.count, zero_since: e.zero_since },
        ).dom().contains(h) {
            if h == e.hash@ {
                assert(updated[i].hash@ == h);
            } else {
                let a = choose|a: int| 0 <= a < es.len() && (#[trigger] es[a]).hash@ == h;
                assert(updated[a].hash@ == h);
            }
        }
    }
    assert forall|h: Seq<u8>| #[trigger] map_of_entries(updated).dom().contains(
        h,
    ) implies map_of_entries(updated)[h] == map_of_entries(es).insert(
        e.hash@,
        RcInfoV { count: e.count, zero_since: e.zero_since },
    )[h] by {
        let a = choose|a: int| 0 <= a < updated.len() && (#[trigger] updated[a]).hash@ == h;
        assert(map_of_entries(updated)[h] == RcInfoV {
            count: updated[a].count,
            zero_since: updated[a].zero_since,
        });
        if h == e.hash@ {
            assert(a == i) by {
                if a != i {
                    assert(es[a].hash@ == es[i].hash@);
                }
            }
        } else {
            assert(a != i);
            assert(updated[a] == es[a]);
            assert(map_of_entries(es)[h] == RcInfoV {
                count: es[a].count,
                zero_since: es[a].zero_since,
            });
        }
    }
    assert(map_of_entries(updated) =~= map_of_entries(es).insert(
        e.hash@,
        RcInfoV { count: e.count, zero_since: e.zero_since },
    ));
}

} // verus!
