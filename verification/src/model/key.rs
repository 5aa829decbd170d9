//! Access keys and their per-bucket permissions, merged as a CRDT.
//!
//! A key row carries a tombstone and one last-writer-wins register per
//! bucket holding the granted permissions. Deletion is sticky and clears
//! the grants; otherwise merging keeps, per bucket, the newer grant, and on
//! a timestamp tie each permission that either side granted stays granted.

use vstd::prelude::*;

verus! {

/// The permissions a key holds on one bucket, as last written.
#[derive(Clone, Copy, Debug, PartialEq, Eq, Structural)]
pub struct BucketKeyPerm {
    /// When the grant was last written, in milliseconds.
    pub timestamp: u64,
    /// May read objects.
    pub allow_read: bool,
    /// May write objects.
    pub allow_write: bool,
    /// May administer the bucket.
    pub allow_owner: bool,
}

/// One granted bucket of a key.
#[derive(Clone, Copy, Debug, PartialEq, Eq, Structural)]
pub struct KeyGrant {
    /// The bucket the grant is for.
    pub bucket_id: u64,
    /// The granted permissions.
    pub perm: BucketKeyPerm,
}

/// An access-key row.
#[derive(Debug)]
pub struct Key {
    /// The key's identifier.
    pub key_id: String,
    /// The secret the key authenticates with.
    pub secret_key: String,
    /// True once the key was deleted; grants no longer count.
    pub deleted: bool,
    /// The buckets the key may touch, each bucket at most once.
    pub grants: Vec<KeyGrant>,
}

/// Mathematical image of a [`Key`].
#[verifier::ext_equal]
pub ghost struct KeyV {
    pub key_id: Seq<char>,
    pub secret_key: Seq<char>,
    pub deleted: bool,
    pub grants: Seq<KeyGrant>,
}

impl View for Key {
    type V = KeyV;

    open spec fn view(&self) -> KeyV {
        KeyV {
            key_id: self.key_id@,
            secret_key: self.secret_key@,
            deleted: self.deleted,
            grants: self.grants@,
        }
    }
}

/// The join of two grants for one bucket: the newer write wins; on a tie
/// every permission either side granted stays granted.
pub open spec fn join_perm(a: BucketKeyPerm, b: BucketKeyPerm) -> BucketKeyPerm {
    if a.timestamp > b.timestamp {
        a
    } else if b.timestamp > a.timestamp {
        b
    } else {
        BucketKeyPerm {
            timestamp: a.timestamp,
            allow_read: a.allow_read || b.allow_read,
            allow_write: a.allow_write || b.allow_write,
            allow_owner: a.allow_owner || b.allow_owner,
        }
    }
}

/// The grant join is commutative.
pub proof fn lemma_perm_join_commutative(a: BucketKeyPerm, b: BucketKeyPerm)
    ensures
        join_perm(a, b) == join_perm(b, a),
{
}

/// The grant join is associative.
pub proof fn lemma_perm_join_associative(a: BucketKeyPerm, b: BucketKeyPerm, c: BucketKeyPerm)
    ensures
        join_perm(join_perm(a, b), c) == join_perm(a, join_perm(b, c)),
{
}

/// The grant join is idempotent.
pub proof fn lemma_perm_join_idempotent(a: BucketKeyPerm)
    ensures
        join_perm(a, a) == a,
{
}

/// The grants of a key, keyed by bucket.
pub open spec fn map_of_grants(gs: Seq<KeyGrant>) -> Map<u64, BucketKeyPerm>
    decreases gs.len(),
{
    if gs.len() == 0 {
        Map::empty()
    } else {
        map_of_grants(gs.drop_last()).insert(gs.last().bucket_id, gs.last().perm)
    }
}

/// No bucket occurs twice.
pub open spec fn distinct_buckets(gs: Seq<KeyGrant>) -> bool {
    forall|i: int, j: int| 0 <= i < j < gs.len() ==> gs[i].bucket_id != gs[j].bucket_id
}

/// The merge of two grant maps: union of buckets, join on shared ones.
pub open spec fn merge_grant_maps(m1: Map<u64, BucketKeyPerm>, m2: Map<u64, BucketKeyPerm>) -> Map<
    u64,
    BucketKeyPerm,
> {
    Map::new(
        |k: u64| m1.dom().contains(k) || m2.dom().contains(k),
        |k: u64|
            if m1.dom().contains(k) && m2.dom().contains(k) {
                join_perm(m1[k], m2[k])
            } else if m1.dom().contains(k) {
                m1[k]
            } else {
                m2[k]
            },
    )
}

/// Merging grant maps is commutative.
pub proof fn lemma_key_merge_commutative(m1: Map<u64, BucketKeyPerm>, m2: Map<u64, BucketKeyPerm>)
    ensures
        merge_grant_maps(m1, m2) == merge_grant_maps(m2, m1),
{
    assert(merge_grant_maps(m1, m2) =~= merge_grant_maps(m2, m1));
}

/// Merging grant maps is associative.
pub proof fn lemma_key_merge_associative(
    m1: Map<u64, BucketKeyPerm>,
    m2: Map<u64, BucketKeyPerm>,
    m3: Map<u64, BucketKeyPerm>,
)
    ensures
        merge_grant_maps(m1, merge_grant_maps(m2, m3)) == merge_grant_maps(
            merge_grant_maps(m1, m2),
            m3,
        ),
{
    assert(merge_grant_maps(m1, merge_grant_maps(m2, m3)) =~= merge_grant_maps(
        merge_grant_maps(m1, m2),
        m3,
    ));
}

/// Merging a grant map with itself changes nothing.
pub proof fn lemma_key_merge_idempotent(m: Map<u64, BucketKeyPerm>)
    ensures
        merge_grant_maps(m, m) == m,
{
    assert(merge_grant_maps(m, m) =~= m);
}

impl KeyV {
    /// Well-formedness: each bucket occurs once.
    pub open spec fn wf(&self) -> bool {
        distinct_buckets(self.grants)
    }

    /// The grants keyed by bucket.
    pub open spec fn grants_map(&self) -> Map<u64, BucketKeyPerm> {
        map_of_grants(self.grants)
    }
}

proof fn lemma_map_of_grants_facts(gs: Seq<KeyGrant>)
    requires
        distinct_buckets(gs),
    ensures
        forall|k: u64|
            map_of_grants(gs).dom().contains(k) <==> exists|i: int|
                0 <= i < gs.len() && (#[trigger] gs[i]).bucket_id == k,
        forall|i: int|
            0 <= i < gs.len() ==> map_of_grants(gs).dom().contains((#[trigger] gs[i]).bucket_id)
                && map_of_grants(gs)[gs[i].bucket_id] == gs[i].perm,
    decreases gs.len(),
{
    if gs.len() > 0 {
        lemma_map_of_grants_facts(gs.drop_last());
        assert forall|k: u64| map_of_grants(gs).dom().contains(k) implies exists|i: int|
            0 <= i < gs.len() && (#[trigger] gs[i]).bucket_id == k by {
            if k == gs.last().bucket_id {
                assert(gs[gs.len() - 1].bucket_id == k);
            } else {
                assert(map_of_grants(gs.drop_last()).dom().contains(k));
                let i = choose|i: int|
                    0 <= i < gs.drop_last().len() && (#[trigger] gs.drop_last()[i]).bucket_id == k;
                assert(gs.drop_last()[i] == gs[i]);
                assert(gs[i].bucket_id == k);
            }
        }
        assert forall|i: int| 0 <= i < gs.len() implies map_of_grants(gs).dom().contains(
            (#[trigger] gs[i]).bucket_id,
        ) && map_of_grants(gs)[gs[i].bucket_id] == gs[i].perm by {
            if i == gs.len() - 1 {
            } else {
                assert(gs.drop_last()[i] == gs[i]);
                assert(gs[i].bucket_id != gs.last().bucket_id);
            }
        }
    }
}

proof fn lemma_map_of_grants_update(gs: Seq<KeyGrant>, i: int, g: KeyGrant)
    requires
        distinct_buckets(gs),
        0 <= i < gs.len(),
        g.bucket_id == gs[i].bucket_id,
    ensures
        map_of_grants(gs.update(i, g)) == map_of_grants(gs).insert(g.bucket_id, g.perm),
        distinct_buckets(gs.update(i, g)),
{
    lemma_map_of_grants_facts(gs);
    let updated = gs.update(i, g);
    assert(distinct_buckets(updated));
    lemma_map_of_grants_facts(updated);
    assert forall|k: u64|
        map_of_grants(updated).dom().contains(k) <==> map_of_grants(gs).insert(
            g.bucket_id,
            g.perm,
        ).dom().contains(k) by {
        if map_of_grants(updated).dom().contains(k) {
            let a = choose|a: int| 0 <= a < updated.len() && (#[trigger] updated[a]).bucket_id == k;
            if a != i {
                assert(gs[a].bucket_id == k);
            }
        }
        if map_of_grants(gs).insert(g.bucket_id, g.perm).dom().contains(k) {
            if k == g.bucket_id {
                assert(updated[i].bucket_id == k);
            } else {
                let a = choose|a: int| 0 <= a < gs.len() && (#[trigger] gs[a]).bucket_id == k;
                assert(updated[a].bucket_id == k);
            }
        }
    }
    assert forall|k: u64| #[trigger] map_of_grants(updated).dom().contains(
        k,
    ) implies map_of_grants(updated)[k] == map_of_grants(gs).insert(g.bucket_id, g.perm)[k] by {
        let a = choose|a: int| 0 <= a < updated.len() && (#[trigger] updated[a]).bucket_id == k;
        assert(map_of_grants(updated)[k] == updated[a].perm);
        if k == g.bucket_id {
            assert(a == i) by {
                if a != i {
                    assert(gs[a].bucket_id == gs[i].bucket_id);
                }
            }
        } else {
            assert(a != i);
            assert(updated[a] == gs[a]);
            assert(map_of_grants(gs)[k] == gs[a].perm);
        }
    }
    assert(map_of_grants(updated) =~= map_of_grants(gs).insert(g.bucket_id, g.perm));
}

impl Key {
    /// The CRDT merge of two copies of one key row: deletion is sticky and
    /// revokes everything; otherwise the grants unite, the newer write
    /// winning per bucket.
    pub fn merged(&self, other: &Key) -> (r: Key)
        requires
            self@.wf(),
            other@.wf(),
            self@.key_id == other@.key_id,
            self@.secret_key == other@.secret_key,
        ensures
            r@.wf(),
            r@.key_id == self@.key_id,
            r@.secret_key == self@.secret_key,
            r@.deleted == (self@.deleted || other@.deleted),
            r@.deleted ==> r@.grants.len() == 0,
            !r@.deleted ==> r@.grants_map() == merge_grant_maps(
                self@.grants_map(),
                other@.grants_map(),
            ),
    {
        let deleted = self.deleted || other.deleted;
        if deleted {
            return Key {
                key_id: self.key_id.clone(),
                secret_key: self.secret_key.clone(),
                deleted: true,
                grants: Vec::new(),
            };
        }
        proof {
            lemma_map_of_grants_facts(self@.grants);
            lemma_map_of_grants_facts(other@.grants);
        }
        let ghost m1 = self@.grants_map();
        let mut grants: Vec<KeyGrant> = Vec::new();
        let mut i: usize = 0;
        while i < self.grants.len()
            invariant
                i <= self.grants@.len(),
                grants@ =~= self.grants@.take(i as int),
            decreases self.grants@.len() - i,
        {
            grants.push(self.grants[i]);
            proof {
                assert(grants@ =~= self.grants@.take(i + 1 as int));
            }
            i = i + 1;
        }
        proof {
            assert(self.grants@.take(self.grants@.len() as int) =~= self.grants@);
        }
        let ghost othervs = other@.grants;
        let mut j: usize = 0;
        while j < other.grants.len()
            invariant
                j <= other.grants@.len(),
                othervs == other@.grants,
                m1 == map_of_grants(self@.grants),
                distinct_buckets(othervs),
                distinct_buckets(grants@),
                map_of_grants(grants@) == merge_grant_maps(
                    m1,
                    map_of_grants(othervs.take(j as int)),
                ),
            decreases other.grants@.len() - j,
        {
            let g = other.grants[j];
            proof {
                assert(othervs[j as int] == g);
                assert(othervs.take(j + 1 as int).drop_last() =~= othervs.take(j as int));
                assert(othervs.take(j + 1 as int).last() == othervs[j as int]);
                lemma_map_of_grants_facts(othervs.take(j as int));
                assert(!map_of_grants(othervs.take(j as int)).dom().contains(g.bucket_id)) by {
                    if map_of_grants(othervs.take(j as int)).dom().contains(g.bucket_id) {
                        let a = choose|a: int|
                            0 <= a < othervs.take(j as int).len() && (#[trigger] othervs.take(
                                j as int,
                            )[a]).bucket_id == g.bucket_id;
                        assert(othervs[a].bucket_id == othervs[j as int].bucket_id);
                    }
                }
                assert(map_of_grants(othervs.take(j + 1 as int)) == map_of_grants(
                    othervs.take(j as int),
                ).insert(g.bucket_id, g.perm));
            }
            merge_grant_in(&mut grants, g, Ghost(m1), Ghost(othervs), Ghost(j as int));
            j = j + 1;
        }
        proof {
            assert(othervs.take(othervs.len() as int) =~= othervs);
        }
        Key {
            key_id: self.key_id.clone(),
            secret_key: self.secret_key.clone(),
            deleted: false,
            grants,
        }
    }
}

/// Fold one incoming grant into an accumulating list: add it if its bucket
/// is new, keep the newer write if it is present.
fn merge_grant_in(
    grants: &mut Vec<KeyGrant>,
    g: KeyGrant,
    Ghost(m1): Ghost<Map<u64, BucketKeyPerm>>,
    Ghost(othervs): Ghost<Seq<KeyGrant>>,
    Ghost(j): Ghost<int>,
)
    requires
        distinct_buckets(othervs),
        0 <= j < othervs.len(),
        g == othervs[j],
        !map_of_grants(othervs.take(j)).dom().contains(g.bucket_id),
        map_of_grants(othervs.take(j + 1)) == map_of_grants(othervs.take(j)).insert(
            g.bucket_id,
            g.perm,
        ),
        distinct_buckets(old(grants)@),
        map_of_grants(old(grants)@) == merge_grant_maps(m1, map_of_grants(othervs.take(j))),
    ensures
        distinct_buckets(final (grants)@),
        map_of_grants(final (grants)@) == merge_grant_maps(m1, map_of_grants(othervs.take(j + 1))),
{
    let ghost accv = grants@;
    proof {
        lemma_map_of_grants_facts(accv);
    }
    let n = grants.len();
    let mut i: usize = 0;
    let mut found: Option<usize> = Option::None;
    while i < n
        invariant
            n == grants@.len(),
            i <= n,
            accv == grants@,
            match found {
                Option::Some(f) => f < i && accv[f as int].bucket_id == g.bucket_id,
                Option::None => forall|a: int|
                    0 <= a < i ==> (#[trigger] accv[a]).bucket_id != g.bucket_id,
            },
        decreases n - i,
    {
        if matches!(found, Option::None) {
            if vstd::std_specs::vec::vec_index(grants, i).bucket_id == g.bucket_id {
                found = Option::Some(i);
            }
        }
        i = i + 1;
    }
    match found {
        Option::Some(f) => {
            proof {
                assert(m1.dom().contains(g.bucket_id) && m1[g.bucket_id] == accv[f as int].perm)
                    by {
                    assert(map_of_grants(accv)[accv[f as int].bucket_id] == accv[f as int].perm);
                }
            }
            let at = *vstd::std_specs::vec::vec_index(grants, f);
            let newer = g.perm.timestamp > at.perm.timestamp;
            let tie = g.perm.timestamp == at.perm.timestamp;
            let perm = if newer {
                g.perm
            } else if tie {
                BucketKeyPerm {
                    timestamp: at.perm.timestamp,
                    allow_read: at.perm.allow_read || g.perm.allow_read,
                    allow_write: at.perm.allow_write || g.perm.allow_write,
                    allow_owner: at.perm.allow_owner || g.perm.allow_owner,
                }
            } else {
                at.perm
            };
            let slot = vstd::std_specs::vec::vec_index_mut(grants, f);
            *slot = KeyGrant { bucket_id: g.bucket_id, perm };
            proof {
                assert(grants@ =~= accv.update(
                    f as int,
                    KeyGrant { bucket_id: g.bucket_id, perm: join_perm(accv[f as int].perm, g.perm) },
                ));
                lemma_map_of_grants_update(
                    accv,
                    f as int,
                    KeyGrant { bucket_id: g.bucket_id, perm: join_perm(accv[f as int].perm, g.perm) },
                );
                assert(map_of_grants(grants@) =~= merge_grant_maps(
                    m1,
                    map_of_grants(othervs.take(j + 1)),
                ));
            }
        },
        Option::None => {
            proof {
                assert(!m1.dom().contains(g.bucket_id)) by {
                    lemma_map_of_grants_facts(accv);
                    if m1.dom().contains(g.bucket_id) {
                        assert(map_of_grants(accv).dom().contains(g.bucket_id));
                        let a = choose|a: int|
                            0 <= a < accv.len() && (#[trigger] accv[a]).bucket_id == g.bucket_id;
                        assert(accv[a].bucket_id == g.bucket_id);
                    }
                }
            }
            grants.push(g);
            proof {
                assert(grants@.drop_last() =~= accv);
                assert(distinct_buckets(grants@));
                assert(map_of_grants(grants@) == map_of_grants(accv).insert(g.bucket_id, g.perm));
                assert(map_of_grants(grants@) =~= merge_grant_maps(
                    m1,
                    map_of_grants(othervs.take(j + 1)),
                ));
            }
        },
    }
}

} // verus!
