//! Buckets and their aliases, merged as a CRDT.
//!
//! A bucket row carries a set of named aliases, each a last-writer-wins
//! register over an `active` flag, and a last-writer-wins register for the
//! bucket's website parameter. Merging two copies keeps, per alias, the
//! newer write; on a timestamp tie the `true` value wins, so the merge is a
//! join and replicas converge whatever the order of delivery.

use vstd::prelude::*;

use crate::util::text::str_eq;

verus! {

/// One alias of a bucket: a last-writer-wins register.
#[derive(Debug)]
pub struct BucketAlias {
    /// The global name the alias binds to the bucket.
    pub name: String,
    /// When the register was last written, in milliseconds.
    pub timestamp: u64,
    /// Whether the alias is active; `false` is its tombstone.
    pub active: bool,
}

/// Mathematical image of a [`BucketAlias`].
#[verifier::ext_equal]
pub ghost struct BucketAliasV {
    pub name: Seq<char>,
    pub timestamp: u64,
    pub active: bool,
}

impl View for BucketAlias {
    type V = BucketAliasV;

    open spec fn view(&self) -> BucketAliasV {
        BucketAliasV { name: self.name@, timestamp: self.timestamp, active: self.active }
    }
}

/// A bucket row.
#[derive(Debug)]
pub struct Bucket {
    /// The bucket's identifier.
    pub id: u64,
    /// Its aliases, each name at most once.
    pub aliases: Vec<BucketAlias>,
    /// When the website parameter was last written.
    pub website_timestamp: u64,
    /// Whether the bucket serves a public website.
    pub website_access: bool,
}

/// Mathematical image of a [`Bucket`].
#[verifier::ext_equal]
pub ghost struct BucketV {
    pub id: u64,
    pub aliases: Seq<BucketAliasV>,
    pub website_timestamp: u64,
    pub website_access: bool,
}

impl View for Bucket {
    type V = BucketV;

    open spec fn view(&self) -> BucketV {
        BucketV {
            id: self.id,
            aliases: self.aliases@.map_values(|a: BucketAlias| a@),
            website_timestamp: self.website_timestamp,
            website_access: self.website_access,
        }
    }
}

/// The join of two last-writer-wins registers: the newer write wins; on a
/// tie, `true` wins.
pub open spec fn join_lww(a: (u64, bool), b: (u64, bool)) -> (u64, bool) {
    if a.0 > b.0 {
        a
    } else if b.0 > a.0 {
        b
    } else {
        (a.0, a.1 || b.1)
    }
}

/// The last-writer-wins join is commutative.
pub proof fn lemma_lww_commutative(a: (u64, bool), b: (u64, bool))
    ensures
        join_lww(a, b) == join_lww(b, a),
{
}

/// The last-writer-wins join is associative.
pub proof fn lemma_lww_associative(a: (u64, bool), b: (u64, bool), c: (u64, bool))
    ensures
        join_lww(join_lww(a, b), c) == join_lww(a, join_lww(b, c)),
{
}

/// The last-writer-wins join is idempotent.
pub proof fn lemma_lww_idempotent(a: (u64, bool))
    ensures
        join_lww(a, a) == a,
{
}

/// The aliases of a row, keyed by name.
pub open spec fn map_of_aliases(al: Seq<BucketAliasV>) -> Map<Seq<char>, (u64, bool)>
    decreases al.len(),
{
    if al.len() == 0 {
        Map::empty()
    } else {
        map_of_aliases(al.drop_last()).insert(
            al.last().name,
            (al.last().timestamp, al.last().active),
        )
    }
}

/// No alias name occurs twice.
pub open spec fn distinct_names(al: Seq<BucketAliasV>) -> bool {
    forall|i: int, j: int| 0 <= i < j < al.len() ==> al[i].name != al[j].name
}

/// The merge of two alias maps: union of names, join on shared names.
pub open spec fn merge_alias_maps(
    m1: Map<Seq<char>, (u64, bool)>,
    m2: Map<Seq<char>, (u64, bool)>,
) -> Map<Seq<char>, (u64, bool)> {
    Map::new(
        |k: Seq<char>| m1.dom().contains(k) || m2.dom().contains(k),
        |k: Seq<char>|
            if m1.dom().contains(k) && m2.dom().contains(k) {
                join_lww(m1[k], m2[k])
            } else if m1.dom().contains(k) {
                m1[k]
            } else {
                m2[k]
            },
    )
}

/// Merging alias maps is commutative.
pub proof fn lemma_bucket_merge_commutative(
    m1: Map<Seq<char>, (u64, bool)>,
    m2: Map<Seq<char>, (u64, bool)>,
)
    ensures
        merge_alias_maps(m1, m2) == merge_alias_maps(m2, m1),
{
    assert(merge_alias_maps(m1, m2) =~= merge_alias_maps(m2, m1));
}

/// Merging alias maps is associative.
pub proof fn lemma_bucket_merge_associative(
    m1: Map<Seq<char>, (u64, bool)>,
    m2: Map<Seq<char>, (u64, bool)>,
    m3: Map<Seq<char>, (u64, bool)>,
)
    ensures
        merge_alias_maps(m1, merge_alias_maps(m2, m3)) == merge_alias_maps(
            merge_alias_maps(m1, m2),
            m3,
        ),
{
    assert(merge_alias_maps(m1, merge_alias_maps(m2, m3)) =~= merge_alias_maps(
        merge_alias_maps(m1, m2),
        m3,
    ));
}

/// Merging an alias map with itself changes nothing.
pub proof fn lemma_bucket_merge_idempotent(m: Map<Seq<char>, (u64, bool)>)
    ensures
        merge_alias_maps(m, m) == m,
{
    assert(merge_alias_maps(m, m) =~= m);
}

impl BucketV {
    /// Well-formedness: each alias name occurs once.
    pub open spec fn wf(&self) -> bool {
        distinct_names(self.aliases)
    }

    /// The aliases keyed by name.
    pub open spec fn aliases_map(&self) -> Map<Seq<char>, (u64, bool)> {
        map_of_aliases(self.aliases)
    }
}

proof fn lemma_map_of_aliases_facts(al: Seq<BucketAliasV>)
    requires
        distinct_names(al),
    ensures
        forall|k: Seq<char>|
            map_of_aliases(al).dom().contains(k) <==> exists|i: int|
                0 <= i < al.len() && (#[trigger] al[i]).name == k,
        forall|i: int|
            0 <= i < al.len() ==> map_of_aliases(al).dom().contains((#[trigger] al[i]).name)
                && map_of_aliases(al)[al[i].name] == (al[i].timestamp, al[i].active),
    decreases al.len(),
{
    if al.len() > 0 {
        lemma_map_of_aliases_facts(al.drop_last());
        assert forall|k: Seq<char>| map_of_aliases(al).dom().contains(k) implies exists|i: int|
            0 <= i < al.len() && (#[trigger] al[i]).name == k by {
            if k == al.last().name {
                assert(al[al.len() - 1].name == k);
            } else {
                assert(map_of_aliases(al.drop_last()).dom().contains(k));
                let i = choose|i: int|
                    0 <= i < al.drop_last().len() && (#[trigger] al.drop_last()[i]).name == k;
                assert(al.drop_last()[i] == al[i]);
                assert(al[i].name == k);
            }
        }
        assert forall|i: int| 0 <= i < al.len() implies map_of_aliases(al).dom().contains(
            (#[trigger] al[i]).name,
        ) && map_of_aliases(al)[al[i].name] == (al[i].timestamp, al[i].active) by {
            if i == al.len() - 1 {
            } else {
                assert(al.drop_last()[i] == al[i]);
                assert(al[i].name != al.last().name);
            }
        }
    }
}

proof fn lemma_map_of_aliases_update(al: Seq<BucketAliasV>, i: int, a: BucketAliasV)
    requires
        distinct_names(al),
        0 <= i < al.len(),
        a.name == al[i].name,
    ensures
        map_of_aliases(al.update(i, a)) == map_of_aliases(al).insert(
            a.name,
            (a.timestamp, a.active),
        ),
        distinct_names(al.update(i, a)),
{
    lemma_map_of_aliases_facts(al);
    let updated = al.update(i, a);
    assert(distinct_names(updated));
    lemma_map_of_aliases_facts(updated);
    assert forall|k: Seq<char>|
        map_of_aliases(updated).dom().contains(k) <==> map_of_aliases(al).insert(
            a.name,
            (a.timestamp, a.active),
        ).dom().contains(k) by {
        if map_of_aliases(updated).dom().contains(k) {
            let b = choose|b: int| 0 <= b < updated.len() && (#[trigger] updated[b]).name == k;
            if b == i {
            } else {
                assert(al[b].name == k);
            }
        }
        if map_of_aliases(al).insert(a.name, (a.timestamp, a.active)).dom().contains(k) {
            if k == a.name {
                assert(updated[i].name == k);
            } else {
                let b = choose|b: int| 0 <= b < al.len() && (#[trigger] al[b]).name == k;
                assert(updated[b].name == k);
            }
        }
    }
    assert forall|k: Seq<char>| #[trigger] map_of_aliases(updated).dom().contains(
        k,
    ) implies map_of_aliases(updated)[k] == map_of_aliases(al).insert(
        a.name,
        (a.timestamp, a.active),
    )[k] by {
        let b = choose|b: int| 0 <= b < updated.len() && (#[trigger] updated[b]).name == k;
        assert(map_of_aliases(updated)[k] == (updated[b].timestamp, updated[b].active));
        if k == a.name {
            assert(b == i) by {
                if b != i {
                    assert(al[b].name == al[i].name);
                }
            }
        } else {
            assert(b != i);
            assert(updated[b] == al[b]);
            assert(map_of_aliases(al)[k] == (al[b].timestamp, al[b].active));
        }
    }
    assert(map_of_aliases(updated) =~= map_of_aliases(al).insert(a.name, (a.timestamp, a.active)));
}

impl Bucket {
    /// The CRDT merge of two copies of one bucket row: the union of their
    /// aliases, the newer write winning per name, and the newer website
    /// parameter.
    pub fn merged(&self, other: &Bucket) -> (r: Bucket)
        requires
            self@.wf(),
            other@.wf(),
            self.id == other.id,
        ensures
            r@.wf(),
            r@.id == self@.id,
            r@.aliases_map() == merge_alias_maps(self@.aliases_map(), other@.aliases_map()),
            (r@.website_timestamp, r@.website_access) == join_lww(
                (self@.website_timestamp, self@.website_access),
                (other@.website_timestamp, other@.website_access),
            ),
    {
        proof {
            lemma_map_of_aliases_facts(self@.aliases);
            lemma_map_of_aliases_facts(other@.aliases);
        }
        let ghost m1 = self@.aliases_map();
        let mut aliases: Vec<BucketAlias> = Vec::new();
        let mut i: usize = 0;
        while i < self.aliases.len()
            invariant
                i <= self.aliases@.len(),
                aliases@.len() == i,
                forall|j: int| 0 <= j < i ==> (#[trigger] aliases@[j])@ == self@.aliases[j],
            decreases self.aliases@.len() - i,
        {
            let a = vstd::std_specs::vec::vec_index(&self.aliases, i);
            aliases.push(
                BucketAlias { name: a.name.clone(), timestamp: a.timestamp, active: a.active },
            );
            i = i + 1;
        }
        proof {
            assert(aliases@.map_values(|a: BucketAlias| a@) =~= self@.aliases);
        }
        let ghost othervs = other@.aliases;
        let mut j: usize = 0;
        while j < other.aliases.len()
            invariant
                j <= other.aliases@.len(),
                othervs == other@.aliases,
                m1 == map_of_aliases(self@.aliases),
                distinct_names(othervs),
                distinct_names(aliases@.map_values(|a: BucketAlias| a@)),
                map_of_aliases(aliases@.map_values(|a: BucketAlias| a@)) == merge_alias_maps(
                    m1,
                    map_of_aliases(othervs.take(j as int)),
                ),
            decreases other.aliases@.len() - j,
        {
            let a = vstd::std_specs::vec::vec_index(&other.aliases, j);
            merge_alias_in(&mut aliases, a, Ghost(m1), Ghost(othervs), Ghost(j as int));
            j = j + 1;
        }
        proof {
            assert(othervs.take(othervs.len() as int) =~= othervs);
        }
        let newer = other.website_timestamp > self.website_timestamp;
        let tie = other.website_timestamp == self.website_timestamp;
        let (website_timestamp, website_access) = if newer {
            (other.website_timestamp, other.website_access)
        } else if tie {
            (self.website_timestamp, self.website_access || other.website_access)
        } else {
            (self.website_timestamp, self.website_access)
        };
        Bucket { id: self.id, aliases, website_timestamp, website_access }
    }
}

/// Fold one incoming alias into an accumulating list: add it if its name is
/// new, keep the newer write if it is present.
fn merge_alias_in(
    aliases: &mut Vec<BucketAlias>,
    a: &BucketAlias,
    Ghost(m1): Ghost<Map<Seq<char>, (u64, bool)>>,
    Ghost(othervs): Ghost<Seq<BucketAliasV>>,
    Ghost(j): Ghost<int>,
)
    requires
        distinct_names(othervs),
        0 <= j < othervs.len(),
        a@ == othervs[j],
        distinct_names(old(aliases)@.map_values(|x: BucketAlias| x@)),
        map_of_aliases(old(aliases)@.map_values(|x: BucketAlias| x@)) == merge_alias_maps(
            m1,
            map_of_aliases(othervs.take(j)),
        ),
    ensures
        distinct_names(final (aliases)@.map_values(|x: BucketAlias| x@)),
        map_of_aliases(final (aliases)@.map_values(|x: BucketAlias| x@)) == merge_alias_maps(
            m1,
            map_of_aliases(othervs.take(j + 1)),
        ),
{
    proof {
        lemma_map_of_aliases_facts(othervs);
        lemma_map_of_aliases_facts(old(aliases)@.map_values(|x: BucketAlias| x@));
        assert(othervs.take(j + 1).drop_last() =~= othervs.take(j));
        assert(othervs.take(j + 1).last() == othervs[j]);
        assert(!map_of_aliases(othervs.take(j)).dom().contains(a@.name)) by {
            lemma_map_of_aliases_facts(othervs.take(j));
            if map_of_aliases(othervs.take(j)).dom().contains(a@.name) {
                let b = choose|b: int|
                    0 <= b < othervs.take(j).len() && (#[trigger] othervs.take(j)[b]).name
                        == a@.name;
                assert(othervs[b].name == othervs[j].name);
            }
        }
        assert(map_of_aliases(othervs.take(j + 1)) == map_of_aliases(othervs.take(j)).insert(
            a@.name,
            (a@.timestamp, a@.active),
        ));
    }
    let ghost accv = aliases@.map_values(|x: BucketAlias| x@);
    let pos = find_alias(aliases, &a.name);
    match pos {
        Option::Some(i) => {
            proof {
                assert(accv[i as int].name == a@.name);
                assert(m1.dom().contains(a@.name) && m1[a@.name] == (
                    accv[i as int].timestamp,
                    accv[i as int].active,
                )) by {
                    lemma_map_of_aliases_facts(accv);
                    assert(map_of_aliases(accv)[accv[i as int].name] == (
                        accv[i as int].timestamp,
                        accv[i as int].active,
                    ));
                }
            }
            let at = vstd::std_specs::vec::vec_index(aliases, i);
            let newer = a.timestamp > at.timestamp;
            let tie = a.timestamp == at.timestamp;
            let (timestamp, active) = if newer {
                (a.timestamp, a.active)
            } else if tie {
                (at.timestamp, at.active || a.active)
            } else {
                (at.timestamp, at.active)
            };
            let new_entry = BucketAlias { name: a.name.clone(), timestamp, active };
            let ghost olde = accv;
            let slot = vstd::std_specs::vec::vec_index_mut(aliases, i);
            *slot = new_entry;
            proof {
                let newacc = aliases@.map_values(|x: BucketAlias| x@);
                let joined = join_lww((olde[i as int].timestamp, olde[i as int].active), (
                    a@.timestamp,
                    a@.active,
                ));
                assert(newacc =~= olde.update(
                    i as int,
                    BucketAliasV { name: a@.name, timestamp: joined.0, active: joined.1 },
                ));
                lemma_map_of_aliases_update(
                    olde,
                    i as int,
                    BucketAliasV { name: a@.name, timestamp: joined.0, active: joined.1 },
                );
                assert(map_of_aliases(newacc) =~= merge_alias_maps(
                    m1,
                    map_of_aliases(othervs.take(j + 1)),
                ));
            }
        },
        Option::None => {
            proof {
                assert(!m1.dom().contains(a@.name)) by {
                    lemma_map_of_aliases_facts(accv);
                    if m1.dom().contains(a@.name) {
                        assert(map_of_aliases(accv).dom().contains(a@.name));
                        let b = choose|b: int|
                            0 <= b < accv.len() && (#[trigger] accv[b]).name == a@.name;
                        assert(accv[b].name == a@.name);
                    }
                }
            }
            aliases.push(
                BucketAlias { name: a.name.clone(), timestamp: a.timestamp, active: a.active },
            );
            proof {
                let newacc = aliases@.map_values(|x: BucketAlias| x@);
                assert(newacc =~= accv.push(a@));
                assert(distinct_names(newacc));
                assert(map_of_aliases(newacc) == map_of_aliases(accv).insert(
                    a@.name,
                    (a@.timestamp, a@.active),
                )) by {
                    assert(newacc.drop_last() =~= accv);
                }
                assert(map_of_aliases(newacc) =~= merge_alias_maps(
                    m1,
                    map_of_aliases(othervs.take(j + 1)),
                ));
            }
        },
    }
}

/// Index of the alias with the given name, if any.
fn find_alias(aliases: &Vec<BucketAlias>, name: &String) -> (r: Option<usize>)
    ensures
        match r {
            Option::Some(i) => i < aliases@.len() && (aliases@[i as int]@).name == name@,
            Option::None => forall|b: int|
                0 <= b < aliases@.len() ==> (#[trigger] aliases@[b]@).name != name@,
        },
{
    let n = aliases.len();
    let mut i: usize = 0;
    while i < n
        invariant
            n == aliases@.len(),
            i <= n,
            forall|b: int| 0 <= b < i ==> (#[trigger] aliases@[b]@).name != name@,
        decreases n - i,
    {
        let at = vstd::std_specs::vec::vec_index(aliases, i);
        if str_eq(at.name.as_str(), name.as_str()) {
            return Option::Some(i);
        }
        i = i + 1;
    }
    Option::None
}

} // verus!
