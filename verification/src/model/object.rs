//! Objects and their versions, merged as a CRDT.
//!
//! An object row holds the set of versions ever written under its key; each
//! version is identified by a uuid and moves only forward along
//! `Uploading -> Complete` or `Uploading -> Aborted`. Merging two copies of
//! a row unites their version sets and, for a version present in both,
//! keeps the more advanced state, so that replicas converge whatever the
//! order of delivery.

use vstd::prelude::*;

verus! {

/// Identifier of one version of an object.
pub type VersionUuid = u64;

/// Where a version stands in its life cycle. The order
/// `Uploading < Complete < Aborted` makes the merge a join.
#[derive(Clone, Copy, Debug, PartialEq, Eq, Structural)]
pub enum ObjectVersionState {
    /// Blocks are still being written.
    Uploading,
    /// All data is stored; the version is visible.
    Complete,
    /// The upload was given up; the version will be cleaned.
    Aborted,
}

/// Position of a state in the lattice.
pub open spec fn state_rank(s: ObjectVersionState) -> int {
    match s {
        ObjectVersionState::Uploading => 0,
        ObjectVersionState::Complete => 1,
        ObjectVersionState::Aborted => 2,
    }
}

/// The payload of a version.
#[derive(Debug)]
pub enum ObjectVersionData {
    /// The version deletes the key.
    DeleteMarker,
    /// A small body, stored inline in the metadata row.
    Inline(Vec<u8>),
    /// A large body: the hash of its first block.
    FirstBlock(crate::data::Hash),
}

/// Mathematical image of [`ObjectVersionData`].
#[verifier::ext_equal]
pub ghost enum ObjectVersionDataV {
    DeleteMarker,
    Inline(Seq<u8>),
    FirstBlock(Seq<u8>),
}

impl View for ObjectVersionData {
    type V = ObjectVersionDataV;

    open spec fn view(&self) -> ObjectVersionDataV {
        match self {
            ObjectVersionData::DeleteMarker => ObjectVersionDataV::DeleteMarker,
            ObjectVersionData::Inline(b) => ObjectVersionDataV::Inline(b@),
            ObjectVersionData::FirstBlock(h) => ObjectVersionDataV::FirstBlock(h@),
        }
    }
}

impl ObjectVersionData {
    /// A field-for-field copy.
    pub fn duplicate(&self) -> (r: ObjectVersionData)
        ensures
            r@ == self@,
    {
        match self {
            ObjectVersionData::DeleteMarker => ObjectVersionData::DeleteMarker,
            ObjectVersionData::Inline(b) => {
                let mut copy: Vec<u8> = Vec::new();
                let mut i: usize = 0;
                while i < b.len()
                    invariant
                        i <= b@.len(),
                        copy@ =~= b@.take(i as int),
                    decreases b@.len() - i,
                {
                    copy.push(b[i]);
                    proof {
                        assert(copy@ =~= b@.take(i + 1 as int));
                    }
                    i = i + 1;
                }
                proof {
                    assert(b@.take(b@.len() as int) =~= b@);
                }
                ObjectVersionData::Inline(copy)
            },
            ObjectVersionData::FirstBlock(h) => ObjectVersionData::FirstBlock(h.duplicate()),
        }
    }
}

/// One version of an object.
#[derive(Debug)]
pub struct ObjectVersion {
    /// Identifier, chosen at creation, never reused.
    pub uuid: VersionUuid,
    /// Creation time, in milliseconds.
    pub timestamp: u64,
    /// The Content-Type the body was stored with.
    pub mime_type: String,
    /// Total body size in bytes.
    pub size: u64,
    /// Where the version stands in its life cycle.
    pub state: ObjectVersionState,
    /// The body, or how to find it.
    pub data: ObjectVersionData,
}

/// Mathematical image of an [`ObjectVersion`].
#[verifier::ext_equal]
pub ghost struct ObjectVersionV {
    pub uuid: VersionUuid,
    pub timestamp: u64,
    pub mime_type: Seq<char>,
    pub size: u64,
    pub state: ObjectVersionState,
    pub data: ObjectVersionDataV,
}

impl View for ObjectVersion {
    type V = ObjectVersionV;

    open spec fn view(&self) -> ObjectVersionV {
        ObjectVersionV {
            uuid: self.uuid,
            timestamp: self.timestamp,
            mime_type: self.mime_type@,
            size: self.size,
            state: self.state,
            data: self.data@,
        }
    }
}

impl ObjectVersion {
    /// A field-for-field copy.
    pub fn duplicate(&self) -> (r: ObjectVersion)
        ensures
            r@ == self@,
    {
        let r = ObjectVersion {
            uuid: self.uuid,
            timestamp: self.timestamp,
            mime_type: self.mime_type.clone(),
            size: self.size,
            state: self.state,
            data: self.data.duplicate(),
        };
        proof {
            assert(r@ =~~= self@);
        }
        r
    }
}

/// An object row: a bucket-and-key pair with every version written to it.
#[derive(Debug)]
pub struct Object {
    /// The bucket the object lives in.
    pub bucket: String,
    /// The key inside the bucket.
    pub key: String,
    /// All versions ever seen, each uuid at most once.
    pub versions: Vec<ObjectVersion>,
}

/// Mathematical image of an [`Object`].
#[verifier::ext_equal]
pub ghost struct ObjectV {
    pub bucket: Seq<char>,
    pub key: Seq<char>,
    pub versions: Seq<ObjectVersionV>,
}

impl View for Object {
    type V = ObjectV;

    open spec fn view(&self) -> ObjectV {
        ObjectV {
            bucket: self.bucket@,
            key: self.key@,
            versions: self.versions@.map_values(|v: ObjectVersion| v@),
        }
    }
}

/// The versions of a row, keyed by uuid.
pub open spec fn map_of_versions(vs: Seq<ObjectVersionV>) -> Map<VersionUuid, ObjectVersionV>
    decreases vs.len(),
{
    if vs.len() == 0 {
        Map::empty()
    } else {
        map_of_versions(vs.drop_last()).insert(vs.last().uuid, vs.last())
    }
}

/// No uuid occurs twice.
pub open spec fn distinct_uuids(vs: Seq<ObjectVersionV>) -> bool {
    forall|i: int, j: int| 0 <= i < j < vs.len() ==> vs[i].uuid != vs[j].uuid
}

impl ObjectV {
    /// Well-formedness: each version uuid occurs once.
    pub open spec fn wf(&self) -> bool {
        distinct_uuids(self.versions)
    }

    /// The versions keyed by uuid.
    pub open spec fn versions_map(&self) -> Map<VersionUuid, ObjectVersionV> {
        map_of_versions(self.versions)
    }
}

/// Two copies of a version never contradict each other: a uuid fixes the
/// creation time, and a uuid in one state fixes the whole record.
pub open spec fn compatible(x: ObjectVersionV, y: ObjectVersionV) -> bool {
    x.uuid == y.uuid ==> {
        &&& x.timestamp == y.timestamp
        &&& (x.state == y.state ==> x == y)
    }
}

/// Pairwise compatibility of two version lists.
pub open spec fn all_compatible(a: Seq<ObjectVersionV>, b: Seq<ObjectVersionV>) -> bool {
    forall|i: int, j: int|
        0 <= i < a.len() && 0 <= j < b.len() ==> compatible(#[trigger] a[i], #[trigger] b[j])
}

/// The join of two copies of one version: the more advanced state wins.
pub open spec fn join_version(x: ObjectVersionV, y: ObjectVersionV) -> ObjectVersionV {
    if state_rank(y.state) > state_rank(x.state) {
        y
    } else {
        x
    }
}

/// The merge of two version maps: union of keys, join on shared keys.
pub open spec fn merge_version_maps(
    m1: Map<VersionUuid, ObjectVersionV>,
    m2: Map<VersionUuid, ObjectVersionV>,
) -> Map<VersionUuid, ObjectVersionV> {
    Map::new(
        |k: VersionUuid| m1.dom().contains(k) || m2.dom().contains(k),
        |k: VersionUuid|
            if m1.dom().contains(k) && m2.dom().contains(k) {
                join_version(m1[k], m2[k])
            } else if m1.dom().contains(k) {
                m1[k]
            } else {
                m2[k]
            },
    )
}

/// Values of a version map agree with their keys.
pub open spec fn map_keys_consistent(m: Map<VersionUuid, ObjectVersionV>) -> bool {
    forall|k: VersionUuid| m.dom().contains(k) ==> (#[trigger] m[k]).uuid == k
}

/// Compatibility of two version maps, key by key.
pub open spec fn maps_compatible(
    m1: Map<VersionUuid, ObjectVersionV>,
    m2: Map<VersionUuid, ObjectVersionV>,
) -> bool {
    forall|k: VersionUuid|
        m1.dom().contains(k) && m2.dom().contains(k) ==> compatible(
            #[trigger] m1[k],
            #[trigger] m2[k],
        )
}

/// Merging version maps is commutative on compatible inputs.
pub proof fn lemma_object_merge_commutative(
    m1: Map<VersionUuid, ObjectVersionV>,
    m2: Map<VersionUuid, ObjectVersionV>,
)
    requires
        maps_compatible(m1, m2),
        map_keys_consistent(m1),
        map_keys_consistent(m2),
    ensures
        merge_version_maps(m1, m2) == merge_version_maps(m2, m1),
{
    assert(merge_version_maps(m1, m2) =~= merge_version_maps(m2, m1));
}

/// Merging version maps is associative on pairwise compatible inputs.
pub proof fn lemma_object_merge_associative(
    m1: Map<VersionUuid, ObjectVersionV>,
    m2: Map<VersionUuid, ObjectVersionV>,
    m3: Map<VersionUuid, ObjectVersionV>,
)
    requires
        maps_compatible(m1, m2),
        maps_compatible(m1, m3),
        maps_compatible(m2, m3),
        map_keys_consistent(m1),
        map_keys_consistent(m2),
        map_keys_consistent(m3),
    ensures
        merge_version_maps(m1, merge_version_maps(m2, m3)) == merge_version_maps(
            merge_version_maps(m1, m2),
            m3,
        ),
{
    assert(merge_version_maps(m1, merge_version_maps(m2, m3)) =~= merge_version_maps(
        merge_version_maps(m1, m2),
        m3,
    ));
}

/// Merging a version map with itself changes nothing.
pub proof fn lemma_object_merge_idempotent(m: Map<VersionUuid, ObjectVersionV>)
    ensures
        merge_version_maps(m, m) == m,
{
    assert(merge_version_maps(m, m) =~= m);
}

/// One anti-entropy round converges: when two replicas hold row sets `m1`
/// and `m2`, exchange what differs and each merges what it received, both
/// end up holding the same state — the merge of the two inputs — and a
/// further round changes nothing.
pub proof fn lemma_anti_entropy_convergence(
    m1: Map<VersionUuid, ObjectVersionV>,
    m2: Map<VersionUuid, ObjectVersionV>,
)
    requires
        maps_compatible(m1, m2),
        map_keys_consistent(m1),
        map_keys_consistent(m2),
    ensures
        merge_version_maps(m1, m2) == merge_version_maps(m2, m1),
        merge_version_maps(merge_version_maps(m1, m2), merge_version_maps(m2, m1))
            == merge_version_maps(m1, m2),
{
    lemma_object_merge_commutative(m1, m2);
    lemma_object_merge_idempotent(merge_version_maps(m1, m2));
}

proof fn lemma_map_of_versions_facts(vs: Seq<ObjectVersionV>)
    requires
        distinct_uuids(vs),
    ensures
        forall|k: VersionUuid|
            map_of_versions(vs).dom().contains(k) <==> exists|i: int|
                0 <= i < vs.len() && (#[trigger] vs[i]).uuid == k,
        forall|i: int|
            0 <= i < vs.len() ==> map_of_versions(vs).dom().contains((#[trigger] vs[i]).uuid)
                && map_of_versions(vs)[vs[i].uuid] == vs[i],
    decreases vs.len(),
{
    if vs.len() > 0 {
        lemma_map_of_versions_facts(vs.drop_last());
        assert forall|k: VersionUuid| map_of_versions(vs).dom().contains(k) implies exists|i: int|
            0 <= i < vs.len() && (#[trigger] vs[i]).uuid == k by {
            if k == vs.last().uuid {
                assert(vs[vs.len() - 1].uuid == k);
            } else {
                assert(map_of_versions(vs.drop_last()).dom().contains(k));
                let i = choose|i: int|
                    0 <= i < vs.drop_last().len() && (#[trigger] vs.drop_last()[i]).uuid == k;
                assert(vs.drop_last()[i] == vs[i]);
                assert(vs[i].uuid == k);
            }
        }
        assert forall|i: int| 0 <= i < vs.len() implies map_of_versions(vs).dom().contains(
            (#[trigger] vs[i]).uuid,
        ) && map_of_versions(vs)[vs[i].uuid] == vs[i] by {
            if i == vs.len() - 1 {
            } else {
                assert(vs.drop_last()[i] == vs[i]);
                assert(vs[i].uuid != vs.last().uuid);
            }
        }
    }
}

impl Object {
    /// The CRDT merge of two copies of one row: the union of their version
    /// sets, where a version present in both keeps its more advanced state.
    pub fn merged(&self, other: &Object) -> (r: Object)
        requires
            self@.wf(),
            other@.wf(),
            self@.bucket == other@.bucket,
            self@.key == other@.key,
            all_compatible(self@.versions, other@.versions),
        ensures
            r@.wf(),
            r@.bucket == self@.bucket,
            r@.key == self@.key,
            r@.versions_map() == merge_version_maps(self@.versions_map(), other@.versions_map()),
    {
        proof {
            lemma_map_of_versions_facts(self@.versions);
            lemma_map_of_versions_facts(other@.versions);
        }
        let ghost m1 = self@.versions_map();
        let mut versions: Vec<ObjectVersion> = Vec::new();
        let mut i: usize = 0;
        while i < self.versions.len()
            invariant
                i <= self.versions@.len(),
                versions@.len() == i,
                forall|j: int| 0 <= j < i ==> (#[trigger] versions@[j])@ == self@.versions[j],
            decreases self.versions@.len() - i,
        {
            let v = vstd::std_specs::vec::vec_index(&self.versions, i);
            versions.push(v.duplicate());
            i = i + 1;
        }
        proof {
            assert(versions@.map_values(|v: ObjectVersion| v@) =~= self@.versions);
            assert(map_of_versions(versions@.map_values(|v: ObjectVersion| v@)) == m1);
        }
        let ghost selfvs = self@.versions;
        let ghost othervs = other@.versions;
        let mut j: usize = 0;
        while j < other.versions.len()
            invariant
                j <= other.versions@.len(),
                othervs == other@.versions,
                selfvs == self@.versions,
                m1 == map_of_versions(selfvs),
                distinct_uuids(selfvs),
                distinct_uuids(othervs),
                all_compatible(selfvs, othervs),
                distinct_uuids(versions@.map_values(|v: ObjectVersion| v@)),
                map_of_versions(versions@.map_values(|v: ObjectVersion| v@))
                    == merge_version_maps(m1, map_of_versions(othervs.take(j as int))),
                forall|a: int|
                    0 <= a < versions@.len() ==> selfvs.contains(
                        #[trigger] versions@[a]@,
                    ) || othervs.contains(versions@[a]@),
            decreases other.versions@.len() - j,
        {
            let v = vstd::std_specs::vec::vec_index(&other.versions, j);
            merge_in(&mut versions, v, Ghost(selfvs), Ghost(othervs), Ghost(m1), Ghost(j as int));
            j = j + 1;
        }
        proof {
            assert(othervs.take(othervs.len() as int) =~= othervs);
        }
        let r = Object { bucket: self.bucket.clone(), key: self.key.clone(), versions };
        proof {
            assert(r@.versions == r.versions@.map_values(|v: ObjectVersion| v@));
        }
        r
    }
}

/// Fold one incoming version into an accumulating list: add it if its uuid
/// is new, keep the more advanced state if it is present.
fn merge_in(
    versions: &mut Vec<ObjectVersion>,
    v: &ObjectVersion,
    Ghost(selfvs): Ghost<Seq<ObjectVersionV>>,
    Ghost(othervs): Ghost<Seq<ObjectVersionV>>,
    Ghost(m1): Ghost<Map<VersionUuid, ObjectVersionV>>,
    Ghost(j): Ghost<int>,
)
    requires
        m1 == map_of_versions(selfvs),
        distinct_uuids(selfvs),
        distinct_uuids(othervs),
        all_compatible(selfvs, othervs),
        0 <= j < othervs.len(),
        v@ == othervs[j],
        distinct_uuids(old(versions)@.map_values(|x: ObjectVersion| x@)),
        map_of_versions(old(versions)@.map_values(|x: ObjectVersion| x@)) == merge_version_maps(
            m1,
            map_of_versions(othervs.take(j)),
        ),
        forall|a: int|
            0 <= a < old(versions)@.len() ==> selfvs.contains(
                #[trigger] old(versions)@[a]@,
            ) || othervs.contains(old(versions)@[a]@),
    ensures
        distinct_uuids(final (versions)@.map_values(|x: ObjectVersion| x@)),
        map_of_versions(final (versions)@.map_values(|x: ObjectVersion| x@)) == merge_version_maps(
            m1,
            map_of_versions(othervs.take(j + 1)),
        ),
        forall|a: int|
            0 <= a < final (versions)@.len() ==> selfvs.contains(
                #[trigger] final (versions)@[a]@,
            ) || othervs.contains(final (versions)@[a]@),
{
    proof {
        lemma_map_of_versions_facts(selfvs);
        lemma_map_of_versions_facts(othervs);
        lemma_map_of_versions_facts(old(versions)@.map_values(|x: ObjectVersion| x@));
        assert(othervs.take(j + 1).drop_last() =~= othervs.take(j));
        assert(othervs.take(j + 1).last() == othervs[j]);
    }
    let ghost accv = versions@.map_values(|x: ObjectVersion| x@);
    let pos = find_uuid(versions, v.uuid);
    match pos {
        Option::Some(i) => {
            proof {
                assert(accv[i as int].uuid == v@.uuid);
                // the held copy comes from self or from an earlier other
                // version; either way it is compatible with the incoming one
                assert(compatible(accv[i as int], v@)) by {
                    if selfvs.contains(accv[i as int]) {
                        let a = choose|a: int|
                            0 <= a < selfvs.len() && selfvs[a] == accv[i as int];
                        assert(compatible(selfvs[a], othervs[j]));
                    } else {
                        let a = choose|a: int|
                            0 <= a < othervs.len() && othervs[a] == accv[i as int];
                        if a != j {
                            if a < j {
                                assert(othervs[a].uuid != othervs[j].uuid);
                            } else {
                                assert(othervs[j].uuid != othervs[a].uuid);
                            }
                        }
                        assert(othervs[a] == othervs[j]);
                    }
                }
            }
            let at = vstd::std_specs::vec::vec_index(versions, i);
            let keep = state_rank_exec(at.state) >= state_rank_exec(v.state);
            if !keep {
                let replacement = v.duplicate();
                let slot = vstd::std_specs::vec::vec_index_mut(versions, i);
                *slot = replacement;
            }
            proof {
                let newacc = versions@.map_values(|x: ObjectVersion| x@);
                assert(newacc =~= accv.update(i as int, join_version(accv[i as int], v@)));
                assert(distinct_uuids(newacc));
                lemma_map_of_update(accv, i as int, join_version(accv[i as int], v@));
                assert(!map_of_versions(othervs.take(j)).dom().contains(v@.uuid)) by {
                    lemma_map_of_versions_facts(othervs.take(j));
                    if map_of_versions(othervs.take(j)).dom().contains(v@.uuid) {
                        let a = choose|a: int|
                            0 <= a < othervs.take(j).len() && (#[trigger] othervs.take(
                                j,
                            )[a]).uuid == v@.uuid;
                        assert(othervs[a].uuid == othervs[j].uuid);
                    }
                }
                assert(map_of_versions(othervs.take(j + 1)) == map_of_versions(
                    othervs.take(j),
                ).insert(v@.uuid, v@));
                assert(m1.dom().contains(v@.uuid) && m1[v@.uuid] == accv[i as int]) by {
                    lemma_map_of_versions_facts(accv);
                    assert(map_of_versions(accv) == merge_version_maps(
                        m1,
                        map_of_versions(othervs.take(j)),
                    ));
                    assert(map_of_versions(accv)[accv[i as int].uuid] == accv[i as int]);
                }
                assert(map_of_versions(newacc) =~= merge_version_maps(
                    m1,
                    map_of_versions(othervs.take(j + 1)),
                ));
                assert forall|a: int| 0 <= a < versions@.len() implies selfvs.contains(
                    #[trigger] versions@[a]@,
                ) || othervs.contains(versions@[a]@) by {
                    assert(versions@[a]@ == newacc[a]);
                    if a == i {
                        if state_rank(v@.state) > state_rank(accv[i as int].state) {
                            assert(newacc[a] == othervs[j]);
                        } else {
                            assert(newacc[a] == accv[i as int]);
                        }
                    } else {
                        assert(newacc[a] == accv[a]);
                    }
                }
            }
        },
        Option::None => {
            versions.push(v.duplicate());
            proof {
                let newacc = versions@.map_values(|x: ObjectVersion| x@);
                assert(newacc =~= accv.push(v@));
                assert(distinct_uuids(newacc));
                assert(map_of_versions(newacc) == map_of_versions(accv).insert(v@.uuid, v@)) by {
                    assert(newacc.drop_last() =~= accv);
                }
                assert(!m1.dom().contains(v@.uuid)) by {
                    lemma_map_of_versions_facts(selfvs);
                    lemma_map_of_versions_facts(accv);
                    if m1.dom().contains(v@.uuid) {
                        let a = choose|a: int|
                            0 <= a < selfvs.len() && (#[trigger] selfvs[a]).uuid == v@.uuid;
                        assert(map_of_versions(accv).dom().contains(selfvs[a].uuid));
                        let b = choose|b: int|
                            0 <= b < accv.len() && (#[trigger] accv[b]).uuid == selfvs[a].uuid;
                        assert(accv[b].uuid == v@.uuid);
                    }
                }
                assert(!map_of_versions(othervs.take(j)).dom().contains(v@.uuid)) by {
                    lemma_map_of_versions_facts(othervs.take(j));
                    if map_of_versions(othervs.take(j)).dom().contains(v@.uuid) {
                        let a = choose|a: int|
                            0 <= a < othervs.take(j).len() && (#[trigger] othervs.take(j)[a]).uuid
                                == v@.uuid;
                        assert(othervs[a].uuid == othervs[j].uuid);
                    }
                }
                assert(othervs.take(j + 1).drop_last() =~= othervs.take(j));
                assert(map_of_versions(newacc) =~= merge_version_maps(
                    m1,
                    map_of_versions(othervs.take(j + 1)),
                ));
                assert forall|a: int| 0 <= a < versions@.len() implies selfvs.contains(
                    #[trigger] versions@[a]@,
                ) || othervs.contains(versions@[a]@) by {
                    assert(versions@[a]@ == newacc[a]);
                    if a == accv.len() {
                        assert(newacc[a] == othervs[j]);
                    } else {
                        assert(newacc[a] == accv[a]);
                    }
                }
            }
        },
    }
}

/// Index of the version with the given uuid, if any.
fn find_uuid(versions: &Vec<ObjectVersion>, uuid: VersionUuid) -> (r: Option<usize>)
    ensures
        match r {
            Option::Some(i) => i < versions@.len() && (versions@[i as int]@).uuid == uuid,
            Option::None => forall|a: int|
                0 <= a < versions@.len() ==> (#[trigger] versions@[a]@).uuid != uuid,
        },
{
    let n = versions.len();
    let mut i: usize = 0;
    while i < n
        invariant
            n == versions@.len(),
            i <= n,
            forall|a: int| 0 <= a < i ==> (#[trigger] versions@[a]@).uuid != uuid,
        decreases n - i,
    {
        let at = vstd::std_specs::vec::vec_index(versions, i);
        if at.uuid == uuid {
            return Option::Some(i);
        }
        i = i + 1;
    }
    Option::None
}

proof fn lemma_map_of_update(vs: Seq<ObjectVersionV>, i: int, v: ObjectVersionV)
    requires
        distinct_uuids(vs),
        0 <= i < vs.len(),
        v.uuid == vs[i].uuid,
    ensures
        map_of_versions(vs.update(i, v)) == map_of_versions(vs).insert(v.uuid, v),
    decreases vs.len(),
{
    lemma_map_of_versions_facts(vs);
    let updated = vs.update(i, v);
    assert(distinct_uuids(updated));
    lemma_map_of_versions_facts(updated);
    assert forall|k: VersionUuid|
        map_of_versions(updated).dom().contains(k) <==> map_of_versions(vs).insert(
            v.uuid,
            v,
        ).dom().contains(k) by {
        if map_of_versions(updated).dom().contains(k) {
            let a = choose|a: int| 0 <= a < updated.len() && (#[trigger] updated[a]).uuid == k;
            if a == i {
            } else {
                assert(vs[a].uuid == k);
            }
        }
        if map_of_versions(vs).insert(v.uuid, v).dom().contains(k) {
            if k == v.uuid {
                assert(updated[i].uuid == k);
            } else {
                let a = choose|a: int| 0 <= a < vs.len() && (#[trigger] vs[a]).uuid == k;
                assert(updated[a].uuid == k);
            }
        }
    }
    assert forall|k: VersionUuid|
        #[trigger] map_of_versions(updated).dom().contains(k) implies map_of_versions(updated)[k]
        == map_of_versions(vs).insert(v.uuid, v)[k] by {
        let a = choose|a: int| 0 <= a < updated.len() && (#[trigger] updated[a]).uuid == k;
        assert(map_of_versions(updated)[k] == updated[a]);
        if k == v.uuid {
            assert(a == i) by {
                if a != i {
                    assert(vs[a].uuid == vs[i].uuid);
                }
            }
        } else {
            assert(a != i);
            assert(vs[a] == updated[a]);
            assert(map_of_versions(vs)[k] == vs[a]);
        }
    }
    assert(map_of_versions(updated) =~= map_of_versions(vs).insert(v.uuid, v));
}

/// The lattice position of a state.
pub fn state_rank_exec(s: ObjectVersionState) -> (r: u8)
    ensures
        r == state_rank(s),
{
    match s {
        ObjectVersionState::Uploading => 0,
        ObjectVersionState::Complete => 1,
        ObjectVersionState::Aborted => 2,
    }
}

} // verus!
