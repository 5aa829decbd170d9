//! The LSM key-value backend, over the fjall crate.
//!
//! The whole keyspace is modelled as a map from partition names to ordered
//! maps of byte strings. Every call into fjall goes through a trusted
//! wrapper whose contract says what it does to that model: reads look
//! values up, writes update one partition, the paired write updates two
//! partitions in one transaction or none, and scans return the keys of a
//! range in byte order.

use core::ops::Bound;

use vstd::prelude::*;

use vstd::string::{StrSliceExecFns, StringExecFns};

use crate::util::text::str_eq;

verus! {

/// A database failure, with a human-readable message.
#[derive(Debug)]
pub struct DbError(pub String);

#[verifier::external_type_specification]
#[verifier::external_body]
pub struct ExTxKeyspace(fjall::TxKeyspace);

#[verifier::external_type_specification]
#[verifier::external_body]
pub struct ExTxPartitionHandle(fjall::TxPartitionHandle);

/// What the keyspace holds: per partition name, the stored key-value pairs.
pub uninterp spec fn keyspace_contents(ks: fjall::TxKeyspace) -> Map<Seq<char>, Map<Seq<u8>, Seq<u8>>>;

/// The partition a handle points at.
pub uninterp spec fn partition_name(p: fjall::TxPartitionHandle) -> Seq<char>;

/// Strict byte-lexicographic order on keys.
pub open spec fn bytes_lt(a: Seq<u8>, b: Seq<u8>) -> bool
    decreases a.len(),
{
    if b.len() == 0 {
        false
    } else if a.len() == 0 {
        true
    } else if a[0] < b[0] {
        true
    } else if a[0] > b[0] {
        false
    } else {
        bytes_lt(a.drop_first(), b.drop_first())
    }
}

/// One end of a key range.
#[derive(Debug)]
pub enum ScanBound {
    /// The range includes this key.
    Included(Vec<u8>),
    /// The range excludes this key.
    Excluded(Vec<u8>),
    /// The range is open at this end.
    Unbounded,
}

/// Mathematical image of a [`ScanBound`].
#[verifier::ext_equal]
pub ghost enum ScanBoundV {
    Included(Seq<u8>),
    Excluded(Seq<u8>),
    Unbounded,
}

impl View for ScanBound {
    type V = ScanBoundV;

    open spec fn view(&self) -> ScanBoundV {
        match self {
            ScanBound::Included(k) => ScanBoundV::Included(k@),
            ScanBound::Excluded(k) => ScanBoundV::Excluded(k@),
            ScanBound::Unbounded => ScanBoundV::Unbounded,
        }
    }
}

/// Whether a key lies between the two bounds.
pub open spec fn in_scan_range(k: Seq<u8>, low: ScanBoundV, high: ScanBoundV) -> bool {
    &&& match low {
        ScanBoundV::Included(l) => l == k || bytes_lt(l, k),
        ScanBoundV::Excluded(l) => bytes_lt(l, k),
        ScanBoundV::Unbounded => true,
    }
    &&& match high {
        ScanBoundV::Included(h) => h == k || bytes_lt(k, h),
        ScanBoundV::Excluded(h) => bytes_lt(k, h),
        ScanBoundV::Unbounded => true,
    }
}

/// Relies on fjall's `Config::open_transactional`: opens or recovers the
/// keyspace under the given directory; what it holds depends on the disk.
#[verifier::external_body]
fn ks_open(path: &str) -> (r: Result<fjall::TxKeyspace, DbError>)
{
    match fjall::Config::new(path).open_transactional() {
        Ok(ks) => Ok(ks),
        Err(e) => Err(DbError(format!("fjall: {}", e))),
    }
}

/// Relies on fjall's `TxKeyspace::open_partition`: returns a handle to the
/// named partition, creating it empty when the keyspace does not hold it.
/// fjall panics on an empty name, one over 255 bytes, or one holding a
/// character outside its partition alphabet; `requires` keeps those out.
#[verifier::external_body]
fn ks_open_partition(ks: &mut fjall::TxKeyspace, name: &str) -> (r: Result<
    fjall::TxPartitionHandle,
    DbError,
>)
    requires
        1 <= name@.len() <= 255,
        forall|i: int| 0 <= i < name@.len() ==> is_partition_char(#[trigger] name@[i]),
    ensures
        match r {
            Result::Ok(p) => partition_name(p) == name@ && keyspace_contents(*final (ks))
                == keyspace_contents(*old(ks)).insert(
                name@,
                if keyspace_contents(*old(ks)).dom().contains(name@) {
                    keyspace_contents(*old(ks))[name@]
                } else {
                    Map::empty()
                },
            ),
            Result::Err(_) => keyspace_contents(*final (ks)) == keyspace_contents(*old(ks)),
        },
{
    match ks.open_partition(name, fjall::PartitionCreateOptions::default()) {
        Ok(p) => Ok(p),
        Err(e) => Err(DbError(format!("fjall: {}", e))),
    }
}

/// Relies on fjall's `TxKeyspace::list_partitions`: the names of all the
/// partitions the keyspace holds, each once and no others — the source
/// collects the keys of its partition map.
#[verifier::external_body]
fn ks_list_partitions(ks: &fjall::TxKeyspace) -> (r: Vec<String>)
    ensures
        forall|i: int|
            0 <= i < r@.len() ==> keyspace_contents(*ks).dom().contains((#[trigger] r@[i])@),
        forall|p: Seq<char>|
            #[trigger] keyspace_contents(*ks).dom().contains(p) ==> exists|i: int|
                0 <= i < r@.len() && (#[trigger] r@[i])@ == p,
        forall|i: int, j: int| 0 <= i < j < r@.len() ==> (#[trigger] r@[i])@ != (#[trigger] r@[j])@,
{
    ks.list_partitions().iter().map(|n| n.to_string()).collect()
}

/// Relies on fjall's `ReadTransaction::get`: the value stored under the
/// key in the handle's partition, if any.
#[verifier::external_body]
fn ks_get(ks: &fjall::TxKeyspace, part: &fjall::TxPartitionHandle, key: &[u8]) -> (r: Result<
    Option<Vec<u8>>,
    DbError,
>)
    requires
        keyspace_contents(*ks).dom().contains(partition_name(*part)),
    ensures
        match r {
            Result::Ok(v) => {
                let m = keyspace_contents(*ks)[partition_name(*part)];
                match v {
                    Option::Some(b) => m.dom().contains(key@) && m[key@] == b@,
                    Option::None => !m.dom().contains(key@),
                }
            },
            Result::Err(_) => true,
        },
{
    match ks.read_tx().get(part, key) {
        Ok(Some(v)) => Ok(Some(v.to_vec())),
        Ok(None) => Ok(None),
        Err(e) => Err(DbError(format!("fjall: {}", e))),
    }
}

/// Relies on fjall's `ReadTransaction::len`: the number of stored pairs in
/// the handle's partition.
#[verifier::external_body]
fn ks_len(ks: &fjall::TxKeyspace, part: &fjall::TxPartitionHandle) -> (r: Result<usize, DbError>)
    requires
        keyspace_contents(*ks).dom().contains(partition_name(*part)),
    ensures
        match r {
            Result::Ok(n) => n == keyspace_contents(*ks)[partition_name(*part)].dom().len(),
            Result::Err(_) => true,
        },
{
    match ks.read_tx().len(part) {
        Ok(n) => Ok(n),
        Err(e) => Err(DbError(format!("fjall: {}", e))),
    }
}

/// Relies on fjall's `WriteTransaction` insert and commit: stores the pair
/// in the handle's partition, or changes nothing on failure. The store
/// panics on an empty key, a key over 65535 bytes or a value of 2^32 bytes
/// or more; `requires` keeps those out.
#[verifier::external_body]
fn ks_insert(
    ks: &mut fjall::TxKeyspace,
    part: &fjall::TxPartitionHandle,
    key: &[u8],
    value: &[u8],
) -> (r: Result<(), DbError>)
    requires
        keyspace_contents(*old(ks)).dom().contains(partition_name(*part)),
        1 <= key@.len() <= 65535,
        value@.len() <= u32::MAX,
    ensures
        match r {
            Result::Ok(_) => keyspace_contents(*final (ks)) == keyspace_contents(*old(ks)).insert(
                partition_name(*part),
                keyspace_contents(*old(ks))[partition_name(*part)].insert(key@, value@),
            ),
            Result::Err(_) => keyspace_contents(*final (ks)) == keyspace_contents(*old(ks)),
        },
{
    let mut tx = ks.write_tx();
    tx.insert(part, key, value);
    match tx.commit() {
        Ok(()) => Ok(()),
        Err(e) => Err(DbError(format!("fjall: {}", e))),
    }
}

/// Relies on fjall's `WriteTransaction` remove and commit: removes the key
/// from the handle's partition, or changes nothing on failure. The store's
/// tombstone panics on an empty key or one over 65535 bytes; `requires`
/// keeps those out.
#[verifier::external_body]
fn ks_remove(ks: &mut fjall::TxKeyspace, part: &fjall::TxPartitionHandle, key: &[u8]) -> (r:
    Result<(), DbError>)
    requires
        keyspace_contents(*old(ks)).dom().contains(partition_name(*part)),
        1 <= key@.len() <= 65535,
    ensures
        match r {
            Result::Ok(_) => keyspace_contents(*final (ks)) == keyspace_contents(*old(ks)).insert(
                partition_name(*part),
                keyspace_contents(*old(ks))[partition_name(*part)].remove(key@),
            ),
            Result::Err(_) => keyspace_contents(*final (ks)) == keyspace_contents(*old(ks)),
        },
{
    let mut tx = ks.write_tx();
    tx.remove(part, key);
    match tx.commit() {
        Ok(()) => Ok(()),
        Err(e) => Err(DbError(format!("fjall: {}", e))),
    }
}

/// Relies on fjall's `WriteTransaction`: both pairs are stored in one
/// transaction — after the call either both writes are visible or neither.
/// The store panics on an empty key, a key over 65535 bytes or a value of
/// 2^32 bytes or more; `requires` keeps those out.
#[verifier::external_body]
fn ks_insert_pair(
    ks: &mut fjall::TxKeyspace,
    p1: &fjall::TxPartitionHandle,
    k1: &[u8],
    v1: &[u8],
    p2: &fjall::TxPartitionHandle,
    k2: &[u8],
    v2: &[u8],
) -> (r: Result<(), DbError>)
    requires
        keyspace_contents(*old(ks)).dom().contains(partition_name(*p1)),
        keyspace_contents(*old(ks)).dom().contains(partition_name(*p2)),
        1 <= k1@.len() <= 65535,
        v1@.len() <= u32::MAX,
        1 <= k2@.len() <= 65535,
        v2@.len() <= u32::MAX,
    ensures
        match r {
            Result::Ok(_) => {
                let first = keyspace_contents(*old(ks)).insert(
                    partition_name(*p1),
                    keyspace_contents(*old(ks))[partition_name(*p1)].insert(k1@, v1@),
                );
                keyspace_contents(*final (ks)) == first.insert(
                    partition_name(*p2),
                    first[partition_name(*p2)].insert(k2@, v2@),
                )
            },
            Result::Err(_) => keyspace_contents(*final (ks)) == keyspace_contents(*old(ks)),
        },
{
    let mut tx = ks.write_tx();
    tx.insert(p1, k1, v1);
    tx.insert(p2, k2, v2);
    match tx.commit() {
        Ok(()) => Ok(()),
        Err(e) => Err(DbError(format!("fjall: {}", e))),
    }
}

/// The deep view of a batch of writes: per write, the tree index, the key
/// bytes, and the value bytes to store — or nothing, for a removal.
pub open spec fn write_views(ws: Seq<(usize, Vec<u8>, Option<Vec<u8>>)>) -> Seq<
    (usize, Seq<u8>, Option<Seq<u8>>),
> {
    ws.map_values(
        |w: (usize, Vec<u8>, Option<Vec<u8>>)|
            (
                w.0,
                w.1@,
                match w.2 {
                    Option::Some(v) => Option::Some(v@),
                    Option::None => Option::<Seq<u8>>::None,
                },
            ),
    )
}

/// One write applied to the keyspace model: an upsert or a removal in one
/// partition.
pub open spec fn apply_write(
    m: Map<Seq<char>, Map<Seq<u8>, Seq<u8>>>,
    part: Seq<char>,
    key: Seq<u8>,
    value: Option<Seq<u8>>,
) -> Map<Seq<char>, Map<Seq<u8>, Seq<u8>>> {
    match value {
        Option::Some(v) => m.insert(part, m[part].insert(key, v)),
        Option::None => m.insert(part, m[part].remove(key)),
    }
}

/// A whole batch applied to the keyspace model, first write first: a later
/// write to the same key wins.
pub open spec fn apply_batch(
    m: Map<Seq<char>, Map<Seq<u8>, Seq<u8>>>,
    names: Seq<Seq<char>>,
    ws: Seq<(usize, Seq<u8>, Option<Seq<u8>>)>,
) -> Map<Seq<char>, Map<Seq<u8>, Seq<u8>>>
    decreases ws.len(),
{
    if ws.len() == 0 {
        m
    } else {
        apply_batch(
            apply_write(m, names[ws[0].0 as int], ws[0].1, ws[0].2),
            names,
            ws.drop_first(),
        )
    }
}

/// Applying a batch drops no partition from the keyspace model.
proof fn lemma_apply_batch_dom(
    m: Map<Seq<char>, Map<Seq<u8>, Seq<u8>>>,
    names: Seq<Seq<char>>,
    ws: Seq<(usize, Seq<u8>, Option<Seq<u8>>)>,
)
    ensures
        forall|p: Seq<char>|
            m.dom().contains(p) ==> #[trigger] apply_batch(m, names, ws).dom().contains(p),
    decreases ws.len(),
{
    if ws.len() > 0 {
        let m2 = apply_write(m, names[ws[0].0 as int], ws[0].1, ws[0].2);
        lemma_apply_batch_dom(m2, names, ws.drop_first());
        assert forall|p: Seq<char>|
            m.dom().contains(p) implies #[trigger] apply_batch(m, names, ws).dom().contains(
            p,
        ) by {
            assert(m2.dom().contains(p));
            assert(apply_batch(m2, names, ws.drop_first()).dom().contains(p));
            assert(apply_batch(m, names, ws) == apply_batch(m2, names, ws.drop_first()));
        }
    }
}

/// Relies on fjall's `WriteTransaction`: every write of the batch is
/// staged on one transaction and committed at once — after the call
/// either the whole batch is visible, in order, or nothing changed. The
/// store panics on an empty key, a key over 65535 bytes or a value of
/// 2^32 bytes or more; `requires` keeps those out.
#[verifier::external_body]
fn ks_apply_batch(
    ks: &mut fjall::TxKeyspace,
    parts: &Vec<fjall::TxPartitionHandle>,
    writes: &Vec<(usize, Vec<u8>, Option<Vec<u8>>)>,
) -> (r: Result<(), DbError>)
    requires
        forall|k: int| 0 <= k < writes@.len() ==> (#[trigger] writes@[k]).0 < parts@.len(),
        forall|j: int|
            0 <= j < parts@.len() ==> keyspace_contents(*old(ks)).dom().contains(
                partition_name(#[trigger] parts@[j]),
            ),
        forall|k: int| 0 <= k < writes@.len() ==> 1 <= (#[trigger] writes@[k]).1@.len() <= 65535,
        forall|k: int|
            0 <= k < writes@.len() ==> match (#[trigger] writes@[k]).2 {
                Option::Some(v) => v@.len() <= u32::MAX,
                Option::None => true,
            },
    ensures
        match r {
            Result::Ok(_) => keyspace_contents(*final (ks)) == apply_batch(
                keyspace_contents(*old(ks)),
                parts@.map_values(|p: fjall::TxPartitionHandle| partition_name(p)),
                write_views(writes@),
            ),
            Result::Err(_) => keyspace_contents(*final (ks)) == keyspace_contents(*old(ks)),
        },
{
    let mut tx = ks.write_tx();
    for (t, k, v) in writes.iter() {
        match v {
            Some(val) => tx.insert(&parts[*t], k.as_slice(), val.as_slice()),
            None => tx.remove(&parts[*t], k.as_slice()),
        }
    }
    match tx.commit() {
        Ok(()) => Ok(()),
        Err(e) => Err(DbError(format!("fjall: {}", e))),
    }
}

/// Relies on fjall's `WriteTransaction`: every key of the handle's
/// partition is removed in one transaction, or nothing changes.
#[verifier::external_body]
fn ks_clear(ks: &mut fjall::TxKeyspace, part: &fjall::TxPartitionHandle) -> (r: Result<
    (),
    DbError,
>)
    requires
        keyspace_contents(*old(ks)).dom().contains(partition_name(*part)),
    ensures
        match r {
            Result::Ok(_) => keyspace_contents(*final (ks)) == keyspace_contents(*old(ks)).insert(
                partition_name(*part),
                Map::empty(),
            ),
            Result::Err(_) => keyspace_contents(*final (ks)) == keyspace_contents(*old(ks)),
        },
{
    let mut tx = ks.write_tx();
    let keys: Result<Vec<fjall::UserKey>, fjall::Error> =
        tx.iter(part).map(|item| item.map(|(k, _)| k)).collect();
    match keys {
        Ok(keys) => {
            keys.into_iter().for_each(|k| tx.remove(part, k));
            tx.commit().map_err(|e| DbError(format!("fjall: {}", e)))
        },
        Err(e) => Err(DbError(format!("fjall: {}", e))),
    }
}

/// Relies on fjall's `ReadTransaction::range`: the pairs of the handle's
/// partition whose keys fall between the bounds, in ascending byte order,
/// complete.
#[verifier::external_body]
fn ks_range(
    ks: &fjall::TxKeyspace,
    part: &fjall::TxPartitionHandle,
    low: &ScanBound,
    high: &ScanBound,
) -> (r: Result<Vec<(Vec<u8>, Vec<u8>)>, DbError>)
    requires
        keyspace_contents(*ks).dom().contains(partition_name(*part)),
    ensures
        match r {
            Result::Ok(v) => {
                let m = keyspace_contents(*ks)[partition_name(*part)];
                &&& forall|i: int|
                    0 <= i < v.len() ==> in_scan_range((#[trigger] v[i]).0@, low@, high@)
                        && m.dom().contains(v[i].0@) && m[v[i].0@] == v[i].1@
                &&& forall|k: Seq<u8>|
                    #[trigger] m.dom().contains(k) && in_scan_range(k, low@, high@)
                        ==> exists|i: int| 0 <= i < v.len() && (#[trigger] v[i]).0@ == k
                &&& forall|i: int, j: int| 0 <= i < j < v.len() ==> bytes_lt(v[i].0@, v[j].0@)
            },
            Result::Err(_) => true,
        },
{
    let of = |b: &ScanBound| match b {
        ScanBound::Included(k) => Bound::Included(k.clone()),
        ScanBound::Excluded(k) => Bound::Excluded(k.clone()),
        ScanBound::Unbounded => Bound::Unbounded,
    };
    ks.read_tx().range::<Vec<u8>, _>(part, (of(low), of(high)))
        .map(|item| item.map(|(k, v)| (k.to_vec(), v.to_vec()))
        .map_err(|e| DbError(format!("fjall: {}", e))))
        .collect()
}

/// Relies on fjall's `ReadTransaction::range` walked backwards: the pairs
/// of the handle's partition whose keys fall between the bounds, in
/// descending byte order, complete.
#[verifier::external_body]
fn ks_range_rev(
    ks: &fjall::TxKeyspace,
    part: &fjall::TxPartitionHandle,
    low: &ScanBound,
    high: &ScanBound,
) -> (r: Result<Vec<(Vec<u8>, Vec<u8>)>, DbError>)
    requires
        keyspace_contents(*ks).dom().contains(partition_name(*part)),
    ensures
        match r {
            Result::Ok(v) => {
                let m = keyspace_contents(*ks)[partition_name(*part)];
                &&& forall|i: int|
                    0 <= i < v.len() ==> in_scan_range((#[trigger] v[i]).0@, low@, high@)
                        && m.dom().contains(v[i].0@) && m[v[i].0@] == v[i].1@
                &&& forall|k: Seq<u8>|
                    #[trigger] m.dom().contains(k) && in_scan_range(k, low@, high@)
                        ==> exists|i: int| 0 <= i < v.len() && (#[trigger] v[i]).0@ == k
                &&& forall|i: int, j: int| 0 <= i < j < v.len() ==> bytes_lt(v[j].0@, v[i].0@)
            },
            Result::Err(_) => true,
        },
{
    let of = |b: &ScanBound| match b {
        ScanBound::Included(k) => Bound::Included(k.clone()),
        ScanBound::Excluded(k) => Bound::Excluded(k.clone()),
        ScanBound::Unbounded => Bound::Unbounded,
    };
    ks.read_tx().range::<Vec<u8>, _>(part, (of(low), of(high))).rev()
        .map(|item| item.map(|(k, v)| (k.to_vec(), v.to_vec()))
        .map_err(|e| DbError(format!("fjall: {}", e))))
        .collect()
}

/// An open database: the keyspace plus the registry of opened trees.
pub struct Db {
    keyspace: fjall::TxKeyspace,
    trees: Vec<fjall::TxPartitionHandle>,
    names: Vec<String>,
}

impl Db {
    /// Everything the keyspace holds, per partition name.
    pub closed spec fn keyspace_model(&self) -> Map<Seq<char>, Map<Seq<u8>, Seq<u8>>> {
        keyspace_contents(self.keyspace)
    }

    /// What one tree holds.
    pub closed spec fn tree_contents(&self, tree: int) -> Map<Seq<u8>, Seq<u8>> {
        keyspace_contents(self.keyspace)[self.names@[tree]@]
    }

    /// The name a tree was opened under.
    pub closed spec fn tree_name(&self, tree: int) -> Seq<char> {
        self.names@[tree]@
    }

    /// How many trees are open.
    pub closed spec fn tree_count(&self) -> int {
        self.trees@.len() as int
    }

    /// The names of all the open trees, by handle.
    pub closed spec fn tree_names(&self) -> Seq<Seq<char>> {
        self.names@.map_values(|s: String| s@)
    }

    /// Every registered handle matches its name, names are unique, and
    /// every registered partition exists in the keyspace.
    pub closed spec fn wf(&self) -> bool {
        &&& self.trees@.len() == self.names@.len()
        &&& forall|i: int|
            0 <= i < self.trees@.len() ==> partition_name(#[trigger] self.trees@[i])
                == self.names@[i]@
        &&& forall|i: int, j: int|
            0 <= i < j < self.names@.len() ==> self.names@[i]@ != self.names@[j]@
        &&& forall|i: int|
            0 <= i < self.names@.len() ==> keyspace_contents(self.keyspace).dom().contains(
                (#[trigger] self.names@[i])@,
            )
    }

    /// Open or create the database under the given directory. What its
    /// trees hold comes from the disk.
    pub fn open(path: &str) -> (r: Result<Db, DbError>)
        ensures
            match r {
                Result::Ok(db) => db.wf() && db.tree_count() == 0,
                Result::Err(_) => true,
            },
    {
        let keyspace = ks_open(path)?;
        Result::Ok(Db { keyspace, trees: Vec::new(), names: Vec::new() })
    }

    /// The engine behind this database.
    pub fn engine(&self) -> (r: &'static str)
        ensures
            r@ == "LSM trees (using Fjall crate)"@,
    {
        "LSM trees (using Fjall crate)"
    }

    /// Open a tree by name, or find it if it is already open. The name is
    /// first mapped to the backend-safe alphabet, reversibly; a name whose
    /// canonical form is empty or longer than the backend's 255-byte limit
    /// is rejected.
    pub fn open_tree(&mut self, name: &str) -> (r: Result<usize, DbError>)
        requires
            old(self).wf(),
        ensures
            final (self).wf(),
            canonical_name(name@).len() == 0 || canonical_name(name@).len() > 255 ==> r is Err,
            match r {
                Result::Ok(t) => {
                    &&& t < final (self).tree_count()
                    &&& final (self).tree_name(t as int) == canonical_name(name@)
                    &&& final (self).tree_count() >= old(self).tree_count()
                    &&& forall|i: int|
                        0 <= i < old(self).tree_count() ==> final (self).tree_name(i) == old(
                            self,
                        ).tree_name(i) && (i != t ==> #[trigger] final (self).tree_contents(i)
                            == old(self).tree_contents(i))
                },
                Result::Err(_) => final (self).tree_count() == old(self).tree_count() && forall|
                    i: int,
                |
                    0 <= i < old(self).tree_count() ==> #[trigger] final (self).tree_contents(i)
                        == old(self).tree_contents(i) && final (self).tree_name(i) == old(
                        self,
                    ).tree_name(i),
            },
    {
        let canonical = canonicalize(name);
        let clen = canonical.as_str().unicode_len();
        if clen == 0 || clen > 255 {
            return Result::Err(
                DbError(String::from_str("tree name maps to no valid partition name")),
            );
        }
        proof {
            lemma_canonical_chars(name@);
        }
        let n = self.names.len();
        let mut i: usize = 0;
        while i < n
            invariant
                self.wf(),
                n == self.names@.len(),
                i <= n,
                canonical@ == canonical_name(name@),
                1 <= canonical_name(name@).len() <= 255,
                forall|j: int| 0 <= j < i ==> (#[trigger] self.names@[j])@ != canonical@,
            decreases n - i,
        {
            let at = vstd::std_specs::vec::vec_index(&self.names, i);
            if str_eq(at.as_str(), canonical.as_str()) {
                return Result::Ok(i);
            }
            i = i + 1;
        }
        let handle = match ks_open_partition(&mut self.keyspace, canonical.as_str()) {
            Result::Ok(h) => h,
            Result::Err(e) => {
                return Result::Err(e);
            },
        };
        let t = self.trees.len();
        self.trees.push(handle);
        self.names.push(canonical);
        proof {
            assert forall|a: int|
                0 <= a < self.names@.len() implies keyspace_contents(
                self.keyspace,
            ).dom().contains((#[trigger] self.names@[a])@) by {
                if a < self.names@.len() - 1 {
                    assert(self.names@[a] == old(self).names@[a]);
                }
            }
            assert(final (self).wf());
        }
        Result::Ok(t)
    }

    /// The original names of the trees the keyspace holds on disk: every
    /// partition name that is the canonical form of a tree name is mapped
    /// back to that name, each once — so a tree once opened is listed
    /// under the name it was opened with.
    pub fn list_trees(&self) -> (r: Vec<String>)
        ensures
            forall|i: int|
                0 <= i < r@.len() ==> self.keyspace_model().dom().contains(
                    canonical_name((#[trigger] r@[i])@),
                ),
            forall|p: Seq<char>|
                #[trigger] self.keyspace_model().dom().contains(p) && (exists|t: Seq<char>|
                    #[trigger] canonical_name(t) == p) ==> exists|i: int|
                    0 <= i < r@.len() && canonical_name((#[trigger] r@[i])@) == p,
            forall|i: int, j: int|
                0 <= i < j < r@.len() ==> (#[trigger] r@[i])@ != (#[trigger] r@[j])@,
    {
        let names = ks_list_partitions(&self.keyspace);
        let mut r: Vec<String> = Vec::new();
        let mut i: usize = 0;
        while i < names.len()
            invariant
                i <= names@.len(),
                forall|k: int|
                    0 <= k < names@.len() ==> keyspace_contents(self.keyspace).dom().contains(
                        (#[trigger] names@[k])@,
                    ),
                forall|k1: int, k2: int|
                    0 <= k1 < k2 < names@.len() ==> (#[trigger] names@[k1])@
                        != (#[trigger] names@[k2])@,
                forall|k: int|
                    0 <= k < r@.len() ==> exists|j: int|
                        0 <= j < i && canonical_name((#[trigger] r@[k])@) == (#[trigger] names@[j])@,
                forall|k1: int, k2: int|
                    0 <= k1 < k2 < r@.len() ==> canonical_name((#[trigger] r@[k1])@)
                        != canonical_name((#[trigger] r@[k2])@),
                forall|j: int|
                    0 <= j < i && (exists|t: Seq<char>|
                        #[trigger] canonical_name(t) == (#[trigger] names@[j])@) ==> exists|k: int|
                        0 <= k < r@.len() && canonical_name((#[trigger] r@[k])@) == names@[j]@,
            decreases names@.len() - i,
        {
            let name = vstd::std_specs::vec::vec_index(&names, i);
            let ghost oldr = r@;
            match decode_name(name.as_str()) {
                Option::Some(orig) => {
                    proof {
                        assert(canonical_name(orig@) == names@[i as int]@);
                    }
                    r.push(orig);
                    proof {
                        assert forall|k1: int, k2: int|
                            0 <= k1 < k2 < r@.len() implies canonical_name((#[trigger] r@[k1])@)
                            != canonical_name((#[trigger] r@[k2])@) by {
                            if k2 == oldr.len() {
                                let j = choose|j: int|
                                    0 <= j < i && canonical_name(oldr[k1]@) == (
                                    #[trigger] names@[j])@;
                                assert(names@[j]@ != names@[i as int]@);
                            }
                        }
                        assert forall|k: int| 0 <= k < r@.len() implies exists|j: int|
                            0 <= j < i + 1 && canonical_name((#[trigger] r@[k])@) == (
                            #[trigger] names@[j])@ by {
                            if k == oldr.len() {
                                assert(canonical_name(r@[k]@) == names@[i as int]@);
                            } else {
                                let j = choose|j: int|
                                    0 <= j < i && canonical_name(oldr[k]@) == (
                                    #[trigger] names@[j])@;
                                assert(canonical_name(r@[k]@) == names@[j]@);
                            }
                        }
                        assert forall|j: int|
                            0 <= j < i + 1 && (exists|t: Seq<char>|
                                #[trigger] canonical_name(t) == (#[trigger] names@[j])@) implies exists|
                            k: int,
                        |
                            0 <= k < r@.len() && canonical_name((#[trigger] r@[k])@)
                                == names@[j]@ by {
                            if j == i {
                                assert(canonical_name(r@[oldr.len() as int]@) == names@[i as int]@);
                            } else {
                                let k = choose|k: int|
                                    0 <= k < oldr.len() && canonical_name((#[trigger] oldr[k])@)
                                        == names@[j]@;
                                assert(r@[k] == oldr[k]);
                                assert(canonical_name(r@[k]@) == names@[j]@);
                            }
                        }
                    }
                },
                Option::None => {
                    proof {
                        assert forall|j: int|
                            0 <= j < i + 1 && (exists|t: Seq<char>|
                                #[trigger] canonical_name(t) == (#[trigger] names@[j])@) implies exists|
                            k: int,
                        |
                            0 <= k < r@.len() && canonical_name((#[trigger] r@[k])@)
                                == names@[j]@ by {
                            if j == i {
                                let t = choose|t: Seq<char>| canonical_name(t) == names@[j]@;
                                assert(canonical_name(t) != name@);
                            } else {
                                let k = choose|k: int|
                                    0 <= k < r@.len() && canonical_name((#[trigger] r@[k])@)
                                        == names@[j]@;
                                assert(canonical_name(r@[k]@) == names@[j]@);
                            }
                        }
                    }
                },
            }
            i = i + 1;
        }
        r
    }

    /// The value stored under `key`, if any.
    pub fn get(&self, tree: usize, key: &[u8]) -> (r: Result<Option<Vec<u8>>, DbError>)
        requires
            self.wf(),
            tree < self.tree_count(),
        ensures
            match r {
                Result::Ok(v) => match v {
                    Option::Some(b) => self.tree_contents(tree as int).dom().contains(key@)
                        && self.tree_contents(tree as int)[key@] == b@,
                    Option::None => !self.tree_contents(tree as int).dom().contains(key@),
                },
                Result::Err(_) => true,
            },
    {
        let part = vstd::std_specs::vec::vec_index(&self.trees, tree);
        ks_get(&self.keyspace, part, key)
    }

    /// How many pairs the tree holds.
    pub fn len(&self, tree: usize) -> (r: Result<usize, DbError>)
        requires
            self.wf(),
            tree < self.tree_count(),
        ensures
            match r {
                Result::Ok(n) => n == self.tree_contents(tree as int).dom().len(),
                Result::Err(_) => true,
            },
    {
        let part = vstd::std_specs::vec::vec_index(&self.trees, tree);
        ks_len(&self.keyspace, part)
    }

    /// Store a pair; on failure nothing changes. The backend bounds what a
    /// pair may hold: a key has 1 to 65535 bytes, a value at most 2^32 - 1.
    pub fn insert(&mut self, tree: usize, key: &[u8], value: &[u8]) -> (r: Result<(), DbError>)
        requires
            old(self).wf(),
            tree < old(self).tree_count(),
            1 <= key@.len() <= 65535,
            value@.len() <= u32::MAX,
        ensures
            final (self).wf(),
            final (self).tree_count() == old(self).tree_count(),
            forall|i: int|
                0 <= i < old(self).tree_count() ==> final (self).tree_name(i) == old(
                    self,
                ).tree_name(i),
            match r {
                Result::Ok(_) => {
                    &&& final (self).tree_contents(tree as int) == old(self).tree_contents(
                        tree as int,
                    ).insert(key@, value@)
                    &&& forall|i: int|
                        0 <= i < old(self).tree_count() && i != tree ==> #[trigger] final (
                        self).tree_contents(i) == old(self).tree_contents(i)
                },
                Result::Err(_) => forall|i: int|
                    0 <= i < old(self).tree_count() ==> #[trigger] final (self).tree_contents(i)
                        == old(self).tree_contents(i),
            },
    {
        let part = vstd::std_specs::vec::vec_index(&self.trees, tree);
        let r = ks_insert(&mut self.keyspace, part, key, value);
        proof {
            assert forall|i: int|
                0 <= i < old(self).tree_count() && i != tree implies #[trigger] final (
            self).tree_contents(i) == old(self).tree_contents(i) by {
                assert(self.names@[i]@ != self.names@[tree as int]@);
            }
        }
        r
    }

    /// Remove a key; on failure nothing changes. The backend bounds keys to
    /// 1 to 65535 bytes.
    pub fn remove(&mut self, tree: usize, key: &[u8]) -> (r: Result<(), DbError>)
        requires
            old(self).wf(),
            tree < old(self).tree_count(),
            1 <= key@.len() <= 65535,
        ensures
            final (self).wf(),
            final (self).tree_count() == old(self).tree_count(),
            forall|i: int|
                0 <= i < old(self).tree_count() ==> final (self).tree_name(i) == old(
                    self,
                ).tree_name(i),
            match r {
                Result::Ok(_) => {
                    &&& final (self).tree_contents(tree as int) == old(self).tree_contents(
                        tree as int,
                    ).remove(key@)
                    &&& forall|i: int|
                        0 <= i < old(self).tree_count() && i != tree ==> #[trigger] final (
                        self).tree_contents(i) == old(self).tree_contents(i)
                },
                Result::Err(_) => forall|i: int|
                    0 <= i < old(self).tree_count() ==> #[trigger] final (self).tree_contents(i)
                        == old(self).tree_contents(i),
            },
    {
        let part = vstd::std_specs::vec::vec_index(&self.trees, tree);
        let r = ks_remove(&mut self.keyspace, part, key);
        proof {
            assert forall|i: int|
                0 <= i < old(self).tree_count() && i != tree implies #[trigger] final (
            self).tree_contents(i) == old(self).tree_contents(i) by {
                assert(self.names@[i]@ != self.names@[tree as int]@);
            }
        }
        r
    }

    /// Empty a tree in one transaction; on failure nothing changes.
    pub fn clear(&mut self, tree: usize) -> (r: Result<(), DbError>)
        requires
            old(self).wf(),
            tree < old(self).tree_count(),
        ensures
            final (self).wf(),
            final (self).tree_count() == old(self).tree_count(),
            forall|i: int|
                0 <= i < old(self).tree_count() ==> final (self).tree_name(i) == old(
                    self,
                ).tree_name(i),
            match r {
                Result::Ok(_) => {
                    &&& final (self).tree_contents(tree as int) == Map::<Seq<u8>, Seq<u8>>::empty()
                    &&& forall|i: int|
                        0 <= i < old(self).tree_count() && i != tree ==> #[trigger] final (
                        self).tree_contents(i) == old(self).tree_contents(i)
                },
                Result::Err(_) => forall|i: int|
                    0 <= i < old(self).tree_count() ==> #[trigger] final (self).tree_contents(i)
                        == old(self).tree_contents(i),
            },
    {
        let part = vstd::std_specs::vec::vec_index(&self.trees, tree);
        let r = ks_clear(&mut self.keyspace, part);
        proof {
            assert forall|i: int|
                0 <= i < old(self).tree_count() && i != tree implies #[trigger] final (
            self).tree_contents(i) == old(self).tree_contents(i) by {
                assert(self.names@[i]@ != self.names@[tree as int]@);
            }
        }
        r
    }

    /// Store two pairs, possibly in two different trees, in one
    /// transaction: after the call both writes are visible or neither.
    /// This is how a record and its Merkle-tree node stay consistent.
    pub fn insert_pair(
        &mut self,
        tree1: usize,
        key1: &[u8],
        value1: &[u8],
        tree2: usize,
        key2: &[u8],
        value2: &[u8],
    ) -> (r: Result<(), DbError>)
        requires
            old(self).wf(),
            tree1 < old(self).tree_count(),
            tree2 < old(self).tree_count(),
            1 <= key1@.len() <= 65535,
            value1@.len() <= u32::MAX,
            1 <= key2@.len() <= 65535,
            value2@.len() <= u32::MAX,
        ensures
            final (self).wf(),
            final (self).tree_count() == old(self).tree_count(),
            forall|i: int|
                0 <= i < old(self).tree_count() ==> final (self).tree_name(i) == old(
                    self,
                ).tree_name(i),
            match r {
                Result::Ok(_) => {
                    &&& tree1 != tree2 ==> final (self).tree_contents(tree1 as int) == old(
                        self,
                    ).tree_contents(tree1 as int).insert(key1@, value1@) && final (
                    self).tree_contents(tree2 as int) == old(self).tree_contents(
                        tree2 as int,
                    ).insert(key2@, value2@)
                    &&& tree1 == tree2 ==> final (self).tree_contents(tree1 as int) == old(
                        self,
                    ).tree_contents(tree1 as int).insert(key1@, value1@).insert(key2@, value2@)
                    &&& forall|i: int|
                        0 <= i < old(self).tree_count() && i != tree1 && i != tree2
                            ==> #[trigger] final (self).tree_contents(i) == old(
                            self,
                        ).tree_contents(i)
                },
                Result::Err(_) => forall|i: int|
                    0 <= i < old(self).tree_count() ==> #[trigger] final (self).tree_contents(i)
                        == old(self).tree_contents(i),
            },
    {
        let p1 = vstd::std_specs::vec::vec_index(&self.trees, tree1);
        let p2 = vstd::std_specs::vec::vec_index(&self.trees, tree2);
        let r = ks_insert_pair(&mut self.keyspace, p1, key1, value1, p2, key2, value2);
        proof {
            if tree1 != tree2 {
                assert(self.names@[tree1 as int]@ != self.names@[tree2 as int]@);
            }
            assert forall|i: int|
                0 <= i < old(self).tree_count() && i != tree1 && i != tree2 implies #[trigger] final (
            self).tree_contents(i) == old(self).tree_contents(i) by {
                assert(self.names@[i]@ != self.names@[tree1 as int]@);
                assert(self.names@[i]@ != self.names@[tree2 as int]@);
            }
        }
        r
    }

    /// Apply several writes, possibly across trees, in one transaction:
    /// after the call either every write is visible, first write first, or
    /// none is. This is the cross-tree read-modify-write step: read,
    /// decide the writes, apply them at once.
    pub fn apply_batch(&mut self, writes: &Vec<(usize, Vec<u8>, Option<Vec<u8>>)>) -> (r: Result<
        (),
        DbError,
    >)
        requires
            old(self).wf(),
            forall|k: int|
                0 <= k < writes@.len() ==> (#[trigger] writes@[k]).0 < old(self).tree_count(),
            forall|k: int|
                0 <= k < writes@.len() ==> 1 <= (#[trigger] writes@[k]).1@.len() <= 65535,
            forall|k: int|
                0 <= k < writes@.len() ==> match (#[trigger] writes@[k]).2 {
                    Option::Some(v) => v@.len() <= u32::MAX,
                    Option::None => true,
                },
        ensures
            final (self).wf(),
            final (self).tree_count() == old(self).tree_count(),
            final (self).tree_names() == old(self).tree_names(),
            match r {
                Result::Ok(_) => final (self).keyspace_model() == apply_batch(
                    old(self).keyspace_model(),
                    old(self).tree_names(),
                    write_views(writes@),
                ),
                Result::Err(_) => forall|i: int|
                    0 <= i < old(self).tree_count() ==> #[trigger] final (self).tree_contents(i)
                        == old(self).tree_contents(i),
            },
    {
        let r = ks_apply_batch(&mut self.keyspace, &self.trees, writes);
        proof {
            assert(self.trees@.map_values(|p: fjall::TxPartitionHandle| partition_name(p))
                =~= self.tree_names());
            if r is Ok {
                lemma_apply_batch_dom(
                    old(self).keyspace_model(),
                    old(self).tree_names(),
                    write_views(writes@),
                );
            }
        }
        r
    }

    /// The pairs whose keys fall in the given range, ascending.
    pub fn range(&self, tree: usize, low: &ScanBound, high: &ScanBound) -> (r: Result<
        Vec<(Vec<u8>, Vec<u8>)>,
        DbError,
    >)
        requires
            self.wf(),
            tree < self.tree_count(),
        ensures
            match r {
                Result::Ok(v) => {
                    let m = self.tree_contents(tree as int);
                    &&& forall|i: int|
                        0 <= i < v.len() ==> in_scan_range((#[trigger] v[i]).0@, low@, high@)
                            && m.dom().contains(v[i].0@) && m[v[i].0@] == v[i].1@
                    &&& forall|k: Seq<u8>|
                        #[trigger] m.dom().contains(k) && in_scan_range(k, low@, high@)
                            ==> exists|i: int| 0 <= i < v.len() && (#[trigger] v[i]).0@ == k
                    &&& forall|i: int, j: int| 0 <= i < j < v.len() ==> bytes_lt(v[i].0@, v[j].0@)
                },
                Result::Err(_) => true,
            },
    {
        let part = vstd::std_specs::vec::vec_index(&self.trees, tree);
        ks_range(&self.keyspace, part, low, high)
    }

    /// Every pair of the tree, in ascending key order.
    pub fn iter(&self, tree: usize) -> (r: Result<Vec<(Vec<u8>, Vec<u8>)>, DbError>)
        requires
            self.wf(),
            tree < self.tree_count(),
        ensures
            match r {
                Result::Ok(v) => {
                    let m = self.tree_contents(tree as int);
                    &&& forall|i: int|
                        0 <= i < v.len() ==> m.dom().contains((#[trigger] v[i]).0@) && m[v[i].0@]
                            == v[i].1@
                    &&& forall|k: Seq<u8>|
                        #[trigger] m.dom().contains(k) ==> exists|i: int|
                            0 <= i < v.len() && (#[trigger] v[i]).0@ == k
                    &&& forall|i: int, j: int| 0 <= i < j < v.len() ==> bytes_lt(v[i].0@, v[j].0@)
                },
                Result::Err(_) => true,
            },
    {
        self.range(tree, &ScanBound::Unbounded, &ScanBound::Unbounded)
    }

    /// The pairs whose keys fall in the given range, descending.
    pub fn range_rev(&self, tree: usize, low: &ScanBound, high: &ScanBound) -> (r: Result<
        Vec<(Vec<u8>, Vec<u8>)>,
        DbError,
    >)
        requires
            self.wf(),
            tree < self.tree_count(),
        ensures
            match r {
                Result::Ok(v) => {
                    let m = self.tree_contents(tree as int);
                    &&& forall|i: int|
                        0 <= i < v.len() ==> in_scan_range((#[trigger] v[i]).0@, low@, high@)
                            && m.dom().contains(v[i].0@) && m[v[i].0@] == v[i].1@
                    &&& forall|k: Seq<u8>|
                        #[trigger] m.dom().contains(k) && in_scan_range(k, low@, high@)
                            ==> exists|i: int| 0 <= i < v.len() && (#[trigger] v[i]).0@ == k
                    &&& forall|i: int, j: int| 0 <= i < j < v.len() ==> bytes_lt(v[j].0@, v[i].0@)
                },
                Result::Err(_) => true,
            },
    {
        let part = vstd::std_specs::vec::vec_index(&self.trees, tree);
        ks_range_rev(&self.keyspace, part, low, high)
    }

    /// Every pair of the tree, in descending key order.
    pub fn iter_rev(&self, tree: usize) -> (r: Result<Vec<(Vec<u8>, Vec<u8>)>, DbError>)
        requires
            self.wf(),
            tree < self.tree_count(),
        ensures
            match r {
                Result::Ok(v) => {
                    let m = self.tree_contents(tree as int);
                    &&& forall|i: int|
                        0 <= i < v.len() ==> m.dom().contains((#[trigger] v[i]).0@) && m[v[i].0@]
                            == v[i].1@
                    &&& forall|k: Seq<u8>|
                        #[trigger] m.dom().contains(k) ==> exists|i: int|
                            0 <= i < v.len() && (#[trigger] v[i]).0@ == k
                    &&& forall|i: int, j: int| 0 <= i < j < v.len() ==> bytes_lt(v[j].0@, v[i].0@)
                },
                Result::Err(_) => true,
            },
    {
        self.range_rev(tree, &ScanBound::Unbounded, &ScanBound::Unbounded)
    }
}

/// A character fjall accepts in a partition name: ASCII alphanumerics,
/// `_`, `-`, `.`, `#` and `$`.
pub open spec fn is_partition_char(c: char) -> bool {
    ('a' <= c && c <= 'z') || ('A' <= c && c <= 'Z') || ('0' <= c && c <= '9') || c == '_' || c
        == '-' || c == '.' || c == '#' || c == '$'
}

/// A tree-name character that the canonical mapping keeps as it is: ASCII
/// letters, digits and `-`. The underscore is not among them: it starts an
/// escape, so that the mapping loses nothing.
pub open spec fn is_plain_char(c: char) -> bool {
    ('a' <= c && c <= 'z') || ('A' <= c && c <= 'Z') || ('0' <= c && c <= '9') || c == '-'
}

/// The lowercase hex digit of a value below sixteen.
pub open spec fn hex_digit(d: int) -> char {
    if d == 0 {
        '0'
    } else if d == 1 {
        '1'
    } else if d == 2 {
        '2'
    } else if d == 3 {
        '3'
    } else if d == 4 {
        '4'
    } else if d == 5 {
        '5'
    } else if d == 6 {
        '6'
    } else if d == 7 {
        '7'
    } else if d == 8 {
        '8'
    } else if d == 9 {
        '9'
    } else if d == 10 {
        'a'
    } else if d == 11 {
        'b'
    } else if d == 12 {
        'c'
    } else if d == 13 {
        'd'
    } else if d == 14 {
        'e'
    } else {
        'f'
    }
}

/// The escape of one character: `_` and the six hex digits of its
/// codepoint, highest first.
pub open spec fn escape_char(c: char) -> Seq<char> {
    seq![
        '_',
        hex_digit((c as u32) as int / 0x100000 % 16),
        hex_digit((c as u32) as int / 0x10000 % 16),
        hex_digit((c as u32) as int / 0x1000 % 16),
        hex_digit((c as u32) as int / 0x100 % 16),
        hex_digit((c as u32) as int / 0x10 % 16),
        hex_digit((c as u32) as int % 16),
    ]
}

/// How one tree-name character reads in a partition name: plain characters
/// stand for themselves, every other one is escaped.
pub open spec fn encode_char(c: char) -> Seq<char> {
    if is_plain_char(c) {
        seq![c]
    } else {
        escape_char(c)
    }
}

/// The backend-safe form of a whole tree name. The mapping is injective:
/// see [`lemma_canonical_name_injective`].
pub open spec fn canonical_name(s: Seq<char>) -> Seq<char>
    decreases s.len(),
{
    if s.len() == 0 {
        Seq::empty()
    } else {
        encode_char(s[0]) + canonical_name(s.drop_first())
    }
}

/// A canonical name is empty only for the empty tree name.
proof fn lemma_canonical_empty(s: Seq<char>)
    requires
        canonical_name(s).len() == 0,
    ensures
        s.len() == 0,
{
    if s.len() > 0 {
        assert(encode_char(s[0]).len() >= 1);
    }
}

/// Every character of a canonical name lies in fjall's partition alphabet.
proof fn lemma_canonical_chars(s: Seq<char>)
    ensures
        forall|i: int|
            0 <= i < canonical_name(s).len() ==> is_partition_char(#[trigger] canonical_name(s)[i]),
    decreases s.len(),
{
    if s.len() > 0 {
        lemma_canonical_chars(s.drop_first());
        assert forall|d: int| 0 <= d < 16 implies is_partition_char(hex_digit(d)) by {}
        assert forall|i: int|
            0 <= i < canonical_name(s).len() implies is_partition_char(
            #[trigger] canonical_name(s)[i],
        ) by {
            if i < encode_char(s[0]).len() {
                assert(canonical_name(s)[i] == encode_char(s[0])[i]);
            } else {
                assert(canonical_name(s)[i] == canonical_name(s.drop_first())[i - encode_char(
                    s[0],
                ).len()]);
            }
        }
    }
}

/// Appending one character to a name appends its encoding to the canonical
/// form.
proof fn lemma_canonical_snoc(s: Seq<char>, c: char)
    ensures
        canonical_name(s.push(c)) == canonical_name(s) + encode_char(c),
    decreases s.len(),
{
    if s.len() == 0 {
        assert(s.push(c).drop_first() =~= Seq::<char>::empty());
        assert(canonical_name(s.push(c)) == encode_char(c) + canonical_name(
            Seq::<char>::empty(),
        ));
        assert(encode_char(c) + Seq::<char>::empty() =~= encode_char(c));
        assert(Seq::<char>::empty() + encode_char(c) =~= encode_char(c));
        assert(canonical_name(s.push(c)) =~= canonical_name(s) + encode_char(c));
    } else {
        lemma_canonical_snoc(s.drop_first(), c);
        assert(s.push(c).drop_first() =~= s.drop_first().push(c));
        assert(canonical_name(s.push(c)) =~= canonical_name(s) + encode_char(c));
    }
}

/// Distinct digit values have distinct hex digits.
proof fn lemma_hex_digit_injective(a: int, b: int)
    requires
        0 <= a < 16,
        0 <= b < 16,
        hex_digit(a) == hex_digit(b),
    ensures
        a == b,
{
}

/// A value below 16^6 is the sum of its six nibbles, weighted.
proof fn lemma_nibble_decomposition(v: int)
    requires
        0 <= v < 0x1000000,
    ensures
        v == v / 0x100000 % 16 * 0x100000 + v / 0x10000 % 16 * 0x10000 + v / 0x1000 % 16 * 0x1000
            + v / 0x100 % 16 * 0x100 + v / 0x10 % 16 * 0x10 + v % 16,
{
    vstd::arithmetic::div_mod::lemma_fundamental_div_mod(v, 16);
    vstd::arithmetic::div_mod::lemma_fundamental_div_mod(v / 0x10, 16);
    vstd::arithmetic::div_mod::lemma_fundamental_div_mod(v / 0x100, 16);
    vstd::arithmetic::div_mod::lemma_fundamental_div_mod(v / 0x1000, 16);
    vstd::arithmetic::div_mod::lemma_fundamental_div_mod(v / 0x10000, 16);
    vstd::arithmetic::div_mod::lemma_div_denominator(v, 0x10, 16);
    vstd::arithmetic::div_mod::lemma_div_denominator(v, 0x100, 16);
    vstd::arithmetic::div_mod::lemma_div_denominator(v, 0x1000, 16);
    vstd::arithmetic::div_mod::lemma_div_denominator(v, 0x10000, 16);
    assert(v / 0x100000 < 16) by {
        vstd::arithmetic::div_mod::lemma_div_is_ordered(v, 0xffffff, 0x100000);
    }
    vstd::arithmetic::div_mod::lemma_small_mod((v / 0x100000) as nat, 16);
}

/// What leads a canonical name determines how the original name begins.
proof fn lemma_canonical_head(t: Seq<char>, q: Seq<char>)
    requires
        canonical_name(t) == q,
        q.len() > 0,
    ensures
        t.len() > 0,
        is_plain_char(q[0]) ==> is_plain_char(t[0]) && t[0] == q[0],
        !is_plain_char(q[0]) ==> q[0] == '_' && !is_plain_char(t[0]) && q.len() >= 7 && q.take(7)
            == escape_char(t[0]),
{
    if t.len() == 0 {
        assert(canonical_name(t).len() == 0);
    }
    if is_plain_char(t[0]) {
        assert(q[0] == encode_char(t[0])[0]);
    } else {
        assert(q.len() >= 7);
        assert(q[0] == escape_char(t[0])[0]);
        assert(q.take(7) =~= escape_char(t[0]));
    }
}

/// Two characters with the same escape are the same character.
proof fn lemma_escape_injective(c1: char, c2: char)
    requires
        escape_char(c1) == escape_char(c2),
    ensures
        c1 == c2,
{
    let v1 = (c1 as u32) as int;
    let v2 = (c2 as u32) as int;
    vstd::utf8::char_is_scalar(c1);
    vstd::utf8::char_is_scalar(c2);
    assert forall|k: int| 0 <= k < 7 implies escape_char(c1)[k] == escape_char(c2)[k] by {}
    lemma_hex_digit_injective(v1 / 0x100000 % 16, v2 / 0x100000 % 16);
    lemma_hex_digit_injective(v1 / 0x10000 % 16, v2 / 0x10000 % 16);
    lemma_hex_digit_injective(v1 / 0x1000 % 16, v2 / 0x1000 % 16);
    lemma_hex_digit_injective(v1 / 0x100 % 16, v2 / 0x100 % 16);
    lemma_hex_digit_injective(v1 / 0x10 % 16, v2 / 0x10 % 16);
    lemma_hex_digit_injective(v1 % 16, v2 % 16);
    lemma_nibble_decomposition(v1);
    lemma_nibble_decomposition(v2);
    vstd::utf8::char_u32_cast(c1, c1 as u32);
    vstd::utf8::char_u32_cast(c2, c2 as u32);
}

/// Parsing a canonical form is deterministic: a canonical name that
/// extends another one's canonical form extends the name itself.
#[verifier::rlimit(100)]
proof fn lemma_canonical_split(t: Seq<char>, u: Seq<char>, rest: Seq<char>)
    requires
        canonical_name(t) == canonical_name(u) + rest,
    ensures
        t.len() >= u.len(),
        t.take(u.len() as int) == u,
        canonical_name(t.skip(u.len() as int)) == rest,
    decreases u.len(),
{
    if u.len() == 0 {
        assert(t.take(0) =~= u);
        assert(t.skip(0) =~= t);
        assert(canonical_name(u) + rest =~= rest);
    } else {
        let q = canonical_name(u) + rest;
        assert(q.len() > 0) by {
            assert(encode_char(u[0]).len() >= 1);
        }
        lemma_canonical_head(t, q);
        if is_plain_char(u[0]) {
            assert(q[0] == encode_char(u[0])[0]);
            assert(t[0] == u[0]);
            assert(canonical_name(t.drop_first()) =~= canonical_name(u.drop_first()) + rest) by {
                assert(canonical_name(t) == encode_char(t[0]) + canonical_name(t.drop_first()));
                assert(encode_char(t[0]) =~= seq![t[0]]);
                assert(canonical_name(u) == encode_char(u[0]) + canonical_name(u.drop_first()));
                assert(encode_char(u[0]) =~= seq![u[0]]);
                assert forall|k: int|
                    0 <= k < canonical_name(t.drop_first()).len() implies canonical_name(
                    t.drop_first(),
                )[k] == (canonical_name(u.drop_first()) + rest)[k] by {
                    assert(canonical_name(t.drop_first())[k] == canonical_name(t)[k + 1]);
                    assert((canonical_name(u.drop_first()) + rest)[k] == q[k + 1]);
                }
            }
            lemma_canonical_split(t.drop_first(), u.drop_first(), rest);
            assert(t.take(u.len() as int) =~= seq![t[0]] + t.drop_first().take(u.len() - 1));
            assert(seq![u[0]] + u.drop_first() =~= u);
            assert(t.skip(u.len() as int) =~= t.drop_first().skip(u.len() - 1));
        } else {
            assert(q[0] == escape_char(u[0])[0]);
            assert(q[0] == '_');
            assert(q.take(7) =~= escape_char(u[0]));
            assert(q.take(7) == escape_char(t[0]));
            lemma_escape_injective(t[0], u[0]);
            assert(canonical_name(t.drop_first()) =~= canonical_name(u.drop_first()) + rest) by {
                assert(canonical_name(t) =~= escape_char(t[0]) + canonical_name(t.drop_first()));
                assert(q =~= escape_char(u[0]) + (canonical_name(u.drop_first()) + rest));
                assert forall|k: int|
                    0 <= k < canonical_name(t.drop_first()).len() implies canonical_name(
                    t.drop_first(),
                )[k] == (canonical_name(u.drop_first()) + rest)[k] by {
                    assert(canonical_name(t.drop_first())[k] == canonical_name(t)[k + 7]);
                    assert((canonical_name(u.drop_first()) + rest)[k] == q[k + 7]);
                }
            }
            lemma_canonical_split(t.drop_first(), u.drop_first(), rest);
            assert(t.take(u.len() as int) =~= seq![t[0]] + t.drop_first().take(u.len() - 1));
            assert(seq![u[0]] + u.drop_first() =~= u);
            assert(t.skip(u.len() as int) =~= t.drop_first().skip(u.len() - 1));
        }
    }
}

/// The tree-name mapping loses nothing: two distinct names never share a
/// canonical form, so the original name can always be read back from the
/// partition name, and `list_trees` returns the names trees were opened
/// under.
pub proof fn lemma_canonical_name_injective(s1: Seq<char>, s2: Seq<char>)
    requires
        canonical_name(s1) == canonical_name(s2),
    ensures
        s1 == s2,
{
    assert(canonical_name(s1) == canonical_name(s2) + Seq::<char>::empty()) by {
        assert(canonical_name(s2) + Seq::<char>::empty() =~= canonical_name(s2));
    }
    lemma_canonical_split(s1, s2, Seq::empty());
    lemma_canonical_empty(s1.skip(s2.len() as int));
    assert(s1 =~= s1.take(s2.len() as int));
}

/// Whether the canonical mapping keeps this character as it is.
fn is_plain(c: char) -> (r: bool)
    ensures
        r == is_plain_char(c),
{
    ('a' <= c && c <= 'z') || ('A' <= c && c <= 'Z') || ('0' <= c && c <= '9') || c == '-'
}

/// The lowercase hex digit of a value below sixteen.
fn hex_char(d: u8) -> (r: char)
    requires
        d < 16,
    ensures
        r == hex_digit(d as int),
{
    match d {
        0 => '0',
        1 => '1',
        2 => '2',
        3 => '3',
        4 => '4',
        5 => '5',
        6 => '6',
        7 => '7',
        8 => '8',
        9 => '9',
        10 => 'a',
        11 => 'b',
        12 => 'c',
        13 => 'd',
        14 => 'e',
        _ => 'f',
    }
}

/// The value of a lowercase hex digit, if the character is one.
fn hex_val(c: char) -> (r: Option<u8>)
    ensures
        match r {
            Option::Some(d) => d < 16 && hex_digit(d as int) == c,
            Option::None => forall|d: int| 0 <= d < 16 ==> hex_digit(d) != c,
        },
{
    match c {
        '0' => Option::Some(0),
        '1' => Option::Some(1),
        '2' => Option::Some(2),
        '3' => Option::Some(3),
        '4' => Option::Some(4),
        '5' => Option::Some(5),
        '6' => Option::Some(6),
        '7' => Option::Some(7),
        '8' => Option::Some(8),
        '9' => Option::Some(9),
        'a' => Option::Some(10),
        'b' => Option::Some(11),
        'c' => Option::Some(12),
        'd' => Option::Some(13),
        'e' => Option::Some(14),
        'f' => Option::Some(15),
        _ => Option::None,
    }
}

/// Relies on std's `char::from_u32`: a character for every Unicode scalar
/// value, nothing for a surrogate or a value past the last codepoint.
#[verifier::external_body]
fn char_from_u32(v: u32) -> (r: Option<char>)
    ensures
        match r {
            Option::Some(c) => c as u32 == v,
            Option::None => !vstd::utf8::is_scalar(v),
        },
{
    char::from_u32(v)
}

/// Map a tree name to the backend-safe alphabet, reversibly.
pub fn canonicalize(name: &str) -> (r: String)
    ensures
        r@ == canonical_name(name@),
{
    let n = name.unicode_len();
    let mut r = String::new();
    let mut i: usize = 0;
    while i < n
        invariant
            i <= n,
            n == name@.len(),
            r@ == canonical_name(name@.take(i as int)),
        decreases n - i,
    {
        let c = name.get_char(i);
        if is_plain(c) {
            crate::util::text::string_push(&mut r, c);
        } else {
            let v = c as u32;
            crate::util::text::string_push(&mut r, '_');
            crate::util::text::string_push(&mut r, hex_char((v / 0x100000 % 16) as u8));
            crate::util::text::string_push(&mut r, hex_char((v / 0x10000 % 16) as u8));
            crate::util::text::string_push(&mut r, hex_char((v / 0x1000 % 16) as u8));
            crate::util::text::string_push(&mut r, hex_char((v / 0x100 % 16) as u8));
            crate::util::text::string_push(&mut r, hex_char((v / 0x10 % 16) as u8));
            crate::util::text::string_push(&mut r, hex_char((v % 16) as u8));
        }
        proof {
            assert(name@.take(i + 1 as int) =~= name@.take(i as int).push(name@[i as int]));
            lemma_canonical_snoc(name@.take(i as int), name@[i as int]);
            if is_plain_char(c) {
                assert(r@ =~= canonical_name(name@.take(i as int)) + seq![c]);
            } else {
                assert(r@ =~= canonical_name(name@.take(i as int)) + escape_char(c));
            }
        }
        i = i + 1;
    }
    proof {
        assert(name@.take(n as int) =~= name@);
    }
    r
}

/// What one decoding step learns of any name `t` whose canonical form is
/// `p`, once the first `i` characters of `p` decode to `done`.
proof fn lemma_decode_step(t: Seq<char>, done: Seq<char>, p: Seq<char>, i: int)
    requires
        canonical_name(t) == p,
        canonical_name(done) == p.take(i),
        0 <= i < p.len(),
    ensures
        ({
            let q = p.skip(i);
            let t2 = t.skip(done.len() as int);
            &&& canonical_name(t2) == q
            &&& t2.len() > 0
            &&& (is_plain_char(p[i]) ==> is_plain_char(t2[0]) && t2[0] == p[i])
            &&& (!is_plain_char(p[i]) ==> p[i] == '_' && !is_plain_char(t2[0]) && p.len() - i >= 7
                && q.take(7) == escape_char(t2[0]))
        }),
{
    let q = p.skip(i);
    assert(p =~= p.take(i) + q);
    lemma_canonical_split(t, done, q);
    lemma_canonical_head(t.skip(done.len() as int), q);
    assert(q[0] == p[i]);
}

/// Six matching hex digits pin the escaped character's codepoint.
proof fn lemma_escape_digits(
    c: char,
    q: Seq<char>,
    d5: u8,
    d4: u8,
    d3: u8,
    d2: u8,
    d1: u8,
    d0: u8,
)
    requires
        q.len() >= 7,
        q.take(7) == escape_char(c),
        d5 < 16,
        d4 < 16,
        d3 < 16,
        d2 < 16,
        d1 < 16,
        d0 < 16,
        hex_digit(d5 as int) == q[1],
        hex_digit(d4 as int) == q[2],
        hex_digit(d3 as int) == q[3],
        hex_digit(d2 as int) == q[4],
        hex_digit(d1 as int) == q[5],
        hex_digit(d0 as int) == q[6],
    ensures
        (c as u32) as int == d5 * 0x100000 + d4 * 0x10000 + d3 * 0x1000 + d2 * 0x100 + d1 * 0x10
            + d0,
{
    let w = (c as u32) as int;
    vstd::utf8::char_is_scalar(c);
    assert(q[1] == escape_char(c)[1] && q[2] == escape_char(c)[2] && q[3] == escape_char(c)[3]
        && q[4] == escape_char(c)[4] && q[5] == escape_char(c)[5] && q[6] == escape_char(c)[6])
        by {
        assert(forall|k: int| 0 <= k < 7 ==> q.take(7)[k] == q[k]);
    }
    lemma_hex_digit_injective(d5 as int, w / 0x100000 % 16);
    lemma_hex_digit_injective(d4 as int, w / 0x10000 % 16);
    lemma_hex_digit_injective(d3 as int, w / 0x1000 % 16);
    lemma_hex_digit_injective(d2 as int, w / 0x100 % 16);
    lemma_hex_digit_injective(d1 as int, w / 0x10 % 16);
    lemma_hex_digit_injective(d0 as int, w % 16);
    lemma_nibble_decomposition(w);
}

/// Undo the canonical mapping: the one tree name whose canonical form is
/// `p`, or nothing when no name has it.
pub fn decode_name(p: &str) -> (r: Option<String>)
    ensures
        match r {
            Option::Some(t) => canonical_name(t@) == p@,
            Option::None => forall|t: Seq<char>| #[trigger] canonical_name(t) != p@,
        },
{
    let n = p.unicode_len();
    let mut out = String::new();
    let mut i: usize = 0;
    proof {
        assert(canonical_name(out@) =~= p@.take(0));
    }
    while i < n
        invariant
            i <= n,
            n == p@.len(),
            canonical_name(out@) == p@.take(i as int),
        decreases n - i,
    {
        let ghost q = p@.skip(i as int);
        let c = p.get_char(i);
        proof {
            assert(q[0] == c);
        }
        if is_plain(c) {
            let ghost before = out@;
            crate::util::text::string_push(&mut out, c);
            proof {
                lemma_canonical_snoc(before, c);
                assert(encode_char(c) =~= seq![c]);
                assert(p@.take(i + 1 as int) =~= p@.take(i as int) + seq![c]);
                assert(canonical_name(out@) =~= p@.take(i + 1 as int));
            }
            i = i + 1;
        } else if c == '_' && n - i >= 7 {
            let d5 = hex_val(p.get_char(i + 1));
            let d4 = hex_val(p.get_char(i + 2));
            let d3 = hex_val(p.get_char(i + 3));
            let d2 = hex_val(p.get_char(i + 4));
            let d1 = hex_val(p.get_char(i + 5));
            let d0 = hex_val(p.get_char(i + 6));
            let (d5, d4, d3, d2, d1, d0) = match (d5, d4, d3, d2, d1, d0) {
                (
                    Option::Some(d5),
                    Option::Some(d4),
                    Option::Some(d3),
                    Option::Some(d2),
                    Option::Some(d1),
                    Option::Some(d0),
                ) => (d5, d4, d3, d2, d1, d0),
                _ => {
                    proof {
                        assert forall|t: Seq<char>| #[trigger] canonical_name(t) != p@ by {
                            if canonical_name(t) == p@ {
                                lemma_decode_step(t, out@, p@, i as int);
                                let t2 = t.skip(out@.len() as int);
                                let w = (t2[0] as u32) as int;
                                assert(q[1] == hex_digit(w / 0x100000 % 16) && q[2] == hex_digit(
                                    w / 0x10000 % 16,
                                ) && q[3] == hex_digit(w / 0x1000 % 16) && q[4] == hex_digit(
                                    w / 0x100 % 16,
                                ) && q[5] == hex_digit(w / 0x10 % 16) && q[6] == hex_digit(
                                    w % 16,
                                )) by {
                                    assert(forall|k: int| 0 <= k < 7 ==> q.take(7)[k] == q[k]);
                                }
                            }
                        }
                    }
                    return Option::None;
                },
            };
            let v: u32 = (d5 as u32) * 0x100000 + (d4 as u32) * 0x10000 + (d3 as u32) * 0x1000 + (
            d2 as u32) * 0x100 + (d1 as u32) * 0x10 + (d0 as u32);
            let decoded = char_from_u32(v);
            let dc = match decoded {
                Option::Some(dc) => dc,
                Option::None => {
                    proof {
                        assert forall|t: Seq<char>| #[trigger] canonical_name(t) != p@ by {
                            if canonical_name(t) == p@ {
                                lemma_decode_step(t, out@, p@, i as int);
                                let t2 = t.skip(out@.len() as int);
                                lemma_escape_digits(t2[0], q, d5, d4, d3, d2, d1, d0);
                                vstd::utf8::char_is_scalar(t2[0]);
                                assert(v == t2[0] as u32);
                            }
                        }
                    }
                    return Option::None;
                },
            };
            if is_plain(dc) {
                proof {
                    assert forall|t: Seq<char>| #[trigger] canonical_name(t) != p@ by {
                        if canonical_name(t) == p@ {
                            lemma_decode_step(t, out@, p@, i as int);
                            let t2 = t.skip(out@.len() as int);
                            lemma_escape_digits(t2[0], q, d5, d4, d3, d2, d1, d0);
                            assert(v == t2[0] as u32);
                            vstd::utf8::char_u32_cast(t2[0], t2[0] as u32);
                            vstd::utf8::char_u32_cast(dc, v);
                            assert(t2[0] == dc);
                        }
                    }
                }
                return Option::None;
            }
            let ghost before = out@;
            crate::util::text::string_push(&mut out, dc);
            proof {
                lemma_canonical_snoc(before, dc);
                assert(escape_char(dc) =~= q.take(7)) by {
                    let w = (dc as u32) as int;
                    assert(w / 0x100000 % 16 == d5 as int && w / 0x10000 % 16 == d4 as int && w
                        / 0x1000 % 16 == d3 as int && w / 0x100 % 16 == d2 as int && w / 0x10 % 16
                        == d1 as int && w % 16 == d0 as int) by {
                        lemma_nibble_values(
                            d5 as int,
                            d4 as int,
                            d3 as int,
                            d2 as int,
                            d1 as int,
                            d0 as int,
                        );
                    }
                    assert(q[1] == hex_digit(d5 as int) && q[2] == hex_digit(d4 as int) && q[3]
                        == hex_digit(d3 as int) && q[4] == hex_digit(d2 as int) && q[5]
                        == hex_digit(d1 as int) && q[6] == hex_digit(d0 as int));
                    assert(escape_char(dc) =~= seq![
                        '_',
                        hex_digit(d5 as int),
                        hex_digit(d4 as int),
                        hex_digit(d3 as int),
                        hex_digit(d2 as int),
                        hex_digit(d1 as int),
                        hex_digit(d0 as int),
                    ]);
                    assert(q.take(7) =~= seq![q[0], q[1], q[2], q[3], q[4], q[5], q[6]]);
                }
                assert(p@.take(i + 7 as int) =~= p@.take(i as int) + q.take(7));
                assert(canonical_name(out@) =~= p@.take(i + 7 as int));
            }
            i = i + 7;
        } else {
            proof {
                assert forall|t: Seq<char>| #[trigger] canonical_name(t) != p@ by {
                    if canonical_name(t) == p@ {
                        lemma_decode_step(t, out@, p@, i as int);
                    }
                }
            }
            return Option::None;
        }
    }
    proof {
        assert(p@.take(n as int) =~= p@);
    }
    Option::Some(out)
}
/// The six nibbles of the weighted sum of six digit values are the digits.
proof fn lemma_nibble_values(d5: int, d4: int, d3: int, d2: int, d1: int, d0: int)
    requires
        0 <= d5 < 16,
        0 <= d4 < 16,
        0 <= d3 < 16,
        0 <= d2 < 16,
        0 <= d1 < 16,
        0 <= d0 < 16,
    ensures
        ({
            let v = d5 * 0x100000 + d4 * 0x10000 + d3 * 0x1000 + d2 * 0x100 + d1 * 0x10 + d0;
            &&& v / 0x100000 % 16 == d5
            &&& v / 0x10000 % 16 == d4
            &&& v / 0x1000 % 16 == d3
            &&& v / 0x100 % 16 == d2
            &&& v / 0x10 % 16 == d1
            &&& v % 16 == d0
            &&& 0 <= v < 0x1000000
        }),
{
    let v = d5 * 0x100000 + d4 * 0x10000 + d3 * 0x1000 + d2 * 0x100 + d1 * 0x10 + d0;
    assert(v / 0x10 == d5 * 0x10000 + d4 * 0x1000 + d3 * 0x100 + d2 * 0x10 + d1 && v % 16 == d0)
        by {
        vstd::arithmetic::div_mod::lemma_fundamental_div_mod_converse(
            v,
            16,
            d5 * 0x10000 + d4 * 0x1000 + d3 * 0x100 + d2 * 0x10 + d1,
            d0,
        );
    }
    assert(v / 0x100 == d5 * 0x1000 + d4 * 0x100 + d3 * 0x10 + d2 && v / 0x10 % 16 == d1) by {
        vstd::arithmetic::div_mod::lemma_fundamental_div_mod_converse(
            v / 0x10,
            16,
            d5 * 0x1000 + d4 * 0x100 + d3 * 0x10 + d2,
            d1,
        );
        vstd::arithmetic::div_mod::lemma_div_denominator(v, 0x10, 16);
    }
    assert(v / 0x1000 == d5 * 0x100 + d4 * 0x10 + d3 && v / 0x100 % 16 == d2) by {
        vstd::arithmetic::div_mod::lemma_fundamental_div_mod_converse(
            v / 0x100,
            16,
            d5 * 0x100 + d4 * 0x10 + d3,
            d2,
        );
        vstd::arithmetic::div_mod::lemma_div_denominator(v, 0x100, 16);
    }
    assert(v / 0x10000 == d5 * 0x10 + d4 && v / 0x1000 % 16 == d3) by {
        vstd::arithmetic::div_mod::lemma_fundamental_div_mod_converse(
            v / 0x1000,
            16,
            d5 * 0x10 + d4,
            d3,
        );
        vstd::arithmetic::div_mod::lemma_div_denominator(v, 0x1000, 16);
    }
    assert(v / 0x100000 == d5 && v / 0x10000 % 16 == d4) by {
        vstd::arithmetic::div_mod::lemma_fundamental_div_mod_converse(v / 0x10000, 16, d5, d4);
        vstd::arithmetic::div_mod::lemma_div_denominator(v, 0x10000, 16);
    }
    vstd::arithmetic::div_mod::lemma_small_mod(d5 as nat, 16);
}

} // verus!
