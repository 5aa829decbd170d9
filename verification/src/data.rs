//! Fixed-size identifiers: content hashes and UUIDs are 32-byte values;
//! the leading byte of a hash names its partition.

use vstd::prelude::*;

use crate::util::text::bytes_eq;

verus! {

/// A 32-byte value: a content hash or a UUID.
#[derive(Debug)]
pub struct FixedBytes32 {
    bytes: Vec<u8>,
}

/// A content hash.
pub type Hash = FixedBytes32;

/// A node or object-version identifier.
pub type Uuid = FixedBytes32;

/// A partition: one of the 256 buckets the leading hash byte selects.
pub type Partition = u16;

impl View for FixedBytes32 {
    type V = Seq<u8>;

    closed spec fn view(&self) -> Seq<u8> {
        self.bytes@
    }
}

impl FixedBytes32 {
    /// The value is exactly 32 bytes long.
    pub open spec fn wf(&self) -> bool {
        self@.len() == 32
    }

    /// Wrap 32 bytes.
    pub fn from_bytes(bytes: Vec<u8>) -> (r: FixedBytes32)
        requires
            bytes@.len() == 32,
        ensures
            r@ == bytes@,
            r.wf(),
    {
        FixedBytes32 { bytes }
    }

    /// The value whose 32 bytes all equal `b`.
    pub fn repeat(b: u8) -> (r: FixedBytes32)
        ensures
            r@ == Seq::new(32, |i: int| b),
            r.wf(),
    {
        let mut bytes: Vec<u8> = Vec::new();
        let mut i: usize = 0;
        while i < 32
            invariant
                i <= 32,
                bytes@ =~= Seq::new(i as nat, |j: int| b),
            decreases 32 - i,
        {
            bytes.push(b);
            proof {
                assert(bytes@ =~= Seq::new((i + 1) as nat, |j: int| b));
            }
            i = i + 1;
        }
        FixedBytes32 { bytes }
    }

    /// Borrow the raw bytes.
    pub fn as_slice(&self) -> (r: &[u8])
        ensures
            r@ == self@,
    {
        self.bytes.as_slice()
    }

    /// A copy of the same 32 bytes.
    pub fn duplicate(&self) -> (r: FixedBytes32)
        ensures
            r@ == self@,
    {
        let mut bytes: Vec<u8> = Vec::new();
        let mut i: usize = 0;
        while i < self.bytes.len()
            invariant
                i <= self.bytes@.len(),
                bytes@ =~= self.bytes@.take(i as int),
            decreases self.bytes@.len() - i,
        {
            bytes.push(self.bytes[i]);
            proof {
                assert(bytes@ =~= self.bytes@.take(i + 1 as int));
            }
            i = i + 1;
        }
        proof {
            assert(self.bytes@.take(self.bytes@.len() as int) =~= self.bytes@);
        }
        FixedBytes32 { bytes }
    }

    /// Byte-for-byte equality.
    pub fn same(&self, other: &FixedBytes32) -> (r: bool)
        ensures
            r == (self@ == other@),
    {
        bytes_eq(self.bytes.as_slice(), other.bytes.as_slice())
    }

    /// The partition this hash falls in: the leading eight bits, i.e. the
    /// first byte.
    pub open spec fn spec_partition(&self) -> Partition
        recommends
            self.wf(),
    {
        self@[0] as u16
    }

    /// The smallest hash of a partition: its number as the first byte,
    /// zeroes after it.
    pub fn first_of_partition(p: Partition) -> (r: Hash)
        requires
            p < 256,
        ensures
            r.wf(),
            r.spec_partition() == p,
            r@ == Seq::new(32, |i: int| if i == 0 { p as u8 } else { 0u8 }),
    {
        let mut bytes: Vec<u8> = Vec::new();
        bytes.push(p as u8);
        let mut i: usize = 1;
        while i < 32
            invariant
                1 <= i <= 32,
                bytes@ =~= Seq::new(i as nat, |j: int| if j == 0 { p as u8 } else { 0u8 }),
            decreases 32 - i,
        {
            bytes.push(0);
            proof {
                assert(bytes@ =~= Seq::new((i + 1) as nat, |j: int| if j == 0 { p as u8 } else { 0u8 }));
            }
            i = i + 1;
        }
        FixedBytes32 { bytes }
    }

    /// The partition this hash falls in.
    pub fn partition(&self) -> (r: Partition)
        requires
            self.wf(),
        ensures
            r == self.spec_partition(),
            r < 256,
    {
        self.bytes[0] as u16
    }
}

/// The content hash of a block of bytes: its SHA-256 digest.
pub fn hash(data: &[u8]) -> (r: Hash)
    ensures
        r.wf(),
        r@ == crate::digest::sha256_of(data@),
{
    let bytes = crate::digest::sha256(data);
    FixedBytes32::from_bytes(bytes)
}

} // verus!
