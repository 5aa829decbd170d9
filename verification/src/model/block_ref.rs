//! The link between a stored block and the object version that uses it.
//!
//! One row per `(block, version)` pair; its only mutable content is the
//! `deleted` flag, which moves from `false` to `true` once and never back,
//! so the merge is simply a logical or.

use vstd::prelude::*;

use crate::model::object::VersionUuid;

verus! {

/// One reference to a block by an object version.
#[derive(Debug)]
pub struct BlockRef {
    /// The referenced block.
    pub block: crate::data::Hash,
    /// The version that uses it.
    pub version: VersionUuid,
    /// True once the version was deleted: the reference no longer counts.
    pub deleted: bool,
}

impl BlockRef {
    /// The CRDT merge of two copies of one row: deletion is sticky.
    pub fn merged(&self, other: &BlockRef) -> (r: BlockRef)
        requires
            self.block@ == other.block@,
            self.version == other.version,
        ensures
            r.block@ == self.block@,
            r.version == self.version,
            r.deleted == (self.deleted || other.deleted),
    {
        BlockRef {
            block: self.block.duplicate(),
            version: self.version,
            deleted: self.deleted || other.deleted,
        }
    }
}

/// Merging the `deleted` flags is commutative.
pub proof fn lemma_block_ref_merge_commutative(a: bool, b: bool)
    ensures
        (a || b) == (b || a),
{
}

/// Merging the `deleted` flags is associative.
pub proof fn lemma_block_ref_merge_associative(a: bool, b: bool, c: bool)
    ensures
        ((a || b) || c) == (a || (b || c)),
{
}

/// Merging a `deleted` flag with itself changes nothing.
pub proof fn lemma_block_ref_merge_idempotent(a: bool)
    ensures
        (a || a) == a,
{
}

} // verus!
