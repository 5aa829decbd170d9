//! The metadata tables' record types and their CRDT merges.

pub mod block_ref;
pub mod bucket;
pub mod error;
pub mod key;
pub mod object;
pub mod version;
