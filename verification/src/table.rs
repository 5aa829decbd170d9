//! Replicated tables: how records are placed on nodes and kept consistent.

pub mod fullcopy;
pub mod sharded;
