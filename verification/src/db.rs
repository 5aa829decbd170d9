//! The transactional ordered key-value backend and its engine selection.

pub mod fjall_adapter;
pub mod open;
