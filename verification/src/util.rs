//! Shared helpers: error types and small text utilities.

pub mod error;
pub mod text;
