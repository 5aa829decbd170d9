//! The node-to-node transport's error model.

pub mod error;
