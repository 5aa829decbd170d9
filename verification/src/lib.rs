//! Core of a distributed, geo-aware object store: cluster layout and
//! replication policies, CRDT-merged metadata tables, a content-addressed
//! block store, encoding helpers for the S3-compatible front-end, and a
//! transactional key-value layer over an LSM engine.

pub mod api;
pub mod api_server;
pub mod block;
pub mod bootstrap;
pub mod data;
pub mod db;
pub mod digest;
pub mod encoding;
pub mod layout;
pub mod model;
pub mod net;
pub mod rpc;
pub mod table;
pub mod util;
