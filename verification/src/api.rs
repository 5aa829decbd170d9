//! Helpers shared by the HTTP front-ends: encodings and error taxonomies.

pub mod checksum;
pub mod common_error;
pub mod encoding;
pub mod k2v_error;
pub mod s3_error;
pub mod signature_error;
