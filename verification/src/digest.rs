//! Named digests of byte strings, computed by outside crates.
//!
//! Each digest is a pure function of its input; the spec names the function
//! and records only what the crates document: the output length.

use vstd::prelude::*;

use sha2::Digest;

verus! {

pub uninterp spec fn sha256_of(data: Seq<u8>) -> Seq<u8>;

pub uninterp spec fn sha1_of(data: Seq<u8>) -> Seq<u8>;

pub uninterp spec fn md5_of(data: Seq<u8>) -> Seq<u8>;

pub uninterp spec fn crc32_of(data: Seq<u8>) -> u32;

pub uninterp spec fn crc32c_of(data: Seq<u8>) -> u32;

/// Relies on sha2's `Sha256::digest`: a 32-byte digest, a function of the
/// input bytes alone.
#[verifier::external_body]
pub fn sha256(data: &[u8]) -> (r: Vec<u8>)
    ensures
        r@ == sha256_of(data@),
        r@.len() == 32,
{
    sha2::Sha256::digest(data).as_slice().to_vec()
}

/// Relies on sha1's `Sha1::digest`: a 20-byte digest, a function of the
/// input bytes alone.
#[verifier::external_body]
pub fn sha1(data: &[u8]) -> (r: Vec<u8>)
    ensures
        r@ == sha1_of(data@),
        r@.len() == 20,
{
    sha1::Sha1::digest(data).as_slice().to_vec()
}

/// Relies on md-5's `Md5::digest`: a 16-byte digest, a function of the
/// input bytes alone.
#[verifier::external_body]
pub fn md5(data: &[u8]) -> (r: Vec<u8>)
    ensures
        r@ == md5_of(data@),
        r@.len() == 16,
{
    md5::Md5::digest(data).as_slice().to_vec()
}

/// Relies on crc32fast's `hash`: the IEEE CRC32 checksum, a function of the
/// input bytes alone.
#[verifier::external_body]
pub fn crc32(data: &[u8]) -> (r: u32)
    ensures
        r == crc32_of(data@),
{
    crc32fast::hash(data)
}

/// Relies on crc32c's `crc32c`: the Castagnoli CRC32 checksum, a function
/// of the input bytes alone.
#[verifier::external_body]
pub fn crc32c(data: &[u8]) -> (r: u32)
    ensures
        r == crc32c_of(data@),
{
    crc32c::crc32c(data)
}

} // verus!
