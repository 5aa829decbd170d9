//! Payload checksums of the S3 API.
//!
//! A request may announce an MD5 digest, a SHA-256 digest, and one extra
//! checksum of the client's choice. The checksummer collects the payload
//! bytes and, at the end, computes exactly the digests that were asked for;
//! verification then compares them with what was announced.

use vstd::prelude::*;

use base64::Engine;

use crate::api::signature_error::SignatureError;
use crate::digest::{crc32_of, crc32c_of, md5_of, sha1_of, sha256_of};
use crate::util::text::{bytes_eq, str_eq, trim_quotes, trim_quotes_spec};

verus! {

pub uninterp spec fn base64_std_of(data: Seq<u8>) -> Seq<char>;

/// Relies on base64's `STANDARD` engine: the padded base64 alphabet, a
/// function of the input bytes alone; four output characters for every
/// three input bytes begun.
#[verifier::external_body]
fn base64_encode(data: &[u8]) -> (r: String)
    ensures
        r@ == base64_std_of(data@),
        r@.len() == 4 * ((data@.len() + 2) / 3),
{
    base64::prelude::BASE64_STANDARD.encode(data)
}

/// The checksum algorithms a client may ask for besides MD5 and SHA-256.
#[derive(Clone, Copy, Debug, PartialEq, Eq, Structural)]
pub enum ChecksumAlgorithm {
    Crc32,
    Crc32c,
    Sha1,
    Sha256,
}

/// One computed or announced checksum.
#[derive(Debug)]
pub enum ChecksumValue {
    /// An IEEE CRC32 checksum.
    Crc32(u32),
    /// A Castagnoli CRC32 checksum.
    Crc32c(u32),
    /// A SHA-1 digest, 20 bytes.
    Sha1(Vec<u8>),
    /// A SHA-256 digest, 32 bytes.
    Sha256(Vec<u8>),
}

/// Mathematical image of a [`ChecksumValue`].
#[verifier::ext_equal]
pub ghost enum ChecksumValueV {
    Crc32(u32),
    Crc32c(u32),
    Sha1(Seq<u8>),
    Sha256(Seq<u8>),
}

impl View for ChecksumValue {
    type V = ChecksumValueV;

    open spec fn view(&self) -> ChecksumValueV {
        match self {
            ChecksumValue::Crc32(v) => ChecksumValueV::Crc32(*v),
            ChecksumValue::Crc32c(v) => ChecksumValueV::Crc32c(*v),
            ChecksumValue::Sha1(v) => ChecksumValueV::Sha1(v@),
            ChecksumValue::Sha256(v) => ChecksumValueV::Sha256(v@),
        }
    }
}

impl ChecksumValue {
    /// The algorithm the value was computed with.
    pub fn algorithm(&self) -> (r: ChecksumAlgorithm)
        ensures
            match self@ {
                ChecksumValueV::Crc32(_) => r == ChecksumAlgorithm::Crc32,
                ChecksumValueV::Crc32c(_) => r == ChecksumAlgorithm::Crc32c,
                ChecksumValueV::Sha1(_) => r == ChecksumAlgorithm::Sha1,
                ChecksumValueV::Sha256(_) => r == ChecksumAlgorithm::Sha256,
            },
    {
        match self {
            ChecksumValue::Crc32(_) => ChecksumAlgorithm::Crc32,
            ChecksumValue::Crc32c(_) => ChecksumAlgorithm::Crc32c,
            ChecksumValue::Sha1(_) => ChecksumAlgorithm::Sha1,
            ChecksumValue::Sha256(_) => ChecksumAlgorithm::Sha256,
        }
    }

    /// Structural equality of two checksum values.
    pub fn same(&self, other: &ChecksumValue) -> (r: bool)
        ensures
            r == (self@ == other@),
    {
        match (self, other) {
            (ChecksumValue::Crc32(a), ChecksumValue::Crc32(b)) => a == b,
            (ChecksumValue::Crc32c(a), ChecksumValue::Crc32c(b)) => a == b,
            (ChecksumValue::Sha1(a), ChecksumValue::Sha1(b)) => {
                let r = bytes_eq(a.as_slice(), b.as_slice());
                proof {
                    assert(self@ == other@ <==> a@ == b@);
                }
                r
            },
            (ChecksumValue::Sha256(a), ChecksumValue::Sha256(b)) => {
                let r = bytes_eq(a.as_slice(), b.as_slice());
                proof {
                    assert(self@ == other@ <==> a@ == b@);
                }
                r
            },
            _ => false,
        }
    }
}

/// The checksums a request announced for its payload.
#[derive(Debug)]
pub struct ExpectedChecksums {
    /// The Content-MD5 header: a base64-encoded MD5 digest, possibly
    /// wrapped in double quotes.
    pub md5: Option<String>,
    /// The announced SHA-256 digest of the payload.
    pub sha256: Option<Vec<u8>>,
    /// The extra checksum from an `x-amz-checksum-*` header.
    pub extra: Option<ChecksumValue>,
}

impl ExpectedChecksums {
    /// Whether the extra checksum, if any, uses the given algorithm.
    pub open spec fn extra_is(&self, algo: ChecksumAlgorithm) -> bool {
        match self.extra {
            Option::Some(v) => match v@ {
                ChecksumValueV::Crc32(_) => algo == ChecksumAlgorithm::Crc32,
                ChecksumValueV::Crc32c(_) => algo == ChecksumAlgorithm::Crc32c,
                ChecksumValueV::Sha1(_) => algo == ChecksumAlgorithm::Sha1,
                ChecksumValueV::Sha256(_) => algo == ChecksumAlgorithm::Sha256,
            },
            Option::None => false,
        }
    }
}

/// Collects payload bytes and remembers which digests are wanted.
#[derive(Debug)]
pub struct Checksummer {
    /// The payload seen so far.
    pub data: Vec<u8>,
    /// Compute the IEEE CRC32.
    pub want_crc32: bool,
    /// Compute the Castagnoli CRC32.
    pub want_crc32c: bool,
    /// Compute the MD5 digest.
    pub want_md5: bool,
    /// Compute the SHA-1 digest.
    pub want_sha1: bool,
    /// Compute the SHA-256 digest.
    pub want_sha256: bool,
}

/// The digests of a payload, for the algorithms that were wanted.
#[derive(Debug)]
pub struct Checksums {
    /// The IEEE CRC32, if it was computed.
    pub crc32: Option<u32>,
    /// The Castagnoli CRC32, if it was computed.
    pub crc32c: Option<u32>,
    /// The MD5 digest, if it was computed.
    pub md5: Option<Vec<u8>>,
    /// The SHA-1 digest, if it was computed.
    pub sha1: Option<Vec<u8>>,
    /// The SHA-256 digest, if it was computed.
    pub sha256: Option<Vec<u8>>,
}

impl Checksummer {
    /// Start collecting, computing exactly what the announced checksums
    /// will need: MD5 when announced or required, SHA-256 when announced
    /// either way, and the algorithm of the extra checksum.
    pub fn init(expected: &ExpectedChecksums, require_md5: bool) -> (r: Checksummer)
        ensures
            r.data@ == Seq::<u8>::empty(),
            r.want_md5 == (expected.md5 is Some || require_md5),
            r.want_sha256 == (expected.sha256 is Some || expected.extra_is(
                ChecksumAlgorithm::Sha256,
            )),
            r.want_crc32 == expected.extra_is(ChecksumAlgorithm::Crc32),
            r.want_crc32c == expected.extra_is(ChecksumAlgorithm::Crc32c),
            r.want_sha1 == expected.extra_is(ChecksumAlgorithm::Sha1),
    {
        let extra_algo: Option<ChecksumAlgorithm> = match &expected.extra {
            Option::Some(v) => Option::Some(v.algorithm()),
            Option::None => Option::None,
        };
        Checksummer {
            data: Vec::new(),
            want_crc32: matches!(extra_algo, Option::Some(ChecksumAlgorithm::Crc32)),
            want_crc32c: matches!(extra_algo, Option::Some(ChecksumAlgorithm::Crc32c)),
            want_md5: expected.md5.is_some() || require_md5,
            want_sha1: matches!(extra_algo, Option::Some(ChecksumAlgorithm::Sha1)),
            want_sha256: expected.sha256.is_some() || matches!(
                extra_algo,
                Option::Some(ChecksumAlgorithm::Sha256),
            ),
        }
    }

    /// Also compute the digest for `algo`.
    pub fn add(self, algo: Option<ChecksumAlgorithm>) -> (r: Checksummer)
        ensures
            r.data@ == self.data@,
            r.want_crc32 == (self.want_crc32 || algo == Option::Some(ChecksumAlgorithm::Crc32)),
            r.want_crc32c == (self.want_crc32c || algo == Option::Some(
                ChecksumAlgorithm::Crc32c,
            )),
            r.want_sha1 == (self.want_sha1 || algo == Option::Some(ChecksumAlgorithm::Sha1)),
            r.want_sha256 == (self.want_sha256 || algo == Option::Some(
                ChecksumAlgorithm::Sha256,
            )),
            r.want_md5 == self.want_md5,
    {
        let mut r = self;
        match algo {
            Option::Some(ChecksumAlgorithm::Crc32) => {
                r.want_crc32 = true;
            },
            Option::Some(ChecksumAlgorithm::Crc32c) => {
                r.want_crc32c = true;
            },
            Option::Some(ChecksumAlgorithm::Sha1) => {
                r.want_sha1 = true;
            },
            Option::Some(ChecksumAlgorithm::Sha256) => {
                r.want_sha256 = true;
            },
            Option::None => {},
        }
        r
    }

    /// Feed more payload bytes.
    pub fn update(&mut self, bytes: &[u8])
        ensures
            final (self).data@ == old(self).data@ + bytes@,
            final (self).want_crc32 == old(self).want_crc32,
            final (self).want_crc32c == old(self).want_crc32c,
            final (self).want_md5 == old(self).want_md5,
            final (self).want_sha1 == old(self).want_sha1,
            final (self).want_sha256 == old(self).want_sha256,
    {
        let mut i: usize = 0;
        let n = bytes.len();
        while i < n
            invariant
                i <= n,
                n == bytes@.len(),
                self.data@ =~= old(self).data@ + bytes@.take(i as int),
                self.want_crc32 == old(self).want_crc32,
                self.want_crc32c == old(self).want_crc32c,
                self.want_md5 == old(self).want_md5,
                self.want_sha1 == old(self).want_sha1,
                self.want_sha256 == old(self).want_sha256,
            decreases n - i,
        {
            self.data.push(bytes[i]);
            proof {
                assert(self.data@ =~= old(self).data@ + bytes@.take(i + 1 as int));
            }
            i = i + 1;
        }
        proof {
            assert(bytes@.take(n as int) =~= bytes@);
        }
    }

    /// Compute the wanted digests of everything fed so far.
    pub fn finalize(self) -> (r: Checksums)
        ensures
            r.crc32 == if self.want_crc32 {
                Option::Some(crc32_of(self.data@))
            } else {
                Option::<u32>::None
            },
            r.crc32c == if self.want_crc32c {
                Option::Some(crc32c_of(self.data@))
            } else {
                Option::<u32>::None
            },
            r.md5 matches Option::Some(d) ==> d@ == md5_of(self.data@),
            r.md5 is Some <==> self.want_md5,
            r.sha1 matches Option::Some(d) ==> d@ == sha1_of(self.data@),
            r.sha1 is Some <==> self.want_sha1,
            r.sha256 matches Option::Some(d) ==> d@ == sha256_of(self.data@),
            r.sha256 is Some <==> self.want_sha256,
    {
        let crc32 = if self.want_crc32 {
            Option::Some(crate::digest::crc32(self.data.as_slice()))
        } else {
            Option::None
        };
        let crc32c = if self.want_crc32c {
            Option::Some(crate::digest::crc32c(self.data.as_slice()))
        } else {
            Option::None
        };
        let md5 = if self.want_md5 {
            Option::Some(crate::digest::md5(self.data.as_slice()))
        } else {
            Option::None
        };
        let sha1 = if self.want_sha1 {
            Option::Some(crate::digest::sha1(self.data.as_slice()))
        } else {
            Option::None
        };
        let sha256 = if self.want_sha256 {
            Option::Some(crate::digest::sha256(self.data.as_slice()))
        } else {
            Option::None
        };
        Checksums { crc32, crc32c, md5, sha1, sha256 }
    }
}

impl Checksums {
    /// Whether every announced checksum matches a computed one: the MD5
    /// digest in base64 must equal the announced header shorn of quotes,
    /// the SHA-256 digest must equal the announced bytes, and the extra
    /// checksum must equal the computed value of its algorithm.
    pub open spec fn matches_expected(&self, expected: ExpectedChecksums) -> bool {
        &&& match expected.md5 {
            Option::Some(em) => match self.md5 {
                Option::Some(m) => base64_std_of(m@) == trim_quotes_spec(em@),
                Option::None => false,
            },
            Option::None => true,
        }
        &&& match expected.sha256 {
            Option::Some(eh) => match self.sha256 {
                Option::Some(s) => s@ == eh@,
                Option::None => false,
            },
            Option::None => true,
        }
        &&& match expected.extra {
            Option::Some(ev) => match (ev@, self.crc32, self.crc32c, self.sha1, self.sha256) {
                (ChecksumValueV::Crc32(v), Option::Some(c), _, _, _) => v == c,
                (ChecksumValueV::Crc32c(v), _, Option::Some(c), _, _) => v == c,
                (ChecksumValueV::Sha1(v), _, _, Option::Some(c), _) => v == c@,
                (ChecksumValueV::Sha256(v), _, _, _, Option::Some(c)) => v == c@,
                _ => false,
            },
            Option::None => true,
        }
    }

    /// Check every announced checksum against the computed ones.
    pub fn verify(&self, expected: &ExpectedChecksums) -> (r: Result<(), SignatureError>)
        ensures
            r is Ok <==> self.matches_expected(*expected),
            r is Err ==> match r {
                Result::Err(e) => e is InvalidDigest,
                _ => true,
            },
    {
        match &expected.md5 {
            Option::Some(em) => {
                let ok = match &self.md5 {
                    Option::Some(m) => {
                        let encoded = base64_encode(m.as_slice());
                        let trimmed = trim_quotes(em.as_str());
                        str_eq(encoded.as_str(), trimmed.as_str())
                    },
                    Option::None => false,
                };
                if !ok {
                    return Result::Err(
                        SignatureError::InvalidDigest(
                            "MD5 checksum verification failed (from content-md5)".to_owned(),
                        ),
                    );
                }
            },
            Option::None => {},
        }
        match &expected.sha256 {
            Option::Some(eh) => {
                let ok = match &self.sha256 {
                    Option::Some(s) => bytes_eq(s.as_slice(), eh.as_slice()),
                    Option::None => false,
                };
                if !ok {
                    return Result::Err(
                        SignatureError::InvalidDigest(
                            "SHA256 checksum verification failed (from x-amz-content-sha256)".to_owned(),
                        ),
                    );
                }
            },
            Option::None => {},
        }
        match &expected.extra {
            Option::Some(ev) => {
                let ok = match (ev, &self.crc32, &self.crc32c, &self.sha1, &self.sha256) {
                    (ChecksumValue::Crc32(v), Option::Some(c), _, _, _) => *v == *c,
                    (ChecksumValue::Crc32c(v), _, Option::Some(c), _, _) => *v == *c,
                    (ChecksumValue::Sha1(v), _, _, Option::Some(c), _) => bytes_eq(
                        v.as_slice(),
                        c.as_slice(),
                    ),
                    (ChecksumValue::Sha256(v), _, _, _, Option::Some(c)) => bytes_eq(
                        v.as_slice(),
                        c.as_slice(),
                    ),
                    _ => false,
                };
                if !ok {
                    return Result::Err(
                        SignatureError::InvalidDigest(
                            "Failed to validate checksum".to_owned(),
                        ),
                    );
                }
            },
            Option::None => {},
        }
        Result::Ok(())
    }

    /// The computed value for the requested algorithm.
    pub fn extract(&self, algo: Option<ChecksumAlgorithm>) -> (r: Option<ChecksumValue>)
        requires
            algo == Option::Some(ChecksumAlgorithm::Crc32) ==> self.crc32 is Some,
            algo == Option::Some(ChecksumAlgorithm::Crc32c) ==> self.crc32c is Some,
            algo == Option::Some(ChecksumAlgorithm::Sha1) ==> self.sha1 is Some,
            algo == Option::Some(ChecksumAlgorithm::Sha256) ==> self.sha256 is Some,
        ensures
            match algo {
                Option::None => r is None,
                Option::Some(a) => match r {
                    Option::Some(v) => match v@ {
                        ChecksumValueV::Crc32(c) => a == ChecksumAlgorithm::Crc32 && self.crc32
                            == Option::Some(c),
                        ChecksumValueV::Crc32c(c) => a == ChecksumAlgorithm::Crc32c && self.crc32c
                            == Option::Some(c),
                        ChecksumValueV::Sha1(c) => a == ChecksumAlgorithm::Sha1 && (
                        match self.sha1 {
                            Option::Some(d) => d@ == c,
                            Option::None => false,
                        }),
                        ChecksumValueV::Sha256(c) => a == ChecksumAlgorithm::Sha256 && (
                        match self.sha256 {
                            Option::Some(d) => d@ == c,
                            Option::None => false,
                        }),
                    },
                    Option::None => false,
                },
            },
    {
        match algo {
            Option::None => Option::None,
            Option::Some(ChecksumAlgorithm::Crc32) => {
                let c = match &self.crc32 {
                    Option::Some(c) => *c,
                    Option::None => vstd::pervasive::unreached(),
                };
                Option::Some(ChecksumValue::Crc32(c))
            },
            Option::Some(ChecksumAlgorithm::Crc32c) => {
                let c = match &self.crc32c {
                    Option::Some(c) => *c,
                    Option::None => vstd::pervasive::unreached(),
                };
                Option::Some(ChecksumValue::Crc32c(c))
            },
            Option::Some(ChecksumAlgorithm::Sha1) => {
                let c = match &self.sha1 {
                    Option::Some(c) => copy_bytes(c),
                    Option::None => vstd::pervasive::unreached(),
                };
                Option::Some(ChecksumValue::Sha1(c))
            },
            Option::Some(ChecksumAlgorithm::Sha256) => {
                let c = match &self.sha256 {
                    Option::Some(c) => copy_bytes(c),
                    Option::None => vstd::pervasive::unreached(),
                };
                Option::Some(ChecksumValue::Sha256(c))
            },
        }
    }
}

/// A byte-for-byte copy.
fn copy_bytes(v: &Vec<u8>) -> (r: Vec<u8>)
    ensures
        r@ == v@,
{
    let mut r: Vec<u8> = Vec::new();
    let mut i: usize = 0;
    while i < v.len()
        invariant
            i <= v@.len(),
            r@ =~= v@.take(i as int),
        decreases v@.len() - i,
    {
        r.push(v[i]);
        proof {
            assert(r@ =~= v@.take(i + 1 as int));
        }
        i = i + 1;
    }
    proof {
        assert(v@.take(v@.len() as int) =~= v@);
    }
    r
}

} // verus!
