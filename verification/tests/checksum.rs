use garage::api::checksum::{
    ChecksumAlgorithm, ChecksumValue, Checksummer, ExpectedChecksums,
};
use garage::api::signature_error::SignatureError;

fn hex_to_bytes(hex: &str) -> Vec<u8> {
    let digits: Vec<u32> = hex.chars().map(|c| c.to_digit(16).unwrap()).collect();
    digits.chunks(2).map(|p| (p[0] * 16 + p[1]) as u8).collect()
}

const HELLO_MD5: &str = "5d41402abc4b2a76b9719d911017c592";
const HELLO_SHA1: &str = "aaf4c61ddcc5e8a2dabede0f3b482cd9aea9434d";
const HELLO_SHA256: &str = "2cf24dba5fb0a30e26e83b2ac5b9e29e1b161e5c1fa7425e73043362938b9824";

#[test]
fn wanted_digests_are_computed() {
    let expected = ExpectedChecksums {
        md5: Some("XUFAKrxLKna5cZ2REBfFkg==".to_string()),
        sha256: Some(hex_to_bytes(HELLO_SHA256)),
        extra: Some(ChecksumValue::Crc32(0)),
    };
    let mut summer = Checksummer::init(&expected, false);
    summer.update(b"hel");
    summer.update(b"lo");
    let sums = summer.finalize();
    assert_eq!(sums.md5, Some(hex_to_bytes(HELLO_MD5)));
    assert_eq!(sums.sha256, Some(hex_to_bytes(HELLO_SHA256)));
    assert_eq!(sums.crc32, Some(0x3610a686));
    assert_eq!(sums.crc32c, None);
    assert_eq!(sums.sha1, None);
}

#[test]
fn verification_accepts_matching_and_quoted_md5() {
    let expected = ExpectedChecksums {
        md5: Some("\"XUFAKrxLKna5cZ2REBfFkg==\"".to_string()),
        sha256: Some(hex_to_bytes(HELLO_SHA256)),
        extra: None,
    };
    let mut summer = Checksummer::init(&expected, false);
    summer.update(b"hello");
    let sums = summer.finalize();
    assert!(sums.verify(&expected).is_ok());
}

#[test]
fn verification_rejects_a_wrong_digest() {
    let expected = ExpectedChecksums {
        md5: None,
        sha256: Some(hex_to_bytes(HELLO_SHA256)),
        extra: None,
    };
    let mut summer = Checksummer::init(&expected, false);
    summer.update(b"hello, world");
    let sums = summer.finalize();
    match sums.verify(&expected) {
        Err(SignatureError::InvalidDigest(_)) => {}
        _ => panic!("a mismatching SHA-256 must be an invalid digest"),
    }
}

#[test]
fn extra_checksums_are_computed_and_extracted() {
    let expected = ExpectedChecksums {
        md5: None,
        sha256: None,
        extra: Some(ChecksumValue::Sha1(hex_to_bytes(HELLO_SHA1))),
    };
    let mut summer = Checksummer::init(&expected, false);
    summer.update(b"hello");
    let sums = summer.finalize();
    assert!(sums.verify(&expected).is_ok());
    match sums.extract(Some(ChecksumAlgorithm::Sha1)) {
        Some(ChecksumValue::Sha1(d)) => assert_eq!(d, hex_to_bytes(HELLO_SHA1)),
        _ => panic!("the extra digest must be extractable"),
    }
    assert!(sums.extract(None).is_none());
}

#[test]
fn added_algorithms_are_computed_too() {
    let expected = ExpectedChecksums { md5: None, sha256: None, extra: None };
    let mut summer = Checksummer::init(&expected, true).add(Some(ChecksumAlgorithm::Crc32c));
    summer.update(b"hello");
    let sums = summer.finalize();
    assert_eq!(sums.crc32c, Some(0x9a71bb4c));
    assert_eq!(sums.md5, Some(hex_to_bytes(HELLO_MD5)));
}
