//! Errors of request authentication and payload checksumming.

use vstd::prelude::*;

use crate::api::common_error::CommonError;

verus! {

/// A failure while authenticating a request or checking its payload.
#[derive(Debug)]
pub enum SignatureError {
    /// A failure shared with the other front-ends.
    Common(CommonError),
    /// The Authorization header has an unexpected scope.
    AuthorizationHeaderMalformed(String),
    /// A path or parameter held an invalid UTF-8 sequence.
    InvalidUtf8Str(String),
    /// A checksum the client announced does not match the payload.
    InvalidDigest(String),
}

} // verus!
