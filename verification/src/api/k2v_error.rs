//! The K2V front-end's error taxonomy.

use vstd::prelude::*;

use crate::api::common_error::CommonError;
use crate::api::signature_error::SignatureError;

verus! {

/// A failure of the K2V front-end.
#[derive(Debug)]
pub enum Error {
    /// A failure shared with the other front-ends.
    Common(CommonError),
    /// The Authorization header has an unexpected scope.
    AuthorizationHeaderMalformed(String),
    /// The requested key does not exist.
    NoSuchKey,
    /// Some base64 field was badly encoded.
    InvalidBase64(String),
    /// The client asked for a return format this API cannot produce.
    NotAcceptable(String),
    /// A path or parameter held an invalid UTF-8 sequence.
    InvalidUtf8(String),
}

impl Error {
    /// The keyword this API reports for the failure.
    pub fn code(&self) -> (r: &'static str)
        ensures
            match self {
                Error::Common(c) => match c {
                    CommonError::InternalError(_) => r@ == "InternalError"@,
                    CommonError::BadRequest(_) => r@ == "InvalidRequest"@,
                    CommonError::Forbidden(_) => r@ == "AccessDenied"@,
                },
                Error::AuthorizationHeaderMalformed(_) => r@ == "AuthorizationHeaderMalformed"@,
                Error::NoSuchKey => r@ == "NoSuchKey"@,
                Error::InvalidBase64(_) => r@ == "InvalidBase64"@,
                Error::NotAcceptable(_) => r@ == "NotAcceptable"@,
                Error::InvalidUtf8(_) => r@ == "InvalidUtf8String"@,
            },
    {
        match self {
            Error::Common(c) => c.aws_code(),
            Error::AuthorizationHeaderMalformed(_) => "AuthorizationHeaderMalformed",
            Error::NoSuchKey => "NoSuchKey",
            Error::InvalidBase64(_) => "InvalidBase64",
            Error::NotAcceptable(_) => "NotAcceptable",
            Error::InvalidUtf8(_) => "InvalidUtf8String",
        }
    }

    /// The HTTP status the failure answers with.
    pub fn http_status_code(&self) -> (r: u16)
        ensures
            match self {
                Error::Common(c) => match c {
                    CommonError::InternalError(_) => r == 500,
                    CommonError::BadRequest(_) => r == 400,
                    CommonError::Forbidden(_) => r == 403,
                },
                Error::NoSuchKey => r == 404,
                Error::NotAcceptable(_) => r == 406,
                Error::AuthorizationHeaderMalformed(_) | Error::InvalidBase64(_)
                    | Error::InvalidUtf8(_) => r == 400,
            },
    {
        match self {
            Error::Common(c) => c.http_status_code(),
            Error::NoSuchKey => 404,
            Error::NotAcceptable(_) => 406,
            Error::AuthorizationHeaderMalformed(_) | Error::InvalidBase64(_)
                | Error::InvalidUtf8(_) => 400,
        }
    }

    /// Lift an authentication failure into this taxonomy. A digest
    /// failure has no variant of its own here; it surfaces as a bad
    /// request.
    pub fn from_signature_error(e: SignatureError) -> (r: Error)
        ensures
            match e {
                SignatureError::Common(c) => r matches Error::Common(c2) && c2 == c,
                SignatureError::AuthorizationHeaderMalformed(s) => r
                    matches Error::AuthorizationHeaderMalformed(s2) && s2@ == s@,
                SignatureError::InvalidUtf8Str(s) => r matches Error::InvalidUtf8(s2) && s2@
                    == s@,
                SignatureError::InvalidDigest(s) => r matches Error::Common(c) && (
                c matches CommonError::BadRequest(s2) && s2@ == s@),
            },
    {
        match e {
            SignatureError::Common(c) => Error::Common(c),
            SignatureError::AuthorizationHeaderMalformed(s) => Error::AuthorizationHeaderMalformed(
                s,
            ),
            SignatureError::InvalidUtf8Str(s) => Error::InvalidUtf8(s),
            SignatureError::InvalidDigest(s) => Error::Common(CommonError::BadRequest(s)),
        }
    }
}

} // verus!
