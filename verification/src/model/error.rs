//! Errors of the model-level helpers, and the shorthand that turns any
//! absent value into a bad-request answer.

use vstd::prelude::*;

use vstd::string::StringExecFns;

verus! {

/// A failure of a model-level operation.
#[derive(Debug)]
pub enum Error {
    /// A failure inside the storage core.
    Internal(crate::util::error::Error),
    /// The request itself is malformed.
    BadRequest(String),
    /// The bucket name violates the S3 naming rules.
    InvalidBucketName(String),
    /// No access key with this identifier.
    NoSuchAccessKey(String),
    /// No bucket with this name.
    NoSuchBucket(String),
}

/// Turns a missing or failed value into a `BadRequest` carrying a reason.
pub trait OkOrBadRequest {
    /// The value on success.
    type S;

    /// The value, or `BadRequest` with the given reason.
    fn ok_or_bad_request(self, reason: &str) -> Result<Self::S, Error>;
}

impl<T> OkOrBadRequest for Option<T> {
    type S = T;

    /// The contained value, or `BadRequest` when there is none.
    fn ok_or_bad_request(self, reason: &str) -> (r: Result<T, Error>)
        ensures
            match self {
                Option::Some(x) => r matches Result::Ok(y) && x == y,
                Option::None => r matches Result::Err(e) && e is BadRequest,
            },
    {
        match self {
            Option::Some(x) => Result::Ok(x),
            Option::None => Result::Err(Error::BadRequest(String::from_str(reason))),
        }
    }
}

impl<T> OkOrBadRequest for Result<T, String> {
    type S = T;

    /// The contained value, or `BadRequest` when the operation failed.
    fn ok_or_bad_request(self, reason: &str) -> (r: Result<T, Error>)
        ensures
            match self {
                Result::Ok(x) => r matches Result::Ok(y) && x == y,
                Result::Err(_) => r matches Result::Err(e) && e is BadRequest,
            },
    {
        match self {
            Result::Ok(x) => Result::Ok(x),
            Result::Err(_) => Result::Err(Error::BadRequest(String::from_str(reason))),
        }
    }
}

} // verus!
