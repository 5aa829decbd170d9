//! Errors shared by all HTTP front-ends.

use vstd::prelude::*;

verus! {

/// A failure any front-end can report.
#[derive(Debug)]
pub enum CommonError {
    /// Something went wrong inside the storage core.
    InternalError(String),
    /// The request itself is malformed.
    BadRequest(String),
    /// The credentials do not allow the operation.
    Forbidden(String),
}

impl CommonError {
    /// The AWS error code the S3 API answers with.
    pub fn aws_code(&self) -> (r: &'static str)
        ensures
            match self {
                CommonError::InternalError(_) => r@ == "InternalError"@,
                CommonError::BadRequest(_) => r@ == "InvalidRequest"@,
                CommonError::Forbidden(_) => r@ == "AccessDenied"@,
            },
    {
        match self {
            CommonError::InternalError(_) => "InternalError",
            CommonError::BadRequest(_) => "InvalidRequest",
            CommonError::Forbidden(_) => "AccessDenied",
        }
    }

    /// The HTTP status code the error maps to.
    pub fn http_status_code(&self) -> (r: u16)
        ensures
            match self {
                CommonError::InternalError(_) => r == 500,
                CommonError::BadRequest(_) => r == 400,
                CommonError::Forbidden(_) => r == 403,
            },
    {
        match self {
            CommonError::InternalError(_) => 500,
            CommonError::BadRequest(_) => 400,
            CommonError::Forbidden(_) => 403,
        }
    }
}

} // verus!
