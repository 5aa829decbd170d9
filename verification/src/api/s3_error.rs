//! The S3 front-end's error taxonomy: each failure knows its AWS error
//! code, its HTTP status, its headers and its XML body.

use vstd::prelude::*;

use vstd::string::StringExecFns;

use crate::api::common_error::CommonError;
use crate::api::encoding::{xml_escape, xml_escape_chars};
use crate::api::signature_error::SignatureError;
use crate::util::text::{dec_of, u64_to_dec};

verus! {

/// A failure of the S3 front-end.
#[derive(Debug)]
pub enum Error {
    /// A failure shared with the other front-ends.
    Common(CommonError),
    /// The Authorization header has an unexpected scope.
    AuthorizationHeaderMalformed(String),
    /// The requested object does not exist.
    NoSuchKey,
    /// The requested multipart upload does not exist.
    NoSuchUpload,
    /// A precondition attached to the request did not hold.
    PreconditionFailed,
    /// The parts given to complete a multipart upload do not match the
    /// uploaded ones.
    InvalidPart,
    /// The parts given to complete a multipart upload were out of order.
    InvalidPartOrder,
    /// The proposed upload is below the minimum object size.
    EntityTooSmall,
    /// A path or parameter held an invalid UTF-8 sequence.
    InvalidUtf8(String),
    /// The client sent invalid XML.
    InvalidXml(String),
    /// The client sent an unsatisfiable range; carries the object size.
    InvalidRange(u64),
    /// The client asked for an unsupported encryption algorithm.
    InvalidEncryptionAlgorithm(String),
    /// A checksum the client announced does not match the payload.
    InvalidDigest(String),
    /// The request names an action this server does not implement.
    NotImplemented(String),
}

impl Error {
    /// The AWS error code of this failure.
    pub open spec fn aws_code_spec(&self) -> Seq<char> {
        match self {
            Error::Common(c) => match c {
                CommonError::InternalError(_) => "InternalError"@,
                CommonError::BadRequest(_) => "InvalidRequest"@,
                CommonError::Forbidden(_) => "AccessDenied"@,
            },
            Error::AuthorizationHeaderMalformed(_) => "AuthorizationHeaderMalformed"@,
            Error::NoSuchKey => "NoSuchKey"@,
            Error::NoSuchUpload => "NoSuchUpload"@,
            Error::PreconditionFailed => "PreconditionFailed"@,
            Error::InvalidPart => "InvalidPart"@,
            Error::InvalidPartOrder => "InvalidPartOrder"@,
            Error::EntityTooSmall => "EntityTooSmall"@,
            Error::InvalidUtf8(_) => "InvalidRequest"@,
            Error::InvalidXml(_) => "MalformedXML"@,
            Error::InvalidRange(_) => "InvalidRange"@,
            Error::InvalidEncryptionAlgorithm(_) => "InvalidEncryptionAlgorithmError"@,
            Error::InvalidDigest(_) => "InvalidDigest"@,
            Error::NotImplemented(_) => "NotImplemented"@,
        }
    }

    /// The AWS error code of this failure.
    pub fn aws_code(&self) -> (r: &'static str)
        ensures
            r@ == self.aws_code_spec(),
    {
        match self {
            Error::Common(c) => c.aws_code(),
            Error::AuthorizationHeaderMalformed(_) => "AuthorizationHeaderMalformed",
            Error::NoSuchKey => "NoSuchKey",
            Error::NoSuchUpload => "NoSuchUpload",
            Error::PreconditionFailed => "PreconditionFailed",
            Error::InvalidPart => "InvalidPart",
            Error::InvalidPartOrder => "InvalidPartOrder",
            Error::EntityTooSmall => "EntityTooSmall",
            Error::InvalidUtf8(_) => "InvalidRequest",
            Error::InvalidXml(_) => "MalformedXML",
            Error::InvalidRange(_) => "InvalidRange",
            Error::InvalidEncryptionAlgorithm(_) => "InvalidEncryptionAlgorithmError",
            Error::InvalidDigest(_) => "InvalidDigest",
            Error::NotImplemented(_) => "NotImplemented",
        }
    }

    /// The HTTP status the failure answers with.
    pub fn http_status_code(&self) -> (r: u16)
        ensures
            match self {
                Error::Common(c) => match c {
                    CommonError::InternalError(_) => r == 500,
                    CommonError::BadRequest(_) => r == 400,
                    CommonError::Forbidden(_) => r == 403,
                },
                Error::NoSuchKey | Error::NoSuchUpload => r == 404,
                Error::PreconditionFailed => r == 412,
                Error::InvalidRange(_) => r == 416,
                Error::NotImplemented(_) => r == 501,
                Error::AuthorizationHeaderMalformed(_) | Error::InvalidPart
                    | Error::InvalidPartOrder | Error::EntityTooSmall | Error::InvalidDigest(_)
                    | Error::InvalidEncryptionAlgorithm(_) | Error::InvalidXml(_)
                    | Error::InvalidUtf8(_) => r == 400,
            },
    {
        match self {
            Error::Common(c) => c.http_status_code(),
            Error::NoSuchKey | Error::NoSuchUpload => 404,
            Error::PreconditionFailed => 412,
            Error::InvalidRange(_) => 416,
            Error::NotImplemented(_) => 501,
            Error::AuthorizationHeaderMalformed(_) | Error::InvalidPart | Error::InvalidPartOrder
                | Error::EntityTooSmall | Error::InvalidDigest(_)
                | Error::InvalidEncryptionAlgorithm(_) | Error::InvalidXml(_)
                | Error::InvalidUtf8(_) => 400,
        }
    }

    /// The human-readable description of this failure.
    pub open spec fn message_spec(&self) -> Seq<char> {
        match self {
            Error::Common(c) => match c {
                CommonError::InternalError(m) => "Internal error: "@ + m@,
                CommonError::BadRequest(m) => "Bad request: "@ + m@,
                CommonError::Forbidden(m) => "Forbidden: "@ + m@,
            },
            Error::AuthorizationHeaderMalformed(s) => (
            "Authorization header malformed, unexpected scope: "@ + s@),
            Error::NoSuchKey => "Key not found"@,
            Error::NoSuchUpload => "Upload not found"@,
            Error::PreconditionFailed => (
            "At least one of the preconditions you specified did not hold"@),
            Error::InvalidPart => (
            "Parts given to CompleteMultipartUpload do not match uploaded parts"@),
            Error::InvalidPartOrder => (
            "Parts given to CompleteMultipartUpload were not in ascending order"@),
            Error::EntityTooSmall => (
            "Proposed upload is smaller than the minimum allowed object size"@),
            Error::InvalidUtf8(m) => "Invalid UTF-8: "@ + m@,
            Error::InvalidXml(m) => "Invalid XML: "@ + m@,
            Error::InvalidRange(l) => "Invalid HTTP range: bytes */"@ + dec_of(*l),
            Error::InvalidEncryptionAlgorithm(s) => "Invalid encryption algorithm: "@ + s@
                + ", should be AES256"@,
            Error::InvalidDigest(m) => "Invalid digest: "@ + m@,
            Error::NotImplemented(s) => "Unimplemented action: "@ + s@,
        }
    }

    /// The human-readable description of this failure.
    pub fn message(&self) -> (r: String)
        ensures
            r@ == self.message_spec(),
    {
        match self {
            Error::Common(c) => {
                let mut r = match c {
                    CommonError::InternalError(_) => String::from_str("Internal error: "),
                    CommonError::BadRequest(_) => String::from_str("Bad request: "),
                    CommonError::Forbidden(_) => String::from_str("Forbidden: "),
                };
                match c {
                    CommonError::InternalError(m) => r.append(m.as_str()),
                    CommonError::BadRequest(m) => r.append(m.as_str()),
                    CommonError::Forbidden(m) => r.append(m.as_str()),
                }
                r
            },
            Error::AuthorizationHeaderMalformed(s) => {
                let mut r = String::from_str("Authorization header malformed, unexpected scope: ");
                r.append(s.as_str());
                r
            },
            Error::NoSuchKey => String::from_str("Key not found"),
            Error::NoSuchUpload => String::from_str("Upload not found"),
            Error::PreconditionFailed => String::from_str(
                "At least one of the preconditions you specified did not hold",
            ),
            Error::InvalidPart => String::from_str(
                "Parts given to CompleteMultipartUpload do not match uploaded parts",
            ),
            Error::InvalidPartOrder => String::from_str(
                "Parts given to CompleteMultipartUpload were not in ascending order",
            ),
            Error::EntityTooSmall => String::from_str(
                "Proposed upload is smaller than the minimum allowed object size",
            ),
            Error::InvalidUtf8(m) => {
                let mut r = String::from_str("Invalid UTF-8: ");
                r.append(m.as_str());
                r
            },
            Error::InvalidXml(m) => {
                let mut r = String::from_str("Invalid XML: ");
                r.append(m.as_str());
                r
            },
            Error::InvalidRange(l) => {
                let mut r = String::from_str("Invalid HTTP range: bytes */");
                let d = u64_to_dec(*l);
                r.append(d.as_str());
                r
            },
            Error::InvalidEncryptionAlgorithm(s) => {
                let mut r = String::from_str("Invalid encryption algorithm: ");
                r.append(s.as_str());
                r.append(", should be AES256");
                r
            },
            Error::InvalidDigest(m) => {
                let mut r = String::from_str("Invalid digest: ");
                r.append(m.as_str());
                r
            },
            Error::NotImplemented(s) => {
                let mut r = String::from_str("Unimplemented action: ");
                r.append(s.as_str());
                r
            },
        }
    }

    /// The headers an error answer carries: an XML content type, an open
    /// CORS policy, and for a range failure the object's size.
    pub fn add_http_headers(&self) -> (r: Vec<(String, String)>)
        ensures
            r@.len() == if self matches Error::InvalidRange(_) {
                3int
            } else {
                2int
            },
            r@[0].0@ == "Content-Type"@ && r@[0].1@ == "application/xml"@,
            r@[1].0@ == "Access-Control-Allow-Origin"@ && r@[1].1@ == "*"@,
            self matches Error::InvalidRange(l) ==> r@[2].0@ == "Content-Range"@ && r@[2].1@
                == "bytes */"@ + dec_of(*l),
    {
        let mut r: Vec<(String, String)> = Vec::new();
        r.push((String::from_str("Content-Type"), String::from_str("application/xml")));
        r.push((String::from_str("Access-Control-Allow-Origin"), String::from_str("*")));
        match self {
            Error::InvalidRange(l) => {
                let mut v = String::from_str("bytes */");
                let d = u64_to_dec(*l);
                v.append(d.as_str());
                r.push((String::from_str("Content-Range"), v));
            },
            _ => {},
        }
        r
    }

    /// The XML document an error answer carries, with every text field
    /// escaped.
    pub fn http_body(&self, region: &str, path: &str) -> (r: String)
        ensures
            r@ == "<?xml version=\"1.0\" encoding=\"UTF-8\"?>\n<Error><Code>"@
                + self.aws_code_spec() + "</Code><Message>"@ + xml_escape_chars(
                self.message_spec(),
            ) + "</Message><Resource>"@ + xml_escape_chars(path@) + "</Resource><Region>"@
                + xml_escape_chars(region@) + "</Region></Error>"@,
    {
        let mut r = String::from_str("<?xml version=\"1.0\" encoding=\"UTF-8\"?>\n<Error><Code>");
        r.append(self.aws_code());
        r.append("</Code><Message>");
        let msg = self.message();
        let escaped_msg = xml_escape(msg.as_str());
        r.append(escaped_msg.as_str());
        r.append("</Message><Resource>");
        let escaped_path = xml_escape(path);
        r.append(escaped_path.as_str());
        r.append("</Resource><Region>");
        let escaped_region = xml_escape(region);
        r.append(escaped_region.as_str());
        r.append("</Region></Error>");
        r
    }

    /// Lift an authentication failure into this taxonomy.
    pub fn from_signature_error(e: SignatureError) -> (r: Error)
        ensures
            match e {
                SignatureError::Common(c) => r matches Error::Common(c2) && c2 == c,
                SignatureError::AuthorizationHeaderMalformed(s) => r
                    matches Error::AuthorizationHeaderMalformed(s2) && s2@ == s@,
                SignatureError::InvalidUtf8Str(s) => r matches Error::InvalidUtf8(s2) && s2@
                    == s@,
                SignatureError::InvalidDigest(s) => r matches Error::InvalidDigest(s2) && s2@
                    == s@,
            },
    {
        match e {
            SignatureError::Common(c) => Error::Common(c),
            SignatureError::AuthorizationHeaderMalformed(s) => Error::AuthorizationHeaderMalformed(
                s,
            ),
            SignatureError::InvalidUtf8Str(s) => Error::InvalidUtf8(s),
            SignatureError::InvalidDigest(s) => Error::InvalidDigest(s),
        }
    }
}

} // verus!
