//! The RPC message family, and how handler results become replies.

use vstd::prelude::*;

use vstd::string::StringExecFns;

use crate::util::error::Error;

verus! {

/// The messages nodes exchange. Payloads travel at the transport edge;
/// here only the message kind and the error text matter.
#[derive(Debug)]
pub enum Message {
    /// A failure, reported to the caller as a message.
    Error(String),
    /// A liveness probe.
    Ping,
    /// Ask a peer for its node status.
    PullStatus,
    /// Ask a peer for its cluster configuration.
    PullConfig,
    /// Tell a peer which nodes answered recently.
    AdvertiseNodesUp,
    /// Tell a peer about a newer cluster configuration.
    AdvertiseConfig,
}

/// The reply text of each error kind; an internal error carries its own.
pub open spec fn error_text(e: Error) -> Seq<char> {
    match e {
        Error::BadRequest(_) => "Bad request"@,
        Error::Unauthorized(_) => "Unauthorized"@,
        Error::Forbidden(_) => "Forbidden"@,
        Error::NotFound => "Not found"@,
        Error::PreconditionFailed => "Precondition failed"@,
        Error::QuorumFailure { .. } => "Quorum failure"@,
        Error::CorruptData { .. } => "Corrupt data: does not match hash"@,
        Error::Timeout => "Timeout"@,
        Error::LayoutChanged => "Layout changed, please retry"@,
        Error::Conflict => "Conflict"@,
        Error::InternalError(m) => m@,
    }
}

/// A short description of an error, for the reply wire.
pub fn error_message(e: &Error) -> (r: String)
    ensures
        r@ == error_text(*e),
{
    match e {
        Error::BadRequest(_) => String::from_str("Bad request"),
        Error::Unauthorized(_) => String::from_str("Unauthorized"),
        Error::Forbidden(_) => String::from_str("Forbidden"),
        Error::NotFound => String::from_str("Not found"),
        Error::PreconditionFailed => String::from_str("Precondition failed"),
        Error::QuorumFailure { .. } => String::from_str("Quorum failure"),
        Error::CorruptData { .. } => String::from_str("Corrupt data: does not match hash"),
        Error::Timeout => String::from_str("Timeout"),
        Error::LayoutChanged => String::from_str("Layout changed, please retry"),
        Error::Conflict => String::from_str("Conflict"),
        Error::InternalError(m) => m.clone(),
    }
}

/// Turn a handler's result into the message sent back: a failure becomes
/// an error reply, a reply passes through.
pub fn err_to_msg(x: Result<Message, Error>) -> (r: Message)
    ensures
        match x {
            Result::Ok(m) => r == m,
            Result::Err(e) => r matches Message::Error(msg) && msg@ == error_text(e),
        },
{
    match x {
        Result::Err(e) => Message::Error(error_message(&e)),
        Result::Ok(msg) => msg,
    }
}

} // verus!
