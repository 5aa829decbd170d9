//! The error union the storage core reports to its callers.

use vstd::prelude::*;

use crate::data::Uuid;

verus! {

/// Every failure a core operation can surface.
#[derive(Debug)]
pub enum Error {
    /// The request itself is malformed.
    BadRequest(String),
    /// No credentials were presented where some were needed.
    Unauthorized(String),
    /// The presented credentials do not allow the operation.
    Forbidden(String),
    /// The named record or block does not exist.
    NotFound,
    /// A precondition attached to the request did not hold.
    PreconditionFailed,
    /// Too few replicas answered; `writes` tells a write quorum from a read
    /// quorum apart.
    QuorumFailure { writes: bool, achieved: u64, required: u64 },
    /// Stored or received bytes do not match the hash that names them.
    CorruptData { expected_hash: crate::data::Hash },
    /// The operation did not finish within its deadline.
    Timeout,
    /// The cluster layout moved while the operation ran; retryable.
    LayoutChanged,
    /// A CRDT merge saw an explicit abort.
    Conflict,
    /// Any other internal failure, with a human-readable message.
    InternalError(String),
}

/// Failures of the request/response transport between nodes.
#[derive(Debug)]
pub enum RpcError {
    /// The addressed node is known to be down.
    NodeDown(Uuid),
    /// No answer within the deadline.
    Timeout,
    /// The transport could not carry the request.
    Transport(String),
    /// The payload could not be encoded.
    Encode(String),
    /// The payload could not be decoded.
    Decode(String),
    /// Every attempted node failed; one message per failure.
    TooManyErrors(Vec<String>),
}

} // verus!
