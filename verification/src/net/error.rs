//! Errors of the node-to-node transport, and how I/O error kinds travel
//! over the wire.
//!
//! A remote failure carries the peer's I/O error kind; since the wire only
//! carries bytes, each kind the protocol cares about is assigned a code,
//! and decoding maps every unassigned code to `Other`.

use vstd::prelude::*;

verus! {

/// The I/O error kinds the protocol distinguishes.
#[derive(Clone, Copy, Debug, PartialEq, Eq, Structural)]
pub enum IoErrorKind {
    ConnectionAborted,
    BrokenPipe,
    WouldBlock,
    InvalidInput,
    InvalidData,
    TimedOut,
    Interrupted,
    UnexpectedEof,
    OutOfMemory,
    ConnectionReset,
    /// Every kind the protocol does not name.
    Other,
}

/// The wire code of an I/O error kind.
pub open spec fn io_errorkind_code(kind: IoErrorKind) -> u8 {
    match kind {
        IoErrorKind::ConnectionAborted => 101,
        IoErrorKind::BrokenPipe => 102,
        IoErrorKind::WouldBlock => 103,
        IoErrorKind::InvalidInput => 104,
        IoErrorKind::InvalidData => 105,
        IoErrorKind::TimedOut => 106,
        IoErrorKind::Interrupted => 107,
        IoErrorKind::UnexpectedEof => 108,
        IoErrorKind::OutOfMemory => 109,
        IoErrorKind::ConnectionReset => 110,
        IoErrorKind::Other => 100,
    }
}

/// The I/O error kind a wire code stands for.
pub open spec fn io_errorkind_of_code(v: u8) -> IoErrorKind {
    if v == 101 {
        IoErrorKind::ConnectionAborted
    } else if v == 102 {
        IoErrorKind::BrokenPipe
    } else if v == 103 {
        IoErrorKind::WouldBlock
    } else if v == 104 {
        IoErrorKind::InvalidInput
    } else if v == 105 {
        IoErrorKind::InvalidData
    } else if v == 106 {
        IoErrorKind::TimedOut
    } else if v == 107 {
        IoErrorKind::Interrupted
    } else if v == 108 {
        IoErrorKind::UnexpectedEof
    } else if v == 109 {
        IoErrorKind::OutOfMemory
    } else if v == 110 {
        IoErrorKind::ConnectionReset
    } else {
        IoErrorKind::Other
    }
}

/// Decode an I/O error kind from its wire code.
pub fn u8_to_io_errorkind(v: u8) -> (r: IoErrorKind)
    ensures
        r == io_errorkind_of_code(v),
{
    match v {
        101 => IoErrorKind::ConnectionAborted,
        102 => IoErrorKind::BrokenPipe,
        103 => IoErrorKind::WouldBlock,
        104 => IoErrorKind::InvalidInput,
        105 => IoErrorKind::InvalidData,
        106 => IoErrorKind::TimedOut,
        107 => IoErrorKind::Interrupted,
        108 => IoErrorKind::UnexpectedEof,
        109 => IoErrorKind::OutOfMemory,
        110 => IoErrorKind::ConnectionReset,
        _ => IoErrorKind::Other,
    }
}

/// Encode an I/O error kind as its wire code.
pub fn io_errorkind_to_u8(kind: IoErrorKind) -> (r: u8)
    ensures
        r == io_errorkind_code(kind),
{
    match kind {
        IoErrorKind::ConnectionAborted => 101,
        IoErrorKind::BrokenPipe => 102,
        IoErrorKind::WouldBlock => 103,
        IoErrorKind::InvalidInput => 104,
        IoErrorKind::InvalidData => 105,
        IoErrorKind::TimedOut => 106,
        IoErrorKind::Interrupted => 107,
        IoErrorKind::UnexpectedEof => 108,
        IoErrorKind::OutOfMemory => 109,
        IoErrorKind::ConnectionReset => 110,
        IoErrorKind::Other => 100,
    }
}

/// Every named kind survives the trip to its wire code and back, and
/// decoding any code re-encodes to a code that decodes the same way.
pub proof fn lemma_io_errorkind_roundtrip(kind: IoErrorKind, v: u8)
    ensures
        io_errorkind_of_code(io_errorkind_code(kind)) == kind,
        io_errorkind_of_code(io_errorkind_code(io_errorkind_of_code(v))) == io_errorkind_of_code(
            v,
        ),
{
}

/// A failure of the node-to-node transport.
#[derive(Debug)]
pub enum NetError {
    /// A local I/O failure.
    Io(String),
    /// The payload could not be encoded.
    Encode(String),
    /// The payload could not be decoded.
    Decode(String),
    /// The secret handshake with the peer failed.
    Handshake(String),
    /// A text field held invalid UTF-8.
    Utf8(String),
    /// A frame violated the framing protocol.
    Framing,
    /// The peer reported a failure of the given kind.
    Remote(IoErrorKind, String),
    /// Two in-flight requests collided on one request id.
    IdCollision,
    /// Any other failure, with a message.
    Message(String),
    /// No handler is registered, or the node is shutting down.
    NoHandler,
    /// The connection closed under the request.
    ConnectionClosed,
    /// The peers disagree on the protocol version.
    VersionMismatch(String),
}

/// The name of an I/O error kind, as a remote failure's description
/// spells it.
pub open spec fn io_errorkind_name(kind: IoErrorKind) -> Seq<char> {
    match kind {
        IoErrorKind::ConnectionAborted => "ConnectionAborted"@,
        IoErrorKind::BrokenPipe => "BrokenPipe"@,
        IoErrorKind::WouldBlock => "WouldBlock"@,
        IoErrorKind::InvalidInput => "InvalidInput"@,
        IoErrorKind::InvalidData => "InvalidData"@,
        IoErrorKind::TimedOut => "TimedOut"@,
        IoErrorKind::Interrupted => "Interrupted"@,
        IoErrorKind::UnexpectedEof => "UnexpectedEof"@,
        IoErrorKind::OutOfMemory => "OutOfMemory"@,
        IoErrorKind::ConnectionReset => "ConnectionReset"@,
        IoErrorKind::Other => "Other"@,
    }
}

/// The description of a transport failure.
pub open spec fn net_error_text(e: NetError) -> Seq<char> {
    match e {
        NetError::Io(m) => "IO error: "@ + m@,
        NetError::Encode(m) => "Messagepack encode error: "@ + m@,
        NetError::Decode(m) => "Messagepack decode error: "@ + m@,
        NetError::Handshake(m) => "Handshake error: "@ + m@,
        NetError::Utf8(m) => "UTF8 error: "@ + m@,
        NetError::Framing => "Framing protocol error"@,
        NetError::Remote(k, m) => "Remote error ("@ + io_errorkind_name(k) + "): "@ + m@,
        NetError::IdCollision => "Request ID collision"@,
        NetError::Message(m) => m@,
        NetError::NoHandler => "No handler / shutting down"@,
        NetError::ConnectionClosed => "Connection closed"@,
        NetError::VersionMismatch(m) => "Version mismatch: "@ + m@,
    }
}

/// Render the name of an I/O error kind.
fn io_errorkind_name_str(kind: IoErrorKind) -> (r: &'static str)
    ensures
        r@ == io_errorkind_name(kind),
{
    match kind {
        IoErrorKind::ConnectionAborted => "ConnectionAborted",
        IoErrorKind::BrokenPipe => "BrokenPipe",
        IoErrorKind::WouldBlock => "WouldBlock",
        IoErrorKind::InvalidInput => "InvalidInput",
        IoErrorKind::InvalidData => "InvalidData",
        IoErrorKind::TimedOut => "TimedOut",
        IoErrorKind::Interrupted => "Interrupted",
        IoErrorKind::UnexpectedEof => "UnexpectedEof",
        IoErrorKind::OutOfMemory => "OutOfMemory",
        IoErrorKind::ConnectionReset => "ConnectionReset",
        IoErrorKind::Other => "Other",
    }
}

/// Render a transport failure's description.
pub fn net_error_message(e: &NetError) -> (r: String)
    ensures
        r@ == net_error_text(*e),
{
    let mut r = String::new();
    match e {
        NetError::Io(m) => {
            crate::util::text::string_push_str(&mut r, "IO error: ");
            crate::util::text::string_push_str(&mut r, m.as_str());
        },
        NetError::Encode(m) => {
            crate::util::text::string_push_str(&mut r, "Messagepack encode error: ");
            crate::util::text::string_push_str(&mut r, m.as_str());
        },
        NetError::Decode(m) => {
            crate::util::text::string_push_str(&mut r, "Messagepack decode error: ");
            crate::util::text::string_push_str(&mut r, m.as_str());
        },
        NetError::Handshake(m) => {
            crate::util::text::string_push_str(&mut r, "Handshake error: ");
            crate::util::text::string_push_str(&mut r, m.as_str());
        },
        NetError::Utf8(m) => {
            crate::util::text::string_push_str(&mut r, "UTF8 error: ");
            crate::util::text::string_push_str(&mut r, m.as_str());
        },
        NetError::Framing => {
            crate::util::text::string_push_str(&mut r, "Framing protocol error");
        },
        NetError::Remote(k, m) => {
            crate::util::text::string_push_str(&mut r, "Remote error (");
            crate::util::text::string_push_str(&mut r, io_errorkind_name_str(*k));
            crate::util::text::string_push_str(&mut r, "): ");
            crate::util::text::string_push_str(&mut r, m.as_str());
        },
        NetError::IdCollision => {
            crate::util::text::string_push_str(&mut r, "Request ID collision");
        },
        NetError::Message(m) => {
            crate::util::text::string_push_str(&mut r, m.as_str());
        },
        NetError::NoHandler => {
            crate::util::text::string_push_str(&mut r, "No handler / shutting down");
        },
        NetError::ConnectionClosed => {
            crate::util::text::string_push_str(&mut r, "Connection closed");
        },
        NetError::VersionMismatch(m) => {
            crate::util::text::string_push_str(&mut r, "Version mismatch: ");
            crate::util::text::string_push_str(&mut r, m.as_str());
        },
    }
    proof {
        assert(r@ =~= net_error_text(*e));
    }
    r
}

/// The line a dismissed failure is logged with: nothing on success, the
/// note and the failure's description on an error. Writing the line to a
/// log is the caller's side effect.
pub fn log_err_line(r: &Result<(), NetError>, msg: &str) -> (line: Option<String>)
    ensures
        match r {
            Result::Ok(_) => line is None,
            Result::Err(e) => match line {
                Option::Some(l) => l@ == "Error: "@ + msg@ + ": "@ + net_error_text(*e),
                Option::None => false,
            },
        },
{
    match r {
        Result::Ok(_) => Option::None,
        Result::Err(e) => {
            let mut l = String::new();
            crate::util::text::string_push_str(&mut l, "Error: ");
            crate::util::text::string_push_str(&mut l, msg);
            crate::util::text::string_push_str(&mut l, ": ");
            let desc = net_error_message(e);
            crate::util::text::string_push_str(&mut l, desc.as_str());
            proof {
                assert(l@ =~= "Error: "@ + msg@ + ": "@ + net_error_text(*e));
            }
            Option::Some(l)
        },
    }
}

} // verus!
