//! Client-side engine for the Java Debug Wire Protocol: byte-exact framing,
//! typed value encoding, request/reply correlation and capability negotiation.
//!
//! The engine never touches a socket. It turns values into bytes and bytes into
//! values, and keeps the state of one connection; moving the bytes is the caller's part.

use vstd::prelude::*;

pub mod jdwp;
pub mod session;

verus! {

/// Why a connection cannot go on, or why one packet was turned down.
#[derive(Debug, PartialEq, Eq)]
pub enum Error {
    /// The peer answered the handshake with something else than the token;
    /// the bytes it sent are kept.
    HandshakeFailed(Vec<u8>),
    /// The byte stream ended before what was announced had arrived.
    TransportFailure,
    /// A packet declared a length shorter than its own header.
    MalformedPacket,
    /// A payload could not be decoded.
    Jdwp(jdwp::Error),
}

impl From<jdwp::Error> for Error {
    fn from(e: jdwp::Error) -> (wrapped: Error) {
        Error::Jdwp(e)
    }
}

impl vstd::std_specs::convert::FromSpecImpl<jdwp::Error> for Error {
    open spec fn obeys_from_spec() -> bool {
        true
    }

    open spec fn from_spec(e: jdwp::Error) -> Error {
        Error::Jdwp(e)
    }
}

} // verus!
