//! The error taxonomy: framing violations, handshake failures, and
//! connection-level conditions.

use vstd::prelude::*;

verus! {

/// A breach of the framing layer: an unknown opcode or status code, an
/// oversized payload or a masking violation, invalid UTF-8 text, or data
/// that is inconsistent with the frame grammar.
#[derive(Debug, Clone, Copy, PartialEq, Eq, Structural)]
pub enum InvalidFrame {
    /// The low nibble of the first octet is not a defined opcode.
    Opcode(u8),
    /// A Close payload named a status code outside the closed set.
    Code(u16),
    /// The payload length breaks a size limit, or the frame's masking
    /// does not match what the receiver's role demands.
    PayloadSize,
    /// A Text message whose reassembled payload is not valid UTF-8.
    Text,
    /// Reserved bits set, a fragmented control frame, or any other data
    /// inconsistent with the frame grammar.
    Inconsistent,
}

/// A failure of the opening HTTP Upgrade exchange.
#[derive(Debug, Clone, Copy, PartialEq, Eq, Structural)]
pub enum InvalidHandshake {
    /// The peer's request was not parseable as HTTP.
    HttpRequestParser,
    /// The peer's response was not parseable as HTTP.
    HttpResponseParser,
    /// The HTTP message parsed but does not meet the upgrade requirements.
    NonConformant,
}

/// Any failure the library reports to the application.
#[derive(Debug, Clone, Copy, PartialEq, Eq, Structural)]
pub enum WebSocketError {
    /// The opening handshake failed.
    InvalidHandshake(InvalidHandshake),
    /// A stream-level read or write failed.
    Io,
    /// A frame broke the protocol.
    InvalidFrame(InvalidFrame),
    /// A reassembled message exceeded the message size limit.
    InvalidMessageSize,
    /// The connection has terminated; no further traffic is possible.
    ConnectionClosed,
}

} // verus!
