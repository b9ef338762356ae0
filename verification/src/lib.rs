//! A WebSocket (RFC 6455) endpoint library.
//!
//! The crate decodes an incoming byte stream into WebSocket frames,
//! reassembles fragments into application messages, enforces the protocol
//! invariants (opcode legality, masking, size limits, UTF-8 validity),
//! serializes outbound messages, and drives the closing handshake.  The
//! byte-stream I/O itself lives outside the library; everything here is
//! pure logic over byte buffers and is verified.

pub mod connection;
pub mod error;
pub mod frame;
pub mod handshake;
pub mod message;

use vstd::prelude::*;

verus! {

/// Largest payload a single frame may carry.
pub const MAX_FRAME_PAYLOAD_SIZE: usize = 16 * 1024 * 1024;

/// Largest reassembled message the engine accepts.
pub const MAX_MESSAGE_SIZE: usize = 64 * 1024 * 1024;

} // verus!
