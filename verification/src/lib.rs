//! WebSocket wire protocol: frame codec, message assembly, handshake, and
//! keepalive middleware, with machine-checked contracts.

pub mod codec;
pub mod frame;
pub mod handshake;
pub mod mask;
pub mod message;
pub mod pingpong;
pub mod twist;

use vstd::prelude::*;

verus! {

/// A protocol violation: fatal to the connection, never retried.
#[derive(Clone, Copy, Debug, PartialEq, Eq, Structural)]
pub enum ProtocolError {
    /// A reserved bit was set and no extension claims it.
    ReservedBits,
    /// A control frame arrived with the fin bit clear.
    NonFinalControl,
    /// A control frame declared a payload length above 125.
    OversizedControl,
    /// A frame was masked in a direction the role forbids, or unmasked
    /// in the direction that requires masking.
    MaskDirection,
    /// The 64-bit extended payload length had its most significant bit set.
    BadLengthEncoding,
    /// A continuation frame arrived with no message in progress, or a new
    /// data frame arrived while one was in progress.
    Fragmentation,
    /// A frame with a reserved opcode reached the message assembler.
    ReservedOpcode,
    /// A close payload of a single byte: too short to carry a close code.
    BadClosePayload,
}

} // verus!
