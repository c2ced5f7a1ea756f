//! The Base Frame model: one wire-level WebSocket frame.

use vstd::prelude::*;

verus! {

/// The opcode carried in the low four bits of a frame's second nibble.
#[derive(Clone, Copy, Debug, PartialEq, Eq, Structural)]
pub enum OpCode {
    Continuation,
    Text,
    Binary,
    Close,
    Ping,
    Pong,
    /// An opcode value the protocol reserves; the nibble is kept.
    Reserved(u8),
}

impl OpCode {
    /// The wire nibble of this opcode.
    pub open spec fn spec_nibble(self) -> u8 {
        match self {
            OpCode::Continuation => 0,
            OpCode::Text => 1,
            OpCode::Binary => 2,
            OpCode::Close => 8,
            OpCode::Ping => 9,
            OpCode::Pong => 10,
            OpCode::Reserved(n) => n,
        }
    }

    /// The opcode a wire nibble stands for.
    pub open spec fn spec_of_nibble(n: u8) -> OpCode {
        if n == 0 {
            OpCode::Continuation
        } else if n == 1 {
            OpCode::Text
        } else if n == 2 {
            OpCode::Binary
        } else if n == 8 {
            OpCode::Close
        } else if n == 9 {
            OpCode::Ping
        } else if n == 10 {
            OpCode::Pong
        } else {
            OpCode::Reserved(n)
        }
    }

    /// Close, Ping and Pong are control opcodes: never fragmented,
    /// payload at most 125 bytes.
    pub open spec fn spec_is_control(self) -> bool {
        self == OpCode::Close || self == OpCode::Ping || self == OpCode::Pong
    }

    /// Executable mirror of `spec_nibble`.
    pub fn nibble(self) -> (r: u8)
        ensures
            r == self.spec_nibble(),
    {
        match self {
            OpCode::Continuation => 0,
            OpCode::Text => 1,
            OpCode::Binary => 2,
            OpCode::Close => 8,
            OpCode::Ping => 9,
            OpCode::Pong => 10,
            OpCode::Reserved(n) => n,
        }
    }

    /// Executable mirror of `spec_of_nibble`.
    pub fn of_nibble(n: u8) -> (r: OpCode)
        ensures
            r == OpCode::spec_of_nibble(n),
    {
        if n == 0 {
            OpCode::Continuation
        } else if n == 1 {
            OpCode::Text
        } else if n == 2 {
            OpCode::Binary
        } else if n == 8 {
            OpCode::Close
        } else if n == 9 {
            OpCode::Ping
        } else if n == 10 {
            OpCode::Pong
        } else {
            OpCode::Reserved(n)
        }
    }

    /// Executable mirror of `spec_is_control`.
    pub fn is_control(self) -> (r: bool)
        ensures
            r == self.spec_is_control(),
    {
        match self {
            OpCode::Close | OpCode::Ping | OpCode::Pong => true,
            _ => false,
        }
    }
}

/// One WebSocket frame as held in memory.
pub struct Frame {
    /// Final fragment marker.
    pub fin: bool,
    /// Reserved bit 1; false unless an extension claims it.
    pub rsv1: bool,
    /// Reserved bit 2.
    pub rsv2: bool,
    /// Reserved bit 3.
    pub rsv3: bool,
    /// The frame's opcode.
    pub opcode: OpCode,
    /// Whether the payload is masked on the wire.
    pub masked: bool,
    /// The 4-byte mask key, big endian; 0 when unmasked.
    pub mask: u32,
    /// Logical payload length, independent of the wire encoding width.
    pub payload_length: u64,
    /// Extension data: an opaque slot, passed through unchanged.
    pub extension_data: Option<Vec<u8>>,
    /// Application data, after unmasking.
    pub application_data: Option<Vec<u8>>,
}

/// The mathematical image of a `Frame`.
#[verifier::ext_equal]
pub struct FrameView {
    pub fin: bool,
    pub rsv1: bool,
    pub rsv2: bool,
    pub rsv3: bool,
    pub opcode: OpCode,
    pub masked: bool,
    pub mask: u32,
    pub payload_length: u64,
    pub extension_data: Option<Seq<u8>>,
    pub application_data: Option<Seq<u8>>,
}

impl View for Frame {
    type V = FrameView;

    open spec fn view(&self) -> FrameView {
        FrameView {
            fin: self.fin,
            rsv1: self.rsv1,
            rsv2: self.rsv2,
            rsv3: self.rsv3,
            opcode: self.opcode,
            masked: self.masked,
            mask: self.mask,
            payload_length: self.payload_length,
            extension_data: match self.extension_data {
                Some(ref d) => Some(d@),
                None => None,
            },
            application_data: match self.application_data {
                Some(ref d) => Some(d@),
                None => None,
            },
        }
    }
}

impl FrameView {
    /// The bytes of the extension slot, empty when absent.
    pub open spec fn ext_bytes(self) -> Seq<u8> {
        match self.extension_data {
            Some(d) => d,
            None => Seq::empty(),
        }
    }

    /// The bytes of the application data, empty when absent.
    pub open spec fn app_bytes(self) -> Seq<u8> {
        match self.application_data {
            Some(d) => d,
            None => Seq::empty(),
        }
    }

    /// The whole logical payload: extension data then application data.
    pub open spec fn payload(self) -> Seq<u8> {
        self.ext_bytes() + self.app_bytes()
    }

    /// A frame the codec will accept for encoding: reserved bits clear,
    /// control frames final and short, the declared length true of the
    /// payload and small enough for the 63-bit wire limit.
    pub open spec fn wf(self) -> bool {
        &&& !self.rsv1 && !self.rsv2 && !self.rsv3
        &&& self.opcode.spec_is_control() ==> self.fin && self.payload_length <= 125
        &&& self.payload_length < 0x8000_0000_0000_0000u64
        &&& self.payload_length == self.payload().len()
        &&& match self.opcode {
            OpCode::Reserved(n) => n <= 15 && n != 0 && n != 1 && n != 2 && n != 8 && n != 9
                && n != 10,
            _ => true,
        }
    }

    /// The shape decoding always produces: no extension data, and the
    /// application slot absent exactly on an empty payload. Well-formed
    /// canonical frames round-trip bit for bit.
    pub open spec fn canonical(self) -> bool {
        &&& self.wf()
        &&& self.extension_data is None
        &&& match self.application_data {
            Some(d) => d.len() > 0,
            None => true,
        }
        &&& !self.masked ==> self.mask == 0
    }
}

impl Frame {
    /// A frame with everything cleared: a final, unmasked, empty
    /// continuation frame to be filled in.
    pub fn empty() -> (r: Frame)
        ensures
            r@ == (FrameView {
                fin: false,
                rsv1: false,
                rsv2: false,
                rsv3: false,
                opcode: OpCode::Continuation,
                masked: false,
                mask: 0,
                payload_length: 0,
                extension_data: None,
                application_data: None,
            }),
    {
        Frame {
            fin: false,
            rsv1: false,
            rsv2: false,
            rsv3: false,
            opcode: OpCode::Continuation,
            masked: false,
            mask: 0,
            payload_length: 0,
            extension_data: None,
            application_data: None,
        }
    }
}

} // verus!
