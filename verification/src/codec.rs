//! The Base Frame Codec: a stateless, resumable transform between raw
//! bytes and Base Frames, enforcing every framing validity rule.
//!
//! Decoding never blocks and never consumes on failure: it reports how
//! many bytes one whole frame took, or that more bytes are needed, or a
//! fatal protocol violation. Encoding always emits the canonical minimal
//! payload-length width.

use vstd::prelude::*;

use crate::ProtocolError;
use crate::frame::{Frame, FrameView, OpCode};
use crate::mask::{apply_mask, key_bytes, mask_with};

verus! {

/// A 16-bit big-endian value from two bytes.
pub open spec fn be2(h: u8, l: u8) -> u64 {
    ((h as u64) << 8) | (l as u64)
}

/// A 32-bit big-endian value from four bytes.
pub open spec fn be4(a: u8, b: u8, c: u8, d: u8) -> u32 {
    ((a as u32) << 24) | ((b as u32) << 16) | ((c as u32) << 8) | (d as u32)
}

/// A 64-bit big-endian value from eight bytes.
pub open spec fn be8(a: u8, b: u8, c: u8, d: u8, e: u8, f: u8, g: u8, h: u8) -> u64 {
    ((a as u64) << 56) | ((b as u64) << 48) | ((c as u64) << 40) | ((d as u64) << 32) | ((
    e as u64) << 24) | ((f as u64) << 16) | ((g as u64) << 8) | (h as u64)
}

/// The first wire octet: fin, the three reserved bits, and the opcode
/// nibble.
pub open spec fn byte0(v: FrameView) -> u8 {
    let x0 = v.opcode.spec_nibble();
    let x1 = if v.fin {
        x0 | 0x80
    } else {
        x0
    };
    let x2 = if v.rsv1 {
        x1 | 0x40
    } else {
        x1
    };
    let x3 = if v.rsv2 {
        x2 | 0x20
    } else {
        x2
    };
    if v.rsv3 {
        x3 | 0x10
    } else {
        x3
    }
}

/// The 7-bit base payload length: the length itself below 126, else the
/// marker announcing a 16- or 64-bit extended length.
pub open spec fn base_len7(len: u64) -> u8 {
    if len < 126 {
        len as u8
    } else if len < 65536 {
        126
    } else {
        127
    }
}

/// The second wire octet: the mask flag and the base payload length.
pub open spec fn byte1(v: FrameView) -> u8 {
    let b = base_len7(v.payload_length);
    if v.masked {
        b | 0x80
    } else {
        b
    }
}

/// The extended payload length field: absent, 2 bytes, or 8 bytes,
/// big endian, chosen minimally.
pub open spec fn len_ext_bytes(len: u64) -> Seq<u8> {
    if len < 126 {
        Seq::empty()
    } else if len < 65536 {
        Seq::empty().push(((len >> 8) & 0xff) as u8).push((len & 0xff) as u8)
    } else {
        Seq::empty().push(((len >> 56) & 0xff) as u8).push(((len >> 48) & 0xff) as u8).push(
            ((len >> 40) & 0xff) as u8,
        ).push(((len >> 32) & 0xff) as u8).push(((len >> 24) & 0xff) as u8).push(
            ((len >> 16) & 0xff) as u8,
        ).push(((len >> 8) & 0xff) as u8).push((len & 0xff) as u8)
    }
}

/// The mask key field: the four key bytes on a masked frame, else absent.
pub open spec fn mask_field(v: FrameView) -> Seq<u8> {
    if v.masked {
        key_bytes(v.mask)
    } else {
        Seq::empty()
    }
}

/// The payload as it crosses the wire: masked when the frame is masked.
pub open spec fn wire_payload(v: FrameView) -> Seq<u8> {
    if v.masked {
        mask_with(v.payload(), key_bytes(v.mask))
    } else {
        v.payload()
    }
}

/// The complete wire image of a frame.
pub open spec fn frame_bytes(v: FrameView) -> Seq<u8> {
    Seq::empty().push(byte0(v)).push(byte1(v)) + len_ext_bytes(v.payload_length) + mask_field(v)
        + wire_payload(v)
}

/// What decoding a buffer yields, mathematically.
#[verifier::ext_equal]
pub enum ParseOutcome {
    /// The buffer does not yet hold one whole frame.
    Incomplete,
    /// The buffer starts with bytes no frame may have.
    Violation(ProtocolError),
    /// One whole frame, and how many bytes of the buffer it took.
    Parsed(FrameView, int),
}

/// The tail of a parse, once the header flags and the payload length are
/// known: the mask key if the frame is masked, then the payload.
pub open spec fn parse_after_len(
    buf: Seq<u8>,
    off: int,
    fin: bool,
    op: OpCode,
    masked: bool,
    len: u64,
) -> ParseOutcome {
    if masked && buf.len() < off + 4 {
        ParseOutcome::Incomplete
    } else {
        let mask = if masked {
            be4(buf[off], buf[off + 1], buf[off + 2], buf[off + 3])
        } else {
            0u32
        };
        let poff = if masked {
            off + 4
        } else {
            off
        };
        if buf.len() < poff + len {
            ParseOutcome::Incomplete
        } else {
            let raw = buf.subrange(poff, poff + len);
            let data = if masked {
                mask_with(raw, key_bytes(mask))
            } else {
                raw
            };
            ParseOutcome::Parsed(
                FrameView {
                    fin,
                    rsv1: false,
                    rsv2: false,
                    rsv3: false,
                    opcode: op,
                    masked,
                    mask,
                    payload_length: len,
                    extension_data: None,
                    application_data: if len == 0 {
                        None
                    } else {
                        Some(data)
                    },
                },
                poff + len,
            )
        }
    }
}

/// One whole parse of the start of `buf`, in the given role: a client
/// requires incoming frames unmasked, a server requires them masked.
/// Over-wide, non-canonical length encodings are accepted.
pub open spec fn parse_frame(buf: Seq<u8>, client: bool) -> ParseOutcome {
    if buf.len() < 2 {
        ParseOutcome::Incomplete
    } else {
        let b0 = buf[0];
        let b1 = buf[1];
        let fin = (b0 & 0x80) != 0;
        let op = OpCode::spec_of_nibble(b0 & 0x0f);
        let masked = (b1 & 0x80) != 0;
        let bl = b1 & 0x7f;
        if (b0 & 0x40) != 0 || (b0 & 0x20) != 0 || (b0 & 0x10) != 0 {
            ParseOutcome::Violation(ProtocolError::ReservedBits)
        } else if op.spec_is_control() && !fin {
            ParseOutcome::Violation(ProtocolError::NonFinalControl)
        } else if op.spec_is_control() && bl > 125 {
            ParseOutcome::Violation(ProtocolError::OversizedControl)
        } else if masked == client {
            ParseOutcome::Violation(ProtocolError::MaskDirection)
        } else if bl < 126 {
            parse_after_len(buf, 2, fin, op, masked, bl as u64)
        } else if bl == 126 {
            if buf.len() < 4 {
                ParseOutcome::Incomplete
            } else {
                parse_after_len(buf, 4, fin, op, masked, be2(buf[2], buf[3]))
            }
        } else {
            if buf.len() < 10 {
                ParseOutcome::Incomplete
            } else if (buf[2] & 0x80) != 0 {
                ParseOutcome::Violation(ProtocolError::BadLengthEncoding)
            } else {
                parse_after_len(
                    buf,
                    10,
                    fin,
                    op,
                    masked,
                    be8(buf[2], buf[3], buf[4], buf[5], buf[6], buf[7], buf[8], buf[9]),
                )
            }
        }
    }
}

/// What a decode call reports.
pub enum Decoded {
    /// One whole frame, and how many leading bytes of the buffer it took;
    /// the caller drops exactly those bytes before the next call.
    Complete(Frame, usize),
    /// Not enough bytes buffered yet: supply more and call again.
    Incomplete,
    /// The buffer can never begin a valid frame.
    Violation(ProtocolError),
}

impl Decoded {
    /// The mathematical image of this report.
    pub open spec fn outcome(self) -> ParseOutcome {
        match self {
            Decoded::Complete(f, n) => ParseOutcome::Parsed(f@, n as int),
            Decoded::Incomplete => ParseOutcome::Incomplete,
            Decoded::Violation(e) => ParseOutcome::Violation(e),
        }
    }
}

/// Decode one Base Frame from the start of `buf`, without consuming it.
///
/// In the client role incoming frames must be unmasked, in the server
/// role masked; a masked payload is unmasked before it is returned.
#[verifier::loop_isolation(false)]
pub fn decode(buf: &Vec<u8>, client: bool) -> (r: Decoded)
    ensures
        r.outcome() == parse_frame(buf@, client),
{
    if buf.len() < 2 {
        return Decoded::Incomplete;
    }
    let b0 = buf[0];
    let b1 = buf[1];
    let fin = (b0 & 0x80) != 0;
    let opcode = OpCode::of_nibble(b0 & 0x0f);
    let masked = (b1 & 0x80) != 0;
    let bl = b1 & 0x7f;
    proof {
        assert(b1 & 0x7f <= 127) by (bit_vector);
    }
    if (b0 & 0x40) != 0 || (b0 & 0x20) != 0 || (b0 & 0x10) != 0 {
        return Decoded::Violation(ProtocolError::ReservedBits);
    }
    if opcode.is_control() && !fin {
        return Decoded::Violation(ProtocolError::NonFinalControl);
    }
    if opcode.is_control() && bl > 125 {
        return Decoded::Violation(ProtocolError::OversizedControl);
    }
    if masked == client {
        return Decoded::Violation(ProtocolError::MaskDirection);
    }
    let mut off: usize = 2;
    let mut len: u64 = bl as u64;
    if bl == 126 {
        if buf.len() < 4 {
            return Decoded::Incomplete;
        }
        len = ((buf[2] as u64) << 8) | (buf[3] as u64);
        off = 4;
    } else if bl == 127 {
        if buf.len() < 10 {
            return Decoded::Incomplete;
        }
        if (buf[2] & 0x80) != 0 {
            return Decoded::Violation(ProtocolError::BadLengthEncoding);
        }
        len = ((buf[2] as u64) << 56) | ((buf[3] as u64) << 48) | ((buf[4] as u64) << 40) | ((
        buf[5] as u64) << 32) | ((buf[6] as u64) << 24) | ((buf[7] as u64) << 16) | ((
        buf[8] as u64) << 8) | (buf[9] as u64);
        off = 10;
    }
    let mut mask_val: u32 = 0;
    if masked {
        if buf.len() < off + 4 {
            return Decoded::Incomplete;
        }
        mask_val = ((buf[off] as u32) << 24) | ((buf[off + 1] as u32) << 16) | ((buf[off
            + 2] as u32) << 8) | (buf[off + 3] as u32);
        off = off + 4;
    }
    let remaining: usize = buf.len() - off;
    if (remaining as u64) < len {
        proof {
            assert(buf@.len() < off + len);
        }
        return Decoded::Incomplete;
    }
    let plen: usize = len as usize;
    let mut raw: Vec<u8> = Vec::new();
    let mut i: usize = 0;
    while i < plen
        invariant
            i <= plen,
            raw@.len() == i,
            forall|j: int| 0 <= j < i ==> raw@[j] == buf@[off + j],
        decreases plen - i,
    {
        raw.push(buf[off + i]);
        i = i + 1;
    }
    proof {
        assert(raw@ =~= buf@.subrange(off as int, off + len));
    }
    let data = if masked {
        apply_mask(&raw, mask_val)
    } else {
        raw
    };
    let frame = Frame {
        fin,
        rsv1: false,
        rsv2: false,
        rsv3: false,
        opcode,
        masked,
        mask: mask_val,
        payload_length: len,
        extension_data: None,
        application_data: if plen == 0 {
            None
        } else {
            Some(data)
        },
    };
    let r = Decoded::Complete(frame, off + plen);
    proof {
        assert(r.outcome() =~~= parse_frame(buf@, client));
    }
    r
}

/// The frame header on the wire: the two flag octets, the extended
/// length field, and the mask key of a masked frame.
pub open spec fn header_bytes(v: FrameView) -> Seq<u8> {
    Seq::empty().push(byte0(v)).push(byte1(v)) + len_ext_bytes(v.payload_length) + mask_field(v)
}

/// Build the wire header of a frame.
fn write_header(f: &Frame) -> (r: Vec<u8>)
    ensures
        r@ == header_bytes(f@),
{
    let mut b0: u8 = f.opcode.nibble();
    if f.fin {
        b0 = b0 | 0x80;
    }
    if f.rsv1 {
        b0 = b0 | 0x40;
    }
    if f.rsv2 {
        b0 = b0 | 0x20;
    }
    if f.rsv3 {
        b0 = b0 | 0x10;
    }
    let len: u64 = f.payload_length;
    let mut b1: u8 = if len < 126 {
        len as u8
    } else if len < 65536 {
        126
    } else {
        127
    };
    if f.masked {
        b1 = b1 | 0x80;
    }
    let mut out: Vec<u8> = Vec::new();
    out.push(b0);
    out.push(b1);
    if len >= 126 && len < 65536 {
        out.push(((len >> 8) & 0xff) as u8);
        out.push((len & 0xff) as u8);
    } else if len >= 65536 {
        out.push(((len >> 56) & 0xff) as u8);
        out.push(((len >> 48) & 0xff) as u8);
        out.push(((len >> 40) & 0xff) as u8);
        out.push(((len >> 32) & 0xff) as u8);
        out.push(((len >> 24) & 0xff) as u8);
        out.push(((len >> 16) & 0xff) as u8);
        out.push(((len >> 8) & 0xff) as u8);
        out.push((len & 0xff) as u8);
    }
    if f.masked {
        let m = f.mask;
        out.push(((m >> 24) & 0xff) as u8);
        out.push(((m >> 16) & 0xff) as u8);
        out.push(((m >> 8) & 0xff) as u8);
        out.push((m & 0xff) as u8);
    }
    proof {
        assert(out@ =~= header_bytes(f@));
    }
    out
}

/// Gather the logical payload: extension data then application data.
#[verifier::loop_isolation(false)]
fn payload_vec(f: &Frame) -> (r: Vec<u8>)
    ensures
        r@ == f@.payload(),
{
    let mut data: Vec<u8> = Vec::new();
    match f.extension_data {
        Some(ref e) => {
            let mut i: usize = 0;
            while i < e.len()
                invariant
                    i <= e.len(),
                    data@ == e@.subrange(0, i as int),
                decreases e.len() - i,
            {
                data.push(e[i]);
                i = i + 1;
                proof {
                    assert(data@ =~= e@.subrange(0, i as int));
                }
            }
            proof {
                assert(data@ =~= e@);
            }
        },
        None => {},
    }
    let ghost ext_done = data@;
    match f.application_data {
        Some(ref a) => {
            let mut i: usize = 0;
            while i < a.len()
                invariant
                    i <= a.len(),
                    data@ == ext_done + a@.subrange(0, i as int),
                decreases a.len() - i,
            {
                data.push(a[i]);
                i = i + 1;
                proof {
                    assert(data@ =~= ext_done + a@.subrange(0, i as int));
                }
            }
            proof {
                assert(data@ =~= ext_done + a@);
            }
        },
        None => {
            proof {
                assert(data@ =~= ext_done + Seq::<u8>::empty());
            }
        },
    }
    proof {
        assert(data@ =~= f@.payload());
    }
    data
}

/// Encode one Base Frame into its wire image: header, minimal-width
/// length field, mask key on a masked frame, then the payload, masked
/// exactly when the frame says so.
#[verifier::loop_isolation(false)]
pub fn encode(f: &Frame) -> (r: Vec<u8>)
    ensures
        r@ == frame_bytes(f@),
{
    let mut out = write_header(f);
    let data = payload_vec(f);
    let wire = if f.masked {
        apply_mask(&data, f.mask)
    } else {
        data
    };
    let mut i: usize = 0;
    let ghost head = out@;
    while i < wire.len()
        invariant
            i <= wire.len(),
            out@ == head + wire@.subrange(0, i as int),
        decreases wire.len() - i,
    {
        out.push(wire[i]);
        i = i + 1;
        proof {
            assert(out@ =~= head + wire@.subrange(0, i as int));
        }
    }
    proof {
        assert(wire@.subrange(0, wire@.len() as int) =~= wire@);
        assert(out@ =~= frame_bytes(f@));
    }
    out
}

/// Parsing the tail of a frame's own wire image recovers the frame: the
/// mask key round-trips through its four bytes, and a masked payload is
/// unmasked back to the application data.
proof fn lemma_parse_tail(v: FrameView)
    requires
        v.canonical(),
    ensures
        parse_after_len(
            frame_bytes(v),
            2 + len_ext_bytes(v.payload_length).len() as int,
            v.fin,
            v.opcode,
            v.masked,
            v.payload_length,
        ) == ParseOutcome::Parsed(v, frame_bytes(v).len() as int),
{
    let bs = frame_bytes(v);
    let p = Seq::empty().push(byte0(v)).push(byte1(v));
    let lext = len_ext_bytes(v.payload_length);
    let mf = mask_field(v);
    let wp = wire_payload(v);
    let hoff = 2 + lext.len() as int;
    let len = v.payload_length;
    assert(bs.len() == 2 + lext.len() + mf.len() + wp.len());
    assert(wp.len() == v.payload().len());
    assert(v.payload().len() == len);
    let m = v.mask;
    if v.masked {
        assert(mf.len() == 4);
        assert(bs.len() >= hoff + 4);
        assert forall|j: int| 0 <= j < 4 implies bs[hoff + j] == mf[j] by {
            assert(bs[hoff + j] == ((p + lext) + mf)[hoff + j]);
        }
        assert(mf[0] == ((m >> 24) & 0xff) as u8);
        assert(mf[1] == ((m >> 16) & 0xff) as u8);
        assert(mf[2] == ((m >> 8) & 0xff) as u8);
        assert(mf[3] == (m & 0xff) as u8);
        assert(be4(
            ((m >> 24) & 0xff) as u8,
            ((m >> 16) & 0xff) as u8,
            ((m >> 8) & 0xff) as u8,
            (m & 0xff) as u8,
        ) == m) by (bit_vector);
    }
    let poff = if v.masked {
        hoff + 4
    } else {
        hoff
    };
    assert(bs.len() == poff + len);
    assert forall|i: int| 0 <= i < wp.len() implies bs[poff + i] == wp[i] by {
        assert(poff + i >= ((p + lext) + mf).len());
    }
    assert(bs.subrange(poff, poff + len) =~= wp);
    if v.masked {
        crate::mask::lemma_mask_involution(v.payload(), key_bytes(m));
        assert(mask_with(wp, key_bytes(m)) == v.payload());
    }
    let parsed = parse_after_len(bs, hoff, v.fin, v.opcode, v.masked, len);
    if len == 0 {
        assert(v.payload().len() == 0);
        assert(v.application_data is None);
        assert(parsed =~~= ParseOutcome::Parsed(v, poff + len));
    } else {
        assert(v.application_data is Some);
        assert(v.payload() =~= v.application_data->0);
        assert(parsed =~~= ParseOutcome::Parsed(v, poff + len));
    }
}

/// Round trip: decoding the wire image of a well-formed canonical frame,
/// in the role that matches its masking direction, yields exactly that
/// frame and consumes exactly its wire image. This covers every payload
/// length, across all three length-encoding widths.
pub proof fn lemma_parse_frame_bytes(v: FrameView, client: bool)
    requires
        v.canonical(),
        client == !v.masked,
    ensures
        parse_frame(frame_bytes(v), client) == ParseOutcome::Parsed(
            v,
            frame_bytes(v).len() as int,
        ),
{
    let bs = frame_bytes(v);
    let p = Seq::empty().push(byte0(v)).push(byte1(v));
    let lext = len_ext_bytes(v.payload_length);
    let mf = mask_field(v);
    let wp = wire_payload(v);
    let len = v.payload_length;
    let n = v.opcode.spec_nibble();
    assert(n <= 15);
    assert(OpCode::spec_of_nibble(n) == v.opcode);
    assert(bs.len() == 2 + lext.len() + mf.len() + wp.len());
    assert(bs[0] == p[0]);
    assert(bs[1] == p[1]);
    let b0 = byte0(v);
    let b1 = byte1(v);
    assert(b0 == if v.fin {
        n | 0x80
    } else {
        n
    });
    assert(((n | 0x80) & 0x80) != 0 && ((n | 0x80) & 0x40) == 0 && ((n | 0x80) & 0x20) == 0 && ((n
        | 0x80) & 0x10) == 0 && ((n | 0x80) & 0x0f) == n) by (bit_vector)
        requires
            n <= 15,
    ;
    assert((n & 0x80) == 0 && (n & 0x40) == 0 && (n & 0x20) == 0 && (n & 0x10) == 0 && (n & 0x0f)
        == n) by (bit_vector)
        requires
            n <= 15,
    ;
    assert(((b0 & 0x80) != 0) == v.fin);
    assert((b0 & 0x0f) == n);
    let bl7 = base_len7(len);
    assert(bl7 <= 127);
    assert(b1 == if v.masked {
        bl7 | 0x80
    } else {
        bl7
    });
    assert(((bl7 | 0x80) & 0x80) != 0 && ((bl7 | 0x80) & 0x7f) == bl7) by (bit_vector)
        requires
            bl7 <= 127,
    ;
    assert((bl7 & 0x80) == 0 && (bl7 & 0x7f) == bl7) by (bit_vector)
        requires
            bl7 <= 127,
    ;
    assert(((b1 & 0x80) != 0) == v.masked);
    assert((b1 & 0x7f) == bl7);
    if v.opcode.spec_is_control() {
        assert(v.fin && len <= 125);
        assert(bl7 == len as u8);
        assert(bl7 <= 125);
    }
    lemma_parse_tail(v);
    if len < 126 {
        assert(lext.len() == 0);
        assert(bl7 as u64 == len);
    } else if len < 65536 {
        assert(bl7 == 126);
        assert(lext.len() == 2);
        assert(bs.len() >= 4);
        assert(bs[2] == lext[0]);
        assert(bs[3] == lext[1]);
        assert(lext[0] == ((len >> 8) & 0xff) as u8);
        assert(lext[1] == (len & 0xff) as u8);
        assert(be2(((len >> 8) & 0xff) as u8, (len & 0xff) as u8) == len) by (bit_vector)
            requires
                len < 65536,
        ;
    } else {
        assert(bl7 == 127);
        assert(lext.len() == 8);
        assert(bs.len() >= 10);
        assert forall|j: int| 0 <= j < 8 implies bs[2 + j] == lext[j] by {
            assert(bs[2 + j] == ((p + lext) + mf)[2 + j]);
        }
        assert(len < 0x8000_0000_0000_0000) by {
            assert(v.canonical());
        }
        assert(((((len >> 56) & 0xff) as u8) & 0x80) == 0) by (bit_vector)
            requires
                len < 0x8000_0000_0000_0000,
        ;
        assert(be8(
            ((len >> 56) & 0xff) as u8,
            ((len >> 48) & 0xff) as u8,
            ((len >> 40) & 0xff) as u8,
            ((len >> 32) & 0xff) as u8,
            ((len >> 24) & 0xff) as u8,
            ((len >> 16) & 0xff) as u8,
            ((len >> 8) & 0xff) as u8,
            (len & 0xff) as u8,
        ) == len) by (bit_vector);
    }
}

/// A Base Frame Codec instance, configured once for its role. A client
/// codec requires incoming frames unmasked, a server codec requires
/// them masked; the role is set at construction and immutable after.
pub struct FrameCodec {
    client: bool,
}

impl FrameCodec {
    /// The configured role.
    pub closed spec fn is_client(self) -> bool {
        self.client
    }

    /// A codec for the given role.
    pub fn new(client: bool) -> (r: FrameCodec)
        ensures
            r.is_client() == client,
    {
        FrameCodec { client }
    }

    /// The role this codec was built with.
    pub fn client(&self) -> (r: bool)
        ensures
            r == self.is_client(),
    {
        self.client
    }

    /// Decode one frame from the start of `buf`, in this codec's role.
    pub fn decode(&self, buf: &Vec<u8>) -> (r: Decoded)
        ensures
            r.outcome() == parse_frame(buf@, self.is_client()),
    {
        decode(buf, self.client)
    }

    /// Encode one frame into its wire image.
    pub fn encode(&self, f: &Frame) -> (r: Vec<u8>)
        ensures
            r@ == frame_bytes(f@),
    {
        encode(f)
    }
}

/// Drop the first `n` bytes of a buffer: how a caller consumes exactly
/// the bytes a completed decode reported, keeping the excess for the
/// next frame.
#[verifier::loop_isolation(false)]
pub fn drain_prefix(buf: &mut Vec<u8>, n: usize)
    requires
        n <= old(buf).len(),
    ensures
        final(buf)@ == old(buf)@.subrange(n as int, old(buf)@.len() as int),
{
    let mut rest: Vec<u8> = Vec::new();
    let mut i: usize = n;
    while i < buf.len()
        invariant
            n <= i <= buf.len(),
            buf@ == old(buf)@,
            rest@ == old(buf)@.subrange(n as int, i as int),
        decreases buf.len() - i,
    {
        rest.push(buf[i]);
        i = i + 1;
        proof {
            assert(rest@ =~= old(buf)@.subrange(n as int, i as int));
        }
    }
    proof {
        assert(rest@ =~= old(buf)@.subrange(n as int, old(buf)@.len() as int));
    }
    *buf = rest;
}

} // verus!
