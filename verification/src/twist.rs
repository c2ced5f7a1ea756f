//! The Twist Codec: assembles Base Frames into WebSocket messages and
//! takes messages apart into frames, tracking per-connection
//! fragmentation state.

use vstd::prelude::*;

use crate::ProtocolError;
use crate::frame::{Frame, FrameView, OpCode};
use crate::message::{CloseData, CloseView, MessageView, WebSocketMessage};

verus! {

/// What one assembly step yields: the accumulator afterwards, and either
/// a completed message, nothing yet, or a protocol violation.
#[verifier::ext_equal]
pub struct StepResult {
    pub accum: Option<(OpCode, Seq<u8>)>,
    pub output: Result<Option<MessageView>, ProtocolError>,
}

/// The Close message carried by a close payload: empty means no code,
/// two or more bytes mean a big-endian code then the reason; a single
/// byte cannot carry a code and is a violation.
pub open spec fn close_of_payload(p: Seq<u8>) -> Result<Option<CloseView>, ProtocolError> {
    if p.len() == 0 {
        Ok(None)
    } else if p.len() == 1 {
        Err(ProtocolError::BadClosePayload)
    } else {
        Ok(
            Some(
                CloseView {
                    code: ((p[0] as u16) << 8) | (p[1] as u16),
                    reason: p.subrange(2, p.len() as int),
                },
            ),
        )
    }
}

/// The data message an accumulator's opcode stands for.
pub open spec fn data_message(op: OpCode, data: Seq<u8>) -> MessageView {
    if op == OpCode::Binary {
        MessageView::Binary(data)
    } else {
        MessageView::Text(data)
    }
}

/// One assembly step. Control frames pass through untouched by the
/// accumulator; data frames open it, continuations extend it and, on a
/// final fragment, close it and emit the assembled message; a
/// continuation without an open accumulator, or a new data frame over an
/// open one, is a violation that leaves the accumulator as it was.
pub open spec fn step_spec(st: Option<(OpCode, Seq<u8>)>, f: FrameView) -> StepResult {
    match f.opcode {
        OpCode::Close => match close_of_payload(f.app_bytes()) {
            Ok(c) => StepResult { accum: st, output: Ok(Some(MessageView::Close(c))) },
            Err(e) => StepResult { accum: st, output: Err(e) },
        },
        OpCode::Ping => StepResult {
            accum: st,
            output: Ok(Some(MessageView::Ping(f.application_data))),
        },
        OpCode::Pong => StepResult {
            accum: st,
            output: Ok(Some(MessageView::Pong(f.application_data))),
        },
        OpCode::Text | OpCode::Binary => {
            if st is Some {
                StepResult { accum: st, output: Err(ProtocolError::Fragmentation) }
            } else if f.fin {
                StepResult { accum: None, output: Ok(Some(data_message(f.opcode, f.app_bytes()))) }
            } else {
                StepResult { accum: Some((f.opcode, f.app_bytes())), output: Ok(None) }
            }
        },
        OpCode::Continuation => match st {
            None => StepResult { accum: None, output: Err(ProtocolError::Fragmentation) },
            Some((op, acc)) => {
                if f.fin {
                    StepResult { accum: None, output: Ok(Some(data_message(op, acc + f.app_bytes()))) }
                } else {
                    StepResult { accum: Some((op, acc + f.app_bytes())), output: Ok(None) }
                }
            },
        },
        OpCode::Reserved(_) => StepResult { accum: st, output: Err(ProtocolError::ReservedOpcode) },
    }
}

/// The image of an assembly step's report.
pub open spec fn out_view(r: Result<Option<WebSocketMessage>, ProtocolError>) -> Result<
    Option<MessageView>,
    ProtocolError,
> {
    match r {
        Ok(Some(m)) => Ok(Some(m@)),
        Ok(None) => Ok(None),
        Err(e) => Err(e),
    }
}

/// The in-progress fragmented message: its opcode and the application
/// data received so far.
pub struct Accum {
    pub opcode: OpCode,
    pub data: Vec<u8>,
}

/// The stateful assembly side of the Twist Codec: one per connection.
pub struct TwistCodec {
    pub accum: Option<Accum>,
}

impl TwistCodec {
    /// The accumulator's mathematical image.
    pub open spec fn accum_view(self) -> Option<(OpCode, Seq<u8>)> {
        match self.accum {
            Some(a) => Some((a.opcode, a.data@)),
            None => None,
        }
    }

    /// A fresh codec with no message in progress.
    pub fn new() -> (r: TwistCodec)
        ensures
            r.accum_view() is None,
    {
        TwistCodec { accum: None }
    }

    /// Feed one decoded Base Frame in; get back the completed message if
    /// this frame finished one, nothing if assembly continues, or the
    /// protocol violation the frame committed.
    pub fn on_frame(&mut self, f: Frame) -> (r: Result<Option<WebSocketMessage>, ProtocolError>)
        ensures
            final(self).accum_view() == step_spec(old(self).accum_view(), f@).accum,
            out_view(r) == step_spec(old(self).accum_view(), f@).output,
    {
        let ghost pre = self.accum_view();
        let ghost fv = f@;
        let fin = f.fin;
        let opcode = f.opcode;
        let res: Result<Option<WebSocketMessage>, ProtocolError> = match opcode {
            OpCode::Close => {
                let payload = match f.application_data {
                    Some(d) => d,
                    None => Vec::new(),
                };
                proof {
                    assert(payload@ =~= fv.app_bytes());
                }
                if payload.len() == 0 {
                    Ok(Some(WebSocketMessage::Close(None)))
                } else if payload.len() == 1 {
                    Err(ProtocolError::BadClosePayload)
                } else {
                    let code: u16 = ((payload[0] as u16) << 8) | (payload[1] as u16);
                    let mut reason: Vec<u8> = Vec::new();
                    let mut i: usize = 2;
                    while i < payload.len()
                        invariant
                            2 <= i <= payload.len(),
                            reason@ == payload@.subrange(2, i as int),
                        decreases payload.len() - i,
                    {
                        reason.push(payload[i]);
                        i = i + 1;
                        proof {
                            assert(reason@ =~= payload@.subrange(2, i as int));
                        }
                    }
                    Ok(Some(WebSocketMessage::Close(Some(CloseData { code, reason }))))
                }
            },
            OpCode::Ping => Ok(Some(WebSocketMessage::Ping(f.application_data))),
            OpCode::Pong => Ok(Some(WebSocketMessage::Pong(f.application_data))),
            OpCode::Text | OpCode::Binary => {
                if self.accum.is_some() {
                    Err(ProtocolError::Fragmentation)
                } else {
                    let data = match f.application_data {
                        Some(d) => d,
                        None => Vec::new(),
                    };
                    proof {
                        assert(data@ =~= fv.app_bytes());
                    }
                    if fin {
                        if opcode == OpCode::Binary {
                            Ok(Some(WebSocketMessage::Binary(data)))
                        } else {
                            Ok(Some(WebSocketMessage::Text(data)))
                        }
                    } else {
                        self.accum = Some(Accum { opcode, data });
                        Ok(None)
                    }
                }
            },
            OpCode::Continuation => {
                let cur = self.accum.take();
                match cur {
                    None => Err(ProtocolError::Fragmentation),
                    Some(mut a) => {
                        let mut chunk = match f.application_data {
                            Some(d) => d,
                            None => Vec::new(),
                        };
                        proof {
                            assert(chunk@ =~= fv.app_bytes());
                        }
                        a.data.append(&mut chunk);
                        if fin {
                            if a.opcode == OpCode::Binary {
                                Ok(Some(WebSocketMessage::Binary(a.data)))
                            } else {
                                Ok(Some(WebSocketMessage::Text(a.data)))
                            }
                        } else {
                            self.accum = Some(a);
                            Ok(None)
                        }
                    },
                }
            },
            OpCode::Reserved(_) => Err(ProtocolError::ReservedOpcode),
        };
        proof {
            assert(self.accum_view() =~~= step_spec(pre, fv).accum);
            assert(out_view(res) =~~= step_spec(pre, fv).output);
        }
        res
    }
}

/// An optional payload, with an empty buffer standing down to absence:
/// the shape decoding produces.
pub open spec fn norm(o: Option<Seq<u8>>) -> Option<Seq<u8>> {
    match o {
        Some(d) => if d.len() == 0 {
            None
        } else {
            Some(d)
        },
        None => None,
    }
}

/// The frame payload a Close message carries: its code, big endian,
/// then the reason; absent when the message carries no code.
pub open spec fn close_payload(c: Option<CloseView>) -> Option<Seq<u8>> {
    match c {
        None => None,
        Some(cv) => Some(
            Seq::<u8>::empty().push(((cv.code >> 8) & 0xff) as u8).push((cv.code & 0xff) as u8)
                + cv.reason,
        ),
    }
}

/// The opcode a message goes out under.
pub open spec fn message_opcode(m: MessageView) -> OpCode {
    match m {
        MessageView::Text(_) => OpCode::Text,
        MessageView::Binary(_) => OpCode::Binary,
        MessageView::Ping(_) => OpCode::Ping,
        MessageView::Pong(_) => OpCode::Pong,
        MessageView::Close(_) => OpCode::Close,
    }
}

/// The application data a message goes out with.
pub open spec fn message_payload(m: MessageView) -> Option<Seq<u8>> {
    match m {
        MessageView::Text(d) => norm(Some(d)),
        MessageView::Binary(d) => norm(Some(d)),
        MessageView::Ping(d) => norm(d),
        MessageView::Pong(d) => norm(d),
        MessageView::Close(c) => close_payload(c),
    }
}

/// The length of that data.
pub open spec fn message_payload_len(m: MessageView) -> int {
    match message_payload(m) {
        Some(d) => d.len() as int,
        None => 0,
    }
}

/// A message the protocol can carry in one frame: control payloads at
/// most 125 bytes (a close reason at most 123, leaving room for its
/// code), data payloads under the 63-bit wire limit.
pub open spec fn sendable(m: MessageView) -> bool {
    match m {
        MessageView::Text(d) => d.len() < 0x8000_0000_0000_0000,
        MessageView::Binary(d) => d.len() < 0x8000_0000_0000_0000,
        MessageView::Ping(_) => message_payload_len(m) <= 125,
        MessageView::Pong(_) => message_payload_len(m) <= 125,
        MessageView::Close(c) => match c {
            None => true,
            Some(cv) => cv.reason.len() <= 123,
        },
    }
}

/// The single, final, unfragmented frame that carries a whole message.
pub open spec fn single_frame(m: MessageView, masked: bool, mask: u32) -> FrameView {
    FrameView {
        fin: true,
        rsv1: false,
        rsv2: false,
        rsv3: false,
        opcode: message_opcode(m),
        masked,
        mask: if masked {
            mask
        } else {
            0
        },
        payload_length: message_payload_len(m) as u64,
        extension_data: None,
        application_data: message_payload(m),
    }
}

/// Take a message apart into the one frame that carries it whole: the
/// disassembly side of the codec, for the unfragmented case.
pub fn message_to_frame(msg: WebSocketMessage, masked: bool, mask: u32) -> (r: Frame)
    requires
        sendable(msg@),
    ensures
        r@ == single_frame(msg@, masked, mask),
        r@.canonical(),
{
    let ghost mv = msg@;
    let opcode = match &msg {
        WebSocketMessage::Text(_) => OpCode::Text,
        WebSocketMessage::Binary(_) => OpCode::Binary,
        WebSocketMessage::Ping(_) => OpCode::Ping,
        WebSocketMessage::Pong(_) => OpCode::Pong,
        WebSocketMessage::Close(_) => OpCode::Close,
    };
    let data: Option<Vec<u8>> = match msg {
        WebSocketMessage::Text(d) => {
            if d.len() == 0 {
                None
            } else {
                Some(d)
            }
        },
        WebSocketMessage::Binary(d) => {
            if d.len() == 0 {
                None
            } else {
                Some(d)
            }
        },
        WebSocketMessage::Ping(d) => match d {
            Some(v) => {
                if v.len() == 0 {
                    None
                } else {
                    Some(v)
                }
            },
            None => None,
        },
        WebSocketMessage::Pong(d) => match d {
            Some(v) => {
                if v.len() == 0 {
                    None
                } else {
                    Some(v)
                }
            },
            None => None,
        },
        WebSocketMessage::Close(c) => match c {
            None => None,
            Some(cd) => {
                let mut p: Vec<u8> = Vec::new();
                p.push(((cd.code >> 8) & 0xff) as u8);
                p.push((cd.code & 0xff) as u8);
                let mut rsn = cd.reason;
                p.append(&mut rsn);
                proof {
                    assert(Some(p@) =~~= close_payload(mv->Close_0));
                }
                Some(p)
            },
        },
    };
    let plen: u64 = match &data {
        Some(v) => v.len() as u64,
        None => 0,
    };
    let frame = Frame {
        fin: true,
        rsv1: false,
        rsv2: false,
        rsv3: false,
        opcode,
        masked,
        mask: if masked {
            mask
        } else {
            0
        },
        payload_length: plen,
        extension_data: None,
        application_data: data,
    };
    proof {
        assert(frame@ =~~= single_frame(mv, masked, mask));
    }
    frame
}

/// Three-fragment reassembly: a non-final data frame, a non-final
/// continuation and a final continuation, fed in order to an idle
/// assembler, yield no message twice and then one data message holding
/// the three chunks joined in arrival order.
pub proof fn lemma_three_fragment_reassembly(f1: FrameView, f2: FrameView, f3: FrameView)
    requires
        f1.opcode == OpCode::Text || f1.opcode == OpCode::Binary,
        !f1.fin,
        f2.opcode == OpCode::Continuation,
        !f2.fin,
        f3.opcode == OpCode::Continuation,
        f3.fin,
    ensures
        ({
            let s1 = step_spec(None, f1);
            let s2 = step_spec(s1.accum, f2);
            let s3 = step_spec(s2.accum, f3);
            &&& s1.output == Ok::<Option<MessageView>, ProtocolError>(None)
            &&& s2.output == Ok::<Option<MessageView>, ProtocolError>(None)
            &&& s3.output == Ok::<Option<MessageView>, ProtocolError>(
                Some(data_message(f1.opcode, f1.app_bytes() + f2.app_bytes() + f3.app_bytes())),
            )
            &&& s3.accum is None
        }),
{
    let s1 = step_spec(None, f1);
    let s2 = step_spec(s1.accum, f2);
    let s3 = step_spec(s2.accum, f3);
    assert(f1.app_bytes() + f2.app_bytes() + f3.app_bytes() =~= (f1.app_bytes() + f2.app_bytes())
        + f3.app_bytes());
}

/// A new data frame over an open accumulator is a violation that
/// changes nothing: the in-progress message survives it.
pub proof fn lemma_data_frame_interrupts_fragments(st: Option<(OpCode, Seq<u8>)>, g: FrameView)
    requires
        st is Some,
        g.opcode == OpCode::Text || g.opcode == OpCode::Binary,
    ensures
        step_spec(st, g).output == Err::<Option<MessageView>, ProtocolError>(
            ProtocolError::Fragmentation,
        ),
        step_spec(st, g).accum == st,
{
}

/// A data payload's bytes.
pub open spec fn data_of(m: MessageView) -> Seq<u8> {
    match m {
        MessageView::Text(d) => d,
        MessageView::Binary(d) => d,
        _ => Seq::empty(),
    }
}

/// One fragment frame: final or not, under the given opcode, carrying
/// the given chunk.
pub open spec fn fragment_frame(
    op: OpCode,
    fin: bool,
    masked: bool,
    mask: u32,
    data: Seq<u8>,
) -> FrameView {
    FrameView {
        fin,
        rsv1: false,
        rsv2: false,
        rsv3: false,
        opcode: op,
        masked,
        mask: if masked {
            mask
        } else {
            0
        },
        payload_length: data.len() as u64,
        extension_data: None,
        application_data: if data.len() == 0 {
            None
        } else {
            Some(data)
        },
    }
}

/// The fragment frames a data payload splits into: chunks of at most
/// `k` bytes, the first under the message's own opcode, the rest
/// continuations, only the last final.
pub open spec fn fragments_of(op: OpCode, data: Seq<u8>, k: int, masked: bool, mask: u32) -> Seq<
    FrameView,
>
    decreases data.len(),
{
    if k <= 0 {
        Seq::empty()
    } else if data.len() <= k {
        Seq::empty().push(fragment_frame(op, true, masked, mask, data))
    } else {
        Seq::empty().push(fragment_frame(op, false, masked, mask, data.subrange(0, k)))
            + fragments_of(
            OpCode::Continuation,
            data.subrange(k, data.len() as int),
            k,
            masked,
            mask,
        )
    }
}

/// Build one fragment frame.
fn make_fragment(op: OpCode, fin: bool, masked: bool, mask: u32, data: Vec<u8>) -> (r: Frame)
    ensures
        r@ == fragment_frame(op, fin, masked, mask, data@),
{
    let len: u64 = data.len() as u64;
    let r = Frame {
        fin,
        rsv1: false,
        rsv2: false,
        rsv3: false,
        opcode: op,
        masked,
        mask: if masked {
            mask
        } else {
            0
        },
        payload_length: len,
        extension_data: None,
        application_data: if data.len() == 0 {
            None
        } else {
            Some(data)
        },
    };
    proof {
        assert(r@ =~~= fragment_frame(op, fin, masked, mask, r@.app_bytes()));
    }
    r
}

/// Split a data message into fragments of at most `frag_size` bytes
/// each: the disassembly side of the codec, for the caller-chosen
/// fragmented case. An empty payload still yields one final frame.
#[verifier::loop_isolation(false)]
pub fn fragment_message(msg: WebSocketMessage, frag_size: usize, masked: bool, mask: u32) -> (r:
    Vec<Frame>)
    requires
        frag_size > 0,
        msg@ is Text || msg@ is Binary,
    ensures
        r@.map_values(|f: Frame| f@) == fragments_of(
            message_opcode(msg@),
            data_of(msg@),
            frag_size as int,
            masked,
            mask,
        ),
{
    let ghost mv = msg@;
    let opcode = match &msg {
        WebSocketMessage::Text(_) => OpCode::Text,
        WebSocketMessage::Binary(_) => OpCode::Binary,
        _ => OpCode::Text,
    };
    let data: Vec<u8> = match msg {
        WebSocketMessage::Text(d) => d,
        WebSocketMessage::Binary(d) => d,
        _ => Vec::new(),
    };
    let ghost k = frag_size as int;
    let ghost goal = fragments_of(opcode, data@, k, masked, mask);
    let mut out: Vec<Frame> = Vec::new();
    let mut pos: usize = 0;
    let mut cur_op = opcode;
    proof {
        assert(data@.subrange(0, data@.len() as int) =~= data@);
        assert(out@.map_values(|f: Frame| f@) =~= Seq::<FrameView>::empty());
        assert(Seq::<FrameView>::empty() + goal =~= goal);
    }
    while data.len() - pos > frag_size
        invariant
            pos <= data.len(),
            out@.map_values(|f: Frame| f@) + fragments_of(
                cur_op,
                data@.subrange(pos as int, data@.len() as int),
                k,
                masked,
                mask,
            ) =~= goal,
        decreases data.len() - pos,
    {
        let ghost rem = data@.subrange(pos as int, data@.len() as int);
        let chunk = crate::handshake::copy_range(&data, pos, pos + frag_size);
        let frame = make_fragment(cur_op, false, masked, mask, chunk);
        proof {
            assert(rem.subrange(0, k) =~= data@.subrange(pos as int, pos + frag_size));
            assert(rem.subrange(k, rem.len() as int) =~= data@.subrange(
                pos + frag_size,
                data@.len() as int,
            ));
            assert(out@.push(frame).map_values(|f: Frame| f@) =~= out@.map_values(|f: Frame| f@)
                + Seq::empty().push(frame@));
        }
        out.push(frame);
        pos = pos + frag_size;
        cur_op = OpCode::Continuation;
        proof {
            assert(out@.map_values(|f: Frame| f@) + fragments_of(
                cur_op,
                data@.subrange(pos as int, data@.len() as int),
                k,
                masked,
                mask,
            ) =~= goal);
        }
    }
    let ghost rem = data@.subrange(pos as int, data@.len() as int);
    let chunk = crate::handshake::copy_range(&data, pos, data.len());
    let frame = make_fragment(cur_op, true, masked, mask, chunk);
    proof {
        assert(out@.push(frame).map_values(|f: Frame| f@) =~= out@.map_values(|f: Frame| f@)
            + Seq::empty().push(frame@));
    }
    out.push(frame);
    proof {
        assert(out@.map_values(|f: Frame| f@) =~= goal);
        assert(mv is Text || mv is Binary);
        assert(data@ == data_of(mv));
        assert(opcode == message_opcode(mv));
    }
    out
}

/// The outcome of feeding a row of frames to the assembler in order:
/// each step's accumulator feeds the next, and the run stops early at
/// the first step that emits a message or a violation.
pub open spec fn feed(st: Option<(OpCode, Seq<u8>)>, frames: Seq<FrameView>) -> StepResult
    decreases frames.len(),
{
    if frames.len() == 0 {
        StepResult { accum: st, output: Ok(None) }
    } else {
        let s = step_spec(st, frames[0]);
        if frames.len() == 1 {
            s
        } else if s.output == Ok::<Option<MessageView>, ProtocolError>(None) {
            feed(s.accum, frames.drop_first())
        } else {
            s
        }
    }
}

/// A payload always splits into at least one fragment.
proof fn lemma_fragments_nonempty(op: OpCode, data: Seq<u8>, k: int, masked: bool, mask: u32)
    requires
        k >= 1,
    ensures
        fragments_of(op, data, k, masked, mask).len() >= 1,
{
}

/// Continuation fragments extend an open accumulator silently and the
/// final one closes it, emitting the accumulated data joined to theirs.
proof fn lemma_continuations_reassemble(
    op: OpCode,
    acc: Seq<u8>,
    data: Seq<u8>,
    k: int,
    masked: bool,
    mask: u32,
)
    requires
        k >= 1,
    ensures
        feed(Some((op, acc)), fragments_of(OpCode::Continuation, data, k, masked, mask))
            == (StepResult {
            accum: None,
            output: Ok::<Option<MessageView>, ProtocolError>(
                Some(data_message(op, acc + data)),
            ),
        }),
    decreases data.len(),
{
    let frames = fragments_of(OpCode::Continuation, data, k, masked, mask);
    if data.len() <= k {
        let f0 = fragment_frame(OpCode::Continuation, true, masked, mask, data);
        assert(frames[0] == f0);
        assert(f0.app_bytes() =~= data);
        let s = step_spec(Some((op, acc)), f0);
        assert(feed(Some((op, acc)), frames) == s);
        assert(s.output =~~= Ok::<Option<MessageView>, ProtocolError>(
            Some(data_message(op, acc + data)),
        ));
    } else {
        let chunk = data.subrange(0, k);
        let rest = data.subrange(k, data.len() as int);
        let f0 = fragment_frame(OpCode::Continuation, false, masked, mask, chunk);
        let tail = fragments_of(OpCode::Continuation, rest, k, masked, mask);
        assert(frames == Seq::empty().push(f0) + tail);
        assert(frames[0] == f0);
        assert(f0.app_bytes() =~= chunk);
        let s = step_spec(Some((op, acc)), f0);
        assert(s.accum == Some((op, acc + chunk)));
        assert(s.output == Ok::<Option<MessageView>, ProtocolError>(None));
        lemma_fragments_nonempty(OpCode::Continuation, rest, k, masked, mask);
        assert(frames.len() == 1 + tail.len());
        assert(frames.drop_first() =~= tail);
        lemma_continuations_reassemble(op, acc + chunk, rest, k, masked, mask);
        assert((acc + chunk) + rest =~= acc + data);
        assert(feed(Some((op, acc)), frames) == feed(s.accum, tail));
    }
}

/// Fragmentation round trip: feeding the fragments a data payload
/// splits into, in order, to an idle assembler, yields exactly the data
/// message the payload stands for, and leaves the assembler idle. So
/// disassembly into a caller-chosen number of fragments is the inverse
/// of assembly, for every payload and every fragment size.
pub proof fn lemma_fragments_reassemble(
    op: OpCode,
    data: Seq<u8>,
    k: int,
    masked: bool,
    mask: u32,
)
    requires
        k >= 1,
        op == OpCode::Text || op == OpCode::Binary,
    ensures
        feed(None, fragments_of(op, data, k, masked, mask)) == (StepResult {
            accum: None,
            output: Ok::<Option<MessageView>, ProtocolError>(Some(data_message(op, data))),
        }),
{
    let frames = fragments_of(op, data, k, masked, mask);
    if data.len() <= k {
        let f0 = fragment_frame(op, true, masked, mask, data);
        assert(frames[0] == f0);
        assert(f0.app_bytes() =~= data);
        let s = step_spec(None, f0);
        assert(feed(None, frames) == s);
    } else {
        let chunk = data.subrange(0, k);
        let rest = data.subrange(k, data.len() as int);
        let f0 = fragment_frame(op, false, masked, mask, chunk);
        let tail = fragments_of(OpCode::Continuation, rest, k, masked, mask);
        assert(frames == Seq::empty().push(f0) + tail);
        assert(frames[0] == f0);
        assert(f0.app_bytes() =~= chunk);
        let s = step_spec(None, f0);
        assert(s.accum == Some((op, chunk)));
        assert(s.output == Ok::<Option<MessageView>, ProtocolError>(None));
        lemma_fragments_nonempty(OpCode::Continuation, rest, k, masked, mask);
        assert(frames.drop_first() =~= tail);
        lemma_continuations_reassemble(op, chunk, rest, k, masked, mask);
        assert(chunk + rest =~= data);
        assert(feed(None, frames) == feed(s.accum, tail));
    }
}

} // verus!
