//! The WebSocket message model: the logical unit the application sees,
//! built from one or more Base Frames.

use vstd::prelude::*;

verus! {

/// The contents of a Close message: a close code and a reason.
#[derive(Clone, Debug, PartialEq, Eq)]
pub struct CloseData {
    /// The close code, from the first two payload bytes, big endian.
    pub code: u16,
    /// The remaining payload bytes.
    pub reason: Vec<u8>,
}

/// The mathematical image of `CloseData`.
#[verifier::ext_equal]
pub struct CloseView {
    pub code: u16,
    pub reason: Seq<u8>,
}

impl View for CloseData {
    type V = CloseView;

    open spec fn view(&self) -> CloseView {
        CloseView { code: self.code, reason: self.reason@ }
    }
}

/// One logical WebSocket message, the reassembled application data of
/// one or more Base Frames.
#[derive(Clone, Debug, PartialEq, Eq)]
pub enum WebSocketMessage {
    Text(Vec<u8>),
    Binary(Vec<u8>),
    Ping(Option<Vec<u8>>),
    Pong(Option<Vec<u8>>),
    Close(Option<CloseData>),
}

/// The mathematical image of a `WebSocketMessage`.
#[verifier::ext_equal]
pub enum MessageView {
    Text(Seq<u8>),
    Binary(Seq<u8>),
    Ping(Option<Seq<u8>>),
    Pong(Option<Seq<u8>>),
    Close(Option<CloseView>),
}

/// The image of an optional byte buffer.
pub open spec fn opt_bytes(o: Option<Vec<u8>>) -> Option<Seq<u8>> {
    match o {
        Some(v) => Some(v@),
        None => None,
    }
}

impl View for WebSocketMessage {
    type V = MessageView;

    open spec fn view(&self) -> MessageView {
        match self {
            WebSocketMessage::Text(d) => MessageView::Text(d@),
            WebSocketMessage::Binary(d) => MessageView::Binary(d@),
            WebSocketMessage::Ping(d) => MessageView::Ping(opt_bytes(*d)),
            WebSocketMessage::Pong(d) => MessageView::Pong(opt_bytes(*d)),
            WebSocketMessage::Close(c) => MessageView::Close(
                match c {
                    Some(cd) => Some(cd@),
                    None => None,
                },
            ),
        }
    }
}

impl WebSocketMessage {
    /// A Pong message carrying the given application data; keepalive
    /// replies are built with this.
    pub fn pong(data: Option<Vec<u8>>) -> (r: WebSocketMessage)
        ensures
            r@ == MessageView::Pong(opt_bytes(data)),
    {
        WebSocketMessage::Pong(data)
    }

    /// Whether this is a Ping.
    pub fn is_ping(&self) -> (r: bool)
        ensures
            r == (self@ is Ping),
    {
        match self {
            WebSocketMessage::Ping(_) => true,
            _ => false,
        }
    }

    /// Whether this is a Pong.
    pub fn is_pong(&self) -> (r: bool)
        ensures
            r == (self@ is Pong),
    {
        match self {
            WebSocketMessage::Pong(_) => true,
            _ => false,
        }
    }

    /// Whether this is a Close.
    pub fn is_close(&self) -> (r: bool)
        ensures
            r == (self@ is Close),
    {
        match self {
            WebSocketMessage::Close(_) => true,
            _ => false,
        }
    }
}

/// An exact copy of a byte buffer.
pub fn copy_bytes(v: &Vec<u8>) -> (r: Vec<u8>)
    ensures
        r@ == v@,
{
    let mut out: Vec<u8> = Vec::new();
    let mut i: usize = 0;
    while i < v.len()
        invariant
            i <= v.len(),
            out@ == v@.subrange(0, i as int),
        decreases v.len() - i,
    {
        out.push(v[i]);
        i = i + 1;
        proof {
            assert(out@ =~= v@.subrange(0, i as int));
        }
    }
    proof {
        assert(out@ =~= v@);
    }
    out
}

} // verus!
