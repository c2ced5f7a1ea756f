//! The PingPong protocol middleware: absorbs incoming pings and pongs
//! and answers every ping with a pong carrying the same application
//! data, first in, first out.

use std::collections::VecDeque;
use vstd::prelude::*;

use crate::message::{MessageView, WebSocketMessage, copy_bytes, opt_bytes};

verus! {

/// What the producing side did with one upstream message.
pub enum Polled {
    /// A ping or pong was absorbed; the caller should flush pending
    /// pongs downstream and poll upstream again.
    Consumed,
    /// Any other message: surfaced to the layer above, unchanged.
    Surfaced(WebSocketMessage),
}

/// What the consuming side did with one outbound message.
pub enum SendOutcome {
    /// Pongs are still pending: the message is handed back untouched;
    /// retry after the queue drains.
    NotReady(WebSocketMessage),
    /// No pong is owed: the message is to be forwarded downstream.
    Forward(WebSocketMessage),
}

/// The `PingPong` middleware state: the FIFO queue of pong payloads
/// still owed, one per ping received and not yet answered.
pub struct PingPong {
    /// The application data of each pending pong, oldest first.
    pub app_datas: VecDeque<Option<Vec<u8>>>,
}

impl PingPong {
    /// The queue's mathematical image: pending pong payloads in the
    /// order the pings arrived.
    pub open spec fn pending(self) -> Seq<Option<Seq<u8>>> {
        Seq::new(self.app_datas@.len(), |i: int| opt_bytes(self.app_datas@[i]))
    }

    /// A fresh layer owing no pongs.
    pub fn new() -> (r: PingPong)
        ensures
            r.pending() =~= Seq::<Option<Seq<u8>>>::empty(),
    {
        PingPong { app_datas: VecDeque::new() }
    }

    /// How many pongs are owed.
    pub fn pending_count(&self) -> (r: usize)
        ensures
            r == self.pending().len(),
    {
        self.app_datas.len()
    }

    /// The producing side's decision on one message pulled from
    /// upstream. A pong is absorbed. A ping is absorbed and its
    /// application data joins the back of the pending-pong queue. Any
    /// other message is surfaced unchanged. After either absorption the
    /// caller flushes and polls again.
    pub fn on_upstream(&mut self, msg: WebSocketMessage) -> (r: Polled)
        ensures
            match r {
                Polled::Consumed => match msg@ {
                    MessageView::Ping(d) => final(self).pending() =~= old(self).pending().push(d),
                    MessageView::Pong(_) => final(self).pending() =~= old(self).pending(),
                    _ => false,
                },
                Polled::Surfaced(m) => m@ == msg@ && !(msg@ is Ping) && !(msg@ is Pong)
                    && final(self).pending() =~= old(self).pending(),
            },
    {
        if msg.is_pong() {
            return Polled::Consumed;
        }
        if msg.is_ping() {
            let data = match msg {
                WebSocketMessage::Ping(d) => d,
                _ => None,
            };
            self.app_datas.push_back(data);
            return Polled::Consumed;
        }
        Polled::Surfaced(msg)
    }

    /// The consuming side's decision on one outbound message: while any
    /// pong is owed the message is refused so keepalive replies keep
    /// priority; otherwise it is forwarded.
    pub fn start_send(&mut self, item: WebSocketMessage) -> (r: SendOutcome)
        ensures
            final(self).pending() =~= old(self).pending(),
            match r {
                SendOutcome::NotReady(m) => m@ == item@ && old(self).pending().len() > 0,
                SendOutcome::Forward(m) => m@ == item@ && old(self).pending().len() == 0,
            },
    {
        if self.app_datas.len() > 0 {
            return SendOutcome::NotReady(item);
        }
        SendOutcome::Forward(item)
    }

    /// The oldest pong owed, as a ready-to-send Pong message, without
    /// giving it up: it leaves the queue only when `pop_pending` reports
    /// that downstream accepted it, so a refused send loses nothing.
    pub fn front_pong(&self) -> (r: Option<WebSocketMessage>)
        ensures
            match r {
                Some(m) => self.pending().len() > 0 && m@ == MessageView::Pong(self.pending()[0]),
                None => self.pending().len() == 0,
            },
    {
        if self.app_datas.len() == 0 {
            return None;
        }
        let front: &Option<Vec<u8>> = &self.app_datas[0];
        let data: Option<Vec<u8>> = match front {
            Some(v) => Some(copy_bytes(v)),
            None => None,
        };
        Some(WebSocketMessage::pong(data))
    }

    /// Drop the oldest owed pong, after downstream accepted it.
    pub fn pop_pending(&mut self)
        ensures
            old(self).pending().len() > 0 ==> final(self).pending() =~= old(
                self).pending().drop_first(),
            old(self).pending().len() == 0 ==> final(self).pending() =~= old(self).pending(),
    {
        let popped = self.app_datas.pop_front();
        proof {
            if old(self).pending().len() > 0 {
                assert(self.pending() =~= old(self).pending().drop_first());
            }
        }
    }
}

} // verus!
