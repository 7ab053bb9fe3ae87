//! The framed transport a session drives: blocking send and receive of one
//! message at a time, plus capability detection for the extension protocol.
//!
//! A connection is an external collaborator. Its one liveness duty, a read
//! deadline, is modelled as a receive budget: every successful receive
//! consumes some of it, so a session's receive loop always terminates in a
//! result or a transport error.

use vstd::prelude::*;

use crate::errors::Error;
use crate::message::Message;
use crate::message::MessageV;

verus! {

/// A framed, already-bound transport. Nothing is assumed about what arrives;
/// sends are logged, and receives consume a finite budget, the image of the
/// connection's read deadline.
pub trait Conn: Sized {
    /// Well-formedness the connection maintains across calls.
    open spec fn inv(&self) -> bool {
        true
    }

    /// Receive budget left.
    open spec fn fuel(&self) -> nat {
        0
    }

    /// Whether the peer speaks the extension protocol.
    open spec fn supports_ext(&self) -> bool {
        true
    }

    /// Every message sent so far, oldest first.
    open spec fn sent(&self) -> Seq<MessageV> {
        Seq::empty()
    }

    /// Capability detection for the extension protocol.
    fn supports_extension_protocol(&self) -> (r: bool)
        ensures
            r == self.supports_ext(),
    ;

    /// Send one message, blocking.
    fn send(&mut self, m: &Message) -> (r: Result<(), Error>)
        requires
            old(self).inv(),
        ensures
            final(self).inv(),
            final(self).fuel() <= old(self).fuel(),
            final(self).supports_ext() == old(self).supports_ext(),
            r is Ok ==> final(self).sent() == old(self).sent().push(m@),
            r is Err ==> final(self).sent() == old(self).sent(),
    ;

    /// Receive one message, blocking until one arrives or the read deadline
    /// passes.
    fn recv(&mut self) -> (r: Result<Message, Error>)
        requires
            old(self).inv(),
        ensures
            final(self).inv(),
            final(self).sent() == old(self).sent(),
            final(self).supports_ext() == old(self).supports_ext(),
            r is Ok ==> final(self).fuel() < old(self).fuel(),
            r is Err ==> final(self).fuel() <= old(self).fuel(),
    ;
}

/// A connection that plays back a fixed list of inbound messages, newest
/// last, and records what is sent: one side of a scripted exchange.
pub struct ScriptedConn {
    /// Messages still to deliver, in reverse delivery order.
    pub replies: Vec<Message>,
    /// Whether the scripted peer speaks the extension protocol.
    pub supports: bool,
    /// Log of sent messages.
    pub sent_log: Ghost<Seq<MessageV>>,
}

impl ScriptedConn {
    /// A connection that will deliver `replies` front first.
    pub fn new(replies: Vec<Message>, supports: bool) -> (c: ScriptedConn)
        ensures
            c.inv(),
            c.sent() == Seq::<MessageV>::empty(),
            c.supports_ext() == supports,
            c.fuel() == replies@.len(),
    {
        let ghost n0 = replies@.len();
        let mut replies = replies;
        let mut rev: Vec<Message> = Vec::new();
        while replies.len() > 0
            invariant
                rev@.len() + replies@.len() == n0,
            decreases replies@.len(),
        {
            match replies.pop() {
                Some(m) => rev.push(m),
                None => {},
            }
        }
        ScriptedConn { replies: rev, supports, sent_log: Ghost(Seq::empty()) }
    }
}

impl Conn for ScriptedConn {
    open spec fn inv(&self) -> bool {
        true
    }

    open spec fn fuel(&self) -> nat {
        self.replies@.len()
    }

    open spec fn supports_ext(&self) -> bool {
        self.supports
    }

    open spec fn sent(&self) -> Seq<MessageV> {
        self.sent_log@
    }

    fn supports_extension_protocol(&self) -> (r: bool) {
        self.supports
    }

    fn send(&mut self, m: &Message) -> (r: Result<(), Error>) {
        self.sent_log = Ghost(self.sent_log@.push(m@));
        Ok(())
    }

    fn recv(&mut self) -> (r: Result<Message, Error>) {
        match self.replies.pop() {
            Some(m) => Ok(m),
            None => Err(Error::Network),
        }
    }
}

/// A connection backed by two in-memory queues: what the peer put in, and
/// what this side sent. It stands where a remote peer would, when the other
/// end of the exchange is driven by hand.
pub struct QueueConn {
    /// Messages still to deliver, in reverse delivery order.
    pub inbox: Vec<Message>,
    /// Messages sent, oldest first.
    pub outbox: Vec<Message>,
}

impl QueueConn {
    /// A connection that will deliver `inbox` front first.
    pub fn new(inbox: Vec<Message>) -> (c: QueueConn)
        ensures
            c.inv(),
            c.sent() == Seq::<MessageV>::empty(),
            c.supports_ext(),
            c.fuel() == inbox@.len(),
    {
        let ghost n0 = inbox@.len();
        let mut inbox = inbox;
        let mut rev: Vec<Message> = Vec::new();
        while inbox.len() > 0
            invariant
                rev@.len() + inbox@.len() == n0,
            decreases inbox@.len(),
        {
            match inbox.pop() {
                Some(m) => rev.push(m),
                None => {},
            }
        }
        QueueConn { inbox: rev, outbox: Vec::new() }
    }
}

impl Conn for QueueConn {
    open spec fn inv(&self) -> bool {
        true
    }

    open spec fn fuel(&self) -> nat {
        self.inbox@.len()
    }

    open spec fn supports_ext(&self) -> bool {
        true
    }

    open spec fn sent(&self) -> Seq<MessageV> {
        self.outbox@.map_values(|m: Message| m@)
    }

    fn supports_extension_protocol(&self) -> (r: bool) {
        true
    }

    fn send(&mut self, m: &Message) -> (r: Result<(), Error>) {
        let copy = crate::message::clone_of(m);
        self.outbox.push(copy);
        proof {
            assert(self.outbox@.map_values(|x: Message| x@) =~= old(self).outbox@.map_values(
                |x: Message| x@,
            ).push(m@));
        }
        Ok(())
    }

    fn recv(&mut self) -> (r: Result<Message, Error>) {
        match self.inbox.pop() {
            Some(m) => Ok(m),
            None => Err(Error::Network),
        }
    }
}

} // verus!
