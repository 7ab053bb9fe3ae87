//! An in-memory connection whose far end is a seeder: what a fetcher sends is
//! dispatched to the seeder at once, and what the seeder sends comes back on
//! the next receive. It joins the two roles without any transport between
//! them.

use vstd::prelude::*;

use crate::conn::Conn;
use crate::conn::QueueConn;
use crate::errors::Error;
use crate::message::clone_of;
use crate::message::Message;
use crate::message::MessageV;
use crate::message::EXT_HANDSHAKE_ID;
use crate::seeder::InfoSeeder;
use crate::strategy::handle_message;
use crate::strategy::Behaviour;

verus! {

/// One end of a loopback exchange. The far end is a seeding session created
/// lazily when the first extension handshake arrives, exactly as a remote
/// seeder would read it before answering. The receive budget stands for the
/// read deadline a real connection would enforce.
pub struct LoopbackConn {
    /// The far-end seeder, once the opening handshake arrived.
    pub seeder: Option<InfoSeeder<QueueConn>>,
    /// The dictionary the far end will serve, until it starts.
    pub dict: Option<Vec<u8>>,
    /// Messages the far end sent and this end did not yet receive.
    pub pending: Vec<Message>,
    /// Receives left before the connection reports failure.
    pub budget: usize,
    /// Log of messages sent by this end.
    pub sent_log: Ghost<Seq<MessageV>>,
}

impl LoopbackConn {
    /// A loopback connection to a seeder that will serve `dict`, failing any
    /// receive past the `budget`th.
    pub fn new(dict: Vec<u8>, budget: usize) -> (c: LoopbackConn)
        ensures
            c.inv(),
            c.fuel() == budget,
            c.supports_ext(),
            c.sent() == Seq::<MessageV>::empty(),
    {
        LoopbackConn {
            seeder: None,
            dict: Some(dict),
            pending: Vec::new(),
            budget,
            sent_log: Ghost(Seq::empty()),
        }
    }

    /// Move everything the far end sent into the delivery queue, oldest
    /// first.
    fn pump(&mut self)
        requires
            old(self).inv(),
        ensures
            final(self).inv(),
            final(self).budget == old(self).budget,
            final(self).sent_log == old(self).sent_log,
    {
        match self.seeder.take() {
            Some(mut s) => {
                let mut tmp: Vec<Message> = Vec::new();
                while s.conn.outbox.len() > 0
                    invariant
                        s.inv(),
                    decreases s.conn.outbox@.len(),
                {
                    match s.conn.outbox.pop() {
                        Some(m) => tmp.push(m),
                        None => {},
                    }
                }
                while tmp.len() > 0
                    invariant
                        s.inv(),
                        self.budget == old(self).budget,
                        self.sent_log == old(self).sent_log,
                        self.seeder is None,
                    decreases tmp@.len(),
                {
                    match tmp.pop() {
                        Some(m) => self.pending.push(m),
                        None => {},
                    }
                }
                self.seeder = Some(s);
            },
            None => {},
        }
    }
}

impl Conn for LoopbackConn {
    /// The far-end session, once started, is well-formed.
    open spec fn inv(&self) -> bool {
        match self.seeder {
            Some(s) => s.inv(),
            None => true,
        }
    }

    open spec fn fuel(&self) -> nat {
        self.budget as nat
    }

    open spec fn supports_ext(&self) -> bool {
        true
    }

    open spec fn sent(&self) -> Seq<MessageV> {
        self.sent_log@
    }

    fn supports_extension_protocol(&self) -> (r: bool) {
        true
    }

    fn send(&mut self, m: &Message) -> (r: Result<(), Error>) {
        self.sent_log = Ghost(self.sent_log@.push(m@));
        let started = self.seeder.is_some();
        if started {
            match &mut self.seeder {
                Some(s) => {
                    // A remote seeder swallows per-message dispatch failures.
                    match handle_message(s, m) {
                        Ok(()) => {},
                        Err(_) => {},
                    }
                },
                None => {},
            }
        } else {
            // The far end starts by reading the opening extension handshake.
            let is_handshake = match m {
                Message::Extension { payload } => payload.len() > 0 && payload[0]
                    == EXT_HANDSHAKE_ID,
                Message::Other => false,
            };
            if is_handshake {
                match self.dict.take() {
                    Some(d) => {
                        let mut inbox: Vec<Message> = Vec::new();
                        inbox.push(clone_of(m));
                        let qc = QueueConn::new(inbox);
                        match InfoSeeder::new(qc, d) {
                            Ok(mut s) => {
                                // A starting seeder announces its dictionary.
                                match s.send_extended_handshake() {
                                    Ok(()) => {},
                                    Err(_) => {},
                                }
                                self.seeder = Some(s);
                            },
                            Err(_) => {
                                // A peer that cannot negotiate never answers.
                            },
                        }
                    },
                    None => {},
                }
            }
        }
        self.pump();
        Ok(())
    }

    fn recv(&mut self) -> (r: Result<Message, Error>) {
        if self.budget == 0 {
            return Err(Error::Network);
        }
        self.budget = self.budget - 1;
        if self.pending.len() > 0 {
            Ok(self.pending.remove(0))
        } else {
            Err(Error::Network)
        }
    }
}

} // verus!
