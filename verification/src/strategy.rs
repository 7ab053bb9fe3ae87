//! The single routing algorithm shared by both roles.
//!
//! A role supplies three hooks, each described by a transition predicate; the
//! router classifies an inbound message and invokes at most one of them, and
//! its contract says exactly which: messages that are not
//! extension-flavoured, extension ids this engine did not assign, and Reject
//! or unknown metadata message kinds leave the session untouched.

use vstd::prelude::*;

use crate::bencode::read_um;
use crate::bencode::spec_parse_um;
use crate::errors::Error;
use crate::message::Message;
use crate::message::MessageV;
use crate::message::EXT_HANDSHAKE_ID;
use crate::message::LOCAL_UT_METADATA_ID;
use crate::message::MSG_TYPE_DATA;
use crate::message::MSG_TYPE_REQUEST;
use crate::message::UtMetadata;

verus! {

/// The three hooks a role hands to the router, together with the
/// well-formedness its session state keeps across calls and the transition
/// predicate each hook fulfils.
pub trait Behaviour: Sized {
    /// Well-formedness every hook preserves.
    spec fn inv(&self) -> bool;

    /// Session data no hook ever touches: for a fetcher the target
    /// identifier, for a seeder the dictionary it serves.
    spec fn frame(&self) -> Seq<u8>;

    /// The receive budget of the session's connection. Hooks may send but
    /// never receive, so routing never extends a session's life.
    spec fn fuel(&self) -> nat;

    /// What this role's handshake hook does: how the state after relates to
    /// the state before, the handshake payload, and the result.
    spec fn handshake_spec(pre: Self, payload: Seq<u8>, post: Self, r: Result<(), Error>) -> bool;

    /// What this role's Data hook does with a decoded header and the payload
    /// it came from.
    spec fn data_spec(
        pre: Self,
        msg: UtMetadata,
        payload: Seq<u8>,
        post: Self,
        r: Result<(), Error>,
    ) -> bool;

    /// What this role's Request hook does with a decoded header.
    spec fn request_spec(pre: Self, msg: UtMetadata, post: Self, r: Result<(), Error>) -> bool;

    /// Invoked with the payload of an extension handshake.
    fn extension_handshake(&mut self, payload: &[u8]) -> (r: Result<(), Error>)
        requires
            old(self).inv(),
        ensures
            final(self).inv(),
            final(self).frame() == old(self).frame(),
            final(self).fuel() <= old(self).fuel(),
            Self::handshake_spec(*old(self), payload@, *final(self), r),
    ;

    /// Invoked with the decoded header of a metadata Data message and the
    /// whole extension payload it was decoded from.
    fn ut_metadata_data(&mut self, msg: UtMetadata, payload: &[u8]) -> (r: Result<(), Error>)
        requires
            old(self).inv(),
            spec_parse_um(payload@) matches Some((m, n)) && m == msg,
            msg.msg_type == MSG_TYPE_DATA,
        ensures
            final(self).inv(),
            final(self).frame() == old(self).frame(),
            final(self).fuel() <= old(self).fuel(),
            Self::data_spec(*old(self), msg, payload@, *final(self), r),
    ;

    /// Invoked with the decoded header of a metadata Request message.
    fn ut_metadata_request(&mut self, msg: UtMetadata) -> (r: Result<(), Error>)
        requires
            old(self).inv(),
            msg.msg_type == MSG_TYPE_REQUEST,
        ensures
            final(self).inv(),
            final(self).frame() == old(self).frame(),
            final(self).fuel() <= old(self).fuel(),
            Self::request_spec(*old(self), msg, *final(self), r),
    ;
}

/// Outcome of routing a metadata-extension payload: an undecodable header is
/// a bencode error with the session untouched; a Data header reaches the Data
/// hook with the whole payload; a Request header reaches the Request hook;
/// Reject and unknown kinds are no-ops.
pub open spec fn spec_route_um<B: Behaviour>(
    pre: B,
    payload: Seq<u8>,
    post: B,
    r: Result<(), Error>,
) -> bool {
    match spec_parse_um(payload) {
        None => r == Err::<(), Error>(Error::PeerMessageBencode) && post == pre,
        Some((msg, n)) => if msg.msg_type == MSG_TYPE_DATA {
            B::data_spec(pre, msg, payload, post, r)
        } else if msg.msg_type == MSG_TYPE_REQUEST {
            B::request_spec(pre, msg, post, r)
        } else {
            r is Ok && post == pre
        },
    }
}

/// Outcome of routing an extension message: an empty payload is a bencode
/// error with the session untouched; the handshake id reaches the handshake
/// hook with the rest of the payload; the metadata-extension id routes on by
/// message kind; any other id is a no-op.
pub open spec fn spec_route_extended<B: Behaviour>(
    pre: B,
    payload: Seq<u8>,
    post: B,
    r: Result<(), Error>,
) -> bool {
    if payload.len() == 0 {
        r == Err::<(), Error>(Error::PeerMessageBencode) && post == pre
    } else if payload[0] == EXT_HANDSHAKE_ID {
        B::handshake_spec(pre, payload.skip(1), post, r)
    } else if payload[0] == LOCAL_UT_METADATA_ID {
        spec_route_um(pre, payload.skip(1), post, r)
    } else {
        r is Ok && post == pre
    }
}

/// Outcome of routing one inbound message: anything not extension-flavoured
/// is a no-op; an extension message is routed by its id and kind.
pub open spec fn spec_route_message<B: Behaviour>(
    pre: B,
    m: MessageV,
    post: B,
    r: Result<(), Error>,
) -> bool {
    match m {
        MessageV::Extension { payload } => spec_route_extended(pre, payload, post, r),
        MessageV::Other => r is Ok && post == pre,
    }
}

/// Route one inbound message: extension messages are unwrapped and handed to
/// the hook their extension id and message kind select; everything else is a
/// no-op.
pub fn handle_message<B: Behaviour>(b: &mut B, message: &Message) -> (r: Result<(), Error>)
    requires
        old(b).inv(),
    ensures
        final(b).inv(),
        final(b).frame() == old(b).frame(),
        final(b).fuel() <= old(b).fuel(),
        spec_route_message(*old(b), message@, *final(b), r),
{
    match message {
        Message::Extension { payload } => handle_extended(b, payload.as_slice()),
        Message::Other => Ok(()),
    }
}

/// Route an extension message: split its id byte from its payload and invoke
/// the handshake hook or the metadata-extension router.
pub fn handle_extended<B: Behaviour>(b: &mut B, payload: &[u8]) -> (r: Result<(), Error>)
    requires
        old(b).inv(),
    ensures
        final(b).inv(),
        final(b).frame() == old(b).frame(),
        final(b).fuel() <= old(b).fuel(),
        spec_route_extended(*old(b), payload@, *final(b), r),
{
    if payload.len() == 0 {
        return Err(Error::PeerMessageBencode);
    }
    let id = payload[0];
    let rest = vstd::slice::slice_subrange(payload, 1, payload.len());
    proof {
        assert(rest@ =~= payload@.skip(1));
    }
    if id == EXT_HANDSHAKE_ID {
        b.extension_handshake(rest)
    } else if id == LOCAL_UT_METADATA_ID {
        ut_metadata(b, rest)
    } else {
        Ok(())
    }
}

/// Route a metadata-extension payload by its decoded message kind.
pub fn ut_metadata<B: Behaviour>(b: &mut B, payload: &[u8]) -> (r: Result<(), Error>)
    requires
        old(b).inv(),
    ensures
        final(b).inv(),
        final(b).frame() == old(b).frame(),
        final(b).fuel() <= old(b).fuel(),
        spec_route_um(*old(b), payload@, *final(b), r),
{
    match read_um(payload) {
        None => Err(Error::PeerMessageBencode),
        Some((msg, n)) => {
            if msg.msg_type == MSG_TYPE_DATA {
                b.ut_metadata_data(msg, payload)
            } else if msg.msg_type == MSG_TYPE_REQUEST {
                b.ut_metadata_request(msg)
            } else {
                Ok(())
            }
        },
    }
}

} // verus!
