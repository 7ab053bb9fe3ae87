//! Peer-wire messages as this engine sees them, and the metadata-extension
//! message header.

use vstd::prelude::*;

verus! {

/// Fixed maximum length of one metadata piece, in bytes. An engine constant,
/// never negotiated over the wire: every piece except the last is exactly
/// this long.
pub const PIECE_LENGTH: usize = 16384;

/// Extension id that addresses the extension handshake itself.
pub const EXT_HANDSHAKE_ID: u8 = 0;

/// The extension id this engine assigns to the metadata extension in its own
/// handshake; inbound metadata-extension messages carry it.
pub const LOCAL_UT_METADATA_ID: u8 = 1;

/// Metadata-message kind: a request for one piece.
pub const MSG_TYPE_REQUEST: u8 = 0;

/// Metadata-message kind: one piece of data.
pub const MSG_TYPE_DATA: u8 = 1;

/// Metadata-message kind: a refusal to serve a piece.
pub const MSG_TYPE_REJECT: u8 = 2;

/// An inbound or outbound peer-wire message. The engine only distinguishes
/// extension-flavoured messages (a one-byte extension id followed by an
/// extension-specific payload) from everything else, which it ignores.
#[derive(Debug)]
pub enum Message {
    /// An extension message: `payload[0]` is the extension id, the rest is
    /// the extension-specific payload.
    Extension { payload: Vec<u8> },
    /// Any other flavour of peer-wire message.
    Other,
}

/// The mathematical shape of a [`Message`].
pub enum MessageV {
    /// An extension message's whole payload, id byte included.
    Extension { payload: Seq<u8> },
    /// Any other flavour.
    Other,
}

impl View for Message {
    type V = MessageV;

    open spec fn view(&self) -> MessageV {
        match self {
            Message::Extension { payload } => MessageV::Extension { payload: payload@ },
            Message::Other => MessageV::Other,
        }
    }
}

/// The extension message whose id byte is `id` and whose payload is `body`.
pub open spec fn spec_extension_msg(id: u8, body: Seq<u8>) -> MessageV {
    MessageV::Extension { payload: seq![id] + body }
}

/// Build an extension message from an id and a payload.
pub fn new_extended(id: u8, body: Vec<u8>) -> (m: Message)
    ensures
        m@ == spec_extension_msg(id, body@),
{
    let ghost body0 = body@;
    let mut payload: Vec<u8> = Vec::new();
    payload.push(id);
    let mut body = body;
    payload.append(&mut body);
    proof {
        assert(payload@ =~= seq![id] + body0);
    }
    Message::Extension { payload }
}

/// Copy a message byte for byte.
pub fn clone_of(m: &Message) -> (c: Message)
    ensures
        c@ == m@,
{
    match m {
        Message::Extension { payload } => {
            let mut p: Vec<u8> = Vec::new();
            let mut k: usize = 0;
            while k < payload.len()
                invariant
                    k <= payload@.len(),
                    p@ == payload@.subrange(0, k as int),
                decreases payload@.len() - k,
            {
                p.push(payload[k]);
                k = k + 1;
                proof {
                    assert(p@ =~= payload@.subrange(0, k as int));
                }
            }
            proof {
                assert(p@ =~= payload@);
            }
            Message::Extension { payload: p }
        },
        Message::Other => Message::Other,
    }
}

/// Header of a metadata-extension message: its kind, the piece index it
/// speaks of and, for Data only, the declared total size of the serialized
/// dictionary.
#[derive(Clone, Copy, Debug)]
pub struct UtMetadata {
    /// Message kind: request, data or reject.
    pub msg_type: u8,
    /// Piece index.
    pub piece: u64,
    /// Declared total size of the dictionary; carried by Data messages only.
    pub total_size: Option<u64>,
}

impl UtMetadata {
    /// The header of a request for piece `piece`.
    pub open spec fn spec_request(piece: u64) -> UtMetadata {
        UtMetadata { msg_type: MSG_TYPE_REQUEST, piece, total_size: None }
    }

    /// The header of a Data message for piece `piece` of a dictionary of
    /// `total_size` bytes.
    pub open spec fn spec_data(piece: u64, total_size: u64) -> UtMetadata {
        UtMetadata { msg_type: MSG_TYPE_DATA, piece, total_size: Some(total_size) }
    }

    /// Build a request header.
    pub fn request(piece: u64) -> (m: UtMetadata)
        ensures
            m == Self::spec_request(piece),
    {
        UtMetadata { msg_type: MSG_TYPE_REQUEST, piece, total_size: None }
    }

    /// Build a Data header.
    pub fn data(piece: u64, total_size: u64) -> (m: UtMetadata)
        ensures
            m == Self::spec_data(piece, total_size),
    {
        UtMetadata { msg_type: MSG_TYPE_DATA, piece, total_size: Some(total_size) }
    }
}

/// What a handshake payload tells this engine: the declared total metadata
/// size, if any, and the peer-local id of the metadata extension, if listed.
#[derive(Clone, Copy, Debug)]
pub struct HandshakeInfo {
    /// Value of the `metadata_size` key, absent if the peer knows none.
    pub metadata_size: Option<u64>,
    /// The peer's id for the metadata extension in the `m` mapping.
    pub ut_metadata_id: Option<u8>,
}

} // verus!
