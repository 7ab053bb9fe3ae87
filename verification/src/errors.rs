//! Failure taxonomy of the exchange engine.

use vstd::prelude::*;

verus! {

/// Everything that can go wrong while fetching or seeding metadata.
///
/// Every variant belongs to one of four classes, reported by [`Error::kind`]:
/// negotiation failures, protocol violations, integrity failures and opaque
/// transport failures surfaced unchanged from the connection layer.
#[derive(Clone, Copy, Debug, PartialEq, Eq, Structural)]
pub enum Error {
    /// The peer does not speak the extension protocol, or its handshake
    /// lists no id for the metadata extension.
    PeerUtMetadataNotSupported,
    /// The peer's handshake does not declare a total metadata size.
    PeerUtMetadataMetadataSizeNotKnown,
    /// A Data message carried a piece index other than the expected next one.
    PeerUtMetadataWrongPiece,
    /// A Data message carried more trailing bytes than one piece may hold.
    PeerUtMetadataPieceLength,
    /// Accumulated bytes exceed the declared total size.
    PeerUtMetadataInfoLength,
    /// The reassembled bytes are not a well-formed dictionary.
    PeerUtMetadataInfoDeserialize,
    /// The recomputed hash of the reassembled dictionary does not match the
    /// target identifier.
    PeerUtMetadataWrongInfohash,
    /// A message or payload could not be decoded.
    PeerMessageBencode,
    /// An opaque failure of the underlying connection.
    Network,
}

/// The four classes of [`Error`].
#[derive(Clone, Copy, Debug, PartialEq, Eq, Structural)]
pub enum ErrorKind {
    /// Session setup failed: extension protocol unsupported, declared size
    /// unknown, or the metadata extension id missing.
    Negotiation,
    /// The peer broke the piece-transfer rules, or sent an undecodable
    /// message.
    Protocol,
    /// The reassembled dictionary failed decoding or hash verification.
    Integrity,
    /// The connection layer failed.
    Transport,
}

impl Error {
    /// The class a variant belongs to.
    pub open spec fn spec_kind(self) -> ErrorKind {
        match self {
            Error::PeerUtMetadataNotSupported => ErrorKind::Negotiation,
            Error::PeerUtMetadataMetadataSizeNotKnown => ErrorKind::Negotiation,
            Error::PeerUtMetadataWrongPiece => ErrorKind::Protocol,
            Error::PeerUtMetadataPieceLength => ErrorKind::Protocol,
            Error::PeerUtMetadataInfoLength => ErrorKind::Protocol,
            Error::PeerUtMetadataInfoDeserialize => ErrorKind::Integrity,
            Error::PeerUtMetadataWrongInfohash => ErrorKind::Integrity,
            Error::PeerMessageBencode => ErrorKind::Protocol,
            Error::Network => ErrorKind::Transport,
        }
    }

    /// Classify this error.
    pub fn kind(&self) -> (k: ErrorKind)
        ensures
            k == self.spec_kind(),
    {
        match self {
            Error::PeerUtMetadataNotSupported => ErrorKind::Negotiation,
            Error::PeerUtMetadataMetadataSizeNotKnown => ErrorKind::Negotiation,
            Error::PeerUtMetadataWrongPiece => ErrorKind::Protocol,
            Error::PeerUtMetadataPieceLength => ErrorKind::Protocol,
            Error::PeerUtMetadataInfoLength => ErrorKind::Protocol,
            Error::PeerUtMetadataInfoDeserialize => ErrorKind::Integrity,
            Error::PeerUtMetadataWrongInfohash => ErrorKind::Integrity,
            Error::PeerMessageBencode => ErrorKind::Protocol,
            Error::Network => ErrorKind::Transport,
        }
    }
}

} // verus!
