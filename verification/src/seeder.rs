//! The seeder: answers piece requests from a locally held, already-known
//! dictionary, indefinitely, swallowing per-message failures.

use vstd::prelude::*;

use crate::bencode::encode_handshake;
use crate::bencode::encode_um;
use crate::bencode::read_handshake;
use crate::bencode::spec_encode_handshake;
use crate::bencode::spec_encode_um;
use crate::conn::Conn;
use crate::digest::sha1_of;
use crate::digest::Infohash;
use crate::errors::Error;
use crate::message::new_extended;
use crate::message::spec_extension_msg;
use crate::message::Message;
use crate::message::MessageV;
use crate::message::UtMetadata;
use crate::message::EXT_HANDSHAKE_ID;
use crate::message::LOCAL_UT_METADATA_ID;
use crate::message::PIECE_LENGTH;
use crate::pieces::piece_count;
use crate::pieces::lemma_piece_geometry;
use crate::pieces::spec_piece_count;
use crate::strategy::handle_message;
use crate::strategy::Behaviour;

verus! {

/// The bytes of piece `piece` of a serialized dictionary: one full piece, or
/// whatever remains for the final piece.
pub open spec fn spec_piece_bytes(dict: Seq<u8>, piece: int) -> Seq<u8> {
    if (piece + 1) * PIECE_LENGTH <= dict.len() {
        dict.subrange(piece * PIECE_LENGTH, (piece + 1) * PIECE_LENGTH)
    } else {
        dict.subrange(piece * PIECE_LENGTH, dict.len() as int)
    }
}

/// The Data message a seeder sends for piece `piece` of `dict`: the header,
/// declaring the dictionary's total size, immediately followed by the raw
/// piece bytes with no delimiter.
pub open spec fn spec_data_msg(id: u8, piece: int, dict: Seq<u8>) -> MessageV {
    spec_extension_msg(
        id,
        spec_encode_um(UtMetadata::spec_data(piece as u64, dict.len() as u64))
            + spec_piece_bytes(dict, piece),
    )
}

/// The extension handshake a seeder sends: it announces the dictionary's
/// total size and lists this engine's id for the metadata extension.
pub open spec fn spec_seeder_handshake_msg(size: u64) -> MessageV {
    spec_extension_msg(
        EXT_HANDSHAKE_ID,
        spec_encode_handshake(Some(size), Some(LOCAL_UT_METADATA_ID)),
    )
}

/// A seeding session: one connection, the full serialized dictionary, the
/// peer's metadata-extension id and the derived piece count.
pub struct InfoSeeder<C: Conn> {
    /// The connection to the remote peer.
    pub conn: C,
    /// The peer's id for the metadata extension, learnt from its handshake.
    pub ut_metadata_message_id: u8,
    /// Total size of the serialized dictionary.
    pub metadata_size: usize,
    /// The full serialized dictionary being served.
    pub info_dict: Vec<u8>,
    /// Number of pieces the dictionary splits into.
    pub pieces: usize,
}

impl<C: Conn> InfoSeeder<C> {
    /// Open a seeding session: require the extension protocol, read the
    /// peer's handshake and capture its id for the metadata extension.
    pub fn new(conn: C, info_dict: Vec<u8>) -> (r: Result<InfoSeeder<C>, Error>)
        requires
            conn.inv(),
        ensures
            !conn.supports_ext() ==> r == Err::<InfoSeeder<C>, Error>(
                Error::PeerUtMetadataNotSupported,
            ),
            match r {
                Ok(s) => {
                    &&& s.inv()
                    &&& s.info_dict == info_dict
                    &&& s.conn.sent() == conn.sent()
                },
                Err(e) => true,
            },
    {
        let mut conn = conn;
        if !conn.supports_extension_protocol() {
            return Err(Error::PeerUtMetadataNotSupported);
        }
        let m = match conn.recv() {
            Ok(m) => m,
            Err(e) => {
                return Err(e);
            },
        };
        let payload = match m {
            Message::Extension { payload } => payload,
            Message::Other => {
                return Err(Error::PeerMessageBencode);
            },
        };
        if payload.len() == 0 {
            return Err(Error::PeerMessageBencode);
        }
        if payload[0] != EXT_HANDSHAKE_ID {
            return Err(Error::PeerMessageBencode);
        }
        let rest = vstd::slice::slice_subrange(payload.as_slice(), 1, payload.len());
        let h = match read_handshake(rest) {
            Some(h) => h,
            None => {
                return Err(Error::PeerMessageBencode);
            },
        };
        let ut_metadata_message_id = match h.ut_metadata_id {
            Some(id) => id,
            None => {
                return Err(Error::PeerUtMetadataNotSupported);
            },
        };
        let pieces = piece_count(info_dict.len());
        Ok(
            InfoSeeder {
                conn,
                metadata_size: info_dict.len(),
                info_dict,
                ut_metadata_message_id,
                pieces,
            },
        )
    }

    /// The identifier the served dictionary answers to: the digest of its
    /// bytes.
    pub fn target_infohash(&self) -> (h: Infohash)
        ensures
            h@ == sha1_of(self.info_dict@),
    {
        Infohash::from_bencoded_info_dict(self.info_dict.as_slice())
    }

    /// Send our extension handshake, announcing the dictionary's size.
    pub fn send_extended_handshake(&mut self) -> (r: Result<(), Error>)
        requires
            old(self).inv(),
        ensures
            final(self).inv(),
            final(self).info_dict == old(self).info_dict,
            final(self).pieces == old(self).pieces,
            final(self).metadata_size == old(self).metadata_size,
            final(self).ut_metadata_message_id == old(self).ut_metadata_message_id,
            final(self).conn.fuel() <= old(self).conn.fuel(),
            r is Ok ==> final(self).conn.sent() == old(self).conn.sent().push(
                spec_seeder_handshake_msg(old(self).info_dict@.len() as u64),
            ),
            r is Err ==> final(self).conn.sent() == old(self).conn.sent(),
    {
        let msg = new_extended(
            EXT_HANDSHAKE_ID,
            encode_handshake(Some(self.info_dict.len() as u64), Some(LOCAL_UT_METADATA_ID)),
        );
        self.conn.send(&msg)
    }

    /// Send the Data message for one in-range piece: its header followed by
    /// exactly that piece's byte range of the dictionary.
    pub fn send_ut_metadata_data(&mut self, piece: usize) -> (r: Result<(), Error>)
        requires
            old(self).inv(),
            piece < old(self).pieces,
        ensures
            final(self).inv(),
            final(self).info_dict == old(self).info_dict,
            final(self).pieces == old(self).pieces,
            final(self).metadata_size == old(self).metadata_size,
            final(self).ut_metadata_message_id == old(self).ut_metadata_message_id,
            final(self).conn.fuel() <= old(self).conn.fuel(),
            r is Ok ==> final(self).conn.sent() == old(self).conn.sent().push(
                spec_data_msg(
                    old(self).ut_metadata_message_id,
                    piece as int,
                    old(self).info_dict@,
                ),
            ),
            r is Err ==> final(self).conn.sent() == old(self).conn.sent(),
    {
        let len = self.info_dict.len();
        proof {
            assert(spec_piece_count(0) == 0);
            assert(len > 0);
            lemma_piece_geometry(len as nat);
            assert((piece as int) * (PIECE_LENGTH as int) <= (self.pieces as int - 1) * (
            PIECE_LENGTH as int)) by (nonlinear_arith)
                requires
                    0 <= piece as int <= self.pieces as int - 1,
            ;
        }
        let start = PIECE_LENGTH * piece;
        let end = if len - start < PIECE_LENGTH {
            len
        } else {
            start + PIECE_LENGTH
        };
        let mut body = encode_um(&UtMetadata::data(piece as u64, self.metadata_size as u64));
        let ghost header = body@;
        let mut k = start;
        while k < end
            invariant
                start <= k <= end <= self.info_dict@.len(),
                body@ == header + self.info_dict@.subrange(start as int, k as int),
            decreases end - k,
        {
            let b = self.info_dict[k];
            body.push(b);
            k = k + 1;
            proof {
                assert(body@ =~= header + self.info_dict@.subrange(start as int, k as int));
            }
        }
        proof {
            assert(header + self.info_dict@.subrange(start as int, end as int)
                =~= spec_encode_um(
                UtMetadata::spec_data(piece as u64, self.info_dict@.len() as u64),
            ) + spec_piece_bytes(self.info_dict@, piece as int));
        }
        let msg = new_extended(self.ut_metadata_message_id, body);
        self.conn.send(&msg)
    }

    /// Serve forever: send our handshake, then receive and dispatch until the
    /// connection fails. Per-message dispatch failures are swallowed, an
    /// availability-over-strictness choice: one bad request must not take the
    /// serving session down. Only a transport failure ends the loop.
    pub fn seed(self) -> (r: Result<(), Error>)
        requires
            self.inv(),
        ensures
            r is Err,
    {
        let mut this = self;
        match this.send_extended_handshake() {
            Ok(()) => {},
            Err(e) => {
                return Err(e);
            },
        }
        loop
            invariant
                this.inv(),
            decreases this.conn.fuel(),
        {
            let m = match this.conn.recv() {
                Ok(m) => m,
                Err(e) => {
                    return Err(e);
                },
            };
            match handle_message(&mut this, &m) {
                Ok(()) => {},
                Err(_) => {},
            }
        }
    }
}

/// Seeder resilience, through dispatch: a message whose metadata payload
/// does not decode comes back as a bencode error with the session exactly as
/// it was, and an in-range request routed afterwards through the same
/// dispatch is still answered with that piece's Data message, as if the bad
/// message had never arrived.
pub proof fn lemma_seeder_resilience<C: Conn>(
    pre: InfoSeeder<C>,
    bad: Seq<u8>,
    mid: InfoSeeder<C>,
    r1: Result<(), Error>,
    good: Seq<u8>,
    msg: UtMetadata,
    post: InfoSeeder<C>,
    r2: Result<(), Error>,
)
    requires
        crate::bencode::spec_parse_um(bad) is None,
        crate::strategy::spec_route_um(pre, bad, mid, r1),
        crate::bencode::spec_parse_um(good) matches Some((m, n)) && m == msg,
        msg.msg_type == crate::message::MSG_TYPE_REQUEST,
        (msg.piece as int) < pre.pieces as int,
        crate::strategy::spec_route_um(mid, good, post, r2),
    ensures
        r1 == Err::<(), Error>(Error::PeerMessageBencode),
        mid == pre,
        r2 is Ok ==> post.conn.sent() == pre.conn.sent().push(
            spec_data_msg(pre.ut_metadata_message_id, msg.piece as int, pre.info_dict@),
        ),
{
}

impl<C: Conn> Behaviour for InfoSeeder<C> {
    /// A seeding session is well-formed when its connection is, its declared
    /// size is the dictionary's length, and its piece count is derived from
    /// that length.
    open spec fn inv(&self) -> bool {
        &&& self.conn.inv()
        &&& self.metadata_size == self.info_dict@.len()
        &&& self.pieces as nat == spec_piece_count(self.info_dict@.len() as nat)
    }

    /// The dictionary being served: no hook changes it.
    open spec fn frame(&self) -> Seq<u8> {
        self.info_dict@
    }

    /// The connection's receive budget.
    open spec fn fuel(&self) -> nat {
        self.conn.fuel()
    }

    /// A pure seeder ignores handshakes beyond the one read at construction.
    open spec fn handshake_spec(
        pre: Self,
        payload: Seq<u8>,
        post: Self,
        r: Result<(), Error>,
    ) -> bool {
        post == pre && r is Ok
    }

    /// A pure seeder never consumes incoming metadata.
    open spec fn data_spec(
        pre: Self,
        msg: UtMetadata,
        payload: Seq<u8>,
        post: Self,
        r: Result<(), Error>,
    ) -> bool {
        post == pre && r is Ok
    }

    /// A request at or beyond the piece count is silently ignored, no Reject
    /// sent and nothing changed; an in-range request is answered with exactly
    /// that piece's Data message.
    open spec fn request_spec(pre: Self, msg: UtMetadata, post: Self, r: Result<(), Error>) -> bool {
        &&& post.info_dict == pre.info_dict
        &&& post.pieces == pre.pieces
        &&& post.metadata_size == pre.metadata_size
        &&& post.ut_metadata_message_id == pre.ut_metadata_message_id
        &&& (msg.piece as int >= pre.pieces as int ==> r is Ok && post == pre)
        &&& ((msg.piece as int) < pre.pieces as int ==> {
            &&& (r is Ok ==> post.conn.sent() == pre.conn.sent().push(
                spec_data_msg(pre.ut_metadata_message_id, msg.piece as int, pre.info_dict@),
            ))
            &&& (r is Err ==> post.conn.sent() == pre.conn.sent())
        })
    }

    /// A pure seeder never consumes incoming metadata.
    fn ut_metadata_data(&mut self, _msg: UtMetadata, _payload: &[u8]) -> (r: Result<(), Error>) {
        Ok(())
    }

    /// A pure seeder ignores handshakes beyond the one read at construction.
    fn extension_handshake(&mut self, _payload: &[u8]) -> (r: Result<(), Error>) {
        Ok(())
    }

    /// Answer or ignore one request; see [`InfoSeeder::request_spec`].
    fn ut_metadata_request(&mut self, msg: UtMetadata) -> (r: Result<(), Error>)
    {
        if msg.piece >= self.pieces as u64 {
            return Ok(());
        }
        self.send_ut_metadata_data(msg.piece as usize)
    }
}

} // verus!
