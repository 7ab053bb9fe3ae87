//! The fetcher: drives a sequential request loop against a remote peer until
//! the full dictionary is retrieved and verified against the target
//! identifier, or the session fails.

use vstd::prelude::*;

use crate::bencode::encode_handshake;
use crate::bencode::encode_um;
use crate::bencode::read_handshake;
use crate::bencode::spec_encode_handshake;
use crate::bencode::spec_encode_um;
use crate::bencode::spec_parse_handshake;
use crate::bencode::spec_parse_um;
use crate::pieces::spec_piece_count;
use crate::bencode::lemma_parse_um_sound;
use crate::conn::Conn;
use crate::digest::canon_of;
use crate::digest::canonicalize;
use crate::digest::sha1_of;
use crate::digest::Infohash;
use crate::errors::Error;
use crate::message::new_extended;
use crate::message::spec_extension_msg;
use crate::message::HandshakeInfo;
use crate::message::Message;
use crate::message::UtMetadata;
use crate::message::EXT_HANDSHAKE_ID;
use crate::message::LOCAL_UT_METADATA_ID;
use crate::message::PIECE_LENGTH;
use crate::strategy::handle_message;
use crate::strategy::Behaviour;

verus! {

/// Dictionary bytes this engine may hand out for `target`: one well-formed
/// dictionary, in canonical form, whose digest is the target identifier.
pub open spec fn valid_info(bytes: Seq<u8>, target: Seq<u8>) -> bool {
    &&& sha1_of(bytes) == target
    &&& bytes.len() > 0
    &&& bytes[0] == 100
}

/// What negotiation derives from a peer's handshake: the declared total size
/// and the peer's metadata-extension id, or why the peer cannot be fetched
/// from.
pub open spec fn spec_negotiate(h: HandshakeInfo) -> Result<(u64, u8), Error> {
    match h.metadata_size {
        None => Err(Error::PeerUtMetadataMetadataSizeNotKnown),
        Some(size) => match h.ut_metadata_id {
            None => Err(Error::PeerUtMetadataNotSupported),
            Some(id) => Ok((size, id)),
        },
    }
}

/// Derive the negotiated size and metadata-extension id from a peer's
/// handshake: the peer must declare a total metadata size and list an id for
/// the metadata extension.
pub fn negotiate(h: &HandshakeInfo) -> (r: Result<(u64, u8), Error>)
    ensures
        r == spec_negotiate(*h),
{
    let size = match h.metadata_size {
        Some(size) => size,
        None => {
            return Err(Error::PeerUtMetadataMetadataSizeNotKnown);
        },
    };
    let id = match h.ut_metadata_id {
        Some(id) => id,
        None => {
            return Err(Error::PeerUtMetadataNotSupported);
        },
    };
    Ok((size, id))
}

/// A peer whose handshake lists no id for the metadata extension never
/// negotiates: fetch construction fails with a negotiation error, whatever
/// else the handshake declares.
pub proof fn lemma_missing_metadata_id_fails_negotiation(h: HandshakeInfo)
    requires
        h.ut_metadata_id is None,
    ensures
        spec_negotiate(h) is Err,
        spec_negotiate(h)->Err_0.spec_kind() == crate::errors::ErrorKind::Negotiation,
{
}

/// The extension handshake a fetcher sends: it announces no metadata size,
/// since none is known yet, and lists this engine's id for the metadata
/// extension.
pub open spec fn spec_fetcher_handshake_msg() -> crate::message::MessageV {
    spec_extension_msg(EXT_HANDSHAKE_ID, spec_encode_handshake(None, Some(LOCAL_UT_METADATA_ID)))
}

/// The request message a fetcher sends for piece `piece`, addressed with the
/// peer's metadata-extension id.
pub open spec fn spec_request_msg(id: u8, piece: u64) -> crate::message::MessageV {
    spec_extension_msg(id, spec_encode_um(UtMetadata::spec_request(piece)))
}

/// A metadata fetch session: one connection, the target identifier, the
/// negotiated message id and declared size, and the accumulated bytes.
pub struct InfoFetcher<C: Conn> {
    /// The target identifier fetched metadata must hash to.
    pub infohash: Infohash,
    /// The connection to the remote peer.
    pub conn: C,
    /// The peer's id for the metadata extension, learnt from its handshake.
    pub ut_metadata_message_id: u8,
    /// The total size the peer declared for the serialized dictionary.
    pub metadata_size: u64,
    /// Bytes accumulated so far, piece by piece.
    pub info_dict: Vec<u8>,
    /// The verified dictionary, canonical form, once the transfer completed.
    pub info: Option<Vec<u8>>,
}

impl<C: Conn> InfoFetcher<C> {
    /// Open a fetch session: require the extension protocol, send our own
    /// handshake, read the peer's, and negotiate size and message id. Fails
    /// before any piece request is sent.
    pub fn new(conn: C, infohash: Infohash) -> (r: Result<InfoFetcher<C>, Error>)
        requires
            conn.inv(),
        ensures
            !conn.supports_ext() ==> r == Err::<InfoFetcher<C>, Error>(
                Error::PeerUtMetadataNotSupported,
            ),
            match r {
                Ok(f) => {
                    &&& f.inv()
                    &&& f.infohash == infohash
                    &&& f.info_dict@.len() == 0
                    &&& f.info is None
                    &&& f.conn.sent() == conn.sent().push(spec_fetcher_handshake_msg())
                },
                Err(e) => true,
            },
    {
        let mut conn = conn;
        if !conn.supports_extension_protocol() {
            return Err(Error::PeerUtMetadataNotSupported);
        }
        let hs = new_extended(
            EXT_HANDSHAKE_ID,
            encode_handshake(None, Some(LOCAL_UT_METADATA_ID)),
        );
        match conn.send(&hs) {
            Ok(()) => {},
            Err(e) => {
                return Err(e);
            },
        }
        let m = match conn.recv() {
            Ok(m) => m,
            Err(e) => {
                return Err(e);
            },
        };
        let payload = match m {
            Message::Extension { payload } => payload,
            Message::Other => {
                return Err(Error::PeerMessageBencode);
            },
        };
        if payload.len() == 0 {
            return Err(Error::PeerMessageBencode);
        }
        if payload[0] != EXT_HANDSHAKE_ID {
            return Err(Error::PeerMessageBencode);
        }
        let rest = vstd::slice::slice_subrange(payload.as_slice(), 1, payload.len());
        let h = match read_handshake(rest) {
            Some(h) => h,
            None => {
                return Err(Error::PeerMessageBencode);
            },
        };
        let (metadata_size, ut_metadata_message_id) = match negotiate(&h) {
            Ok(x) => x,
            Err(e) => {
                return Err(e);
            },
        };
        Ok(
            InfoFetcher {
                conn,
                infohash,
                info_dict: Vec::new(),
                metadata_size,
                ut_metadata_message_id,
                info: None,
            },
        )
    }

    /// Run the fetch: send our handshake, request piece zero, then receive
    /// and dispatch until a verified dictionary is in hand or the session
    /// fails. Whatever the peer does, a returned dictionary is well-formed,
    /// canonical, and hashes to the target identifier.
    pub fn run(self) -> (r: Result<Vec<u8>, Error>)
        requires
            self.inv(),
        ensures
            match r {
                Ok(v) => valid_info(v@, self.infohash@),
                Err(e) => true,
            },
    {
        let mut this = self;
        let hs = new_extended(
            EXT_HANDSHAKE_ID,
            encode_handshake(None, Some(LOCAL_UT_METADATA_ID)),
        );
        match this.conn.send(&hs) {
            Ok(()) => {},
            Err(e) => {
                return Err(e);
            },
        }
        let req = new_extended(this.ut_metadata_message_id, encode_um(&UtMetadata::request(0)));
        match this.conn.send(&req) {
            Ok(()) => {},
            Err(e) => {
                return Err(e);
            },
        }
        loop
            invariant
                this.inv(),
                this.infohash@ == self.infohash@,
            decreases this.conn.fuel(),
        {
            let m = match this.conn.recv() {
                Ok(m) => m,
                Err(e) => {
                    return Err(e);
                },
            };
            match handle_message(&mut this, &m) {
                Ok(()) => {},
                Err(e) => {
                    return Err(e);
                },
            }
            match this.info.take() {
                Some(v) => {
                    return Ok(v);
                },
                None => {},
            }
        }
    }

    /// Tampering never pays: however the peer behaves — a flipped byte in
    /// the final piece included — any outcome of `run` that carries a
    /// dictionary carries one whose digest is the target identifier. Bytes
    /// with any other digest can only come back as an error.
    pub proof fn lemma_run_never_returns_unverified_data(
        f: InfoFetcher<C>,
        r: Result<Vec<u8>, Error>,
    )
        requires
            call_ensures(InfoFetcher::<C>::run, (f,), r),
        ensures
            r matches Ok(v) ==> sha1_of(v@) == f.infohash@,
    {
    }

    /// One round of the piece protocol, through dispatch: a fetcher that has
    /// accumulated the first `i` pieces of `dict` and is routed exactly the
    /// Data payload a seeder sends for piece `i` appends exactly that piece.
    /// Before the last piece it asks for piece `i + 1`; on the last piece,
    /// when `dict` is a canonical dictionary hashing to the target, the
    /// session completes with `dict` itself. Chained over every piece, this
    /// is the round trip of a seed-and-fetch exchange, short of the
    /// connection in between.
    pub proof fn lemma_fetch_round(
        pre: InfoFetcher<C>,
        dict: Seq<u8>,
        i: int,
        post: InfoFetcher<C>,
        r: Result<(), Error>,
    )
        requires
            0 <= i < spec_piece_count(dict.len() as nat),
            pre.metadata_size == dict.len(),
            pre.info_dict@ == crate::pieces::pieces_prefix(dict, i),
            pre.info is None,
            crate::strategy::spec_route_um(
                pre,
                spec_encode_um(UtMetadata::spec_data(i as u64, dict.len() as u64))
                    + crate::seeder::spec_piece_bytes(dict, i),
                post,
                r,
            ),
        ensures
            i + 1 < spec_piece_count(dict.len() as nat) ==> {
                &&& post.info_dict@ == crate::pieces::pieces_prefix(dict, i + 1)
                &&& post.info is None
                &&& (r is Ok ==> post.conn.sent() == pre.conn.sent().push(
                    spec_request_msg(pre.ut_metadata_message_id, (i + 1) as u64),
                ))
            },
            i + 1 == spec_piece_count(dict.len() as nat) && canon_of(dict) == Some(dict)
                && sha1_of(dict) == pre.infohash@ && dict.len() > 0 && dict[0] == 100 ==> {
                &&& r is Ok
                &&& (post.info matches Some(v) && v@ == dict)
            },
    {
        let p = PIECE_LENGTH as int;
        let c = spec_piece_count(dict.len() as nat) as int;
        let m = UtMetadata::spec_data(i as u64, dict.len() as u64);
        let enc = spec_encode_um(m);
        let pb = crate::seeder::spec_piece_bytes(dict, i);
        let payload = enc + pb;
        crate::bencode::lemma_parse_um_complete(m, pb);
        assert(payload.skip(enc.len() as int) =~= pb);
        crate::pieces::lemma_piece_geometry(dict.len() as nat);
        assert(i * p <= (c - 1) * p) by (nonlinear_arith)
            requires
                i <= c - 1,
                p > 0,
        ;
        crate::pieces::lemma_pieces_reassemble(dict, i);
        assert(pre.info_dict@.len() == i * p);
        vstd::arithmetic::div_mod::lemma_fundamental_div_mod_converse(i * p, p, i, 0);
        assert(pre.info_dict@.len() as int / p == i);
        assert(m.piece as int == i);
        let acc2 = pre.info_dict@ + pb;
        assert(acc2 =~= crate::pieces::pieces_prefix(dict, i + 1));
        crate::pieces::lemma_pieces_reassemble(dict, i + 1);
        if i + 1 < c {
            assert((i + 1) * p <= (c - 1) * p) by (nonlinear_arith)
                requires
                    i + 1 <= c - 1,
                    p > 0,
            ;
            assert(acc2.len() == (i + 1) * p);
            assert(acc2.len() < dict.len());
        } else {
            assert(i + 1 == c);
            if (i + 1) * p <= dict.len() {
                assert(acc2 =~= dict);
            }
            assert(acc2.len() == dict.len());
        }
    }

    /// Decode the accumulated bytes as one dictionary, re-encode canonically,
    /// hash, and compare against the target identifier; a match stores the
    /// canonical dictionary as the session's result.
    fn verify_info_dict(&mut self) -> (r: Result<(), Error>)
        requires
            old(self).inv(),
        ensures
            final(self).inv(),
            final(self).infohash == old(self).infohash,
            final(self).conn == old(self).conn,
            final(self).info_dict == old(self).info_dict,
            final(self).metadata_size == old(self).metadata_size,
            final(self).ut_metadata_message_id == old(self).ut_metadata_message_id,
            match canon_of(old(self).info_dict@) {
                None => r == Err::<(), Error>(Error::PeerUtMetadataInfoDeserialize) && final(self).info == old(self).info,
                Some(c) => {
                    if c.len() == 0 || c[0] != 100 {
                        r == Err::<(), Error>(Error::PeerUtMetadataInfoDeserialize) && final(self).info == old(self).info
                    } else if sha1_of(c) != old(self).infohash@ {
                        r == Err::<(), Error>(Error::PeerUtMetadataWrongInfohash) && final(self).info == old(self).info
                    } else {
                        r is Ok && (final(self).info matches Some(v) && v@ == c)
                    }
                },
            },
    {
        let canon = match canonicalize(self.info_dict.as_slice()) {
            Some(canon) => canon,
            None => {
                return Err(Error::PeerUtMetadataInfoDeserialize);
            },
        };
        if canon.len() == 0 || canon[0] != 100 {
            return Err(Error::PeerUtMetadataInfoDeserialize);
        }
        let h = Infohash::from_bencoded_info_dict(canon.as_slice());
        if h.matches(&self.infohash) {
            self.info = Some(canon);
            Ok(())
        } else {
            Err(Error::PeerUtMetadataWrongInfohash)
        }
    }
}

impl<C: Conn> Behaviour for InfoFetcher<C> {
    /// A fetch session is well-formed when its connection is, the
    /// accumulated bytes never exceed the declared size, and any stored
    /// result already passed verification against the target identifier.
    open spec fn inv(&self) -> bool {
        &&& self.conn.inv()
        &&& self.info_dict@.len() <= self.metadata_size
        &&& match self.info {
            Some(v) => valid_info(v@, self.infohash@),
            None => true,
        }
    }

    /// The target identifier: no hook changes what the session fetches for.
    open spec fn frame(&self) -> Seq<u8> {
        self.infohash@
    }

    /// The connection's receive budget.
    open spec fn fuel(&self) -> nat {
        self.conn.fuel()
    }

    /// A re-handshake re-derives size and message id exactly as at
    /// construction, with the same failure modes, and discards any partial
    /// accumulation; failure leaves the session untouched.
    open spec fn handshake_spec(
        pre: Self,
        payload: Seq<u8>,
        post: Self,
        r: Result<(), Error>,
    ) -> bool {
        &&& post.infohash == pre.infohash
        &&& post.conn == pre.conn
        &&& match spec_parse_handshake(payload) {
            None => r == Err::<(), Error>(Error::PeerMessageBencode) && post == pre,
            Some(h) => match spec_negotiate(h) {
                Err(e) => r == Err::<(), Error>(e) && post == pre,
                Ok((size, id)) => {
                    &&& r is Ok
                    &&& post.metadata_size == size
                    &&& post.ut_metadata_message_id == id
                    &&& post.info_dict@.len() == 0
                    &&& post.info == pre.info
                },
            },
        }
    }

    /// One piece arrived: it must be the expected next index and fit in one
    /// piece; its trailing bytes are appended; reaching the declared size
    /// triggers verification, staying short requests the next piece, and any
    /// violation is the exact error with the session untouched.
    open spec fn data_spec(
        pre: Self,
        msg: UtMetadata,
        payload: Seq<u8>,
        post: Self,
        r: Result<(), Error>,
    ) -> bool {
        &&& post.infohash == pre.infohash
        &&& post.metadata_size == pre.metadata_size
        &&& post.ut_metadata_message_id == pre.ut_metadata_message_id
        &&& ({
            let expected = pre.info_dict@.len() as int / PIECE_LENGTH as int;
            let tail = payload.skip(spec_encode_um(msg).len() as int);
            let acc2 = pre.info_dict@ + tail;
            if msg.piece as int != expected {
                r == Err::<(), Error>(Error::PeerUtMetadataWrongPiece) && post == pre
            } else if tail.len() > PIECE_LENGTH {
                r == Err::<(), Error>(Error::PeerUtMetadataPieceLength) && post == pre
            } else if acc2.len() > pre.metadata_size {
                r == Err::<(), Error>(Error::PeerUtMetadataInfoLength) && post == pre
            } else if acc2.len() < pre.metadata_size {
                post.info_dict@ == acc2 && post.info == pre.info && (r is Ok
                    ==> post.conn.sent() == pre.conn.sent().push(
                    spec_request_msg(pre.ut_metadata_message_id, (expected + 1) as u64),
                ))
            } else {
                post.info_dict@ == acc2 && match canon_of(acc2) {
                    None => r == Err::<(), Error>(Error::PeerUtMetadataInfoDeserialize)
                        && post.info == pre.info,
                    Some(c) => {
                        if c.len() == 0 || c[0] != 100 {
                            r == Err::<(), Error>(Error::PeerUtMetadataInfoDeserialize)
                                && post.info == pre.info
                        } else if sha1_of(c) != pre.infohash@ {
                            r == Err::<(), Error>(Error::PeerUtMetadataWrongInfohash)
                                && post.info == pre.info
                        } else {
                            r is Ok && (post.info matches Some(v) && v@ == c)
                        }
                    },
                }
            }
        })
    }

    /// A fetcher never serves pieces: a request is a no-op.
    open spec fn request_spec(pre: Self, msg: UtMetadata, post: Self, r: Result<(), Error>) -> bool {
        post == pre && r is Ok
    }

    /// One piece arrived; see [`InfoFetcher::data_spec`].
    fn ut_metadata_data(&mut self, msg: UtMetadata, payload: &[u8]) -> (r: Result<(), Error>)
    {
        let piece = self.info_dict.len() / PIECE_LENGTH;
        if msg.piece != piece as u64 {
            return Err(Error::PeerUtMetadataWrongPiece);
        }
        // The payload holds the encoded header immediately followed by raw
        // dictionary bytes, with nothing marking the boundary: recover it by
        // re-encoding the header and taking its length.
        let header = encode_um(&msg);
        let piece_offset = header.len();
        proof {
            let (m0, n0) = spec_parse_um(payload@).unwrap();
            lemma_parse_um_sound(payload@, m0, n0);
        }
        if payload.len() - piece_offset > PIECE_LENGTH {
            return Err(Error::PeerUtMetadataPieceLength);
        }
        let tail_len = payload.len() - piece_offset;
        if tail_len as u64 > self.metadata_size || self.info_dict.len() as u64
            > self.metadata_size - tail_len as u64 {
            return Err(Error::PeerUtMetadataInfoLength);
        }
        let ghost acc2 = old(self).info_dict@ + payload@.skip(piece_offset as int);
        let mut k = piece_offset;
        while k < payload.len()
            invariant
                piece_offset <= k <= payload@.len(),
                self.info_dict@ == old(self).info_dict@ + payload@.subrange(
                    piece_offset as int,
                    k as int,
                ),
                self.infohash == old(self).infohash,
                self.conn == old(self).conn,
                self.metadata_size == old(self).metadata_size,
                self.ut_metadata_message_id == old(self).ut_metadata_message_id,
                self.info == old(self).info,
            decreases payload@.len() - k,
        {
            self.info_dict.push(payload[k]);
            k = k + 1;
            proof {
                assert(self.info_dict@ =~= old(self).info_dict@ + payload@.subrange(
                    piece_offset as int,
                    k as int,
                ));
            }
        }
        proof {
            assert(self.info_dict@ =~= acc2);
        }
        if (self.info_dict.len() as u64) == self.metadata_size {
            self.verify_info_dict()
        } else {
            let req = new_extended(
                self.ut_metadata_message_id,
                encode_um(&UtMetadata::request(piece as u64 + 1)),
            );
            match self.conn.send(&req) {
                Ok(()) => Ok(()),
                Err(e) => Err(e),
            }
        }
    }

    /// The peer re-handshook mid-session; see [`InfoFetcher::handshake_spec`].
    fn extension_handshake(&mut self, payload: &[u8]) -> (r: Result<(), Error>)
    {
        let h = match read_handshake(payload) {
            Some(h) => h,
            None => {
                return Err(Error::PeerMessageBencode);
            },
        };
        let (metadata_size, ut_metadata_message_id) = match negotiate(&h) {
            Ok(x) => x,
            Err(e) => {
                return Err(e);
            },
        };
        self.metadata_size = metadata_size;
        self.ut_metadata_message_id = ut_metadata_message_id;
        self.info_dict.clear();
        Ok(())
    }

    /// A fetcher never serves pieces: requests are ignored.
    fn ut_metadata_request(&mut self, _msg: UtMetadata) -> (r: Result<(), Error>) {
        Ok(())
    }
}

} // verus!
