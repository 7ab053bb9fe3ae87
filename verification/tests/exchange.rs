//! End-to-end exchanges between a fetcher and a seeder over in-memory
//! connections.

use metadata_exchange::bencode::encode_handshake;
use metadata_exchange::bencode::encode_um;
use metadata_exchange::conn::QueueConn;
use metadata_exchange::conn::ScriptedConn;
use metadata_exchange::digest::Infohash;
use metadata_exchange::errors::Error;
use metadata_exchange::errors::ErrorKind;
use metadata_exchange::fetcher::InfoFetcher;
use metadata_exchange::loopback::LoopbackConn;
use metadata_exchange::message::new_extended;
use metadata_exchange::message::Message;
use metadata_exchange::message::UtMetadata;
use metadata_exchange::message::EXT_HANDSHAKE_ID;
use metadata_exchange::message::LOCAL_UT_METADATA_ID;
use metadata_exchange::message::PIECE_LENGTH;
use metadata_exchange::seeder::InfoSeeder;
use metadata_exchange::strategy::handle_message;

fn one_piece_dict() -> Vec<u8> {
    b"d6:lengthi1e4:name3:fooe".to_vec()
}

fn two_piece_dict() -> Vec<u8> {
    format!("d6:lengthi1e4:name{}:{}e", PIECE_LENGTH, "a".repeat(PIECE_LENGTH)).into_bytes()
}

fn handshake_msg(size: Option<u64>, id: Option<u8>) -> Message {
    new_extended(EXT_HANDSHAKE_ID, encode_handshake(size, id))
}

fn data_msg(piece: u64, total_size: u64, bytes: &[u8]) -> Message {
    let mut body = encode_um(&UtMetadata::data(piece, total_size));
    body.extend_from_slice(bytes);
    new_extended(LOCAL_UT_METADATA_ID, body)
}

fn request_msg(piece: u64) -> Message {
    new_extended(LOCAL_UT_METADATA_ID, encode_um(&UtMetadata::request(piece)))
}

#[test]
fn extension_handshake_ok() {
    let dict = one_piece_dict();
    let infohash = Infohash::from_bencoded_info_dict(&dict);
    let conn = LoopbackConn::new(dict, 16);
    let fetcher = InfoFetcher::new(conn, infohash);
    assert!(fetcher.is_ok());
}

#[test]
fn extension_handshake_timeout() {
    let dict = one_piece_dict();
    let infohash = Infohash::from_bencoded_info_dict(&dict);
    let conn = ScriptedConn::new(Vec::new(), true);
    let fetcher = InfoFetcher::new(conn, infohash);
    assert!(matches!(fetcher, Err(Error::Network)));
}

#[test]
fn extension_handshake_no_metadata_size() {
    let dict = one_piece_dict();
    let infohash = Infohash::from_bencoded_info_dict(&dict);
    let conn = ScriptedConn::new(vec![handshake_msg(None, Some(LOCAL_UT_METADATA_ID))], true);
    let fetcher = InfoFetcher::new(conn, infohash);
    assert!(matches!(fetcher, Err(Error::PeerUtMetadataMetadataSizeNotKnown)));
}

#[test]
fn extension_handshake_no_ut_metadata_message() {
    let dict = one_piece_dict();
    let infohash = Infohash::from_bencoded_info_dict(&dict);
    let conn = ScriptedConn::new(vec![handshake_msg(Some(1337), None)], true);
    let fetcher = InfoFetcher::new(conn, infohash);
    assert!(matches!(fetcher, Err(Error::PeerUtMetadataNotSupported)));
}

#[test]
fn one_piece_success() {
    let dict = one_piece_dict();
    let infohash = Infohash::from_bencoded_info_dict(&dict);
    let conn = LoopbackConn::new(dict.clone(), 16);
    let fetcher = InfoFetcher::new(conn, infohash).unwrap();
    assert_eq!(fetcher.run().unwrap(), dict);
}

#[test]
fn two_piece_success() {
    let dict = two_piece_dict();
    assert!(dict.len() > PIECE_LENGTH && dict.len() <= 2 * PIECE_LENGTH);
    let infohash = Infohash::from_bencoded_info_dict(&dict);
    let conn = LoopbackConn::new(dict.clone(), 16);
    let fetcher = InfoFetcher::new(conn, infohash).unwrap();
    assert_eq!(fetcher.run().unwrap(), dict);
}

#[test]
fn bt_handshake_bad_header() {}

#[test]
fn handshake_infohash_mismatch() {}

#[test]
fn bt_connection_timeout() {}

#[test]
fn ut_metadata_wrong_piece_length() {}

#[test]
fn ut_metadata_receive_wrong_piece() {}

#[test]
fn receive_info_dict_with_wrong_infohash() {}

#[test]
fn receive_info_dict_that_fails_to_deserialize() {}

#[test]
fn receive_info_dict_with_wrong_metadata_size() {}

// --- scenarios beyond the ones above -----------------------------------

#[test]
fn extension_protocol_unsupported_fails_negotiation() {
    let dict = one_piece_dict();
    let infohash = Infohash::from_bencoded_info_dict(&dict);
    let conn = ScriptedConn::new(Vec::new(), false);
    let fetcher = InfoFetcher::new(conn, infohash);
    assert!(matches!(fetcher, Err(Error::PeerUtMetadataNotSupported)));
    assert_eq!(Error::PeerUtMetadataNotSupported.kind(), ErrorKind::Negotiation);
}

#[test]
fn tampered_final_piece_fails_with_integrity_error() {
    let dict = one_piece_dict();
    let infohash = Infohash::from_bencoded_info_dict(&dict);
    let mut tampered = dict.clone();
    let last = tampered.len() - 1;
    tampered[last] ^= 0x01;
    let conn = ScriptedConn::new(
        vec![
            handshake_msg(Some(dict.len() as u64), Some(LOCAL_UT_METADATA_ID)),
            data_msg(0, dict.len() as u64, &tampered),
        ],
        true,
    );
    let fetcher = InfoFetcher::new(conn, infohash).unwrap();
    let err = fetcher.run().unwrap_err();
    assert_eq!(err.kind(), ErrorKind::Integrity);
}

#[test]
fn unexpected_piece_index_aborts_with_protocol_violation() {
    // The byte counts would reconcile: the payload holds the whole
    // dictionary. Only the index is wrong.
    let dict = one_piece_dict();
    let infohash = Infohash::from_bencoded_info_dict(&dict);
    let conn = ScriptedConn::new(
        vec![
            handshake_msg(Some(dict.len() as u64), Some(LOCAL_UT_METADATA_ID)),
            data_msg(1, dict.len() as u64, &dict),
        ],
        true,
    );
    let fetcher = InfoFetcher::new(conn, infohash).unwrap();
    let err = fetcher.run().unwrap_err();
    assert_eq!(err, Error::PeerUtMetadataWrongPiece);
    assert_eq!(err.kind(), ErrorKind::Protocol);
}

#[test]
fn oversized_piece_fails_with_protocol_violation() {
    let dict = one_piece_dict();
    let infohash = Infohash::from_bencoded_info_dict(&dict);
    let big = vec![0u8; PIECE_LENGTH + 1];
    let conn = ScriptedConn::new(
        vec![
            handshake_msg(Some(2 * PIECE_LENGTH as u64), Some(LOCAL_UT_METADATA_ID)),
            data_msg(0, 2 * PIECE_LENGTH as u64, &big),
        ],
        true,
    );
    let fetcher = InfoFetcher::new(conn, infohash).unwrap();
    assert_eq!(fetcher.run().unwrap_err(), Error::PeerUtMetadataPieceLength);
}

#[test]
fn declared_size_violation_fails_with_protocol_violation() {
    let dict = one_piece_dict();
    let infohash = Infohash::from_bencoded_info_dict(&dict);
    let conn = ScriptedConn::new(
        vec![
            handshake_msg(Some(3), Some(LOCAL_UT_METADATA_ID)),
            data_msg(0, 3, &dict),
        ],
        true,
    );
    let fetcher = InfoFetcher::new(conn, infohash).unwrap();
    assert_eq!(fetcher.run().unwrap_err(), Error::PeerUtMetadataInfoLength);
}

#[test]
fn wrong_infohash_fails_with_integrity_error() {
    let dict = one_piece_dict();
    let other = Infohash::from_bytes([7u8; 20]);
    let conn = LoopbackConn::new(dict, 16);
    let fetcher = InfoFetcher::new(conn, other).unwrap();
    assert_eq!(fetcher.run().unwrap_err(), Error::PeerUtMetadataWrongInfohash);
}

#[test]
fn non_canonical_dictionary_fails_to_deserialize() {
    // Keys out of sorted order: not a well-formed canonical dictionary.
    let dict = b"d4:name3:foo6:lengthi1ee".to_vec();
    let infohash = Infohash::from_bencoded_info_dict(&dict);
    let conn = ScriptedConn::new(
        vec![
            handshake_msg(Some(dict.len() as u64), Some(LOCAL_UT_METADATA_ID)),
            data_msg(0, dict.len() as u64, &dict),
        ],
        true,
    );
    let fetcher = InfoFetcher::new(conn, infohash).unwrap();
    assert_eq!(fetcher.run().unwrap_err(), Error::PeerUtMetadataInfoDeserialize);
}

#[test]
fn renegotiation_discards_partial_accumulation() {
    // The seeder first declares a size larger than the dictionary and serves
    // one piece of it, then re-handshakes with the true size and serves the
    // whole dictionary from piece zero again.
    let dict = one_piece_dict();
    let infohash = Infohash::from_bencoded_info_dict(&dict);
    let partial = &dict[..4];
    let conn = ScriptedConn::new(
        vec![
            handshake_msg(Some(dict.len() as u64 + 40), Some(LOCAL_UT_METADATA_ID)),
            data_msg(0, dict.len() as u64 + 40, partial),
            handshake_msg(Some(dict.len() as u64), Some(LOCAL_UT_METADATA_ID)),
            data_msg(0, dict.len() as u64, &dict),
        ],
        true,
    );
    let fetcher = InfoFetcher::new(conn, infohash).unwrap();
    assert_eq!(fetcher.run().unwrap(), dict);
}

#[test]
fn seeder_survives_bad_requests_and_still_serves() {
    let dict = one_piece_dict();
    let opening = handshake_msg(None, Some(LOCAL_UT_METADATA_ID));
    let conn = QueueConn::new(vec![opening]);
    let mut seeder = InfoSeeder::new(conn, dict.clone()).unwrap();

    // An unparseable metadata payload: dispatch fails, the session stands.
    let garbage = new_extended(LOCAL_UT_METADATA_ID, b"not bencode".to_vec());
    assert!(handle_message(&mut seeder, &garbage).is_err());

    // An out-of-range request is silently ignored: no Reject, nothing sent.
    assert!(handle_message(&mut seeder, &request_msg(99)).is_ok());
    assert_eq!(seeder.conn.outbox.len(), 0);

    // A subsequent valid request still succeeds.
    assert!(handle_message(&mut seeder, &request_msg(0)).is_ok());
    assert_eq!(seeder.conn.outbox.len(), 1);
    match &seeder.conn.outbox[0] {
        Message::Extension { payload } => {
            let header = encode_um(&UtMetadata::data(0, dict.len() as u64));
            let mut expected = vec![LOCAL_UT_METADATA_ID];
            expected.extend_from_slice(&header);
            expected.extend_from_slice(&dict);
            assert_eq!(payload, &expected);
        }
        Message::Other => panic!("expected an extension message"),
    }
}

#[test]
fn seed_ends_only_in_transport_failure() {
    let dict = one_piece_dict();
    let opening = handshake_msg(None, Some(LOCAL_UT_METADATA_ID));
    let garbage = new_extended(LOCAL_UT_METADATA_ID, b"junk".to_vec());
    let conn = QueueConn::new(vec![opening, garbage, request_msg(99), request_msg(0)]);
    let seeder = InfoSeeder::new(conn, dict).unwrap();
    assert_eq!(seeder.seed().unwrap_err(), Error::Network);
}

#[test]
fn non_extension_messages_are_ignored() {
    let dict = one_piece_dict();
    let opening = handshake_msg(None, Some(LOCAL_UT_METADATA_ID));
    let conn = QueueConn::new(vec![opening]);
    let mut seeder = InfoSeeder::new(conn, dict).unwrap();
    assert!(handle_message(&mut seeder, &Message::Other).is_ok());
    assert_eq!(seeder.conn.outbox.len(), 0);
}

#[test]
fn error_kinds_follow_the_taxonomy() {
    assert_eq!(Error::PeerUtMetadataNotSupported.kind(), ErrorKind::Negotiation);
    assert_eq!(Error::PeerUtMetadataMetadataSizeNotKnown.kind(), ErrorKind::Negotiation);
    assert_eq!(Error::PeerUtMetadataWrongPiece.kind(), ErrorKind::Protocol);
    assert_eq!(Error::PeerUtMetadataPieceLength.kind(), ErrorKind::Protocol);
    assert_eq!(Error::PeerUtMetadataInfoLength.kind(), ErrorKind::Protocol);
    assert_eq!(Error::PeerMessageBencode.kind(), ErrorKind::Protocol);
    assert_eq!(Error::PeerUtMetadataInfoDeserialize.kind(), ErrorKind::Integrity);
    assert_eq!(Error::PeerUtMetadataWrongInfohash.kind(), ErrorKind::Integrity);
    assert_eq!(Error::Network.kind(), ErrorKind::Transport);
}

#[test]
fn reject_and_unknown_kinds_are_ignored() {
    let dict = one_piece_dict();
    let infohash = Infohash::from_bencoded_info_dict(&dict);
    let reject = {
        let mut body = encode_um(&metadata_exchange::message::UtMetadata {
            msg_type: metadata_exchange::message::MSG_TYPE_REJECT,
            piece: 0,
            total_size: None,
        });
        new_extended(LOCAL_UT_METADATA_ID, body)
    };
    let conn = ScriptedConn::new(
        vec![
            handshake_msg(Some(dict.len() as u64), Some(LOCAL_UT_METADATA_ID)),
            reject,
            data_msg(0, dict.len() as u64, &dict),
        ],
        true,
    );
    let fetcher = InfoFetcher::new(conn, infohash).unwrap();
    assert_eq!(fetcher.run().unwrap(), dict);
}
