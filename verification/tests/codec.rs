//! Fixtures for the wire codec: exact bytes, exact boundaries, and parser
//! behaviour on malformed input.

use metadata_exchange::bencode::encode_handshake;
use metadata_exchange::bencode::encode_um;
use metadata_exchange::bencode::read_handshake;
use metadata_exchange::bencode::read_um;
use metadata_exchange::message::UtMetadata;
use metadata_exchange::pieces::piece_count;
use metadata_exchange::message::PIECE_LENGTH;

#[test]
fn data_header_encodes_to_known_bytes() {
    let header = encode_um(&UtMetadata::data(0, 100));
    assert_eq!(header, b"d8:msg_typei1e5:piecei0e10:total_sizei100ee".to_vec());
}

#[test]
fn request_header_encodes_to_known_bytes() {
    let header = encode_um(&UtMetadata::request(3));
    assert_eq!(header, b"d8:msg_typei0e5:piecei3ee".to_vec());
}

#[test]
fn handshake_encodes_to_known_bytes() {
    let payload = encode_handshake(Some(100), Some(1));
    assert_eq!(payload, b"d1:md11:ut_metadatai1ee13:metadata_sizei100ee".to_vec());
    let bare = encode_handshake(None, None);
    assert_eq!(bare, b"d1:mdee".to_vec());
}

#[test]
fn header_boundary_is_recovered_at_the_exact_offset() {
    // A Data payload: the encoded header immediately followed by raw bytes,
    // nothing marking the boundary.
    let mut payload = encode_um(&UtMetadata::data(0, 100));
    let header_len = payload.len();
    assert_eq!(header_len, 43);
    payload.extend_from_slice(b"raw piece bytes");
    let (parsed, offset) = read_um(&payload).unwrap();
    assert_eq!(offset, 43);
    assert_eq!(parsed.msg_type, 1);
    assert_eq!(parsed.piece, 0);
    assert_eq!(parsed.total_size, Some(100));
    assert_eq!(encode_um(&parsed).len(), offset);
}

#[test]
fn request_header_round_trips() {
    let payload = encode_um(&UtMetadata::request(7));
    let (parsed, offset) = read_um(&payload).unwrap();
    assert_eq!(offset, payload.len());
    assert_eq!(parsed.msg_type, 0);
    assert_eq!(parsed.piece, 7);
    assert_eq!(parsed.total_size, None);
}

#[test]
fn handshake_round_trips() {
    let payload = encode_handshake(Some(31337), Some(3));
    let h = read_handshake(&payload).unwrap();
    assert_eq!(h.metadata_size, Some(31337));
    assert_eq!(h.ut_metadata_id, Some(3));
}

#[test]
fn handshake_parser_skips_unread_keys() {
    let payload = b"d1:md11:ut_metadatai3e9:ut_pex_xxi1ee13:metadata_sizei42e4:reqqi250e1:v4:abcde";
    let h = read_handshake(payload).unwrap();
    assert_eq!(h.metadata_size, Some(42));
    assert_eq!(h.ut_metadata_id, Some(3));
}

#[test]
fn handshake_parser_skips_nested_unread_values() {
    // Unread keys carrying a list and a nested dictionary, string bytes
    // containing bracket characters included.
    let payload = b"d4:ablsli1e2:dee1:md11:ut_metadatai4ee13:metadata_sizei7e3:yipd1:a1:e1:bd1:ci2eeee";
    let h = read_handshake(payload).unwrap();
    assert_eq!(h.metadata_size, Some(7));
    assert_eq!(h.ut_metadata_id, Some(4));
}

#[test]
fn handshake_parser_rejects_unclosed_nested_values() {
    let payload = b"d4:abls li1e2:de1:md11:ut_metadatai4eee";
    assert!(read_handshake(&payload[..]).is_none());
    assert!(read_handshake(b"d1:xld1:md11:ut_metadatai4eee").is_none());
}

#[test]
fn handshake_parser_tolerates_negative_skipped_integers() {
    let payload = b"d3:agei-3e1:md11:ut_metadatai2eee";
    let h = read_handshake(payload).unwrap();
    assert_eq!(h.metadata_size, None);
    assert_eq!(h.ut_metadata_id, Some(2));
}

#[test]
fn malformed_metadata_payloads_are_rejected() {
    assert!(read_um(b"").is_none());
    assert!(read_um(b"le").is_none());
    assert!(read_um(b"d5:piecei0ee").is_none());
    // a redundant leading zero is not canonical
    assert!(read_um(b"d8:msg_typei01e5:piecei0ee").is_none());
    // a 64-bit overflow in the piece index
    assert!(read_um(b"d8:msg_typei0e5:piecei99999999999999999999ee").is_none());
    // a message kind that does not fit one byte
    assert!(read_um(b"d8:msg_typei300e5:piecei0ee").is_none());
    // truncated: the dictionary never closes
    assert!(read_um(b"d8:msg_typei1e5:piecei0e").is_none());
}

#[test]
fn malformed_handshakes_are_rejected() {
    assert!(read_handshake(b"").is_none());
    assert!(read_handshake(b"i3e").is_none());
    assert!(read_handshake(b"d1:m").is_none());
    assert!(read_handshake(b"d13:metadata_sizei-1ee").is_none());
}

#[test]
fn piece_count_is_the_rounded_up_quotient() {
    assert_eq!(piece_count(0), 0);
    assert_eq!(piece_count(1), 1);
    assert_eq!(piece_count(PIECE_LENGTH - 1), 1);
    assert_eq!(piece_count(PIECE_LENGTH), 1);
    assert_eq!(piece_count(PIECE_LENGTH + 1), 2);
    assert_eq!(piece_count(2 * PIECE_LENGTH), 2);
    assert_eq!(piece_count(2 * PIECE_LENGTH + 5), 3);
}
