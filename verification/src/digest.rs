//! Content-addressed identity of an info dictionary: a fixed-size digest of
//! its canonical encoding. Equality with the target identifier is the sole
//! trust boundary for accepted metadata.

use vstd::prelude::*;

verus! {

/// What SHA-1 returns for a byte sequence: 20 bytes, a function of the input
/// alone.
pub uninterp spec fn sha1_of(bytes: Seq<u8>) -> Seq<u8>;

/// Canonical bencode form of a byte sequence: the re-encoding of the single
/// structured value it holds, or nothing when it is not well-formed. A
/// function of the input alone.
pub uninterp spec fn canon_of(bytes: Seq<u8>) -> Option<Seq<u8>>;

/// Relies on `sha1::Sha1` through `digest::Digest::digest`: the SHA-1 digest
/// of the input, always 20 bytes, depending on the input bytes alone.
#[verifier::external_body]
fn sha1_digest(bytes: &[u8]) -> (r: [u8; 20])
    ensures
        r@ == sha1_of(bytes@),
{
    let out = <sha1::Sha1 as sha1::Digest>::digest(bytes);
    out.into()
}

/// Relies on bendy's `Value`: `Decoder::next_object` with
/// `Value::decode_bencode_object` reads one structured value, enforcing
/// canonical form (sorted, unique dictionary keys), and `Encoder::emit_with`
/// with `Value::encode` re-encodes it canonically; both depend on the input
/// bytes alone.
#[verifier::external_body]
pub(crate) fn canonicalize(bytes: &[u8]) -> (r: Option<Vec<u8>>)
    ensures
        match r {
            Some(v) => canon_of(bytes@) == Some(v@),
            None => canon_of(bytes@) is None,
        },
{
    let mut decoder = bendy::decoding::Decoder::new(bytes).with_max_depth(2048);
    let value = match decoder.next_object() {
        Ok(Some(obj)) => match <bendy::value::Value as bendy::decoding::FromBencode>::decode_bencode_object(obj) {
            Ok(v) => v,
            Err(_) => return None,
        },
        _ => return None,
    };
    let mut encoder = bendy::encoding::Encoder::new().with_max_depth(2048);
    match encoder.emit_with(|e| bendy::encoding::ToBencode::encode(&value, e)) {
        Ok(()) => encoder.get_output().ok(),
        Err(_) => None,
    }
}

/// A 20-byte digest of the canonical encoding of an info dictionary. It binds
/// a connection to a target and decides whether fetched metadata is accepted.
#[derive(Clone, Copy, Debug, PartialEq, Eq)]
pub struct Infohash {
    /// The digest bytes.
    pub bytes: [u8; 20],
}

impl View for Infohash {
    type V = Seq<u8>;

    open spec fn view(&self) -> Seq<u8> {
        self.bytes@
    }
}

impl Infohash {
    /// Wrap 20 digest bytes.
    pub fn from_bytes(bytes: [u8; 20]) -> (h: Infohash)
        ensures
            h@ == bytes@,
    {
        Infohash { bytes }
    }

    /// The identifier of the dictionary whose bencoded form is `dict`.
    pub fn from_bencoded_info_dict(dict: &[u8]) -> (h: Infohash)
        ensures
            h@ == sha1_of(dict@),
    {
        Infohash { bytes: sha1_digest(dict) }
    }

    /// Compare two identifiers byte for byte.
    pub fn matches(&self, other: &Infohash) -> (r: bool)
        ensures
            r == (self@ == other@),
    {
        let mut i: usize = 0;
        while i < 20
            invariant
                i <= 20,
                forall|k: int| 0 <= k < i ==> self.bytes@[k] == other.bytes@[k],
            decreases 20 - i,
        {
            if self.bytes[i] != other.bytes[i] {
                return false;
            }
            i = i + 1;
        }
        proof {
            assert(self.bytes@ =~= other.bytes@);
        }
        true
    }
}

} // verus!
