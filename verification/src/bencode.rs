//! Wire codec for the two payload shapes this engine exchanges: the
//! extension handshake and the metadata-extension message header.
//!
//! Both are bencoded dictionaries. Encoding is canonical (keys in sorted
//! order, integers without leading zeros); parsing accepts canonical input
//! and, in a handshake, skips over keys the engine does not read. A metadata
//! header may be followed by raw trailing bytes with no delimiter; parsing
//! returns how many bytes the header itself took, so the boundary can be
//! recovered.

use vstd::prelude::*;

use crate::message::HandshakeInfo;
use crate::message::UtMetadata;

verus! {

// --- byte classes and key names ---------------------------------------

/// ASCII decimal digit.
pub open spec fn is_digit(b: u8) -> bool {
    48 <= b && b <= 57
}

/// The key `"msg_type"`.
pub open spec fn k_msg_type() -> Seq<u8> {
    seq![109u8, 115, 103, 95, 116, 121, 112, 101]
}

/// The key `"piece"`.
pub open spec fn k_piece() -> Seq<u8> {
    seq![112u8, 105, 101, 99, 101]
}

/// The key `"total_size"`.
pub open spec fn k_total_size() -> Seq<u8> {
    seq![116u8, 111, 116, 97, 108, 95, 115, 105, 122, 101]
}

/// The key `"m"`.
pub open spec fn k_m() -> Seq<u8> {
    seq![109u8]
}

/// The key `"metadata_size"`.
pub open spec fn k_metadata_size() -> Seq<u8> {
    seq![109u8, 101, 116, 97, 100, 97, 116, 97, 95, 115, 105, 122, 101]
}

/// The key `"ut_metadata"`.
pub open spec fn k_ut_metadata() -> Seq<u8> {
    seq![117u8, 116, 95, 109, 101, 116, 97, 100, 97, 116, 97]
}

// --- canonical encodings, as mathematics -------------------------------

/// Decimal digits of `n`, most significant first, no leading zeros.
pub open spec fn spec_udec(n: nat) -> Seq<u8>
    decreases n,
{
    if n < 10 {
        seq![(48 + n) as u8]
    } else {
        spec_udec(n / 10).push((48 + n % 10) as u8)
    }
}

/// Bencoding of the non-negative integer `n`: `i<digits>e`.
pub open spec fn spec_bint(n: nat) -> Seq<u8> {
    seq![105u8] + spec_udec(n) + seq![101u8]
}

/// Bencoding of the byte string `t`: `<len>:<bytes>`.
pub open spec fn spec_bstr(t: Seq<u8>) -> Seq<u8> {
    spec_udec(t.len() as nat) + seq![58u8] + t
}

/// Canonical encoding of a metadata header: a dictionary with `msg_type`,
/// `piece` and, when present, `total_size`, keys in sorted order.
pub open spec fn spec_encode_um(m: UtMetadata) -> Seq<u8> {
    seq![100u8] + spec_bstr(k_msg_type()) + spec_bint(m.msg_type as nat) + spec_bstr(k_piece())
        + spec_bint(m.piece as nat) + (match m.total_size {
        Some(ts) => spec_bstr(k_total_size()) + spec_bint(ts as nat),
        None => Seq::<u8>::empty(),
    }) + seq![101u8]
}

/// Canonical encoding of this engine's own handshake: an `m` dictionary
/// listing the metadata extension when `id` is known, and `metadata_size`
/// when a size is announced.
pub open spec fn spec_encode_handshake(size: Option<u64>, id: Option<u8>) -> Seq<u8> {
    seq![100u8] + spec_bstr(k_m()) + seq![100u8] + (match id {
        Some(i) => spec_bstr(k_ut_metadata()) + spec_bint(i as nat),
        None => Seq::<u8>::empty(),
    }) + seq![101u8] + (match size {
        Some(s) => spec_bstr(k_metadata_size()) + spec_bint(s as nat),
        None => Seq::<u8>::empty(),
    }) + seq![101u8]
}

// --- executable key names ----------------------------------------------

/// The key `"msg_type"` as bytes.
pub fn key_msg_type() -> (v: Vec<u8>)
    ensures
        v@ == k_msg_type(),
{
    let mut v: Vec<u8> = Vec::new();
    v.push(109);
    v.push(115);
    v.push(103);
    v.push(95);
    v.push(116);
    v.push(121);
    v.push(112);
    v.push(101);
    proof {
        assert(v@ =~= k_msg_type());
    }
    v
}

/// The key `"piece"` as bytes.
pub fn key_piece() -> (v: Vec<u8>)
    ensures
        v@ == k_piece(),
{
    let mut v: Vec<u8> = Vec::new();
    v.push(112);
    v.push(105);
    v.push(101);
    v.push(99);
    v.push(101);
    proof {
        assert(v@ =~= k_piece());
    }
    v
}

/// The key `"total_size"` as bytes.
pub fn key_total_size() -> (v: Vec<u8>)
    ensures
        v@ == k_total_size(),
{
    let mut v: Vec<u8> = Vec::new();
    v.push(116);
    v.push(111);
    v.push(116);
    v.push(97);
    v.push(108);
    v.push(95);
    v.push(115);
    v.push(105);
    v.push(122);
    v.push(101);
    proof {
        assert(v@ =~= k_total_size());
    }
    v
}

/// The key `"m"` as bytes.
pub fn key_m() -> (v: Vec<u8>)
    ensures
        v@ == k_m(),
{
    let mut v: Vec<u8> = Vec::new();
    v.push(109);
    proof {
        assert(v@ =~= k_m());
    }
    v
}

/// The key `"metadata_size"` as bytes.
pub fn key_metadata_size() -> (v: Vec<u8>)
    ensures
        v@ == k_metadata_size(),
{
    let mut v: Vec<u8> = Vec::new();
    v.push(109);
    v.push(101);
    v.push(116);
    v.push(97);
    v.push(100);
    v.push(97);
    v.push(116);
    v.push(97);
    v.push(95);
    v.push(115);
    v.push(105);
    v.push(122);
    v.push(101);
    proof {
        assert(v@ =~= k_metadata_size());
    }
    v
}

/// The key `"ut_metadata"` as bytes.
pub fn key_ut_metadata() -> (v: Vec<u8>)
    ensures
        v@ == k_ut_metadata(),
{
    let mut v: Vec<u8> = Vec::new();
    v.push(117);
    v.push(116);
    v.push(95);
    v.push(109);
    v.push(101);
    v.push(116);
    v.push(97);
    v.push(100);
    v.push(97);
    v.push(116);
    v.push(97);
    proof {
        assert(v@ =~= k_ut_metadata());
    }
    v
}

// --- executable encoders -----------------------------------------------

/// Append the decimal digits of `n`.
pub fn push_udec(out: &mut Vec<u8>, n: u64)
    ensures
        final(out)@ == old(out)@ + spec_udec(n as nat),
    decreases n,
{
    if n < 10 {
        out.push(48 + n as u8);
        proof {
            assert(final(out)@ =~= old(out)@ + spec_udec(n as nat));
        }
    } else {
        push_udec(out, n / 10);
        out.push(48 + (n % 10) as u8);
        proof {
            assert(final(out)@ =~= old(out)@ + spec_udec(n as nat));
        }
    }
}

/// Append the bencoding of the non-negative integer `n`.
pub fn push_bint(out: &mut Vec<u8>, n: u64)
    ensures
        final(out)@ == old(out)@ + spec_bint(n as nat),
{
    out.push(105);
    push_udec(out, n);
    out.push(101);
    proof {
        assert(final(out)@ =~= old(out)@ + spec_bint(n as nat));
    }
}

/// Append the bencoding of the byte string `t`.
pub fn push_bstr(out: &mut Vec<u8>, t: &[u8])
    ensures
        final(out)@ == old(out)@ + spec_bstr(t@),
{
    push_udec(out, t.len() as u64);
    out.push(58);
    let mut k: usize = 0;
    while k < t.len()
        invariant
            k <= t@.len(),
            out@ == old(out)@ + spec_udec(t@.len() as nat) + seq![58u8] + t@.subrange(0, k as int),
        decreases t@.len() - k,
    {
        out.push(t[k]);
        k = k + 1;
        proof {
            assert(out@ =~= old(out)@ + spec_udec(t@.len() as nat) + seq![58u8] + t@.subrange(
                0,
                k as int,
            ));
        }
    }
    proof {
        assert(t@.subrange(0, t@.len() as int) =~= t@);
        assert(out@ =~= old(out)@ + spec_bstr(t@));
    }
}

/// Canonically encode a metadata header. The result's length is exactly the
/// boundary between an incoming Data payload's header and its raw trailing
/// bytes.
pub fn encode_um(m: &UtMetadata) -> (r: Vec<u8>)
    ensures
        r@ == spec_encode_um(*m),
{
    let mut out: Vec<u8> = Vec::new();
    out.push(100);
    let key = key_msg_type();
    push_bstr(&mut out, key.as_slice());
    push_bint(&mut out, m.msg_type as u64);
    let key = key_piece();
    push_bstr(&mut out, key.as_slice());
    push_bint(&mut out, m.piece);
    match m.total_size {
        Some(ts) => {
            let key = key_total_size();
            push_bstr(&mut out, key.as_slice());
            push_bint(&mut out, ts);
        },
        None => {},
    }
    out.push(101);
    proof {
        assert(out@ =~= spec_encode_um(*m));
    }
    out
}

/// Canonically encode a handshake payload announcing `size` and `id`.
pub fn encode_handshake(size: Option<u64>, id: Option<u8>) -> (r: Vec<u8>)
    ensures
        r@ == spec_encode_handshake(size, id),
{
    let mut out: Vec<u8> = Vec::new();
    out.push(100);
    let key = key_m();
    push_bstr(&mut out, key.as_slice());
    out.push(100);
    match id {
        Some(i) => {
            let key = key_ut_metadata();
            push_bstr(&mut out, key.as_slice());
            push_bint(&mut out, i as u64);
        },
        None => {},
    }
    out.push(101);
    match size {
        Some(s) => {
            let key = key_metadata_size();
            push_bstr(&mut out, key.as_slice());
            push_bint(&mut out, s);
        },
        None => {},
    }
    out.push(101);
    proof {
        assert(out@ =~= spec_encode_handshake(size, id));
    }
    out
}

} // verus!

verus! {

// --- parsing, as mathematics --------------------------------------------
//
// Each spec parser takes the whole input and a position, and yields what it
// read together with the position just past it, or nothing if the input at
// that position is not well-formed.

/// First position at or after `i` holding no decimal digit.
pub open spec fn digits_end(s: Seq<u8>, i: int) -> int
    decreases s.len() - i,
{
    if i < 0 || i >= s.len() || !is_digit(s[i]) {
        i
    } else {
        digits_end(s, i + 1)
    }
}

/// Value of the decimal digits `s[i..j]`, most significant first.
pub open spec fn digits_val(s: Seq<u8>, i: int, j: int) -> nat
    decreases j - i,
{
    if j <= i {
        0
    } else {
        digits_val(s, i, j - 1) * 10 + (if 0 <= j - 1 < s.len() && is_digit(s[j - 1]) {
            (s[j - 1] - 48) as nat
        } else {
            0
        })
    }
}

/// Parse an unsigned decimal number at `i`: at least one digit, no redundant
/// leading zero, value representable in 64 bits.
pub open spec fn parse_uint(s: Seq<u8>, i: int) -> Option<(u64, int)> {
    let j = digits_end(s, i);
    if j == i {
        None
    } else if s[i] == 48 && j > i + 1 {
        None
    } else if digits_val(s, i, j) > u64::MAX {
        None
    } else {
        Some((digits_val(s, i, j) as u64, j))
    }
}

/// Parse a bencoded non-negative integer `i<digits>e` at `i`.
pub open spec fn parse_bint(s: Seq<u8>, i: int) -> Option<(u64, int)> {
    if 0 <= i < s.len() && s[i] == 105 {
        match parse_uint(s, i + 1) {
            Some((v, j)) => if j < s.len() && s[j] == 101 {
                Some((v, j + 1))
            } else {
                None
            },
            None => None,
        }
    } else {
        None
    }
}

/// Parse a bencoded byte string `<len>:<bytes>` at `i`.
pub open spec fn parse_bstr(s: Seq<u8>, i: int) -> Option<(Seq<u8>, int)> {
    match parse_uint(s, i) {
        Some((n, j)) => if j < s.len() && s[j] == 58 && j + 1 + n <= s.len() {
            Some((s.subrange(j + 1, j + 1 + n), j + 1 + n))
        } else {
            None
        },
        None => None,
    }
}

/// `t` occurs in `s` starting at `i`.
pub open spec fn has_at(s: Seq<u8>, i: int, t: Seq<u8>) -> bool {
    0 <= i && i + t.len() <= s.len() && s.subrange(i, i + t.len()) == t
}

/// Parse a metadata header at the start of `s`: a dictionary holding
/// `msg_type`, `piece` and optionally `total_size`, in canonical key order.
/// Yields the header and how many bytes it took; anything after that is the
/// undelimited raw trailer of a Data message.
pub open spec fn spec_parse_um(s: Seq<u8>) -> Option<(UtMetadata, int)> {
    if s.len() < 1 || s[0] != 100 {
        None
    } else if !has_at(s, 1, spec_bstr(k_msg_type())) {
        None
    } else {
        match parse_bint(s, 1 + spec_bstr(k_msg_type()).len() as int) {
            None => None,
            Some((t, i2)) => if t > 255 {
                None
            } else if !has_at(s, i2, spec_bstr(k_piece())) {
                None
            } else {
                match parse_bint(s, i2 + spec_bstr(k_piece()).len() as int) {
                    None => None,
                    Some((p, i3)) => if has_at(s, i3, spec_bstr(k_total_size())) {
                        match parse_bint(s, i3 + spec_bstr(k_total_size()).len() as int) {
                            None => None,
                            Some((ts, i4)) => if i4 < s.len() && s[i4] == 101 {
                                Some(
                                    (
                                        UtMetadata {
                                            msg_type: t as u8,
                                            piece: p,
                                            total_size: Some(ts),
                                        },
                                        i4 + 1,
                                    ),
                                )
                            } else {
                                None
                            },
                        }
                    } else if i3 < s.len() && s[i3] == 101 {
                        Some(
                            (UtMetadata { msg_type: t as u8, piece: p, total_size: None }, i3 + 1),
                        )
                    } else {
                        None
                    },
                }
            },
        }
    }
}

/// Position just past the tokens of a value this engine does not read,
/// given `open` containers still unclosed: integers and byte strings are
/// passed over whole (string bytes are never inspected), a list or
/// dictionary opener raises the nesting, and the closer matching the
/// outermost one ends the skip. Containers are matched by bracket only;
/// their internal shape is not validated.
pub open spec fn skip_from(s: Seq<u8>, i: int, open: nat) -> Option<int>
    decreases s.len() - i,
{
    if i < 0 || i >= s.len() {
        None
    } else if s[i] == 101 {
        if open == 0 {
            None
        } else if open == 1 {
            Some(i + 1)
        } else {
            skip_from(s, i + 1, (open - 1) as nat)
        }
    } else if s[i] == 108 || s[i] == 100 {
        skip_from(s, i + 1, open + 1)
    } else if s[i] == 105 {
        let a = if i + 1 < s.len() && s[i + 1] == 45 {
            i + 2
        } else {
            i + 1
        };
        let j = digits_end(s, a);
        if j > a && j < s.len() && s[j] == 101 {
            if open == 0 {
                Some(j + 1)
            } else if j + 1 <= i {
                None
            } else {
                skip_from(s, j + 1, open)
            }
        } else {
            None
        }
    } else if is_digit(s[i]) {
        match parse_bstr(s, i) {
            Some((t, j)) => if open == 0 {
                Some(j)
            } else if j <= i || j > s.len() {
                None
            } else {
                skip_from(s, j, open)
            },
            None => None,
        }
    } else {
        None
    }
}

/// Position just past one value this engine does not read: an integer, a
/// byte string, or a list or dictionary skipped by bracket matching.
pub open spec fn skip_value(s: Seq<u8>, i: int) -> Option<int> {
    skip_from(s, i, 0)
}

/// Walk the entries of the inner `m` dictionary from `i`, remembering the
/// last id listed for the metadata extension, up to the closing `e`. Key
/// order is deliberately not enforced and a repeated key's later value wins:
/// a handshake is read leniently, unlike the dictionary under verification,
/// which goes through the strict canonical decoder.
pub open spec fn m_entries(s: Seq<u8>, i: int, id: Option<u8>) -> Option<(Option<u8>, int)>
    decreases s.len() - i,
{
    if i < 0 || i >= s.len() {
        None
    } else if s[i] == 101 {
        Some((id, i + 1))
    } else {
        match parse_bstr(s, i) {
            None => None,
            Some((key, j)) => match parse_bint(s, j) {
                None => None,
                Some((v, k)) => if k <= i {
                    None
                } else if key == k_ut_metadata() {
                    if v <= 255 {
                        m_entries(s, k, Some(v as u8))
                    } else {
                        None
                    }
                } else {
                    m_entries(s, k, id)
                },
            },
        }
    }
}

/// Parse the inner `m` dictionary at `i`.
pub open spec fn parse_m_dict(s: Seq<u8>, i: int) -> Option<(Option<u8>, int)> {
    if 0 <= i < s.len() && s[i] == 100 {
        m_entries(s, i + 1, None)
    } else {
        None
    }
}

/// Walk the entries of a handshake dictionary from `i`, remembering the last
/// declared size and metadata-extension id, up to the closing `e`. Entries
/// the engine does not read are skipped whole. Key order is deliberately not
/// enforced and a repeated key's later value wins: a peer's handshake is read
/// leniently, unlike the dictionary under verification, which goes through
/// the strict canonical decoder.
pub open spec fn hs_entries(s: Seq<u8>, i: int, size: Option<u64>, id: Option<u8>) -> Option<
    HandshakeInfo,
>
    decreases s.len() - i,
{
    if i < 0 || i >= s.len() {
        None
    } else if s[i] == 101 {
        Some(HandshakeInfo { metadata_size: size, ut_metadata_id: id })
    } else {
        match parse_bstr(s, i) {
            None => None,
            Some((key, j)) => if key == k_m() {
                match parse_m_dict(s, j) {
                    None => None,
                    Some((id2, k)) => if k <= i || k > s.len() {
                        None
                    } else {
                        hs_entries(s, k, size, id2)
                    },
                }
            } else if key == k_metadata_size() {
                match parse_bint(s, j) {
                    None => None,
                    Some((v, k)) => if k <= i || k > s.len() {
                        None
                    } else {
                        hs_entries(s, k, Some(v), id)
                    },
                }
            } else {
                match skip_value(s, j) {
                    None => None,
                    Some(k) => if k <= i || k > s.len() {
                        None
                    } else {
                        hs_entries(s, k, size, id)
                    },
                }
            },
        }
    }
}

/// Parse a handshake payload: what the peer declared as total metadata size
/// and as its id for the metadata extension. Read leniently: unknown keys
/// are skipped whole, key order is not enforced, and a repeated key's later
/// value wins.
pub open spec fn spec_parse_handshake(s: Seq<u8>) -> Option<HandshakeInfo> {
    if s.len() < 1 || s[0] != 100 {
        None
    } else {
        hs_entries(s, 1, None, None)
    }
}

} // verus!

verus! {

// --- executable parsers --------------------------------------------------

/// Compare two byte slices.
pub fn bytes_eq(a: &[u8], b: &[u8]) -> (r: bool)
    ensures
        r == (a@ == b@),
{
    if a.len() != b.len() {
        return false;
    }
    let mut k: usize = 0;
    while k < a.len()
        invariant
            k <= a@.len(),
            a@.len() == b@.len(),
            forall|q: int| 0 <= q < k ==> a@[q] == b@[q],
        decreases a@.len() - k,
    {
        if a[k] != b[k] {
            return false;
        }
        k = k + 1;
    }
    proof {
        assert(a@ =~= b@);
    }
    true
}

/// Does `t` occur in `s` at position `i`?
pub fn slice_has_at(s: &[u8], i: usize, t: &[u8]) -> (r: bool)
    ensures
        r == has_at(s@, i as int, t@),
{
    if i > s.len() || t.len() > s.len() - i {
        return false;
    }
    let mut k: usize = 0;
    while k < t.len()
        invariant
            k <= t@.len(),
            i + t@.len() <= s@.len(),
            s@.len() <= usize::MAX,
            forall|q: int| 0 <= q < k ==> s@[i + q] == t@[q],
        decreases t@.len() - k,
    {
        if s[i + k] != t[k] {
            proof {
                assert(s@.subrange(i as int, i + t@.len())[k as int] != t@[k as int]);
            }
            return false;
        }
        k = k + 1;
    }
    proof {
        assert(s@.subrange(i as int, i + t@.len()) =~= t@);
    }
    true
}

/// First position at or after `i` holding no decimal digit.
pub fn scan_digits(s: &[u8], i: usize) -> (j: usize)
    requires
        i <= s@.len(),
    ensures
        j as int == digits_end(s@, i as int),
        i <= j <= s@.len(),
        forall|k: int| i <= k < j ==> is_digit(s@[k]),
    decreases s@.len() - i,
{
    let mut j: usize = i;
    while j < s.len() && 48 <= s[j] && s[j] <= 57
        invariant
            i <= j <= s@.len(),
            digits_end(s@, i as int) == digits_end(s@, j as int),
            forall|k: int| i <= k < j ==> is_digit(s@[k]),
        decreases s@.len() - j,
    {
        proof {
            assert(digits_end(s@, j as int) == digits_end(s@, j + 1));
        }
        j = j + 1;
    }
    proof {
        assert(digits_end(s@, j as int) == j as int);
    }
    j
}

/// `digits_val` never shrinks as the digit run extends.
pub proof fn lemma_digits_val_mono(s: Seq<u8>, i: int, k: int, j: int)
    requires
        i <= k <= j,
    ensures
        digits_val(s, i, j) >= digits_val(s, i, k),
    decreases j - k,
{
    if k < j {
        lemma_digits_val_mono(s, i, k, j - 1);
        assert(digits_val(s, i, j - 1) * 10 >= digits_val(s, i, j - 1)) by (nonlinear_arith);
    }
}

/// Parse an unsigned decimal number at `i`.
pub fn read_uint(s: &[u8], i: usize) -> (r: Option<(u64, usize)>)
    requires
        i <= s@.len(),
    ensures
        match r {
            Some((v, j)) => parse_uint(s@, i as int) == Some((v, j as int)) && i < j <= s@.len(),
            None => parse_uint(s@, i as int) is None,
        },
{
    let j = scan_digits(s, i);
    if j == i {
        return None;
    }
    if s[i] == 48 && j > i + 1 {
        return None;
    }
    let ghost jj = j as int;
    let mut v: u64 = 0;
    let mut k: usize = i;
    while k < j
        invariant
            i <= k <= j <= s@.len(),
            jj == j as int,
            digits_end(s@, i as int) == jj,
            i < jj,
            !(s@[i as int] == 48 && jj > i + 1),
            forall|t: int| i <= t < j ==> is_digit(s@[t]),
            v as nat == digits_val(s@, i as int, k as int),
        decreases j - k,
    {
        let d = s[k] - 48;
        if v > (u64::MAX - d as u64) / 10 {
            proof {
                let q = (u64::MAX - d) as int / 10;
                assert((u64::MAX - d) as int == q * 10 + (u64::MAX - d) as int % 10) by (nonlinear_arith)
                    requires
                        q == (u64::MAX - d) as int / 10,
                ;
                assert(v as int * 10 >= (q + 1) * 10) by (nonlinear_arith)
                    requires
                        v as int >= q + 1,
                ;
                assert(digits_val(s@, i as int, k + 1) > u64::MAX);
                lemma_digits_val_mono(s@, i as int, k + 1, jj);
            }
            return None;
        }
        v = v * 10 + d as u64;
        k = k + 1;
    }
    Some((v, j))
}

/// Parse a bencoded non-negative integer at `i`.
pub fn read_bint(s: &[u8], i: usize) -> (r: Option<(u64, usize)>)
    requires
        i <= s@.len(),
    ensures
        match r {
            Some((v, j)) => parse_bint(s@, i as int) == Some((v, j as int)) && i < j <= s@.len(),
            None => parse_bint(s@, i as int) is None,
        },
{
    if i >= s.len() || s[i] != 105 {
        return None;
    }
    match read_uint(s, i + 1) {
        Some((v, j)) => {
            if j < s.len() && s[j] == 101 {
                Some((v, j + 1))
            } else {
                None
            }
        },
        None => None,
    }
}

/// Parse a bencoded byte string at `i`; yields where its bytes start and end.
pub fn read_bstr(s: &[u8], i: usize) -> (r: Option<(usize, usize)>)
    requires
        i <= s@.len(),
    ensures
        match r {
            Some((st, en)) => parse_bstr(s@, i as int) == Some(
                (s@.subrange(st as int, en as int), en as int),
            ) && i < st <= en <= s@.len(),
            None => parse_bstr(s@, i as int) is None,
        },
{
    match read_uint(s, i) {
        Some((n, j)) => {
            if j < s.len() && s[j] == 58 {
                if n <= (s.len() - j - 1) as u64 {
                    let st = j + 1;
                    let en = j + 1 + (n as usize);
                    Some((st, en))
                } else {
                    None
                }
            } else {
                None
            }
        },
        None => None,
    }
}

/// Parse a metadata header at the start of `payload`; yields the header and
/// how many bytes it took.
pub fn read_um(s: &[u8]) -> (r: Option<(UtMetadata, usize)>)
    ensures
        match r {
            Some((m, n)) => spec_parse_um(s@) == Some((m, n as int)) && 0 < n <= s@.len(),
            None => spec_parse_um(s@) is None,
        },
{
    if s.len() < 1 || s[0] != 100 {
        return None;
    }
    let kmt = key_msg_type();
    let mut enc_kmt: Vec<u8> = Vec::new();
    push_bstr(&mut enc_kmt, kmt.as_slice());
    proof {
        assert(enc_kmt@ =~= spec_bstr(k_msg_type()));
    }
    if !slice_has_at(s, 1, enc_kmt.as_slice()) {
        return None;
    }
    let i1 = 1 + enc_kmt.len();
    match read_bint(s, i1) {
        None => None,
        Some((t, i2)) => {
            if t > 255 {
                return None;
            }
            let kp = key_piece();
            let mut enc_kp: Vec<u8> = Vec::new();
            push_bstr(&mut enc_kp, kp.as_slice());
            proof {
                assert(enc_kp@ =~= spec_bstr(k_piece()));
            }
            if !slice_has_at(s, i2, enc_kp.as_slice()) {
                return None;
            }
            match read_bint(s, i2 + enc_kp.len()) {
                None => None,
                Some((p, i3)) => {
                    let kts = key_total_size();
                    let mut enc_kts: Vec<u8> = Vec::new();
                    push_bstr(&mut enc_kts, kts.as_slice());
                    proof {
                        assert(enc_kts@ =~= spec_bstr(k_total_size()));
                    }
                    if slice_has_at(s, i3, enc_kts.as_slice()) {
                        match read_bint(s, i3 + enc_kts.len()) {
                            None => None,
                            Some((ts, i4)) => {
                                if i4 < s.len() && s[i4] == 101 {
                                    Some(
                                        (
                                            UtMetadata {
                                                msg_type: t as u8,
                                                piece: p,
                                                total_size: Some(ts),
                                            },
                                            i4 + 1,
                                        ),
                                    )
                                } else {
                                    None
                                }
                            },
                        }
                    } else if i3 < s.len() && s[i3] == 101 {
                        Some(
                            (UtMetadata { msg_type: t as u8, piece: p, total_size: None }, i3 + 1),
                        )
                    } else {
                        None
                    }
                },
            }
        },
    }
}

/// Skip a value the engine does not read.
pub fn read_skip(s: &[u8], i: usize) -> (r: Option<usize>)
    requires
        i <= s@.len(),
    ensures
        match r {
            Some(k) => skip_value(s@, i as int) == Some(k as int) && i < k <= s@.len(),
            None => skip_value(s@, i as int) is None,
        },
{
    let mut pos: usize = i;
    let mut open: usize = 0;
    loop
        invariant
            i <= pos <= s@.len(),
            open <= pos - i,
            skip_value(s@, i as int) == skip_from(s@, pos as int, open as nat),
            open == 0 ==> pos == i,
        decreases s@.len() - pos,
    {
        if pos >= s.len() {
            return None;
        }
        let b = s[pos];
        if b == 101 {
            if open == 0 {
                return None;
            }
            if open == 1 {
                return Some(pos + 1);
            }
            open = open - 1;
            pos = pos + 1;
        } else if b == 108 || b == 100 {
            open = open + 1;
            pos = pos + 1;
        } else if b == 105 {
            let a = if pos + 1 < s.len() && s[pos + 1] == 45 {
                pos + 2
            } else {
                pos + 1
            };
            let j = scan_digits(s, a);
            if j > a && j < s.len() && s[j] == 101 {
                if open == 0 {
                    return Some(j + 1);
                }
                pos = j + 1;
            } else {
                return None;
            }
        } else if 48 <= b && b <= 57 {
            match read_bstr(s, pos) {
                Some((st, en)) => {
                    if open == 0 {
                        return Some(en);
                    }
                    pos = en;
                },
                None => {
                    return None;
                },
            }
        } else {
            return None;
        }
    }
}


/// Parse the inner `m` dictionary at `i`.
pub fn read_m_dict(s: &[u8], i: usize) -> (r: Option<(Option<u8>, usize)>)
    requires
        i <= s@.len(),
    ensures
        match r {
            Some((id, k)) => parse_m_dict(s@, i as int) == Some((id, k as int)) && i < k
                <= s@.len(),
            None => parse_m_dict(s@, i as int) is None,
        },
{
    if i >= s.len() || s[i] != 100 {
        return None;
    }
    let mut pos: usize = i + 1;
    let mut id: Option<u8> = None;
    loop
        invariant
            i + 1 <= pos <= s@.len(),
            parse_m_dict(s@, i as int) == m_entries(s@, pos as int, id),
        decreases s@.len() - pos,
    {
        if pos >= s.len() {
            return None;
        }
        if s[pos] == 101 {
            return Some((id, pos + 1));
        }
        match read_bstr(s, pos) {
            None => {
                return None;
            },
            Some((st, en)) => {
                match read_bint(s, en) {
                    None => {
                        return None;
                    },
                    Some((v, k)) => {
                        let kut = key_ut_metadata();
                        let key = vstd::slice::slice_subrange(s, st, en);
                        let is_ut = bytes_eq(key, kut.as_slice());
                        if is_ut {
                            if v <= 255 {
                                id = Some(v as u8);
                                pos = k;
                            } else {
                                return None;
                            }
                        } else {
                            pos = k;
                        }
                    },
                }
            },
        }
    }
}

/// Parse a handshake payload.
pub fn read_handshake(s: &[u8]) -> (r: Option<HandshakeInfo>)
    ensures
        match r {
            Some(h) => spec_parse_handshake(s@) == Some(h),
            None => spec_parse_handshake(s@) is None,
        },
{
    if s.len() < 1 || s[0] != 100 {
        return None;
    }
    let mut pos: usize = 1;
    let mut size: Option<u64> = None;
    let mut id: Option<u8> = None;
    loop
        invariant
            1 <= pos <= s@.len(),
            spec_parse_handshake(s@) == hs_entries(s@, pos as int, size, id),
        decreases s@.len() - pos,
    {
        if pos >= s.len() {
            return None;
        }
        if s[pos] == 101 {
            return Some(HandshakeInfo { metadata_size: size, ut_metadata_id: id });
        }
        match read_bstr(s, pos) {
            None => {
                return None;
            },
            Some((st, en)) => {
                let key = vstd::slice::slice_subrange(s, st, en);
                let km = key_m();
                let kms = key_metadata_size();
                if bytes_eq(key, km.as_slice()) {
                    match read_m_dict(s, en) {
                        None => {
                            return None;
                        },
                        Some((id2, k)) => {
                            id = id2;
                            pos = k;
                        },
                    }
                } else if bytes_eq(key, kms.as_slice()) {
                    match read_bint(s, en) {
                        None => {
                            return None;
                        },
                        Some((v, k)) => {
                            size = Some(v);
                            pos = k;
                        },
                    }
                } else {
                    match read_skip(s, en) {
                        None => {
                            return None;
                        },
                        Some(k) => {
                            pos = k;
                        },
                    }
                }
            },
        }
    }
}

} // verus!

verus! {

// --- soundness: what was parsed is the canonical encoding ----------------

/// `digits_end` stays between its start and the end of the input.
pub proof fn lemma_digits_end_bounds(s: Seq<u8>, i: int)
    requires
        0 <= i <= s.len(),
    ensures
        i <= digits_end(s, i) <= s.len(),
    decreases s.len() - i,
{
    if i < s.len() && is_digit(s[i]) {
        lemma_digits_end_bounds(s, i + 1);
    }
}

/// A digit run not starting in `0` has a positive value.
pub proof fn lemma_digits_val_pos(s: Seq<u8>, i: int, j: int)
    requires
        0 <= i < j <= s.len(),
        forall|k: int| i <= k < j ==> is_digit(s[k]),
        s[i] != 48,
    ensures
        digits_val(s, i, j) >= 1,
    decreases j - i,
{
    assert(is_digit(s[i]));
    if j - 1 > i {
        lemma_digits_val_pos(s, i, j - 1);
        assert(digits_val(s, i, j - 1) * 10 >= 10) by (nonlinear_arith)
            requires
                digits_val(s, i, j - 1) >= 1,
        ;
    } else {
        assert(j == i + 1);
        assert(is_digit(s[j - 1]));
        reveal_with_fuel(digits_val, 3);
        assert(digits_val(s, i, j) == digits_val(s, i, j - 1) * 10 + (s[j - 1] - 48) as nat);
        assert(digits_val(s, i, j - 1) == 0);
        assert(digits_val(s, i, j) == (s[i] - 48) as nat);
    }
}

/// The decimal digits of the value of a digit run are that run itself.
pub proof fn lemma_udec_of_digits(s: Seq<u8>, i: int, j: int)
    requires
        0 <= i < j <= s.len(),
        forall|k: int| i <= k < j ==> is_digit(s[k]),
        s[i] != 48 || j == i + 1,
    ensures
        spec_udec(digits_val(s, i, j)) == s.subrange(i, j),
    decreases j - i,
{
    if j == i + 1 {
        assert(digits_val(s, i, j) == (s[i] - 48) as nat);
        assert(spec_udec(digits_val(s, i, j)) =~= s.subrange(i, j));
    } else {
        let v0 = digits_val(s, i, j - 1);
        let d = (s[j - 1] - 48) as nat;
        let v = digits_val(s, i, j);
        assert(v == v0 * 10 + d);
        lemma_digits_val_pos(s, i, j - 1);
        assert(v >= 10) by (nonlinear_arith)
            requires
                v == v0 * 10 + d,
                v0 >= 1,
        ;
        assert(v / 10 == v0 && v % 10 == d) by (nonlinear_arith)
            requires
                v == v0 * 10 + d,
                0 <= d < 10,
        ;
        lemma_udec_of_digits(s, i, j - 1);
        assert(spec_udec(v) == spec_udec(v0).push((48 + d) as u8));
        assert((48 + d) as u8 == s[j - 1]);
        assert(spec_udec(v) =~= s.subrange(i, j));
    }
}

/// A parsed decimal number occupies exactly the digits of its value.
pub proof fn lemma_parse_uint_sound(s: Seq<u8>, i: int, v: u64, j: int)
    requires
        0 <= i <= s.len(),
        parse_uint(s, i) == Some((v, j)),
    ensures
        i < j <= s.len(),
        s.subrange(i, j) == spec_udec(v as nat),
{
    lemma_digits_end_bounds(s, i);
    let je = digits_end(s, i);
    assert forall|k: int| i <= k < je implies is_digit(s[k]) by {
        lemma_digits_end_digits(s, i, k);
    }
    lemma_udec_of_digits(s, i, je);
}

/// Every byte before `digits_end` is a digit.
pub proof fn lemma_digits_end_digits(s: Seq<u8>, i: int, k: int)
    requires
        0 <= i <= s.len(),
        i <= k < digits_end(s, i),
    ensures
        is_digit(s[k]),
    decreases k - i,
{
    lemma_digits_end_bounds(s, i);
    if k > i {
        assert(is_digit(s[i]));
        lemma_digits_end_digits(s, i + 1, k);
    }
}

/// A parsed bencoded integer occupies exactly the canonical encoding of its
/// value.
pub proof fn lemma_parse_bint_sound(s: Seq<u8>, i: int, v: u64, j: int)
    requires
        0 <= i <= s.len(),
        parse_bint(s, i) == Some((v, j)),
    ensures
        i < j <= s.len(),
        s.subrange(i, j) == spec_bint(v as nat),
{
    let (v0, j0) = parse_uint(s, i + 1).unwrap();
    lemma_parse_uint_sound(s, i + 1, v0, j0);
    assert(s.subrange(i, j) =~= seq![105u8] + spec_udec(v as nat) + seq![101u8]);
}

/// A parsed metadata header occupies exactly its canonical encoding: the
/// undelimited boundary between header and trailer can be recovered by
/// re-encoding the header.
pub proof fn lemma_parse_um_sound(s: Seq<u8>, m: UtMetadata, n: int)
    requires
        spec_parse_um(s) == Some((m, n)),
    ensures
        0 < n <= s.len(),
        s.subrange(0, n) == spec_encode_um(m),
        n == spec_encode_um(m).len(),
{
    let k1 = spec_bstr(k_msg_type());
    let k2 = spec_bstr(k_piece());
    let k3 = spec_bstr(k_total_size());
    let i1 = 1 + k1.len() as int;
    let (t, i2) = parse_bint(s, i1).unwrap();
    lemma_parse_bint_sound(s, i1, t, i2);
    assert(s.subrange(0, i2) =~= seq![100u8] + k1 + spec_bint(t as nat));
    let (p, i3) = parse_bint(s, i2 + k2.len() as int).unwrap();
    lemma_parse_bint_sound(s, i2 + k2.len() as int, p, i3);
    assert(s.subrange(0, i3) =~= s.subrange(0, i2) + k2 + spec_bint(p as nat));
    assert(m.msg_type as nat == t as nat);
    if has_at(s, i3, k3) {
        let (ts, i4) = parse_bint(s, i3 + k3.len() as int).unwrap();
        lemma_parse_bint_sound(s, i3 + k3.len() as int, ts, i4);
        assert(s.subrange(0, i4) =~= s.subrange(0, i3) + k3 + spec_bint(ts as nat));
        assert(s.subrange(0, n) =~= s.subrange(0, i4) + seq![101u8]);
        assert(s.subrange(0, n) =~= spec_encode_um(m));
    } else {
        assert(s.subrange(0, n) =~= s.subrange(0, i3) + seq![101u8]);
        assert(s.subrange(0, n) =~= spec_encode_um(m));
    }
}

} // verus!

verus! {

// --- completeness: canonical encodings parse back ------------------------

/// The decimal digits of a number are digits, and only zero itself starts
/// with a zero.
pub proof fn lemma_udec_shape(n: nat)
    ensures
        spec_udec(n).len() >= 1,
        forall|k: int| 0 <= k < spec_udec(n).len() ==> is_digit(#[trigger] spec_udec(n)[k]),
        spec_udec(n)[0] == 48 ==> spec_udec(n).len() == 1,
    decreases n,
{
    if n >= 10 {
        lemma_udec_shape(n / 10);
        assert(n / 10 >= 1) by (nonlinear_arith)
            requires
                n >= 10,
        ;
        assert(spec_udec(n)[0] == spec_udec(n / 10)[0]);
        if spec_udec(n)[0] == 48 {
            assert(spec_udec(n / 10).len() == 1);
            if n / 10 >= 10 {
                lemma_udec_shape((n / 10) / 10);
                assert(spec_udec(n / 10).len() == spec_udec((n / 10) / 10).len() + 1);
                assert(false);
            } else {
                assert(spec_udec(n / 10)[0] == (48 + n / 10) as u8);
                assert(false);
            }
        }
    }
}

/// A digit run that is the decimal encoding of `n` has value `n`.
pub proof fn lemma_digits_val_of_udec(s: Seq<u8>, i: int, n: nat)
    requires
        0 <= i,
        i + spec_udec(n).len() <= s.len(),
        s.subrange(i, i + spec_udec(n).len()) == spec_udec(n),
    ensures
        digits_val(s, i, i + spec_udec(n).len()) == n,
    decreases n,
{
    let u = spec_udec(n);
    let j = i + u.len();
    assert(s[j - 1] == u[u.len() - 1]);
    if n < 10 {
        assert(digits_val(s, i, i) == 0);
        assert(s[i] == (48 + n) as u8);
        assert(digits_val(s, i, j) == (s[i] - 48) as nat);
    } else {
        let u0 = spec_udec(n / 10);
        assert(u == u0.push((48 + n % 10) as u8));
        assert(s.subrange(i, j - 1) =~= u0) by {
            assert forall|k: int| 0 <= k < u0.len() implies s.subrange(i, j - 1)[k] == u0[k] by {
                assert(s.subrange(i, j - 1)[k] == s[i + k]);
                assert(s[i + k] == s.subrange(i, j)[k]);
            }
        }
        lemma_digits_val_of_udec(s, i, n / 10);
        assert(s[j - 1] == (48 + n % 10) as u8);
        assert(is_digit(s[j - 1]));
        assert(digits_val(s, i, j) == (n / 10) * 10 + n % 10);
        vstd::arithmetic::div_mod::lemma_fundamental_div_mod(n as int, 10);
    }
}

/// Every position of a digit run up to `j` is a digit, so `digits_end`
/// stops exactly where the run does.
pub proof fn lemma_digits_end_of(s: Seq<u8>, i: int, j: int)
    requires
        0 <= i <= j <= s.len(),
        forall|k: int| i <= k < j ==> is_digit(#[trigger] s[k]),
        j == s.len() || !is_digit(s[j]),
    ensures
        digits_end(s, i) == j,
    decreases j - i,
{
    if i < j {
        lemma_digits_end_of(s, i + 1, j);
    }
}

/// A canonically encoded number parses back, when what follows it is no
/// digit.
pub proof fn lemma_parse_uint_complete(s: Seq<u8>, i: int, n: u64)
    requires
        0 <= i,
        i + spec_udec(n as nat).len() <= s.len(),
        s.subrange(i, i + spec_udec(n as nat).len()) == spec_udec(n as nat),
        i + spec_udec(n as nat).len() == s.len() || !is_digit(s[i + spec_udec(n as nat).len()]),
    ensures
        parse_uint(s, i) == Some((n, i + spec_udec(n as nat).len())),
{
    let u = spec_udec(n as nat);
    let j = i + u.len();
    lemma_udec_shape(n as nat);
    assert forall|k: int| i <= k < j implies is_digit(#[trigger] s[k]) by {
        assert(s[k] == s.subrange(i, j)[k - i]);
    }
    lemma_digits_end_of(s, i, j);
    lemma_digits_val_of_udec(s, i, n as nat);
    assert(s[i] == u[0]);
}

/// A canonically encoded integer parses back.
pub proof fn lemma_parse_bint_complete(s: Seq<u8>, i: int, n: u64)
    requires
        0 <= i,
        i + spec_bint(n as nat).len() <= s.len(),
        s.subrange(i, i + spec_bint(n as nat).len()) == spec_bint(n as nat),
    ensures
        parse_bint(s, i) == Some((n, i + spec_bint(n as nat).len())),
{
    let u = spec_udec(n as nat);
    let b = spec_bint(n as nat);
    let j = i + b.len();
    assert(s[i] == b[0]);
    assert(s[j - 1] == b[b.len() - 1]);
    assert(s.subrange(i + 1, i + 1 + u.len()) =~= u) by {
        assert forall|k: int| 0 <= k < u.len() implies s.subrange(i + 1, i + 1 + u.len())[k]
            == u[k] by {
            assert(s.subrange(i + 1, i + 1 + u.len())[k] == s[i + 1 + k]);
            assert(s[i + 1 + k] == s.subrange(i, j)[1 + k]);
        }
    }
    assert(s[i + 1 + u.len()] == 101);
    lemma_parse_uint_complete(s, i + 1, n);
}

/// A canonical metadata header followed by any trailer parses back to that
/// very header, consuming exactly its own length: the undelimited boundary
/// of a Data payload can always be recovered by re-encoding the header.
pub proof fn lemma_parse_um_complete(m: UtMetadata, t: Seq<u8>)
    ensures
        spec_parse_um(spec_encode_um(m) + t) == Some(
            (m, spec_encode_um(m).len() as int),
        ),
{
    let enc = spec_encode_um(m);
    let s = enc + t;
    let k1 = spec_bstr(k_msg_type());
    let k2 = spec_bstr(k_piece());
    let k3 = spec_bstr(k_total_size());
    let b1 = spec_bint(m.msg_type as nat);
    let b2 = spec_bint(m.piece as nat);
    let i1 = 1 + k1.len() as int;
    let i2 = i1 + b1.len() as int;
    let i3 = i2 + k2.len() as int + b2.len() as int;
    assert(s[0] == 100);
    assert(s.subrange(1, i1) =~= k1);
    assert(has_at(s, 1, k1));
    assert(s.subrange(i1, i2) =~= b1);
    lemma_parse_bint_complete(s, i1, m.msg_type as u64);
    assert(s.subrange(i2, i2 + k2.len()) =~= k2);
    assert(has_at(s, i2, k2));
    assert(s.subrange(i2 + k2.len(), i3) =~= b2);
    lemma_parse_bint_complete(s, i2 + k2.len() as int, m.piece);
    match m.total_size {
        Some(ts) => {
            let b3 = spec_bint(ts as nat);
            let i4 = i3 + k3.len() as int + b3.len() as int;
            assert(s.subrange(i3, i3 + k3.len()) =~= k3);
            assert(has_at(s, i3, k3));
            assert(s.subrange(i3 + k3.len(), i4) =~= b3);
            lemma_parse_bint_complete(s, i3 + k3.len() as int, ts);
            assert(s[i4] == 101);
            assert(enc.len() == i4 + 1);
        },
        None => {
            assert(s[i3] == 101);
            assert(!has_at(s, i3, k3)) by {
                assert(spec_udec(1) =~= seq![49u8]);
                assert(spec_udec(10) =~= seq![49u8, 48]);
                assert(k3[0] == 49);
                if has_at(s, i3, k3) {
                    assert(s.subrange(i3, i3 + k3.len())[0] == 49);
                }
            }
            assert(enc.len() == i3 + 1);
        },
    }
}

} // verus!

verus! {

/// A canonically encoded byte string parses back.
pub proof fn lemma_parse_bstr_complete(s: Seq<u8>, i: int, t: Seq<u8>)
    requires
        0 <= i,
        t.len() <= u64::MAX,
        i + spec_bstr(t).len() <= s.len(),
        s.subrange(i, i + spec_bstr(t).len()) == spec_bstr(t),
    ensures
        parse_bstr(s, i) == Some((t, i + spec_bstr(t).len())),
{
    let u = spec_udec(t.len() as nat);
    let b = spec_bstr(t);
    let j = i + u.len();
    assert(s.subrange(i, j) =~= u) by {
        assert forall|k: int| 0 <= k < u.len() implies s.subrange(i, j)[k] == u[k] by {
            assert(s.subrange(i, j)[k] == s[i + k]);
            assert(s[i + k] == s.subrange(i, i + b.len())[k]);
        }
    }
    assert(s[j] == b[u.len() as int]);
    assert(s[j] == 58);
    lemma_parse_uint_complete(s, i, t.len() as u64);
    assert(s.subrange(j + 1, j + 1 + t.len()) =~= t) by {
        assert forall|k: int| 0 <= k < t.len() implies s.subrange(j + 1, j + 1 + t.len())[k]
            == t[k] by {
            assert(s.subrange(j + 1, j + 1 + t.len())[k] == s[j + 1 + k]);
            assert(s[j + 1 + k] == s.subrange(i, i + b.len())[u.len() + 1 + k]);
        }
    }
}

/// The bytes of the inner `m` dictionary this engine's handshake carries.
spec fn spec_m_dict_enc(id: Option<u8>) -> Seq<u8> {
    seq![100u8] + (match id {
        Some(i) => spec_bstr(k_ut_metadata()) + spec_bint(i as nat),
        None => Seq::<u8>::empty(),
    }) + seq![101u8]
}

/// The bytes of a handshake after its `m` entry: the optional size entry and
/// the closing `e`.
spec fn spec_hs_tail_enc(size: Option<u64>) -> Seq<u8> {
    (match size {
        Some(v) => spec_bstr(k_metadata_size()) + spec_bint(v as nat),
        None => Seq::<u8>::empty(),
    }) + seq![101u8]
}

/// The inner `m` dictionary of this engine's handshake parses back to the id
/// it lists.
proof fn lemma_m_dict_complete_at(s: Seq<u8>, i1: int, id: Option<u8>)
    requires
        0 <= i1,
        i1 + spec_m_dict_enc(id).len() <= s.len(),
        s.subrange(i1, i1 + spec_m_dict_enc(id).len()) == spec_m_dict_enc(id),
    ensures
        parse_m_dict(s, i1) == Some((id, i1 + spec_m_dict_enc(id).len())),
{
    let md = spec_m_dict_enc(id);
    let kut = spec_bstr(k_ut_metadata());
    assert(s[i1] == s.subrange(i1, i1 + md.len())[0]);
    let i2 = i1 + 1;
    match id {
        Some(i) => {
            let b = spec_bint(i as nat);
            let i3 = i2 + kut.len() as int + b.len() as int;
            assert(s.subrange(i2, i2 + kut.len()) =~= kut) by {
                assert forall|k: int| 0 <= k < kut.len() implies s.subrange(i2, i2 + kut.len())[k]
                    == kut[k] by {
                    assert(s.subrange(i2, i2 + kut.len())[k] == s[i2 + k]);
                    assert(s[i2 + k] == s.subrange(i1, i1 + md.len())[1 + k]);
                }
            }
            lemma_parse_bstr_complete(s, i2, k_ut_metadata());
            assert(s.subrange(i2 + kut.len(), i3) =~= b) by {
                assert forall|k: int| 0 <= k < b.len() implies s.subrange(
                    i2 + kut.len(),
                    i3,
                )[k] == b[k] by {
                    assert(s.subrange(i2 + kut.len(), i3)[k] == s[i2 + kut.len() + k]);
                    assert(s[i2 + kut.len() + k] == s.subrange(i1, i1 + md.len())[1 + kut.len()
                        + k]);
                }
            }
            lemma_parse_bint_complete(s, i2 + kut.len() as int, i as u64);
            assert(s[i3] == s.subrange(i1, i1 + md.len())[md.len() - 1]);
            assert(s[i3] == 101);
            assert(m_entries(s, i3, Some(i)) == Some((Some(i), i3 + 1)));
            assert(m_entries(s, i2, None) == Some((Some(i), i3 + 1)));
        },
        None => {
            assert(s[i2] == s.subrange(i1, i1 + md.len())[1]);
            assert(s[i2] == 101);
            assert(m_entries(s, i2, None) == Some((None::<u8>, i2 + 1)));
        },
    }
}

/// The entries after the `m` dictionary of this engine's handshake parse
/// back to the size it announces.
proof fn lemma_hs_tail_complete_at(s: Seq<u8>, i4: int, size: Option<u64>, id: Option<u8>)
    requires
        0 < i4,
        i4 + spec_hs_tail_enc(size).len() <= s.len(),
        s.subrange(i4, i4 + spec_hs_tail_enc(size).len()) == spec_hs_tail_enc(size),
    ensures
        hs_entries(s, i4, None, id) == Some(
            HandshakeInfo { metadata_size: size, ut_metadata_id: id },
        ),
{
    let te = spec_hs_tail_enc(size);
    let kms = spec_bstr(k_metadata_size());
    match size {
        Some(v) => {
            let b = spec_bint(v as nat);
            let i5 = i4 + kms.len() as int + b.len() as int;
            assert(s.subrange(i4, i4 + kms.len()) =~= kms) by {
                assert forall|k: int| 0 <= k < kms.len() implies s.subrange(i4, i4 + kms.len())[k]
                    == kms[k] by {
                    assert(s.subrange(i4, i4 + kms.len())[k] == s[i4 + k]);
                    assert(s[i4 + k] == s.subrange(i4, i4 + te.len())[k]);
                }
            }
            lemma_parse_bstr_complete(s, i4, k_metadata_size());
            assert(s.subrange(i4 + kms.len(), i5) =~= b) by {
                assert forall|k: int| 0 <= k < b.len() implies s.subrange(
                    i4 + kms.len(),
                    i5,
                )[k] == b[k] by {
                    assert(s.subrange(i4 + kms.len(), i5)[k] == s[i4 + kms.len() + k]);
                    assert(s[i4 + kms.len() + k] == s.subrange(i4, i4 + te.len())[kms.len() + k]);
                }
            }
            lemma_parse_bint_complete(s, i4 + kms.len() as int, v);
            assert(s[i5] == s.subrange(i4, i4 + te.len())[te.len() - 1]);
            assert(s[i5] == 101);
            assert(k_metadata_size() != k_m());
            assert(hs_entries(s, i5, Some(v), id) == Some(
                HandshakeInfo { metadata_size: Some(v), ut_metadata_id: id },
            ));
            assert(hs_entries(s, i4, None, id) == Some(
                HandshakeInfo { metadata_size: Some(v), ut_metadata_id: id },
            ));
        },
        None => {
            assert(s[i4] == s.subrange(i4, i4 + te.len())[0]);
            assert(s[i4] == 101);
            assert(hs_entries(s, i4, None, id) == Some(
                HandshakeInfo { metadata_size: None, ut_metadata_id: id },
            ));
        },
    }
}

/// This engine's own handshake parses back to exactly what it announced.
pub proof fn lemma_parse_handshake_complete(size: Option<u64>, id: Option<u8>)
    ensures
        spec_parse_handshake(spec_encode_handshake(size, id)) == Some(
            HandshakeInfo { metadata_size: size, ut_metadata_id: id },
        ),
{
    let s = spec_encode_handshake(size, id);
    let km = spec_bstr(k_m());
    let md = spec_m_dict_enc(id);
    let te = spec_hs_tail_enc(size);
    assert(spec_udec(1) =~= seq![49u8]);
    assert(km =~= seq![49u8, 58, 109]);
    assert(s =~= seq![100u8] + km + md + te);
    assert(s[0] == 100);
    let i1 = 1 + km.len() as int;
    let i4 = i1 + md.len() as int;
    assert(s.subrange(1, i1) =~= km);
    lemma_parse_bstr_complete(s, 1, k_m());
    assert(s.subrange(i1, i4) =~= md);
    lemma_m_dict_complete_at(s, i1, id);
    assert(s.subrange(i4, i4 + te.len()) =~= te);
    lemma_hs_tail_complete_at(s, i4, size, id);
    assert(s[1] == 49);
    assert(hs_entries(s, 1, None, None) == hs_entries(s, i4, None, id));
}

} // verus!
