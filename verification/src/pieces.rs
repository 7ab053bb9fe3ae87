//! Piece geometry: how a serialized dictionary of a given length splits into
//! bounded pieces.

use vstd::prelude::*;

use crate::message::PIECE_LENGTH;

verus! {

/// Number of pieces a dictionary of `len` bytes splits into: `len` divided
/// by the piece length, rounded up.
pub open spec fn spec_piece_count(len: nat) -> nat {
    (len + PIECE_LENGTH - 1) as nat / PIECE_LENGTH as nat
}

/// Length of the last piece of a dictionary of `len > 0` bytes: the division
/// remainder, or a whole piece when that remainder is zero.
pub open spec fn spec_last_piece_len(len: nat) -> nat {
    if len % PIECE_LENGTH as nat == 0 {
        PIECE_LENGTH as nat
    } else {
        len % PIECE_LENGTH as nat
    }
}

/// Compute the piece count of a dictionary of `len` bytes.
pub fn piece_count(len: usize) -> (n: usize)
    ensures
        n as nat == spec_piece_count(len as nat),
{
    let mut n = len / PIECE_LENGTH;
    if len % PIECE_LENGTH > 0 {
        n = n + 1;
    }
    proof {
        let p = PIECE_LENGTH as int;
        let q = len as int / p;
        let r = len as int % p;
        vstd::arithmetic::div_mod::lemma_fundamental_div_mod(len as int, p);
        if r > 0 {
            vstd::arithmetic::div_mod::lemma_fundamental_div_mod_converse(
                len as int + p - 1,
                p,
                q + 1,
                r - 1,
            );
        } else {
            vstd::arithmetic::div_mod::lemma_fundamental_div_mod_converse(
                len as int + p - 1,
                p,
                q,
                p - 1,
            );
        }
    }
    n
}

/// The piece geometry: for a dictionary of `len > 0` bytes the piece count is
/// the least number of pieces that cover it, every piece before the last is
/// full, and the last piece is what remains: never empty, at most one piece
/// long, and exactly `len` minus the bytes of the full pieces before it.
pub proof fn lemma_piece_geometry(len: nat)
    requires
        len > 0,
    ensures
        spec_piece_count(len) * PIECE_LENGTH >= len,
        (spec_piece_count(len) - 1) * PIECE_LENGTH < len,
        0 < spec_last_piece_len(len) <= PIECE_LENGTH,
        spec_last_piece_len(len) == len - (spec_piece_count(len) - 1) * PIECE_LENGTH,
{
    let p = PIECE_LENGTH as int;
    let q = len as int / p;
    let r = len as int % p;
    vstd::arithmetic::div_mod::lemma_fundamental_div_mod(len as int, p);
    let c = spec_piece_count(len) as int;
    if r > 0 {
        vstd::arithmetic::div_mod::lemma_fundamental_div_mod_converse(
            len as int + p - 1,
            p,
            q + 1,
            r - 1,
        );
        assert(c == q + 1);
        assert(c * p == q * p + p) by (nonlinear_arith)
            requires
                c == q + 1,
        ;
        assert((c - 1) * p == q * p) by (nonlinear_arith)
            requires
                c == q + 1,
        ;
    } else {
        vstd::arithmetic::div_mod::lemma_fundamental_div_mod_converse(len as int + p - 1, p, q, p
            - 1);
        assert(c == q);
        assert(q >= 1);
        assert((c - 1) * p == q * p - p) by (nonlinear_arith)
            requires
                c == q,
        ;
    }
}

} // verus!

verus! {

/// The first `k` pieces of `dict`, in order, as one byte sequence.
pub open spec fn pieces_prefix(dict: Seq<u8>, k: int) -> Seq<u8>
    decreases k,
{
    if k <= 0 {
        Seq::empty()
    } else {
        pieces_prefix(dict, k - 1) + crate::seeder::spec_piece_bytes(dict, k - 1)
    }
}

/// Sequential reassembly is lossless: appending the pieces a seeder sends
/// for indices `0` up to `k` yields exactly the first `k` piece lengths of
/// the dictionary, and all of it once `k` is the piece count.
pub proof fn lemma_pieces_reassemble(dict: Seq<u8>, k: int)
    requires
        0 <= k <= spec_piece_count(dict.len() as nat),
    ensures
        pieces_prefix(dict, k) == if k * PIECE_LENGTH <= dict.len() {
            dict.take(k * PIECE_LENGTH)
        } else {
            dict
        },
    decreases k,
{
    let p = PIECE_LENGTH as int;
    let c = spec_piece_count(dict.len() as nat) as int;
    if k > 0 {
        lemma_pieces_reassemble(dict, k - 1);
        assert((k - 1) * p == k * p - p) by (nonlinear_arith);
        if dict.len() > 0 {
            lemma_piece_geometry(dict.len() as nat);
            assert((k - 1) * p <= (c - 1) * p) by (nonlinear_arith)
                requires
                    k - 1 <= c - 1,
                    p > 0,
            ;
        }
        if k * p <= dict.len() {
            assert(pieces_prefix(dict, k) =~= dict.take(k * p));
        } else {
            assert(pieces_prefix(dict, k) =~= dict);
        }
    }
}

/// Reassembling every piece yields the whole dictionary.
pub proof fn lemma_all_pieces_reassemble(dict: Seq<u8>)
    ensures
        pieces_prefix(dict, spec_piece_count(dict.len() as nat) as int) == dict,
{
    let p = PIECE_LENGTH as int;
    let c = spec_piece_count(dict.len() as nat) as int;
    lemma_pieces_reassemble(dict, c);
    if dict.len() > 0 {
        lemma_piece_geometry(dict.len() as nat);
        if c * p <= dict.len() {
            assert(dict.take(c * p) =~= dict);
        }
    } else {
        assert(pieces_prefix(dict, 0) =~= dict);
    }
}

} // verus!
