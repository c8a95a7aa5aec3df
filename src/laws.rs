//! Laws that relate encoding, decoding and the length arithmetic.
use crate::model::{
    byte_at, char_ok, decode_spec, decoded_len, encode_spec, is_valid, lemma_encoded_char,
    lemma_group_bits, decoded_bound, encoded_len, pad_count, PAD,
};
use vstd::prelude::*;

verus! {

/// Encoding always yields well-formed text with exactly the right padding.
pub proof fn lemma_encode_valid(b: Seq<u8>)
    ensures
        is_valid(encode_spec(b)),
        decoded_len(encode_spec(b)) == b.len(),
{
    let e = encode_spec(b);
    let n = b.len();
    let q = (n / 3) as int;
    let r = (n % 3) as int;
    assert(n == 3 * q + r);
    assert forall|k: int| 0 <= k < e.len() implies char_ok(e, k) by {
        let g = k / 4;
        let j = k % 4;
        assert(k == 4 * g + j);
        lemma_encoded_char(b, g, j);
        if e[k] == PAD {
            if j == 2 {
                lemma_encoded_char(b, g, 3);
            }
        }
    }
    if r == 0 {
        if q > 0 {
            lemma_encoded_char(b, q - 1, 3);
        }
    } else {
        lemma_encoded_char(b, q, 2);
        lemma_encoded_char(b, q, 3);
    }
}

/// Decoding the encoding of any byte sequence gives that sequence back.
pub proof fn lemma_round_trip(b: Seq<u8>)
    ensures
        is_valid(encode_spec(b)),
        decode_spec(encode_spec(b)) == b,
{
    lemma_encode_valid(b);
    let e = encode_spec(b);
    let d = decode_spec(e);
    assert forall|k: int| 0 <= k < b.len() implies d[k] == b[k] by {
        let g = k / 3;
        let j = k % 3;
        assert(k == 3 * g + j);
        lemma_encoded_char(b, g, 0);
        lemma_encoded_char(b, g, 1);
        lemma_encoded_char(b, g, 2);
        lemma_encoded_char(b, g, 3);
        lemma_group_bits(byte_at(b, 3 * g), byte_at(b, 3 * g + 1), byte_at(b, 3 * g + 2));
    }
    assert(d =~= b);
}


/// The encoding of `b` has exactly `encoded_len(b.len())` characters, and the
/// bound `decoded_bound` on well-formed text is never below its true decoded
/// length and exceeds it by at most two.
pub proof fn lemma_length_law(b: Seq<u8>, s: Seq<u8>)
    requires
        is_valid(s),
    ensures
        encode_spec(b).len() == encoded_len(b.len()),
        decoded_len(s) <= decoded_bound(s.len()),
        decoded_bound(s.len()) <= decoded_len(s) + 2,
{
    if s.len() > 0 {
        assert(s.len() >= 4);
        assert(s.len() / 4 * 3 >= 3);
    }
    assert(pad_count(s) <= 2);
}

/// Nothing encodes and decodes to nothing, and every encoded length is a
/// multiple of four.
pub proof fn lemma_base_cases(n: nat)
    ensures
        encoded_len(0) == 0,
        decoded_bound(0) == 0,
        encoded_len(n) % 4 == 0,
{
}

} // verus!
