//! The byte-wise engine: one 3-byte group or one 4-character group at a time.
//! It is the reference for every input and also finishes what the lane engine
//! leaves over.
use crate::error::{decode_outcome, CodecError};
use crate::model::{
    char_ok, dec_byte, decode_spec, decoded_bound, decoded_len, enc_char, encode_spec, encoded_len,
    is_sym, lemma_encoded_char, lemma_split, pack0, pack1, pack2, pad_allowed, pad_count, sextet,
    sym, PAD,
};
use vstd::prelude::*;

verus! {

/// The alphabet character for a 6-bit value.
pub fn sym_of(x: u8) -> (c: u8)
    requires
        x < 64,
    ensures
        c == sym(x),
{
    if x < 26 {
        x + 65
    } else if x < 52 {
        x + 71
    } else if x < 62 {
        x - 4
    } else if x == 62 {
        43
    } else {
        47
    }
}

/// Whether a byte is an alphabet character.
pub fn is_sym_byte(c: u8) -> (r: bool)
    ensures
        r == is_sym(c),
{
    (65 <= c && c <= 90) || (97 <= c && c <= 122) || (48 <= c && c <= 57) || c == 43 || c == 47
}

/// The 6-bit value of an alphabet character (0 for anything else).
pub fn sextet_of(c: u8) -> (v: u8)
    ensures
        v == sextet(c),
{
    if 65 <= c && c <= 90 {
        c - 65
    } else if 97 <= c && c <= 122 {
        c - 71
    } else if 48 <= c && c <= 57 {
        c + 4
    } else if c == 43 {
        62
    } else if c == 47 {
        63
    } else {
        0
    }
}

/// The 6-bit value of byte `i` of `s`, checked against its place in `s`.
fn sextet_at(s: &[u8], i: usize) -> (r: Result<u8, CodecError>)
    requires
        i < s@.len(),
    ensures
        match r {
            Ok(v) => char_ok(s@, i as int) && v == sextet(s@[i as int]),
            Err(e) => !char_ok(s@, i as int) && e == CodecError::InvalidInput(i, s@[i as int]),
        },
{
    let n = s.len();
    let c = s[i];
    if is_sym_byte(c) {
        Ok(sextet_of(c))
    } else if c == PAD && (i + 1 == n || (i + 2 == n && s[n - 1] == PAD)) {
        Ok(0)
    } else {
        Err(CodecError::InvalidInput(i, c))
    }
}

/// Encodes the groups of `input` from group `start` on, after the characters of
/// the earlier groups have been written. Writes nothing past the encoding.
pub fn encode_from(input: &[u8], output: &mut [u8], start: usize) -> (written: usize)
    requires
        3 * start <= input@.len(),
        encoded_len(input@.len()) <= old(output)@.len(),
        4 * start <= encoded_len(input@.len()),
        old(output)@.subrange(0, 4 * start) == encode_spec(input@).subrange(0, 4 * start),
    ensures
        written == encoded_len(input@.len()),
        final(output)@ == encode_spec(input@) + old(output)@.subrange(
            written as int,
            old(output)@.len() as int,
        ),
{
    let n = input.len();
    let ghost len = encoded_len(n as nat);
    let ghost q = (n / 3) as int;
    let ghost r = (n % 3) as int;
    assert(n == 3 * q + r);
    let out_len = output.len();
    assert forall|k: int| 0 <= k < 4 * start implies output@[k] == enc_char(input@, k) by {
        assert(output@.subrange(0, 4 * start)[k] == encode_spec(input@).subrange(0, 4 * start)[k]);
        assert(output@.subrange(0, 4 * start)[k] == output@[k]);
        assert(encode_spec(input@).subrange(0, 4 * start)[k] == encode_spec(input@)[k]);
        assert(k < encoded_len(input@.len()));
    }
    let mut g: usize = start;
    while 3 * g < n
        invariant
            n == input@.len(),
            n == 3 * q + r,
            0 <= r < 3,
            len == encoded_len(n as nat),
            len <= output@.len(),
            output@.len() == old(output)@.len(),
            output@.len() == out_len,
            3 * g <= n + 2,
            4 * g <= len,
            forall|k: int| 0 <= k < 4 * g ==> output@[k] == enc_char(input@, k),
            forall|k: int| len <= k < output@.len() ==> output@[k] == old(output)@[k],
        decreases n + 3 - 3 * g,
    {
        let i = 3 * g;
        let o = 4 * g;
        proof {
            lemma_encoded_char(input@, g as int, 0);
            lemma_encoded_char(input@, g as int, 1);
            lemma_encoded_char(input@, g as int, 2);
            lemma_encoded_char(input@, g as int, 3);
        }
        let b0 = input[i];
        let b1 = if i + 1 < n {
            input[i + 1]
        } else {
            0
        };
        let b2 = if i + 2 < n {
            input[i + 2]
        } else {
            0
        };
        output[o] = sym_of(b0 >> 2);
        output[o + 1] = sym_of(((b0 & 3) << 4) | (b1 >> 4));
        output[o + 2] = if i + 1 < n {
            sym_of(((b1 & 15) << 2) | (b2 >> 6))
        } else {
            PAD
        };
        output[o + 3] = if i + 2 < n {
            sym_of(b2 & 63)
        } else {
            PAD
        };
        g = g + 1;
    }
    let ghost fin = output@;
    assert(fin =~= encode_spec(input@) + old(output)@.subrange(len as int, old(output)@.len() as int));
    4 * g
}

/// Encodes `input` into the front of `output` and returns the number of
/// characters written; the rest of `output` is left as it was.
pub fn encode(input: &[u8], output: &mut [u8]) -> (written: usize)
    requires
        encoded_len(input@.len()) <= old(output)@.len(),
    ensures
        written == encoded_len(input@.len()),
        final(output)@ == encode_spec(input@) + old(output)@.subrange(
            written as int,
            old(output)@.len() as int,
        ),
{
    assert(old(output)@.subrange(0, 0) =~= encode_spec(input@).subrange(0, 0));
    encode_from(input, output, 0)
}


/// Number of pads at the end of `s`, two at most.
fn trailing_pads(s: &[u8]) -> (p: usize)
    ensures
        p == pad_count(s@),
{
    let n = s.len();
    if n >= 2 && s[n - 1] == PAD && s[n - 2] == PAD {
        2
    } else if n >= 1 && s[n - 1] == PAD {
        1
    } else {
        0
    }
}

/// Decodes the groups of `input` from group `start` on, after the earlier
/// groups, which hold alphabet characters only, have been decoded.
pub fn decode_from(input: &[u8], output: &mut [u8], start: usize) -> (r: Result<usize, CodecError>)
    requires
        input@.len() % 4 == 0,
        4 * start <= input@.len(),
        decoded_bound(input@.len()) <= old(output)@.len(),
        forall|i: int| 0 <= i < 4 * start ==> is_sym(#[trigger] input@[i]),
        forall|k: int| 0 <= k < 3 * start ==> old(output)@[k] == dec_byte(input@, k),
    ensures
        final(output)@.len() == old(output)@.len(),
        decode_outcome(input@, final(output)@, r),
{
    let n = input.len();
    let ghost s = input@;
    let ghost m = (n / 4) as int;
    assert(n == 4 * m);
    let mut g: usize = start;
    while 4 * g < n
        invariant
            n == s.len(),
            s == input@,
            n == 4 * m,
            4 * g <= n,
            output@.len() == old(output)@.len(),
            decoded_bound(n as nat) <= output@.len(),
            forall|i: int| 0 <= i < 4 * g ==> char_ok(s, i),
            forall|i: int| 0 <= i < 4 * start ==> is_sym(#[trigger] s[i]),
            forall|k: int| 0 <= k < 3 * g && k < decoded_len(s) ==> output@[k] == dec_byte(s, k),
        decreases n - 4 * g,
    {
        let i = 4 * g;
        let o = 3 * g;
        let v0 = match sextet_at(input, i) {
            Ok(v) => v,
            Err(e) => return Err(e),
        };
        let v1 = match sextet_at(input, i + 1) {
            Ok(v) => v,
            Err(e) => return Err(e),
        };
        let v2 = match sextet_at(input, i + 2) {
            Ok(v) => v,
            Err(e) => return Err(e),
        };
        let v3 = match sextet_at(input, i + 3) {
            Ok(v) => v,
            Err(e) => return Err(e),
        };
        proof {
            lemma_split(g as int, 0, 3);
            lemma_split(g as int, 1, 3);
            lemma_split(g as int, 2, 3);
            assert(4 * g + 4 <= n);
            if 4 * g + 4 < n {
                assert(!pad_allowed(s, i + 2));
                assert(!pad_allowed(s, i + 3));
            }
        }
        output[o] = ((v0 & 63) << 2) | (v1 >> 4);
        if input[i + 2] != PAD {
            output[o + 1] = ((v1 & 15) << 4) | (v2 >> 2);
        }
        if input[i + 3] != PAD {
            output[o + 2] = ((v2 & 3) << 6) | (v3 & 63);
        }
        proof {
            assert(output@[o as int] == pack0(v0, v1));
            if s[i + 2] != PAD {
                assert(output@[o + 1] == pack1(v1, v2));
            } else {
                assert(pad_allowed(s, i + 2));
                assert(decoded_len(s) <= o + 1);
            }
            if s[i + 3] != PAD {
                assert(output@[o + 2] == pack2(v2, v3));
            } else {
                assert(pad_allowed(s, i + 3));
                assert(decoded_len(s) <= o + 2);
            }
        }
        g = g + 1;
    }
    let len = n / 4 * 3 - trailing_pads(input);
    proof {
        let out = output@;
        assert(out.subrange(0, len as int) =~= decode_spec(s));
    }
    Ok(len)
}

/// Decodes `input` into the front of `output` and returns the decoded length.
pub fn decode(input: &[u8], output: &mut [u8]) -> (r: Result<usize, CodecError>)
    requires
        decoded_bound(input@.len()) <= old(output)@.len(),
    ensures
        final(output)@.len() == old(output)@.len(),
        decode_outcome(input@, final(output)@, r),
{
    if input.len() % 4 != 0 {
        return Err(CodecError::InputLengthInvalid(input.len()));
    }
    decode_from(input, output, 0)
}

} // verus!
