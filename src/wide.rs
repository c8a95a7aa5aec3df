//! The lane engine: eight 4-character lanes per step, 24 input bytes to 32
//! characters when encoding and 32 characters to 24 bytes when decoding. Each
//! lane maps between 6-bit values and characters by comparisons against the
//! alphabet's sub-range boundaries instead of a table. Whatever does not fill
//! a whole chunk goes to the byte-wise engine, and so does a chunk that holds
//! anything but alphabet characters.
use crate::error::{decode_outcome, CodecError};
use crate::model::{
    dec_byte, decoded_bound, enc_char, encode_spec, encoded_len, is_sym, lemma_encoded_char,
    lemma_split, sextet, sym,
};
use crate::scalar;
use vstd::prelude::*;

verus! {

/// Number of 4-character lanes in one chunk.
pub const LANES: usize = 8;

/// Input bytes that one encode step consumes.
pub const ENCODE_CHUNK: usize = 24;

/// Input characters that one decode step consumes.
pub const DECODE_CHUNK: usize = 32;

/// The alphabet character for a 6-bit value: the value is shifted into
/// ASCII, and each sub-range boundary it passes corrects the shift.
pub fn lane_sym(x: u8) -> (c: u8)
    requires
        x < 64,
    ensures
        c == sym(x),
{
    let mut shift: i16 = 65;
    if x >= 26 {
        shift = shift + 6;
    }
    if x >= 52 {
        shift = shift - 75;
    }
    if x >= 62 {
        shift = shift - 15;
    }
    if x >= 63 {
        shift = shift + 3;
    }
    (x as i16 + shift) as u8
}

/// The 6-bit value of a character, and whether it is an alphabet character.
pub fn lane_sextet(c: u8) -> (r: (u8, bool))
    ensures
        r.1 == is_sym(c),
        r.1 ==> r.0 == sextet(c),
{
    let upper = 65 <= c && c <= 90;
    let lower = 97 <= c && c <= 122;
    let digit = 48 <= c && c <= 57;
    let plus = c == 43;
    let slash = c == 47;
    let mut shift: i16 = 0;
    if upper {
        shift = -65;
    }
    if lower {
        shift = -71;
    }
    if digit {
        shift = 4;
    }
    if plus {
        shift = 19;
    }
    if slash {
        shift = 16;
    }
    ((c as i16 + shift) as u8, upper || lower || digit || plus || slash)
}

/// Encodes `input` into the front of `output` and returns the number of
/// characters written; the rest of `output` is left as it was.
pub fn encode(input: &[u8], output: &mut [u8]) -> (written: usize)
    requires
        encoded_len(input@.len()) <= old(output)@.len(),
    ensures
        written == encoded_len(input@.len()),
        final(output)@ == encode_spec(input@) + old(output)@.subrange(
            written as int,
            old(output)@.len() as int,
        ),
{
    let n = input.len();
    let ghost len = encoded_len(n as nat);
    let ghost q = (n / 3) as int;
    let ghost r = (n % 3) as int;
    assert(n == 3 * q + r);
    let out_len = output.len();
    let mut g: usize = 0;
    while n - 3 * g >= ENCODE_CHUNK
        invariant
            n == input@.len(),
            n == 3 * q + r,
            0 <= r < 3,
            len == encoded_len(n as nat),
            len <= output@.len(),
            output@.len() == old(output)@.len(),
            output@.len() == out_len,
            3 * g <= n,
            forall|k: int| 0 <= k < 4 * g ==> output@[k] == enc_char(input@, k),
            forall|k: int| len <= k < output@.len() ==> output@[k] == old(output)@[k],
        decreases n - 3 * g,
    {
        let mut l: usize = 0;
        while l < LANES
            invariant
                n == input@.len(),
                n == 3 * q + r,
                0 <= r < 3,
                len == encoded_len(n as nat),
                len <= output@.len(),
                output@.len() == old(output)@.len(),
                output@.len() == out_len,
                3 * g + 24 <= n,
                l <= 8,
                forall|k: int| 0 <= k < 4 * (g + l) ==> output@[k] == enc_char(input@, k),
                forall|k: int| len <= k < output@.len() ==> output@[k] == old(output)@[k],
            decreases 8 - l,
        {
            let i = 3 * (g + l);
            let o = 4 * (g + l);
            proof {
                lemma_encoded_char(input@, g + l, 0);
                lemma_encoded_char(input@, g + l, 1);
                lemma_encoded_char(input@, g + l, 2);
                lemma_encoded_char(input@, g + l, 3);
            }
            let b0 = input[i];
            let b1 = input[i + 1];
            let b2 = input[i + 2];
            output[o] = lane_sym(b0 >> 2);
            output[o + 1] = lane_sym(((b0 & 3) << 4) | (b1 >> 4));
            output[o + 2] = lane_sym(((b1 & 15) << 2) | (b2 >> 6));
            output[o + 3] = lane_sym(b2 & 63);
            l = l + 1;
        }
        g = g + LANES;
    }
    proof {
        assert(output@.subrange(0, 4 * g) =~= encode_spec(input@).subrange(0, 4 * g));
    }
    scalar::encode_from(input, output, g)
}

/// Decodes `input` into the front of `output` and returns the decoded length.
pub fn decode(input: &[u8], output: &mut [u8]) -> (r: Result<usize, CodecError>)
    requires
        decoded_bound(input@.len()) <= old(output)@.len(),
    ensures
        final(output)@.len() == old(output)@.len(),
        decode_outcome(input@, final(output)@, r),
{
    let n = input.len();
    if n % 4 != 0 {
        return Err(CodecError::InputLengthInvalid(n));
    }
    let ghost s = input@;
    let ghost m = (n / 4) as int;
    assert(n == 4 * m);
    let mut g: usize = 0;
    while n - 4 * g >= DECODE_CHUNK
        invariant
            n == s.len(),
            s == input@,
            n == 4 * m,
            4 * g <= n,
            output@.len() == old(output)@.len(),
            decoded_bound(n as nat) <= output@.len(),
            forall|i: int| 0 <= i < 4 * g ==> is_sym(#[trigger] s[i]),
            forall|k: int| 0 <= k < 3 * g ==> output@[k] == dec_byte(s, k),
        decreases n - 4 * g,
    {
        let i = 4 * g;
        let mut all_sym = true;
        let mut j: usize = 0;
        while j < DECODE_CHUNK
            invariant
                s == input@,
                n == s.len(),
                i + 32 <= s.len(),
                j <= 32,
                all_sym == forall|t: int| i <= t < i + j ==> is_sym(#[trigger] s[t]),
            decreases 32 - j,
        {
            let (_, ok) = lane_sextet(input[i + j]);
            all_sym = all_sym && ok;
            j = j + 1;
        }
        if !all_sym {
            break;
        }
        let mut l: usize = 0;
        while l < LANES
            invariant
                n == s.len(),
                s == input@,
                n == 4 * m,
                4 * g + 32 <= n,
                l <= 8,
                output@.len() == old(output)@.len(),
                decoded_bound(n as nat) <= output@.len(),
                forall|t: int| 0 <= t < 4 * g + 32 ==> is_sym(#[trigger] s[t]),
                forall|k: int| 0 <= k < 3 * (g + l) ==> output@[k] == dec_byte(s, k),
            decreases 8 - l,
        {
            let c = 4 * (g + l);
            let o = 3 * (g + l);
            let (v0, _) = lane_sextet(input[c]);
            let (v1, _) = lane_sextet(input[c + 1]);
            let (v2, _) = lane_sextet(input[c + 2]);
            let (v3, _) = lane_sextet(input[c + 3]);
            proof {
                lemma_split(g + l, 0, 3);
                lemma_split(g + l, 1, 3);
                lemma_split(g + l, 2, 3);
                assert(is_sym(s[c as int]) && is_sym(s[c + 1]) && is_sym(s[c + 2]) && is_sym(s[c + 3]));
            }
            output[o] = ((v0 & 63) << 2) | (v1 >> 4);
            output[o + 1] = ((v1 & 15) << 4) | (v2 >> 2);
            output[o + 2] = ((v2 & 3) << 6) | (v3 & 63);
            l = l + 1;
        }
        g = g + LANES;
    }
    scalar::decode_from(input, output, g)
}

} // verus!
