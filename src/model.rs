//! Mathematical model of standard base64: the alphabet, the bit layout of a
//! group, and the exact encoded and decoded sequences.
use vstd::arithmetic::div_mod::lemma_fundamental_div_mod_converse;
use vstd::prelude::*;

verus! {

/// The padding character `=`.
pub const PAD: u8 = 61;

/// Exact encoded length for `n` input bytes.
pub open spec fn encoded_len(n: nat) -> nat {
    if n % 3 == 0 {
        n / 3 * 4
    } else {
        n / 3 * 4 + 4
    }
}

/// Upper bound on the decoded length for `n` encoded bytes.
pub open spec fn decoded_bound(n: nat) -> nat {
    n / 4 * 3
}

/// The character that stands for the 6-bit value `x`.
pub open spec fn sym(x: u8) -> u8 {
    if x < 26 {
        (x + 65) as u8
    } else if x < 52 {
        (x + 71) as u8
    } else if x < 62 {
        (x - 4) as u8
    } else if x == 62 {
        43
    } else {
        47
    }
}

/// Whether `c` is one of the 64 alphabet characters.
pub open spec fn is_sym(c: u8) -> bool {
    (65 <= c <= 90) || (97 <= c <= 122) || (48 <= c <= 57) || c == 43 || c == 47
}

/// The 6-bit value of an alphabet character (0 for anything else).
pub open spec fn sextet(c: u8) -> u8 {
    if 65 <= c <= 90 {
        (c - 65) as u8
    } else if 97 <= c <= 122 {
        (c - 71) as u8
    } else if 48 <= c <= 57 {
        (c + 4) as u8
    } else if c == 43 {
        62
    } else if c == 47 {
        63
    } else {
        0
    }
}

/// The four 6-bit fields of the 24 bits `b0 b1 b2`.
pub open spec fn field0(b0: u8) -> u8 {
    b0 >> 2u8
}

pub open spec fn field1(b0: u8, b1: u8) -> u8 {
    ((b0 & 3u8) << 4u8) | (b1 >> 4u8)
}

pub open spec fn field2(b1: u8, b2: u8) -> u8 {
    ((b1 & 15u8) << 2u8) | (b2 >> 6u8)
}

pub open spec fn field3(b2: u8) -> u8 {
    b2 & 63u8
}

/// The three bytes packed in the 6-bit values `v0 v1 v2 v3`.
pub open spec fn pack0(v0: u8, v1: u8) -> u8 {
    ((v0 & 63u8) << 2u8) | (v1 >> 4u8)
}

pub open spec fn pack1(v1: u8, v2: u8) -> u8 {
    ((v1 & 15u8) << 4u8) | (v2 >> 2u8)
}

pub open spec fn pack2(v2: u8, v3: u8) -> u8 {
    ((v2 & 3u8) << 6u8) | (v3 & 63u8)
}

/// Byte `i` of `b`, or zero past its end.
pub open spec fn byte_at(b: Seq<u8>, i: int) -> u8 {
    if 0 <= i < b.len() {
        b[i]
    } else {
        0
    }
}

/// Field `j` of input group `g`.
pub open spec fn group_field(b: Seq<u8>, g: int, j: int) -> u8 {
    let b0 = byte_at(b, 3 * g);
    let b1 = byte_at(b, 3 * g + 1);
    let b2 = byte_at(b, 3 * g + 2);
    if j == 0 {
        field0(b0)
    } else if j == 1 {
        field1(b0, b1)
    } else if j == 2 {
        field2(b1, b2)
    } else {
        field3(b2)
    }
}

/// Character `k` of the encoding of `b`.
pub open spec fn enc_char(b: Seq<u8>, k: int) -> u8 {
    let g = k / 4;
    let j = k % 4;
    if (j == 2 && 3 * g + 1 >= b.len()) || (j == 3 && 3 * g + 2 >= b.len()) {
        PAD
    } else {
        sym(group_field(b, g, j))
    }
}

/// The padded base64 encoding of `b`.
pub open spec fn encode_spec(b: Seq<u8>) -> Seq<u8> {
    Seq::new(encoded_len(b.len()), |k: int| enc_char(b, k))
}

/// A pad may stand last, or second to last before another pad.
pub open spec fn pad_allowed(s: Seq<u8>, i: int) -> bool {
    i == s.len() - 1 || (i == s.len() - 2 && s[s.len() - 1] == PAD)
}

/// Whether byte `i` of `s` may stand where it is.
pub open spec fn char_ok(s: Seq<u8>, i: int) -> bool {
    is_sym(s[i]) || (s[i] == PAD && pad_allowed(s, i))
}

/// Well-formed base64 text.
pub open spec fn is_valid(s: Seq<u8>) -> bool {
    s.len() % 4 == 0 && forall|i: int| 0 <= i < s.len() ==> char_ok(s, i)
}

/// `p` is the first position of `s` whose byte may not stand there.
pub open spec fn first_bad(s: Seq<u8>, p: int) -> bool {
    0 <= p < s.len() && !char_ok(s, p) && forall|i: int| 0 <= i < p ==> char_ok(s, i)
}

/// Number of trailing pads.
pub open spec fn pad_count(s: Seq<u8>) -> nat {
    if s.len() >= 2 && s[s.len() - 1] == PAD && s[s.len() - 2] == PAD {
        2
    } else if s.len() >= 1 && s[s.len() - 1] == PAD {
        1
    } else {
        0
    }
}

/// The true decoded length of well-formed text.
pub open spec fn decoded_len(s: Seq<u8>) -> nat {
    (decoded_bound(s.len()) - pad_count(s)) as nat
}

/// Byte `k` of the decoding of `s`.
pub open spec fn dec_byte(s: Seq<u8>, k: int) -> u8 {
    let g = k / 3;
    let j = k % 3;
    let v0 = sextet(s[4 * g]);
    let v1 = sextet(s[4 * g + 1]);
    let v2 = sextet(s[4 * g + 2]);
    let v3 = sextet(s[4 * g + 3]);
    if j == 0 {
        pack0(v0, v1)
    } else if j == 1 {
        pack1(v1, v2)
    } else {
        pack2(v2, v3)
    }
}

/// The bytes that well-formed text `s` stands for.
pub open spec fn decode_spec(s: Seq<u8>) -> Seq<u8> {
    Seq::new(decoded_len(s), |k: int| dec_byte(s, k))
}

pub proof fn lemma_sym(x: u8)
    requires
        x < 64,
    ensures
        is_sym(sym(x)),
        sym(x) != PAD,
        sextet(sym(x)) == x,
{
}

pub proof fn lemma_group_bits(b0: u8, b1: u8, b2: u8)
    ensures
        field0(b0) < 64,
        field1(b0, b1) < 64,
        field2(b1, b2) < 64,
        field3(b2) < 64,
        pack0(field0(b0), field1(b0, b1)) == b0,
        pack1(field1(b0, b1), field2(b1, b2)) == b1,
        pack2(field2(b1, b2), field3(b2)) == b2,
{
    assert(b0 >> 2u8 < 64) by (bit_vector);
    assert(((b0 & 3u8) << 4u8) | (b1 >> 4u8) < 64) by (bit_vector);
    assert(((b1 & 15u8) << 2u8) | (b2 >> 6u8) < 64) by (bit_vector);
    assert(b2 & 63u8 < 64) by (bit_vector);
    assert(((((b0 >> 2u8) & 63u8) << 2u8) | ((((b0 & 3u8) << 4u8) | (b1 >> 4u8)) >> 4u8)) == b0)
        by (bit_vector);
    assert(((((((b0 & 3u8) << 4u8) | (b1 >> 4u8)) & 15u8) << 4u8) | ((((b1 & 15u8) << 2u8) | (
    b2 >> 6u8)) >> 2u8)) == b1) by (bit_vector);
    assert(((((((b1 & 15u8) << 2u8) | (b2 >> 6u8)) & 3u8) << 6u8) | ((b2 & 63u8) & 63u8)) == b2)
        by (bit_vector);
}

/// Position `j` of group `g` in a sequence cut in pieces of `w`.
pub proof fn lemma_split(g: int, j: int, w: int)
    requires
        g >= 0,
        0 <= j < w,
        w == 3 || w == 4,
    ensures
        (w * g + j) / w == g,
        (w * g + j) % w == j,
{
    assert(w * g + j == g * w + j) by (nonlinear_arith);
    lemma_fundamental_div_mod_converse(w * g + j, w, g, j);
}

/// Where character `i` of input group `g` stands in the encoding, and what it holds.
pub proof fn lemma_encoded_char(b: Seq<u8>, g: int, i: int)
    requires
        0 <= g,
        0 <= i < 4,
        3 * g < b.len(),
    ensures
        4 * g + i < encoded_len(b.len()),
        encode_spec(b)[4 * g + i] == enc_char(b, 4 * g + i),
        (4 * g + i) / 4 == g,
        (4 * g + i) % 4 == i,
        i < 2 || (i == 2 && 3 * g + 1 < b.len()) || (i == 3 && 3 * g + 2 < b.len()) ==> {
            &&& is_sym(encode_spec(b)[4 * g + i])
            &&& sextet(encode_spec(b)[4 * g + i]) == group_field(b, g, i)
        },
{
    lemma_split(g, i, 4);
    let n = b.len();
    assert(n == 3 * (n / 3) + n % 3);
    lemma_group_bits(byte_at(b, 3 * g), byte_at(b, 3 * g + 1), byte_at(b, 3 * g + 2));
    if i < 2 || (i == 2 && 3 * g + 1 < b.len()) || (i == 3 && 3 * g + 2 < b.len()) {
        lemma_sym(group_field(b, g, i));
    }
}

} // verus!
