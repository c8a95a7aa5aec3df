//! The failures of the codec and what a decode call promises.
use crate::model::{decode_spec, decoded_len, first_bad, is_valid};
use vstd::prelude::*;

verus! {

/// Why an encode or decode call failed.
#[derive(Debug, Clone, Copy, PartialEq, Eq)]
pub enum CodecError {
    /// The output buffer holds `.0` bytes where `.1` are needed.
    OutputLengthTooShort(usize, usize),
    /// Encoded text of this length is not a whole number of 4-byte groups.
    InputLengthInvalid(usize),
    /// The byte `.1` at position `.0` is not an alphabet character and not a
    /// pad in a place where one may stand.
    InvalidInput(usize, u8),
}

/// Whether `e` is the error that decoding text `s` reports: the length error
/// exactly on a length that is not a multiple of four, and otherwise the first
/// misplaced byte.
pub open spec fn decode_error(s: Seq<u8>, e: CodecError) -> bool {
    match e {
        CodecError::InputLengthInvalid(l) => s.len() % 4 != 0 && l == s.len(),
        CodecError::InvalidInput(p, c) => {
            &&& s.len() % 4 == 0
            &&& first_bad(s, p as int)
            &&& c == s[p as int]
        },
        CodecError::OutputLengthTooShort(_, _) => false,
    }
}

/// What a decoder returns on text `s`, with `out` its output buffer afterwards:
/// success exactly on well-formed text, with the decoded bytes at the front of
/// `out`, and otherwise the error that `s` calls for.
pub open spec fn decode_outcome(s: Seq<u8>, out: Seq<u8>, r: Result<usize, CodecError>) -> bool {
    match r {
        Ok(n) => {
            &&& is_valid(s)
            &&& n == decoded_len(s)
            &&& n <= out.len()
            &&& out.subrange(0, n as int) == decode_spec(s)
        },
        Err(e) => decode_error(s, e),
    }
}

} // verus!
