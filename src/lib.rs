//! Standard base64 (alphabet `A-Z a-z 0-9 + /`, pad `=`) with a byte-wise
//! engine and a lane engine that are proved to give the same output, exact
//! buffer sizes, and a closed set of errors.
use vstd::prelude::*;

pub mod dispatch;
pub mod error;
pub mod laws;
pub mod model;
pub mod scalar;
pub mod wide;

pub use error::CodecError;

use dispatch::{decode_with, encode_with, select_engine, LANES_AVAILABLE};
use error::{decode_error, decode_outcome};
use laws::lemma_encode_valid;
use model::{decode_spec, decoded_bound, encode_spec, encoded_len, is_valid};
use wide::{DECODE_CHUNK, ENCODE_CHUNK};

verus! {

/// The characters of a sequence of ASCII bytes.
pub open spec fn ascii_chars(b: Seq<u8>) -> Seq<char> {
    b.map_values(|c: u8| c as char)
}

/// Whether every byte is below 128.
pub open spec fn is_ascii_bytes(b: Seq<u8>) -> bool {
    forall|i: int| 0 <= i < b.len() ==> b[i] < 128
}

/// Relies on `String::from_utf8`: ASCII bytes are valid UTF-8, and the string
/// made of them holds one character per byte.
#[verifier::external_body]
fn string_from_ascii(bytes: Vec<u8>) -> (r: Option<String>)
    ensures
        is_ascii_bytes(bytes@) ==> r is Some && r->0@ == ascii_chars(bytes@),
{
    String::from_utf8(bytes).ok()
}

/// Exact encoded length for `input_len` bytes.
pub fn encode_len(input_len: usize) -> (r: usize)
    requires
        encoded_len(input_len as nat) <= usize::MAX,
    ensures
        r == encoded_len(input_len as nat),
{
    if input_len % 3 == 0 {
        input_len / 3 * 4
    } else {
        input_len / 3 * 4 + 4
    }
}

/// Upper bound on the decoded length for `input_len` encoded bytes.
pub fn decode_len(input_len: usize) -> (r: usize)
    ensures
        r == decoded_bound(input_len as nat),
{
    (input_len / 4) * 3
}

/// Options of an encode call; none exist yet.
pub struct EncodeOptions {}

impl Default for EncodeOptions {
    fn default() -> (r: Self)
        ensures
            r == (EncodeOptions {}),
    {
        EncodeOptions {}
    }
}

impl EncodeOptions {
    fn encode_with_fallback(&self, output: &mut [u8], input: &[u8]) -> (written: usize)
        requires
            encoded_len(input@.len()) <= old(output)@.len(),
        ensures
            written == encoded_len(input@.len()),
            final(output)@ == encode_spec(input@) + old(output)@.subrange(
                written as int,
                old(output)@.len() as int,
            ),
    {
        let engine = select_engine(LANES_AVAILABLE, input.len(), ENCODE_CHUNK);
        encode_with(engine, input, output)
    }

    /// The base64 text of `input`.
    pub fn encode(self, input: &[u8]) -> (r: String)
        requires
            encoded_len(input@.len()) <= usize::MAX,
        ensures
            r@ == ascii_chars(encode_spec(input@)),
    {
        let mut output = vec![0u8; encode_len(input.len())];
        self.encode_with_fallback(output.as_mut_slice(), input);
        proof {
            lemma_encode_valid(input@);
            assert(output@ =~= encode_spec(input@));
            assert(is_ascii_bytes(output@));
        }
        match string_from_ascii(output) {
            Some(s) => s,
            None => {
                proof {
                    assert(false);
                }
                String::new()
            },
        }
    }

    /// Writes the base64 text of `input` to the front of `output` and returns
    /// its length; fails, writing nothing, where `output` is too short.
    pub fn encode_mut(self, input: &[u8], output: &mut [u8]) -> (r: Result<usize, CodecError>)
        requires
            encoded_len(input@.len()) <= usize::MAX,
        ensures
            match r {
                Ok(written) => {
                    &&& encoded_len(input@.len()) <= old(output)@.len()
                    &&& written == encoded_len(input@.len())
                    &&& final(output)@ == encode_spec(input@) + old(output)@.subrange(
                        written as int,
                        old(output)@.len() as int,
                    )
                },
                Err(e) => {
                    &&& old(output)@.len() < encoded_len(input@.len())
                    &&& e == CodecError::OutputLengthTooShort(
                        old(output)@.len() as usize,
                        encoded_len(input@.len()) as usize,
                    )
                    &&& final(output)@ == old(output)@
                },
            },
    {
        if output.len() < encode_len(input.len()) {
            Err(CodecError::OutputLengthTooShort(output.len(), encode_len(input.len())))
        } else {
            Ok(self.encode_with_fallback(output, input))
        }
    }
}

/// Options of a decode call; none exist yet.
pub struct DecodeOptions {}

impl Default for DecodeOptions {
    fn default() -> (r: Self)
        ensures
            r == (DecodeOptions {}),
    {
        DecodeOptions {}
    }
}

impl DecodeOptions {
    fn decode_with_fallback(&self, output: &mut [u8], input: &[u8]) -> (r: Result<
        usize,
        CodecError,
    >)
        requires
            decoded_bound(input@.len()) <= old(output)@.len(),
        ensures
            final(output)@.len() == old(output)@.len(),
            decode_outcome(input@, final(output)@, r),
    {
        let engine = select_engine(LANES_AVAILABLE, input.len(), DECODE_CHUNK);
        decode_with(engine, input, output)
    }

    /// The bytes that base64 text `input` stands for: they come back exactly
    /// when `input` is well-formed, and otherwise the error it calls for.
    pub fn decode(self, input: &[u8]) -> (r: Result<Vec<u8>, CodecError>)
        ensures
            match r {
                Ok(bytes) => is_valid(input@) && bytes@ == decode_spec(input@),
                Err(e) => !is_valid(input@) && decode_error(input@, e),
            },
    {
        let mut output = vec![0u8; decode_len(input.len())];
        match self.decode_with_fallback(output.as_mut_slice(), input) {
            Ok(len) => {
                output.truncate(len);
                Ok(output)
            },
            Err(e) => Err(e),
        }
    }

    /// Writes the bytes that `input` stands for to the front of `output` and
    /// returns how many there are. Fails, writing nothing, where `output` is
    /// shorter than `decode_len(input.len())`.
    pub fn decode_mut(self, input: &[u8], output: &mut [u8]) -> (r: Result<usize, CodecError>)
        ensures
            final(output)@.len() == old(output)@.len(),
            old(output)@.len() < decoded_bound(input@.len()) ==> {
                &&& r == Err::<usize, CodecError>(
                    CodecError::OutputLengthTooShort(
                        old(output)@.len() as usize,
                        decoded_bound(input@.len()) as usize,
                    ),
                )
                &&& final(output)@ == old(output)@
            },
            old(output)@.len() >= decoded_bound(input@.len()) ==> decode_outcome(
                input@,
                final(output)@,
                r,
            ),
    {
        if output.len() < decode_len(input.len()) {
            Err(CodecError::OutputLengthTooShort(output.len(), decode_len(input.len())))
        } else {
            self.decode_with_fallback(output, input)
        }
    }
}


/// The base64 text of `input`.
pub fn encode(input: &[u8]) -> (r: String)
    requires
        encoded_len(input@.len()) <= usize::MAX,
    ensures
        r@ == ascii_chars(encode_spec(input@)),
{
    EncodeOptions::default().encode(input)
}

/// Writes the base64 text of `input` to the front of `output` and returns its
/// length; fails, writing nothing, where `output` is too short.
pub fn encode_mut(input: &[u8], output: &mut [u8]) -> (r: Result<usize, CodecError>)
    requires
        encoded_len(input@.len()) <= usize::MAX,
    ensures
        match r {
            Ok(written) => {
                &&& encoded_len(input@.len()) <= old(output)@.len()
                &&& written == encoded_len(input@.len())
                &&& final(output)@ == encode_spec(input@) + old(output)@.subrange(
                    written as int,
                    old(output)@.len() as int,
                )
            },
            Err(e) => {
                &&& old(output)@.len() < encoded_len(input@.len())
                &&& e == CodecError::OutputLengthTooShort(
                    old(output)@.len() as usize,
                    encoded_len(input@.len()) as usize,
                )
                &&& final(output)@ == old(output)@
            },
        },
{
    EncodeOptions::default().encode_mut(input, output)
}

/// The bytes that base64 text `input` stands for, or the error it calls for.
pub fn decode(input: &[u8]) -> (r: Result<Vec<u8>, CodecError>)
    ensures
        match r {
            Ok(bytes) => is_valid(input@) && bytes@ == decode_spec(input@),
            Err(e) => !is_valid(input@) && decode_error(input@, e),
        },
{
    DecodeOptions::default().decode(input)
}

/// Writes the bytes that `input` stands for to the front of `output` and
/// returns how many there are; fails, writing nothing, where `output` is
/// shorter than `decode_len(input.len())`.
pub fn decode_mut(input: &[u8], output: &mut [u8]) -> (r: Result<usize, CodecError>)
    ensures
        final(output)@.len() == old(output)@.len(),
        old(output)@.len() < decoded_bound(input@.len()) ==> {
            &&& r == Err::<usize, CodecError>(
                CodecError::OutputLengthTooShort(
                    old(output)@.len() as usize,
                    decoded_bound(input@.len()) as usize,
                ),
            )
            &&& final(output)@ == old(output)@
        },
        old(output)@.len() >= decoded_bound(input@.len()) ==> decode_outcome(
            input@,
            final(output)@,
            r,
        ),
{
    DecodeOptions::default().decode_mut(input, output)
}

} // verus!
