//! The choice between the two engines. Both meet one contract, so the choice
//! changes nothing but speed.
use crate::error::{decode_outcome, CodecError};
use crate::model::{decoded_bound, encode_spec, encoded_len};
use crate::scalar;
use crate::wide;
use vstd::prelude::*;

verus! {

/// The engine that serves a call.
#[derive(Debug, Clone, Copy, PartialEq, Eq)]
pub enum Engine {
    Scalar,
    Lanes,
}

/// The lane engine is written in portable code, so every target has it.
pub const LANES_AVAILABLE: bool = true;

/// The lane engine where it is available and the input fills at least one
/// of its chunks; the byte-wise engine otherwise.
pub fn select_engine(lanes_available: bool, input_len: usize, chunk: usize) -> (e: Engine)
    ensures
        e == (if lanes_available && input_len >= chunk {
            Engine::Lanes
        } else {
            Engine::Scalar
        }),
{
    if lanes_available && input_len >= chunk {
        Engine::Lanes
    } else {
        Engine::Scalar
    }
}

/// Encodes with the given engine.
pub fn encode_with(engine: Engine, input: &[u8], output: &mut [u8]) -> (written: usize)
    requires
        encoded_len(input@.len()) <= old(output)@.len(),
    ensures
        written == encoded_len(input@.len()),
        final(output)@ == encode_spec(input@) + old(output)@.subrange(
            written as int,
            old(output)@.len() as int,
        ),
{
    match engine {
        Engine::Scalar => scalar::encode(input, output),
        Engine::Lanes => wide::encode(input, output),
    }
}

/// Decodes with the given engine.
pub fn decode_with(engine: Engine, input: &[u8], output: &mut [u8]) -> (r: Result<
    usize,
    CodecError,
>)
    requires
        decoded_bound(input@.len()) <= old(output)@.len(),
    ensures
        final(output)@.len() == old(output)@.len(),
        decode_outcome(input@, final(output)@, r),
{
    match engine {
        Engine::Scalar => scalar::decode(input, output),
        Engine::Lanes => wide::decode(input, output),
    }
}

} // verus!
