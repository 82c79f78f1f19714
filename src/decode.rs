//! The base64 decoding primitive, taken from the `base64` crate.

use base64::DecodeSliceError;
use base64::Engine;
use vstd::prelude::*;

verus! {

#[verifier::external_type_specification]
#[verifier::external_body]
pub struct ExDecodeSliceError(base64::DecodeSliceError);

/// What the `STANDARD` engine of the `base64` crate (standard alphabet, canonical
/// padding) makes of `input`: the decoded bytes, or `None` where the input is malformed.
pub uninterp spec fn standard_decoded(input: Seq<u8>) -> Option<Seq<u8>>;

/// Room that the decoding of `len` bytes of base64 text always fits in:
/// three bytes for each started group of four.
pub open spec fn decoded_room(len: int) -> int {
    (len + 3) / 4 * 3
}

/// Relies on `base64::Engine::decode_slice` of the `STANDARD` engine. It writes the
/// decoded bytes at the front of the slice that it is given, nothing past them, and
/// returns their count. It reports a slice that is too small only where the slice is
/// shorter than `decoded_room` of the input, so under `requires` an error is a decode
/// error of the input.
#[verifier::external_body]
pub(crate) fn decode_slice_at(input: &[u8], out: &mut [u8], start: usize) -> (r: Result<
    usize,
    DecodeSliceError,
>)
    requires
        start <= old(out)@.len(),
        decoded_room(input@.len() as int) <= old(out)@.len() - start,
    ensures
        final(out)@.len() == old(out)@.len(),
        final(out)@.take(start as int) == old(out)@.take(start as int),
        match r {
            Ok(n) => {
                &&& start + n <= old(out)@.len()
                &&& standard_decoded(input@) == Some(
                    final(out)@.subrange(start as int, start + n),
                )
                &&& final(out)@.skip(start + n) == old(out)@.skip(start + n)
            },
            Err(_) => standard_decoded(input@) is None,
        },
{
    base64::engine::general_purpose::STANDARD.decode_slice(input, &mut out[start..])
}

/// A malformed base64 group met while decoding; `cause` is the engine's report.
#[derive(Debug)]
pub struct DecodeFailure {
    pub cause: DecodeSliceError,
}

} // verus!
