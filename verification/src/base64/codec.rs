//! The codec as callers see it: one transform, chosen by a mode.

use vstd::prelude::*;
use crate::base64::decode::{all_groups_valid, decode, spec_decode, well_formed, DecodeError};
use crate::base64::encode::{encode, spec_encode};

verus! {

/// Which of the two transforms to apply.
#[derive(Clone, Copy, Debug, PartialEq, Eq, Structural)]
pub enum Mode {
    /// Bytes to symbols.
    Encode,
    /// Symbols to bytes.
    Decode,
}

impl Mode {
    /// The mode that a decode switch selects: decoding where it is set, encoding where it is not.
    pub fn from_decode_flag(decode: bool) -> (mode: Mode)
        ensures
            mode == (if decode {
                Mode::Decode
            } else {
                Mode::Encode
            }),
    {
        if decode {
            Mode::Decode
        } else {
            Mode::Encode
        }
    }
}

/// Applies the transform that `mode` selects to the whole of `input`.
///
/// Encoding always succeeds. Decoding fails as `decode` does, and then nothing
/// is produced.
pub fn transcode(mode: Mode, input: &[u8]) -> (res: Result<Vec<u8>, DecodeError>)
    ensures
        mode == Mode::Encode ==> res is Ok && res->Ok_0@ == spec_encode(input@),
        mode == Mode::Decode ==> match res {
            Ok(bytes) => well_formed(input@) && bytes@ == spec_decode(input@),
            Err(DecodeError::MalformedLength) => input@.len() % 4 != 0,
            Err(DecodeError::InvalidSymbol) => input@.len() % 4 == 0 && !all_groups_valid(input@),
        },
{
    match mode {
        Mode::Encode => Ok(encode(input)),
        Mode::Decode => decode(input),
    }
}

} // verus!
