//! Recovery of an obfuscated byte stream: a Z85 armor decoder feeding a
//! chained, stateful numeric transform that reconstructs the plain bytes.
pub mod armor;
pub mod transform;

use vstd::prelude::*;

verus! {

use crate::armor::{decode, decode_spec, ArmorError};
use crate::transform::{decrypt_data, transform_spec, TransformError};

/// Why the pipeline stopped: the armor was rejected, or the transform's
/// running state reached zero.
#[derive(Debug, Clone, Copy, PartialEq, Eq, Structural)]
pub enum RecoverError {
    Armor(ArmorError),
    Transform(TransformError),
}

/// The whole pipeline: decodes the armored input and runs the chained
/// transform over the raw bytes, giving the recovered plain bytes, or the
/// first stage's exact error.
pub fn recover(input: &[u8]) -> (r: Result<Vec<u8>, RecoverError>)
    ensures
        match r {
            Ok(out) => decode_spec(input@) matches Ok(raw) && transform_spec(raw) matches Ok(s)
                && s == out@,
            Err(RecoverError::Armor(e)) => decode_spec(input@) matches Err(e2) && e2 == e,
            Err(RecoverError::Transform(TransformError::DivisionByZero(i))) => decode_spec(input@)
                matches Ok(raw) && transform_spec(raw) matches Err(j) && j == i as int,
        },
{
    match decode(input) {
        Ok(raw) => match decrypt_data(raw.as_slice()) {
            Ok(out) => Ok(out),
            Err(e) => Err(RecoverError::Transform(e)),
        },
        Err(e) => Err(RecoverError::Armor(e)),
    }
}

} // verus!
