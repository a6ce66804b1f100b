//! Reading byte buffers as UTF-8 text.

use vstd::prelude::*;
use vstd::utf8::{decode_utf8, encode_utf8, encode_utf8_decode_utf8, valid_utf8};
use crate::error::PngError;

verus! {

/// The error of `std::str::from_utf8`, carried through without looking inside.
#[verifier::external_type_specification]
#[verifier::external_body]
pub struct ExUtf8Error(std::str::Utf8Error);

/// Calls `std::str::from_utf8`.
///
/// Not proved: that the call succeeds exactly on well-formed UTF-8, and that
/// the text it hands back is the one whose UTF-8 encoding is `bytes`.
#[verifier::external_body]
pub(crate) fn str_from_utf8(bytes: &[u8]) -> (r: Result<&str, std::str::Utf8Error>)
    ensures
        r is Ok <==> valid_utf8(bytes@),
        match r {
            Ok(s) => encode_utf8(s@) == bytes@,
            Err(_) => true,
        },
{
    std::str::from_utf8(bytes)
}

/// Decodes `bytes` as UTF-8 text, or reports that they are none.
pub fn decode_text(bytes: &[u8]) -> (r: Result<String, PngError>)
    ensures
        match r {
            Ok(s) => valid_utf8(bytes@) && s@ == decode_utf8(bytes@),
            Err(e) => !valid_utf8(bytes@) && e == PngError::TextDecodeError,
        },
{
    match str_from_utf8(bytes) {
        Ok(s) => {
            proof {
                encode_utf8_decode_utf8(s@);
            }
            Ok(s.to_owned())
        },
        Err(_) => Err(PngError::TextDecodeError),
    }
}

} // verus!
