//! The checksum that guards the type and data of every chunk.

use vstd::prelude::*;
use crc::{Crc, CRC_32_ISO_HDLC};

verus! {

/// The CRC-32/ISO-HDLC checksum of a byte sequence: the value that the `crc`
/// crate computes for it with its `CRC_32_ISO_HDLC` parameters.
pub uninterp spec fn crc32_iso_hdlc(bytes: Seq<u8>) -> u32;

/// Computes the checksum of `bytes` by `crc::Crc::<u32>::checksum` on an
/// instance made with `crc::Crc::<u32>::new(&crc::CRC_32_ISO_HDLC)`.
///
/// Not proved: the contract only gives the result its name, which rests on
/// the computation being a function of the bytes alone.
#[verifier::external_body]
pub(crate) fn checksum(bytes: &[u8]) -> (sum: u32)
    ensures
        sum == crc32_iso_hdlc(bytes@),
{
    Crc::<u32>::new(&CRC_32_ISO_HDLC).checksum(bytes)
}

} // verus!
