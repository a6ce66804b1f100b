//! The failures that reading or editing a chunk stream can report.

use vstd::prelude::*;

verus! {

/// Why an operation on a chunk stream was refused.
#[derive(Debug, Clone, Copy, PartialEq, Eq, Structural)]
pub enum PngError {
    /// The buffer does not start with the eight signature bytes.
    InvalidSignature,
    /// A chunk is shorter than its fixed fields, or its length field
    /// disagrees with the bytes that are there.
    MalformedChunk,
    /// The stored checksum differs from the one computed over type and data.
    ChecksumMismatch,
    /// A type code is not exactly four ASCII letters.
    InvalidChunkType,
    /// No chunk of the requested type is in the container.
    ChunkNotFound,
    /// The payload of a chunk is not valid UTF-8.
    TextDecodeError,
}

} // verus!
