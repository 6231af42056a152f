//! The closed error taxonomy for chunk and container operations.

use vstd::prelude::*;

verus! {

/// Failure kinds surfaced by chunk parsing and container operations.
#[derive(Debug, Clone, Copy, PartialEq, Eq, Structural)]
pub enum PngError {
    /// A declared chunk length does not agree with the bytes available.
    TruncatedInput,
    /// The four type bytes of a chunk are not ASCII letters.
    InvalidChunkType,
    /// The stored checksum disagrees with the checksum recomputed over
    /// the chunk's type and data bytes.
    ChecksumMismatch,
    /// The leading bytes of a container are not the fixed signature.
    InvalidSignature,
    /// A lookup or removal by type found no matching chunk.
    ChunkNotFound,
    /// Bytes that were required to be text are not valid UTF-8.
    InvalidEncoding,
}

impl PngError {
    /// A short human-readable name for the error kind.
    pub fn describe(&self) -> (r: &'static str)
        ensures
            r@ == match self {
                PngError::TruncatedInput => "truncated input"@,
                PngError::InvalidChunkType => "invalid chunk type"@,
                PngError::ChecksumMismatch => "checksum mismatch"@,
                PngError::InvalidSignature => "invalid signature"@,
                PngError::ChunkNotFound => "chunk not found"@,
                PngError::InvalidEncoding => "invalid encoding"@,
            },
    {
        match self {
            PngError::TruncatedInput => "truncated input",
            PngError::InvalidChunkType => "invalid chunk type",
            PngError::ChecksumMismatch => "checksum mismatch",
            PngError::InvalidSignature => "invalid signature",
            PngError::ChunkNotFound => "chunk not found",
            PngError::InvalidEncoding => "invalid encoding",
        }
    }
}

} // verus!
