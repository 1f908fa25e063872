use vstd::prelude::*;

verus! {

/// The closed set of failures the codec reports.  Every operation either
/// succeeds or ends with exactly one of these; there is no partial recovery.
#[derive(Clone, Copy, Debug, PartialEq, Eq, Structural)]
pub enum PngError {
    /// The first eight bytes of a buffer are not the PNG signature.
    InvalidSignature,
    /// A chunk-type byte or character is not an ASCII letter.
    InvalidEncoding,
    /// A type-code string is not four characters long, or a buffer is too
    /// short for the chunk it claims to hold.
    InvalidLength,
    /// The four type bytes of a parsed chunk do not form a valid chunk type.
    InvalidChunkType,
    /// The checksum stored behind a chunk does not match the one computed
    /// over its type and data bytes.
    CrcMismatch,
    /// No chunk of the requested type exists in the container.
    ChunkNotFound,
    /// A chunk payload that should be read as text is not valid UTF-8.
    InvalidUtf8,
}

impl PngError {
    /// A human-readable description, for callers that report errors.
    pub fn message(&self) -> &'static str {
        match self {
            PngError::InvalidSignature => "not a PNG stream: bad signature",
            PngError::InvalidEncoding => "chunk type must contain only ASCII letters",
            PngError::InvalidLength => "input is shorter than its declared length",
            PngError::InvalidChunkType => "chunk type is not valid",
            PngError::CrcMismatch => "crc is not valid",
            PngError::ChunkNotFound => "chunk not found",
            PngError::InvalidUtf8 => "chunk data is not valid UTF-8",
        }
    }
}

} // verus!
