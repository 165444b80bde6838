use vstd::prelude::*;

verus! {

/// The failures a codec operation can report. Every fallible operation of the
/// library returns exactly one of these kinds; none is ever downgraded or
/// retried.
#[derive(Clone, Copy, Debug, PartialEq, Eq, Structural)]
pub enum PngError {
    /// A chunk type built from text was not exactly 4 ASCII-alphabetic bytes.
    InvalidTag,
    /// Bytes expected to be text were not valid UTF-8.
    InvalidEncoding,
    /// A buffer did not begin with the canonical 8-byte signature.
    BadSignature,
    /// A buffer ended before a declared chunk record was fully present.
    Truncated,
    /// A chunk's declared length field disagreed with its actual payload size.
    LengthMismatch,
    /// A chunk's recomputed checksum disagreed with its stored checksum.
    CrcMismatch,
    /// A lookup or removal found no chunk of the requested type.
    ChunkNotFound,
}

impl PngError {
    /// A short human-readable description of the error kind.
    pub fn describe(&self) -> (r: &'static str)
        ensures
            r@.len() > 0,
    {
        let r: &'static str = match self {
            PngError::InvalidTag => "chunk types must be exactly 4 ASCII alphabetic bytes",
            PngError::InvalidEncoding => "bytes are not valid UTF-8 text",
            PngError::BadSignature => "buffer does not begin with the PNG signature",
            PngError::Truncated => "buffer ends before the declared chunk is complete",
            PngError::LengthMismatch => "chunk length field does not match its payload size",
            PngError::CrcMismatch => "chunk checksum does not match its type and data",
            PngError::ChunkNotFound => "no chunk of the requested type exists",
        };
        proof {
            reveal_strlit("chunk types must be exactly 4 ASCII alphabetic bytes");
            reveal_strlit("bytes are not valid UTF-8 text");
            reveal_strlit("buffer does not begin with the PNG signature");
            reveal_strlit("buffer ends before the declared chunk is complete");
            reveal_strlit("chunk length field does not match its payload size");
            reveal_strlit("chunk checksum does not match its type and data");
            reveal_strlit("no chunk of the requested type exists");
        }
        r
    }
}

} // verus!
