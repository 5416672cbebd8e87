use vstd::prelude::*;

verus! {

/// Why a buffer could not be decoded.
#[derive(Debug, Clone, Copy, PartialEq, Eq, Structural)]
pub enum FelgensError {
    /// The buffer is shorter than a fixed-size field that must be read from it
    /// (a 16-byte header, or the 4-byte hot count).
    Truncated,
    /// A declared frame length describes bytes that the buffer does not hold.
    OutOfBounds,
    /// The zlib or brotli stream is malformed or incomplete.
    DecompressionFailure,
    /// The frame carries a version tag that cannot be decoded; the raw tag is
    /// kept for diagnostics.
    UnsupportedProtocolVersion(u16),
    /// The bytes of a message are not valid UTF-8.
    InvalidUtf8,
}

pub type FelgensResult<T> = Result<T, FelgensError>;

} // verus!
