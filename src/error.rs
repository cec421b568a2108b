use vstd::prelude::*;

verus! {

/// Why a byte buffer or a piece of text is not well formed.
#[derive(Debug, Clone, Copy, PartialEq, Eq, Structural)]
pub enum FormatError {
    /// A chunk type tag that is not exactly four bytes long.
    WrongLength,
    /// A chunk type tag holding a byte that is not an ASCII letter.
    NonAlphabetic,
    /// Chunk data that is not valid UTF-8 text.
    InvalidEncoding,
    /// Fewer bytes than a read needs.
    Truncated,
    /// A stored checksum that differs from the one computed over type and data.
    CrcMismatch,
    /// A buffer that does not start with the PNG signature.
    BadSignature,
}

/// The errors of this library.
#[derive(Debug, Clone, PartialEq, Eq)]
pub enum Error {
    /// The input is malformed.
    Format(FormatError),
    /// No chunk has the given type.
    NotFound(String),
}

} // verus!
