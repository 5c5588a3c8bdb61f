//! Errors of encoding and decoding.
use vstd::prelude::*;

verus! {

/// The broad class of an [`Error`].
#[derive(Debug, Clone, Copy, PartialEq, Eq, Structural)]
pub enum ErrorKind {
    /// The input, or the value to encode, does not fit the format.
    InvalidData,
    /// The input ended in the middle of a field of fixed size.
    UnexpectedEof,
}

/// What went wrong while encoding or decoding.
#[derive(Debug, Clone, Copy, PartialEq, Eq, Structural)]
pub enum Error {
    /// Fewer bytes were left than a prefix or a declared text length needs.
    ShortRead,
    /// The bytes of a text are not valid UTF-8.
    InvalidUtf8,
    /// The input ended part way through an element of a sequence.
    ElementSize { read: usize, expected: usize },
    /// The input ended cleanly before the declared number of elements.
    CountMismatch { decoded: usize, declared: u64 },
    /// A length or count is larger than the prefix can hold.
    LengthOverflow { len: usize, max: u64 },
    /// Bytes were left over after the value was decoded.
    TrailingBytes,
}

impl Error {
    pub open spec fn spec_kind(self) -> ErrorKind {
        match self {
            Error::ShortRead => ErrorKind::UnexpectedEof,
            _ => ErrorKind::InvalidData,
        }
    }

    /// The class of this error.
    pub fn kind(&self) -> (r: ErrorKind)
        ensures
            r == self.spec_kind(),
    {
        match self {
            Error::ShortRead => ErrorKind::UnexpectedEof,
            _ => ErrorKind::InvalidData,
        }
    }
}

} // verus!
