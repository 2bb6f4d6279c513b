//! The errors of decoding.

use vstd::prelude::*;

verus! {

/// What went wrong while decoding.
#[derive(Debug, Clone, Copy, PartialEq, Eq, Structural)]
pub enum Error {
    /// Fewer bytes remain than the next field needs.
    UnexpectedEnd,
    /// A type identifier outside `1..=12` stood where a payload kind was expected.
    InvalidTagId(i8),
    /// A name or string is not well-formed UTF-8.
    InvalidText,
    /// A length prefix holds a negative count.
    NegativeLength,
    /// A chunk names a compression method other than zlib.
    UnsupportedCompression(u8),
    /// The compressed stream of a chunk is corrupt.
    DecompressionFailed,
}

/// An [`Error`] together with the number of bytes that had been consumed when it was detected.
#[derive(Debug, Clone, Copy, PartialEq, Eq, Structural)]
pub struct DecodeError {
    pub kind: Error,
    pub offset: usize,
}

} // verus!
