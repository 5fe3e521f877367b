//! Errors surfaced by the codec.

use vstd::prelude::*;

verus! {

/// Everything that can go wrong while building a bounded string or while
/// parsing an IPP byte stream.
#[derive(Clone, Copy, Debug, PartialEq, Eq, Structural)]
pub enum IppParseError {
    /// A string was longer (in UTF-8 bytes) than the bound of its position.
    InvalidStringLength { len: usize, max: u16 },
    /// A byte in value-tag position cannot carry a value there.
    InvalidTag(u8),
    /// A byte in delimiter position lies outside the delimiter range.
    InvalidDelimiterTag(u8),
    /// A zero-named attribute record appeared without a predecessor of the
    /// same value tag, outside any collection.
    UnexpectedContinuation,
    /// The attribute stream ended inside a collection.
    UnterminatedCollection,
    /// Fewer bytes remain than a known-length field requires.
    Truncated { needed: usize, available: usize },
}

} // verus!
