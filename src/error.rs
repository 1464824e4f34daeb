use vstd::prelude::*;

verus! {

/// Why a header could not be decoded. Each variant carries the byte offset,
/// from the start of the buffer, of the field that failed.
#[derive(Debug, Clone, Copy, PartialEq, Eq, Structural)]
pub enum ParseError {
    /// The field of `width` bytes at `offset` runs past the end of the buffer.
    UnexpectedEndOfBuffer { offset: usize, width: usize },
    /// The segment count field at `offset` holds a byte that is not an ASCII digit.
    MalformedCountField { offset: usize },
    /// A length field at `offset` holds a byte that is not an ASCII digit.
    MalformedLengthField { offset: usize },
    /// The decimal field at `offset` holds a value too large for a `u64`.
    CountOverflow { offset: usize },
}

} // verus!
