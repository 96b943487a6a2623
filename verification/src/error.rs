//! The recoverable failures of the library.

use vstd::prelude::*;

verus! {

/// Why an operation on an array or on a message channel was refused.
#[derive(Clone, Copy, Debug, PartialEq, Eq, Structural)]
pub enum EncError {
    /// A slice `[start, stop)` that does not lie inside an array of `len`
    /// elements.
    OutOfBounds { start: usize, stop: usize, len: usize },
    /// A frame-of-reference array was given a null reference value.
    NullReference,
    /// A value that is not of the type the operation needs.
    MismatchedTypes,
    /// Values and validity flags of different counts.
    MismatchedLengths,
    /// A value outside the range of its declared physical type.
    ValueOutOfRange,
    /// A null value declared non-nullable.
    UnexpectedNull,
    /// A stream that ends inside a frame.
    UnexpectedEof,
    /// A length prefix that is not four bytes long.
    MalformedPrefix,
    /// A header payload whose size differs from the announced one.
    TruncatedHeader,
    /// A header payload that is not a well-formed header record.
    MalformedHeader,
}

} // verus!
