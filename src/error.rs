use vstd::prelude::*;

verus! {

/// The ways in which constructing or decoding a value can fail.
#[derive(Debug, Clone, Copy, PartialEq, Eq, Structural)]
pub enum TypesError {
    /// A byte count differs from (fixed) or exceeds (bounded) the declared size.
    LengthMismatch,
    /// A textual byte value lacks the `0x` prefix or holds a non-hex digit.
    InvalidHexEncoding,
    /// A textual integer is not a base-10 unsigned integer within 64 bits.
    NumericParseFailure,
    /// A sequence of fixed length, such as a committee's keys, has another length.
    SequenceLengthInvariantViolation,
    /// A binary buffer is shorter or longer than the declared encoding.
    SerializationBufferError,
}

} // verus!
