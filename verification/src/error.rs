//! The ways in which encoding or decoding is refused.

use vstd::prelude::*;

verus! {

/// Why a buffer was not decoded, a value not encoded, or room not reserved.
/// Nothing is repaired or defaulted: the first fault ends the call.
#[derive(Clone, Copy, Debug, PartialEq, Eq, Hash, Structural)]
pub enum CodecError {
    /// A read of a known width needed more bytes than remain.
    TruncatedInput,
    /// A length or count does not agree with what it measures: on reading,
    /// the prefix announces more than the remaining bytes can hold; on
    /// writing, the length does not fit the 32-bit prefix.
    InvalidLength,
    /// The bytes of a string are not valid UTF-8.
    InvalidEncoding,
    /// The writer could not get the room it was asked to reserve. Only a
    /// reservation reports this; a write that cannot grow its buffer is
    /// fatal and ends the process.
    AllocationFailure,
}

impl CodecError {
    /// True of the two errors with which input is refused that ends before
    /// what it announces or needs; false of the others.
    pub open spec fn is_truncation(self) -> bool {
        self is TruncatedInput || self is InvalidLength
    }

    /// Whether the error is one of the two with which input is refused
    /// that ends too early.
    pub fn signals_truncation(&self) -> (r: bool)
        ensures
            r == self.is_truncation(),
    {
        match self {
            CodecError::TruncatedInput => true,
            CodecError::InvalidLength => true,
            CodecError::InvalidEncoding => false,
            CodecError::AllocationFailure => false,
        }
    }

    /// A short description of the error.
    pub fn message(&self) -> (r: &'static str)
        ensures
            r@ == match self {
                CodecError::TruncatedInput => "truncated input"@,
                CodecError::InvalidLength => "invalid length"@,
                CodecError::InvalidEncoding => "invalid encoding"@,
                CodecError::AllocationFailure => "allocation failure"@,
            },
    {
        match self {
            CodecError::TruncatedInput => "truncated input",
            CodecError::InvalidLength => "invalid length",
            CodecError::InvalidEncoding => "invalid encoding",
            CodecError::AllocationFailure => "allocation failure",
        }
    }
}

} // verus!
