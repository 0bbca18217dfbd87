use vstd::prelude::*;

verus! {

/// The broad class of a failure, in the terms of `std::io::ErrorKind`.
#[derive(Clone, Copy, Debug, PartialEq, Eq, Structural)]
pub enum ErrorKind {
    /// A malformed or unparseable header.
    InvalidData,
    /// A window that extends past the end of the recording.
    InvalidInput,
    /// Fewer bytes than the decoding needs.
    UnexpectedEof,
}

/// Everything that reading a recording can fail with, apart from the byte
/// source's own errors.
#[derive(Clone, Copy, Debug, PartialEq, Eq, Structural)]
pub enum EdfError {
    /// A header field is malformed, does not parse, or holds invalid bounds.
    Format,
    /// The requested window extends past the end of the recording.
    OutOfRange,
    /// The bytes ran out at the sample with this index, that is at byte
    /// `2 * sample_index` of the buffer.
    Truncated { sample_index: usize },
}

impl EdfError {
    pub open spec fn spec_kind(self) -> ErrorKind {
        match self {
            EdfError::Format => ErrorKind::InvalidData,
            EdfError::OutOfRange => ErrorKind::InvalidInput,
            EdfError::Truncated { .. } => ErrorKind::UnexpectedEof,
        }
    }

    pub fn kind(&self) -> (r: ErrorKind)
        ensures
            r == self.spec_kind(),
    {
        match self {
            EdfError::Format => ErrorKind::InvalidData,
            EdfError::OutOfRange => ErrorKind::InvalidInput,
            EdfError::Truncated { .. } => ErrorKind::UnexpectedEof,
        }
    }
}

} // verus!
