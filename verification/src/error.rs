//! The errors that archiving, checked access and deserialization report.

use vstd::prelude::*;

verus! {

/// Why an operation of this library failed.
#[derive(Debug, Clone, Copy, PartialEq, Eq, Structural)]
pub enum ArchiveError {
    /// The writer cannot take the bytes without growing past its capacity.
    CapacityExceeded,
    /// The allocator cannot hand out the scratch space that was asked for.
    ScratchExhausted,
    /// A position or a distance does not fit the width chosen for relative
    /// pointers.
    OffsetOutOfRange,
    /// A record, or what it points at, does not lie inside the buffer.
    OutOfBounds,
    /// A record does not start at a multiple of its alignment.
    Unaligned,
    /// The bytes of a record are not the encoding of any value of its type.
    InvalidValue,
    /// The hash index of a map does not lead to each of its entries.
    InvalidIndex,
}

/// What an error says of itself.
pub open spec fn message_of(error: ArchiveError) -> Seq<char> {
    match error {
        ArchiveError::CapacityExceeded => "the writer is out of capacity"@,
        ArchiveError::ScratchExhausted => "the allocator is out of scratch space"@,
        ArchiveError::OffsetOutOfRange => "a relative pointer cannot reach that far"@,
        ArchiveError::OutOfBounds => "a record lies outside the buffer"@,
        ArchiveError::Unaligned => "a record is not aligned"@,
        ArchiveError::InvalidValue => "a record holds no value of its type"@,
        ArchiveError::InvalidIndex => "the index of a map does not match its entries"@,
    }
}

impl ArchiveError {
    /// What the error says of itself.
    pub fn message(&self) -> (text: &'static str)
        ensures
            text@ == message_of(*self),
    {
        match self {
            ArchiveError::CapacityExceeded => "the writer is out of capacity",
            ArchiveError::ScratchExhausted => "the allocator is out of scratch space",
            ArchiveError::OffsetOutOfRange => "a relative pointer cannot reach that far",
            ArchiveError::OutOfBounds => "a record lies outside the buffer",
            ArchiveError::Unaligned => "a record is not aligned",
            ArchiveError::InvalidValue => "a record holds no value of its type",
            ArchiveError::InvalidIndex => "the index of a map does not match its entries",
        }
    }

    /// True of the errors that only checked access reports.
    pub open spec fn is_validation(self) -> bool {
        self == ArchiveError::OutOfBounds || self == ArchiveError::Unaligned || self
            == ArchiveError::InvalidValue || self == ArchiveError::InvalidIndex
    }

    /// True of the errors that only serialization reports.
    pub open spec fn is_serialization(self) -> bool {
        self == ArchiveError::CapacityExceeded || self == ArchiveError::ScratchExhausted || self
            == ArchiveError::OffsetOutOfRange
    }
}

} // verus!
