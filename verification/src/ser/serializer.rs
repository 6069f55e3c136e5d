//! The serializer: the writer and the allocator that one serialization uses.

use crate::error::ArchiveError;
use crate::ser::allocator::Allocator;
use crate::ser::writer::Writer;
use vstd::prelude::*;

verus! {

/// A writer together with an allocator. One serializer serves one
/// serialization at a time.
pub struct Serializer {
    pub writer: Writer,
    pub allocator: Allocator,
}

impl Serializer {
    /// Both parts are well formed.
    pub open spec fn wf(&self) -> bool {
        self.writer.wf() && self.allocator.wf()
    }

    /// The bytes written so far.
    pub open spec fn bytes(&self) -> Seq<u8> {
        self.writer@
    }

    /// A serializer that writes up to `capacity` bytes and holds up to
    /// `scratch` bytes of scratch space.
    pub fn new(capacity: usize, scratch: usize) -> (r: Result<Serializer, ArchiveError>)
        ensures
            capacity <= crate::rel_ptr::MAX_POSITION ==> r.is_ok(),
            capacity > crate::rel_ptr::MAX_POSITION ==> r == Err::<Serializer, ArchiveError>(
                ArchiveError::OffsetOutOfRange,
            ),
            r matches Ok(s) ==> s.wf() && s.writer@ == Seq::<u8>::empty()
                && s.writer.spec_capacity() == capacity && s.allocator.spec_capacity() == scratch
                && s.allocator.spec_in_use() == 0,
    {
        match Writer::new(capacity) {
            Ok(writer) => Ok(Serializer { writer, allocator: Allocator::new(scratch) }),
            Err(e) => Err(e),
        }
    }

    /// The position at which the next byte will be written.
    pub fn pos(&self) -> (p: usize)
        ensures
            p == self.writer@.len(),
    {
        self.writer.pos()
    }

    /// Gives up the serializer for its writer.
    pub fn into_writer(self) -> (w: Writer)
        ensures
            w == self.writer,
    {
        self.writer
    }
}

} // verus!
