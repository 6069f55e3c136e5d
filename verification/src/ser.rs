//! What serialization writes through: an append-only writer and an allocator
//! of scratch space, held together by a serializer.

pub mod allocator;
pub mod serializer;
pub mod writer;
