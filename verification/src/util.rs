//! The entry points: archive a value into a buffer, find the root record of
//! a buffer with or without checking it, and rebuild the value.

use crate::error::ArchiveError;
use crate::rel_ptr::MAX_POSITION;
use crate::ser::serializer::Serializer;
use crate::ser::writer::{align_up, lemma_align_up, padding};
use crate::traits::{archivable, Archive, MAX_ALIGN};
use vstd::prelude::*;

verus! {

/// The position of the root record when `v` is archived from `start` on:
/// the next aligned position after all that the record points at.
pub open spec fn root_pos<T: Archive>(v: T::Model, start: int) -> int {
    align_up(start + T::serialized_len(v, start), T::spec_align() as int)
}

/// The position after the root record when `v` is archived from `start` on.
pub open spec fn root_end<T: Archive>(v: T::Model, start: int) -> int {
    root_pos::<T>(v, start) + T::spec_size()
}

/// The bytes that archiving `v` writes from `start` on: what the root
/// record points at, the padding that aligns the root record, and the root
/// record. Values that are the same to a reader are archived as the same
/// bytes.
pub open spec fn archive_bytes<T: Archive>(v: T::Model, start: int) -> Seq<u8> {
    T::out_of_line(v, start) + padding(
        root_pos::<T>(v, start) - (start + T::serialized_len(v, start)),
    ) + T::record(v, root_pos::<T>(v, start), T::resolver_at(v, start))
}

/// The position of the root record of an archive of `len` bytes: the root is
/// the last record of the buffer.
pub open spec fn root_of<T: Archive>(len: int) -> int {
    len - T::spec_size()
}

/// `buf` is an archive whose root is a well-formed record of `T`.
pub open spec fn is_archive<T: Archive>(buf: Seq<u8>) -> bool {
    buf.len() >= T::spec_size() && T::valid_at(buf, root_of::<T>(buf.len() as int))
}

/// The value that the archive `buf` holds.
pub open spec fn archive_value<T: Archive>(buf: Seq<u8>) -> T::Model {
    T::value_at(buf, root_of::<T>(buf.len() as int))
}

/// Archives `value` through `s`: first all that its record points at, then,
/// at the next aligned position, the record itself. Returns the position of
/// the record, which is the last thing written.
pub fn serialize_value<T: Archive>(value: &T, s: &mut Serializer) -> (res: Result<
    usize,
    ArchiveError,
>)
    requires
        old(s).wf(),
    ensures
        final(s).wf(),
        final(s).writer.spec_capacity() == old(s).writer.spec_capacity(),
        final(s).allocator.spec_capacity() == old(s).allocator.spec_capacity(),
        final(s).allocator.spec_in_use() == old(s).allocator.spec_in_use(),
        old(s).writer@.is_prefix_of(final(s).writer@),
        res is Ok <==> (root_end::<T>(value.model(), old(s).writer@.len() as int) <= old(
            s,
        ).writer.spec_capacity() && T::scratch_len(value.model()) <= old(
            s,
        ).allocator.spec_available()),
        res matches Ok(pos) ==> final(s).writer@ == old(s).writer@ + archive_bytes::<T>(
            value.model(),
            old(s).writer@.len() as int,
        ),
        res matches Ok(pos) ==> pos == root_pos::<T>(value.model(), old(s).writer@.len() as int)
            && final(s).writer@.len() == pos + T::spec_size() && T::valid_at(
            final(s).writer@,
            pos as int,
        ) && T::value_at(final(s).writer@, pos as int) == T::archived_value(value.model()),
        res matches Err(e) ==> (e == ArchiveError::CapacityExceeded && root_end::<T>(
            value.model(),
            old(s).writer@.len() as int,
        ) > old(s).writer.spec_capacity()) || (e == ArchiveError::ScratchExhausted && T::scratch_len(
            value.model(),
        ) > old(s).allocator.spec_available()),
{
    let ghost start = s.writer@.len() as int;
    let ghost before = s.writer@;
    let ghost v = value.model();
    proof {
        T::lemma_layout();
        lemma_align_up(start + T::serialized_len(v, start), T::spec_align() as int);
    }
    let resolver = match value.serialize(s) {
        Ok(r) => r,
        Err(e) => {
            return Err(e);
        },
    };
    let ghost mid = s.writer@;
    let pos: usize = match s.writer.align(T::align()) {
        Ok(p) => p,
        Err(e) => {
            return Err(e);
        },
    };
    let size: usize = T::size();
    if size > s.writer.capacity() - pos {
        return Err(ArchiveError::CapacityExceeded);
    }
    let mut record: Vec<u8> = Vec::new();
    proof {
        T::lemma_record_len(v, pos as int, resolver);
    }
    value.resolve(pos, resolver, &mut record);
    let w = s.writer.write(record.as_slice());
    proof {
        let fin = s.writer@;
        assert(record@ =~= T::record(v, pos as int, resolver));
        assert(fin.subrange(pos as int, pos + size) =~= record@);
        assert(fin =~= before + archive_bytes::<T>(v, start));
        T::lemma_resolve(mid, fin, pos as int, v, resolver);
    }
    Ok(pos)
}

/// Archives `value` through `s` and hands the serializer back. The root
/// record is the last thing written.
pub fn serialize_into<T: Archive>(value: &T, s: Serializer) -> (res: Result<
    Serializer,
    ArchiveError,
>)
    requires
        s.wf(),
    ensures
        res is Ok <==> (root_end::<T>(value.model(), s.writer@.len() as int)
            <= s.writer.spec_capacity() && T::scratch_len(value.model())
            <= s.allocator.spec_available()),
        res matches Ok(done) ==> done.writer@ == s.writer@ + archive_bytes::<T>(
            value.model(),
            s.writer@.len() as int,
        ),
        res matches Ok(done) ==> done.wf() && s.writer@.is_prefix_of(done.writer@)
            && done.writer@.len() == root_end::<T>(value.model(), s.writer@.len() as int)
            && is_archive::<T>(done.writer@) && archive_value::<T>(done.writer@)
            == T::archived_value(value.model()),
        res matches Err(e) ==> (e == ArchiveError::CapacityExceeded && root_end::<T>(
            value.model(),
            s.writer@.len() as int,
        ) > s.writer.spec_capacity()) || (e == ArchiveError::ScratchExhausted && T::scratch_len(
            value.model(),
        ) > s.allocator.spec_available()),
{
    let mut s = s;
    match serialize_value(value, &mut s) {
        Ok(_) => Ok(s),
        Err(e) => Err(e),
    }
}

/// Archives `value` into a new buffer of at most `capacity` bytes, with at
/// most `scratch` bytes of scratch space. The root record ends the buffer.
pub fn to_bytes<T: Archive>(value: &T, capacity: usize, scratch: usize) -> (res: Result<
    Vec<u8>,
    ArchiveError,
>)
    ensures
        res is Ok <==> (capacity <= MAX_POSITION && root_end::<T>(value.model(), 0) <= capacity
            && T::scratch_len(value.model()) <= scratch),
        res matches Ok(bytes) ==> bytes@ == archive_bytes::<T>(value.model(), 0),
        res matches Ok(bytes) ==> bytes@.len() == root_end::<T>(value.model(), 0)
            && is_archive::<T>(bytes@) && archive_value::<T>(bytes@) == T::archived_value(
            value.model(),
        ),
        res matches Err(e) ==> (e == ArchiveError::OffsetOutOfRange && capacity > MAX_POSITION) || (e
            == ArchiveError::CapacityExceeded && root_end::<T>(value.model(), 0) > capacity) || (e
            == ArchiveError::ScratchExhausted && T::scratch_len(value.model()) > scratch),
{
    let s = match Serializer::new(capacity, scratch) {
        Ok(s) => s,
        Err(e) => {
            return Err(e);
        },
    };
    match serialize_into(value, s) {
        Ok(done) => Ok(done.into_writer().into_inner()),
        Err(e) => Err(e),
    }
}

/// Checked access: the position of the root record of `buf`, after the
/// record and all that it points at have been checked.
pub fn access<T: Archive>(buf: &[u8]) -> (res: Result<usize, ArchiveError>)
    ensures
        res is Ok <==> is_archive::<T>(buf@),
        res matches Ok(pos) ==> pos == root_of::<T>(buf@.len() as int),
        res matches Err(e) ==> e.is_validation(),
{
    let size: usize = T::size();
    if buf.len() < size {
        return Err(ArchiveError::OutOfBounds);
    }
    let pos: usize = buf.len() - size;
    match T::validate(buf, pos) {
        Ok(()) => Ok(pos),
        Err(e) => Err(e),
    }
}

/// Unchecked access: the position of the root record of `buf`, which the
/// caller vouches for.
pub fn access_unchecked<T: Archive>(buf: &[u8]) -> (pos: usize)
    requires
        is_archive::<T>(buf@),
    ensures
        pos == root_of::<T>(buf@.len() as int),
        T::valid_at(buf@, pos as int),
{
    buf.len() - T::size()
}

/// Rebuilds the value whose record stands at `pos`.
pub fn deserialize<T: Archive>(buf: &[u8], pos: usize) -> (v: T)
    requires
        T::valid_at(buf@, pos as int),
    ensures
        v.model() == T::value_at(buf@, pos as int),
{
    T::deserialize(buf, pos)
}

/// Checks the archive `buf` and rebuilds the value that it holds.
pub fn from_bytes<T: Archive>(buf: &[u8]) -> (res: Result<T, ArchiveError>)
    ensures
        res is Ok <==> is_archive::<T>(buf@),
        res matches Ok(v) ==> v.model() == archive_value::<T>(buf@),
        res matches Err(e) ==> e.is_validation(),
{
    match access::<T>(buf) {
        Ok(pos) => Ok(T::deserialize(buf, pos)),
        Err(e) => Err(e),
    }
}

/// Archives `value`, checks the archive and rebuilds the value from it.
/// Whatever can be archived passes the check, and what comes back is what
/// the archive holds of the value: the value itself, whenever the format has
/// room for it.
pub fn round_trip<T: Archive>(value: &T, capacity: usize, scratch: usize) -> (res: Result<
    T,
    ArchiveError,
>)
    ensures
        res is Ok <==> (capacity <= MAX_POSITION && root_end::<T>(value.model(), 0) <= capacity
            && T::scratch_len(value.model()) <= scratch),
        res matches Ok(back) ==> back.model() == T::archived_value(value.model()),
        res matches Ok(back) ==> (archivable::<T>(value.model()) ==> back.model()
            == value.model()),
        res matches Err(e) ==> e.is_serialization(),
{
    let bytes: Vec<u8> = match to_bytes(value, capacity, scratch) {
        Ok(bytes) => bytes,
        Err(e) => {
            return Err(e);
        },
    };
    match from_bytes::<T>(bytes.as_slice()) {
        Ok(back) => Ok(back),
        Err(e) => Err(e),
    }
}

/// Archiving law: the bytes that archiving a value writes after `before`
/// end with a well-formed root record, and that record stands for what the
/// format holds of the value.
pub proof fn lemma_archived<T: Archive>(before: Seq<u8>, v: T::Model)
    requires
        T::admits(v),
        root_end::<T>(v, before.len() as int) <= MAX_POSITION,
    ensures
        (before + archive_bytes::<T>(v, before.len() as int)).len() == root_end::<T>(
            v,
            before.len() as int,
        ),
        T::valid_at(
            before + archive_bytes::<T>(v, before.len() as int),
            root_pos::<T>(v, before.len() as int),
        ),
        T::value_at(
            before + archive_bytes::<T>(v, before.len() as int),
            root_pos::<T>(v, before.len() as int),
        ) == T::archived_value(v),
{
    let start = before.len() as int;
    let pos = root_pos::<T>(v, start);
    let r = T::resolver_at(v, start);
    let mid = before + T::out_of_line(v, start);
    let fin = before + archive_bytes::<T>(v, start);
    T::lemma_layout();
    T::lemma_out_of_line_len(v, start);
    T::lemma_record_len(v, pos, r);
    lemma_align_up(start + T::serialized_len(v, start), T::spec_align() as int);
    T::lemma_serialized(before, v);
    assert(fin =~= mid + padding(pos - mid.len()) + T::record(v, pos, r));
    assert(fin.subrange(pos, pos + T::spec_size()) =~= T::record(v, pos, r));
    T::lemma_resolve(mid, fin, pos, v, r);
}

/// Validation law: what archiving a value into an empty buffer writes passes
/// checked access.
pub proof fn lemma_archive_is_valid<T: Archive>(v: T::Model)
    requires
        T::admits(v),
        root_end::<T>(v, 0) <= MAX_POSITION,
    ensures
        is_archive::<T>(archive_bytes::<T>(v, 0)),
        archive_value::<T>(archive_bytes::<T>(v, 0)) == T::archived_value(v),
{
    let none = Seq::<u8>::empty();
    let bytes = archive_bytes::<T>(v, 0);
    assert(none.len() == 0);
    lemma_archived::<T>(none, v);
    assert(none + bytes =~= bytes);
    T::lemma_layout();
    lemma_align_up(T::serialized_len(v, 0) as int, T::spec_align() as int);
    assert(root_of::<T>(bytes.len() as int) == root_pos::<T>(v, 0));
}

/// Round trip: what is read from the archive of a value is that value,
/// whenever the format has room for it.
pub proof fn lemma_round_trip<T: Archive>(v: T::Model)
    requires
        T::admits(v),
        archivable::<T>(v),
        root_end::<T>(v, 0) <= MAX_POSITION,
    ensures
        is_archive::<T>(archive_bytes::<T>(v, 0)),
        archive_value::<T>(archive_bytes::<T>(v, 0)) == v,
{
    lemma_archive_is_valid::<T>(v);
}

/// Relocation: an archive that is copied to another base address, a
/// multiple of the largest alignment, holds the same value there. `memory`
/// stands for the address space and `base` for the address of the copy.
pub proof fn lemma_relocation<T: Archive>(buf: Seq<u8>, pos: int, memory: Seq<u8>, base: int)
    requires
        T::valid_at(buf, pos),
        0 <= base,
        base % (MAX_ALIGN as int) == 0,
        base + buf.len() <= memory.len(),
        memory.subrange(base, base + buf.len()) == buf,
    ensures
        T::valid_at(memory, base + pos),
        T::value_at(memory, base + pos) == T::value_at(buf, pos),
{
    T::lemma_valid_bounds(buf, pos);
    assert forall|i: int| 0 <= i < pos + T::spec_size() implies #[trigger] buf[i] == memory[i
        + base] by {
        assert(memory.subrange(base, base + buf.len())[i] == memory[i + base]);
    }
    T::lemma_moved(buf, pos, memory, base);
}

/// Two copies of one archive at different base addresses hold the same
/// value.
pub proof fn lemma_relocation_between<T: Archive>(
    buf: Seq<u8>,
    pos: int,
    memory: Seq<u8>,
    base1: int,
    base2: int,
)
    requires
        T::valid_at(buf, pos),
        0 <= base1,
        0 <= base2,
        base1 % (MAX_ALIGN as int) == 0,
        base2 % (MAX_ALIGN as int) == 0,
        base1 + buf.len() <= memory.len(),
        base2 + buf.len() <= memory.len(),
        memory.subrange(base1, base1 + buf.len()) == buf,
        memory.subrange(base2, base2 + buf.len()) == buf,
    ensures
        T::valid_at(memory, base1 + pos),
        T::valid_at(memory, base2 + pos),
        T::value_at(memory, base1 + pos) == T::value_at(memory, base2 + pos),
{
    lemma_relocation::<T>(buf, pos, memory, base1);
    lemma_relocation::<T>(buf, pos, memory, base2);
}

/// Truncation: a buffer cut short of the end of a record does not pass the
/// check of that record.
pub proof fn lemma_truncated_is_invalid<T: Archive>(buf: Seq<u8>, pos: int, keep: int)
    requires
        0 <= keep <= buf.len(),
        keep < pos + T::spec_size(),
    ensures
        !T::valid_at(buf.take(keep), pos),
{
    if T::valid_at(buf.take(keep), pos) {
        T::lemma_valid_bounds(buf.take(keep), pos);
    }
}

} // verus!
