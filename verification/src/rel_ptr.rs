//! Relative addressing: a pointer is stored as the signed distance from its own
//! position to the position of what it points at, so that an archive stays
//! valid wherever its bytes are copied.

use crate::endian::{
    from_twos, le_bytes, le_value, lemma_le_round_trip_small, lemma_pow256_values,
    lemma_twos_round_trip, read_le, to_twos, write_le,
};
use crate::error::ArchiveError;
use vstd::prelude::*;

verus! {

/// The number of bytes that a relative pointer occupies in an archive.
pub const POINTER_SIZE: usize = 4;

/// The last position that a relative pointer of an archive can be told apart
/// from: no archive is larger than this.
pub const MAX_POSITION: usize = 0x7fff_ffff;

/// The signed distance from the position `from` to the position `to`.
pub open spec fn distance(from: int, to: int) -> int {
    to - from
}

/// The position that a pointer stored at `from` with the distance `offset`
/// refers to.
pub open spec fn target(from: int, offset: int) -> int {
    from + offset
}

/// The four bytes that encode the distance `offset`.
pub open spec fn offset_bytes(offset: int) -> Seq<u8> {
    le_bytes(to_twos(offset, 4), 4)
}

/// The distance that four bytes encode.
pub open spec fn offset_of_bytes(bytes: Seq<u8>) -> int {
    from_twos(le_value(bytes), 4)
}

/// Following a pointer leads back to the position it was computed for.
pub proof fn lemma_target_of_distance(from: int, to: int)
    ensures
        target(from, distance(from, to)) == to,
{
}

/// A distance that fits the pointer width is read back unchanged.
pub proof fn lemma_offset_round_trip(offset: int)
    requires
        -0x8000_0000 <= offset <= 0x7fff_ffff,
    ensures
        offset_bytes(offset).len() == 4,
        offset_of_bytes(offset_bytes(offset)) == offset,
{
    lemma_pow256_values();
    lemma_twos_round_trip(offset, 4);
    lemma_le_round_trip_small(to_twos(offset, 4), 4);
}

/// The distance from `from` to `to` as a machine-width signed integer, or
/// `OffsetOutOfRange` where it does not fit one.
pub fn signed_offset(from: usize, to: usize) -> (r: Result<isize, ArchiveError>)
    ensures
        isize::MIN <= distance(from as int, to as int) <= isize::MAX ==> r == Ok::<
            isize,
            ArchiveError,
        >(
            distance(from as int, to as int) as isize,
        ),
        !(isize::MIN <= distance(from as int, to as int) <= isize::MAX) ==> r == Err::<
            isize,
            ArchiveError,
        >(ArchiveError::OffsetOutOfRange),
{
    let d: i128 = to as i128 - from as i128;
    if d < isize::MIN as i128 || d > isize::MAX as i128 {
        Err(ArchiveError::OffsetOutOfRange)
    } else {
        Ok(d as isize)
    }
}

/// The distance from `from` to `to` for a 16-bit pointer.
pub fn offset_i16(from: usize, to: usize) -> (r: Result<i16, ArchiveError>)
    ensures
        i16::MIN <= distance(from as int, to as int) <= i16::MAX ==> r == Ok::<i16, ArchiveError>(
            distance(from as int, to as int) as i16,
        ),
        !(i16::MIN <= distance(from as int, to as int) <= i16::MAX) ==> r == Err::<
            i16,
            ArchiveError,
        >(
            ArchiveError::OffsetOutOfRange,
        ),
{
    let d: i128 = to as i128 - from as i128;
    if d < i16::MIN as i128 || d > i16::MAX as i128 {
        Err(ArchiveError::OffsetOutOfRange)
    } else {
        Ok(d as i16)
    }
}

/// The distance from `from` to `to` for a 32-bit pointer, the width that the
/// records of an archive use.
pub fn offset_i32(from: usize, to: usize) -> (r: Result<i32, ArchiveError>)
    ensures
        i32::MIN <= distance(from as int, to as int) <= i32::MAX ==> r == Ok::<i32, ArchiveError>(
            distance(from as int, to as int) as i32,
        ),
        !(i32::MIN <= distance(from as int, to as int) <= i32::MAX) ==> r == Err::<
            i32,
            ArchiveError,
        >(
            ArchiveError::OffsetOutOfRange,
        ),
{
    let d: i128 = to as i128 - from as i128;
    if d < i32::MIN as i128 || d > i32::MAX as i128 {
        Err(ArchiveError::OffsetOutOfRange)
    } else {
        Ok(d as i32)
    }
}

/// The distance from `from` to `to` for a 64-bit pointer.
pub fn offset_i64(from: usize, to: usize) -> (r: Result<i64, ArchiveError>)
    ensures
        i64::MIN <= distance(from as int, to as int) <= i64::MAX ==> r == Ok::<i64, ArchiveError>(
            distance(from as int, to as int) as i64,
        ),
        !(i64::MIN <= distance(from as int, to as int) <= i64::MAX) ==> r == Err::<
            i64,
            ArchiveError,
        >(
            ArchiveError::OffsetOutOfRange,
        ),
{
    let d: i128 = to as i128 - from as i128;
    if d < i64::MIN as i128 || d > i64::MAX as i128 {
        Err(ArchiveError::OffsetOutOfRange)
    } else {
        Ok(d as i64)
    }
}

/// The position that a pointer stored at `from` with the distance `offset`
/// refers to, or `None` where that is no position at all.
pub fn resolve_target(from: usize, offset: i32) -> (r: Option<usize>)
    ensures
        0 <= target(from as int, offset as int) <= usize::MAX ==> r == Some(
            target(from as int, offset as int) as usize,
        ),
        !(0 <= target(from as int, offset as int) <= usize::MAX) ==> r.is_none(),
{
    let t: i128 = from as i128 + offset as i128;
    if t < 0 || t > usize::MAX as i128 {
        None
    } else {
        Some(t as usize)
    }
}

/// Appends to `out` the pointer that, stored at `from`, refers to `to`.
pub fn emplace(out: &mut Vec<u8>, from: usize, to: usize)
    requires
        from <= MAX_POSITION,
        to <= MAX_POSITION,
    ensures
        final(out)@ == old(out)@ + offset_bytes(distance(from as int, to as int)),
{
    let d: i64 = to as i64 - from as i64;
    let u: u64 = if d < 0 {
        (d + 0x1_0000_0000) as u64
    } else {
        d as u64
    };
    proof {
        lemma_pow256_values();
    }
    write_le(out, u, 4);
}

/// Reads the distance that the pointer stored at `pos` holds.
pub fn read_offset(buf: &[u8], pos: usize) -> (offset: i32)
    requires
        pos + 4 <= buf.len(),
    ensures
        offset == offset_of_bytes(buf@.subrange(pos as int, pos + 4)),
{
    let u: u64 = read_le(buf, pos, 4);
    proof {
        lemma_pow256_values();
    }
    if u >= 0x8000_0000 {
        (u as i64 - 0x1_0000_0000) as i32
    } else {
        u as i32
    }
}

} // verus!
