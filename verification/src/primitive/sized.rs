//! Integers of the machine's width. Their record has the width of the
//! archive's pointers, not of the machine that writes it: a value that does
//! not fit is cut down to that width.

use crate::endian::{
    from_twos, le_bytes, le_value, lemma_le_bytes_len, lemma_le_round_trip_small,
    lemma_pow256_values, lemma_signed_round_trip, read_le, signed_of, to_twos, write_le,
};
use crate::error::ArchiveError;
use crate::primitive::Primitive;
use crate::traits::Archive;
use vstd::prelude::*;

verus! {

/// The number of bytes of the record of a `usize` or an `isize`.
pub const FIXED_WIDTH: usize = 4;

/// The number below `2^32` that has the low 32 bits of `v`.
pub open spec fn low_word(v: int) -> nat {
    (v % 0x1_0000_0000) as nat
}

impl Primitive for usize {
    open spec fn spec_width() -> nat {
        4
    }

    open spec fn encode(v: usize) -> Seq<u8> {
        le_bytes(low_word(v as int), 4)
    }

    open spec fn decodable(bytes: Seq<u8>) -> bool {
        true
    }

    open spec fn decode(bytes: Seq<u8>) -> usize {
        le_value(bytes) as usize
    }

    open spec fn exact(v: usize) -> bool {
        v <= u32::MAX
    }

    proof fn lemma_width() {
    }

    proof fn lemma_encode(v: usize) {
        lemma_le_bytes_len(low_word(v as int), 4);
    }

    proof fn lemma_round_trip(v: usize) {
        lemma_pow256_values();
        lemma_le_round_trip_small(v as nat, 4);
    }

    fn width() -> (n: usize) {
        FIXED_WIDTH
    }

    fn write(&self, out: &mut Vec<u8>) {
        let low: u64 = (*self as u64) % 0x1_0000_0000;
        write_le(out, low, 4);
    }

    fn read(buf: &[u8], pos: usize) -> (r: Option<usize>) {
        proof {
            lemma_pow256_values();
        }
        let u: u64 = read_le(buf, pos, 4);
        Some(u as usize)
    }
}

impl Primitive for isize {
    open spec fn spec_width() -> nat {
        4
    }

    open spec fn encode(v: isize) -> Seq<u8> {
        le_bytes(low_word(v as int), 4)
    }

    open spec fn decodable(bytes: Seq<u8>) -> bool {
        true
    }

    open spec fn decode(bytes: Seq<u8>) -> isize {
        from_twos(le_value(bytes), 4) as isize
    }

    open spec fn exact(v: isize) -> bool {
        i32::MIN <= v <= i32::MAX
    }

    proof fn lemma_width() {
    }

    proof fn lemma_encode(v: isize) {
        lemma_le_bytes_len(low_word(v as int), 4);
    }

    proof fn lemma_round_trip(v: isize) {
        lemma_pow256_values();
        lemma_signed_round_trip(v as int, 4);
        assert(low_word(v as int) == to_twos(v as int, 4));
    }

    fn width() -> (n: usize) {
        FIXED_WIDTH
    }

    fn write(&self, out: &mut Vec<u8>) {
        let shifted: u128 = (*self as i128 + 0x8000_0000_0000_0000) as u128;
        let low: u64 = (shifted % 0x1_0000_0000) as u64;
        assert(low == low_word(*self as int));
        write_le(out, low, 4);
    }

    fn read(buf: &[u8], pos: usize) -> (r: Option<isize>) {
        proof {
            lemma_pow256_values();
        }
        let u: u64 = read_le(buf, pos, 4);
        Some(signed_of(u, 4) as isize)
    }
}

/// The unsigned integer whose record stands at `pos`, for a reader that
/// takes no zero: a record that holds zero is refused as holding no value.
pub fn non_zero_usize_at(buf: &[u8], pos: usize) -> (r: Result<usize, ArchiveError>)
    ensures
        r is Ok <==> (<usize as Archive>::valid_at(buf@, pos as int) && <usize as Archive>::value_at(
            buf@,
            pos as int,
        ) != 0),
        r matches Ok(v) ==> v == <usize as Archive>::value_at(buf@, pos as int) && v != 0,
        r matches Err(e) ==> e.is_validation(),
        (<usize as Archive>::valid_at(buf@, pos as int) && <usize as Archive>::value_at(
            buf@,
            pos as int,
        ) == 0) ==> r == Err::<usize, ArchiveError>(ArchiveError::InvalidValue),
{
    if let Err(e) = <usize as Archive>::validate(buf, pos) {
        return Err(e);
    }
    let v: usize = <usize as Archive>::deserialize(buf, pos);
    if v == 0 {
        Err(ArchiveError::InvalidValue)
    } else {
        Ok(v)
    }
}

/// The signed integer whose record stands at `pos`, for a reader that takes
/// no zero: a record that holds zero is refused as holding no value.
pub fn non_zero_isize_at(buf: &[u8], pos: usize) -> (r: Result<isize, ArchiveError>)
    ensures
        r is Ok <==> (<isize as Archive>::valid_at(buf@, pos as int) && <isize as Archive>::value_at(
            buf@,
            pos as int,
        ) != 0),
        r matches Ok(v) ==> v == <isize as Archive>::value_at(buf@, pos as int) && v != 0,
        r matches Err(e) ==> e.is_validation(),
        (<isize as Archive>::valid_at(buf@, pos as int) && <isize as Archive>::value_at(
            buf@,
            pos as int,
        ) == 0) ==> r == Err::<isize, ArchiveError>(ArchiveError::InvalidValue),
{
    if let Err(e) = <isize as Archive>::validate(buf, pos) {
        return Err(e);
    }
    let v: isize = <isize as Archive>::deserialize(buf, pos);
    if v == 0 {
        Err(ArchiveError::InvalidValue)
    } else {
        Ok(v)
    }
}

} // verus!
