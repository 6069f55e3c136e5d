use rkyv::endian::{read_le, signed_of, twos_of, write_le};
use rkyv::error::ArchiveError;
use rkyv::hash::{bytes_equal, hash_bytes};
use rkyv::rel_ptr::{
    emplace, offset_i16, offset_i32, offset_i64, read_offset, resolve_target, signed_offset,
    MAX_POSITION,
};
use rkyv::ser::allocator::Allocator;
use rkyv::ser::serializer::Serializer;
use rkyv::ser::writer::{push_padding, round_up, Writer};

#[test]
fn little_endian_bytes() {
    let mut out = vec![9];
    write_le(&mut out, 0x0102_0304_0506_0708, 8);
    write_le(&mut out, 0x0102_0304_0506_0708, 2);
    write_le(&mut out, 0xff, 0);
    assert_eq!(out, vec![9, 8, 7, 6, 5, 4, 3, 2, 1, 8, 7]);
    assert_eq!(read_le(&out, 1, 8), 0x0102_0304_0506_0708);
    assert_eq!(read_le(&out, 9, 2), 0x0708);
    assert_eq!(read_le(&out, 0, 1), 9);
    assert_eq!(read_le(&out, 3, 0), 0);
    assert_eq!(read_le(&out, 1, 4), 0x0506_0708);
}

#[test]
fn twos_complement() {
    assert_eq!(twos_of(-1, 1), 0xff);
    assert_eq!(twos_of(-128, 1), 0x80);
    assert_eq!(twos_of(127, 1), 0x7f);
    assert_eq!(twos_of(-1, 2), 0xffff);
    assert_eq!(twos_of(-2, 4), 0xffff_fffe);
    assert_eq!(twos_of(i64::MIN, 8), 0x8000_0000_0000_0000);
    assert_eq!(twos_of(-1, 8), u64::MAX);
    assert_eq!(twos_of(5, 8), 5);
    assert_eq!(signed_of(0xff, 1), -1);
    assert_eq!(signed_of(0x7f, 1), 127);
    assert_eq!(signed_of(0x8000, 2), -32768);
    assert_eq!(signed_of(0xffff_fffe, 4), -2);
    assert_eq!(signed_of(u64::MAX, 8), -1);
    assert_eq!(signed_of(0x8000_0000_0000_0000, 8), i64::MIN);
    assert_eq!(signed_of(5, 4), 5);
}

#[test]
fn distances() {
    assert_eq!(signed_offset(10, 4), Ok(-6));
    assert_eq!(signed_offset(4, 10), Ok(6));
    assert_eq!(signed_offset(0, usize::MAX), Err(ArchiveError::OffsetOutOfRange));
    assert_eq!(signed_offset(usize::MAX, 0), Err(ArchiveError::OffsetOutOfRange));
    assert_eq!(signed_offset(0, isize::MAX as usize), Ok(isize::MAX));
    assert_eq!(signed_offset(isize::MAX as usize + 1, 0), Ok(isize::MIN));

    assert_eq!(offset_i16(100, 40), Ok(-60));
    assert_eq!(offset_i16(0, 32767), Ok(32767));
    assert_eq!(offset_i16(0, 32768), Err(ArchiveError::OffsetOutOfRange));
    assert_eq!(offset_i16(32768, 0), Ok(-32768));
    assert_eq!(offset_i16(32769, 0), Err(ArchiveError::OffsetOutOfRange));

    assert_eq!(offset_i32(16, 0), Ok(-16));
    assert_eq!(offset_i32(0, 0x7fff_ffff), Ok(i32::MAX));
    assert_eq!(offset_i32(0, 0x8000_0000), Err(ArchiveError::OffsetOutOfRange));
    assert_eq!(offset_i32(0x8000_0000, 0), Ok(i32::MIN));
    assert_eq!(offset_i32(0x8000_0001, 0), Err(ArchiveError::OffsetOutOfRange));

    assert_eq!(offset_i64(7, 7), Ok(0));
    assert_eq!(offset_i64(0, i64::MAX as usize), Ok(i64::MAX));
    assert_eq!(offset_i64(0, i64::MAX as usize + 1), Err(ArchiveError::OffsetOutOfRange));
}

#[test]
fn pointers_lead_back() {
    assert_eq!(resolve_target(16, -16), Some(0));
    assert_eq!(resolve_target(16, -17), None);
    assert_eq!(resolve_target(16, 4), Some(20));
    assert_eq!(resolve_target(usize::MAX, 1), None);
    assert_eq!(resolve_target(0, i32::MIN), None);

    let mut out = Vec::new();
    emplace(&mut out, 16, 0);
    emplace(&mut out, 4, 20);
    emplace(&mut out, MAX_POSITION, 0);
    emplace(&mut out, 0, MAX_POSITION);
    emplace(&mut out, 8, 8);
    assert_eq!(
        out,
        vec![
            0xf0, 0xff, 0xff, 0xff, 16, 0, 0, 0, 1, 0, 0, 0x80, 0xff, 0xff, 0xff, 0x7f, 0, 0, 0,
            0
        ]
    );
    assert_eq!(read_offset(&out, 0), -16);
    assert_eq!(read_offset(&out, 4), 16);
    assert_eq!(read_offset(&out, 8), -0x7fff_ffff);
    assert_eq!(read_offset(&out, 12), 0x7fff_ffff);
    assert_eq!(read_offset(&out, 16), 0);
    assert_eq!(resolve_target(16, read_offset(&out, 0)), Some(0));
}

#[test]
fn writer_appends() {
    let mut w = Writer::new(10).unwrap();
    assert_eq!(w.pos(), 0);
    assert_eq!(w.capacity(), 10);
    assert_eq!(w.write(&[1, 2, 3]), Ok(0));
    assert_eq!(w.pos(), 3);
    assert_eq!(w.write(&[]), Ok(3));
    assert_eq!(w.align(4), Ok(4));
    assert_eq!(w.align(4), Ok(4));
    assert_eq!(w.align(1), Ok(4));
    assert_eq!(w.write(&[4, 5]), Ok(4));
    assert_eq!(w.write(&[0; 5]), Err(ArchiveError::CapacityExceeded));
    assert_eq!(w.pos(), 6);
    assert_eq!(w.align(8), Ok(8));
    assert_eq!(w.align(16), Err(ArchiveError::CapacityExceeded));
    assert_eq!(w.pad(3), Err(ArchiveError::CapacityExceeded));
    assert_eq!(w.pad(2), Ok(()));
    assert_eq!(w.pad(0), Ok(()));
    assert_eq!(w.write(&[1]), Err(ArchiveError::CapacityExceeded));
    assert_eq!(w.as_slice(), &[1, 2, 3, 0, 4, 5, 0, 0, 0, 0]);
    assert_eq!(w.into_inner(), vec![1, 2, 3, 0, 4, 5, 0, 0, 0, 0]);
}

#[test]
fn writer_stays_within_reach_of_a_pointer() {
    assert!(Writer::new(MAX_POSITION).is_ok());
    assert!(matches!(Writer::new(MAX_POSITION + 1), Err(ArchiveError::OffsetOutOfRange)));
    assert!(matches!(Writer::new(usize::MAX), Err(ArchiveError::OffsetOutOfRange)));
    assert!(matches!(Serializer::new(MAX_POSITION + 1, 0), Err(ArchiveError::OffsetOutOfRange)));
    assert!(Serializer::new(0, usize::MAX).is_ok());
}

#[test]
fn allocator_keeps_account() {
    let mut a = Allocator::new(100);
    assert_eq!(a.capacity(), 100);
    assert_eq!(a.in_use(), 0);
    assert_eq!(a.acquire(60), Ok(()));
    assert_eq!(a.in_use(), 60);
    assert_eq!(a.acquire(41), Err(ArchiveError::ScratchExhausted));
    assert_eq!(a.in_use(), 60);
    assert_eq!(a.acquire_array(5, 8), Ok(40));
    assert_eq!(a.in_use(), 100);
    assert_eq!(a.acquire(0), Ok(()));
    assert_eq!(a.acquire(1), Err(ArchiveError::ScratchExhausted));
    a.release(40);
    assert_eq!(a.in_use(), 60);
    assert_eq!(a.acquire_array(3, 0), Ok(0));
    assert_eq!(a.acquire_array(usize::MAX, 2), Err(ArchiveError::ScratchExhausted));
    assert_eq!(a.acquire_array(6, 7), Err(ArchiveError::ScratchExhausted));
    a.release(60);
    assert_eq!(a.in_use(), 0);
}

#[test]
fn padding_and_rounding() {
    let mut out = vec![1];
    push_padding(&mut out, 3);
    push_padding(&mut out, 0);
    assert_eq!(out, vec![1, 0, 0, 0]);
    assert_eq!(round_up(0, 4), 0);
    assert_eq!(round_up(1, 4), 4);
    assert_eq!(round_up(4, 4), 4);
    assert_eq!(round_up(5, 8), 8);
    assert_eq!(round_up(9, 1), 9);
}

#[test]
fn hash_is_fixed() {
    assert_eq!(hash_bytes(b""), 0xcbf2_9ce4_8422_2325);
    assert_eq!(hash_bytes(b"a"), 0xaf63_dc4c_8601_ec8c);
    assert_eq!(hash_bytes(b"foobar"), 0x8594_4171_f739_67e8);
    assert!(bytes_equal(b"abc", b"abc"));
    assert!(!bytes_equal(b"abc", b"abd"));
    assert!(!bytes_equal(b"abc", b"ab"));
    assert!(bytes_equal(b"", b""));
}
