use rkyv::error::ArchiveError;
use rkyv::primitive::sized::{non_zero_isize_at, non_zero_usize_at};
use rkyv::primitive::Primitive;
use rkyv::ser::serializer::Serializer;
use rkyv::traits::Archive;
use rkyv::util::{access, deserialize, from_bytes, round_trip, serialize_value, to_bytes};

#[test]
fn integers_are_little_endian() {
    assert_eq!(to_bytes(&10i32, 16, 0), Ok(vec![10, 0, 0, 0]));
    assert_eq!(to_bytes(&-2i32, 16, 0), Ok(vec![0xfe, 0xff, 0xff, 0xff]));
    assert_eq!(to_bytes(&i32::MIN, 16, 0), Ok(vec![0, 0, 0, 0x80]));
    assert_eq!(to_bytes(&0x1234u16, 16, 0), Ok(vec![0x34, 0x12]));
    assert_eq!(to_bytes(&-1i16, 16, 0), Ok(vec![0xff, 0xff]));
    assert_eq!(to_bytes(&0xabu8, 16, 0), Ok(vec![0xab]));
    assert_eq!(to_bytes(&-128i8, 16, 0), Ok(vec![0x80]));
    assert_eq!(to_bytes(&0xdead_beefu32, 16, 0), Ok(vec![0xef, 0xbe, 0xad, 0xde]));
    assert_eq!(
        to_bytes(&0x0102_0304_0506_0708u64, 16, 0),
        Ok(vec![8, 7, 6, 5, 4, 3, 2, 1])
    );
    assert_eq!(to_bytes(&i64::MIN, 16, 0), Ok(vec![0, 0, 0, 0, 0, 0, 0, 0x80]));
    assert_eq!(to_bytes(&-1i64, 16, 0), Ok(vec![0xff; 8]));
}

#[test]
fn integers_come_back() {
    assert_eq!(round_trip(&i8::MIN, 16, 0), Ok(i8::MIN));
    assert_eq!(round_trip(&i8::MAX, 16, 0), Ok(i8::MAX));
    assert_eq!(round_trip(&u8::MAX, 16, 0), Ok(u8::MAX));
    assert_eq!(round_trip(&i16::MIN, 16, 0), Ok(i16::MIN));
    assert_eq!(round_trip(&u16::MAX, 16, 0), Ok(u16::MAX));
    assert_eq!(round_trip(&i32::MIN, 16, 0), Ok(i32::MIN));
    assert_eq!(round_trip(&i32::MAX, 16, 0), Ok(i32::MAX));
    assert_eq!(round_trip(&u32::MAX, 16, 0), Ok(u32::MAX));
    assert_eq!(round_trip(&i64::MIN, 16, 0), Ok(i64::MIN));
    assert_eq!(round_trip(&i64::MAX, 16, 0), Ok(i64::MAX));
    assert_eq!(round_trip(&u64::MAX, 16, 0), Ok(u64::MAX));
    assert_eq!(round_trip(&-12345i32, 16, 0), Ok(-12345));
    assert_eq!(round_trip(&0i64, 16, 0), Ok(0));
}

#[test]
fn machine_width_integers_take_four_bytes() {
    assert_eq!(to_bytes(&5usize, 16, 0), Ok(vec![5, 0, 0, 0]));
    assert_eq!(to_bytes(&-1isize, 16, 0), Ok(vec![0xff; 4]));
    assert_eq!(round_trip(&0xffff_ffffusize, 16, 0), Ok(0xffff_ffff));
    assert_eq!(round_trip(&(i32::MIN as isize), 16, 0), Ok(i32::MIN as isize));
    assert_eq!(round_trip(&(i32::MAX as isize), 16, 0), Ok(i32::MAX as isize));
    assert_eq!(<usize as Archive>::size(), 4);
    assert_eq!(<isize as Archive>::align(), 4);
}

#[test]
fn machine_width_integers_are_cut_down() {
    let wide: usize = 0x1_0000_0005;
    assert_eq!(to_bytes(&wide, 16, 0), Ok(vec![5, 0, 0, 0]));
    assert_eq!(round_trip(&wide, 16, 0), Ok(5));
    let wide: isize = 0x1_0000_0000;
    assert_eq!(to_bytes(&wide, 16, 0), Ok(vec![0, 0, 0, 0]));
    assert_eq!(round_trip(&wide, 16, 0), Ok(0));
    let wide: isize = -0x1_0000_0001;
    assert_eq!(to_bytes(&wide, 16, 0), Ok(vec![0xff; 4]));
    assert_eq!(round_trip(&wide, 16, 0), Ok(-1));
    let wide: isize = 0x8000_0000;
    assert_eq!(round_trip(&wide, 16, 0), Ok(i32::MIN as isize));
}

#[test]
fn unit_takes_no_bytes() {
    assert_eq!(to_bytes(&(), 0, 0), Ok(vec![]));
    assert_eq!(round_trip(&(), 0, 0), Ok(()));
    assert_eq!(<() as Archive>::size(), 0);
    assert_eq!(<() as Archive>::align(), 1);
    assert_eq!(access::<()>(&[]), Ok(0));
    assert_eq!(access::<()>(&[1, 2, 3]), Ok(3));
}

#[test]
fn booleans() {
    assert_eq!(to_bytes(&true, 1, 0), Ok(vec![1]));
    assert_eq!(to_bytes(&false, 1, 0), Ok(vec![0]));
    assert_eq!(round_trip(&true, 1, 0), Ok(true));
    assert_eq!(round_trip(&false, 1, 0), Ok(false));
    assert_eq!(from_bytes::<bool>(&[2]), Err(ArchiveError::InvalidValue));
    assert_eq!(from_bytes::<bool>(&[0xff]), Err(ArchiveError::InvalidValue));
    assert_eq!(from_bytes::<bool>(&[]), Err(ArchiveError::OutOfBounds));
}

#[test]
fn characters() {
    assert_eq!(to_bytes(&'A', 4, 0), Ok(vec![0x41, 0, 0, 0]));
    assert_eq!(to_bytes(&'\u{e9}', 4, 0), Ok(vec![0xe9, 0, 0, 0]));
    assert_eq!(to_bytes(&'\u{10ffff}', 4, 0), Ok(vec![0xff, 0xff, 0x10, 0]));
    assert_eq!(round_trip(&'\u{1f600}', 4, 0), Ok('\u{1f600}'));
    assert_eq!(round_trip(&'\0', 4, 0), Ok('\0'));
    assert_eq!(round_trip(&'\u{d7ff}', 4, 0), Ok('\u{d7ff}'));
    assert_eq!(round_trip(&'\u{e000}', 4, 0), Ok('\u{e000}'));
    assert_eq!(from_bytes::<char>(&[0x00, 0xd8, 0, 0]), Err(ArchiveError::InvalidValue));
    assert_eq!(from_bytes::<char>(&[0xff, 0xdf, 0, 0]), Err(ArchiveError::InvalidValue));
    assert_eq!(from_bytes::<char>(&[0, 0, 0x11, 0]), Err(ArchiveError::InvalidValue));
    assert_eq!(from_bytes::<char>(&[0, 0, 0, 1]), Err(ArchiveError::InvalidValue));
    assert_eq!(from_bytes::<char>(&[0x41, 0, 0, 0]), Ok('A'));
}

#[test]
fn widths() {
    assert_eq!(<u8 as Primitive>::width(), 1);
    assert_eq!(<i16 as Primitive>::width(), 2);
    assert_eq!(<char as Primitive>::width(), 4);
    assert_eq!(<u64 as Primitive>::width(), 8);
    assert_eq!(<i64 as Archive>::align(), 8);
    assert_eq!(<bool as Archive>::align(), 1);
}

#[test]
fn records_are_aligned() {
    let mut s = Serializer::new(64, 0).unwrap();
    assert_eq!(serialize_value(&7u8, &mut s), Ok(0));
    assert_eq!(serialize_value(&0x0102_0304i32, &mut s), Ok(4));
    assert_eq!(serialize_value(&true, &mut s), Ok(8));
    assert_eq!(serialize_value(&-1i64, &mut s), Ok(16));
    assert_eq!(serialize_value(&3u16, &mut s), Ok(24));
    let bytes = s.into_writer().into_inner();
    assert_eq!(
        bytes,
        vec![
            7, 0, 0, 0, 4, 3, 2, 1, 1, 0, 0, 0, 0, 0, 0, 0, 0xff, 0xff, 0xff, 0xff, 0xff, 0xff,
            0xff, 0xff, 3, 0
        ]
    );
    assert_eq!(deserialize::<i32>(&bytes, 4), 0x0102_0304);
    assert_eq!(deserialize::<i64>(&bytes, 16), -1);
    assert_eq!(<i32 as Archive>::validate(&bytes, 5), Err(ArchiveError::Unaligned));
    assert_eq!(<i32 as Archive>::validate(&bytes, 24), Err(ArchiveError::OutOfBounds));
    assert_eq!(<i32 as Archive>::validate(&bytes, usize::MAX), Err(ArchiveError::OutOfBounds));
    assert_eq!(<u16 as Archive>::validate(&bytes, 24), Ok(()));
}

#[test]
fn a_full_writer_refuses_the_record() {
    assert_eq!(to_bytes(&1i32, 3, 0), Err(ArchiveError::CapacityExceeded));
    let mut s = Serializer::new(6, 0).unwrap();
    assert_eq!(serialize_value(&1u8, &mut s), Ok(0));
    assert_eq!(serialize_value(&1i32, &mut s), Err(ArchiveError::CapacityExceeded));
    // what was written before the failure stays: here the padding
    assert_eq!(s.pos(), 4);
    assert_eq!(serialize_value(&2u8, &mut s), Ok(4));
    assert_eq!(s.into_writer().into_inner(), vec![1, 0, 0, 0, 2]);
}

#[test]
fn error_messages() {
    assert_eq!(ArchiveError::CapacityExceeded.message(), "the writer is out of capacity");
    assert_eq!(ArchiveError::ScratchExhausted.message(), "the allocator is out of scratch space");
    assert_eq!(
        ArchiveError::OffsetOutOfRange.message(),
        "a relative pointer cannot reach that far"
    );
    assert_eq!(ArchiveError::OutOfBounds.message(), "a record lies outside the buffer");
    assert_eq!(ArchiveError::Unaligned.message(), "a record is not aligned");
    assert_eq!(ArchiveError::InvalidValue.message(), "a record holds no value of its type");
    assert_eq!(
        ArchiveError::InvalidIndex.message(),
        "the index of a map does not match its entries"
    );
}

#[test]
fn readers_that_take_no_zero() {
    assert_eq!(non_zero_usize_at(&[5, 0, 0, 0], 0), Ok(5));
    assert_eq!(non_zero_usize_at(&[0, 0, 0, 0], 0), Err(ArchiveError::InvalidValue));
    assert_eq!(non_zero_usize_at(&[5, 0, 0], 0), Err(ArchiveError::OutOfBounds));
    assert_eq!(non_zero_usize_at(&[0, 5, 0, 0, 0], 1), Err(ArchiveError::Unaligned));
    assert_eq!(non_zero_usize_at(&[0xff; 4], 0), Ok(0xffff_ffff));
    assert_eq!(non_zero_isize_at(&[0xff; 4], 0), Ok(-1));
    assert_eq!(non_zero_isize_at(&[0, 0, 0, 0x80], 0), Ok(i32::MIN as isize));
    assert_eq!(non_zero_isize_at(&[0, 0, 0, 0], 0), Err(ArchiveError::InvalidValue));
    assert_eq!(non_zero_isize_at(&[], 0), Err(ArchiveError::OutOfBounds));
}

#[test]
fn sixteen_byte_integers() {
    let wide: u128 = 0x0102_0304_0506_0708_090a_0b0c_0d0e_0f10;
    assert_eq!(
        to_bytes(&wide, 16, 0),
        Ok(vec![16, 15, 14, 13, 12, 11, 10, 9, 8, 7, 6, 5, 4, 3, 2, 1])
    );
    assert_eq!(to_bytes(&-1i128, 16, 0), Ok(vec![0xff; 16]));
    assert_eq!(
        to_bytes(&i128::MIN, 16, 0),
        Ok(vec![0, 0, 0, 0, 0, 0, 0, 0, 0, 0, 0, 0, 0, 0, 0, 0x80])
    );
    assert_eq!(to_bytes(&-2i128, 16, 0).unwrap()[0], 0xfe);
    assert_eq!(round_trip(&u128::MAX, 16, 0), Ok(u128::MAX));
    assert_eq!(round_trip(&0u128, 16, 0), Ok(0));
    assert_eq!(round_trip(&wide, 16, 0), Ok(wide));
    assert_eq!(round_trip(&i128::MIN, 16, 0), Ok(i128::MIN));
    assert_eq!(round_trip(&i128::MAX, 16, 0), Ok(i128::MAX));
    assert_eq!(round_trip(&-12345i128, 16, 0), Ok(-12345));
    assert_eq!(to_bytes(&wide, 15, 0), Err(ArchiveError::CapacityExceeded));
    assert_eq!(<u128 as Archive>::size(), 16);
    assert_eq!(<i128 as Archive>::align(), 16);
    assert_eq!(<(u8, u128) as Archive>::size(), 32);
    assert_eq!(<(u128, u8) as Archive>::size(), 32);
    assert_eq!(from_bytes::<u128>(&[0; 15]), Err(ArchiveError::OutOfBounds));

    let mut s = Serializer::new(64, 0).unwrap();
    assert_eq!(serialize_value(&1u8, &mut s), Ok(0));
    assert_eq!(serialize_value(&2u128, &mut s), Ok(16));
    let bytes = s.into_writer().into_inner();
    assert_eq!(bytes.len(), 32);
    assert_eq!(deserialize::<u128>(&bytes, 16), 2);
    assert_eq!(<u128 as Archive>::validate(&bytes, 8), Err(ArchiveError::Unaligned));
    assert_eq!(round_trip(&vec![1u128, u128::MAX], 64, 0), Ok(vec![1, u128::MAX]));
}
