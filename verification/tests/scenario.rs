use rkyv::error::ArchiveError;
use rkyv::ser::serializer::Serializer;
use rkyv::util::{access, access_unchecked, deserialize, from_bytes, serialize_into, to_bytes};
use rkyv::vec::ArchivedVec;

#[test]
fn sequence_of_four_integers() {
    let value: Vec<i32> = vec![10, 20, 40, 80];
    let bytes = to_bytes(&value, 256, 256).unwrap();
    assert_eq!(
        bytes,
        vec![10, 0, 0, 0, 20, 0, 0, 0, 40, 0, 0, 0, 80, 0, 0, 0, 0xf0, 0xff, 0xff, 0xff, 4, 0, 0, 0]
    );
    let root = access::<Vec<i32>>(&bytes).unwrap();
    assert_eq!(root, 16);
    assert_eq!(ArchivedVec::<i32>::len(&bytes, root), 4);
    let third = ArchivedVec::<i32>::get(&bytes, root, 2).unwrap();
    assert_eq!(deserialize::<i32>(&bytes, third), 40);
    assert_eq!(ArchivedVec::<i32>::get(&bytes, root, 4), None);
    let back: Vec<i32> = deserialize(&bytes, root);
    assert_eq!(back, value);
    assert_eq!(from_bytes::<Vec<i32>>(&bytes), Ok(value));
}

#[test]
fn capacity_is_respected() {
    let value: Vec<i32> = vec![10, 20, 40, 80];
    assert_eq!(to_bytes(&value, 23, 0), Err(ArchiveError::CapacityExceeded));
    assert!(to_bytes(&value, 24, 0).is_ok());
    assert_eq!(to_bytes(&value, 0x8000_0000, 0), Err(ArchiveError::OffsetOutOfRange));
}

#[test]
fn serializer_keeps_what_was_written() {
    let s = Serializer::new(256, 256).unwrap();
    let s = serialize_into(&7i32, s).unwrap();
    let s = serialize_into(&vec![1i32, 2, 3], s).unwrap();
    assert_eq!(s.allocator.in_use(), 0);
    let end = s.pos();
    let bytes = s.into_writer().into_inner();
    assert_eq!(end, bytes.len());
    assert_eq!(&bytes[0..4], &[7, 0, 0, 0]);
    let root = access_unchecked::<Vec<i32>>(&bytes);
    let back: Vec<i32> = deserialize(&bytes, root);
    assert_eq!(back, vec![1, 2, 3]);
}
