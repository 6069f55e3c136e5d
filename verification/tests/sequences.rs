use rkyv::error::ArchiveError;
use rkyv::hash::ArchiveKey;
use rkyv::impls::small_vec::InlineVec;
use rkyv::ser::serializer::Serializer;
use rkyv::string::ArchivedString;
use rkyv::traits::Archive;
use rkyv::util::{
    access, access_unchecked, deserialize, from_bytes, round_trip, serialize_into, to_bytes,
};
use rkyv::vec::{ArchivedVec, VecResolver};
use arrayvec::ArrayVec;

fn items(bytes: &[u8], root: usize) -> Vec<i32> {
    let n = ArchivedVec::<i32>::len(bytes, root);
    (0..n)
        .map(|i| deserialize::<i32>(bytes, ArchivedVec::<i32>::get(bytes, root, i).unwrap()))
        .collect()
}

#[test]
fn array_vec() {
    let value: ArrayVec<i32, 4> = ArrayVec::from([10, 20, 40, 80]);

    let serializer = serialize_into(&value, Serializer::new(256, 256).unwrap()).unwrap();
    let end = serializer.pos();
    let result = serializer.into_writer().into_inner();
    let archived = access_unchecked::<Vec<i32>>(&result[0..end]);
    assert_eq!(items(&result[0..end], archived), &[10, 20, 40, 80]);

    let deserialized = deserialize::<ArrayVec<i32, 4>>(&result[0..end], archived);
    assert_eq!(value, deserialized);
}

#[test]
fn small_vec() {
    let value = InlineVec::from_slice(&[10, 20, 40, 80]);

    let serializer = serialize_into(&value, Serializer::new(256, 256).unwrap()).unwrap();
    let end = serializer.pos();
    let result = serializer.into_writer().into_inner();
    let archived = access_unchecked::<Vec<i32>>(&result[0..end]);
    assert_eq!(items(&result[0..end], archived), &[10, 20, 40, 80]);

    let deserialized = deserialize::<InlineVec>(&result[0..end], archived);
    assert_eq!(value.to_vec(), deserialized.to_vec());
    assert_eq!(deserialized.len(), 4);
}

#[test]
fn small_vec_grows_past_its_inline_room() {
    let many: Vec<i32> = (0..25).collect();
    let value = InlineVec::from_slice(&many);
    assert_eq!(value.len(), 25);
    assert_eq!(value.to_vec(), many);
    let back = round_trip(&value, 1024, 0).unwrap();
    assert_eq!(back.to_vec(), many);
    assert_eq!(InlineVec::from_slice(&[]).to_vec(), Vec::<i32>::new());
}

#[test]
fn array_vec_takes_no_more_than_it_holds() {
    let five: Vec<i32> = vec![1, 2, 3, 4, 5];
    let bytes = to_bytes(&five, 64, 0).unwrap();
    assert!(access::<Vec<i32>>(&bytes).is_ok());
    assert_eq!(access::<ArrayVec<i32, 4>>(&bytes), Err(ArchiveError::InvalidValue));

    let mut partly: ArrayVec<i32, 4> = ArrayVec::new();
    partly.push(-1);
    partly.push(7);
    assert_eq!(round_trip(&partly, 64, 0), Ok(partly.clone()));
    let empty: ArrayVec<i32, 4> = ArrayVec::new();
    assert_eq!(round_trip(&empty, 64, 0), Ok(empty));
    let bytes = to_bytes(&partly, 64, 0).unwrap();
    assert_eq!(from_bytes::<Vec<i32>>(&bytes), Ok(vec![-1, 7]));
}

#[test]
fn empty_sequence() {
    let value: Vec<i32> = Vec::new();
    let bytes = to_bytes(&value, 8, 0).unwrap();
    assert_eq!(bytes, vec![0, 0, 0, 0, 0, 0, 0, 0]);
    let root = access::<Vec<i32>>(&bytes).unwrap();
    assert_eq!(ArchivedVec::<i32>::len(&bytes, root), 0);
    assert_eq!(ArchivedVec::<i32>::get(&bytes, root, 0), None);
    assert_eq!(from_bytes::<Vec<i32>>(&bytes), Ok(value));
}

#[test]
fn sequence_of_units() {
    let value = vec![(); 5];
    let bytes = to_bytes(&value, 8, 0).unwrap();
    assert_eq!(bytes, vec![0, 0, 0, 0, 5, 0, 0, 0]);
    assert_eq!(from_bytes::<Vec<()>>(&bytes), Ok(value));
}

#[test]
fn sequence_of_bytes_is_padded() {
    let value: Vec<u8> = vec![1, 2, 3];
    let bytes = to_bytes(&value, 64, 0).unwrap();
    assert_eq!(bytes, vec![1, 2, 3, 0, 0xfc, 0xff, 0xff, 0xff, 3, 0, 0, 0]);
    assert_eq!(from_bytes::<Vec<u8>>(&bytes), Ok(value));
}

#[test]
fn sequence_of_wide_items_is_aligned() {
    let mut s = Serializer::new(64, 0).unwrap();
    s.writer.write(&[0xaa]).unwrap();
    let s = serialize_into(&vec![1i64, -1], s).unwrap();
    let bytes = s.into_writer().into_inner();
    assert_eq!(bytes.len(), 8 + 16 + 8);
    assert_eq!(&bytes[0..8], &[0xaa, 0, 0, 0, 0, 0, 0, 0]);
    let root = access::<Vec<i64>>(&bytes).unwrap();
    assert_eq!(root, 24);
    assert_eq!(ArchivedVec::<i64>::first(&bytes, root), 8);
    assert_eq!(deserialize::<Vec<i64>>(&bytes, root), vec![1, -1]);
}

#[test]
fn strings() {
    let value = String::from("h\u{e9}llo");
    let bytes = to_bytes(&value, 64, 0).unwrap();
    assert_eq!(
        bytes,
        vec![b'h', 0xc3, 0xa9, b'l', b'l', b'o', 0, 0, 0xf8, 0xff, 0xff, 0xff, 6, 0, 0, 0]
    );
    let root = access::<String>(&bytes).unwrap();
    assert_eq!(root, 8);
    assert_eq!(ArchivedString::len(&bytes, root), 6);
    assert_eq!(ArchivedString::as_bytes(&bytes, root), "h\u{e9}llo".as_bytes());
    assert_eq!(ArchivedString::as_str(&bytes, root), "h\u{e9}llo");
    assert_eq!(deserialize::<String>(&bytes, root), value);
    assert_eq!(round_trip(&String::new(), 8, 0), Ok(String::new()));
    assert_eq!(to_bytes(&value, 15, 0), Err(ArchiveError::CapacityExceeded));
}

#[test]
fn strings_must_be_utf8() {
    let bytes = to_bytes(&String::from("abcd"), 64, 0).unwrap();
    assert!(access::<String>(&bytes).is_ok());
    let mut damaged = bytes.clone();
    damaged[1] = 0xff;
    assert_eq!(access::<String>(&damaged), Err(ArchiveError::InvalidValue));
    let mut damaged = bytes.clone();
    damaged[3] = 0xc3;
    assert_eq!(access::<String>(&damaged), Err(ArchiveError::InvalidValue));
    let mut damaged = bytes.clone();
    damaged[8] = 5;
    assert_eq!(access::<String>(&damaged), Err(ArchiveError::OutOfBounds));
    let mut damaged = bytes.clone();
    damaged[4] = 0xf0;
    assert_eq!(access::<String>(&damaged), Err(ArchiveError::OutOfBounds));
    let mut damaged = bytes.clone();
    damaged[4] = 4;
    assert_eq!(access::<String>(&damaged), Err(ArchiveError::OutOfBounds));
}

#[test]
fn string_keys() {
    let key = String::from("foobar");
    assert_eq!(key.hash(), 0x8594_4171_f739_67e8);
    assert_eq!(String::new().hash(), 0xcbf2_9ce4_8422_2325);
    let bytes = to_bytes(&key, 64, 0).unwrap();
    let root = access::<String>(&bytes).unwrap();
    assert!(key.eq_at(&bytes, root));
    assert!(!String::from("foobaz").eq_at(&bytes, root));
    assert!(!String::from("fooba").eq_at(&bytes, root));
    assert!(!String::new().eq_at(&bytes, root));
}

#[test]
fn sequence_of_strings() {
    let value = vec![String::from("ab"), String::from("c")];
    let resolvers = 2 * std::mem::size_of::<VecResolver>();
    let bytes = to_bytes(&value, 64, resolvers).unwrap();
    assert_eq!(
        bytes,
        vec![
            b'a', b'b', b'c', 0, // the text, and padding
            0xfc, 0xff, 0xff, 0xff, 2, 0, 0, 0, // "ab" at 0, seen from 4
            0xf6, 0xff, 0xff, 0xff, 1, 0, 0, 0, // "c" at 2, seen from 12
            0xf0, 0xff, 0xff, 0xff, 2, 0, 0, 0, // the records at 4, seen from 20
        ]
    );
    let root = access::<Vec<String>>(&bytes).unwrap();
    let second = ArchivedVec::<String>::get(&bytes, root, 1).unwrap();
    assert_eq!(second, 12);
    assert_eq!(ArchivedString::as_str(&bytes, second), "c");
    assert_eq!(from_bytes::<Vec<String>>(&bytes), Ok(value.clone()));

    assert_eq!(to_bytes(&value, 64, resolvers - 1), Err(ArchiveError::ScratchExhausted));
    assert_eq!(to_bytes(&value, 27, resolvers), Err(ArchiveError::CapacityExceeded));
    assert_eq!(to_bytes(&value, 1, resolvers), Err(ArchiveError::CapacityExceeded));
}

#[test]
fn scratch_space_is_given_back() {
    let value = vec![vec![String::from("a")], vec![], vec![String::from("b"), String::from("c")]];
    let word = std::mem::size_of::<VecResolver>();
    let mut s = Serializer::new(256, 3 * word + 2 * word).unwrap();
    let resolver = value.serialize(&mut s).unwrap();
    assert_eq!(s.allocator.in_use(), 0);
    assert_eq!(resolver.pos % 4, 0);
    let mut s = Serializer::new(256, 3 * word + 2 * word - 1).unwrap();
    assert_eq!(value.serialize(&mut s), Err(ArchiveError::ScratchExhausted));
    assert_eq!(s.allocator.in_use(), 0);
    let mut s = Serializer::new(20, 64).unwrap();
    assert_eq!(value.serialize(&mut s), Err(ArchiveError::CapacityExceeded));
    assert_eq!(s.allocator.in_use(), 0);
    assert_eq!(round_trip(&value, 256, 64), Ok(value));
}

#[test]
fn nested_sequences() {
    let value: Vec<Vec<i32>> = vec![vec![1, 2], vec![], vec![3]];
    let back = round_trip(&value, 256, 256).unwrap();
    assert_eq!(back, value);
    let bytes = to_bytes(&value, 256, 256).unwrap();
    let root = access::<Vec<Vec<i32>>>(&bytes).unwrap();
    let inner = ArchivedVec::<Vec<i32>>::get(&bytes, root, 2).unwrap();
    assert_eq!(ArchivedVec::<i32>::len(&bytes, inner), 1);
    let item = ArchivedVec::<i32>::get(&bytes, inner, 0).unwrap();
    assert_eq!(deserialize::<i32>(&bytes, item), 3);
}

#[test]
fn resolving_writes_the_record_only() {
    let value: Vec<i32> = vec![5, 6];
    let mut out = vec![0xee];
    ArchivedVec::<i32>::resolve_from_slice(&value, 32, VecResolver { pos: 8 }, &mut out);
    assert_eq!(out, vec![0xee, 0xe8, 0xff, 0xff, 0xff, 2, 0, 0, 0]);
    let mut out = Vec::new();
    ArchivedVec::<u8>::resolve_from_len(0x0102, 4, VecResolver { pos: 4 }, &mut out);
    assert_eq!(out, vec![0, 0, 0, 0, 2, 1, 0, 0]);
}
