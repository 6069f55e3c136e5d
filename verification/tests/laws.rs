use rkyv::error::ArchiveError;
use rkyv::string::ArchivedString;
use rkyv::traits::Archive;
use rkyv::util::{access, deserialize, from_bytes, round_trip, to_bytes};
use rkyv::vec::ArchivedVec;
use indexmap::IndexMap;

fn map() -> IndexMap<String, i32> {
    let mut value = IndexMap::new();
    for (i, name) in ["one", "two", "three", "four", "five", "six"].iter().enumerate() {
        value.insert(String::from(*name), i as i32 * 3 - 4);
    }
    value
}

#[test]
fn what_is_archived_comes_back() {
    assert_eq!(round_trip(&vec![10i32, 20, 40, 80], 64, 0), Ok(vec![10, 20, 40, 80]));
    assert_eq!(round_trip(&map(), 4096, 4096), Ok(map()));
    let texts = vec![String::from(""), String::from("\u{1f600}"), String::from("plain")];
    assert_eq!(round_trip(&texts, 256, 256), Ok(texts.clone()));
    let pairs = vec![(String::from("x"), 1u64), (String::from("y"), u64::MAX)];
    assert_eq!(round_trip(&pairs, 256, 256), Ok(pairs.clone()));
    assert_eq!(round_trip(&vec![10i32], 11, 0), Err(ArchiveError::CapacityExceeded));
}

#[test]
fn the_view_shows_the_fields_of_the_value() {
    let value = vec![String::from("first"), String::from("second"), String::from("third")];
    let bytes = to_bytes(&value, 256, 256).unwrap();
    let root = access::<Vec<String>>(&bytes).unwrap();
    assert_eq!(ArchivedVec::<String>::len(&bytes, root), value.len());
    for (i, text) in value.iter().enumerate() {
        let at = ArchivedVec::<String>::get(&bytes, root, i).unwrap();
        assert_eq!(ArchivedString::as_str(&bytes, at), text);
        assert_eq!(ArchivedString::len(&bytes, at), text.len());
    }
}

#[test]
fn an_archive_can_be_moved() {
    let value = map();
    let bytes = to_bytes(&value, 4096, 4096).unwrap();
    let root = access::<IndexMap<String, i32>>(&bytes).unwrap();
    for base in [0usize, 8, 16, 64, 4096] {
        let mut memory = vec![0xa5u8; base];
        memory.extend_from_slice(&bytes);
        memory.extend_from_slice(&[0x5a; 13]);
        let at = base + root;
        assert_eq!(<IndexMap<String, i32> as Archive>::validate(&memory, at), Ok(()));
        assert_eq!(deserialize::<IndexMap<String, i32>>(&memory, at), value);
    }
    let texts = vec![String::from("moved"), String::from("again")];
    let bytes = to_bytes(&texts, 256, 256).unwrap();
    let root = access::<Vec<String>>(&bytes).unwrap();
    let mut memory = vec![1u8; 24];
    memory.extend_from_slice(&bytes);
    assert_eq!(deserialize::<Vec<String>>(&memory, 24 + root), texts);
    let second = ArchivedVec::<String>::get(&memory, 24 + root, 1).unwrap();
    assert_eq!(ArchivedString::as_str(&memory, second), "again");
}

#[test]
fn a_move_that_breaks_alignment_is_noticed() {
    let bytes = to_bytes(&vec![1i32, 2], 64, 0).unwrap();
    let root = access::<Vec<i32>>(&bytes).unwrap();
    let mut memory = vec![0u8; 2];
    memory.extend_from_slice(&bytes);
    assert_eq!(<Vec<i32> as Archive>::validate(&memory, 2 + root), Err(ArchiveError::Unaligned));
}

#[test]
fn truncated_archives_are_refused() {
    let bytes = to_bytes(&map(), 4096, 4096).unwrap();
    for keep in 0..bytes.len() {
        let result = access::<IndexMap<String, i32>>(&bytes[0..keep]);
        assert!(matches!(
            result,
            Err(ArchiveError::OutOfBounds)
                | Err(ArchiveError::Unaligned)
                | Err(ArchiveError::InvalidValue)
                | Err(ArchiveError::InvalidIndex)
        ));
    }
    let texts = vec![String::from("abc"), String::from("defgh")];
    let bytes = to_bytes(&texts, 256, 256).unwrap();
    for keep in 0..bytes.len() {
        assert!(from_bytes::<Vec<String>>(&bytes[0..keep]).is_err());
    }
    assert!(from_bytes::<Vec<String>>(&bytes).is_ok());
}

#[test]
fn changed_archives_are_checked_without_harm() {
    let value = map();
    let bytes = to_bytes(&value, 4096, 4096).unwrap();
    let mut refused = 0;
    for at in 0..bytes.len() {
        for flip in [0x01u8, 0x80, 0xff] {
            let mut changed = bytes.clone();
            changed[at] ^= flip;
            match from_bytes::<IndexMap<String, i32>>(&changed) {
                Ok(back) => assert_eq!(back.len(), value.len()),
                Err(e) => {
                    assert!(matches!(
                        e,
                        ArchiveError::OutOfBounds
                            | ArchiveError::Unaligned
                            | ArchiveError::InvalidValue
                            | ArchiveError::InvalidIndex
                    ));
                    refused += 1;
                },
            }
        }
    }
    assert!(refused > 0);
    let texts = vec![String::from("abc"), String::from("defgh")];
    let bytes = to_bytes(&texts, 256, 256).unwrap();
    for at in 0..bytes.len() {
        let mut changed = bytes.clone();
        changed[at] = changed[at].wrapping_add(0x7f);
        let _ = from_bytes::<Vec<String>>(&changed);
    }
}

#[test]
fn pointers_may_not_point_forward() {
    // a sequence record at 0 whose items would lie behind it
    let bytes = vec![8, 0, 0, 0, 1, 0, 0, 0, 7, 0, 0, 0];
    assert_eq!(<Vec<i32> as Archive>::validate(&bytes, 0), Err(ArchiveError::OutOfBounds));
    // the same record after its items
    let bytes = vec![7, 0, 0, 0, 0xfc, 0xff, 0xff, 0xff, 1, 0, 0, 0];
    assert_eq!(from_bytes::<Vec<i32>>(&bytes), Ok(vec![7]));
    // a length that runs over the record
    let bytes = vec![7, 0, 0, 0, 0xfc, 0xff, 0xff, 0xff, 2, 0, 0, 0];
    assert_eq!(from_bytes::<Vec<i32>>(&bytes), Err(ArchiveError::OutOfBounds));
    // items that are not aligned
    let bytes = vec![0, 7, 0, 0, 0, 0, 0, 0, 0xf9, 0xff, 0xff, 0xff, 1, 0, 0, 0];
    assert_eq!(from_bytes::<Vec<i32>>(&bytes), Err(ArchiveError::Unaligned));
}
