use rkyv::collections::index_map::ArchivedIndexMap;
use rkyv::error::ArchiveError;
use rkyv::impls::index_map::{entries_of, eq, from_entries};
use rkyv::string::ArchivedString;
use rkyv::traits::Archive;
use rkyv::util::{access, access_unchecked, deserialize, from_bytes, to_bytes};
use indexmap::IndexMap;

type Archived = ArchivedIndexMap<String, i32>;

fn sample() -> IndexMap<String, i32> {
    let mut value = IndexMap::new();
    value.insert(String::from("foo"), 10);
    value.insert(String::from("bar"), 20);
    value.insert(String::from("baz"), 40);
    value.insert(String::from("bat"), 80);
    value
}

#[test]
fn index_map() {
    let value = sample();

    let result = to_bytes(&value, 4096, 4096).unwrap();
    let archived = access_unchecked::<IndexMap<String, i32>>(result.as_ref());

    assert_eq!(value.len(), Archived::len(&result, archived));
    for (k, v) in value.iter() {
        let (ak, av) = Archived::get_key_value(&result, archived, k).unwrap();
        assert_eq!(k, ArchivedString::as_str(&result, ak));
        assert_eq!(*v, deserialize::<i32>(&result, av));
    }

    let deserialized = deserialize::<IndexMap<String, i32>>(&result, archived);
    assert_eq!(value, deserialized);
}

#[test]
fn validate_index_map() {
    let value = sample();

    let result = to_bytes(&value, 4096, 4096).unwrap();
    access::<IndexMap<String, i32>>(result.as_ref())
        .expect("failed to validate archived index map");
}

#[test]
fn lookup_and_order() {
    let value = sample();
    let bytes = to_bytes(&value, 4096, 4096).unwrap();
    let root = access::<IndexMap<String, i32>>(&bytes).unwrap();

    let at = Archived::get(&bytes, root, &String::from("baz")).unwrap();
    assert_eq!(deserialize::<i32>(&bytes, at), 40);
    assert_eq!(Archived::get_index(&bytes, root, &String::from("baz")), Some(2));
    assert_eq!(Archived::get(&bytes, root, &String::from("qux")), None);
    assert_eq!(Archived::get_index(&bytes, root, &String::from("")), None);

    let expected = [("foo", 10), ("bar", 20), ("baz", 40), ("bat", 80)];
    for (i, (key, val)) in expected.iter().enumerate() {
        let (k, v) = Archived::entry(&bytes, root, i).unwrap();
        assert_eq!(ArchivedString::as_str(&bytes, k), *key);
        assert_eq!(deserialize::<i32>(&bytes, v), *val);
    }
    assert_eq!(Archived::entry(&bytes, root, 4), None);

    let entries = Archived::deserialize_entries(&bytes, root);
    let names: Vec<&str> = entries.iter().map(|(k, _)| k.as_str()).collect();
    assert_eq!(names, vec!["foo", "bar", "baz", "bat"]);
}

#[test]
fn equality_ignores_order() {
    let value = sample();
    let bytes = to_bytes(&value, 4096, 4096).unwrap();
    let root = access::<IndexMap<String, i32>>(&bytes).unwrap();
    assert!(eq(&bytes, root, &value));

    let mut shuffled = IndexMap::new();
    shuffled.insert(String::from("bat"), 80);
    shuffled.insert(String::from("baz"), 40);
    shuffled.insert(String::from("bar"), 20);
    shuffled.insert(String::from("foo"), 10);
    assert!(eq(&bytes, root, &shuffled));

    let mut other = sample();
    other.insert(String::from("baz"), 41);
    assert!(!eq(&bytes, root, &other));
    other.insert(String::from("baz"), 40);
    assert!(eq(&bytes, root, &other));
    other.insert(String::from("new"), 1);
    assert!(!eq(&bytes, root, &other));
    other.swap_remove("foo");
    assert!(!eq(&bytes, root, &other));
}

#[test]
fn map_layout() {
    let value = sample();
    let bytes = to_bytes(&value, 4096, 4096).unwrap();
    // four strings of three bytes, four entries of twelve bytes, eight slots
    // of four bytes, and the record of sixteen bytes
    assert_eq!(bytes.len(), 12 + 48 + 32 + 16);
    assert_eq!(&bytes[0..12], b"foobarbazbat");
    let root = access::<IndexMap<String, i32>>(&bytes).unwrap();
    assert_eq!(root, 92);
    // the number of slots: the smallest power of two that takes four
    // entries at seven eighths
    assert_eq!(&bytes[104..108], &[8, 0, 0, 0]);
    assert_eq!(<IndexMap<String, i32> as Archive>::size(), 16);
}

#[test]
fn empty_map() {
    let value: IndexMap<String, i32> = IndexMap::new();
    let bytes = to_bytes(&value, 64, 64).unwrap();
    assert_eq!(bytes.len(), 4 + 16);
    let root = access::<IndexMap<String, i32>>(&bytes).unwrap();
    assert_eq!(Archived::len(&bytes, root), 0);
    assert_eq!(Archived::get(&bytes, root, &String::from("foo")), None);
    assert_eq!(from_bytes::<IndexMap<String, i32>>(&bytes), Ok(value));
}

#[test]
fn map_resources() {
    let value = sample();
    assert_eq!(to_bytes(&value, 107, 4096), Err(ArchiveError::CapacityExceeded));
    assert!(to_bytes(&value, 108, 4096).is_ok());
    // the resolvers of four entries, then the table of eight slots
    let resolvers = 4 * std::mem::size_of::<(rkyv::vec::VecResolver, ())>();
    assert_eq!(to_bytes(&value, 4096, resolvers - 1), Err(ArchiveError::ScratchExhausted));
    assert!(to_bytes(&value, 4096, resolvers.max(32)).is_ok());
    assert_eq!(to_bytes(&value, 4096, 31), Err(ArchiveError::ScratchExhausted));
}

#[test]
fn damaged_index_is_refused() {
    let value = sample();
    let bytes = to_bytes(&value, 4096, 4096).unwrap();
    // swap two slots of the table: every entry is still there, but the
    // index no longer leads to each of them
    let mut any = false;
    for slot in 0..8 {
        let mut damaged = bytes.clone();
        let at = 60 + 4 * slot;
        if damaged[at] != 0xff {
            damaged[at] ^= 1;
            assert_eq!(
                access::<IndexMap<String, i32>>(&damaged),
                Err(ArchiveError::InvalidIndex)
            );
            any = true;
        }
    }
    assert!(any);
    let mut damaged = bytes.clone();
    damaged[104] = 0;
    assert_eq!(access::<IndexMap<String, i32>>(&damaged), Err(ArchiveError::InvalidIndex));
    let mut damaged = bytes.clone();
    damaged[0] = 0xff;
    assert_eq!(access::<IndexMap<String, i32>>(&damaged), Err(ArchiveError::InvalidValue));
    let mut damaged = bytes.clone();
    damaged[104] = 64;
    assert_eq!(access::<IndexMap<String, i32>>(&damaged), Err(ArchiveError::OutOfBounds));
}

#[test]
fn entries_round_trip() {
    let value = sample();
    let entries = entries_of(&value);
    assert_eq!(entries.len(), 4);
    assert_eq!(entries[2], (String::from("baz"), 40));
    assert_eq!(from_entries(&entries), value);
}

#[test]
fn entries_are_inserted_in_turn() {
    let entries = vec![
        (String::from("a"), 1),
        (String::from("b"), 2),
        (String::from("a"), 3),
        (String::from("c"), 4),
        (String::from("b"), 5),
    ];
    let map = from_entries(&entries);
    let held: Vec<(&str, i32)> = map.iter().map(|(k, v)| (k.as_str(), *v)).collect();
    assert_eq!(held, vec![("a", 3), ("b", 5), ("c", 4)]);
    assert_eq!(from_entries(&Vec::new()).len(), 0);
}
