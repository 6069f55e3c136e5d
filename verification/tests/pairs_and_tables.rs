use rkyv::collections::index_map::{ArchivedIndexMap, IndexMapResolver};
use rkyv::collections::table::{build_index, table_capacity, EMPTY_SLOT};
use rkyv::error::ArchiveError;
use rkyv::hash::ArchiveKey;
use rkyv::ser::serializer::Serializer;
use rkyv::traits::Archive;
use rkyv::util::{from_bytes, round_trip, to_bytes};

#[test]
fn pairs_are_laid_out_in_order() {
    assert_eq!(to_bytes(&(7u8, 0x0102_0304u32), 64, 0), Ok(vec![7, 0, 0, 0, 4, 3, 2, 1]));
    assert_eq!(to_bytes(&(0x0102_0304i32, 7u8), 64, 0), Ok(vec![4, 3, 2, 1, 7, 0, 0, 0]));
    assert_eq!(to_bytes(&(true, false), 64, 0), Ok(vec![1, 0]));
    assert_eq!(to_bytes(&((), 9u16), 64, 0), Ok(vec![9, 0]));
    assert_eq!(
        to_bytes(&(1u8, -1i64), 64, 0),
        Ok(vec![1, 0, 0, 0, 0, 0, 0, 0, 0xff, 0xff, 0xff, 0xff, 0xff, 0xff, 0xff, 0xff])
    );
    assert_eq!(<(u8, u32) as Archive>::size(), 8);
    assert_eq!(<(u8, u32) as Archive>::align(), 4);
    assert_eq!(<(u16, u8) as Archive>::size(), 4);
    assert_eq!(<(u8, i64) as Archive>::align(), 8);
    assert_eq!(<(String, i32) as Archive>::size(), 12);
}

#[test]
fn pairs_come_back() {
    assert_eq!(round_trip(&(7u8, -5i32), 64, 0), Ok((7, -5)));
    let named = (String::from("key"), 12i32);
    let bytes = to_bytes(&named, 64, 0).unwrap();
    assert_eq!(
        bytes,
        vec![b'k', b'e', b'y', 0, 0xfc, 0xff, 0xff, 0xff, 3, 0, 0, 0, 12, 0, 0, 0]
    );
    assert_eq!(from_bytes::<(String, i32)>(&bytes), Ok(named));
    let both = (String::from("a"), vec![1u8, 2]);
    assert_eq!(round_trip(&both, 64, 0), Ok(both.clone()));
    assert_eq!(from_bytes::<(bool, u8)>(&[2, 0]), Err(ArchiveError::InvalidValue));
    assert_eq!(from_bytes::<(u8, bool)>(&[0, 3]), Err(ArchiveError::InvalidValue));
    assert_eq!(from_bytes::<(u8, u32)>(&[0; 7]), Err(ArchiveError::OutOfBounds));
}

#[test]
fn capacity_of_a_table() {
    assert_eq!(table_capacity(0, 7, 8, 1 << 20), Some(1));
    assert_eq!(table_capacity(1, 7, 8, 1 << 20), Some(2));
    assert_eq!(table_capacity(3, 7, 8, 1 << 20), Some(4));
    assert_eq!(table_capacity(4, 7, 8, 1 << 20), Some(8));
    assert_eq!(table_capacity(7, 7, 8, 1 << 20), Some(8));
    assert_eq!(table_capacity(8, 7, 8, 1 << 20), Some(16));
    assert_eq!(table_capacity(14, 7, 8, 1 << 20), Some(16));
    assert_eq!(table_capacity(15, 7, 8, 1 << 20), Some(32));
    assert_eq!(table_capacity(4, 1, 2, 1 << 20), Some(8));
    assert_eq!(table_capacity(5, 1, 2, 1 << 20), Some(16));
    assert_eq!(table_capacity(4, 1, 1, 1 << 20), Some(8));
    assert_eq!(table_capacity(3, 1, 1, 1 << 20), Some(4));
    assert_eq!(table_capacity(3, 2, 1, 1 << 20), Some(4));
    assert_eq!(table_capacity(3, 1, 0, 1 << 20), Some(4));
    assert_eq!(table_capacity(8, 7, 8, 16), Some(16));
    assert_eq!(table_capacity(8, 7, 8, 15), None);
    assert_eq!(table_capacity(usize::MAX, 7, 8, usize::MAX), None);
    assert_eq!(table_capacity(usize::MAX, 1, usize::MAX, usize::MAX), None);
}

fn probe(table: &[u32], key: &str) -> Option<u32> {
    let cap = table.len() as u64;
    let mut slot = (String::from(key).hash() % cap) as usize;
    for _ in 0..table.len() {
        if table[slot] == EMPTY_SLOT {
            return None;
        }
        let _ = key;
        slot = (slot + 1) % table.len();
    }
    None
}

#[test]
fn index_puts_each_entry_on_its_probe_path() {
    let names = ["foo", "bar", "baz", "bat", "a", "b", "c"];
    let entries: Vec<(String, i32)> =
        names.iter().enumerate().map(|(i, n)| (String::from(*n), i as i32)).collect();
    for cap in [8usize, 16, 9, 64] {
        let table = build_index(&entries, cap);
        assert_eq!(table.len(), cap);
        let mut seen = vec![false; entries.len()];
        for slot in &table {
            if *slot != EMPTY_SLOT {
                assert!(!seen[*slot as usize]);
                seen[*slot as usize] = true;
            }
        }
        assert!(seen.iter().all(|s| *s));
        for (i, (key, _)) in entries.iter().enumerate() {
            let mut slot = (key.hash() % cap as u64) as usize;
            loop {
                assert_ne!(table[slot], EMPTY_SLOT);
                if table[slot] as usize == i {
                    break;
                }
                slot = (slot + 1) % cap;
            }
        }
        assert_eq!(probe(&table, "zzz-not-there"), None);
    }
    let none: Vec<(String, i32)> = Vec::new();
    assert_eq!(build_index(&none, 1), vec![EMPTY_SLOT]);
}

#[test]
fn a_full_table_but_one_still_finds_every_key() {
    let entries: Vec<(String, u8)> = (0..7).map(|i| (format!("key{}", i), i as u8)).collect();
    let mut s = Serializer::new(1024, 1024).unwrap();
    let resolver =
        ArchivedIndexMap::<String, u8>::serialize_from_entries(&entries, (1, 1), &mut s).unwrap();
    assert_eq!(resolver.cap, 8);
    assert_eq!(s.allocator.in_use(), 0);
    let pos = s.writer.align(4).unwrap();
    let mut record = Vec::new();
    ArchivedIndexMap::<String, u8>::resolve_from_len(entries.len(), pos, resolver, &mut record);
    assert_eq!(record.len(), 16);
    s.writer.write(&record).unwrap();
    let bytes = s.into_writer().into_inner();
    assert_eq!(ArchivedIndexMap::<String, u8>::validate(&bytes, pos), Ok(()));
    assert_eq!(ArchivedIndexMap::<String, u8>::len(&bytes, pos), 7);
    for (i, (key, value)) in entries.iter().enumerate() {
        assert_eq!(ArchivedIndexMap::<String, u8>::get_index(&bytes, pos, key), Some(i));
        assert_eq!(ArchivedIndexMap::<String, u8>::probe(&bytes, pos, key), Some(i));
        let at = ArchivedIndexMap::<String, u8>::get(&bytes, pos, key).unwrap();
        assert_eq!(bytes[at], *value);
    }
    for absent in ["key7", "", "KEY0", "key"] {
        assert_eq!(
            ArchivedIndexMap::<String, u8>::get(&bytes, pos, &String::from(absent)),
            None
        );
    }
    assert_eq!(ArchivedIndexMap::<String, u8>::deserialize_entries(&bytes, pos), entries);
}

#[test]
fn load_factor_decides_the_size_of_the_table() {
    let entries: Vec<(String, i32)> = (0..4).map(|i| (format!("{}", i), i)).collect();
    for (factor, cap) in [((7usize, 8usize), 8usize), ((1, 1), 8), ((1, 2), 8), ((1, 4), 16)] {
        let mut s = Serializer::new(1024, 1024).unwrap();
        let resolver =
            ArchivedIndexMap::<String, i32>::serialize_from_entries(&entries, factor, &mut s)
                .unwrap();
        assert_eq!(
            resolver,
            IndexMapResolver { entries: 4, table: 52, cap }
        );
        assert_eq!(s.pos(), 52 + 4 * cap);
    }
    let mut s = Serializer::new(1024, 31).unwrap();
    assert_eq!(
        ArchivedIndexMap::<String, i32>::serialize_from_entries(&entries, (7, 8), &mut s),
        Err(ArchiveError::ScratchExhausted)
    );
    assert_eq!(s.allocator.in_use(), 0);
    let mut s = Serializer::new(83, 1024).unwrap();
    assert_eq!(
        ArchivedIndexMap::<String, i32>::serialize_from_entries(&entries, (7, 8), &mut s),
        Err(ArchiveError::CapacityExceeded)
    );
    assert_eq!(s.allocator.in_use(), 0);
}

#[test]
fn integer_keys() {
    assert_eq!(7u8.hash(), rkyv::hash::hash_bytes(&[7]));
    assert_eq!((-1i32).hash(), rkyv::hash::hash_bytes(&[0xff; 4]));
    assert_eq!(0x0102u16.hash(), rkyv::hash::hash_bytes(&[2, 1]));
    let entries: Vec<(u32, String)> =
        (0..20u32).map(|i| (i * 7 + 1, format!("value {}", i))).collect();
    let mut s = Serializer::new(4096, 4096).unwrap();
    let resolver =
        ArchivedIndexMap::<u32, String>::serialize_from_entries(&entries, (7, 8), &mut s).unwrap();
    assert_eq!(resolver.cap, 32);
    let pos = s.writer.align(4).unwrap();
    let mut record = Vec::new();
    ArchivedIndexMap::<u32, String>::resolve_from_len(entries.len(), pos, resolver, &mut record);
    s.writer.write(&record).unwrap();
    let bytes = s.into_writer().into_inner();
    assert_eq!(ArchivedIndexMap::<u32, String>::validate(&bytes, pos), Ok(()));
    for (i, (key, value)) in entries.iter().enumerate() {
        assert_eq!(ArchivedIndexMap::<u32, String>::get_index(&bytes, pos, key), Some(i));
        let (k, v) = ArchivedIndexMap::<u32, String>::get_key_value(&bytes, pos, key).unwrap();
        assert!(key.eq_at(&bytes, k));
        assert_eq!(rkyv::string::ArchivedString::as_str(&bytes, v), value);
    }
    assert_eq!(ArchivedIndexMap::<u32, String>::get(&bytes, pos, &0), None);
    assert_eq!(ArchivedIndexMap::<u32, String>::get(&bytes, pos, &2), None);
    assert_eq!(ArchivedIndexMap::<u32, String>::deserialize_entries(&bytes, pos), entries);
}
