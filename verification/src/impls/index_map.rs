//! `indexmap::IndexMap` with `String` keys and `i32` values, archived as an
//! ordered map at a load factor of seven eighths.

use crate::collections::index_map::{
    lemma_map_lookup, lemma_map_moved, lemma_map_out_of_line_len, lemma_map_record_len,
    lemma_map_resolve, lemma_map_resolver_extends, lemma_map_serialized, map_admits,
    map_out_of_line, map_record, map_resolver_at, map_resolver_ok, map_scratch_len,
    map_serialized_len, map_valid_at, map_value_at, pair_keys, ArchivedIndexMap, IndexMapResolver,
    MAP_ALIGN, MAP_SIZE,
};
use crate::collections::index_map::{map_cap, map_table, table_at};
use crate::collections::table::{capacity_for, distinct, entry_keys, lemma_capacity_for, lookup};
use crate::primitive::Primitive;
use crate::rel_ptr::MAX_POSITION;
use crate::ser::writer::lemma_align_up;
use crate::util::{
    archive_bytes, archive_value, is_archive, lemma_archive_is_valid, lemma_archived, root_end,
    root_of, root_pos,
};
use crate::error::ArchiveError;
use crate::ser::serializer::Serializer;
use crate::traits::{Archive, Field};
use crate::vec::{deep_seq, vec_archived_value};
use indexmap::IndexMap;
use vstd::prelude::*;

verus! {

/// `indexmap::IndexMap`: a hash map that keeps the order of insertion.
#[verifier::external_type_specification]
#[verifier::external_body]
#[verifier::reject_recursive_types(K)]
#[verifier::reject_recursive_types(V)]
#[verifier::reject_recursive_types(S)]
pub struct ExIndexMap<K, V, S>(indexmap::IndexMap<K, V, S>);

/// The entries that a map holds, in the order of their insertion.
pub uninterp spec fn index_map_entries(map: IndexMap<String, i32>) -> Seq<(Seq<char>, i32)>;

/// The maps that are archived here.
pub type StringMap = IndexMap<String, i32>;

/// The numerator of the load factor of an archived `IndexMap`.
pub const LOAD_NUMERATOR: usize = 7;

/// The denominator of the load factor of an archived `IndexMap`.
pub const LOAD_DENOMINATOR: usize = 8;

/// The most entries that room is made for ahead of their insertion.
pub const MAX_RESERVED: usize = 0x0100_0000;

/// The keys of entries.
pub open spec fn keys_of(entries: Seq<(Seq<char>, i32)>) -> Seq<Seq<char>> {
    Seq::new(entries.len(), |i: int| entries[i].0)
}

/// `entries` has an entry with the key `key`.
pub open spec fn has_key(entries: Seq<(Seq<char>, i32)>, key: Seq<char>) -> bool {
    exists|i: int| 0 <= i < entries.len() && (#[trigger] entries[i]).0 == key
}

/// Where in `entries` the entry with the key `key` stands.
pub open spec fn key_index(entries: Seq<(Seq<char>, i32)>, key: Seq<char>) -> int {
    choose|i: int| 0 <= i < entries.len() && (#[trigger] entries[i]).0 == key
}

/// `entries`, after the key `key` has been given the value `value`: the
/// entry of an old key keeps its place, that of a new key comes last.
pub open spec fn inserted(entries: Seq<(Seq<char>, i32)>, key: Seq<char>, value: i32) -> Seq<
    (Seq<char>, i32),
> {
    if has_key(entries, key) {
        entries.update(key_index(entries, key), (key, value))
    } else {
        entries.push((key, value))
    }
}

/// The value that `entries` has for the key `key`, if it has one.
pub open spec fn value_of(entries: Seq<(Seq<char>, i32)>, key: Seq<char>) -> Option<i32> {
    if has_key(entries, key) {
        Some(entries[key_index(entries, key)].1)
    } else {
        None
    }
}

/// `entry` is one of `entries`.
pub open spec fn has_entry(entries: Seq<(Seq<char>, i32)>, entry: (Seq<char>, i32)) -> bool {
    exists|j: int| 0 <= j < entries.len() && #[trigger] entries[j] == entry
}

/// Two lists of entries hold the same: as many entries, and each entry of
/// the second is one of the first, in whatever order.
pub open spec fn same_entries(a: Seq<(Seq<char>, i32)>, b: Seq<(Seq<char>, i32)>) -> bool {
    &&& a.len() == b.len()
    &&& forall|i: int| 0 <= i < b.len() ==> has_entry(a, #[trigger] b[i])
}

/// An empty map with room for `n` entries: `IndexMap::with_capacity`.
#[verifier::external_body]
fn with_capacity(n: usize) -> (map: IndexMap<String, i32>)
    requires
        n <= MAX_RESERVED,
    ensures
        index_map_entries(map) == Seq::<(Seq<char>, i32)>::empty(),
{
    IndexMap::with_capacity(n)
}

/// The number of entries of a map: `IndexMap::len`. No two entries of a map
/// have the same key.
#[verifier::external_body]
fn len(map: &IndexMap<String, i32>) -> (n: usize)
    ensures
        n == index_map_entries(*map).len(),
        distinct(keys_of(index_map_entries(*map)).take(n as int)),
{
    map.len()
}

/// The entry at `index` in insertion order: `IndexMap::get_index`.
#[verifier::external_body]
fn get_index(map: &IndexMap<String, i32>, index: usize) -> (r: Option<(&String, &i32)>)
    ensures
        index >= index_map_entries(*map).len() ==> r.is_none(),
        index < index_map_entries(*map).len() ==> r.is_some(),
        index < index_map_entries(*map).len() ==> r.unwrap().0@ == index_map_entries(
            *map,
        )[index as int].0,
        index < index_map_entries(*map).len() ==> *r.unwrap().1 == index_map_entries(
            *map,
        )[index as int].1,
{
    map.get_index(index)
}

/// Gives `key` the value `value`: `IndexMap::insert`. An old key keeps its
/// place in the order and its old value is returned; a new key comes last.
#[verifier::external_body]
fn insert(map: &mut IndexMap<String, i32>, key: String, value: i32) -> (r: Option<i32>)
    ensures
        index_map_entries(*final(map)) == inserted(index_map_entries(*old(map)), key@, value),
        r == value_of(index_map_entries(*old(map)), key@),
{
    map.insert(key, value)
}

/// The entries of `map`, in insertion order.
pub fn entries_of(map: &IndexMap<String, i32>) -> (entries: Vec<(String, i32)>)
    ensures
        deep_seq(entries@) == index_map_entries(*map),
        distinct(entry_keys(entries@)),
{
    let n: usize = len(map);
    let ghost all = index_map_entries(*map);
    proof {
        assert(keys_of(all).take(n as int) =~= keys_of(all));
    }
    let mut entries: Vec<(String, i32)> = Vec::new();
    let mut i: usize = 0;
    while i < n
        invariant
            i <= n,
            n == all.len(),
            all == index_map_entries(*map),
            entries@.len() == i,
            forall|k: int| 0 <= k < i ==> (#[trigger] entries@[k]).model() == all[k],
        decreases n - i,
    {
        match get_index(map, i) {
            Some((key, value)) => {
                entries.push((key.clone(), *value));
            },
            None => {},
        }
        i = i + 1;
    }
    proof {
        assert(deep_seq(entries@) =~= all);
        assert forall|a: int, b: int| 0 <= a < b < entries@.len() implies entry_keys(entries@)[a]
            != entry_keys(entries@)[b] by {
            assert(keys_of(all)[a] != keys_of(all)[b]);
            assert(entries@[a].model() == all[a]);
            assert(entries@[b].model() == all[b]);
        }
    }
    entries
}

/// What a map holds after the first `n` of `entries` have been inserted in
/// turn: a key that comes again keeps its place and takes the later value.
pub open spec fn inserted_all(entries: Seq<(Seq<char>, i32)>, n: nat) -> Seq<(Seq<char>, i32)>
    decreases n,
{
    if n == 0 {
        Seq::empty()
    } else {
        inserted(inserted_all(entries, (n - 1) as nat), entries[n - 1].0, entries[n - 1].1)
    }
}

/// Entries with distinct keys are held as they are inserted, in that order.
pub proof fn lemma_inserted_distinct(entries: Seq<(Seq<char>, i32)>, n: nat)
    requires
        n <= entries.len(),
        distinct(keys_of(entries)),
    ensures
        inserted_all(entries, n) == entries.take(n as int),
    decreases n,
{
    if n == 0 {
        assert(entries.take(0) =~= Seq::<(Seq<char>, i32)>::empty());
    } else {
        let m = (n - 1) as nat;
        lemma_inserted_distinct(entries, m);
        let before = entries.take(m as int);
        let key = entries[m as int].0;
        if has_key(before, key) {
            let j = key_index(before, key);
            assert(keys_of(entries)[j] != keys_of(entries)[m as int]);
            assert(before[j] == entries[j]);
            assert(false);
        }
        assert(entries.take(n as int) =~= before.push(entries[m as int]));
    }
}

/// The map that takes `entries` in turn.
pub fn from_entries(entries: &Vec<(String, i32)>) -> (map: IndexMap<String, i32>)
    ensures
        index_map_entries(map) == inserted_all(deep_seq(entries@), entries@.len()),
        distinct(entry_keys(entries@)) ==> index_map_entries(map) == deep_seq(entries@),
{
    let n: usize = entries.len();
    let room: usize = if n <= MAX_RESERVED {
        n
    } else {
        0
    };
    let mut map: IndexMap<String, i32> = with_capacity(room);
    let ghost all = deep_seq(entries@);
    let mut i: usize = 0;
    while i < n
        invariant
            i <= n,
            n == entries@.len(),
            all == deep_seq(entries@),
            index_map_entries(map) == inserted_all(all, i as nat),
        decreases n - i,
    {
        let key: String = entries[i].0.clone();
        let value: i32 = entries[i].1;
        let _ = insert(&mut map, key, value);
        i = i + 1;
    }
    proof {
        if distinct(entry_keys(entries@)) {
            assert(keys_of(all) =~= entry_keys(entries@));
            lemma_inserted_distinct(all, n as nat);
            assert(all.take(n as int) =~= all);
        }
    }
    map
}

impl Archive for IndexMap<String, i32> {
    type Model = Seq<(Seq<char>, i32)>;

    type Resolver = IndexMapResolver;

    open spec fn model(&self) -> Seq<(Seq<char>, i32)> {
        index_map_entries(*self)
    }

    open spec fn spec_size() -> nat {
        16
    }

    open spec fn spec_align() -> nat {
        4
    }

    open spec fn valid_at(buf: Seq<u8>, pos: int) -> bool {
        map_valid_at::<String, i32>(buf, pos)
    }

    open spec fn value_at(buf: Seq<u8>, pos: int) -> Seq<(Seq<char>, i32)> {
        map_value_at::<String, i32>(buf, pos)
    }

    open spec fn admits(v: Seq<(Seq<char>, i32)>) -> bool {
        map_admits::<String, i32>(v)
    }

    open spec fn archived_value(v: Seq<(Seq<char>, i32)>) -> Seq<(Seq<char>, i32)> {
        vec_archived_value::<(String, i32)>(v)
    }

    open spec fn resolver_ok(buf: Seq<u8>, v: Seq<(Seq<char>, i32)>, r: IndexMapResolver) -> bool {
        map_resolver_ok::<String, i32>(buf, v, r)
    }

    open spec fn record(v: Seq<(Seq<char>, i32)>, pos: int, r: IndexMapResolver) -> Seq<u8> {
        map_record(v.len(), pos, r)
    }

    open spec fn out_of_line(v: Seq<(Seq<char>, i32)>, start: int) -> Seq<u8> {
        map_out_of_line::<String, i32>(
            v,
            start,
            capacity_for(v.len(), LOAD_NUMERATOR as nat, LOAD_DENOMINATOR as nat),
        )
    }

    open spec fn resolver_at(v: Seq<(Seq<char>, i32)>, start: int) -> IndexMapResolver {
        map_resolver_at::<String, i32>(
            v,
            start,
            capacity_for(v.len(), LOAD_NUMERATOR as nat, LOAD_DENOMINATOR as nat),
        )
    }

    open spec fn serialized_len(v: Seq<(Seq<char>, i32)>, start: int) -> nat {
        map_serialized_len::<String, i32>(
            v,
            start,
            capacity_for(v.len(), LOAD_NUMERATOR as nat, LOAD_DENOMINATOR as nat),
        )
    }

    open spec fn scratch_len(v: Seq<(Seq<char>, i32)>) -> nat {
        map_scratch_len::<String, i32>(
            v,
            capacity_for(v.len(), LOAD_NUMERATOR as nat, LOAD_DENOMINATOR as nat),
        )
    }

    proof fn lemma_layout() {
        assert(16nat % 4nat == 0);
    }

    proof fn lemma_out_of_line_len(v: Seq<(Seq<char>, i32)>, start: int) {
        lemma_map_out_of_line_len::<String, i32>(
            v,
            start,
            capacity_for(v.len(), LOAD_NUMERATOR as nat, LOAD_DENOMINATOR as nat),
        );
    }

    proof fn lemma_serialized(before: Seq<u8>, v: Seq<(Seq<char>, i32)>) {
        lemma_capacity_for(v.len(), LOAD_NUMERATOR as nat, LOAD_DENOMINATOR as nat);
        lemma_map_serialized::<String, i32>(
            before,
            v,
            capacity_for(v.len(), LOAD_NUMERATOR as nat, LOAD_DENOMINATOR as nat),
        );
    }

    proof fn lemma_record_len(v: Seq<(Seq<char>, i32)>, pos: int, r: IndexMapResolver) {
        lemma_map_record_len(v.len(), pos, r);
    }

    proof fn lemma_valid_bounds(buf: Seq<u8>, pos: int) {
    }

    proof fn lemma_moved(buf: Seq<u8>, pos: int, other: Seq<u8>, delta: int) {
        lemma_map_moved::<String, i32>(buf, pos, other, delta);
    }

    proof fn lemma_resolver_extends(
        buf: Seq<u8>,
        longer: Seq<u8>,
        v: Seq<(Seq<char>, i32)>,
        r: IndexMapResolver,
    ) {
        lemma_map_resolver_extends::<String, i32>(buf, longer, v, r);
    }

    proof fn lemma_resolve(
        before: Seq<u8>,
        buf: Seq<u8>,
        pos: int,
        v: Seq<(Seq<char>, i32)>,
        r: IndexMapResolver,
    ) {
        lemma_map_resolve::<String, i32>(before, buf, pos, v, r);
    }

    fn size() -> (n: usize) {
        MAP_SIZE
    }

    fn align() -> (a: usize) {
        MAP_ALIGN
    }

    fn serialize(&self, s: &mut Serializer) -> (res: Result<IndexMapResolver, ArchiveError>) {
        let entries: Vec<(String, i32)> = entries_of(self);
        ArchivedIndexMap::<String, i32>::serialize_from_entries(
            entries.as_slice(),
            (LOAD_NUMERATOR, LOAD_DENOMINATOR),
            s,
        )
    }

    fn resolve(&self, pos: usize, resolver: IndexMapResolver, out: &mut Vec<u8>) {
        proof {
            let b = choose|b: Seq<u8>| #[trigger]
                map_resolver_ok::<String, i32>(b, self.model(), resolver) && b.len() <= pos;
            assert(self.model().len() * 12 >= 0);
            crate::tuple::lemma_pair_layout::<String, i32>();
            assert(self.model().len() * crate::tuple::pair_size::<String, i32>() >= 0)
                by (nonlinear_arith)
                requires
                    self.model().len() >= 0,
                    crate::tuple::pair_size::<String, i32>() >= 0,
            ;
        }
        ArchivedIndexMap::<String, i32>::resolve_from_len(len(self), pos, resolver, out)
    }

    fn validate(buf: &[u8], pos: usize) -> (r: Result<(), ArchiveError>) {
        ArchivedIndexMap::<String, i32>::validate(buf, pos)
    }

    fn deserialize(buf: &[u8], pos: usize) -> (v: IndexMap<String, i32>) {
        let entries: Vec<(String, i32)> = ArchivedIndexMap::<String, i32>::deserialize_entries(
            buf,
            pos,
        );
        proof {
            if map_value_at::<String, i32>(buf@, pos as int).len() > 0 {
                lemma_map_lookup::<String, i32>(buf@, pos as int, 0);
            }
            assert(entry_keys(entries@) =~= pair_keys::<String, i32>(
                map_value_at::<String, i32>(buf@, pos as int),
            ));
        }
        from_entries(&entries)
    }
}

/// Ordered-map law: the archive of a map holds the entries of the map in
/// the order of their insertion, and the lookup of the key of each entry
/// finds that entry.
pub proof fn lemma_archived_map(v: Seq<(Seq<char>, i32)>, i: int)
    requires
        map_admits::<String, i32>(v),
        root_end::<StringMap>(v, 0) <= MAX_POSITION,
        0 <= i < v.len(),
    ensures
        is_archive::<StringMap>(archive_bytes::<StringMap>(v, 0)),
        archive_value::<StringMap>(archive_bytes::<StringMap>(v, 0)) == v,
        lookup::<String>(
            table_at(
                archive_bytes::<StringMap>(v, 0),
                map_table(archive_bytes::<StringMap>(v, 0), root_pos::<StringMap>(v, 0)),
                map_cap(archive_bytes::<StringMap>(v, 0), root_pos::<StringMap>(v, 0)),
            ),
            keys_of(v),
            v[i].0,
        ) == Some(i),
{
    let bytes = archive_bytes::<StringMap>(v, 0);
    let root = root_pos::<StringMap>(v, 0);
    let cap = capacity_for(v.len(), LOAD_NUMERATOR as nat, LOAD_DENOMINATOR as nat);
    lemma_archive_is_valid::<StringMap>(v);
    lemma_capacity_for(v.len(), LOAD_NUMERATOR as nat, LOAD_DENOMINATOR as nat);
    lemma_align_up(<StringMap as Archive>::serialized_len(v, 0) as int, 4);
    assert(4 * cap <= MAX_POSITION);
    assert forall|k: int| 0 <= k < v.len() implies <(String, i32) as Archive>::archived_value(
        #[trigger] v[k],
    ) == v[k] by {
        Primitive::lemma_round_trip(v[k].1);
    }
    assert(vec_archived_value::<(String, i32)>(v) =~= v);
    assert(root_of::<StringMap>(bytes.len() as int) == root) by {
        lemma_archived::<StringMap>(Seq::empty(), v);
        assert(Seq::<u8>::empty() + bytes =~= bytes);
    }
    lemma_map_lookup::<String, i32>(bytes, root, i);
    assert(keys_of(v) =~= pair_keys::<String, i32>(v));
}

impl Field for IndexMap<String, i32> {
    proof fn lemma_field_size() {
    }
}

/// Whether the map archived at `pos` and the map `other` hold the same
/// entries: as many, and for each key of `other` the same value. The order
/// of the entries does not count.
pub fn eq(buf: &[u8], pos: usize, other: &IndexMap<String, i32>) -> (same: bool)
    requires
        map_valid_at::<String, i32>(buf@, pos as int),
    ensures
        same == same_entries(
            map_value_at::<String, i32>(buf@, pos as int),
            index_map_entries(*other),
        ),
{
    let n: usize = len(other);
    let ghost archived = map_value_at::<String, i32>(buf@, pos as int);
    let ghost native = index_map_entries(*other);
    if ArchivedIndexMap::<String, i32>::len(buf, pos) != n {
        return false;
    }
    let mut i: usize = 0;
    while i < n
        invariant
            i <= n,
            n == native.len(),
            n == archived.len(),
            native == index_map_entries(*other),
            archived == map_value_at::<String, i32>(buf@, pos as int),
            map_valid_at::<String, i32>(buf@, pos as int),
            forall|k: int| 0 <= k < i ==> has_entry(archived, #[trigger] native[k]),
        decreases n - i,
    {
        match get_index(other, i) {
            Some((key, value)) => {
                match ArchivedIndexMap::<String, i32>::get(buf, pos, key) {
                    Some(at) => {
                        let held: i32 = <i32 as Archive>::deserialize(buf, at);
                        if held != *value {
                            proof {
                                let j = choose|j: int|
                                    0 <= j < archived.len() && #[trigger] archived[j] == (
                                        key@,
                                        held,
                                    );
                                if has_entry(archived, native[i as int]) {
                                    let m = choose|m: int|
                                        0 <= m < archived.len() && #[trigger] archived[m]
                                            == native[i as int];
                                    lemma_map_lookup::<String, i32>(buf@, pos as int, j);
                                    let keys = pair_keys::<String, i32>(archived);
                                    assert(keys[j] == keys[m]);
                                    assert(false);
                                }
                            }
                            return false;
                        }
                    },
                    None => {
                        proof {
                            if has_entry(archived, native[i as int]) {
                                let m = choose|m: int|
                                    0 <= m < archived.len() && #[trigger] archived[m]
                                        == native[i as int];
                                assert(archived[m].0 == key@);
                                assert(false);
                            }
                        }
                        return false;
                    },
                }
            },
            None => {},
        }
        i = i + 1;
    }
    true
}

} // verus!
