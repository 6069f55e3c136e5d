//! The archived ordered map: the entries as an archived sequence of pairs,
//! in the order in which they were inserted, and a hash index over them.
//! The record holds the sequence record of the entries, then a relative
//! pointer to the table of the index and the number of its slots.

use crate::collections::table::{
    build_index, capacity_for, distinct, entry_keys, find, index_of, index_ok, lemma_index_of,
    lemma_lookup, lookup, next_slot, start_slot, table_capacity, EMPTY_SLOT,
};
use crate::endian::{
    le_bytes, le_value, lemma_le_bytes_len, lemma_le_round_trip_small, lemma_pow256_values, read_le,
    to_twos, write_le,
};
use crate::error::ArchiveError;
use crate::hash::ArchiveKey;
use crate::rel_ptr::{
    distance, emplace, lemma_offset_round_trip, offset_bytes, offset_of_bytes, read_offset,
    MAX_POSITION,
};
use crate::ser::serializer::Serializer;
use crate::ser::writer::{align_up, lemma_align_up, padding};
use crate::traits::{embeds, lemma_shift_keeps_alignment, Archive, Field, MAX_ALIGN};
use crate::tuple::{larger, lemma_pair_layout, pair_size};
use crate::vec::{
    deep_seq, element_pos, lemma_element_pos_bound, lemma_vec_moved, lemma_vec_out_of_line_len,
    lemma_vec_record_len, lemma_vec_resolve, lemma_vec_resolver_extends, lemma_vec_serialized,
    vec_admits, vec_archived_value, vec_elements_start, vec_first, vec_len, vec_out_of_line,
    vec_record, vec_resolver_ok, vec_scratch_len, vec_serialized_len, vec_valid_at, vec_value_at,
    ArchivedVec, VecResolver,
};
use vstd::prelude::*;

verus! {

/// The size in bytes of the record of a map.
pub const MAP_SIZE: usize = 16;

/// The alignment of the record of a map.
pub const MAP_ALIGN: usize = 4;

/// What serializing a map leaves for its record: the positions of the
/// first entry record and of the table, and the number of slots of the
/// table.
#[derive(Clone, Copy, Debug, PartialEq, Eq, Structural)]
pub struct IndexMapResolver {
    pub entries: usize,
    pub table: usize,
    pub cap: usize,
}

/// The position of the table of the map record at `pos`.
pub open spec fn map_table(buf: Seq<u8>, pos: int) -> int {
    pos + 8 + offset_of_bytes(buf.subrange(pos + 8, pos + 12))
}

/// The number of slots of the table of the map record at `pos`.
pub open spec fn map_cap(buf: Seq<u8>, pos: int) -> nat {
    le_value(buf.subrange(pos + 12, pos + 16))
}

/// What the slot `j` of the table at `table` holds.
pub open spec fn slot_at(buf: Seq<u8>, table: int, j: int) -> u32 {
    le_value(buf.subrange(table + 4 * j, table + 4 * j + 4)) as u32
}

/// The table of `cap` slots at `table`.
pub open spec fn table_at(buf: Seq<u8>, table: int, cap: nat) -> Seq<u32> {
    Seq::new(cap, |j: int| slot_at(buf, table, j))
}

/// The keys of entries, in the order of the entries.
pub open spec fn pair_keys<K: Archive, V: Archive>(entries: Seq<(K::Model, V::Model)>) -> Seq<
    K::Model,
> {
    Seq::new(entries.len(), |i: int| entries[i].0)
}

/// The entries that the map record at `pos` stands for, in insertion order.
pub open spec fn map_value_at<K: ArchiveKey, V: Field>(buf: Seq<u8>, pos: int) -> Seq<
    (K::Model, V::Model),
> {
    vec_value_at::<(K, V)>(buf, pos)
}

/// The map record at `pos` is well formed as far as positions go: the
/// entries are a well-formed sequence, and the table lies before the
/// record, aligned.
pub open spec fn map_laid_out<K: ArchiveKey, V: Field>(buf: Seq<u8>, pos: int) -> bool {
    &&& vec_valid_at::<(K, V)>(buf, pos)
    &&& pos + 16 <= buf.len()
    &&& 0 <= map_table(buf, pos)
    &&& map_table(buf, pos) % 4 == 0
    &&& map_table(buf, pos) + 4 * map_cap(buf, pos) <= pos
}

/// The map record at `pos` is well formed: it is laid out well, and its
/// index leads to each of its entries.
pub open spec fn map_valid_at<K: ArchiveKey, V: Field>(buf: Seq<u8>, pos: int) -> bool {
    &&& map_laid_out::<K, V>(buf, pos)
    &&& index_ok::<K>(
        table_at(buf, map_table(buf, pos), map_cap(buf, pos)),
        pair_keys::<K, V>(map_value_at::<K, V>(buf, pos)),
    )
}

/// The entry records and the table of `v` stand in `buf` where `r` says,
/// and the table leads to each entry.
pub open spec fn map_resolver_ok<K: ArchiveKey, V: Field>(
    buf: Seq<u8>,
    v: Seq<(K::Model, V::Model)>,
    r: IndexMapResolver,
) -> bool {
    &&& vec_resolver_ok::<(K, V)>(buf, v, VecResolver { pos: r.entries })
    &&& r.table % 4 == 0
    &&& r.table + 4 * r.cap <= buf.len()
    &&& v.len() < r.cap
    &&& index_ok::<K>(table_at(buf, r.table as int, r.cap as nat), pair_keys::<K, V>(v))
}

/// `v` is the entries of a map: each entry is a value of its type, and no
/// key occurs twice.
pub open spec fn map_admits<K: ArchiveKey, V: Field>(v: Seq<(K::Model, V::Model)>) -> bool {
    vec_admits::<(K, V)>(v) && distinct(pair_keys::<K, V>(v))
}

/// The record of a map of `len` entries for the position `pos`.
pub open spec fn map_record(len: nat, pos: int, r: IndexMapResolver) -> Seq<u8> {
    vec_record(len, pos, VecResolver { pos: r.entries }) + offset_bytes(
        distance(pos + 8, r.table as int),
    ) + le_bytes(r.cap as nat, 4)
}

/// The position of the table when `v` is serialized from `start` on: after
/// the entries, at the next aligned position.
pub open spec fn map_table_start<K: ArchiveKey, V: Field>(
    v: Seq<(K::Model, V::Model)>,
    start: int,
) -> int {
    align_up(start + vec_serialized_len::<(K, V)>(v, start), 4)
}

/// The bytes of the first `n` slots of a table.
pub open spec fn table_bytes(table: Seq<u32>, n: nat) -> Seq<u8>
    decreases n,
{
    if n == 0 {
        Seq::empty()
    } else {
        table_bytes(table, (n - 1) as nat) + le_bytes(table[n - 1] as nat, 4)
    }
}

/// The bytes that serializing `v` writes from `start` on, with a table of
/// `cap` slots: the entries as a sequence, padding, and the table.
pub open spec fn map_out_of_line<K: ArchiveKey, V: Field>(
    v: Seq<(K::Model, V::Model)>,
    start: int,
    cap: nat,
) -> Seq<u8> {
    vec_out_of_line::<(K, V)>(v, start) + padding(
        map_table_start::<K, V>(v, start) - (start + vec_serialized_len::<(K, V)>(v, start)),
    ) + table_bytes(index_of::<K>(pair_keys::<K, V>(v), cap), cap)
}

/// The resolver that serializing `v` from `start` on returns, with a table
/// of `cap` slots.
pub open spec fn map_resolver_at<K: ArchiveKey, V: Field>(
    v: Seq<(K::Model, V::Model)>,
    start: int,
    cap: nat,
) -> IndexMapResolver {
    IndexMapResolver {
        entries: vec_elements_start::<(K, V)>(v, start) as usize,
        table: map_table_start::<K, V>(v, start) as usize,
        cap: cap as usize,
    }
}

/// The number of bytes that serializing `v` writes from `start` on, with a
/// table of `cap` slots.
pub open spec fn map_serialized_len<K: ArchiveKey, V: Field>(
    v: Seq<(K::Model, V::Model)>,
    start: int,
    cap: nat,
) -> nat {
    (map_table_start::<K, V>(v, start) + 4 * cap - start) as nat
}

/// The scratch space that serializing `v` holds, with a table of `cap`
/// slots: what the entries take, and after that the table while it is
/// built.
pub open spec fn map_scratch_len<K: ArchiveKey, V: Field>(
    v: Seq<(K::Model, V::Model)>,
    cap: nat,
) -> nat {
    larger(vec_scratch_len::<(K, V)>(v), 4 * cap)
}

pub proof fn lemma_table_bytes_len(table: Seq<u32>, n: nat)
    ensures
        table_bytes(table, n).len() == 4 * n,
    decreases n,
{
    if n > 0 {
        lemma_table_bytes_len(table, (n - 1) as nat);
        lemma_le_bytes_len(table[n - 1] as nat, 4);
    }
}

/// Serializing a map writes as many bytes as its length says.
pub proof fn lemma_map_out_of_line_len<K: ArchiveKey, V: Field>(
    v: Seq<(K::Model, V::Model)>,
    start: int,
    cap: nat,
)
    requires
        0 <= start,
    ensures
        map_out_of_line::<K, V>(v, start, cap).len() == map_serialized_len::<K, V>(v, start, cap),
{
    lemma_vec_out_of_line_len::<(K, V)>(v, start);
    lemma_align_up(start + vec_serialized_len::<(K, V)>(v, start), 4);
    lemma_table_bytes_len(index_of::<K>(pair_keys::<K, V>(v), cap), cap);
}

/// The bytes of the slot `j` stand among the bytes of the first `n` slots
/// at their place.
pub proof fn lemma_table_bytes_at(table: Seq<u32>, n: nat, j: int)
    requires
        0 <= j < n,
    ensures
        4 * j + 4 <= table_bytes(table, n).len(),
        table_bytes(table, n).subrange(4 * j, 4 * j + 4) == le_bytes(table[j] as nat, 4),
    decreases n,
{
    let m = (n - 1) as nat;
    lemma_table_bytes_len(table, m);
    lemma_table_bytes_len(table, n);
    lemma_le_bytes_len(table[m as int] as nat, 4);
    if j == m {
        assert(table_bytes(table, n).subrange(4 * j, 4 * j + 4) =~= le_bytes(
            table[j] as nat,
            4,
        ));
    } else {
        lemma_table_bytes_at(table, m, j);
        assert(table_bytes(table, n).subrange(4 * j, 4 * j + 4) =~= table_bytes(
            table,
            m,
        ).subrange(4 * j, 4 * j + 4));
    }
}

/// What serializing a map writes is what resolving it builds on: the entry
/// records and the table stand where the resolver says, and the table leads
/// to each entry.
pub proof fn lemma_map_serialized<K: ArchiveKey, V: Field>(
    before: Seq<u8>,
    v: Seq<(K::Model, V::Model)>,
    cap: nat,
)
    requires
        map_admits::<K, V>(v),
        v.len() < cap,
        before.len() + map_serialized_len::<K, V>(v, before.len() as int, cap) <= MAX_POSITION,
    ensures
        map_resolver_ok::<K, V>(
            before + map_out_of_line::<K, V>(v, before.len() as int, cap),
            v,
            map_resolver_at::<K, V>(v, before.len() as int, cap),
        ),
{
    let start = before.len() as int;
    let keys = pair_keys::<K, V>(v);
    let table = index_of::<K>(keys, cap);
    let listed = before + vec_out_of_line::<(K, V)>(v, start);
    let at = map_table_start::<K, V>(v, start);
    let fin = before + map_out_of_line::<K, V>(v, start, cap);
    let r = map_resolver_at::<K, V>(v, start, cap);
    lemma_vec_out_of_line_len::<(K, V)>(v, start);
    lemma_align_up(start + vec_serialized_len::<(K, V)>(v, start), 4);
    lemma_table_bytes_len(table, cap);
    lemma_vec_serialized::<(K, V)>(before, v);
    lemma_index_of::<K>(keys, cap);
    lemma_pow256_values();
    assert(fin =~= listed + padding(at - listed.len()) + table_bytes(table, cap));
    lemma_vec_resolver_extends::<(K, V)>(listed, fin, v, VecResolver { pos: r.entries });
    assert forall|j: int| 0 <= j < cap implies slot_at(fin, at, j) == table[j] by {
        lemma_table_bytes_at(table, cap, j);
        lemma_le_round_trip_small(table[j] as nat, 4);
        assert(fin.subrange(at + 4 * j, at + 4 * j + 4) =~= table_bytes(table, cap).subrange(
            4 * j,
            4 * j + 4,
        ));
    }
    assert(table_at(fin, at, cap) =~= table);
}

/// The record of a map has sixteen bytes.
pub proof fn lemma_map_record_len(len: nat, pos: int, r: IndexMapResolver)
    ensures
        map_record(len, pos, r).len() == 16,
{
    lemma_vec_record_len(len, pos, VecResolver { pos: r.entries });
    lemma_le_bytes_len(to_twos(distance(pos + 8, r.table as int), 4), 4);
    lemma_le_bytes_len(r.cap as nat, 4);
}

/// What the slots of a table hold does not depend on where the bytes up to
/// its end are moved.
pub proof fn lemma_table_moved(
    buf: Seq<u8>,
    table: int,
    cap: nat,
    other: Seq<u8>,
    delta: int,
)
    requires
        0 <= table,
        embeds(buf, table + 4 * cap, other, delta),
    ensures
        table_at(other, table + delta, cap) == table_at(buf, table, cap),
{
    assert forall|j: int| 0 <= j < cap implies slot_at(other, table + delta, j) == slot_at(
        buf,
        table,
        j,
    ) by {
        assert(other.subrange(table + delta + 4 * j, table + delta + 4 * j + 4) =~= buf.subrange(
            table + 4 * j,
            table + 4 * j + 4,
        ));
    }
    assert(table_at(other, table + delta, cap) =~= table_at(buf, table, cap));
}

/// A map record means the same wherever the bytes up to its end are moved.
pub proof fn lemma_map_moved<K: ArchiveKey, V: Field>(
    buf: Seq<u8>,
    pos: int,
    other: Seq<u8>,
    delta: int,
)
    requires
        map_valid_at::<K, V>(buf, pos),
        embeds(buf, pos + 16, other, delta),
        delta % (MAX_ALIGN as int) == 0,
    ensures
        map_valid_at::<K, V>(other, pos + delta),
        map_value_at::<K, V>(other, pos + delta) == map_value_at::<K, V>(buf, pos),
{
    lemma_vec_moved::<(K, V)>(buf, pos, other, delta);
    assert(other.subrange(pos + delta + 8, pos + delta + 12) =~= buf.subrange(pos + 8, pos + 12));
    assert(other.subrange(pos + delta + 12, pos + delta + 16) =~= buf.subrange(
        pos + 12,
        pos + 16,
    ));
    lemma_shift_keeps_alignment(map_table(buf, pos), delta, 4);
    lemma_table_moved(buf, map_table(buf, pos), map_cap(buf, pos), other, delta);
}

/// The resolver of a map stays good when more is written.
pub proof fn lemma_map_resolver_extends<K: ArchiveKey, V: Field>(
    buf: Seq<u8>,
    longer: Seq<u8>,
    v: Seq<(K::Model, V::Model)>,
    r: IndexMapResolver,
)
    requires
        map_resolver_ok::<K, V>(buf, v, r),
        buf.is_prefix_of(longer),
    ensures
        map_resolver_ok::<K, V>(longer, v, r),
{
    lemma_vec_resolver_extends::<(K, V)>(buf, longer, v, VecResolver { pos: r.entries });
    lemma_table_moved(buf, r.table as int, r.cap as nat, longer, 0);
}

/// The keys of what an archive holds of entries are the keys of the
/// entries.
pub proof fn lemma_archived_keys<K: ArchiveKey, V: Field>(v: Seq<(K::Model, V::Model)>)
    requires
        v.len() < 0x1_0000_0000,
    ensures
        pair_keys::<K, V>(vec_archived_value::<(K, V)>(v)) == pair_keys::<K, V>(v),
{
    assert forall|i: int| 0 <= i < v.len() implies K::archived_value(v[i].0) == v[i].0 by {
        K::lemma_key_exact(v[i].0);
    }
    assert(pair_keys::<K, V>(vec_archived_value::<(K, V)>(v)) =~= pair_keys::<K, V>(v));
}

/// Once the record of a map stands after its entry records and its table,
/// the buffer holds the map there.
pub proof fn lemma_map_resolve<K: ArchiveKey, V: Field>(
    before: Seq<u8>,
    buf: Seq<u8>,
    pos: int,
    v: Seq<(K::Model, V::Model)>,
    r: IndexMapResolver,
)
    requires
        map_resolver_ok::<K, V>(before, v, r),
        before.is_prefix_of(buf),
        before.len() <= pos,
        pos % 4 == 0,
        pos + 16 <= buf.len(),
        pos + 16 <= MAX_POSITION,
        buf.subrange(pos, pos + 16) == map_record(v.len(), pos, r),
    ensures
        map_valid_at::<K, V>(buf, pos),
        map_value_at::<K, V>(buf, pos) == vec_archived_value::<(K, V)>(v),
{
    let rec = map_record(v.len(), pos, r);
    let vr = VecResolver { pos: r.entries };
    lemma_vec_record_len(v.len(), pos, vr);
    lemma_map_record_len(v.len(), pos, r);
    lemma_pow256_values();
    assert(buf.subrange(pos, pos + 8) =~= rec.subrange(0, 8));
    assert(rec.subrange(0, 8) =~= vec_record(v.len(), pos, vr));
    lemma_vec_resolve::<(K, V)>(before, buf, pos, v, vr);
    let d = distance(pos + 8, r.table as int);
    lemma_offset_round_trip(d);
    lemma_le_bytes_len(to_twos(d, 4), 4);
    lemma_le_round_trip_small(r.cap as nat, 4);
    assert(buf.subrange(pos + 8, pos + 12) =~= rec.subrange(8, 12));
    assert(rec.subrange(8, 12) =~= offset_bytes(d));
    assert(buf.subrange(pos + 12, pos + 16) =~= rec.subrange(12, 16));
    assert(rec.subrange(12, 16) =~= le_bytes(r.cap as nat, 4));
    lemma_table_moved(before, r.table as int, r.cap as nat, buf, 0);
    lemma_archived_keys::<K, V>(v);
}

/// The archived form of an ordered map with keys of `K` and values of `V`:
/// the functions that write it and read it in place.
pub struct ArchivedIndexMap<K, V> {
    key: core::marker::PhantomData<K>,
    value: core::marker::PhantomData<V>,
}

impl<K: ArchiveKey, V: Field> ArchivedIndexMap<K, V> {
    /// Serializes `entries` in order as a sequence, then builds the hash
    /// index over them at the load factor `load_factor`, numerator first,
    /// and writes its table. The table is held in scratch space while it is
    /// built.
    pub fn serialize_from_entries(
        entries: &[(K, V)],
        load_factor: (usize, usize),
        s: &mut Serializer,
    ) -> (res: Result<IndexMapResolver, ArchiveError>)
        requires
            old(s).wf(),
            0 < load_factor.0,
            distinct(entry_keys(entries@)),
        ensures
            final(s).wf(),
            final(s).writer.spec_capacity() == old(s).writer.spec_capacity(),
            final(s).allocator.spec_capacity() == old(s).allocator.spec_capacity(),
            final(s).allocator.spec_in_use() == old(s).allocator.spec_in_use(),
            old(s).writer@.is_prefix_of(final(s).writer@),
            res is Ok <==> (old(s).writer@.len() + map_serialized_len::<K, V>(
                deep_seq(entries@),
                old(s).writer@.len() as int,
                capacity_for(entries@.len(), load_factor.0 as nat, load_factor.1 as nat),
            ) <= old(s).writer.spec_capacity() && map_scratch_len::<K, V>(
                deep_seq(entries@),
                capacity_for(entries@.len(), load_factor.0 as nat, load_factor.1 as nat),
            ) <= old(s).allocator.spec_available()),
            res matches Ok(r) ==> map_resolver_ok::<K, V>(final(s).writer@, deep_seq(entries@), r)
                && r.cap == capacity_for(
                entries@.len(),
                load_factor.0 as nat,
                load_factor.1 as nat,
            ) && r == map_resolver_at::<K, V>(
                deep_seq(entries@),
                old(s).writer@.len() as int,
                r.cap as nat,
            ) && final(s).writer@ == old(s).writer@ + map_out_of_line::<K, V>(
                deep_seq(entries@),
                old(s).writer@.len() as int,
                r.cap as nat,
            ) && final(s).writer@.len() == old(s).writer@.len() + map_serialized_len::<K, V>(
                deep_seq(entries@),
                old(s).writer@.len() as int,
                r.cap as nat,
            ),
            res matches Err(e) ==> (e == ArchiveError::CapacityExceeded && old(s).writer@.len()
                + map_serialized_len::<K, V>(
                deep_seq(entries@),
                old(s).writer@.len() as int,
                capacity_for(entries@.len(), load_factor.0 as nat, load_factor.1 as nat),
            ) > old(s).writer.spec_capacity()) || (e == ArchiveError::ScratchExhausted
                && map_scratch_len::<K, V>(
                deep_seq(entries@),
                capacity_for(entries@.len(), load_factor.0 as nat, load_factor.1 as nat),
            ) > old(s).allocator.spec_available()),
    {
        let n: usize = entries.len();
        let ghost dv = deep_seq(entries@);
        let ghost start = s.writer@.len() as int;
        let ghost before = s.writer@;
        let ghost want = capacity_for(n as nat, load_factor.0 as nat, load_factor.1 as nat);
        proof {
            lemma_align_up(start + vec_serialized_len::<(K, V)>(dv, start), 4);
        }
        let listed: VecResolver = match ArchivedVec::<(K, V)>::serialize_from_slice(entries, s) {
            Ok(r) => r,
            Err(e) => {
                return Err(e);
            },
        };
        let ghost mid = s.writer@;
        let cap: usize = match table_capacity(
            n,
            load_factor.0,
            load_factor.1,
            MAX_POSITION / 4,
        ) {
            Some(cap) => cap,
            None => {
                return Err(ArchiveError::CapacityExceeded);
            },
        };
        let held: usize = 4 * cap;
        if let Err(e) = s.allocator.acquire(held) {
            return Err(e);
        }
        let table: Vec<u32> = build_index::<K, V>(entries, cap);
        proof {
            assert(entry_keys(entries@) =~= pair_keys::<K, V>(dv));
        }
        let at: usize = match s.writer.align(4) {
            Ok(p) => p,
            Err(e) => {
                s.allocator.release(held);
                return Err(e);
            },
        };
        if held > s.writer.capacity() - at {
            s.allocator.release(held);
            return Err(ArchiveError::CapacityExceeded);
        }
        let mut bytes: Vec<u8> = Vec::new();
        let mut j: usize = 0;
        while j < cap
            invariant
                j <= cap,
                cap == table@.len(),
                4 * cap <= MAX_POSITION,
                bytes@.len() == 4 * j,
                bytes@ == table_bytes(table@, j as nat),
                forall|k: int|
                    0 <= k < j ==> le_value(#[trigger] bytes@.subrange(4 * k, 4 * k + 4))
                        == table@[k],
            decreases cap - j,
        {
            let ghost prev = bytes@;
            write_le(&mut bytes, table[j] as u64, 4);
            proof {
                lemma_pow256_values();
                lemma_le_round_trip_small(table@[j as int] as nat, 4);
                assert(bytes@.subrange(4 * j, 4 * j + 4) =~= le_bytes(table@[j as int] as nat, 4));
                assert(bytes@ =~= table_bytes(table@, (j + 1) as nat));
                assert forall|k: int| 0 <= k < j implies le_value(
                    #[trigger] bytes@.subrange(4 * k, 4 * k + 4),
                ) == table@[k] by {
                    assert(bytes@.subrange(4 * k, 4 * k + 4) =~= prev.subrange(4 * k, 4 * k + 4));
                }
            }
            j = j + 1;
        }
        let ghost padded = s.writer@;
        let w = s.writer.write(bytes.as_slice());
        s.allocator.release(held);
        proof {
            let fin = s.writer@;
            lemma_vec_resolver_extends::<(K, V)>(mid, fin, dv, listed);
            assert forall|k: int| 0 <= k < cap implies slot_at(fin, at as int, k) == table@[k] by {
                assert(fin.subrange(at + 4 * k, at + 4 * k + 4) =~= bytes@.subrange(
                    4 * k,
                    4 * k + 4,
                ));
            }
            assert(table_at(fin, at as int, cap as nat) =~= table@);
            assert(fin =~= before + map_out_of_line::<K, V>(dv, start, cap as nat));
        }
        Ok(IndexMapResolver { entries: listed.pos, table: at, cap })
    }

    /// Appends to `out` the record of a map of `len` entries for the
    /// position `pos`.
    pub fn resolve_from_len(len: usize, pos: usize, resolver: IndexMapResolver, out: &mut Vec<u8>)
        requires
            pos + 16 <= MAX_POSITION,
            resolver.entries <= MAX_POSITION,
            resolver.table <= MAX_POSITION,
        ensures
            final(out)@ == old(out)@ + map_record(len as nat, pos as int, resolver),
    {
        let ghost before = out@;
        ArchivedVec::<(K, V)>::resolve_from_len(
            len,
            pos,
            VecResolver { pos: resolver.entries },
            out,
        );
        emplace(out, pos + 8, resolver.table);
        write_le(out, resolver.cap as u64, 4);
        proof {
            assert(out@ =~= before + map_record(len as nat, pos as int, resolver));
        }
    }

    /// The number of entries of the map whose record stands at `pos`.
    pub fn len(buf: &[u8], pos: usize) -> (n: usize)
        requires
            map_laid_out::<K, V>(buf@, pos as int),
        ensures
            n == map_value_at::<K, V>(buf@, pos as int).len(),
    {
        ArchivedVec::<(K, V)>::len(buf, pos)
    }

    /// The positions of the key record and of the value record of the entry
    /// `index` of the map whose record stands at `pos`, in insertion order,
    /// or `None` where the map has no such entry.
    pub fn entry(buf: &[u8], pos: usize, index: usize) -> (r: Option<(usize, usize)>)
        requires
            map_laid_out::<K, V>(buf@, pos as int),
        ensures
            index >= map_value_at::<K, V>(buf@, pos as int).len() ==> r.is_none(),
            index < map_value_at::<K, V>(buf@, pos as int).len() ==> (r matches Some((k, v))
                && K::valid_at(buf@, k as int) && V::valid_at(buf@, v as int) && K::value_at(
                buf@,
                k as int,
            ) == map_value_at::<K, V>(buf@, pos as int)[index as int].0 && V::value_at(
                buf@,
                v as int,
            ) == map_value_at::<K, V>(buf@, pos as int)[index as int].1),
    {
        match ArchivedVec::<(K, V)>::get(buf, pos, index) {
            Some(at) => {
                proof {
                    lemma_pair_layout::<K, V>();
                    K::lemma_field_size();
                }
                let total: usize = buf.len();
                assert(at + pair_size::<K, V>() <= total);
                let second: usize = crate::ser::writer::round_up(K::size(), V::align());
                Some((at, at + second))
            },
            None => None,
        }
    }

    /// The index of the entry with the key `key` in the map whose record
    /// stands at `pos`, as the hash index gives it: the search starts at the
    /// slot that the hash of `key` gives and ends at the first empty slot.
    pub fn probe(buf: &[u8], pos: usize, key: &K) -> (r: Option<usize>)
        requires
            map_laid_out::<K, V>(buf@, pos as int),
        ensures
            match r {
                Some(i) => lookup::<K>(
                    table_at(buf@, map_table(buf@, pos as int), map_cap(buf@, pos as int)),
                    pair_keys::<K, V>(map_value_at::<K, V>(buf@, pos as int)),
                    key.model(),
                ) == Some(i as int),
                None => lookup::<K>(
                    table_at(buf@, map_table(buf@, pos as int), map_cap(buf@, pos as int)),
                    pair_keys::<K, V>(map_value_at::<K, V>(buf@, pos as int)),
                    key.model(),
                ) is None,
            },
    {
        proof {
            lemma_pow256_values();
        }
        let total: usize = buf.len();
        assert(pos + 16 <= total);
        let n: usize = ArchivedVec::<(K, V)>::len(buf, pos);
        let first: usize = ArchivedVec::<(K, V)>::first(buf, pos);
        let size: usize = <(K, V) as Archive>::size();
        let off: i32 = read_offset(buf, pos + 8);
        let at: usize = (pos as i128 + 8 + off as i128) as usize;
        let cap: usize = read_le(buf, pos + 12, 4) as usize;
        let ghost table = table_at(buf@, at as int, cap as nat);
        let ghost keys = pair_keys::<K, V>(map_value_at::<K, V>(buf@, pos as int));
        if cap == 0 {
            return None;
        }
        let h: u64 = key.hash();
        let start: usize = (h % (cap as u64)) as usize;
        let mut slot: usize = start;
        let mut d: usize = 0;
        while d < cap
            invariant
                d <= cap,
                0 <= slot < cap,
                cap == table.len(),
                table == table_at(buf@, at as int, cap as nat),
                keys == pair_keys::<K, V>(map_value_at::<K, V>(buf@, pos as int)),
                map_laid_out::<K, V>(buf@, pos as int),
                at == map_table(buf@, pos as int),
                cap == map_cap(buf@, pos as int),
                n == vec_len(buf@, pos as int),
                first == vec_first(buf@, pos as int),
                size == pair_size::<K, V>(),
                start as int == start_slot(K::spec_hash(key.model()), cap as nat),
                find::<K>(table, keys, key.model(), start as int, cap as nat) == find::<K>(
                    table,
                    keys,
                    key.model(),
                    slot as int,
                    (cap - d) as nat,
                ),
            decreases cap - d,
        {
            let entry: u32 = read_le(buf, at + 4 * slot, 4) as u32;
            assert(entry == table[slot as int]);
            assert(n == keys.len());
            if entry == EMPTY_SLOT {
                assert(find::<K>(table, keys, key.model(), slot as int, (cap - d) as nat) is None);
                return None;
            }
            if (entry as usize) < n {
                proof {
                    lemma_element_pos_bound(first as int, entry as int, n as int, size as nat);
                    assert(<(K, V) as Archive>::valid_at(
                        buf@,
                        element_pos(first as int, entry as int, size as nat),
                    ));
                    assert(keys[entry as int] == K::value_at(
                        buf@,
                        element_pos(first as int, entry as int, size as nat),
                    ));
                }
                if key.eq_at(buf, first + (entry as usize) * size) {
                    assert(find::<K>(table, keys, key.model(), slot as int, (cap - d) as nat)
                        == Some(entry as int));
                    return Some(entry as usize);
                }
            }
            assert(find::<K>(table, keys, key.model(), slot as int, (cap - d) as nat) == find::<K>(
                table,
                keys,
                key.model(),
                next_slot(slot as int, cap as int),
                (cap - d - 1) as nat,
            ));
            if slot + 1 == cap {
                slot = 0;
            } else {
                slot = slot + 1;
            }
            d = d + 1;
        }
        None
    }

    /// The index of the entry with the key `key` in the map whose record
    /// stands at `pos`, or `None` where the map has no such entry.
    pub fn get_index(buf: &[u8], pos: usize, key: &K) -> (r: Option<usize>)
        requires
            map_valid_at::<K, V>(buf@, pos as int),
        ensures
            r matches Some(i) ==> i < map_value_at::<K, V>(buf@, pos as int).len()
                && map_value_at::<K, V>(buf@, pos as int)[i as int].0 == key.model(),
            r is None ==> forall|i: int|
                0 <= i < map_value_at::<K, V>(buf@, pos as int).len() ==> (#[trigger] map_value_at::<
                    K,
                    V,
                >(buf@, pos as int)[i]).0 != key.model(),
    {
        let r: Option<usize> = Self::probe(buf, pos, key);
        proof {
            let entries = map_value_at::<K, V>(buf@, pos as int);
            let keys = pair_keys::<K, V>(entries);
            lemma_lookup::<K>(
                table_at(buf@, map_table(buf@, pos as int), map_cap(buf@, pos as int)),
                keys,
                key.model(),
            );
            if r is None {
                assert forall|i: int| 0 <= i < entries.len() implies (#[trigger] entries[i]).0
                    != key.model() by {
                    assert(keys[i] == entries[i].0);
                }
            }
        }
        r
    }

    /// The positions of the key record and of the value record of the entry
    /// with the key `key`, or `None` where the map has no such entry.
    pub fn get_key_value(buf: &[u8], pos: usize, key: &K) -> (r: Option<(usize, usize)>)
        requires
            map_valid_at::<K, V>(buf@, pos as int),
        ensures
            r matches Some((k, v)) ==> K::valid_at(buf@, k as int) && V::valid_at(buf@, v as int)
                && K::value_at(buf@, k as int) == key.model() && exists|i: int|
                0 <= i < map_value_at::<K, V>(buf@, pos as int).len() && #[trigger] map_value_at::<
                    K,
                    V,
                >(buf@, pos as int)[i] == (key.model(), V::value_at(buf@, v as int)),
            r is None ==> forall|i: int|
                0 <= i < map_value_at::<K, V>(buf@, pos as int).len() ==> (#[trigger] map_value_at::<
                    K,
                    V,
                >(buf@, pos as int)[i]).0 != key.model(),
    {
        match Self::get_index(buf, pos, key) {
            Some(i) => {
                let r = Self::entry(buf, pos, i);
                proof {
                    assert(map_value_at::<K, V>(buf@, pos as int)[i as int] == (
                        key.model(),
                        V::value_at(buf@, r->Some_0.1 as int),
                    ));
                }
                r
            },
            None => None,
        }
    }

    /// The position of the value record of the entry with the key `key`, or
    /// `None` where the map has no such entry.
    pub fn get(buf: &[u8], pos: usize, key: &K) -> (r: Option<usize>)
        requires
            map_valid_at::<K, V>(buf@, pos as int),
        ensures
            r matches Some(v) ==> V::valid_at(buf@, v as int) && exists|i: int|
                0 <= i < map_value_at::<K, V>(buf@, pos as int).len() && #[trigger] map_value_at::<
                    K,
                    V,
                >(buf@, pos as int)[i] == (key.model(), V::value_at(buf@, v as int)),
            r is None ==> forall|i: int|
                0 <= i < map_value_at::<K, V>(buf@, pos as int).len() ==> (#[trigger] map_value_at::<
                    K,
                    V,
                >(buf@, pos as int)[i]).0 != key.model(),
    {
        match Self::get_key_value(buf, pos, key) {
            Some((_, v)) => Some(v),
            None => None,
        }
    }

    /// Checks the map record at `pos`: the entries, the place of the table,
    /// and that the index leads to each entry.
    pub fn validate(buf: &[u8], pos: usize) -> (r: Result<(), ArchiveError>)
        ensures
            r is Ok <==> map_valid_at::<K, V>(buf@, pos as int),
            r matches Err(e) ==> e.is_validation(),
    {
        if let Err(e) = <Vec<(K, V)> as Archive>::validate(buf, pos) {
            return Err(e);
        }
        if buf.len() - pos < 16 {
            return Err(ArchiveError::OutOfBounds);
        }
        proof {
            lemma_pow256_values();
        }
        let off: i32 = read_offset(buf, pos + 8);
        let cap: u64 = read_le(buf, pos + 12, 4);
        let target: i128 = pos as i128 + 8 + off as i128;
        if target < 0 || target + 4 * (cap as i128) > pos as i128 {
            return Err(ArchiveError::OutOfBounds);
        }
        if target % 4 != 0 {
            return Err(ArchiveError::Unaligned);
        }
        if cap == 0 {
            return Err(ArchiveError::InvalidIndex);
        }
        let n: usize = ArchivedVec::<(K, V)>::len(buf, pos);
        let ghost table = table_at(buf@, map_table(buf@, pos as int), map_cap(buf@, pos as int));
        let ghost keys = pair_keys::<K, V>(map_value_at::<K, V>(buf@, pos as int));
        let mut i: usize = 0;
        while i < n
            invariant
                i <= n,
                n == keys.len(),
                map_laid_out::<K, V>(buf@, pos as int),
                table == table_at(buf@, map_table(buf@, pos as int), map_cap(buf@, pos as int)),
                keys == pair_keys::<K, V>(map_value_at::<K, V>(buf@, pos as int)),
                table.len() > 0,
                forall|j: int|
                    0 <= j < i ==> lookup::<K>(table, keys, #[trigger] keys[j]) == Some(j),
            decreases n - i,
        {
            let at: usize = match Self::entry(buf, pos, i) {
                Some((k, _)) => k,
                None => {
                    return Err(ArchiveError::InvalidIndex);
                },
            };
            let key: K = K::deserialize(buf, at);
            proof {
                assert(keys[i as int] == map_value_at::<K, V>(buf@, pos as int)[i as int].0);
                assert(keys[i as int] == key.model());
            }
            match Self::probe(buf, pos, &key) {
                Some(found) => {
                    if found != i {
                        return Err(ArchiveError::InvalidIndex);
                    }
                },
                None => {
                    return Err(ArchiveError::InvalidIndex);
                },
            }
            i = i + 1;
        }
        Ok(())
    }

    /// Rebuilds the entries of the map whose record stands at `pos`, in
    /// insertion order.
    pub fn deserialize_entries(buf: &[u8], pos: usize) -> (entries: Vec<(K, V)>)
        requires
            map_laid_out::<K, V>(buf@, pos as int),
        ensures
            deep_seq(entries@) == map_value_at::<K, V>(buf@, pos as int),
    {
        <Vec<(K, V)> as Archive>::deserialize(buf, pos)
    }
}

/// Ordered-map law: in a well-formed map record the lookup of the key of
/// each entry finds that entry, no key occurs twice, and the entries stand
/// in the order in which they were handed to serialization.
pub proof fn lemma_map_lookup<K: ArchiveKey, V: Field>(buf: Seq<u8>, pos: int, i: int)
    requires
        map_valid_at::<K, V>(buf, pos),
        0 <= i < map_value_at::<K, V>(buf, pos).len(),
    ensures
        lookup::<K>(
            table_at(buf, map_table(buf, pos), map_cap(buf, pos)),
            pair_keys::<K, V>(map_value_at::<K, V>(buf, pos)),
            map_value_at::<K, V>(buf, pos)[i].0,
        ) == Some(i),
        distinct(pair_keys::<K, V>(map_value_at::<K, V>(buf, pos))),
{
    let keys = pair_keys::<K, V>(map_value_at::<K, V>(buf, pos));
    assert(keys[i] == map_value_at::<K, V>(buf, pos)[i].0);
    crate::collections::table::lemma_index_ok_distinct::<K>(
        table_at(buf, map_table(buf, pos), map_cap(buf, pos)),
        keys,
    );
}

} // verus!
