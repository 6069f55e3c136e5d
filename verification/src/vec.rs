//! The archived sequence: a record that holds a length and a relative pointer
//! to that many element records, which lie one after the other.

use crate::endian::{
    le_bytes, le_value, lemma_le_bytes_len, lemma_le_round_trip, lemma_pow256_values, read_le,
    to_twos, write_le,
};
use crate::error::ArchiveError;
use crate::rel_ptr::{
    distance, emplace, lemma_offset_round_trip, offset_bytes, offset_of_bytes, read_offset,
    MAX_POSITION,
};
use crate::ser::serializer::Serializer;
use crate::ser::writer::{align_up, lemma_align_up, padding};
use crate::traits::{embeds, lemma_shift_keeps_alignment, valid_align, Archive, Field, MAX_ALIGN};
use vstd::prelude::*;

verus! {

/// The size in bytes of the record of a sequence: a pointer, then a length.
pub const VEC_SIZE: usize = 8;

/// The alignment of the record of a sequence.
pub const VEC_ALIGN: usize = 4;

/// What serializing a sequence leaves for its record: the position of the
/// first element record.
#[derive(Clone, Copy, Debug, PartialEq, Eq, Structural)]
pub struct VecResolver {
    pub pos: usize,
}

/// The position of the `i`-th of the element records that start at `first`.
pub open spec fn element_pos(first: int, i: int, size: nat) -> int {
    first + i * size
}

/// The items of `s` as a reader of the archive sees them.
pub open spec fn deep_seq<T: Archive>(s: Seq<T>) -> Seq<T::Model> {
    Seq::new(s.len(), |i: int| s[i].model())
}

/// The distance that the pointer of the sequence record at `pos` holds.
pub open spec fn vec_offset(buf: Seq<u8>, pos: int) -> int {
    offset_of_bytes(buf.subrange(pos, pos + 4))
}

/// The position of the first element record of the sequence record at `pos`.
pub open spec fn vec_first(buf: Seq<u8>, pos: int) -> int {
    pos + vec_offset(buf, pos)
}

/// The length that the sequence record at `pos` holds.
pub open spec fn vec_len(buf: Seq<u8>, pos: int) -> nat {
    le_value(buf.subrange(pos + 4, pos + 8))
}

/// The `n` element records from `first` on are well formed.
pub open spec fn elements_valid<T: Archive>(buf: Seq<u8>, first: int, n: nat) -> bool {
    forall|i: int| 0 <= i < n ==> T::valid_at(buf, #[trigger] element_pos(first, i, T::spec_size()))
}

/// The values of the `n` element records from `first` on.
pub open spec fn elements_at<T: Archive>(buf: Seq<u8>, first: int, n: nat) -> Seq<T::Model> {
    Seq::new(n, |i: int| T::value_at(buf, element_pos(first, i, T::spec_size())))
}

/// The `n` element records from `first` on hold the items of `v`, as far as
/// the format has room for them.
pub open spec fn elements_hold<T: Archive>(buf: Seq<u8>, first: int, v: Seq<T::Model>) -> bool {
    forall|i: int|
        0 <= i < v.len() ==> T::valid_at(buf, #[trigger] element_pos(first, i, T::spec_size()))
            && T::value_at(buf, element_pos(first, i, T::spec_size())) == T::archived_value(v[i])
}

/// The sequence record at `pos` is well formed: it lies in the buffer, and
/// its elements lie before it, aligned, and are well formed themselves.
pub open spec fn vec_valid_at<T: Archive>(buf: Seq<u8>, pos: int) -> bool {
    &&& 0 <= pos
    &&& pos % 4 == 0
    &&& pos + 8 <= buf.len()
    &&& 0 <= vec_first(buf, pos)
    &&& vec_first(buf, pos) % (T::spec_align() as int) == 0
    &&& vec_first(buf, pos) + vec_len(buf, pos) * T::spec_size() <= pos
    &&& elements_valid::<T>(buf, vec_first(buf, pos), vec_len(buf, pos))
}

/// The sequence that the record at `pos` stands for.
pub open spec fn vec_value_at<T: Archive>(buf: Seq<u8>, pos: int) -> Seq<T::Model> {
    elements_at::<T>(buf, vec_first(buf, pos), vec_len(buf, pos))
}

/// Each item of `v` is a value of `T`.
pub open spec fn vec_admits<T: Archive>(v: Seq<T::Model>) -> bool {
    forall|i: int| 0 <= i < v.len() ==> T::admits(#[trigger] v[i])
}

/// The sequence that an archive of `v` holds: a length is kept modulo the
/// width of the length field.
pub open spec fn vec_archived_value<T: Archive>(v: Seq<T::Model>) -> Seq<T::Model> {
    Seq::new(v.len() % 0x1_0000_0000, |i: int| T::archived_value(v[i]))
}

/// The element records of `v` stand in `buf` from `r.pos` on.
pub open spec fn vec_resolver_ok<T: Archive>(
    buf: Seq<u8>,
    v: Seq<T::Model>,
    r: VecResolver,
) -> bool {
    &&& (r.pos as int) % (T::spec_align() as int) == 0
    &&& r.pos + v.len() * T::spec_size() <= buf.len()
    &&& elements_hold::<T>(buf, r.pos as int, v)
}

/// The record of a sequence of `len` items whose element records start at
/// `r.pos`, for the position `pos`.
pub open spec fn vec_record(len: nat, pos: int, r: VecResolver) -> Seq<u8> {
    offset_bytes(distance(pos, r.pos as int)) + le_bytes(len, 4)
}

/// The position of the writer after the children of the first `n` items of
/// `v` are serialized from `start` on.
pub open spec fn children_end<T: Archive>(v: Seq<T::Model>, start: int, n: nat) -> int
    decreases n,
{
    if n == 0 {
        start
    } else {
        let p = children_end::<T>(v, start, (n - 1) as nat);
        p + T::serialized_len(v[n - 1], p)
    }
}

/// The bytes that serializing the first `n` items of `v` writes from `start`
/// on.
pub open spec fn children_bytes<T: Archive>(v: Seq<T::Model>, start: int, n: nat) -> Seq<u8>
    decreases n,
{
    if n == 0 {
        Seq::empty()
    } else {
        children_bytes::<T>(v, start, (n - 1) as nat) + T::out_of_line(
            v[n - 1],
            children_end::<T>(v, start, (n - 1) as nat),
        )
    }
}

/// The resolver of the item `i` of `v` when `v` is serialized from `start`
/// on.
pub open spec fn child_resolver<T: Archive>(v: Seq<T::Model>, start: int, i: int) -> T::Resolver {
    T::resolver_at(v[i], children_end::<T>(v, start, i as nat))
}

/// The records of the first `n` items of `v`, one after the other from
/// `first` on.
pub open spec fn records_bytes<T: Archive>(
    v: Seq<T::Model>,
    start: int,
    first: int,
    n: nat,
) -> Seq<u8>
    decreases n,
{
    if n == 0 {
        Seq::empty()
    } else {
        records_bytes::<T>(v, start, first, (n - 1) as nat) + T::record(
            v[n - 1],
            element_pos(first, n - 1, T::spec_size()),
            child_resolver::<T>(v, start, n - 1),
        )
    }
}

/// The most scratch space that serializing any of the first `n` items of `v`
/// holds.
pub open spec fn max_scratch<T: Archive>(v: Seq<T::Model>, n: nat) -> nat
    decreases n,
{
    if n == 0 {
        0
    } else {
        let m = max_scratch::<T>(v, (n - 1) as nat);
        let s = T::scratch_len(v[n - 1]);
        if s > m {
            s
        } else {
            m
        }
    }
}

/// The position of the first element record when `v` is serialized from
/// `start` on: after the children of all items, at the next aligned position.
pub open spec fn vec_elements_start<T: Archive>(v: Seq<T::Model>, start: int) -> int {
    align_up(children_end::<T>(v, start, v.len()), T::spec_align() as int)
}

/// The bytes that serializing `v` writes from `start` on: what the items
/// point at, padding, and the records of the items.
pub open spec fn vec_out_of_line<T: Archive>(v: Seq<T::Model>, start: int) -> Seq<u8> {
    children_bytes::<T>(v, start, v.len()) + padding(
        vec_elements_start::<T>(v, start) - children_end::<T>(v, start, v.len()),
    ) + records_bytes::<T>(v, start, vec_elements_start::<T>(v, start), v.len())
}

/// The resolver that serializing `v` from `start` on returns.
pub open spec fn vec_resolver_at<T: Archive>(v: Seq<T::Model>, start: int) -> VecResolver {
    VecResolver { pos: vec_elements_start::<T>(v, start) as usize }
}

/// The number of bytes that serializing `v` writes from `start` on.
pub open spec fn vec_serialized_len<T: Archive>(v: Seq<T::Model>, start: int) -> nat {
    (vec_elements_start::<T>(v, start) + v.len() * T::spec_size() - start) as nat
}

/// The scratch space that serializing `v` holds: one resolver for each item,
/// and on top of that what one item holds for itself.
pub open spec fn vec_scratch_len<T: Archive>(v: Seq<T::Model>) -> nat {
    v.len() * vstd::layout::size_of::<T::Resolver>() + max_scratch::<T>(v, v.len())
}

pub proof fn lemma_element_pos_step(first: int, i: int, size: nat)
    ensures
        element_pos(first, i + 1, size) == element_pos(first, i, size) + size,
        element_pos(first, 0, size) == first,
{
    assert((i + 1) * size == i * size + size) by (nonlinear_arith);
}

pub proof fn lemma_element_pos_bound(first: int, i: int, n: int, size: nat)
    requires
        0 <= i < n,
    ensures
        first <= element_pos(first, i, size),
        element_pos(first, i, size) + size <= first + n * size,
{
    assert(0 <= i * size && (i + 1) * size <= n * size && (i + 1) * size == i * size + size)
        by (nonlinear_arith)
        requires
            0 <= i < n,
    ;
}

pub proof fn lemma_add_keeps_alignment(p: int, q: int, align: nat)
    requires
        align > 0,
        p % (align as int) == 0,
        q % (align as int) == 0,
    ensures
        (p + q) % (align as int) == 0,
{
    vstd::arithmetic::div_mod::lemma_add_mod_noop(p, q, align as int);
    vstd::arithmetic::div_mod::lemma_small_mod(0, align);
}

/// Element records are aligned when the first is and the size keeps
/// alignment.
pub proof fn lemma_element_pos_aligned(first: int, i: int, size: nat, align: nat)
    requires
        0 <= i,
        valid_align(align),
        first % (align as int) == 0,
        size % align == 0,
    ensures
        element_pos(first, i, size) % (align as int) == 0,
    decreases i,
{
    lemma_element_pos_step(first, i - 1, size);
    if i > 0 {
        lemma_element_pos_aligned(first, i - 1, size, align);
        lemma_add_keeps_alignment(element_pos(first, i - 1, size), size as int, align);
    }
}

pub proof fn lemma_children_end_monotone<T: Archive>(v: Seq<T::Model>, start: int, i: nat, n: nat)
    requires
        i <= n,
    ensures
        start <= children_end::<T>(v, start, i) <= children_end::<T>(v, start, n),
    decreases n,
{
    if n > 0 {
        if i < n {
            lemma_children_end_monotone::<T>(v, start, i, (n - 1) as nat);
        } else {
            lemma_children_end_monotone::<T>(v, start, (n - 1) as nat, (n - 1) as nat);
        }
    }
}

pub proof fn lemma_children_bytes_len<T: Archive>(v: Seq<T::Model>, start: int, n: nat)
    requires
        0 <= start,
    ensures
        children_bytes::<T>(v, start, n).len() == children_end::<T>(v, start, n) - start,
    decreases n,
{
    if n > 0 {
        lemma_children_bytes_len::<T>(v, start, (n - 1) as nat);
        lemma_children_end_monotone::<T>(v, start, (n - 1) as nat, (n - 1) as nat);
        T::lemma_out_of_line_len(v[n - 1], children_end::<T>(v, start, (n - 1) as nat));
    }
}

pub proof fn lemma_records_bytes_len<T: Archive>(v: Seq<T::Model>, start: int, first: int, n: nat)
    ensures
        records_bytes::<T>(v, start, first, n).len() == n * T::spec_size(),
    decreases n,
{
    if n > 0 {
        lemma_records_bytes_len::<T>(v, start, first, (n - 1) as nat);
        T::lemma_record_len(
            v[n - 1],
            element_pos(first, n - 1, T::spec_size()),
            child_resolver::<T>(v, start, n - 1),
        );
        assert(n * T::spec_size() == (n - 1) * T::spec_size() + T::spec_size())
            by (nonlinear_arith);
    } else {
        assert(0 * T::spec_size() == 0);
    }
}

/// Serializing a sequence writes as many bytes as its length says.
pub proof fn lemma_vec_out_of_line_len<T: Archive>(v: Seq<T::Model>, start: int)
    requires
        0 <= start,
    ensures
        vec_out_of_line::<T>(v, start).len() == vec_serialized_len::<T>(v, start),
{
    T::lemma_layout();
    lemma_children_bytes_len::<T>(v, start, v.len());
    lemma_children_end_monotone::<T>(v, start, v.len(), v.len());
    lemma_align_up(children_end::<T>(v, start, v.len()), T::spec_align() as int);
    lemma_records_bytes_len::<T>(v, start, vec_elements_start::<T>(v, start), v.len());
}

pub proof fn lemma_max_scratch_bound<T: Archive>(v: Seq<T::Model>, k: int, n: nat)
    requires
        0 <= k < n,
    ensures
        T::scratch_len(v[k]) <= max_scratch::<T>(v, n),
    decreases n,
{
    if k < n - 1 {
        lemma_max_scratch_bound::<T>(v, k, (n - 1) as nat);
    }
}

/// The record of a sequence is read back as it was written.
pub proof fn lemma_vec_record_fields(buf: Seq<u8>, pos: int, len: nat, r: VecResolver)
    requires
        0 <= pos,
        pos + 8 <= buf.len(),
        pos <= MAX_POSITION,
        r.pos <= MAX_POSITION,
        buf.subrange(pos, pos + 8) == vec_record(len, pos, r),
    ensures
        vec_first(buf, pos) == r.pos,
        vec_len(buf, pos) == len % 0x1_0000_0000,
{
    let d = distance(pos, r.pos as int);
    lemma_offset_round_trip(d);
    lemma_le_bytes_len(len, 4);
    lemma_le_round_trip(len, 4);
    lemma_pow256_values();
    let rec = vec_record(len, pos, r);
    assert(buf.subrange(pos, pos + 4) =~= rec.subrange(0, 4));
    assert(buf.subrange(pos + 4, pos + 8) =~= rec.subrange(4, 8));
    assert(rec.subrange(0, 4) =~= offset_bytes(d));
    assert(rec.subrange(4, 8) =~= le_bytes(len, 4));
}

/// The elements of a sequence mean the same wherever the bytes up to their
/// end are moved.
pub proof fn lemma_elements_moved<T: Archive>(
    buf: Seq<u8>,
    first: int,
    n: nat,
    other: Seq<u8>,
    delta: int,
)
    requires
        elements_valid::<T>(buf, first, n),
        0 <= first,
        embeds(buf, first + n * T::spec_size(), other, delta),
        delta % (MAX_ALIGN as int) == 0,
    ensures
        elements_valid::<T>(other, first + delta, n),
        elements_at::<T>(other, first + delta, n) == elements_at::<T>(buf, first, n),
{
    let size = T::spec_size();
    assert forall|i: int| 0 <= i < n implies T::valid_at(
        other,
        #[trigger] element_pos(first + delta, i, size),
    ) && T::value_at(other, element_pos(first + delta, i, size)) == T::value_at(
        buf,
        element_pos(first, i, size),
    ) by {
        lemma_element_pos_bound(first, i, n as int, size);
        assert(T::valid_at(buf, element_pos(first, i, size)));
        T::lemma_moved(buf, element_pos(first, i, size), other, delta);
        assert(element_pos(first + delta, i, size) == element_pos(first, i, size) + delta);
    }
    assert(elements_at::<T>(other, first + delta, n) =~= elements_at::<T>(buf, first, n));
}

/// The archived form of a sequence of `T`: the functions that write its
/// record and read it in place.
pub struct ArchivedVec<T> {
    marker: core::marker::PhantomData<T>,
}

/// The items of `v`, last first.
fn reversed<R>(v: Vec<R>) -> (r: Vec<R>)
    ensures
        r@.len() == v@.len(),
        forall|k: int| 0 <= k < v@.len() ==> r@[k] == v@[v@.len() - 1 - k],
{
    let ghost orig = v@;
    let mut v = v;
    let mut r: Vec<R> = Vec::new();
    while v.len() > 0
        invariant
            v@.len() + r@.len() == orig.len(),
            v@ == orig.subrange(0, v@.len() as int),
            forall|k: int| 0 <= k < r@.len() ==> r@[k] == orig[orig.len() - 1 - k],
        decreases v@.len(),
    {
        let x = v.pop().unwrap();
        r.push(x);
    }
    r
}

impl<T: Archive> ArchivedVec<T> {
    /// Serializes the items of `slice` in order, then writes their records
    /// one after the other at the next aligned position. The resolvers of the
    /// items are held in scratch space in between.
    pub fn serialize_from_slice(slice: &[T], s: &mut Serializer) -> (res: Result<
        VecResolver,
        ArchiveError,
    >)
        requires
            old(s).wf(),
        ensures
            final(s).wf(),
            final(s).writer.spec_capacity() == old(s).writer.spec_capacity(),
            final(s).allocator.spec_capacity() == old(s).allocator.spec_capacity(),
            final(s).allocator.spec_in_use() == old(s).allocator.spec_in_use(),
            old(s).writer@.is_prefix_of(final(s).writer@),
            res is Ok <==> (old(s).writer@.len() + vec_serialized_len::<T>(
                deep_seq(slice@),
                old(s).writer@.len() as int,
            ) <= old(s).writer.spec_capacity() && vec_scratch_len::<T>(deep_seq(slice@)) <= old(
                s,
            ).allocator.spec_available()),
            res matches Ok(r) ==> vec_resolver_ok::<T>(final(s).writer@, deep_seq(slice@), r)
                && r == vec_resolver_at::<T>(deep_seq(slice@), old(s).writer@.len() as int)
                && final(s).writer@ == old(s).writer@ + vec_out_of_line::<T>(
                deep_seq(slice@),
                old(s).writer@.len() as int,
            ) && final(s).writer@.len() == old(s).writer@.len() + vec_serialized_len::<T>(
                deep_seq(slice@),
                old(s).writer@.len() as int,
            ),
            res matches Err(e) ==> (e == ArchiveError::CapacityExceeded && old(s).writer@.len()
                + vec_serialized_len::<T>(deep_seq(slice@), old(s).writer@.len() as int) > old(
                s,
            ).writer.spec_capacity()) || (e == ArchiveError::ScratchExhausted && vec_scratch_len::<T>(
                deep_seq(slice@),
            ) > old(s).allocator.spec_available()),
    {
        let n: usize = slice.len();
        let ghost dv = deep_seq(slice@);
        let ghost start = s.writer@.len() as int;
        let ghost before = s.writer@;
        let ghost cap = s.writer.spec_capacity();
        let ghost avail = s.allocator.spec_available();
        let ghost used = s.allocator.spec_in_use();
        let ghost sz = T::spec_size();
        let item: usize = core::mem::size_of::<T::Resolver>();
        let held: usize = match s.allocator.acquire_array(n, item) {
            Ok(h) => h,
            Err(e) => {
                return Err(e);
            },
        };
        let mut resolvers: Vec<T::Resolver> = Vec::new();
        let mut i: usize = 0;
        proof {
            assert(before + children_bytes::<T>(dv, start, 0) =~= before);
        }
        while i < n
            invariant
                i <= n,
                n == slice@.len(),
                dv == deep_seq(slice@),
                s.wf(),
                old(s).wf(),
                cap == old(s).writer.spec_capacity(),
                used == old(s).allocator.spec_in_use(),
                start == old(s).writer@.len(),
                before == old(s).writer@,
                avail == old(s).allocator.spec_available(),
                sz == T::spec_size(),
                s.writer.spec_capacity() == cap,
                s.allocator.spec_capacity() == old(s).allocator.spec_capacity(),
                s.allocator.spec_in_use() == used + held,
                held == n * vstd::layout::size_of::<T::Resolver>(),
                before.is_prefix_of(s.writer@),
                s.writer@.len() == children_end::<T>(dv, start, i as nat),
                s.writer@ == before + children_bytes::<T>(dv, start, i as nat),
                resolvers@.len() == i,
                forall|k: int|
                    0 <= k < i ==> T::resolver_ok(s.writer@, dv[k], #[trigger] resolvers@[k]),
                forall|k: int|
                    0 <= k < i ==> #[trigger] resolvers@[k] == child_resolver::<T>(dv, start, k),
                max_scratch::<T>(dv, i as nat) <= avail - held,
            decreases n - i,
        {
            let ghost prev = s.writer@;
            let ghost so_far = resolvers@;
            match slice[i].serialize(s) {
                Ok(r) => {
                    proof {
                        assert forall|k: int| 0 <= k < i implies T::resolver_ok(
                            s.writer@,
                            dv[k],
                            #[trigger] so_far[k],
                        ) by {
                            T::lemma_resolver_extends(prev, s.writer@, dv[k], so_far[k]);
                        }
                        assert(s.writer@ =~= before + children_bytes::<T>(
                            dv,
                            start,
                            (i + 1) as nat,
                        ));
                    }
                    resolvers.push(r);
                },
                Err(e) => {
                    proof {
                        lemma_children_end_monotone::<T>(dv, start, (i + 1) as nat, n as nat);
                        lemma_max_scratch_bound::<T>(dv, i as int, n as nat);
                        T::lemma_layout();
                        lemma_align_up(
                            children_end::<T>(dv, start, n as nat),
                            T::spec_align() as int,
                        );
                        assert(n * sz >= 0) by (nonlinear_arith)
                            requires
                                n >= 0,
                                sz >= 0,
                        ;
                    }
                    s.allocator.release(held);
                    return Err(e);
                },
            }
            i = i + 1;
        }
        let ghost mid = s.writer@;
        let ghost rs = resolvers@;
        let align: usize = T::align();
        let size: usize = T::size();
        proof {
            T::lemma_layout();
            lemma_children_end_monotone::<T>(dv, start, n as nat, n as nat);
            lemma_align_up(mid.len() as int, align as int);
            assert(n * sz >= 0) by (nonlinear_arith)
                requires
                    n >= 0,
                    sz >= 0,
            ;
        }
        let first: usize = match s.writer.align(align) {
            Ok(p) => p,
            Err(e) => {
                s.allocator.release(held);
                return Err(e);
            },
        };
        let room: usize = s.writer.capacity() - first;
        let fits: bool = match n.checked_mul(size) {
            Some(total) => total <= room,
            None => false,
        };
        if !fits {
            s.allocator.release(held);
            return Err(ArchiveError::CapacityExceeded);
        }
        let ghost base = s.writer@;
        proof {
            assert(base + records_bytes::<T>(dv, start, first as int, 0) =~= base);
        }
        let mut stack: Vec<T::Resolver> = reversed(resolvers);
        let mut j: usize = 0;
        while j < n
            invariant
                j <= n,
                n == slice@.len(),
                dv == deep_seq(slice@),
                s.wf(),
                s.writer.spec_capacity() == cap,
                s.allocator.spec_capacity() == old(s).allocator.spec_capacity(),
                s.allocator.spec_in_use() == used + held,
                held <= s.allocator.spec_in_use(),
                size == T::spec_size(),
                sz == size,
                first + n * size <= cap,
                mid.is_prefix_of(base),
                base.is_prefix_of(s.writer@),
                mid.len() <= first,
                base.len() == first,
                s.writer@.len() == first + j * size,
                stack@.len() == n - j,
                rs.len() == n,
                s.writer@ == base + records_bytes::<T>(dv, start, first as int, j as nat),
                forall|k: int| 0 <= k < n ==> #[trigger] rs[k] == child_resolver::<T>(dv, start, k),
                forall|k: int| j <= k < n ==> stack@[n - 1 - k] == #[trigger] rs[k],
                forall|k: int| 0 <= k < n ==> T::resolver_ok(mid, dv[k], #[trigger] rs[k]),
                forall|k: int|
                    0 <= k < j ==> s.writer@.subrange(
                        element_pos(first as int, k, sz),
                        element_pos(first as int, k, sz) + sz,
                    ) == T::record(dv[k], #[trigger] element_pos(first as int, k, sz), rs[k]),
            decreases n - j,
        {
            proof {
                lemma_element_pos_bound(first as int, j as int, n as int, sz);
                lemma_element_pos_step(first as int, j as int, sz);
            }
            let r = stack.pop().unwrap();
            assert(r == rs[j as int]);
            let pos: usize = first + j * size;
            let mut rec: Vec<u8> = Vec::new();
            proof {
                assert(T::resolver_ok(mid, slice[j as int].model(), r));
            }
            slice[j].resolve(pos, r, &mut rec);
            let ghost prev = s.writer@;
            let w = s.writer.write(rec.as_slice());
            proof {
                T::lemma_record_len(dv[j as int], pos as int, r);
                assert(rec@ =~= T::record(dv[j as int], pos as int, r));
                assert(w is Ok);
                assert(s.writer@ =~= base + records_bytes::<T>(
                    dv,
                    start,
                    first as int,
                    (j + 1) as nat,
                ));
                assert forall|k: int| 0 <= k < j + 1 implies s.writer@.subrange(
                    element_pos(first as int, k, sz),
                    element_pos(first as int, k, sz) + sz,
                ) == T::record(dv[k], #[trigger] element_pos(first as int, k, sz), rs[k]) by {
                    lemma_element_pos_bound(first as int, k, j + 1, sz);
                    if k < j {
                        lemma_element_pos_bound(first as int, k, j as int, sz);
                        assert(s.writer@.subrange(
                            element_pos(first as int, k, sz),
                            element_pos(first as int, k, sz) + sz,
                        ) =~= prev.subrange(
                            element_pos(first as int, k, sz),
                            element_pos(first as int, k, sz) + sz,
                        ));
                    } else {
                        assert(s.writer@.subrange(pos as int, pos + sz) =~= rec@);
                    }
                }
            }
            j = j + 1;
        }
        s.allocator.release(held);
        proof {
            let fin = s.writer@;
            assert(fin =~= before + vec_out_of_line::<T>(dv, start));
            assert forall|k: int| 0 <= k < dv.len() implies T::valid_at(
                fin,
                #[trigger] element_pos(first as int, k, sz),
            ) && T::value_at(fin, element_pos(first as int, k, sz)) == T::archived_value(
                dv[k],
            ) by {
                lemma_element_pos_bound(first as int, k, n as int, sz);
                lemma_element_pos_aligned(first as int, k, sz, T::spec_align());
                T::lemma_resolve(mid, fin, element_pos(first as int, k, sz), dv[k], rs[k]);
            }
        }
        Ok(VecResolver { pos: first })
    }

    /// Appends to `out` the record of a sequence of `len` items for the
    /// position `pos`: the pointer to the first element record, then the
    /// length.
    pub fn resolve_from_len(len: usize, pos: usize, resolver: VecResolver, out: &mut Vec<u8>)
        requires
            pos <= MAX_POSITION,
            resolver.pos <= MAX_POSITION,
        ensures
            final(out)@ == old(out)@ + vec_record(len as nat, pos as int, resolver),
            vec_record(len as nat, pos as int, resolver).len() == VEC_SIZE,
    {
        proof {
            lemma_vec_record_len(len as nat, pos as int, resolver);
        }
        let ghost before = out@;
        emplace(out, pos, resolver.pos);
        write_le(out, len as u64, 4);
        proof {
            assert(out@ =~= before + vec_record(len as nat, pos as int, resolver));
        }
    }

    /// Appends to `out` the record of the sequence of the items of `slice`
    /// for the position `pos`.
    pub fn resolve_from_slice(slice: &[T], pos: usize, resolver: VecResolver, out: &mut Vec<u8>)
        requires
            pos <= MAX_POSITION,
            resolver.pos <= MAX_POSITION,
        ensures
            final(out)@ == old(out)@ + vec_record(slice@.len(), pos as int, resolver),
            vec_record(slice@.len(), pos as int, resolver).len() == VEC_SIZE,
    {
        Self::resolve_from_len(slice.len(), pos, resolver, out)
    }

    /// The number of items of the sequence whose record stands at `pos`.
    pub fn len(buf: &[u8], pos: usize) -> (n: usize)
        requires
            vec_valid_at::<T>(buf@, pos as int),
        ensures
            n == vec_len(buf@, pos as int),
            n == vec_value_at::<T>(buf@, pos as int).len(),
    {
        proof {
            lemma_pow256_values();
        }
        let total: usize = buf.len();
        assert(pos + 8 <= total);
        let n: u64 = read_le(buf, pos + 4, 4);
        n as usize
    }

    /// The position of the first element record of the sequence whose record
    /// stands at `pos`.
    pub fn first(buf: &[u8], pos: usize) -> (p: usize)
        requires
            vec_valid_at::<T>(buf@, pos as int),
        ensures
            p == vec_first(buf@, pos as int),
    {
        let off: i32 = read_offset(buf, pos);
        (pos as i128 + off as i128) as usize
    }

    /// The position of the record of the item `index` of the sequence whose
    /// record stands at `pos`, or `None` where the sequence has no such item.
    pub fn get(buf: &[u8], pos: usize, index: usize) -> (r: Option<usize>)
        requires
            vec_valid_at::<T>(buf@, pos as int),
        ensures
            index < vec_len(buf@, pos as int) ==> r == Some(
                element_pos(vec_first(buf@, pos as int), index as int, T::spec_size()) as usize,
            ) && T::valid_at(
                buf@,
                element_pos(vec_first(buf@, pos as int), index as int, T::spec_size()),
            ) && T::value_at(
                buf@,
                element_pos(vec_first(buf@, pos as int), index as int, T::spec_size()),
            ) == vec_value_at::<T>(buf@, pos as int)[index as int],
            index >= vec_len(buf@, pos as int) ==> r.is_none(),
    {
        let n: usize = Self::len(buf, pos);
        if index >= n {
            return None;
        }
        let first: usize = Self::first(buf, pos);
        let size: usize = T::size();
        proof {
            lemma_element_pos_bound(first as int, index as int, n as int, size as nat);
        }
        Some(first + index * size)
    }
}

impl<T: Archive> Archive for Vec<T> {
    type Model = Seq<T::Model>;

    type Resolver = VecResolver;

    open spec fn model(&self) -> Seq<T::Model> {
        deep_seq(self@)
    }

    open spec fn spec_size() -> nat {
        8
    }

    open spec fn spec_align() -> nat {
        4
    }

    open spec fn valid_at(buf: Seq<u8>, pos: int) -> bool {
        vec_valid_at::<T>(buf, pos)
    }

    open spec fn value_at(buf: Seq<u8>, pos: int) -> Seq<T::Model> {
        vec_value_at::<T>(buf, pos)
    }

    open spec fn admits(v: Seq<T::Model>) -> bool {
        vec_admits::<T>(v)
    }

    open spec fn archived_value(v: Seq<T::Model>) -> Seq<T::Model> {
        vec_archived_value::<T>(v)
    }

    open spec fn resolver_ok(buf: Seq<u8>, v: Seq<T::Model>, r: VecResolver) -> bool {
        vec_resolver_ok::<T>(buf, v, r)
    }

    open spec fn record(v: Seq<T::Model>, pos: int, r: VecResolver) -> Seq<u8> {
        vec_record(v.len(), pos, r)
    }

    open spec fn out_of_line(v: Seq<T::Model>, start: int) -> Seq<u8> {
        vec_out_of_line::<T>(v, start)
    }

    open spec fn resolver_at(v: Seq<T::Model>, start: int) -> VecResolver {
        vec_resolver_at::<T>(v, start)
    }

    open spec fn serialized_len(v: Seq<T::Model>, start: int) -> nat {
        vec_serialized_len::<T>(v, start)
    }

    open spec fn scratch_len(v: Seq<T::Model>) -> nat {
        vec_scratch_len::<T>(v)
    }

    proof fn lemma_layout() {
        assert(8nat % 4nat == 0);
    }

    proof fn lemma_out_of_line_len(v: Seq<T::Model>, start: int) {
        lemma_vec_out_of_line_len::<T>(v, start);
    }

    proof fn lemma_serialized(before: Seq<u8>, v: Seq<T::Model>) {
        lemma_vec_serialized::<T>(before, v);
    }

    proof fn lemma_record_len(v: Seq<T::Model>, pos: int, r: VecResolver) {
        lemma_vec_record_len(v.len(), pos, r);
    }

    proof fn lemma_valid_bounds(buf: Seq<u8>, pos: int) {
    }

    proof fn lemma_moved(buf: Seq<u8>, pos: int, other: Seq<u8>, delta: int) {
        lemma_vec_moved::<T>(buf, pos, other, delta);
    }

    proof fn lemma_resolver_extends(
        buf: Seq<u8>,
        longer: Seq<u8>,
        v: Seq<T::Model>,
        r: VecResolver,
    ) {
        lemma_vec_resolver_extends::<T>(buf, longer, v, r);
    }

    proof fn lemma_resolve(
        before: Seq<u8>,
        buf: Seq<u8>,
        pos: int,
        v: Seq<T::Model>,
        r: VecResolver,
    ) {
        lemma_vec_resolve::<T>(before, buf, pos, v, r);
    }

    fn size() -> (n: usize) {
        VEC_SIZE
    }

    fn align() -> (a: usize) {
        VEC_ALIGN
    }

    fn serialize(&self, s: &mut Serializer) -> (res: Result<VecResolver, ArchiveError>) {
        proof {
            assert(self.model() =~= deep_seq(self@));
        }
        ArchivedVec::<T>::serialize_from_slice(self.as_slice(), s)
    }

    fn resolve(&self, pos: usize, resolver: VecResolver, out: &mut Vec<u8>) {
        proof {
            assert(self.model() =~= deep_seq(self@));
            let b = choose|b: Seq<u8>| #[trigger]
                vec_resolver_ok::<T>(b, self.model(), resolver) && b.len() <= pos;
            assert(self@.len() * T::spec_size() >= 0) by (nonlinear_arith);
        }
        ArchivedVec::<T>::resolve_from_slice(self.as_slice(), pos, resolver, out)
    }

    fn validate(buf: &[u8], pos: usize) -> (r: Result<(), ArchiveError>) {
        if pos > buf.len() || buf.len() - pos < 8 {
            return Err(ArchiveError::OutOfBounds);
        }
        if pos % 4 != 0 {
            return Err(ArchiveError::Unaligned);
        }
        let off: i32 = read_offset(buf, pos);
        let len: u64 = read_le(buf, pos + 4, 4);
        let target: i128 = pos as i128 + off as i128;
        if target < 0 || target > pos as i128 {
            proof {
                assert(len * T::spec_size() >= 0) by (nonlinear_arith)
                    requires
                        len >= 0,
                ;
            }
            return Err(ArchiveError::OutOfBounds);
        }
        let first: usize = target as usize;
        let size: usize = T::size();
        let align: usize = T::align();
        proof {
            T::lemma_layout();
            lemma_pow256_values();
        }
        if first % align != 0 {
            return Err(ArchiveError::Unaligned);
        }
        assert(len * size <= 0xffff_ffff * 0xffff_ffff_ffff_ffff) by (nonlinear_arith)
            requires
                0 <= len <= 0xffff_ffff,
                0 <= size <= 0xffff_ffff_ffff_ffff,
        ;
        let extent: u128 = len as u128 * size as u128;
        if extent > (pos - first) as u128 {
            return Err(ArchiveError::OutOfBounds);
        }
        let n: usize = len as usize;
        let mut i: usize = 0;
        while i < n
            invariant
                i <= n,
                n == vec_len(buf@, pos as int),
                first == vec_first(buf@, pos as int),
                size == T::spec_size(),
                first + n * size <= pos,
                pos + 8 <= buf@.len(),
                forall|k: int|
                    0 <= k < i ==> T::valid_at(
                        buf@,
                        #[trigger] element_pos(first as int, k, size as nat),
                    ),
            decreases n - i,
        {
            proof {
                lemma_element_pos_bound(first as int, i as int, n as int, size as nat);
            }
            match T::validate(buf, first + i * size) {
                Ok(()) => {},
                Err(e) => {
                    proof {
                        assert(!T::valid_at(
                            buf@,
                            element_pos(first as int, i as int, size as nat),
                        ));
                    }
                    return Err(e);
                },
            }
            i = i + 1;
        }
        Ok(())
    }

    fn deserialize(buf: &[u8], pos: usize) -> (v: Vec<T>) {
        let n: usize = ArchivedVec::<T>::len(buf, pos);
        let first: usize = ArchivedVec::<T>::first(buf, pos);
        let size: usize = T::size();
        let mut out: Vec<T> = Vec::new();
        let mut i: usize = 0;
        while i < n
            invariant
                i <= n,
                n == vec_len(buf@, pos as int),
                first == vec_first(buf@, pos as int),
                size == T::spec_size(),
                vec_valid_at::<T>(buf@, pos as int),
                out@.len() == i,
                forall|k: int|
                    0 <= k < i ==> (#[trigger] out@[k]).model() == T::value_at(
                        buf@,
                        element_pos(first as int, k, size as nat),
                    ),
            decreases n - i,
        {
            proof {
                lemma_element_pos_bound(first as int, i as int, n as int, size as nat);
                assert(T::valid_at(buf@, element_pos(first as int, i as int, size as nat)));
            }
            let item: T = T::deserialize(buf, first + i * size);
            out.push(item);
            i = i + 1;
        }
        proof {
            assert(out.model() =~= vec_value_at::<T>(buf@, pos as int));
        }
        out
    }
}

impl<T: Archive> Field for Vec<T> {
    proof fn lemma_field_size() {
    }
}

/// The record of a sequence has eight bytes.
pub proof fn lemma_vec_record_len(len: nat, pos: int, r: VecResolver)
    ensures
        vec_record(len, pos, r).len() == 8,
{
    lemma_le_bytes_len(to_twos(distance(pos, r.pos as int), 4), 4);
    lemma_le_bytes_len(len, 4);
}

/// A sequence record means the same wherever the bytes up to its end are
/// moved.
pub proof fn lemma_vec_moved<T: Archive>(buf: Seq<u8>, pos: int, other: Seq<u8>, delta: int)
    requires
        vec_valid_at::<T>(buf, pos),
        embeds(buf, pos + 8, other, delta),
        delta % (MAX_ALIGN as int) == 0,
    ensures
        vec_valid_at::<T>(other, pos + delta),
        vec_value_at::<T>(other, pos + delta) == vec_value_at::<T>(buf, pos),
{
    T::lemma_layout();
    assert(other.subrange(pos + delta, pos + delta + 4) =~= buf.subrange(pos, pos + 4));
    assert(other.subrange(pos + delta + 4, pos + delta + 8) =~= buf.subrange(pos + 4, pos + 8));
    let first = vec_first(buf, pos);
    let len = vec_len(buf, pos);
    assert(vec_first(other, pos + delta) == first + delta);
    assert(vec_len(other, pos + delta) == len);
    lemma_shift_keeps_alignment(pos, delta, 4);
    lemma_shift_keeps_alignment(first, delta, T::spec_align());
    lemma_elements_moved::<T>(buf, first, len, other, delta);
}

/// The resolver of a sequence stays good when more is written.
pub proof fn lemma_vec_resolver_extends<T: Archive>(
    buf: Seq<u8>,
    longer: Seq<u8>,
    v: Seq<T::Model>,
    r: VecResolver,
)
    requires
        vec_resolver_ok::<T>(buf, v, r),
        buf.is_prefix_of(longer),
    ensures
        vec_resolver_ok::<T>(longer, v, r),
{
    let size = T::spec_size();
    assert forall|i: int| 0 <= i < v.len() implies T::valid_at(
        longer,
        #[trigger] element_pos(r.pos as int, i, size),
    ) && T::value_at(longer, element_pos(r.pos as int, i, size)) == T::archived_value(v[i]) by {
        lemma_element_pos_bound(r.pos as int, i, v.len() as int, size);
        T::lemma_moved(buf, element_pos(r.pos as int, i, size), longer, 0);
    }
}

/// Once the record of a sequence stands after its element records, the
/// buffer holds the sequence there.
pub proof fn lemma_vec_resolve<T: Archive>(
    before: Seq<u8>,
    buf: Seq<u8>,
    pos: int,
    v: Seq<T::Model>,
    r: VecResolver,
)
    requires
        vec_resolver_ok::<T>(before, v, r),
        before.is_prefix_of(buf),
        before.len() <= pos,
        pos % 4 == 0,
        pos + 8 <= buf.len(),
        pos + 8 <= MAX_POSITION,
        buf.subrange(pos, pos + 8) == vec_record(v.len(), pos, r),
    ensures
        vec_valid_at::<T>(buf, pos),
        vec_value_at::<T>(buf, pos) == vec_archived_value::<T>(v),
{
    let size = T::spec_size();
    let kept = v.len() % 0x1_0000_0000;
    assert(v.len() * size >= 0 && kept * size <= v.len() * size) by (nonlinear_arith)
        requires
            0 <= kept <= v.len(),
            size >= 0,
    ;
    lemma_vec_record_fields(buf, pos, v.len(), r);
    lemma_vec_resolver_extends::<T>(before, buf, v, r);
    assert forall|i: int| 0 <= i < kept implies T::valid_at(
        buf,
        #[trigger] element_pos(r.pos as int, i, size),
    ) by {
        assert(T::valid_at(buf, element_pos(r.pos as int, i, size)));
    }
    assert(vec_value_at::<T>(buf, pos) =~= vec_archived_value::<T>(v));
}

/// After the children of the first `n` items have been serialized, the
/// resolver of each of these items is good.
pub proof fn lemma_children_serialized<T: Archive>(
    before: Seq<u8>,
    v: Seq<T::Model>,
    n: nat,
    k: int,
)
    requires
        0 <= k < n <= v.len(),
        vec_admits::<T>(v),
        children_end::<T>(v, before.len() as int, n) <= MAX_POSITION,
    ensures
        T::resolver_ok(
            before + children_bytes::<T>(v, before.len() as int, n),
            v[k],
            child_resolver::<T>(v, before.len() as int, k),
        ),
    decreases n,
{
    let start = before.len() as int;
    let m = (n - 1) as nat;
    let shorter = before + children_bytes::<T>(v, start, m);
    let longer = before + children_bytes::<T>(v, start, n);
    lemma_children_bytes_len::<T>(v, start, m);
    lemma_children_end_monotone::<T>(v, start, m, n);
    assert(longer =~= shorter + T::out_of_line(v[m as int], children_end::<T>(v, start, m)));
    if k == m {
        T::lemma_serialized(shorter, v[m as int]);
    } else {
        lemma_children_serialized::<T>(before, v, m, k);
        T::lemma_resolver_extends(shorter, longer, v[k], child_resolver::<T>(v, start, k));
    }
}

/// The record of the item `k` stands among the records of the first `n`
/// items at its place.
pub proof fn lemma_records_bytes_at<T: Archive>(
    v: Seq<T::Model>,
    start: int,
    first: int,
    n: nat,
    k: int,
)
    requires
        0 <= k < n,
    ensures
        k * T::spec_size() + T::spec_size() <= records_bytes::<T>(v, start, first, n).len(),
        records_bytes::<T>(v, start, first, n).subrange(
            k * T::spec_size(),
            k * T::spec_size() + T::spec_size(),
        ) == T::record(
            v[k],
            element_pos(first, k, T::spec_size()),
            child_resolver::<T>(v, start, k),
        ),
    decreases n,
{
    let size = T::spec_size();
    let m = (n - 1) as nat;
    let all = records_bytes::<T>(v, start, first, n);
    let init = records_bytes::<T>(v, start, first, m);
    let last = T::record(
        v[m as int],
        element_pos(first, m as int, size),
        child_resolver::<T>(v, start, m as int),
    );
    lemma_records_bytes_len::<T>(v, start, first, m);
    lemma_records_bytes_len::<T>(v, start, first, n);
    T::lemma_record_len(
        v[m as int],
        element_pos(first, m as int, size),
        child_resolver::<T>(v, start, m as int),
    );
    assert(k * size + size <= n * size && n * size == m * size + size && 0 <= k * size)
        by (nonlinear_arith)
        requires
            0 <= k < n,
            m == n - 1,
            size >= 0,
    ;
    if k == m {
        assert(all.subrange(k * size, k * size + size) =~= last);
    } else {
        lemma_records_bytes_at::<T>(v, start, first, m, k);
        assert(k * size + size <= m * size) by (nonlinear_arith)
            requires
                0 <= k < m,
                size >= 0,
        ;
        assert(all.subrange(k * size, k * size + size) =~= init.subrange(
            k * size,
            k * size + size,
        ));
    }
}

/// What serializing a sequence writes is what resolving it builds on: the
/// records of the items stand at the position of the resolver and hold the
/// items.
pub proof fn lemma_vec_serialized<T: Archive>(before: Seq<u8>, v: Seq<T::Model>)
    requires
        vec_admits::<T>(v),
        before.len() + vec_serialized_len::<T>(v, before.len() as int) <= MAX_POSITION,
    ensures
        vec_resolver_ok::<T>(
            before + vec_out_of_line::<T>(v, before.len() as int),
            v,
            vec_resolver_at::<T>(v, before.len() as int),
        ),
{
    let start = before.len() as int;
    let n = v.len();
    let size = T::spec_size();
    let end = children_end::<T>(v, start, n);
    let first = vec_elements_start::<T>(v, start);
    let mid = before + children_bytes::<T>(v, start, n);
    let fin = before + vec_out_of_line::<T>(v, start);
    let records = records_bytes::<T>(v, start, first, n);
    T::lemma_layout();
    lemma_children_end_monotone::<T>(v, start, n, n);
    lemma_children_bytes_len::<T>(v, start, n);
    lemma_align_up(end, T::spec_align() as int);
    lemma_records_bytes_len::<T>(v, start, first, n);
    assert(n * size >= 0) by (nonlinear_arith)
        requires
            n >= 0,
            size >= 0,
    ;
    assert(fin =~= mid + padding(first - end) + records);
    assert forall|k: int| 0 <= k < n implies T::valid_at(
        fin,
        #[trigger] element_pos(first, k, size),
    ) && T::value_at(fin, element_pos(first, k, size)) == T::archived_value(v[k]) by {
        lemma_children_serialized::<T>(before, v, n, k);
        lemma_records_bytes_at::<T>(v, start, first, n, k);
        lemma_element_pos_bound(first, k, n as int, size);
        lemma_element_pos_aligned(first, k, size, T::spec_align());
        assert(fin.subrange(element_pos(first, k, size), element_pos(first, k, size) + size)
            =~= records.subrange(k * size, k * size + size));
        T::lemma_resolve(
            mid,
            fin,
            element_pos(first, k, size),
            v[k],
            child_resolver::<T>(v, start, k),
        );
    }
}

/// A sequence is archived whole when its length fits the length field and
/// each of its items is archived whole.
pub proof fn lemma_vec_archivable<T: Archive>(v: Seq<T::Model>)
    requires
        v.len() <= u32::MAX,
        forall|i: int| 0 <= i < v.len() ==> crate::traits::archivable::<T>(#[trigger] v[i]),
    ensures
        crate::traits::archivable::<Vec<T>>(v),
{
    assert(vec_archived_value::<T>(v) =~= v);
}

} // verus!
