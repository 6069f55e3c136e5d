//! `arrayvec::ArrayVec` of four `i32`, archived as a sequence of at most
//! four items.

use crate::error::ArchiveError;
use crate::ser::serializer::Serializer;
use crate::traits::{Archive, Field};
use crate::vec::{
    deep_seq, lemma_vec_moved, lemma_vec_out_of_line_len, lemma_vec_record_len, lemma_vec_resolve,
    lemma_vec_resolver_extends, lemma_vec_serialized, vec_archived_value, vec_len, vec_out_of_line,
    vec_record, vec_resolver_at, vec_resolver_ok, vec_scratch_len, vec_serialized_len, vec_valid_at,
    vec_value_at, ArchivedVec, VecResolver,
};
use arrayvec::ArrayVec;
use vstd::prelude::*;

verus! {

/// `arrayvec::ArrayVec`: a vector of fixed capacity that is stored in line.
#[verifier::external_type_specification]
#[verifier::external_body]
#[verifier::reject_recursive_types(T)]
pub struct ExArrayVec<T, const CAP: usize>(arrayvec::ArrayVec<T, CAP>);

/// The items that the collection holds, in order.
pub uninterp spec fn array_vec_items(v: ArrayVec<i32, 4>) -> Seq<i32>;

/// The most items that the collection holds.
pub const CAPACITY: usize = 4;

/// An empty collection: `ArrayVec::new`.
#[verifier::external_body]
fn new() -> (v: ArrayVec<i32, 4>)
    ensures
        array_vec_items(v) == Seq::<i32>::empty(),
{
    ArrayVec::new()
}

/// The items as a slice: `ArrayVec::as_slice`. It never holds more than its capacity.
#[verifier::external_body]
fn as_slice(v: &ArrayVec<i32, 4>) -> (s: &[i32])
    ensures
        s@ == array_vec_items(*v),
        s@.len() <= CAPACITY,
{
    v.as_slice()
}

/// Adds an item at the end: `ArrayVec::push`. The collection must not be full.
#[verifier::external_body]
fn push(v: &mut ArrayVec<i32, 4>, item: i32)
    requires
        array_vec_items(*old(v)).len() < CAPACITY,
    ensures
        array_vec_items(*final(v)) == array_vec_items(*old(v)).push(item),
{
    v.push(item)
}

impl Archive for ArrayVec<i32, 4> {
    type Model = Seq<i32>;

    type Resolver = VecResolver;

    open spec fn model(&self) -> Seq<i32> {
        array_vec_items(*self)
    }

    open spec fn spec_size() -> nat {
        8
    }

    open spec fn spec_align() -> nat {
        4
    }

    open spec fn valid_at(buf: Seq<u8>, pos: int) -> bool {
        vec_valid_at::<i32>(buf, pos) && vec_len(buf, pos) <= CAPACITY
    }

    open spec fn value_at(buf: Seq<u8>, pos: int) -> Seq<i32> {
        vec_value_at::<i32>(buf, pos)
    }

    open spec fn admits(v: Seq<i32>) -> bool {
        v.len() <= CAPACITY
    }

    open spec fn archived_value(v: Seq<i32>) -> Seq<i32> {
        vec_archived_value::<i32>(v)
    }

    open spec fn resolver_ok(buf: Seq<u8>, v: Seq<i32>, r: VecResolver) -> bool {
        vec_resolver_ok::<i32>(buf, v, r) && v.len() <= CAPACITY
    }

    open spec fn record(v: Seq<i32>, pos: int, r: VecResolver) -> Seq<u8> {
        vec_record(v.len(), pos, r)
    }

    open spec fn out_of_line(v: Seq<i32>, start: int) -> Seq<u8> {
        vec_out_of_line::<i32>(v, start)
    }

    open spec fn resolver_at(v: Seq<i32>, start: int) -> VecResolver {
        vec_resolver_at::<i32>(v, start)
    }

    open spec fn serialized_len(v: Seq<i32>, start: int) -> nat {
        vec_serialized_len::<i32>(v, start)
    }

    open spec fn scratch_len(v: Seq<i32>) -> nat {
        vec_scratch_len::<i32>(v)
    }

    proof fn lemma_layout() {
        assert(8nat % 4nat == 0);
    }

    proof fn lemma_out_of_line_len(v: Seq<i32>, start: int) {
        lemma_vec_out_of_line_len::<i32>(v, start);
    }

    proof fn lemma_serialized(before: Seq<u8>, v: Seq<i32>) {
        lemma_vec_serialized::<i32>(before, v);
    }

    proof fn lemma_record_len(v: Seq<i32>, pos: int, r: VecResolver) {
        lemma_vec_record_len(v.len(), pos, r);
    }

    proof fn lemma_valid_bounds(buf: Seq<u8>, pos: int) {
    }

    proof fn lemma_moved(buf: Seq<u8>, pos: int, other: Seq<u8>, delta: int) {
        lemma_vec_moved::<i32>(buf, pos, other, delta);
        assert(other.subrange(pos + delta + 4, pos + delta + 8) =~= buf.subrange(
            pos + 4,
            pos + 8,
        ));
    }

    proof fn lemma_resolver_extends(buf: Seq<u8>, longer: Seq<u8>, v: Seq<i32>, r: VecResolver) {
        lemma_vec_resolver_extends::<i32>(buf, longer, v, r);
    }

    proof fn lemma_resolve(before: Seq<u8>, buf: Seq<u8>, pos: int, v: Seq<i32>, r: VecResolver) {
        lemma_vec_resolve::<i32>(before, buf, pos, v, r);
        assert(v.len() * 4 >= 0);
        crate::vec::lemma_vec_record_fields(buf, pos, v.len(), r);
    }

    fn size() -> (n: usize) {
        8
    }

    fn align() -> (a: usize) {
        4
    }

    fn serialize(&self, s: &mut Serializer) -> (res: Result<VecResolver, ArchiveError>) {
        let items: &[i32] = as_slice(self);
        proof {
            assert(deep_seq(items@) =~= array_vec_items(*self));
        }
        ArchivedVec::<i32>::serialize_from_slice(items, s)
    }

    fn resolve(&self, pos: usize, resolver: VecResolver, out: &mut Vec<u8>) {
        proof {
            let b = choose|b: Seq<u8>| #[trigger]
                Self::resolver_ok(b, self.model(), resolver) && b.len() <= pos;
            assert(self.model().len() * 4 >= 0);
        }
        ArchivedVec::<i32>::resolve_from_slice(as_slice(self), pos, resolver, out)
    }

    fn validate(buf: &[u8], pos: usize) -> (r: Result<(), ArchiveError>) {
        if let Err(e) = <Vec<i32> as Archive>::validate(buf, pos) {
            return Err(e);
        }
        if ArchivedVec::<i32>::len(buf, pos) > CAPACITY {
            return Err(ArchiveError::InvalidValue);
        }
        Ok(())
    }

    fn deserialize(buf: &[u8], pos: usize) -> (v: ArrayVec<i32, 4>) {
        let n: usize = ArchivedVec::<i32>::len(buf, pos);
        let ghost all = vec_value_at::<i32>(buf@, pos as int);
        let mut result: ArrayVec<i32, 4> = new();
        let mut i: usize = 0;
        while i < n
            invariant
                i <= n,
                n == all.len(),
                all == vec_value_at::<i32>(buf@, pos as int),
                Self::valid_at(buf@, pos as int),
                array_vec_items(result) == all.take(i as int),
            decreases n - i,
        {
            match ArchivedVec::<i32>::get(buf, pos, i) {
                Some(at) => {
                    let item: i32 = <i32 as Archive>::deserialize(buf, at);
                    push(&mut result, item);
                    proof {
                        assert(all.take(i + 1) =~= all.take(i as int).push(all[i as int]));
                    }
                },
                None => {},
            }
            i = i + 1;
        }
        proof {
            assert(all.take(n as int) =~= all);
        }
        result
    }
}

impl Field for ArrayVec<i32, 4> {
    proof fn lemma_field_size() {
    }
}

} // verus!
