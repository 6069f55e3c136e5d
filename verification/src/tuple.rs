//! Pairs: the record of a pair is the record of its first part, then, at the
//! next position aligned for it, the record of its second part. The entries
//! of a map are pairs of a key and a value.

use crate::error::ArchiveError;
use crate::ser::serializer::Serializer;
use crate::ser::writer::{align_up, lemma_align_up, padding, push_padding, round_up};
use crate::traits::{lemma_shift_keeps_alignment, valid_align, Archive, Field, MAX_FIELD_SIZE};
use crate::vec::lemma_add_keeps_alignment;
use vstd::prelude::*;

verus! {

/// The larger of two numbers.
pub open spec fn larger(a: nat, b: nat) -> nat {
    if a >= b {
        a
    } else {
        b
    }
}

/// The alignment of the record of a pair.
pub open spec fn pair_align<K: Archive, V: Archive>() -> nat {
    larger(K::spec_align(), V::spec_align())
}

/// Where in the record of a pair the record of the second part starts.
pub open spec fn pair_second<K: Archive, V: Archive>() -> nat {
    align_up(K::spec_size() as int, V::spec_align() as int) as nat
}

/// The size of the record of a pair.
pub open spec fn pair_size<K: Archive, V: Archive>() -> nat {
    align_up((pair_second::<K, V>() + V::spec_size()) as int, pair_align::<K, V>() as int) as nat
}

/// The record of a pair for the position `pos`.
pub open spec fn pair_record<K: Archive, V: Archive>(
    v: (K::Model, V::Model),
    pos: int,
    r: (K::Resolver, V::Resolver),
) -> Seq<u8> {
    K::record(v.0, pos, r.0) + padding(pair_second::<K, V>() - K::spec_size()) + V::record(
        v.1,
        pos + pair_second::<K, V>(),
        r.1,
    ) + padding(pair_size::<K, V>() - pair_second::<K, V>() - V::spec_size())
}

/// A multiple of an alignment is a multiple of every smaller alignment.
pub proof fn lemma_aligned_for_smaller(p: int, small: nat, large: nat)
    requires
        valid_align(small),
        valid_align(large),
        small <= large,
        p % (large as int) == 0,
    ensures
        p % (small as int) == 0,
{
    let q = p / (large as int);
    assert(p == large * q) by {
        vstd::arithmetic::div_mod::lemma_fundamental_div_mod(p, large as int);
    }
    if small == large {
    } else if small == 1 {
    } else if small == 2 {
        if large == 4 {
            assert(p == (2 * q) * 2);
            vstd::arithmetic::div_mod::lemma_mod_multiples_basic(2 * q, 2);
        } else if large == 8 {
            assert(p == (4 * q) * 2);
            vstd::arithmetic::div_mod::lemma_mod_multiples_basic(4 * q, 2);
        } else {
            assert(p == (8 * q) * 2);
            vstd::arithmetic::div_mod::lemma_mod_multiples_basic(8 * q, 2);
        }
    } else if small == 4 {
        if large == 8 {
            assert(p == (2 * q) * 4);
            vstd::arithmetic::div_mod::lemma_mod_multiples_basic(2 * q, 4);
        } else {
            assert(p == (4 * q) * 4);
            vstd::arithmetic::div_mod::lemma_mod_multiples_basic(4 * q, 4);
        }
    } else {
        assert(small == 8 && large == 16);
        assert(p == (2 * q) * 8);
        vstd::arithmetic::div_mod::lemma_mod_multiples_basic(2 * q, 8);
    }
}

/// The parts of a pair lie inside its record, one after the other, each
/// aligned when the record is.
pub proof fn lemma_pair_layout<K: Field, V: Field>()
    ensures
        valid_align(pair_align::<K, V>()),
        valid_align(K::spec_align()),
        valid_align(V::spec_align()),
        K::spec_align() <= pair_align::<K, V>(),
        V::spec_align() <= pair_align::<K, V>(),
        K::spec_size() <= pair_second::<K, V>(),
        pair_second::<K, V>() % V::spec_align() == 0,
        pair_second::<K, V>() + V::spec_size() <= pair_size::<K, V>(),
        pair_size::<K, V>() % pair_align::<K, V>() == 0,
        pair_size::<K, V>() <= 2 * MAX_FIELD_SIZE + 32,
{
    K::lemma_layout();
    V::lemma_layout();
    K::lemma_field_size();
    V::lemma_field_size();
    lemma_align_up(K::spec_size() as int, V::spec_align() as int);
    lemma_align_up((pair_second::<K, V>() + V::spec_size()) as int, pair_align::<K, V>() as int);
}

/// The length of the record of a pair is the size of the pair.
pub proof fn lemma_pair_record_len<K: Field, V: Field>(
    v: (K::Model, V::Model),
    pos: int,
    r: (K::Resolver, V::Resolver),
)
    ensures
        pair_record::<K, V>(v, pos, r).len() == pair_size::<K, V>(),
{
    lemma_pair_layout::<K, V>();
    K::lemma_record_len(v.0, pos, r.0);
    V::lemma_record_len(v.1, pos + pair_second::<K, V>(), r.1);
}

impl<K: Field, V: Field> Archive for (K, V) {
    type Model = (K::Model, V::Model);

    type Resolver = (K::Resolver, V::Resolver);

    open spec fn model(&self) -> (K::Model, V::Model) {
        (self.0.model(), self.1.model())
    }

    open spec fn spec_size() -> nat {
        pair_size::<K, V>()
    }

    open spec fn spec_align() -> nat {
        pair_align::<K, V>()
    }

    open spec fn valid_at(buf: Seq<u8>, pos: int) -> bool {
        &&& 0 <= pos
        &&& pos % (pair_align::<K, V>() as int) == 0
        &&& pos + pair_size::<K, V>() <= buf.len()
        &&& K::valid_at(buf, pos)
        &&& V::valid_at(buf, pos + pair_second::<K, V>())
    }

    open spec fn value_at(buf: Seq<u8>, pos: int) -> (K::Model, V::Model) {
        (K::value_at(buf, pos), V::value_at(buf, pos + pair_second::<K, V>()))
    }

    open spec fn admits(v: (K::Model, V::Model)) -> bool {
        K::admits(v.0) && V::admits(v.1)
    }

    open spec fn archived_value(v: (K::Model, V::Model)) -> (K::Model, V::Model) {
        (K::archived_value(v.0), V::archived_value(v.1))
    }

    open spec fn resolver_ok(
        buf: Seq<u8>,
        v: (K::Model, V::Model),
        r: (K::Resolver, V::Resolver),
    ) -> bool {
        K::resolver_ok(buf, v.0, r.0) && V::resolver_ok(buf, v.1, r.1)
    }

    open spec fn record(
        v: (K::Model, V::Model),
        pos: int,
        r: (K::Resolver, V::Resolver),
    ) -> Seq<u8> {
        pair_record::<K, V>(v, pos, r)
    }

    open spec fn out_of_line(v: (K::Model, V::Model), start: int) -> Seq<u8> {
        K::out_of_line(v.0, start) + V::out_of_line(v.1, start + K::serialized_len(v.0, start))
    }

    open spec fn resolver_at(v: (K::Model, V::Model), start: int) -> (K::Resolver, V::Resolver) {
        (K::resolver_at(v.0, start), V::resolver_at(v.1, start + K::serialized_len(v.0, start)))
    }

    open spec fn serialized_len(v: (K::Model, V::Model), start: int) -> nat {
        K::serialized_len(v.0, start) + V::serialized_len(
            v.1,
            start + K::serialized_len(v.0, start),
        )
    }

    open spec fn scratch_len(v: (K::Model, V::Model)) -> nat {
        larger(K::scratch_len(v.0), V::scratch_len(v.1))
    }

    proof fn lemma_layout() {
        lemma_pair_layout::<K, V>();
    }

    proof fn lemma_out_of_line_len(v: (K::Model, V::Model), start: int) {
        K::lemma_out_of_line_len(v.0, start);
        V::lemma_out_of_line_len(v.1, start + K::serialized_len(v.0, start));
    }

    proof fn lemma_serialized(before: Seq<u8>, v: (K::Model, V::Model)) {
        let start = before.len() as int;
        let first = before + K::out_of_line(v.0, start);
        K::lemma_out_of_line_len(v.0, start);
        K::lemma_serialized(before, v.0);
        V::lemma_serialized(first, v.1);
        let both = first + V::out_of_line(v.1, start + K::serialized_len(v.0, start));
        K::lemma_resolver_extends(first, both, v.0, K::resolver_at(v.0, start));
        assert(both =~= before + Self::out_of_line(v, start));
    }

    proof fn lemma_record_len(v: (K::Model, V::Model), pos: int, r: (K::Resolver, V::Resolver)) {
        lemma_pair_record_len::<K, V>(v, pos, r);
    }

    proof fn lemma_valid_bounds(buf: Seq<u8>, pos: int) {
    }

    proof fn lemma_moved(buf: Seq<u8>, pos: int, other: Seq<u8>, delta: int) {
        lemma_pair_layout::<K, V>();
        lemma_shift_keeps_alignment(pos, delta, pair_align::<K, V>());
        K::lemma_moved(buf, pos, other, delta);
        V::lemma_moved(buf, pos + pair_second::<K, V>(), other, delta);
    }

    proof fn lemma_resolver_extends(
        buf: Seq<u8>,
        longer: Seq<u8>,
        v: (K::Model, V::Model),
        r: (K::Resolver, V::Resolver),
    ) {
        K::lemma_resolver_extends(buf, longer, v.0, r.0);
        V::lemma_resolver_extends(buf, longer, v.1, r.1);
    }

    proof fn lemma_resolve(
        before: Seq<u8>,
        buf: Seq<u8>,
        pos: int,
        v: (K::Model, V::Model),
        r: (K::Resolver, V::Resolver),
    ) {
        lemma_pair_layout::<K, V>();
        let second = pair_second::<K, V>() as int;
        let rec = pair_record::<K, V>(v, pos, r);
        K::lemma_record_len(v.0, pos, r.0);
        V::lemma_record_len(v.1, pos + second, r.1);
        lemma_aligned_for_smaller(pos, K::spec_align(), pair_align::<K, V>());
        lemma_aligned_for_smaller(pos, V::spec_align(), pair_align::<K, V>());
        lemma_add_keeps_alignment(pos, second, V::spec_align());
        assert(buf.subrange(pos, pos + K::spec_size()) =~= rec.subrange(
            0,
            K::spec_size() as int,
        ));
        assert(rec.subrange(0, K::spec_size() as int) =~= K::record(v.0, pos, r.0));
        assert(buf.subrange(pos + second, pos + second + V::spec_size()) =~= rec.subrange(
            second,
            second + V::spec_size(),
        ));
        assert(rec.subrange(second, second + V::spec_size()) =~= V::record(
            v.1,
            pos + second,
            r.1,
        ));
        K::lemma_resolve(before, buf, pos, v.0, r.0);
        V::lemma_resolve(before, buf, pos + second, v.1, r.1);
    }

    fn size() -> (n: usize) {
        proof {
            lemma_pair_layout::<K, V>();
            K::lemma_field_size();
            V::lemma_field_size();
        }
        let second: usize = round_up(K::size(), V::align());
        round_up(second + V::size(), Self::align())
    }

    fn align() -> (a: usize) {
        let k: usize = K::align();
        let v: usize = V::align();
        if k >= v {
            k
        } else {
            v
        }
    }

    fn serialize(&self, s: &mut Serializer) -> (res: Result<
        (K::Resolver, V::Resolver),
        ArchiveError,
    >) {
        let ghost start = s.writer@.len() as int;
        let ghost before = s.writer@;
        let first = match self.0.serialize(s) {
            Ok(r) => r,
            Err(e) => {
                return Err(e);
            },
        };
        let ghost mid = s.writer@;
        let second = match self.1.serialize(s) {
            Ok(r) => r,
            Err(e) => {
                return Err(e);
            },
        };
        proof {
            K::lemma_resolver_extends(mid, s.writer@, self.0.model(), first);
            assert(s.writer@ =~= before + Self::out_of_line(self.model(), start));
        }
        Ok((first, second))
    }

    fn resolve(&self, pos: usize, resolver: (K::Resolver, V::Resolver), out: &mut Vec<u8>) {
        proof {
            lemma_pair_layout::<K, V>();
            K::lemma_field_size();
            V::lemma_field_size();
            let b = choose|b: Seq<u8>| #[trigger]
                Self::resolver_ok(b, self.model(), resolver) && b.len() <= pos;
            assert(K::resolver_ok(b, self.0.model(), resolver.0));
            assert(V::resolver_ok(b, self.1.model(), resolver.1));
        }
        let ghost before = out@;
        let ghost v = self.model();
        let ksize: usize = K::size();
        let vsize: usize = V::size();
        let second: usize = round_up(ksize, V::align());
        let size: usize = round_up(second + vsize, Self::align());
        self.0.resolve(pos, resolver.0, out);
        push_padding(out, second - ksize);
        self.1.resolve(pos + second, resolver.1, out);
        push_padding(out, size - second - vsize);
        proof {
            assert(out@ =~= before + pair_record::<K, V>(v, pos as int, resolver));
        }
    }

    fn validate(buf: &[u8], pos: usize) -> (r: Result<(), ArchiveError>) {
        proof {
            lemma_pair_layout::<K, V>();
            K::lemma_field_size();
            V::lemma_field_size();
        }
        let size: usize = Self::size();
        if pos > buf.len() || size > buf.len() - pos {
            return Err(ArchiveError::OutOfBounds);
        }
        if pos % Self::align() != 0 {
            return Err(ArchiveError::Unaligned);
        }
        if let Err(e) = K::validate(buf, pos) {
            return Err(e);
        }
        let second: usize = round_up(K::size(), V::align());
        V::validate(buf, pos + second)
    }

    fn deserialize(buf: &[u8], pos: usize) -> (v: (K, V)) {
        proof {
            lemma_pair_layout::<K, V>();
            K::lemma_field_size();
            V::lemma_field_size();
        }
        let total: usize = buf.len();
        assert(pos + pair_size::<K, V>() <= total);
        let second: usize = round_up(K::size(), V::align());
        let first: K = K::deserialize(buf, pos);
        (first, V::deserialize(buf, pos + second))
    }
}

/// A pair is archived whole when both of its parts are.
pub proof fn lemma_pair_archivable<K: Field, V: Field>(v: (K::Model, V::Model))
    requires
        crate::traits::archivable::<K>(v.0),
        crate::traits::archivable::<V>(v.1),
    ensures
        crate::traits::archivable::<(K, V)>(v),
{
}

} // verus!
