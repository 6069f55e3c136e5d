//! The archive protocol: what every archivable type states about its layout,
//! writes in two phases, and reads back in place.

use crate::error::ArchiveError;
use crate::rel_ptr::MAX_POSITION;
use crate::ser::serializer::Serializer;
use vstd::prelude::*;

verus! {

/// The largest alignment of any record. The base of an archive in memory is
/// taken to be a multiple of it.
pub const MAX_ALIGN: usize = 16;

/// The alignments that records have.
pub open spec fn valid_align(a: nat) -> bool {
    a == 1 || a == 2 || a == 4 || a == 8 || a == 16
}

/// The first `n` bytes of `a` stand in `b`, moved up by `delta`.
pub open spec fn embeds(a: Seq<u8>, n: int, b: Seq<u8>, delta: int) -> bool {
    &&& 0 <= delta
    &&& n <= a.len()
    &&& n + delta <= b.len()
    &&& forall|i: int| 0 <= i < n ==> #[trigger] a[i] == b[i + delta]
}

/// A value that can be archived: written into a buffer as a fixed-size record
/// plus whatever the record points at, and read back from there.
///
/// Writing takes two steps. `serialize` writes what the value's record will
/// point at and returns a resolver that remembers where it went. `resolve`
/// then produces the record itself for the position it is going to occupy.
pub trait Archive: Sized {
    /// What a value is to a reader of the archive: the value without what is
    /// owed to how it is held in memory.
    type Model;

    /// What `serialize` hands to `resolve`.
    type Resolver;

    /// What this value is to a reader of the archive.
    spec fn model(&self) -> Self::Model;

    /// The size of the record in bytes.
    spec fn spec_size() -> nat;

    /// The alignment of the record.
    spec fn spec_align() -> nat;

    /// The record at `pos`, and all that it points at, is well formed.
    spec fn valid_at(buf: Seq<u8>, pos: int) -> bool;

    /// The value that the record at `pos` stands for.
    spec fn value_at(buf: Seq<u8>, pos: int) -> Self::Model;

    /// `v` is a value of this type: values of the type are never anything
    /// else, whatever their model type has room for.
    spec fn admits(v: Self::Model) -> bool;

    /// The value that an archive of `v` holds. It is `v` itself unless the
    /// format has no room for `v`.
    spec fn archived_value(v: Self::Model) -> Self::Model;

    /// `r` is a resolver for `v` in `buf`: what the record of `v` will point
    /// at stands in `buf`, where `r` says.
    spec fn resolver_ok(buf: Seq<u8>, v: Self::Model, r: Self::Resolver) -> bool;

    /// The record of `v` for the position `pos`, given its resolver.
    spec fn record(v: Self::Model, pos: int, r: Self::Resolver) -> Seq<u8>;

    /// The bytes that `serialize` writes for `v` when the writer stands at
    /// `start`: what the record of `v` will point at, with the padding that
    /// aligns it.
    spec fn out_of_line(v: Self::Model, start: int) -> Seq<u8>;

    /// The resolver that `serialize` returns for `v` when the writer stood
    /// at `start`.
    spec fn resolver_at(v: Self::Model, start: int) -> Self::Resolver;

    /// The number of bytes that `serialize` writes for `v` when the writer
    /// stands at `start`.
    spec fn serialized_len(v: Self::Model, start: int) -> nat;

    /// The most scratch space that `serialize` holds at one time for `v`.
    spec fn scratch_len(v: Self::Model) -> nat;

    /// Records are aligned, and their size keeps what follows them aligned.
    proof fn lemma_layout()
        ensures
            valid_align(Self::spec_align()),
            Self::spec_size() % Self::spec_align() == 0,
    ;

    /// `serialize` writes as many bytes as `serialized_len` says.
    proof fn lemma_out_of_line_len(v: Self::Model, start: int)
        requires
            0 <= start,
        ensures
            Self::out_of_line(v, start).len() == Self::serialized_len(v, start),
    ;

    /// What `serialize` writes is what `resolve` builds on: after the bytes
    /// of `out_of_line`, the resolver of `resolver_at` is good.
    proof fn lemma_serialized(before: Seq<u8>, v: Self::Model)
        requires
            Self::admits(v),
            before.len() + Self::serialized_len(v, before.len() as int) <= MAX_POSITION,
        ensures
            Self::resolver_ok(
                before + Self::out_of_line(v, before.len() as int),
                v,
                Self::resolver_at(v, before.len() as int),
            ),
    ;

    /// The record has the size of its type.
    proof fn lemma_record_len(v: Self::Model, pos: int, r: Self::Resolver)
        ensures
            Self::record(v, pos, r).len() == Self::spec_size(),
    ;

    /// A well-formed record lies inside the buffer, at an aligned position.
    proof fn lemma_valid_bounds(buf: Seq<u8>, pos: int)
        requires
            Self::valid_at(buf, pos),
        ensures
            0 <= pos,
            pos + Self::spec_size() <= buf.len(),
            pos % (Self::spec_align() as int) == 0,
    ;

    /// A record means the same wherever the bytes up to its end are moved, as
    /// long as alignment is kept: nothing in it depends on where the buffer
    /// lies or on what follows the record.
    proof fn lemma_moved(buf: Seq<u8>, pos: int, other: Seq<u8>, delta: int)
        requires
            Self::valid_at(buf, pos),
            embeds(buf, pos + Self::spec_size(), other, delta),
            delta % (MAX_ALIGN as int) == 0,
        ensures
            Self::valid_at(other, pos + delta),
            Self::value_at(other, pos + delta) == Self::value_at(buf, pos),
    ;

    /// A resolver stays good when more is written.
    proof fn lemma_resolver_extends(
        buf: Seq<u8>,
        longer: Seq<u8>,
        v: Self::Model,
        r: Self::Resolver,
    )
        requires
            Self::resolver_ok(buf, v, r),
            buf.is_prefix_of(longer),
        ensures
            Self::resolver_ok(longer, v, r),
    ;

    /// Once the record that `resolve` produces stands at an aligned position
    /// after what `serialize` wrote, the buffer holds the value there.
    proof fn lemma_resolve(
        before: Seq<u8>,
        buf: Seq<u8>,
        pos: int,
        v: Self::Model,
        r: Self::Resolver,
    )
        requires
            Self::resolver_ok(before, v, r),
            before.is_prefix_of(buf),
            before.len() <= pos,
            pos % (Self::spec_align() as int) == 0,
            pos + Self::spec_size() <= buf.len(),
            pos + Self::spec_size() <= MAX_POSITION,
            buf.subrange(pos, pos + Self::spec_size()) == Self::record(v, pos, r),
        ensures
            Self::valid_at(buf, pos),
            Self::value_at(buf, pos) == Self::archived_value(v),
    ;

    /// The size of the record in bytes.
    fn size() -> (n: usize)
        ensures
            n == Self::spec_size(),
    ;

    /// The alignment of the record.
    fn align() -> (a: usize)
        ensures
            a == Self::spec_align(),
    ;

    /// Writes what the record of `self` will point at, and returns the
    /// resolver for it. The record itself is not written. Fails only where
    /// the writer or the allocator cannot hold what is needed; the scratch
    /// space taken is given back in either case.
    fn serialize(&self, s: &mut Serializer) -> (res: Result<Self::Resolver, ArchiveError>)
        requires
            old(s).wf(),
        ensures
            final(s).wf(),
            final(s).writer.spec_capacity() == old(s).writer.spec_capacity(),
            final(s).allocator.spec_capacity() == old(s).allocator.spec_capacity(),
            final(s).allocator.spec_in_use() == old(s).allocator.spec_in_use(),
            old(s).writer@.is_prefix_of(final(s).writer@),
            res is Ok <==> (old(s).writer@.len() + Self::serialized_len(
                self.model(),
                old(s).writer@.len() as int,
            ) <= old(s).writer.spec_capacity() && Self::scratch_len(self.model()) <= old(
                s,
            ).allocator.spec_available()),
            res matches Ok(r) ==> Self::resolver_ok(final(s).writer@, self.model(), r)
                && final(s).writer@.len() == old(s).writer@.len() + Self::serialized_len(
                self.model(),
                old(s).writer@.len() as int,
            ),
            res matches Ok(r) ==> final(s).writer@ == old(s).writer@ + Self::out_of_line(
                self.model(),
                old(s).writer@.len() as int,
            ) && r == Self::resolver_at(self.model(), old(s).writer@.len() as int),
            res matches Err(e) ==> (e == ArchiveError::CapacityExceeded && old(s).writer@.len()
                + Self::serialized_len(self.model(), old(s).writer@.len() as int) > old(
                s,
            ).writer.spec_capacity()) || (e == ArchiveError::ScratchExhausted && Self::scratch_len(
                self.model(),
            ) > old(s).allocator.spec_available()),
    ;

    /// Appends to `out` the record of `self` for the position `pos`, which
    /// lies after all that `serialize` wrote. Cannot fail and touches nothing
    /// else.
    fn resolve(&self, pos: usize, resolver: Self::Resolver, out: &mut Vec<u8>)
        requires
            pos + Self::spec_size() <= MAX_POSITION,
            exists|b: Seq<u8>| #[trigger]
                Self::resolver_ok(b, self.model(), resolver) && b.len() <= pos,
        ensures
            final(out)@ == old(out)@ + Self::record(self.model(), pos as int, resolver),
    ;

    /// Checks the record at `pos` and all that it points at, reading nothing
    /// outside the buffer.
    fn validate(buf: &[u8], pos: usize) -> (r: Result<(), ArchiveError>)
        ensures
            r is Ok <==> Self::valid_at(buf@, pos as int),
            r matches Err(e) ==> e.is_validation(),
    ;

    /// Rebuilds an owned value from the record at `pos`.
    fn deserialize(buf: &[u8], pos: usize) -> (v: Self)
        requires
            Self::valid_at(buf@, pos as int),
        ensures
            v.model() == Self::value_at(buf@, pos as int),
    ;
}

/// The largest record that can be a field of another record.
pub const MAX_FIELD_SIZE: usize = 0x1000;

/// A value whose record can be a field of a larger record, such as the key
/// or the value of a map entry.
pub trait Field: Archive {
    /// The record is small.
    proof fn lemma_field_size()
        ensures
            Self::spec_size() <= MAX_FIELD_SIZE,
    ;
}

/// The format has room for `v`: an archive of `v` holds `v` itself.
pub open spec fn archivable<T: Archive>(v: T::Model) -> bool {
    T::archived_value(v) == v
}

/// A multiple of the largest alignment is a multiple of every alignment.
pub proof fn lemma_multiple_of_max_align(delta: int, align: nat)
    requires
        valid_align(align),
        delta % (MAX_ALIGN as int) == 0,
    ensures
        delta % (align as int) == 0,
{
    let q = delta / 16;
    assert(delta == 16 * q);
    if align == 1 {
    } else if align == 2 {
        assert(delta == (8 * q) * 2);
        vstd::arithmetic::div_mod::lemma_mod_multiples_basic(8 * q, 2);
    } else if align == 4 {
        assert(delta == (4 * q) * 4);
        vstd::arithmetic::div_mod::lemma_mod_multiples_basic(4 * q, 4);
    } else if align == 8 {
        assert(delta == (2 * q) * 8);
        vstd::arithmetic::div_mod::lemma_mod_multiples_basic(2 * q, 8);
    } else {
    }
}

/// Moving a position by a multiple of the largest alignment keeps it
/// aligned.
pub proof fn lemma_shift_keeps_alignment(pos: int, delta: int, align: nat)
    requires
        valid_align(align),
        pos % (align as int) == 0,
        delta % (MAX_ALIGN as int) == 0,
    ensures
        (pos + delta) % (align as int) == 0,
{
    lemma_multiple_of_max_align(delta, align);
    vstd::arithmetic::div_mod::lemma_add_mod_noop(pos, delta, align as int);
    vstd::arithmetic::div_mod::lemma_small_mod(0, align);
}

} // verus!
