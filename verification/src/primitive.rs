//! The base case of the archive protocol: values without children, whose
//! record is a byte-order-normalised copy of the value.

use crate::error::ArchiveError;
use crate::ser::serializer::Serializer;
use crate::traits::{lemma_shift_keeps_alignment, valid_align, Archive, Field};
use vstd::prelude::*;

pub mod keys;
pub mod other;
pub mod signed;
pub mod sized;
pub mod unsigned;

verus! {

/// A value that is archived in place: its record holds all of it.
pub trait Primitive: Sized {
    /// The number of bytes of the record: 0, 1, 2, 4, 8 or 16.
    spec fn spec_width() -> nat;

    /// The bytes of the record of `v`.
    spec fn encode(v: Self) -> Seq<u8>;

    /// `bytes` are the record of some value.
    spec fn decodable(bytes: Seq<u8>) -> bool;

    /// The value whose record `bytes` are.
    spec fn decode(bytes: Seq<u8>) -> Self;

    /// The record holds all of `v`.
    spec fn exact(v: Self) -> bool;

    proof fn lemma_width()
        ensures
            Self::spec_width() == 0 || valid_align(Self::spec_width()),
    ;

    /// Every value has a record of the stated width, and it can be read.
    proof fn lemma_encode(v: Self)
        ensures
            Self::encode(v).len() == Self::spec_width(),
            Self::decodable(Self::encode(v)),
    ;

    /// Reading the record of `v` gives `v` back, where the record holds all
    /// of it.
    proof fn lemma_round_trip(v: Self)
        requires
            Self::exact(v),
        ensures
            Self::decode(Self::encode(v)) == v,
    ;

    /// The number of bytes of the record.
    fn width() -> (n: usize)
        ensures
            n == Self::spec_width(),
    ;

    /// Appends the record of `self` to `out`.
    fn write(&self, out: &mut Vec<u8>)
        ensures
            final(out)@ == old(out)@ + Self::encode(*self),
    ;

    /// Reads the value whose record stands at `pos`, if it is one.
    fn read(buf: &[u8], pos: usize) -> (r: Option<Self>)
        requires
            pos + Self::spec_width() <= buf.len(),
        ensures
            r is Some <==> Self::decodable(
                buf@.subrange(pos as int, pos + Self::spec_width()),
            ),
            r matches Some(v) ==> v == Self::decode(
                buf@.subrange(pos as int, pos + Self::spec_width()),
            ),
    ;
}

/// The alignment of a record of `width` bytes.
pub open spec fn align_of_width(width: nat) -> nat {
    if width == 0 {
        1
    } else {
        width
    }
}

impl<T: Primitive> Archive for T {
    type Model = T;

    type Resolver = ();

    open spec fn model(&self) -> T {
        *self
    }

    open spec fn spec_size() -> nat {
        T::spec_width()
    }

    open spec fn spec_align() -> nat {
        align_of_width(T::spec_width())
    }

    open spec fn valid_at(buf: Seq<u8>, pos: int) -> bool {
        &&& 0 <= pos
        &&& pos + T::spec_width() <= buf.len()
        &&& pos % (align_of_width(T::spec_width()) as int) == 0
        &&& T::decodable(buf.subrange(pos, pos + T::spec_width()))
    }

    open spec fn value_at(buf: Seq<u8>, pos: int) -> T {
        T::decode(buf.subrange(pos, pos + T::spec_width()))
    }

    open spec fn admits(v: T) -> bool {
        true
    }

    open spec fn archived_value(v: T) -> T {
        T::decode(T::encode(v))
    }

    open spec fn resolver_ok(buf: Seq<u8>, v: T, r: ()) -> bool {
        true
    }

    open spec fn record(v: T, pos: int, r: ()) -> Seq<u8> {
        T::encode(v)
    }

    open spec fn out_of_line(v: T, start: int) -> Seq<u8> {
        Seq::empty()
    }

    open spec fn resolver_at(v: T, start: int) -> () {
        ()
    }

    open spec fn serialized_len(v: T, start: int) -> nat {
        0
    }

    open spec fn scratch_len(v: T) -> nat {
        0
    }

    proof fn lemma_layout() {
        T::lemma_width();
        let w = T::spec_width();
        if w == 0 {
            assert(0nat % 1nat == 0);
        } else if w == 1 {
            assert(1nat % 1nat == 0);
        } else if w == 2 {
            assert(2nat % 2nat == 0);
        } else if w == 4 {
            assert(4nat % 4nat == 0);
        } else if w == 8 {
            assert(8nat % 8nat == 0);
        } else {
            assert(w == 16);
            assert(16nat % 16nat == 0);
        }
    }

    proof fn lemma_out_of_line_len(v: T, start: int) {
    }

    proof fn lemma_serialized(before: Seq<u8>, v: T) {
    }

    proof fn lemma_record_len(v: T, pos: int, r: ()) {
        T::lemma_encode(v);
    }

    proof fn lemma_valid_bounds(buf: Seq<u8>, pos: int) {
    }

    proof fn lemma_moved(buf: Seq<u8>, pos: int, other: Seq<u8>, delta: int) {
        T::lemma_width();
        lemma_shift_keeps_alignment(pos, delta, align_of_width(T::spec_width()));
        assert(other.subrange(pos + delta, pos + delta + T::spec_width()) =~= buf.subrange(
            pos,
            pos + T::spec_width(),
        ));
    }

    proof fn lemma_resolver_extends(buf: Seq<u8>, longer: Seq<u8>, v: T, r: ()) {
    }

    proof fn lemma_resolve(before: Seq<u8>, buf: Seq<u8>, pos: int, v: T, r: ()) {
        T::lemma_encode(v);
    }

    fn size() -> (n: usize) {
        T::width()
    }

    fn align() -> (a: usize) {
        let w: usize = T::width();
        if w == 0 {
            1
        } else {
            w
        }
    }

    fn serialize(&self, s: &mut Serializer) -> (res: Result<(), ArchiveError>) {
        proof {
            assert(s.writer@ + Seq::<u8>::empty() =~= s.writer@);
        }
        Ok(())
    }

    fn resolve(&self, pos: usize, resolver: (), out: &mut Vec<u8>) {
        self.write(out);
    }

    fn validate(buf: &[u8], pos: usize) -> (r: Result<(), ArchiveError>) {
        let w: usize = T::width();
        proof {
            T::lemma_width();
        }
        if pos > buf.len() || w > buf.len() - pos {
            return Err(ArchiveError::OutOfBounds);
        }
        if w != 0 && pos % w != 0 {
            return Err(ArchiveError::Unaligned);
        }
        match T::read(buf, pos) {
            Some(_) => Ok(()),
            None => Err(ArchiveError::InvalidValue),
        }
    }

    fn deserialize(buf: &[u8], pos: usize) -> (v: T) {
        T::read(buf, pos).unwrap()
    }
}

impl<T: Primitive> Field for T {
    proof fn lemma_field_size() {
        T::lemma_width();
    }
}

/// A primitive value whose record holds all of it is archived whole.
pub proof fn lemma_primitive_archivable<T: Primitive>(v: T)
    requires
        T::exact(v),
    ensures
        crate::traits::archivable::<T>(v),
{
    T::lemma_round_trip(v);
}

} // verus!
