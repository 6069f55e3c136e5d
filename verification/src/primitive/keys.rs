//! Integers of a fixed width as keys of a map: the hash of such a key is the
//! hash of its record.

use crate::hash::{hash_bytes, hash_of, ArchiveKey};
use crate::primitive::Primitive;
use crate::traits::Archive;
use vstd::prelude::*;

verus! {

impl ArchiveKey for u8 {
    open spec fn spec_hash(v: u8) -> u64 {
        hash_of(<u8 as Primitive>::encode(v))
    }

    proof fn lemma_key_exact(v: u8) {
        <u8 as Primitive>::lemma_round_trip(v);
    }

    fn hash(&self) -> (h: u64) {
        let mut record: Vec<u8> = Vec::new();
        self.write(&mut record);
        proof {
            assert(record@ =~= <u8 as Primitive>::encode(*self));
        }
        hash_bytes(record.as_slice())
    }

    fn eq_at(&self, buf: &[u8], pos: usize) -> (same: bool) {
        let archived: u8 = <u8 as Archive>::deserialize(buf, pos);
        archived == *self
    }
}

impl ArchiveKey for u16 {
    open spec fn spec_hash(v: u16) -> u64 {
        hash_of(<u16 as Primitive>::encode(v))
    }

    proof fn lemma_key_exact(v: u16) {
        <u16 as Primitive>::lemma_round_trip(v);
    }

    fn hash(&self) -> (h: u64) {
        let mut record: Vec<u8> = Vec::new();
        self.write(&mut record);
        proof {
            assert(record@ =~= <u16 as Primitive>::encode(*self));
        }
        hash_bytes(record.as_slice())
    }

    fn eq_at(&self, buf: &[u8], pos: usize) -> (same: bool) {
        let archived: u16 = <u16 as Archive>::deserialize(buf, pos);
        archived == *self
    }
}

impl ArchiveKey for u32 {
    open spec fn spec_hash(v: u32) -> u64 {
        hash_of(<u32 as Primitive>::encode(v))
    }

    proof fn lemma_key_exact(v: u32) {
        <u32 as Primitive>::lemma_round_trip(v);
    }

    fn hash(&self) -> (h: u64) {
        let mut record: Vec<u8> = Vec::new();
        self.write(&mut record);
        proof {
            assert(record@ =~= <u32 as Primitive>::encode(*self));
        }
        hash_bytes(record.as_slice())
    }

    fn eq_at(&self, buf: &[u8], pos: usize) -> (same: bool) {
        let archived: u32 = <u32 as Archive>::deserialize(buf, pos);
        archived == *self
    }
}

impl ArchiveKey for u64 {
    open spec fn spec_hash(v: u64) -> u64 {
        hash_of(<u64 as Primitive>::encode(v))
    }

    proof fn lemma_key_exact(v: u64) {
        <u64 as Primitive>::lemma_round_trip(v);
    }

    fn hash(&self) -> (h: u64) {
        let mut record: Vec<u8> = Vec::new();
        self.write(&mut record);
        proof {
            assert(record@ =~= <u64 as Primitive>::encode(*self));
        }
        hash_bytes(record.as_slice())
    }

    fn eq_at(&self, buf: &[u8], pos: usize) -> (same: bool) {
        let archived: u64 = <u64 as Archive>::deserialize(buf, pos);
        archived == *self
    }
}

impl ArchiveKey for i8 {
    open spec fn spec_hash(v: i8) -> u64 {
        hash_of(<i8 as Primitive>::encode(v))
    }

    proof fn lemma_key_exact(v: i8) {
        <i8 as Primitive>::lemma_round_trip(v);
    }

    fn hash(&self) -> (h: u64) {
        let mut record: Vec<u8> = Vec::new();
        self.write(&mut record);
        proof {
            assert(record@ =~= <i8 as Primitive>::encode(*self));
        }
        hash_bytes(record.as_slice())
    }

    fn eq_at(&self, buf: &[u8], pos: usize) -> (same: bool) {
        let archived: i8 = <i8 as Archive>::deserialize(buf, pos);
        archived == *self
    }
}

impl ArchiveKey for i16 {
    open spec fn spec_hash(v: i16) -> u64 {
        hash_of(<i16 as Primitive>::encode(v))
    }

    proof fn lemma_key_exact(v: i16) {
        <i16 as Primitive>::lemma_round_trip(v);
    }

    fn hash(&self) -> (h: u64) {
        let mut record: Vec<u8> = Vec::new();
        self.write(&mut record);
        proof {
            assert(record@ =~= <i16 as Primitive>::encode(*self));
        }
        hash_bytes(record.as_slice())
    }

    fn eq_at(&self, buf: &[u8], pos: usize) -> (same: bool) {
        let archived: i16 = <i16 as Archive>::deserialize(buf, pos);
        archived == *self
    }
}

impl ArchiveKey for i32 {
    open spec fn spec_hash(v: i32) -> u64 {
        hash_of(<i32 as Primitive>::encode(v))
    }

    proof fn lemma_key_exact(v: i32) {
        <i32 as Primitive>::lemma_round_trip(v);
    }

    fn hash(&self) -> (h: u64) {
        let mut record: Vec<u8> = Vec::new();
        self.write(&mut record);
        proof {
            assert(record@ =~= <i32 as Primitive>::encode(*self));
        }
        hash_bytes(record.as_slice())
    }

    fn eq_at(&self, buf: &[u8], pos: usize) -> (same: bool) {
        let archived: i32 = <i32 as Archive>::deserialize(buf, pos);
        archived == *self
    }
}

impl ArchiveKey for i64 {
    open spec fn spec_hash(v: i64) -> u64 {
        hash_of(<i64 as Primitive>::encode(v))
    }

    proof fn lemma_key_exact(v: i64) {
        <i64 as Primitive>::lemma_round_trip(v);
    }

    fn hash(&self) -> (h: u64) {
        let mut record: Vec<u8> = Vec::new();
        self.write(&mut record);
        proof {
            assert(record@ =~= <i64 as Primitive>::encode(*self));
        }
        hash_bytes(record.as_slice())
    }

    fn eq_at(&self, buf: &[u8], pos: usize) -> (same: bool) {
        let archived: i64 = <i64 as Archive>::deserialize(buf, pos);
        archived == *self
    }
}

} // verus!
