//! Hashing of map keys. The index of an archived map is laid out by the hash
//! of each key, and a lookup follows the hash of the key it is given: both
//! must be the same function, on every machine, so it is fixed here.

use crate::traits::Field;
use vstd::prelude::*;

verus! {

/// Where the hash of a byte string starts.
pub const HASH_BASIS: u64 = 0xcbf2_9ce4_8422_2325;

/// What the hash is multiplied by after each byte.
pub const HASH_PRIME: u64 = 0x0100_0000_01b3;

/// The hash `h` after the byte `b`: the byte is mixed in, and the product
/// with the prime is cut to 64 bits.
pub open spec fn hash_step(h: u64, b: u8) -> u64 {
    (((h ^ (b as u64)) * HASH_PRIME) % 0x1_0000_0000_0000_0000) as u64
}

/// The hash `h` after the bytes of `bytes`, first to last.
pub open spec fn hash_from(h: u64, bytes: Seq<u8>) -> u64
    decreases bytes.len(),
{
    if bytes.len() == 0 {
        h
    } else {
        hash_from(hash_step(h, bytes[0]), bytes.drop_first())
    }
}

/// The hash of a byte string.
pub open spec fn hash_of(bytes: Seq<u8>) -> u64 {
    hash_from(HASH_BASIS, bytes)
}

/// The hash of a byte string.
pub fn hash_bytes(bytes: &[u8]) -> (h: u64)
    ensures
        h == hash_of(bytes@),
{
    let mut h: u64 = HASH_BASIS;
    let mut i: usize = 0;
    proof {
        assert(bytes@.subrange(0, bytes@.len() as int) =~= bytes@);
    }
    while i < bytes.len()
        invariant
            i <= bytes@.len(),
            hash_from(h, bytes@.subrange(i as int, bytes@.len() as int)) == hash_of(bytes@),
        decreases bytes@.len() - i,
    {
        let b: u8 = bytes[i];
        let mixed: u64 = h ^ (b as u64);
        proof {
            let rest = bytes@.subrange(i as int, bytes@.len() as int);
            assert(rest[0] == b);
            assert(rest.drop_first() =~= bytes@.subrange(i + 1, bytes@.len() as int));
            assert(mixed * HASH_PRIME <= 0xffff_ffff_ffff_ffff * 0x0100_0000_01b3)
                by (nonlinear_arith)
                requires
                    0 <= mixed <= 0xffff_ffff_ffff_ffff,
                    HASH_PRIME == 0x0100_0000_01b3,
            ;
        }
        let wide: u128 = (mixed as u128) * (HASH_PRIME as u128);
        h = (wide % 0x1_0000_0000_0000_0000) as u64;
        i = i + 1;
    }
    h
}

/// Whether two byte strings are the same.
pub fn bytes_equal(a: &[u8], b: &[u8]) -> (same: bool)
    ensures
        same == (a@ == b@),
{
    if a.len() != b.len() {
        return false;
    }
    let mut i: usize = 0;
    while i < a.len()
        invariant
            i <= a@.len(),
            a@.len() == b@.len(),
            forall|k: int| 0 <= k < i ==> a@[k] == b@[k],
        decreases a@.len() - i,
    {
        if a[i] != b[i] {
            return false;
        }
        i = i + 1;
    }
    proof {
        assert(a@ =~= b@);
    }
    true
}

/// A value that can be the key of an archived map: it has a hash, which
/// depends on the value alone, and it can be compared with an archived key
/// where that lies.
pub trait ArchiveKey: Field {
    /// The hash of a key.
    spec fn spec_hash(v: Self::Model) -> u64;

    /// A key is archived whole.
    proof fn lemma_key_exact(v: Self::Model)
        ensures
            Self::archived_value(v) == v,
    ;

    /// The hash of this key.
    fn hash(&self) -> (h: u64)
        ensures
            h == Self::spec_hash(self.model()),
    ;

    /// Whether the key archived at `pos` is this key.
    fn eq_at(&self, buf: &[u8], pos: usize) -> (same: bool)
        requires
            Self::valid_at(buf@, pos as int),
        ensures
            same == (Self::value_at(buf@, pos as int) == self.model()),
    ;
}

} // verus!
