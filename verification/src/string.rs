//! The archived string: a record that holds a length and a relative pointer
//! to that many bytes of UTF-8.

use crate::endian::{lemma_pow256_values, read_le};
use crate::error::ArchiveError;
use crate::hash::{bytes_equal, hash_bytes, hash_of, ArchiveKey};
use crate::rel_ptr::read_offset;
use crate::ser::serializer::Serializer;
use crate::traits::{lemma_shift_keeps_alignment, Archive, Field};
use crate::vec::{
    lemma_vec_record_fields, lemma_vec_record_len, vec_first, vec_len, vec_record, ArchivedVec,
    VecResolver,
};
use vstd::prelude::*;
use vstd::slice::slice_subrange;
use vstd::string::StringSliceAdditionalSpecFns;
use vstd::utf8::{decode_utf8, encode_utf8, valid_utf8};

verus! {

/// The bytes that the string record at `pos` points at.
pub open spec fn string_bytes_at(buf: Seq<u8>, pos: int) -> Seq<u8> {
    buf.subrange(vec_first(buf, pos), vec_first(buf, pos) + vec_len(buf, pos))
}

/// The string record at `pos` is well formed: it lies in the buffer, and
/// its bytes lie before it and are UTF-8.
pub open spec fn string_valid_at(buf: Seq<u8>, pos: int) -> bool {
    &&& 0 <= pos
    &&& pos % 4 == 0
    &&& pos + 8 <= buf.len()
    &&& 0 <= vec_first(buf, pos)
    &&& vec_first(buf, pos) + vec_len(buf, pos) <= pos
    &&& valid_utf8(string_bytes_at(buf, pos))
}

/// The text that the string record at `pos` stands for.
pub open spec fn string_value_at(buf: Seq<u8>, pos: int) -> Seq<char> {
    decode_utf8(string_bytes_at(buf, pos))
}

/// The bytes of `v` stand in `buf` from `r.pos` on.
pub open spec fn string_resolver_ok(buf: Seq<u8>, v: Seq<char>, r: VecResolver) -> bool {
    &&& r.pos + encode_utf8(v).len() <= buf.len()
    &&& buf.subrange(r.pos as int, r.pos + encode_utf8(v).len()) == encode_utf8(v)
}

/// The text that `bytes` encode, if they are UTF-8. This is
/// `core::str::from_utf8`, which accepts exactly the well-formed byte
/// strings and returns them as text unchanged.
#[verifier::external_body]
fn utf8_text(bytes: &[u8]) -> (r: Option<&str>)
    ensures
        r is Some <==> valid_utf8(bytes@),
        r matches Some(s) ==> s@ == decode_utf8(bytes@),
{
    core::str::from_utf8(bytes).ok()
}

/// The archived form of a string: the functions that read it in place.
pub struct ArchivedString {}

impl ArchivedString {
    /// The number of bytes of the string whose record stands at `pos`.
    pub fn len(buf: &[u8], pos: usize) -> (n: usize)
        requires
            string_valid_at(buf@, pos as int),
        ensures
            n == vec_len(buf@, pos as int),
            n == string_bytes_at(buf@, pos as int).len(),
    {
        proof {
            lemma_pow256_values();
        }
        let total: usize = buf.len();
        assert(pos + 8 <= total);
        let n: u64 = read_le(buf, pos + 4, 4);
        n as usize
    }

    /// The bytes of the string whose record stands at `pos`, in place.
    pub fn as_bytes(buf: &[u8], pos: usize) -> (bytes: &[u8])
        requires
            string_valid_at(buf@, pos as int),
        ensures
            bytes@ == string_bytes_at(buf@, pos as int),
            bytes@ == encode_utf8(string_value_at(buf@, pos as int)),
    {
        let n: usize = Self::len(buf, pos);
        let off: i32 = read_offset(buf, pos);
        let first: usize = (pos as i128 + off as i128) as usize;
        proof {
            vstd::utf8::decode_utf8_encode_utf8(string_bytes_at(buf@, pos as int));
        }
        slice_subrange(buf, first, first + n)
    }

    /// The text of the string whose record stands at `pos`, in place.
    pub fn as_str(buf: &[u8], pos: usize) -> (text: &str)
        requires
            string_valid_at(buf@, pos as int),
        ensures
            text@ == string_value_at(buf@, pos as int),
    {
        utf8_text(Self::as_bytes(buf, pos)).unwrap()
    }
}

impl Archive for String {
    type Model = Seq<char>;

    type Resolver = VecResolver;

    open spec fn model(&self) -> Seq<char> {
        self@
    }

    open spec fn spec_size() -> nat {
        8
    }

    open spec fn spec_align() -> nat {
        4
    }

    open spec fn valid_at(buf: Seq<u8>, pos: int) -> bool {
        string_valid_at(buf, pos)
    }

    open spec fn value_at(buf: Seq<u8>, pos: int) -> Seq<char> {
        string_value_at(buf, pos)
    }

    open spec fn admits(v: Seq<char>) -> bool {
        true
    }

    open spec fn archived_value(v: Seq<char>) -> Seq<char> {
        v
    }

    open spec fn resolver_ok(buf: Seq<u8>, v: Seq<char>, r: VecResolver) -> bool {
        string_resolver_ok(buf, v, r)
    }

    open spec fn record(v: Seq<char>, pos: int, r: VecResolver) -> Seq<u8> {
        vec_record(encode_utf8(v).len(), pos, r)
    }

    open spec fn out_of_line(v: Seq<char>, start: int) -> Seq<u8> {
        encode_utf8(v)
    }

    open spec fn resolver_at(v: Seq<char>, start: int) -> VecResolver {
        VecResolver { pos: start as usize }
    }

    open spec fn serialized_len(v: Seq<char>, start: int) -> nat {
        encode_utf8(v).len()
    }

    open spec fn scratch_len(v: Seq<char>) -> nat {
        0
    }

    proof fn lemma_layout() {
        assert(8nat % 4nat == 0);
    }

    proof fn lemma_out_of_line_len(v: Seq<char>, start: int) {
    }

    proof fn lemma_serialized(before: Seq<u8>, v: Seq<char>) {
        let buf = before + encode_utf8(v);
        assert(buf.subrange(before.len() as int, (before.len() + encode_utf8(v).len()) as int)
            =~= encode_utf8(v));
    }

    proof fn lemma_record_len(v: Seq<char>, pos: int, r: VecResolver) {
        lemma_vec_record_len(encode_utf8(v).len(), pos, r);
    }

    proof fn lemma_valid_bounds(buf: Seq<u8>, pos: int) {
    }

    proof fn lemma_moved(buf: Seq<u8>, pos: int, other: Seq<u8>, delta: int) {
        assert(other.subrange(pos + delta, pos + delta + 4) =~= buf.subrange(pos, pos + 4));
        assert(other.subrange(pos + delta + 4, pos + delta + 8) =~= buf.subrange(
            pos + 4,
            pos + 8,
        ));
        lemma_shift_keeps_alignment(pos, delta, 4);
        assert(string_bytes_at(other, pos + delta) =~= string_bytes_at(buf, pos));
    }

    proof fn lemma_resolver_extends(buf: Seq<u8>, longer: Seq<u8>, v: Seq<char>, r: VecResolver) {
        assert(longer.subrange(r.pos as int, r.pos + encode_utf8(v).len()) =~= buf.subrange(
            r.pos as int,
            r.pos + encode_utf8(v).len(),
        ));
    }

    proof fn lemma_resolve(
        before: Seq<u8>,
        buf: Seq<u8>,
        pos: int,
        v: Seq<char>,
        r: VecResolver,
    ) {
        let n = encode_utf8(v).len();
        lemma_vec_record_fields(buf, pos, n, r);
        Self::lemma_resolver_extends(before, buf, v, r);
        vstd::utf8::encode_utf8_valid_utf8(v);
        vstd::utf8::encode_utf8_decode_utf8(v);
        assert(string_bytes_at(buf, pos) =~= encode_utf8(v));
    }

    fn size() -> (n: usize) {
        8
    }

    fn align() -> (a: usize) {
        4
    }

    fn serialize(&self, s: &mut Serializer) -> (res: Result<VecResolver, ArchiveError>) {
        let bytes: &[u8] = self.as_str().as_bytes();
        let ghost before = s.writer@;
        match s.writer.write(bytes) {
            Ok(pos) => {
                proof {
                    assert(s.writer@.subrange(pos as int, pos + bytes@.len()) =~= bytes@);
                }
                Ok(VecResolver { pos })
            },
            Err(e) => Err(e),
        }
    }

    fn resolve(&self, pos: usize, resolver: VecResolver, out: &mut Vec<u8>) {
        let n: usize = self.as_str().as_bytes().len();
        ArchivedVec::<u8>::resolve_from_len(n, pos, resolver, out)
    }

    fn validate(buf: &[u8], pos: usize) -> (r: Result<(), ArchiveError>) {
        if pos > buf.len() || buf.len() - pos < 8 {
            return Err(ArchiveError::OutOfBounds);
        }
        if pos % 4 != 0 {
            return Err(ArchiveError::Unaligned);
        }
        proof {
            lemma_pow256_values();
        }
        let off: i32 = read_offset(buf, pos);
        let len: u64 = read_le(buf, pos + 4, 4);
        let target: i128 = pos as i128 + off as i128;
        if target < 0 || target + (len as i128) > pos as i128 {
            return Err(ArchiveError::OutOfBounds);
        }
        let first: usize = target as usize;
        let bytes: &[u8] = slice_subrange(buf, first, first + len as usize);
        match utf8_text(bytes) {
            Some(_) => Ok(()),
            None => Err(ArchiveError::InvalidValue),
        }
    }

    fn deserialize(buf: &[u8], pos: usize) -> (v: String) {
        String::from_str(ArchivedString::as_str(buf, pos))
    }
}

impl Field for String {
    proof fn lemma_field_size() {
    }
}

impl ArchiveKey for String {
    open spec fn spec_hash(v: Seq<char>) -> u64 {
        hash_of(encode_utf8(v))
    }

    proof fn lemma_key_exact(v: Seq<char>) {
    }

    fn hash(&self) -> (h: u64) {
        hash_bytes(self.as_str().as_bytes())
    }

    fn eq_at(&self, buf: &[u8], pos: usize) -> (same: bool) {
        let archived: &[u8] = ArchivedString::as_bytes(buf, pos);
        proof {
            vstd::utf8::encode_utf8_decode_utf8(self@);
        }
        bytes_equal(archived, self.as_str().as_bytes())
    }
}

/// Every string is archived whole.
pub proof fn lemma_string_archivable(v: Seq<char>)
    ensures
        crate::traits::archivable::<String>(v),
{
}

} // verus!
