//! The unit value, booleans and characters.

use crate::endian::{
    le_bytes, le_value, lemma_le_round_trip_small, lemma_pow256_values, read_le, write_le,
};
use crate::primitive::Primitive;
use vstd::prelude::*;

verus! {

/// `u` is a Unicode scalar value: the number of a character.
pub open spec fn is_scalar_value(u: nat) -> bool {
    u < 0xD800 || (0xE000 <= u <= 0x10FFFF)
}

/// The character with the number `u`, if `u` is the number of one. This is
/// `char::from_u32`, which gives `None` for the surrogates and for what lies
/// beyond the last code point.
#[verifier::external_body]
fn char_of(u: u32) -> (r: Option<char>)
    ensures
        r is Some <==> is_scalar_value(u as nat),
        r matches Some(c) ==> c as u32 == u,
{
    char::from_u32(u)
}

impl Primitive for () {
    open spec fn spec_width() -> nat {
        0
    }

    open spec fn encode(v: ()) -> Seq<u8> {
        Seq::empty()
    }

    open spec fn decodable(bytes: Seq<u8>) -> bool {
        true
    }

    open spec fn decode(bytes: Seq<u8>) -> () {
        ()
    }

    open spec fn exact(v: ()) -> bool {
        true
    }

    proof fn lemma_width() {
    }

    proof fn lemma_encode(v: ()) {
    }

    proof fn lemma_round_trip(v: ()) {
    }

    fn width() -> (n: usize) {
        0
    }

    fn write(&self, out: &mut Vec<u8>) {
        proof {
            assert(out@ + Seq::<u8>::empty() =~= out@);
        }
    }

    fn read(buf: &[u8], pos: usize) -> (r: Option<()>) {
        Some(())
    }
}

impl Primitive for bool {
    open spec fn spec_width() -> nat {
        1
    }

    open spec fn encode(v: bool) -> Seq<u8> {
        seq![if v { 1u8 } else { 0u8 }]
    }

    open spec fn decodable(bytes: Seq<u8>) -> bool {
        bytes.len() == 1 && bytes[0] <= 1
    }

    open spec fn decode(bytes: Seq<u8>) -> bool {
        bytes[0] == 1
    }

    open spec fn exact(v: bool) -> bool {
        true
    }

    proof fn lemma_width() {
    }

    proof fn lemma_encode(v: bool) {
    }

    proof fn lemma_round_trip(v: bool) {
    }

    fn width() -> (n: usize) {
        1
    }

    fn write(&self, out: &mut Vec<u8>) {
        let b: u8 = if *self {
            1
        } else {
            0
        };
        out.push(b);
        proof {
            assert(out@ =~= old(out)@ + seq![b]);
        }
    }

    fn read(buf: &[u8], pos: usize) -> (r: Option<bool>) {
        let b: u8 = buf[pos];
        proof {
            assert(buf@.subrange(pos as int, pos + 1)[0] == b);
        }
        if b == 0 {
            Some(false)
        } else if b == 1 {
            Some(true)
        } else {
            None
        }
    }
}

impl Primitive for char {
    open spec fn spec_width() -> nat {
        4
    }

    open spec fn encode(v: char) -> Seq<u8> {
        le_bytes((v as u32) as nat, 4)
    }

    open spec fn decodable(bytes: Seq<u8>) -> bool {
        is_scalar_value(le_value(bytes))
    }

    open spec fn decode(bytes: Seq<u8>) -> char {
        (le_value(bytes) as u32) as char
    }

    open spec fn exact(v: char) -> bool {
        true
    }

    proof fn lemma_width() {
    }

    proof fn lemma_encode(v: char) {
        lemma_pow256_values();
        vstd::utf8::char_is_scalar(v);
        lemma_le_round_trip_small((v as u32) as nat, 4);
    }

    proof fn lemma_round_trip(v: char) {
        lemma_pow256_values();
        vstd::utf8::char_is_scalar(v);
        lemma_le_round_trip_small((v as u32) as nat, 4);
        vstd::utf8::char_u32_cast(v, v as u32);
    }

    fn width() -> (n: usize) {
        4
    }

    fn write(&self, out: &mut Vec<u8>) {
        let u: u32 = *self as u32;
        write_le(out, u as u64, 4);
    }

    fn read(buf: &[u8], pos: usize) -> (r: Option<char>) {
        proof {
            lemma_pow256_values();
        }
        let u: u64 = read_le(buf, pos, 4);
        let r: Option<char> = char_of(u as u32);
        proof {
            if let Some(c) = r {
                vstd::utf8::char_u32_cast(c, u as u32);
            }
        }
        r
    }
}

} // verus!
