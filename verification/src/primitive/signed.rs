//! Signed integers of a fixed width: the record is the value in two's
//! complement, least significant byte first.

use crate::endian::{
    from_twos, le_bytes, le_value, lemma_le_bytes_len, lemma_pow256_values,
    lemma_signed_round_trip, lemma_signed_round_trip_wide, read_le, read_le_wide, signed_of,
    signed_of_wide, to_twos, twos_of, twos_of_wide, write_le, write_le_wide,
};
use crate::primitive::Primitive;
use vstd::prelude::*;

verus! {

impl Primitive for i8 {
    open spec fn spec_width() -> nat {
        1
    }

    open spec fn encode(v: i8) -> Seq<u8> {
        le_bytes(to_twos(v as int, 1), 1)
    }

    open spec fn decodable(bytes: Seq<u8>) -> bool {
        true
    }

    open spec fn decode(bytes: Seq<u8>) -> i8 {
        from_twos(le_value(bytes), 1) as i8
    }

    open spec fn exact(v: i8) -> bool {
        true
    }

    proof fn lemma_width() {
    }

    proof fn lemma_encode(v: i8) {
        lemma_le_bytes_len(to_twos(v as int, 1), 1);
    }

    proof fn lemma_round_trip(v: i8) {
        lemma_pow256_values();
        lemma_signed_round_trip(v as int, 1);
    }

    fn width() -> (n: usize) {
        1
    }

    fn write(&self, out: &mut Vec<u8>) {
        proof {
            lemma_pow256_values();
        }
        write_le(out, twos_of(*self as i64, 1), 1);
    }

    fn read(buf: &[u8], pos: usize) -> (r: Option<i8>) {
        let u: u64 = read_le(buf, pos, 1);
        Some(signed_of(u, 1) as i8)
    }
}

impl Primitive for i16 {
    open spec fn spec_width() -> nat {
        2
    }

    open spec fn encode(v: i16) -> Seq<u8> {
        le_bytes(to_twos(v as int, 2), 2)
    }

    open spec fn decodable(bytes: Seq<u8>) -> bool {
        true
    }

    open spec fn decode(bytes: Seq<u8>) -> i16 {
        from_twos(le_value(bytes), 2) as i16
    }

    open spec fn exact(v: i16) -> bool {
        true
    }

    proof fn lemma_width() {
    }

    proof fn lemma_encode(v: i16) {
        lemma_le_bytes_len(to_twos(v as int, 2), 2);
    }

    proof fn lemma_round_trip(v: i16) {
        lemma_pow256_values();
        lemma_signed_round_trip(v as int, 2);
    }

    fn width() -> (n: usize) {
        2
    }

    fn write(&self, out: &mut Vec<u8>) {
        proof {
            lemma_pow256_values();
        }
        write_le(out, twos_of(*self as i64, 2), 2);
    }

    fn read(buf: &[u8], pos: usize) -> (r: Option<i16>) {
        let u: u64 = read_le(buf, pos, 2);
        Some(signed_of(u, 2) as i16)
    }
}

impl Primitive for i32 {
    open spec fn spec_width() -> nat {
        4
    }

    open spec fn encode(v: i32) -> Seq<u8> {
        le_bytes(to_twos(v as int, 4), 4)
    }

    open spec fn decodable(bytes: Seq<u8>) -> bool {
        true
    }

    open spec fn decode(bytes: Seq<u8>) -> i32 {
        from_twos(le_value(bytes), 4) as i32
    }

    open spec fn exact(v: i32) -> bool {
        true
    }

    proof fn lemma_width() {
    }

    proof fn lemma_encode(v: i32) {
        lemma_le_bytes_len(to_twos(v as int, 4), 4);
    }

    proof fn lemma_round_trip(v: i32) {
        lemma_pow256_values();
        lemma_signed_round_trip(v as int, 4);
    }

    fn width() -> (n: usize) {
        4
    }

    fn write(&self, out: &mut Vec<u8>) {
        proof {
            lemma_pow256_values();
        }
        write_le(out, twos_of(*self as i64, 4), 4);
    }

    fn read(buf: &[u8], pos: usize) -> (r: Option<i32>) {
        let u: u64 = read_le(buf, pos, 4);
        Some(signed_of(u, 4) as i32)
    }
}

impl Primitive for i64 {
    open spec fn spec_width() -> nat {
        8
    }

    open spec fn encode(v: i64) -> Seq<u8> {
        le_bytes(to_twos(v as int, 8), 8)
    }

    open spec fn decodable(bytes: Seq<u8>) -> bool {
        true
    }

    open spec fn decode(bytes: Seq<u8>) -> i64 {
        from_twos(le_value(bytes), 8) as i64
    }

    open spec fn exact(v: i64) -> bool {
        true
    }

    proof fn lemma_width() {
    }

    proof fn lemma_encode(v: i64) {
        lemma_le_bytes_len(to_twos(v as int, 8), 8);
    }

    proof fn lemma_round_trip(v: i64) {
        lemma_pow256_values();
        lemma_signed_round_trip(v as int, 8);
    }

    fn width() -> (n: usize) {
        8
    }

    fn write(&self, out: &mut Vec<u8>) {
        proof {
            lemma_pow256_values();
        }
        write_le(out, twos_of(*self as i64, 8), 8);
    }

    fn read(buf: &[u8], pos: usize) -> (r: Option<i64>) {
        let u: u64 = read_le(buf, pos, 8);
        Some(signed_of(u, 8) as i64)
    }
}

impl Primitive for i128 {
    open spec fn spec_width() -> nat {
        16
    }

    open spec fn encode(v: i128) -> Seq<u8> {
        le_bytes(to_twos(v as int, 16), 16)
    }

    open spec fn decodable(bytes: Seq<u8>) -> bool {
        true
    }

    open spec fn decode(bytes: Seq<u8>) -> i128 {
        from_twos(le_value(bytes), 16) as i128
    }

    open spec fn exact(v: i128) -> bool {
        true
    }

    proof fn lemma_width() {
    }

    proof fn lemma_encode(v: i128) {
        lemma_le_bytes_len(to_twos(v as int, 16), 16);
    }

    proof fn lemma_round_trip(v: i128) {
        lemma_signed_round_trip_wide(v as int);
    }

    fn width() -> (n: usize) {
        16
    }

    fn write(&self, out: &mut Vec<u8>) {
        write_le_wide(out, twos_of_wide(*self));
    }

    fn read(buf: &[u8], pos: usize) -> (r: Option<i128>) {
        Some(signed_of_wide(read_le_wide(buf, pos)))
    }
}

} // verus!
