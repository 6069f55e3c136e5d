//! Unsigned integers of a fixed width: the record is the value, least
//! significant byte first.

use crate::endian::{
    le_bytes, le_value, lemma_le_bytes_len, lemma_le_round_trip_small, lemma_pow256_sixteen,
    lemma_pow256_values, read_le, read_le_wide, write_le, write_le_wide,
};
use crate::primitive::Primitive;
use vstd::prelude::*;

verus! {

impl Primitive for u8 {
    open spec fn spec_width() -> nat {
        1
    }

    open spec fn encode(v: u8) -> Seq<u8> {
        le_bytes(v as nat, 1)
    }

    open spec fn decodable(bytes: Seq<u8>) -> bool {
        true
    }

    open spec fn decode(bytes: Seq<u8>) -> u8 {
        le_value(bytes) as u8
    }

    open spec fn exact(v: u8) -> bool {
        true
    }

    proof fn lemma_width() {
    }

    proof fn lemma_encode(v: u8) {
        lemma_le_bytes_len(v as nat, 1);
    }

    proof fn lemma_round_trip(v: u8) {
        lemma_pow256_values();
        lemma_le_round_trip_small(v as nat, 1);
    }

    fn width() -> (n: usize) {
        1
    }

    fn write(&self, out: &mut Vec<u8>) {
        write_le(out, *self as u64, 1);
    }

    fn read(buf: &[u8], pos: usize) -> (r: Option<u8>) {
        proof {
            lemma_pow256_values();
        }
        let u: u64 = read_le(buf, pos, 1);
        Some(u as u8)
    }
}

impl Primitive for u16 {
    open spec fn spec_width() -> nat {
        2
    }

    open spec fn encode(v: u16) -> Seq<u8> {
        le_bytes(v as nat, 2)
    }

    open spec fn decodable(bytes: Seq<u8>) -> bool {
        true
    }

    open spec fn decode(bytes: Seq<u8>) -> u16 {
        le_value(bytes) as u16
    }

    open spec fn exact(v: u16) -> bool {
        true
    }

    proof fn lemma_width() {
    }

    proof fn lemma_encode(v: u16) {
        lemma_le_bytes_len(v as nat, 2);
    }

    proof fn lemma_round_trip(v: u16) {
        lemma_pow256_values();
        lemma_le_round_trip_small(v as nat, 2);
    }

    fn width() -> (n: usize) {
        2
    }

    fn write(&self, out: &mut Vec<u8>) {
        write_le(out, *self as u64, 2);
    }

    fn read(buf: &[u8], pos: usize) -> (r: Option<u16>) {
        proof {
            lemma_pow256_values();
        }
        let u: u64 = read_le(buf, pos, 2);
        Some(u as u16)
    }
}

impl Primitive for u32 {
    open spec fn spec_width() -> nat {
        4
    }

    open spec fn encode(v: u32) -> Seq<u8> {
        le_bytes(v as nat, 4)
    }

    open spec fn decodable(bytes: Seq<u8>) -> bool {
        true
    }

    open spec fn decode(bytes: Seq<u8>) -> u32 {
        le_value(bytes) as u32
    }

    open spec fn exact(v: u32) -> bool {
        true
    }

    proof fn lemma_width() {
    }

    proof fn lemma_encode(v: u32) {
        lemma_le_bytes_len(v as nat, 4);
    }

    proof fn lemma_round_trip(v: u32) {
        lemma_pow256_values();
        lemma_le_round_trip_small(v as nat, 4);
    }

    fn width() -> (n: usize) {
        4
    }

    fn write(&self, out: &mut Vec<u8>) {
        write_le(out, *self as u64, 4);
    }

    fn read(buf: &[u8], pos: usize) -> (r: Option<u32>) {
        proof {
            lemma_pow256_values();
        }
        let u: u64 = read_le(buf, pos, 4);
        Some(u as u32)
    }
}

impl Primitive for u64 {
    open spec fn spec_width() -> nat {
        8
    }

    open spec fn encode(v: u64) -> Seq<u8> {
        le_bytes(v as nat, 8)
    }

    open spec fn decodable(bytes: Seq<u8>) -> bool {
        true
    }

    open spec fn decode(bytes: Seq<u8>) -> u64 {
        le_value(bytes) as u64
    }

    open spec fn exact(v: u64) -> bool {
        true
    }

    proof fn lemma_width() {
    }

    proof fn lemma_encode(v: u64) {
        lemma_le_bytes_len(v as nat, 8);
    }

    proof fn lemma_round_trip(v: u64) {
        lemma_pow256_values();
        lemma_le_round_trip_small(v as nat, 8);
    }

    fn width() -> (n: usize) {
        8
    }

    fn write(&self, out: &mut Vec<u8>) {
        write_le(out, *self as u64, 8);
    }

    fn read(buf: &[u8], pos: usize) -> (r: Option<u64>) {
        proof {
            lemma_pow256_values();
        }
        let u: u64 = read_le(buf, pos, 8);
        Some(u as u64)
    }
}

impl Primitive for u128 {
    open spec fn spec_width() -> nat {
        16
    }

    open spec fn encode(v: u128) -> Seq<u8> {
        le_bytes(v as nat, 16)
    }

    open spec fn decodable(bytes: Seq<u8>) -> bool {
        true
    }

    open spec fn decode(bytes: Seq<u8>) -> u128 {
        le_value(bytes) as u128
    }

    open spec fn exact(v: u128) -> bool {
        true
    }

    proof fn lemma_width() {
    }

    proof fn lemma_encode(v: u128) {
        lemma_le_bytes_len(v as nat, 16);
    }

    proof fn lemma_round_trip(v: u128) {
        lemma_pow256_sixteen();
        lemma_le_round_trip_small(v as nat, 16);
    }

    fn width() -> (n: usize) {
        16
    }

    fn write(&self, out: &mut Vec<u8>) {
        write_le_wide(out, *self);
    }

    fn read(buf: &[u8], pos: usize) -> (r: Option<u128>) {
        Some(read_le_wide(buf, pos))
    }
}

} // verus!
