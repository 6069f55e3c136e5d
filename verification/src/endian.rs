//! Byte-order normalisation: every multi-byte integer of an archive is stored
//! least significant byte first, whatever the machine that wrote it.

use vstd::prelude::*;

verus! {

/// 256 to the power `n`: the number of values that `n` bytes can hold.
pub open spec fn pow256(n: nat) -> nat
    decreases n,
{
    if n == 0 {
        1
    } else {
        256 * pow256((n - 1) as nat)
    }
}

/// The `n` little-endian bytes of `x` (of `x` modulo `pow256(n)`).
pub open spec fn le_bytes(x: nat, n: nat) -> Seq<u8>
    decreases n,
{
    if n == 0 {
        Seq::empty()
    } else {
        seq![(x % 256) as u8] + le_bytes(x / 256, (n - 1) as nat)
    }
}

/// The number whose little-endian bytes are `s`.
pub open spec fn le_value(s: Seq<u8>) -> nat
    decreases s.len(),
{
    if s.len() == 0 {
        0
    } else {
        s[0] as nat + 256 * le_value(s.drop_first())
    }
}

/// The unsigned number that stands for `v` in `n` bytes of two's complement.
pub open spec fn to_twos(v: int, n: nat) -> nat {
    if v < 0 {
        (v + pow256(n)) as nat
    } else {
        v as nat
    }
}

/// The signed number that `u` stands for in `n` bytes of two's complement.
pub open spec fn from_twos(u: nat, n: nat) -> int {
    if 2 * u >= pow256(n) {
        u - pow256(n)
    } else {
        u as int
    }
}

pub proof fn lemma_pow256_values()
    ensures
        pow256(0) == 1,
        pow256(1) == 0x100,
        pow256(2) == 0x1_0000,
        pow256(3) == 0x100_0000,
        pow256(4) == 0x1_0000_0000,
        pow256(5) == 0x100_0000_0000,
        pow256(6) == 0x1_0000_0000_0000,
        pow256(7) == 0x100_0000_0000_0000,
        pow256(8) == 0x1_0000_0000_0000_0000,
{
    reveal_with_fuel(pow256, 10);
}

pub proof fn lemma_pow256_sixteen()
    ensures
        pow256(16) == 0x1_0000_0000_0000_0000_0000_0000_0000_0000,
{
    lemma_pow256_values();
    lemma_pow256_sum(8, 8);
}

/// The number of values of `a + b` bytes is the product of those of `a` and
/// of `b` bytes.
pub proof fn lemma_pow256_sum(a: nat, b: nat)
    ensures
        pow256(a + b) == pow256(a) * pow256(b),
    decreases b,
{
    if b == 0 {
        assert(pow256(a) * 1 == pow256(a));
    } else {
        lemma_pow256_sum(a, (b - 1) as nat);
        assert(pow256(a + b) == 256 * pow256((a + b - 1) as nat));
        assert(256 * (pow256(a) * pow256((b - 1) as nat)) == pow256(a) * (256 * pow256(
            (b - 1) as nat,
        ))) by (nonlinear_arith);
    }
}

pub proof fn lemma_pow256_positive(n: nat)
    ensures
        pow256(n) > 0,
    decreases n,
{
    if n > 0 {
        lemma_pow256_positive((n - 1) as nat);
    }
}

pub proof fn lemma_le_bytes_len(x: nat, n: nat)
    ensures
        le_bytes(x, n).len() == n,
    decreases n,
{
    if n > 0 {
        lemma_le_bytes_len(x / 256, (n - 1) as nat);
    }
}

pub proof fn lemma_le_value_bound(s: Seq<u8>)
    ensures
        le_value(s) < pow256(s.len()),
    decreases s.len(),
{
    if s.len() > 0 {
        lemma_le_value_bound(s.drop_first());
    }
}

/// Decoding undoes encoding, up to what `n` bytes can hold.
pub proof fn lemma_le_round_trip(x: nat, n: nat)
    ensures
        le_value(le_bytes(x, n)) == x % pow256(n),
    decreases n,
{
    lemma_pow256_positive(n);
    if n > 0 {
        let m = (n - 1) as nat;
        let rest = le_bytes(x / 256, m);
        let s = le_bytes(x, n);
        lemma_le_round_trip(x / 256, m);
        lemma_pow256_positive(m);
        assert(s.drop_first() =~= rest);
        assert(s[0] == (x % 256) as u8);
        vstd::arithmetic::div_mod::lemma_breakdown(x as int, 256, pow256(m) as int);
    }
}

/// A number that fits `n` bytes is what its encoding decodes to.
pub proof fn lemma_le_round_trip_small(x: nat, n: nat)
    requires
        x < pow256(n),
    ensures
        le_bytes(x, n).len() == n,
        le_value(le_bytes(x, n)) == x,
{
    lemma_le_bytes_len(x, n);
    lemma_le_round_trip(x, n);
    vstd::arithmetic::div_mod::lemma_small_mod(x, pow256(n));
}

/// Two's complement loses nothing of a number that fits `n` bytes.
pub proof fn lemma_twos_round_trip(v: int, n: nat)
    requires
        n > 0,
        -(pow256(n) as int) <= 2 * v < pow256(n),
    ensures
        to_twos(v, n) < pow256(n),
        from_twos(to_twos(v, n), n) == v,
{
}

/// Appends the `n` little-endian bytes of `x` to `out`.
pub fn write_le(out: &mut Vec<u8>, x: u64, n: usize)
    requires
        n <= 8,
    ensures
        final(out)@ == old(out)@ + le_bytes(x as nat, n as nat),
{
    let mut rest: u64 = x;
    let mut i: usize = 0;
    while i < n
        invariant
            i <= n <= 8,
            out@ + le_bytes(rest as nat, (n - i) as nat) == old(out)@ + le_bytes(
                x as nat,
                n as nat,
            ),
        decreases n - i,
    {
        let ghost before = out@;
        let b: u8 = (rest % 256) as u8;
        out.push(b);
        proof {
            let tail = le_bytes((rest / 256) as nat, (n - i - 1) as nat);
            assert(le_bytes(rest as nat, (n - i) as nat) == seq![b] + tail);
            assert(before + (seq![b] + tail) =~= before.push(b) + tail);
        }
        rest = rest / 256;
        i = i + 1;
    }
    proof {
        assert(out@ + le_bytes(rest as nat, 0) =~= out@);
    }
}

/// Reads the number that the `n` bytes of `buf` from `pos` on encode.
pub fn read_le(buf: &[u8], pos: usize, n: usize) -> (x: u64)
    requires
        n <= 8,
        pos + n <= buf.len(),
    ensures
        x == le_value(buf@.subrange(pos as int, pos + n)),
        (x as nat) < pow256(n as nat),
{
    let mut x: u64 = 0;
    let mut i: usize = n;
    proof {
        assert(buf@.subrange(pos + n, pos + n) =~= Seq::<u8>::empty());
    }
    while i > 0
        invariant
            i <= n <= 8,
            pos + n <= buf.len(),
            x == le_value(buf@.subrange(pos + i, pos + n)),
        decreases i,
    {
        let ghost hi = buf@.subrange(pos + i, pos + n);
        i = i - 1;
        let b: u8 = buf[pos + i];
        proof {
            let s = buf@.subrange(pos + i, pos + n);
            assert(s.drop_first() =~= hi);
            assert(s[0] == b);
            lemma_le_value_bound(hi);
            lemma_le_value_bound(s);
            lemma_pow256_values();
            lemma_pow256_monotone(s.len(), 8);
        }
        x = x * 256 + b as u64;
    }
    proof {
        lemma_le_value_bound(buf@.subrange(pos as int, pos + n));
    }
    x
}

pub proof fn lemma_pow256_monotone(a: nat, b: nat)
    requires
        a <= b,
    ensures
        pow256(a) <= pow256(b),
    decreases b,
{
    if a < b {
        lemma_pow256_monotone(a, (b - 1) as nat);
    }
}

/// The widths in bytes of the integers that an archive holds.
pub open spec fn is_width(n: nat) -> bool {
    n == 1 || n == 2 || n == 4 || n == 8
}

/// A signed number fits `n` bytes of two's complement.
pub open spec fn fits_signed(v: int, n: nat) -> bool {
    -(pow256(n) as int) <= 2 * v < pow256(n)
}

/// The unsigned number that stands for `v` in `n` bytes of two's complement.
pub fn twos_of(v: i64, n: usize) -> (u: u64)
    requires
        is_width(n as nat),
        fits_signed(v as int, n as nat),
    ensures
        u == to_twos(v as int, n as nat),
        (u as nat) < pow256(n as nat),
{
    proof {
        lemma_pow256_values();
    }
    if v >= 0 {
        v as u64
    } else {
        let modulus: i128 = if n == 1 {
            0x100
        } else if n == 2 {
            0x1_0000
        } else if n == 4 {
            0x1_0000_0000
        } else {
            0x1_0000_0000_0000_0000
        };
        (v as i128 + modulus) as u64
    }
}

/// The signed number that `u` stands for in `n` bytes of two's complement.
pub fn signed_of(u: u64, n: usize) -> (v: i64)
    requires
        is_width(n as nat),
        (u as nat) < pow256(n as nat),
    ensures
        v == from_twos(u as nat, n as nat),
        fits_signed(v as int, n as nat),
{
    proof {
        lemma_pow256_values();
    }
    let half: u64 = if n == 1 {
        0x80
    } else if n == 2 {
        0x8000
    } else if n == 4 {
        0x8000_0000
    } else {
        0x8000_0000_0000_0000
    };
    if u >= half {
        let modulus: i128 = if n == 1 {
            0x100
        } else if n == 2 {
            0x1_0000
        } else if n == 4 {
            0x1_0000_0000
        } else {
            0x1_0000_0000_0000_0000
        };
        (u as i128 - modulus) as i64
    } else {
        u as i64
    }
}

/// A signed number that fits `n` bytes is read back from them unchanged.
pub proof fn lemma_signed_round_trip(v: int, n: nat)
    requires
        is_width(n),
        fits_signed(v, n),
    ensures
        le_bytes(to_twos(v, n), n).len() == n,
        from_twos(le_value(le_bytes(to_twos(v, n), n)), n) == v,
{
    lemma_twos_round_trip(v, n);
    lemma_le_round_trip_small(to_twos(v, n), n);
}

/// Appends the sixteen little-endian bytes of `x` to `out`.
pub fn write_le_wide(out: &mut Vec<u8>, x: u128)
    ensures
        final(out)@ == old(out)@ + le_bytes(x as nat, 16),
{
    let mut rest: u128 = x;
    let mut i: usize = 0;
    while i < 16
        invariant
            i <= 16,
            out@ + le_bytes(rest as nat, (16 - i) as nat) == old(out)@ + le_bytes(x as nat, 16),
        decreases 16 - i,
    {
        let ghost before = out@;
        let b: u8 = (rest % 256) as u8;
        out.push(b);
        proof {
            let tail = le_bytes((rest / 256) as nat, (16 - i - 1) as nat);
            assert(le_bytes(rest as nat, (16 - i) as nat) == seq![b] + tail);
            assert(before + (seq![b] + tail) =~= before.push(b) + tail);
        }
        rest = rest / 256;
        i = i + 1;
    }
    proof {
        assert(out@ + le_bytes(rest as nat, 0) =~= out@);
    }
}

/// Reads the number that the sixteen bytes of `buf` from `pos` on encode.
pub fn read_le_wide(buf: &[u8], pos: usize) -> (x: u128)
    requires
        pos + 16 <= buf.len(),
    ensures
        x == le_value(buf@.subrange(pos as int, pos + 16)),
        (x as nat) < pow256(16),
{
    let mut x: u128 = 0;
    let mut i: usize = 16;
    proof {
        assert(buf@.subrange(pos + 16, pos + 16) =~= Seq::<u8>::empty());
    }
    while i > 0
        invariant
            i <= 16,
            pos + 16 <= buf.len(),
            x == le_value(buf@.subrange(pos + i, pos + 16)),
        decreases i,
    {
        let ghost hi = buf@.subrange(pos + i, pos + 16);
        i = i - 1;
        let b: u8 = buf[pos + i];
        proof {
            let s = buf@.subrange(pos + i, pos + 16);
            assert(s.drop_first() =~= hi);
            assert(s[0] == b);
            lemma_le_value_bound(hi);
            lemma_le_value_bound(s);
            lemma_pow256_sixteen();
            lemma_pow256_monotone(s.len(), 16);
        }
        x = x * 256 + b as u128;
    }
    proof {
        lemma_le_value_bound(buf@.subrange(pos as int, pos + 16));
    }
    x
}

/// The unsigned number that stands for `v` in sixteen bytes of two's
/// complement.
pub fn twos_of_wide(v: i128) -> (u: u128)
    ensures
        u == to_twos(v as int, 16),
        (u as nat) < pow256(16),
{
    proof {
        lemma_pow256_sixteen();
    }
    if v >= 0 {
        v as u128
    } else {
        (v - i128::MIN) as u128 + 0x8000_0000_0000_0000_0000_0000_0000_0000
    }
}

/// The signed number that `u` stands for in sixteen bytes of two's
/// complement.
pub fn signed_of_wide(u: u128) -> (v: i128)
    ensures
        v == from_twos(u as nat, 16),
{
    proof {
        lemma_pow256_sixteen();
    }
    if u >= 0x8000_0000_0000_0000_0000_0000_0000_0000 {
        (u - 0x8000_0000_0000_0000_0000_0000_0000_0000) as i128 + i128::MIN
    } else {
        u as i128
    }
}

/// A signed number that fits sixteen bytes is read back from them unchanged.
pub proof fn lemma_signed_round_trip_wide(v: int)
    requires
        i128::MIN <= v <= i128::MAX,
    ensures
        le_bytes(to_twos(v, 16), 16).len() == 16,
        from_twos(le_value(le_bytes(to_twos(v, 16), 16)), 16) == v,
{
    lemma_pow256_sixteen();
    lemma_twos_round_trip(v, 16);
    lemma_le_round_trip_small(to_twos(v, 16), 16);
}

} // verus!
