//! Fixed-point arithmetic for the color pipeline. The HSV hexagon works on
//! Q16 fractions (`0..=65536`); the gamma power chain runs at Q32
//! (`0..=2^32`) so that its rounding error stays several orders of
//! magnitude below half an output step — in particular, an exponent of one
//! provably corrects nothing. The module provides multiplication, square
//! roots and powers with a fractional exponent, together with the ordering
//! and error lemmas the gamma tables are built on.

use vstd::prelude::*;
use vstd::arithmetic::div_mod::lemma_basic_div;
use vstd::arithmetic::div_mod::lemma_div_by_multiple;
use vstd::arithmetic::div_mod::lemma_div_is_ordered;
use vstd::arithmetic::div_mod::lemma_hoist_over_denominator;
use vstd::arithmetic::mul::lemma_mul_nonnegative;
use vstd::arithmetic::mul::lemma_mul_upper_bound;

verus! {

/// Integer square root, defined by unit descent; the executable code
/// computes the same value by binary search.
pub open spec fn spec_isqrt(n: nat) -> nat
    decreases n,
{
    if n == 0 {
        0
    } else {
        let r = spec_isqrt((n - 1) as nat);
        if (r + 1) * (r + 1) <= n {
            r + 1
        } else {
            r
        }
    }
}

pub proof fn lemma_isqrt_bounds(n: nat)
    ensures
        spec_isqrt(n) * spec_isqrt(n) <= n,
        n < (spec_isqrt(n) + 1) * (spec_isqrt(n) + 1),
    decreases n,
{
    let s = spec_isqrt(n);
    if n > 0 {
        lemma_isqrt_bounds((n - 1) as nat);
        let r = spec_isqrt((n - 1) as nat);
        if (r + 1) * (r + 1) <= n {
            assert(s == r + 1);
            assert(s * s <= n) by (nonlinear_arith)
                requires
                    s == r + 1,
                    (r + 1) * (r + 1) <= n,
            ;
            assert(n < (s + 1) * (s + 1)) by (nonlinear_arith)
                requires
                    s == r + 1,
                    n <= (r + 1) * (r + 1),
            ;
        } else {
            assert(s == r);
            assert(s * s <= n) by (nonlinear_arith)
                requires
                    s == r,
                    r * r < n,
            ;
            assert(n < (s + 1) * (s + 1)) by (nonlinear_arith)
                requires
                    s == r,
                    n < (r + 1) * (r + 1),
            ;
        }
    } else {
        assert(s == 0);
        assert(n < (s + 1) * (s + 1)) by (nonlinear_arith)
            requires
                s == 0,
                n == 0,
        ;
    }
}

pub proof fn lemma_isqrt_unique(n: nat, r: nat)
    requires
        r * r <= n,
        n < (r + 1) * (r + 1),
    ensures
        r == spec_isqrt(n),
{
    let s = spec_isqrt(n);
    lemma_isqrt_bounds(n);
    if r < s {
        assert((r + 1) * (r + 1) <= s * s) by (nonlinear_arith)
            requires
                r + 1 <= s,
        ;
        assert(false);
    }
    if s < r {
        assert((s + 1) * (s + 1) <= r * r) by (nonlinear_arith)
            requires
                s + 1 <= r,
        ;
        assert(false);
    }
}

pub proof fn lemma_isqrt_mono(a: nat, b: nat)
    requires
        a <= b,
    ensures
        spec_isqrt(a) <= spec_isqrt(b),
{
    lemma_isqrt_bounds(a);
    lemma_isqrt_bounds(b);
    let ra = spec_isqrt(a);
    let rb = spec_isqrt(b);
    if rb < ra {
        assert((rb + 1) * (rb + 1) <= ra * ra) by (nonlinear_arith)
            requires
                rb + 1 <= ra,
        ;
        assert(false);
    }
}

pub fn isqrt(n: u128) -> (r: u128)
    requires
        n <= 0x1_0000_0000_0000_0000,
    ensures
        r == spec_isqrt(n as nat),
        r <= 0x1_0000_0000,
{
    let mut lo: u128 = 0;
    let mut hi: u128 = 0x1_0000_0001;
    proof {
        assert(0x1_0000_0000_0000_0000 < 0x1_0000_0001 * 0x1_0000_0001) by (nonlinear_arith);
    }
    while lo + 1 < hi
        invariant
            lo < hi <= 0x1_0000_0001,
            lo * lo <= n,
            n < hi * hi,
        decreases hi - lo,
    {
        let mid = lo + (hi - lo) / 2;
        assert(mid * mid <= 0x1_0000_0002_0000_0001) by (nonlinear_arith)
            requires
                mid <= 0x1_0000_0001,
        ;
        if mid * mid <= n {
            lo = mid;
        } else {
            hi = mid;
        }
    }
    proof {
        lemma_isqrt_unique(n as nat, lo as nat);
    }
    lo
}

/// Q16 product: `(a / 65536) * (b / 65536)`, rounded down.
pub open spec fn spec_qmul(a: int, b: int) -> int {
    (a * b) / 65536
}

pub proof fn lemma_qmul_bounds(a: int, b: int)
    requires
        0 <= a <= 65536,
        0 <= b <= 65536,
    ensures
        0 <= spec_qmul(a, b) <= 65536,
{
    lemma_mul_nonnegative(a, b);
    lemma_mul_upper_bound(a, 65536, b, 65536);
    lemma_div_is_ordered(0, a * b, 65536);
    lemma_div_is_ordered(a * b, 0x1_0000_0000, 65536);
}

pub fn qmul(a: u32, b: u32) -> (r: u32)
    requires
        a <= 65536,
        b <= 65536,
    ensures
        r == spec_qmul(a as int, b as int),
        r <= 65536,
{
    proof {
        lemma_mul_upper_bound(a as int, 65536, b as int, 65536);
        lemma_qmul_bounds(a as int, b as int);
    }
    (((a as u64) * (b as u64)) / 65536) as u32
}

/// Q32 product: `(a / 2^32) * (b / 2^32)`, rounded down.
pub open spec fn spec_qmul32(a: int, b: int) -> int {
    (a * b) / 0x1_0000_0000
}

pub proof fn lemma_qmul32_bounds(a: int, b: int)
    requires
        0 <= a <= 0x1_0000_0000,
        0 <= b <= 0x1_0000_0000,
    ensures
        0 <= spec_qmul32(a, b) <= 0x1_0000_0000,
{
    lemma_mul_nonnegative(a, b);
    lemma_mul_upper_bound(a, 0x1_0000_0000, b, 0x1_0000_0000);
    lemma_div_is_ordered(0, a * b, 0x1_0000_0000);
    lemma_div_is_ordered(a * b, 0x1_0000_0000_0000_0000, 0x1_0000_0000);
}

pub proof fn lemma_qmul32_mono(a1: int, b1: int, a2: int, b2: int)
    requires
        0 <= a1 <= a2,
        0 <= b1 <= b2,
    ensures
        spec_qmul32(a1, b1) <= spec_qmul32(a2, b2),
{
    lemma_mul_upper_bound(a1, a2, b1, b2);
    lemma_div_is_ordered(a1 * b1, a2 * b2, 0x1_0000_0000);
}

pub fn qmul32(a: u64, b: u64) -> (r: u64)
    requires
        a <= 0x1_0000_0000,
        b <= 0x1_0000_0000,
    ensures
        r == spec_qmul32(a as int, b as int),
        r <= 0x1_0000_0000,
{
    proof {
        lemma_mul_upper_bound(a as int, 0x1_0000_0000, b as int, 0x1_0000_0000);
        lemma_qmul32_bounds(a as int, b as int);
    }
    (((a as u128) * (b as u128)) / 0x1_0000_0000) as u64
}

/// Square root of a Q32 fraction, again in Q32.
pub open spec fn spec_sqrt_q32(x: int) -> int {
    spec_isqrt((x * 0x1_0000_0000) as nat) as int
}

pub proof fn lemma_sqrt_q32_props(a: int, b: int)
    requires
        0 <= a <= b <= 0x1_0000_0000,
    ensures
        0 <= spec_sqrt_q32(a) <= spec_sqrt_q32(b) <= 0x1_0000_0000,
{
    lemma_isqrt_mono((a * 0x1_0000_0000) as nat, (b * 0x1_0000_0000) as nat);
    let n = (b * 0x1_0000_0000) as nat;
    lemma_isqrt_bounds(n);
    let r = spec_isqrt(n);
    if r > 0x1_0000_0000 {
        assert(0x1_0000_0001 * 0x1_0000_0001 <= r * r) by (nonlinear_arith)
            requires
                0x1_0000_0001 <= r,
        ;
        assert(false);
    }
}

pub fn sqrt_q32(x: u64) -> (r: u64)
    requires
        x <= 0x1_0000_0000,
    ensures
        r == spec_sqrt_q32(x as int),
        r <= 0x1_0000_0000,
{
    proof {
        lemma_sqrt_q32_props(x as int, x as int);
    }
    isqrt((x as u128) * 0x1_0000_0000) as u64
}

/// Squaring a fraction's square root gives the fraction back up to three
/// units of the last place: the floor in the root and the floor in the
/// product each lose strictly less than 2^-32 of the true value.
pub proof fn lemma_sqrt_sq_roundtrip(x: int)
    requires
        0 <= x <= 0x1_0000_0000,
    ensures
        x - 3 <= spec_qmul32(spec_sqrt_q32(x), spec_sqrt_q32(x)) <= x,
{
    let n = x * 0x1_0000_0000;
    lemma_isqrt_bounds(n as nat);
    let s = spec_sqrt_q32(x);
    lemma_sqrt_q32_props(x, x);
    lemma_qmul32_bounds(s, s);
    lemma_div_is_ordered(s * s, n, 0x1_0000_0000);
    lemma_div_by_multiple(x, 0x1_0000_0000);
    if x >= 3 {
        assert(s * s >= n - 0x2_0000_0001) by (nonlinear_arith)
            requires
                n < (s + 1) * (s + 1),
                0 <= s <= 0x1_0000_0000,
        ;
        lemma_div_is_ordered(n - 0x2_0000_0001, s * s, 0x1_0000_0000);
        lemma_hoist_over_denominator(0xFFFF_FFFF, x - 3, 0x1_0000_0000);
        lemma_basic_div(0xFFFF_FFFF, 0x1_0000_0000);
        assert(n - 0x2_0000_0001 == 0xFFFF_FFFF + (x - 3) * 0x1_0000_0000);
    }
}

/// Squaring in Q32 magnifies a difference of the inputs at most twofold.
pub proof fn lemma_sq_diff(a: int, b: int)
    requires
        0 <= a <= b <= 0x1_0000_0000,
    ensures
        spec_qmul32(b, b) <= spec_qmul32(a, a) + 2 * (b - a),
{
    assert(b * b <= a * a + (b - a) * 0x2_0000_0000) by (nonlinear_arith)
        requires
            0 <= a <= b <= 0x1_0000_0000,
    ;
    lemma_div_is_ordered(b * b, a * a + (b - a) * 0x2_0000_0000, 0x1_0000_0000);
    lemma_hoist_over_denominator(a * a, 2 * (b - a), 0x1_0000_0000);
    assert(a * a + (b - a) * 0x2_0000_0000 == a * a + (2 * (b - a)) * 0x1_0000_0000);
}

/// The 256th root of a Q32 fraction: eight successive square roots.
pub open spec fn spec_root256_q32(x: int) -> int {
    spec_sqrt_q32(
        spec_sqrt_q32(
            spec_sqrt_q32(
                spec_sqrt_q32(spec_sqrt_q32(spec_sqrt_q32(spec_sqrt_q32(spec_sqrt_q32(x))))),
            ),
        ),
    )
}

pub proof fn lemma_root256_q32_props(a: int, b: int)
    requires
        0 <= a <= b <= 0x1_0000_0000,
    ensures
        0 <= spec_root256_q32(a) <= spec_root256_q32(b) <= 0x1_0000_0000,
{
    lemma_sqrt_q32_props(a, b);
    let a1 = spec_sqrt_q32(a);
    let b1 = spec_sqrt_q32(b);
    lemma_sqrt_q32_props(a1, b1);
    let a2 = spec_sqrt_q32(a1);
    let b2 = spec_sqrt_q32(b1);
    lemma_sqrt_q32_props(a2, b2);
    let a3 = spec_sqrt_q32(a2);
    let b3 = spec_sqrt_q32(b2);
    lemma_sqrt_q32_props(a3, b3);
    let a4 = spec_sqrt_q32(a3);
    let b4 = spec_sqrt_q32(b3);
    lemma_sqrt_q32_props(a4, b4);
    let a5 = spec_sqrt_q32(a4);
    let b5 = spec_sqrt_q32(b4);
    lemma_sqrt_q32_props(a5, b5);
    let a6 = spec_sqrt_q32(a5);
    let b6 = spec_sqrt_q32(b5);
    lemma_sqrt_q32_props(a6, b6);
    let a7 = spec_sqrt_q32(a6);
    let b7 = spec_sqrt_q32(b6);
    lemma_sqrt_q32_props(a7, b7);
}

pub fn root256_q32(x: u64) -> (r: u64)
    requires
        x <= 0x1_0000_0000,
    ensures
        r == spec_root256_q32(x as int),
        r <= 0x1_0000_0000,
{
    let r1 = sqrt_q32(x);
    let r2 = sqrt_q32(r1);
    let r3 = sqrt_q32(r2);
    let r4 = sqrt_q32(r3);
    let r5 = sqrt_q32(r4);
    let r6 = sqrt_q32(r5);
    let r7 = sqrt_q32(r6);
    sqrt_q32(r7)
}

/// Square-and-multiply over the bits of the exponent `g`, in Q32: the
/// accumulator picks up `base^g` where each step keeps only the
/// fixed-point floor.
pub open spec fn spec_pow_bits(acc: int, base: int, g: nat) -> int
    decreases g,
{
    if g == 0 {
        acc
    } else {
        let acc2 = if g % 2 == 1 {
            spec_qmul32(acc, base)
        } else {
            acc
        };
        spec_pow_bits(acc2, spec_qmul32(base, base), g / 2)
    }
}

pub proof fn lemma_pow_bits_bounds(acc: int, base: int, g: nat)
    requires
        0 <= acc <= 0x1_0000_0000,
        0 <= base <= 0x1_0000_0000,
    ensures
        0 <= spec_pow_bits(acc, base, g) <= 0x1_0000_0000,
    decreases g,
{
    if g > 0 {
        lemma_qmul32_bounds(acc, base);
        lemma_qmul32_bounds(base, base);
        let acc2 = if g % 2 == 1 {
            spec_qmul32(acc, base)
        } else {
            acc
        };
        lemma_pow_bits_bounds(acc2, spec_qmul32(base, base), g / 2);
    }
}

pub proof fn lemma_pow_bits_mono(acc1: int, base1: int, acc2: int, base2: int, g: nat)
    requires
        0 <= acc1 <= acc2 <= 0x1_0000_0000,
        0 <= base1 <= base2 <= 0x1_0000_0000,
    ensures
        spec_pow_bits(acc1, base1, g) <= spec_pow_bits(acc2, base2, g),
    decreases g,
{
    if g > 0 {
        lemma_qmul32_bounds(acc1, base1);
        lemma_qmul32_bounds(acc2, base2);
        lemma_qmul32_bounds(base1, base1);
        lemma_qmul32_bounds(base2, base2);
        lemma_qmul32_mono(acc1, base1, acc2, base2);
        lemma_qmul32_mono(base1, base1, base2, base2);
        let a1 = if g % 2 == 1 {
            spec_qmul32(acc1, base1)
        } else {
            acc1
        };
        let a2 = if g % 2 == 1 {
            spec_qmul32(acc2, base2)
        } else {
            acc2
        };
        lemma_pow_bits_mono(a1, spec_qmul32(base1, base1), a2, spec_qmul32(base2, base2), g / 2);
    }
}

/// `x^(g / 256)` for a Q32 fraction `x` and an exponent `g` in Q8 units
/// (256 stands for an exponent of one).
pub open spec fn spec_pow_q32(x: int, g: nat) -> int {
    spec_pow_bits(0x1_0000_0000, spec_root256_q32(x), g)
}

pub proof fn lemma_pow_q32_props(a: int, b: int, g: nat)
    requires
        0 <= a <= b <= 0x1_0000_0000,
    ensures
        0 <= spec_pow_q32(a, g) <= spec_pow_q32(b, g) <= 0x1_0000_0000,
{
    lemma_root256_q32_props(a, b);
    lemma_pow_bits_mono(0x1_0000_0000, spec_root256_q32(a), 0x1_0000_0000, spec_root256_q32(b), g);
    lemma_pow_bits_bounds(0x1_0000_0000, spec_root256_q32(a), g);
    lemma_pow_bits_bounds(0x1_0000_0000, spec_root256_q32(b), g);
}

/// At the exponent one (256 in Q8 units) the power chain is eight square
/// roots followed by eight squarings, and the floors along the way lose at
/// most 765 units of 2^-32 — vanishing next to the half-step of 2^23 that
/// the byte rounding absorbs.
pub proof fn lemma_pow_q32_one(x: int)
    requires
        0 <= x <= 0x1_0000_0000,
    ensures
        x - 765 <= spec_pow_q32(x, 256) <= x,
{
    let x1 = spec_sqrt_q32(x);
    let x2 = spec_sqrt_q32(x1);
    let x3 = spec_sqrt_q32(x2);
    let x4 = spec_sqrt_q32(x3);
    let x5 = spec_sqrt_q32(x4);
    let x6 = spec_sqrt_q32(x5);
    let x7 = spec_sqrt_q32(x6);
    let x8 = spec_sqrt_q32(x7);
    lemma_root256_q32_props(x, x);
    lemma_sqrt_q32_props(x, x);
    lemma_sqrt_q32_props(x1, x1);
    lemma_sqrt_q32_props(x2, x2);
    lemma_sqrt_q32_props(x3, x3);
    lemma_sqrt_q32_props(x4, x4);
    lemma_sqrt_q32_props(x5, x5);
    lemma_sqrt_q32_props(x6, x6);
    lemma_sqrt_q32_props(x7, x7);

    let z7 = spec_qmul32(x8, x8);
    lemma_sqrt_sq_roundtrip(x7);
    lemma_qmul32_bounds(x8, x8);
    assert(x7 - 3 <= z7 <= x7);

    let z6 = spec_qmul32(z7, z7);
    lemma_qmul32_mono(z7, z7, x7, x7);
    lemma_sq_diff(z7, x7);
    lemma_sqrt_sq_roundtrip(x6);
    lemma_qmul32_bounds(z7, z7);
    assert(x6 - 9 <= z6 <= x6);

    let z5 = spec_qmul32(z6, z6);
    lemma_qmul32_mono(z6, z6, x6, x6);
    lemma_sq_diff(z6, x6);
    lemma_sqrt_sq_roundtrip(x5);
    lemma_qmul32_bounds(z6, z6);
    assert(x5 - 21 <= z5 <= x5);

    let z4 = spec_qmul32(z5, z5);
    lemma_qmul32_mono(z5, z5, x5, x5);
    lemma_sq_diff(z5, x5);
    lemma_sqrt_sq_roundtrip(x4);
    lemma_qmul32_bounds(z5, z5);
    assert(x4 - 45 <= z4 <= x4);

    let z3 = spec_qmul32(z4, z4);
    lemma_qmul32_mono(z4, z4, x4, x4);
    lemma_sq_diff(z4, x4);
    lemma_sqrt_sq_roundtrip(x3);
    lemma_qmul32_bounds(z4, z4);
    assert(x3 - 93 <= z3 <= x3);

    let z2 = spec_qmul32(z3, z3);
    lemma_qmul32_mono(z3, z3, x3, x3);
    lemma_sq_diff(z3, x3);
    lemma_sqrt_sq_roundtrip(x2);
    lemma_qmul32_bounds(z3, z3);
    assert(x2 - 189 <= z2 <= x2);

    let z1 = spec_qmul32(z2, z2);
    lemma_qmul32_mono(z2, z2, x2, x2);
    lemma_sq_diff(z2, x2);
    lemma_sqrt_sq_roundtrip(x1);
    lemma_qmul32_bounds(z2, z2);
    assert(x1 - 381 <= z1 <= x1);

    let z0 = spec_qmul32(z1, z1);
    lemma_qmul32_mono(z1, z1, x1, x1);
    lemma_sq_diff(z1, x1);
    lemma_sqrt_sq_roundtrip(x);
    lemma_qmul32_bounds(z1, z1);
    assert(x - 765 <= z0 <= x);

    // The exponent 256 has one set bit, so the chain above is exactly what
    // the square-and-multiply walk computes.
    assert(spec_root256_q32(x) == x8);
    assert(spec_pow_bits(0x1_0000_0000, x8, 256) == spec_pow_bits(0x1_0000_0000, z7, 128));
    assert(spec_pow_bits(0x1_0000_0000, z7, 128) == spec_pow_bits(0x1_0000_0000, z6, 64));
    assert(spec_pow_bits(0x1_0000_0000, z6, 64) == spec_pow_bits(0x1_0000_0000, z5, 32));
    assert(spec_pow_bits(0x1_0000_0000, z5, 32) == spec_pow_bits(0x1_0000_0000, z4, 16));
    assert(spec_pow_bits(0x1_0000_0000, z4, 16) == spec_pow_bits(0x1_0000_0000, z3, 8));
    assert(spec_pow_bits(0x1_0000_0000, z3, 8) == spec_pow_bits(0x1_0000_0000, z2, 4));
    assert(spec_pow_bits(0x1_0000_0000, z2, 4) == spec_pow_bits(0x1_0000_0000, z1, 2));
    assert(spec_pow_bits(0x1_0000_0000, z1, 2) == spec_pow_bits(0x1_0000_0000, z0, 1));
    assert(spec_pow_bits(0x1_0000_0000, z0, 1) == spec_pow_bits(
        spec_qmul32(0x1_0000_0000, z0),
        spec_qmul32(z0, z0),
        0,
    ));
    lemma_div_by_multiple(z0, 0x1_0000_0000);
    assert(0x1_0000_0000 * z0 == z0 * 0x1_0000_0000);
    assert(spec_qmul32(0x1_0000_0000, z0) == z0);
}

pub fn pow_q32(x: u64, g: u32) -> (r: u64)
    requires
        x <= 0x1_0000_0000,
    ensures
        r == spec_pow_q32(x as int, g as nat),
        r <= 0x1_0000_0000,
{
    let mut acc: u64 = 0x1_0000_0000;
    let mut base: u64 = root256_q32(x);
    let mut gg: u32 = g;
    while gg > 0
        invariant
            acc <= 0x1_0000_0000,
            base <= 0x1_0000_0000,
            spec_pow_bits(acc as int, base as int, gg as nat) == spec_pow_q32(x as int, g as nat),
        decreases gg,
    {
        if gg % 2 == 1 {
            acc = qmul32(acc, base);
        }
        base = qmul32(base, base);
        gg = gg / 2;
    }
    acc
}

} // verus!
