//! Double-precision numbers held by their IEEE 754 bit pattern.
//!
//! Sums over a picture and the matrices of a perspective are computed in double precision.
//! `Double` does for these numbers what `Single` does for the settings.

use crate::single::{lemma_cancel, lemma_square_order, power, root, Single};
use vstd::arithmetic::power2::{
    lemma_pow2_adds, lemma_pow2_pos, lemma_pow2_strictly_increases, lemma_pow2_unfold, pow2,
};
use vstd::prelude::*;

verus! {

/// A double-precision number. `==` compares bit patterns; `same` compares numbers.
#[derive(Clone, Copy, Debug, PartialEq, Eq, Structural)]
pub struct Double {
    pub bits: u64,
}

/// The pattern of positive infinity; every larger magnitude is not a number.
pub const INFINITY: u64 = 0x7ff0_0000_0000_0000;

/// The pattern with only the sign bit set.
pub const SIGN: u64 = 0x8000_0000_0000_0000;

/// Half of the significand's range: two to the power 52.
pub const HIDDEN: u64 = 0x10_0000_0000_0000;

/// The number with the bit pattern `bits`.
pub open spec fn spec_wide(bits: u64) -> Double {
    Double { bits }
}

/// The number with the bit pattern `bits`.
#[verifier::when_used_as_spec(spec_wide)]
pub fn wide(bits: u64) -> (r: Double)
    ensures
        r == spec_wide(bits),
{
    Double { bits }
}

/// The size of the number with magnitude pattern `m`, in units of two to the power -1074.
/// Patterns from `INFINITY` on continue the sequence: the first of them stands for two to
/// the power 1024.
pub open spec fn ulps(m: int) -> int {
    if m < HIDDEN {
        m
    } else {
        (HIDDEN + m % (HIDDEN as int)) * pow2((m / (HIDDEN as int) - 1) as nat)
    }
}

/// `m` is the magnitude pattern nearest to `n / d` units of two to the power -1074. Of two
/// patterns that are equally near, it is the even one.
pub open spec fn rounds_to(n: int, d: int, m: int) -> bool {
    &&& 0 <= m <= INFINITY
    &&& m > 0 ==> {
        let low = (ulps(m - 1) + ulps(m)) * d;
        low < 2 * n || (low == 2 * n && m % 2 == 0)
    }
    &&& m < INFINITY ==> {
        let high = (ulps(m) + ulps(m + 1)) * d;
        2 * n < high || (2 * n == high && m % 2 == 0)
    }
}

/// `m` is the magnitude pattern nearest to the square root of `n`, in units of two to the
/// power -1074, ties to even.
pub open spec fn root_rounds_to(n: int, m: int) -> bool {
    &&& 0 <= m <= INFINITY
    &&& m > 0 ==> {
        let low = ulps(m - 1) + ulps(m);
        low * low < 4 * n || (low * low == 4 * n && m % 2 == 0)
    }
    &&& m < INFINITY ==> {
        let high = ulps(m) + ulps(m + 1);
        4 * n < high * high || (4 * n == high * high && m % 2 == 0)
    }
}

/// The magnitude pattern that the square root of `n` rounds to.
pub open spec fn round_root(n: int) -> int {
    choose|m: int| root_rounds_to(n, m)
}

/// The magnitude pattern that `n / d` units of two to the power -1074 round to.
pub open spec fn round_ratio(n: int, d: int) -> int {
    choose|m: int| rounds_to(n, d, m)
}

proof fn lemma_ulps_form(q: int, m: int)
    requires
        0 <= q,
        0 <= m <= 2 * HIDDEN,
        q == 0 || m >= HIDDEN,
    ensures
        ulps(q * HIDDEN + m) == m * pow2(q as nat),
{
    let h = HIDDEN as int;
    vstd::arithmetic::power2::lemma2_to64();
    vstd::arithmetic::power2::lemma2_to64_rest();
    if q == 0 && m < h {
        assert(m * 1 == m);
    } else if m < 2 * h {
        assert((q * h + m) / h == q + 1) by (nonlinear_arith)
            requires
                h <= m < 2 * h,
                h > 0,
        ;
        assert((q * h + m) % h == m - h) by (nonlinear_arith)
            requires
                h <= m < 2 * h,
                h > 0,
        ;
        assert(q * h + m >= h) by (nonlinear_arith)
            requires
                h <= m,
                h > 0,
                q >= 0,
        ;
    } else {
        assert((q * h + m) / h == q + 2) by (nonlinear_arith)
            requires
                m == 2 * h,
                h > 0,
        ;
        assert((q * h + m) % h == 0) by (nonlinear_arith)
            requires
                m == 2 * h,
                h > 0,
        ;
        assert(q * h + m >= h) by (nonlinear_arith)
            requires
                h <= m,
                h > 0,
                q >= 0,
        ;
        lemma_pow2_unfold((q + 1) as nat);
        assert(h * (2 * pow2(q as nat)) == m * pow2(q as nat)) by (nonlinear_arith)
            requires
                m == 2 * h,
        ;
    }
}

proof fn lemma_ulps_step(m: int)
    requires
        0 <= m,
    ensures
        0 <= ulps(m) < ulps(m + 1),
{
    let h = HIDDEN as int;
    let q0 = m / h;
    let r = m % h;
    assert(m == q0 * h + r && 0 <= r < h) by (nonlinear_arith)
        requires
            h > 0,
            q0 == m / h,
            r == m % h,
    ;
    assert(q0 >= 0) by (nonlinear_arith)
        requires
            m >= 0,
            h > 0,
            q0 == m / h,
    ;
    if q0 == 0 {
        lemma_ulps_form(0, m);
        lemma_ulps_form(0, m + 1);
        lemma_pow2_pos(0);
        assert(0 <= m * pow2(0) < (m + 1) * pow2(0)) by (nonlinear_arith)
            requires
                m >= 0,
                pow2(0) > 0,
        ;
    } else {
        let q = q0 - 1;
        assert(q0 * h == q * h + h) by (nonlinear_arith)
            requires
                q0 == q + 1,
        ;
        lemma_ulps_form(q, h + r);
        lemma_ulps_form(q, h + r + 1);
        let p = pow2(q as nat) as int;
        lemma_pow2_pos(q as nat);
        assert(0 <= (h + r) * p < (h + r + 1) * p) by (nonlinear_arith)
            requires
                h + r >= 0,
                p > 0,
        ;
    }
}

proof fn lemma_ulps_monotone(a: int, b: int)
    requires
        0 <= a < b,
    ensures
        0 <= ulps(a) < ulps(b),
    decreases b - a,
{
    lemma_ulps_step(a);
    if a + 1 < b {
        lemma_ulps_monotone(a + 1, b);
    }
}

/// A ratio rounds to one pattern only.
pub proof fn lemma_rounding_is_unique(n: int, d: int, a: int, b: int)
    requires
        0 < d,
        rounds_to(n, d, a),
        rounds_to(n, d, b),
    ensures
        a == b,
{
    if a <= b {
        lemma_rounding_order(n, d, a, b);
    } else {
        lemma_rounding_order(n, d, b, a);
    }
}

proof fn lemma_rounding_order(n: int, d: int, a: int, b: int)
    requires
        0 < d,
        a <= b,
        rounds_to(n, d, a),
        rounds_to(n, d, b),
    ensures
        a == b,
{
    if a == b {
        return;
    }
    lemma_ulps_step(a);
    lemma_ulps_step(b - 1);
    let high = ulps(a) + ulps(a + 1);
    let low = ulps(b - 1) + ulps(b);
    if a + 1 < b {
        lemma_ulps_monotone(a, b - 1);
        lemma_ulps_monotone(a + 1, b);
        assert(high * d < low * d) by (nonlinear_arith)
            requires
                high < low,
                d > 0,
        ;
    } else {
        assert(a % 2 == 0 && b % 2 == 0);
    }
}

/// What is left of `n / d` once `m` units of two to the power `q` are taken out: `half` says
/// that it is half a unit or more, `rest` that there is something beside that half.
spec fn split_at(n: int, d: int, m: int, q: int, half: bool, rest: bool) -> bool {
    let x = n * pow2(4000);
    let t = pow2((q + 4000) as nat) * d;
    &&& m * t <= x < (m + 1) * t
    &&& (x == m * t) == (!half && !rest)
}

spec fn half_is_exact(n: int, d: int, m: int, q: int, half: bool, rest: bool) -> bool {
    let x = n * pow2(4000);
    let t = pow2((q + 4000) as nat) * d;
    &&& !half ==> 2 * x < (2 * m + 1) * t
    &&& half && !rest ==> 2 * x == (2 * m + 1) * t
    &&& half && rest ==> 2 * x > (2 * m + 1) * t
}

proof fn lemma_split_halves(n: int, d: int, m: int, q: int, half: bool, rest: bool)
    requires
        0 < d,
        0 <= m,
        -4000 <= q,
        split_at(n, d, m, q, half, rest),
    ensures
        split_at(n, d, m / 2, q + 1, m % 2 == 1, half || rest),
        half_is_exact(n, d, m / 2, q + 1, m % 2 == 1, half || rest),
{
    let x = n * pow2(4000);
    let p = pow2((q + 4000) as nat) as int;
    let t = p * d;
    let k = m / 2;
    lemma_pow2_unfold((q + 4001) as nat);
    lemma_pow2_pos((q + 4000) as nat);
    assert(pow2((q + 4001) as nat) * d == 2 * t) by (nonlinear_arith)
        requires
            pow2((q + 4001) as nat) == 2 * p,
            t == p * d,
    ;
    assert(t > 0) by (nonlinear_arith)
        requires
            p > 0,
            d > 0,
            t == p * d,
    ;
    assert(k * (2 * t) == (2 * k) * t) by (nonlinear_arith);
    assert((k + 1) * (2 * t) == (2 * k + 2) * t) by (nonlinear_arith);
    assert((2 * k + 1) * (2 * t) == 2 * ((2 * k + 1) * t)) by (nonlinear_arith);
    assert((2 * k + 1) * t == (2 * k) * t + t) by (nonlinear_arith);
    assert((2 * k + 2) * t == (2 * k) * t + 2 * t) by (nonlinear_arith);
    assert((m + 1) * t == m * t + t) by (nonlinear_arith);
    if m % 2 == 1 {
        assert(m == 2 * k + 1);
    } else {
        assert(m == 2 * k);
    }
}

proof fn lemma_split_doubles(n: int, d: int, m: int, q: int)
    requires
        0 < d,
        -4000 < q,
        split_at(n, d, m, q, false, false),
    ensures
        split_at(n, d, 2 * m, q - 1, false, false),
{
    let p = pow2((q + 3999) as nat) as int;
    lemma_pow2_unfold((q + 4000) as nat);
    lemma_pow2_pos((q + 3999) as nat);
    assert(m * ((2 * p) * d) == (2 * m) * (p * d)) by (nonlinear_arith);
    assert((2 * m + 1) * (p * d) == (2 * m) * (p * d) + p * d) by (nonlinear_arith);
    assert(p * d > 0) by (nonlinear_arith)
        requires
            p > 0,
            d > 0,
    ;
}

/// Eight binary places at once.
proof fn lemma_split_byte(n: int, d: int, m: int, q: int, half: bool, rest: bool)
    requires
        0 < d,
        0 <= m,
        -4000 <= q,
        split_at(n, d, m, q, half, rest),
    ensures
        split_at(n, d, m / 256, q + 8, (m / 128) % 2 == 1, half || rest || m % 128 != 0),
        half_is_exact(n, d, m / 256, q + 8, (m / 128) % 2 == 1, half || rest || m % 128 != 0),
{
    assert(m / 2 / 2 == m / 4 && m / 4 / 2 == m / 8 && m / 8 / 2 == m / 16 && m / 16 / 2 == m / 32
        && m / 32 / 2 == m / 64 && m / 64 / 2 == m / 128 && m / 128 / 2 == m / 256);
    let r1 = half || rest;
    lemma_split_halves(n, d, m, q, half, rest);
    let r2 = m % 2 == 1 || r1;
    lemma_split_halves(n, d, m / 2, q + 1, m % 2 == 1, r1);
    let r3 = (m / 2) % 2 == 1 || r2;
    lemma_split_halves(n, d, m / 4, q + 2, (m / 2) % 2 == 1, r2);
    let r4 = (m / 4) % 2 == 1 || r3;
    lemma_split_halves(n, d, m / 8, q + 3, (m / 4) % 2 == 1, r3);
    let r5 = (m / 8) % 2 == 1 || r4;
    lemma_split_halves(n, d, m / 16, q + 4, (m / 8) % 2 == 1, r4);
    let r6 = (m / 16) % 2 == 1 || r5;
    lemma_split_halves(n, d, m / 32, q + 5, (m / 16) % 2 == 1, r5);
    let r7 = (m / 32) % 2 == 1 || r6;
    lemma_split_halves(n, d, m / 64, q + 6, (m / 32) % 2 == 1, r6);
    lemma_split_halves(n, d, m / 128, q + 7, (m / 64) % 2 == 1, r7);
    let r8 = (m / 64) % 2 == 1 || r7;
    assert(r8 == (half || rest || m % 128 != 0));
}

/// Eight binary places more.
proof fn lemma_split_times_byte(n: int, d: int, m: int, q: int)
    requires
        0 < d,
        -3992 < q,
        split_at(n, d, m, q, false, false),
    ensures
        split_at(n, d, 256 * m, q - 8, false, false),
{
    lemma_split_doubles(n, d, m, q);
    lemma_split_doubles(n, d, 2 * m, q - 1);
    lemma_split_doubles(n, d, 4 * m, q - 2);
    lemma_split_doubles(n, d, 8 * m, q - 3);
    lemma_split_doubles(n, d, 16 * m, q - 4);
    lemma_split_doubles(n, d, 32 * m, q - 5);
    lemma_split_doubles(n, d, 64 * m, q - 6);
    lemma_split_doubles(n, d, 128 * m, q - 7);
}

/// The last step of rounding: from the split at a final exponent to the nearest pattern.
proof fn lemma_round_up_or_down(n: int, d: int, m: int, q: int, half: bool, rest: bool, r: int)
    requires
        0 < d,
        0 <= q,
        0 <= m < 2 * HIDDEN,
        q == 0 || m >= HIDDEN,
        split_at(n, d, m, q, half, rest),
        half_is_exact(n, d, m, q, half, rest),
        r == q * HIDDEN + m + (if half && (rest || m % 2 == 1) { 1int } else { 0int }),
    ensures
        rounds_to(n, d, if r < INFINITY { r } else { INFINITY as int }),
{
    let h = HIDDEN as int;
    let p = pow2(q as nat) as int;
    let big = pow2(4000) as int;
    lemma_pow2_pos(q as nat);
    lemma_pow2_pos(4000);
    lemma_pow2_adds(q as nat, 4000);
    let t = pow2((q + 4000) as nat) * d;
    let u = p * d;
    assert(t == u * big) by (nonlinear_arith)
        requires
            t == (p * big) * d,
            u == p * d,
    ;
    assert(u > 0) by (nonlinear_arith)
        requires
            p > 0,
            d > 0,
            u == p * d,
    ;
    assert(m * t == (m * u) * big) by (nonlinear_arith)
        requires
            t == u * big,
    ;
    assert((m + 1) * t == ((m + 1) * u) * big) by (nonlinear_arith)
        requires
            t == u * big,
    ;
    assert((2 * m + 1) * t == ((2 * m + 1) * u) * big) by (nonlinear_arith)
        requires
            t == u * big,
    ;
    assert(2 * (n * big) == (2 * n) * big) by (nonlinear_arith);
    lemma_cancel(n, m * u, big);
    lemma_cancel(n, (m + 1) * u, big);
    lemma_cancel(2 * n, (2 * m + 1) * u, big);
    let base = q * h + m;
    lemma_ulps_form(q, m);
    lemma_ulps_form(q, m + 1);
    assert(base >= 0) by (nonlinear_arith)
        requires
            base == q * h + m,
            q >= 0,
            h > 0,
            m >= 0,
    ;
    assert(ulps(base) * d == m * u) by (nonlinear_arith)
        requires
            ulps(base) == m * p,
            u == p * d,
    ;
    assert(ulps(base + 1) * d == (m + 1) * u) by (nonlinear_arith)
        requires
            ulps(base + 1) == (m + 1) * p,
            u == p * d,
    ;
    assert((ulps(base) + ulps(base + 1)) * d == ulps(base) * d + ulps(base + 1) * d)
        by (nonlinear_arith);
    assert((2 * m + 1) * u == m * u + (m + 1) * u) by (nonlinear_arith);
    assert(base % 2 == m % 2) by (nonlinear_arith)
        requires
            base == q * h + m,
            h == 4503599627370496,
    ;
    if r == base {
        if base > 0 {
            lemma_ulps_step(base - 1);
            lemma_cancel(ulps(base - 1) + ulps(base), ulps(base) + ulps(base), d);
            assert((ulps(base) + ulps(base)) * d == 2 * (ulps(base) * d)) by (nonlinear_arith);
        }
        lemma_at_infinity(n, d, base);
    } else {
        lemma_ulps_step(base + 1);
        lemma_cancel(ulps(base + 1) + ulps(base + 1), ulps(base + 1) + ulps(base + 2), d);
        assert((ulps(base + 1) + ulps(base + 1)) * d == 2 * (ulps(base + 1) * d))
            by (nonlinear_arith);
        if base >= INFINITY {
            lemma_at_infinity(n, d, base);
        }
    }
}

/// What is as large as a pattern from infinity on rounds to infinity.
proof fn lemma_at_infinity(n: int, d: int, base: int)
    requires
        0 < d,
        base >= 0,
        ulps(base) * d <= n,
    ensures
        base >= INFINITY ==> rounds_to(n, d, INFINITY as int),
{
    if base >= INFINITY {
        let i = INFINITY as int;
        if base > i {
            lemma_ulps_monotone(i, base);
        }
        lemma_ulps_step(i - 1);
        assert((ulps(i - 1) + ulps(i)) * d < 2 * n) by (nonlinear_arith)
            requires
                ulps(i - 1) < ulps(i),
                ulps(i) <= ulps(base),
                ulps(base) * d <= n,
                d > 0,
        ;
    }
}

/// Rounds `n / d`, of which `sig` units of two to the power `exp` are the whole part.
fn round_parts(sig: u128, exp: i32, rest: bool, Ghost(n): Ghost<int>, Ghost(d): Ghost<int>) -> (r:
    u64)
    requires
        0 < d,
        -4000 <= exp <= 4000,
        split_at(n, d, sig as int, exp as int, false, rest),
        rest ==> sig >= 0x2000_0000_0000_0000,
    ensures
        rounds_to(n, d, r as int),
{
    let mut m: u128 = sig;
    let mut q: i32 = exp;
    let mut half: bool = false;
    let mut more: bool = rest;
    while m < 0x1000_0000_0000 && q >= 8
        invariant
            0 < d,
            -4000 <= q <= 4000,
            !half,
            more == rest,
            rest ==> m >= 0x2000_0000_0000_0000,
            split_at(n, d, m as int, q as int, half, more),
        decreases q,
    {
        proof {
            lemma_split_times_byte(n, d, m as int, q as int);
        }
        m = m * 256;
        q = q - 8;
    }
    while m < 0x10_0000_0000_0000 && q > 0
        invariant
            0 < d,
            -4000 <= q <= 4000,
            !half,
            more == rest,
            rest ==> m >= 0x2000_0000_0000_0000,
            split_at(n, d, m as int, q as int, half, more),
        decreases q,
    {
        proof {
            lemma_split_doubles(n, d, m as int, q as int);
        }
        m = m * 2;
        q = q - 1;
    }
    let ghost mut bits: int = 128;
    proof {
        vstd::arithmetic::power2::lemma2_to64();
        vstd::arithmetic::power2::lemma2_to64_rest();
        lemma_pow2_adds(64, 64);
        assert(!more ==> half_is_exact(n, d, m as int, q as int, half, more)) by {
            let t = pow2((q + 4000) as nat) * d;
            lemma_pow2_pos((q + 4000) as nat);
            assert(t > 0) by (nonlinear_arith)
                requires
                    t == pow2((q + 4000) as nat) * d,
                    pow2((q + 4000) as nat) > 0,
                    d > 0,
            ;
            assert((2 * m + 1) * t == 2 * (m * t) + t) by (nonlinear_arith);
        }
    }
    while m >= 0x2000_0000_0000_0000
        invariant
            0 < d,
            -4000 <= q,
            0 <= bits <= 128,
            q <= 0 || q <= 4128 - bits,
            m < pow2(bits as nat),
            q >= 0 ==> m >= 0x10_0000_0000_0000 || q == 0,
            split_at(n, d, m as int, q as int, half, more),
            (m < 0x2000_0000_0000_0000 || !more) ==> half_is_exact(n, d, m as int, q as int, half, more),
        decreases m,
    {
        proof {
            lemma_split_byte(n, d, m as int, q as int, half, more);
            vstd::arithmetic::power2::lemma2_to64();
            vstd::arithmetic::power2::lemma2_to64_rest();
            if bits < 61 {
                lemma_pow2_strictly_increases(bits as nat, 61);
            }
            lemma_pow2_adds(8, (bits - 8) as nat);
            bits = bits - 8;
        }
        more = more || half || m % 128 != 0;
        half = (m / 128) % 2 == 1;
        m = m / 256;
        q = q + 8;
    }
    while m >= 0x20_0000_0000_0000 || q < 0
        invariant
            0 < d,
            -4000 <= q,
            0 <= bits <= 128,
            q <= 0 || q <= 4128 - bits,
            m < pow2(bits as nat),
            q >= 0 ==> m >= 0x10_0000_0000_0000 || q == 0,
            split_at(n, d, m as int, q as int, half, more),
            (m < 0x2000_0000_0000_0000 || !more) ==> half_is_exact(n, d, m as int, q as int, half, more),
        decreases m, 4000 - q,
    {
        proof {
            lemma_split_halves(n, d, m as int, q as int, half, more);
            if m > 0 {
                vstd::arithmetic::power2::lemma2_to64();
                vstd::arithmetic::power2::lemma2_to64_rest();
                lemma_pow2_unfold(bits as nat);
                bits = bits - 1;
            }
        }
        more = more || half;
        half = m % 2 == 1;
        m = m / 2;
        q = q + 1;
    }
    let up: u128 = if half && (more || m % 2 == 1) { 1 } else { 0 };
    proof {
        lemma_round_up_or_down(
            n, d, m as int, q as int, half, more, q * HIDDEN + m + up);
    }
    if q >= 2046 {
        proof {
            assert(q * 0x10_0000_0000_0000 + m >= 0x7ff0_0000_0000_0000);
        }
        INFINITY
    } else {
        let r: u64 = (q as u64) * 0x10_0000_0000_0000 + (m as u64) + (up as u64);
        if r < INFINITY { r } else { INFINITY }
    }
}

proof fn lemma_root_order(n: int, a: int, b: int)
    requires
        a <= b,
        root_rounds_to(n, a),
        root_rounds_to(n, b),
    ensures
        a == b,
{
    if a == b {
        return;
    }
    lemma_ulps_step(a);
    lemma_ulps_step(b - 1);
    lemma_ulps_step(b);
    lemma_ulps_step(a + 1);
    let high = ulps(a) + ulps(a + 1);
    let low = ulps(b - 1) + ulps(b);
    lemma_square_order(high, low);
    if a + 1 < b {
        lemma_ulps_monotone(a, b - 1);
        lemma_ulps_monotone(a + 1, b);
    } else {
        assert(a % 2 == 0 && b % 2 == 0);
    }
}

proof fn lemma_round_root(n: int, m: int)
    requires
        root_rounds_to(n, m),
    ensures
        round_root(n) == m,
{
    let r = round_root(n);
    if m <= r {
        lemma_root_order(n, m, r);
    } else {
        lemma_root_order(n, r, m);
    }
}

/// From the pattern `k` on, where the exponent is `j` or more, sizes are multiples of two to
/// the power `j`.
proof fn lemma_ulps_multiple(k: int, j: int)
    requires
        0 <= j,
        k >= (j + 1) * HIDDEN,
    ensures
        ulps(k) == (ulps(k) / (pow2(j as nat) as int)) * pow2(j as nat),
{
    let h = HIDDEN as int;
    let e = k / h - 1;
    assert(e >= j && k >= h) by (nonlinear_arith)
        requires
            k >= (j + 1) * h,
            e == k / h - 1,
            h == 4503599627370496,
            j >= 0,
    ;
    let c = h + k % h;
    let p = pow2(j as nat) as int;
    lemma_pow2_adds(j as nat, (e - j) as nat);
    lemma_pow2_pos(j as nat);
    let rest = c * pow2((e - j) as nat);
    assert(ulps(k) == rest * p) by (nonlinear_arith)
        requires
            ulps(k) == c * pow2(e as nat),
            pow2(e as nat) == p * pow2((e - j) as nat),
            rest == c * pow2((e - j) as nat),
    ;
    assert((rest * p) / p == rest) by (nonlinear_arith)
        requires
            p > 0,
    ;
}

/// Rounding `2 * s * 2^j`, or that and a bit, half of it, rounds the root of a number whose
/// root lies there.
proof fn lemma_root_from_whole(n: int, s: int, j: int, rest: bool, m: int)
    requires
        0 <= j <= 2000,
        s >= 0x2000_0000_0000_0000,
        rounds_to((2 * s + if rest { 1int } else { 0int }) * pow2(j as nat), 2, m),
        ({
            let p = pow2(j as nat) as int;
            &&& (s * p) * (s * p) <= n < ((s + 1) * p) * ((s + 1) * p)
            &&& rest == ((s * p) * (s * p) != n)
        }),
    ensures
        root_rounds_to(n, m),
{
    let p = pow2(j as nat) as int;
    let v = (2 * s + if rest { 1int } else { 0int }) * p;
    lemma_pow2_pos(j as nat);
    let x = 2 * (s * p);
    let y = 2 * ((s + 1) * p);
    assert(x * x == 4 * ((s * p) * (s * p))) by (nonlinear_arith)
        requires
            x == 2 * (s * p),
    ;
    assert(y * y == 4 * (((s + 1) * p) * ((s + 1) * p))) by (nonlinear_arith)
        requires
            y == 2 * ((s + 1) * p),
    ;
    assert(y == x + 2 * p && v == x + (if rest { p } else { 0 })) by (nonlinear_arith)
        requires
            x == 2 * (s * p),
            y == 2 * ((s + 1) * p),
            v == (2 * s + if rest { 1int } else { 0int }) * p,
    ;
    assert(x >= 0) by (nonlinear_arith)
        requires
            x == 2 * (s * p),
            s >= 0,
            p > 0,
    ;
    lemma_ulps_step(m);
    if m > 0 {
        lemma_ulps_step(m - 1);
    }
    let low = ulps(m - 1) + ulps(m);
    let high = ulps(m) + ulps(m + 1);
    let q = pow2((j + 1) as nat) as int;
    lemma_pow2_unfold((j + 1) as nat);
    let edge = (j + 3) * HIDDEN;
    if m < edge {
        if m + 1 < edge {
            lemma_ulps_monotone(m + 1, edge);
        }
        lemma_ulps_form(j + 2, HIDDEN as int);
        lemma_pow2_unfold((j + 2) as nat);
        assert((j + 3) * HIDDEN == (j + 2) * HIDDEN + HIDDEN) by (nonlinear_arith);
        assert(high * 2 < 2 * v) by (nonlinear_arith)
            requires
                high <= 2 * (4503599627370496 * (4 * p)),
                v >= 2 * (s * p),
                s >= 0x2000_0000_0000_0000,
                p > 0,
        ;
    }
    assert(m - 1 >= (j + 2) * HIDDEN) by (nonlinear_arith)
        requires
            m >= (j + 3) * HIDDEN,
            HIDDEN == 4503599627370496,
    ;
    lemma_ulps_multiple(m - 1, j + 1);
    lemma_ulps_multiple(m, j + 1);
    lemma_ulps_multiple(m + 1, j + 1);
    let a = ulps(m - 1) / q + ulps(m) / q;
    let b = ulps(m) / q + ulps(m + 1) / q;
    assert(low == a * q) by (nonlinear_arith)
        requires
            low == (ulps(m - 1) / q) * q + (ulps(m) / q) * q,
            a == ulps(m - 1) / q + ulps(m) / q,
    ;
    assert(high == b * q) by (nonlinear_arith)
        requires
            high == (ulps(m) / q) * q + (ulps(m + 1) / q) * q,
            b == ulps(m) / q + ulps(m + 1) / q,
    ;
    assert(x == s * q) by (nonlinear_arith)
        requires
            x == 2 * (s * p),
            q == 2 * p,
    ;
    assert(y == (s + 1) * q) by (nonlinear_arith)
        requires
            y == 2 * ((s + 1) * p),
            q == 2 * p,
    ;
    lemma_cancel(a, s, q);
    lemma_cancel(a, s + 1, q);
    lemma_cancel(b, s, q);
    lemma_cancel(b, s + 1, q);
    lemma_square_order(low, x);
    lemma_square_order(high, x);
    lemma_square_order(high, y);
    lemma_square_order(low, y);
}

/// A number from its sign and its magnitude pattern.
pub open spec fn signed(negative: bool, m: int) -> Double {
    Double { bits: (if negative { SIGN + m } else { m }) as u64 }
}

/// The result of an operation that has no number for a result.
pub open spec fn not_a_number() -> Double {
    Double { bits: 0x7ff8_0000_0000_0000 }
}

proof fn lemma_zero_rounds_to_zero(d: int)
    requires
        0 < d,
    ensures
        rounds_to(0, d, 0),
{
    lemma_ulps_step(0);
    assert((ulps(0) + ulps(1)) * d > 0) by (nonlinear_arith)
        requires
            ulps(0) >= 0,
            ulps(1) > 0,
            d > 0,
    ;
}

proof fn lemma_round_ratio(n: int, d: int, m: int)
    requires
        0 < d,
        rounds_to(n, d, m),
    ensures
        round_ratio(n, d) == m,
{
    lemma_rounding_is_unique(n, d, m, round_ratio(n, d));
}

proof fn lemma_divisor(x: Double)
    requires
        x.magnitude() > 0,
    ensures
        ulps(x.magnitude()) > 0,
{
    lemma_ulps_monotone(0, x.magnitude());
}

impl Double {
    /// The sign bit is set.
    pub open spec fn negative(self) -> bool {
        self.bits >= SIGN
    }

    /// The pattern without its sign bit.
    pub open spec fn magnitude(self) -> int {
        (self.bits % SIGN) as int
    }

    pub open spec fn spec_is_nan(self) -> bool {
        self.magnitude() > INFINITY
    }

    pub open spec fn infinite(self) -> bool {
        self.magnitude() == INFINITY
    }

    /// The number in units of two to the power -1074.
    pub open spec fn value(self) -> int {
        if self.negative() {
            -ulps(self.magnitude())
        } else {
            ulps(self.magnitude())
        }
    }

    /// The place of the pattern on the number line: the order of keys is the order of numbers.
    pub open spec fn key(self) -> int {
        if self.negative() {
            -self.magnitude()
        } else {
            self.magnitude()
        }
    }

    #[verifier::when_used_as_spec(spec_is_nan)]
    pub fn is_nan(self) -> (r: bool)
        ensures
            r == self.spec_is_nan(),
    {
        self.bits % SIGN > INFINITY
    }

    fn rank(self) -> (r: i64)
        ensures
            r == self.key(),
    {
        let m: i64 = (self.bits % SIGN) as i64;
        if self.bits >= SIGN {
            -m
        } else {
            m
        }
    }

    pub open spec fn spec_lt(self, other: Double) -> bool {
        !self.spec_is_nan() && !other.spec_is_nan() && self.key() < other.key()
    }

    pub open spec fn spec_le(self, other: Double) -> bool {
        !self.spec_is_nan() && !other.spec_is_nan() && self.key() <= other.key()
    }

    pub open spec fn spec_gt(self, other: Double) -> bool {
        other.spec_lt(self)
    }

    pub open spec fn spec_ge(self, other: Double) -> bool {
        other.spec_le(self)
    }

    pub open spec fn spec_same(self, other: Double) -> bool {
        !self.spec_is_nan() && !other.spec_is_nan() && self.key() == other.key()
    }

    /// Less than; false where either side is not a number.
    #[verifier::when_used_as_spec(spec_lt)]
    pub fn lt(self, other: Double) -> (r: bool)
        ensures
            r == self.spec_lt(other),
    {
        !self.is_nan() && !other.is_nan() && self.rank() < other.rank()
    }

    /// At most; false where either side is not a number.
    #[verifier::when_used_as_spec(spec_le)]
    pub fn le(self, other: Double) -> (r: bool)
        ensures
            r == self.spec_le(other),
    {
        !self.is_nan() && !other.is_nan() && self.rank() <= other.rank()
    }

    /// Greater than; false where either side is not a number.
    #[verifier::when_used_as_spec(spec_gt)]
    pub fn gt(self, other: Double) -> (r: bool)
        ensures
            r == self.spec_gt(other),
    {
        other.lt(self)
    }

    /// At least; false where either side is not a number.
    #[verifier::when_used_as_spec(spec_ge)]
    pub fn ge(self, other: Double) -> (r: bool)
        ensures
            r == self.spec_ge(other),
    {
        other.le(self)
    }

    /// Equal as numbers: the two zeros are the same, and no NaN is the same as anything.
    #[verifier::when_used_as_spec(spec_same)]
    pub fn same(self, other: Double) -> (r: bool)
        ensures
            r == self.spec_same(other),
    {
        !self.is_nan() && !other.is_nan() && self.rank() == other.rank()
    }

    pub open spec fn spec_negated(self) -> Double {
        signed(!self.negative(), self.magnitude())
    }

    pub open spec fn spec_abs(self) -> Double {
        signed(false, self.magnitude())
    }

    /// The number with its sign bit flipped.
    #[verifier::when_used_as_spec(spec_negated)]
    pub fn negated(self) -> (r: Double)
        ensures
            r == self.spec_negated(),
    {
        if self.bits >= SIGN {
            Double { bits: self.bits - SIGN }
        } else {
            Double { bits: self.bits + SIGN }
        }
    }

    /// The number with its sign bit cleared.
    #[verifier::when_used_as_spec(spec_abs)]
    pub fn abs(self) -> (r: Double)
        ensures
            r == self.spec_abs(),
    {
        Double { bits: self.bits % SIGN }
    }

    #[verifier::opaque]
    pub open spec fn spec_plus(self, other: Double) -> Double {
        if self.spec_is_nan() || other.spec_is_nan() {
            not_a_number()
        } else if self.infinite() {
            if other.infinite() && self.negative() != other.negative() {
                not_a_number()
            } else {
                self
            }
        } else if other.infinite() {
            other
        } else {
            let sum = self.value() + other.value();
            if sum == 0 {
                signed(self.negative() && other.negative(), 0)
            } else if sum < 0 {
                signed(true, round_ratio(-sum, 1))
            } else {
                signed(false, round_ratio(sum, 1))
            }
        }
    }

    pub open spec fn spec_minus(self, other: Double) -> Double {
        self.spec_plus(other.spec_negated())
    }

    #[verifier::opaque]
    pub open spec fn spec_times(self, other: Double) -> Double {
        let negative = self.negative() != other.negative();
        if self.spec_is_nan() || other.spec_is_nan() {
            not_a_number()
        } else if self.infinite() || other.infinite() {
            if self.magnitude() == 0 || other.magnitude() == 0 {
                not_a_number()
            } else {
                signed(negative, INFINITY as int)
            }
        } else {
            signed(
                negative,
                round_ratio(
                    ulps(self.magnitude()) * ulps(other.magnitude()),
                    pow2(1074) as int,
                ),
            )
        }
    }

    #[verifier::opaque]
    pub open spec fn spec_over(self, other: Double) -> Double {
        let negative = self.negative() != other.negative();
        if self.spec_is_nan() || other.spec_is_nan() {
            not_a_number()
        } else if self.infinite() {
            if other.infinite() {
                not_a_number()
            } else {
                signed(negative, INFINITY as int)
            }
        } else if other.infinite() {
            signed(negative, 0)
        } else if other.magnitude() == 0 {
            if self.magnitude() == 0 {
                not_a_number()
            } else {
                signed(negative, INFINITY as int)
            }
        } else {
            signed(
                negative,
                round_ratio(ulps(self.magnitude()) * pow2(1074), ulps(other.magnitude())),
            )
        }
    }

    #[verifier::opaque]
    pub open spec fn spec_sqrt(self) -> Double {
        if self.spec_is_nan() || (self.negative() && self.magnitude() > 0) {
            not_a_number()
        } else if self.infinite() || self.magnitude() == 0 {
            self
        } else {
            signed(false, round_root(ulps(self.magnitude()) * pow2(1074)))
        }
    }

    /// The significand and the exponent of a finite number.
    fn parts(self) -> (r: (u64, u32))
        requires
            self.magnitude() < INFINITY,
        ensures
            r.0 < 2 * HIDDEN,
            r.1 <= 2045,
            r.1 > 0 ==> r.0 >= HIDDEN,
            ulps(self.magnitude()) == r.0 * pow2(r.1 as nat),
            r.0 == 0 <==> self.magnitude() == 0,
            self.magnitude() < HIDDEN ==> r.1 == 0,
            self.magnitude() >= HIDDEN ==> r.1 == self.magnitude() / (HIDDEN as int) - 1,
    {
        let m: u64 = self.bits % SIGN;
        proof {
            vstd::arithmetic::power2::lemma2_to64();
            vstd::arithmetic::power2::lemma2_to64_rest();
        }
        if m < HIDDEN {
            assert(m * pow2(0) == m);
            (m, 0)
        } else {
            (HIDDEN + m % HIDDEN, (m / HIDDEN - 1) as u32)
        }
    }

    /// The significand and the exponent of a finite number that is not zero, with the
    /// significand made as large as it can be.
    fn normal_parts(self) -> (r: (u64, i32))
        requires
            0 < self.magnitude() < INFINITY,
        ensures
            HIDDEN <= r.0 < 2 * HIDDEN,
            -60 <= r.1 <= 2045,
            ulps(self.magnitude()) * pow2(100) == r.0 * pow2((r.1 + 100) as nat),
    {
        let (ma, ea) = self.parts();
        let mut m: u64 = ma;
        let mut e: i32 = ea as i32;
        let ghost mut bits: int = 0;
        proof {
            lemma_pow2_adds(ea as nat, 100);
            assert((ma * pow2(ea as nat)) * pow2(100) == ma * (pow2(ea as nat) * pow2(100)))
                by (nonlinear_arith);
            vstd::arithmetic::power2::lemma2_to64();
            vstd::arithmetic::power2::lemma2_to64_rest();
        }
        while m < HIDDEN
            invariant
                0 < m < 2 * HIDDEN,
                e <= 2045,
                0 <= bits <= 52,
                m >= pow2(bits as nat),
                e >= -bits,
                ulps(self.magnitude()) * pow2(100) == m * pow2((e + 100) as nat),
            decreases 2 * HIDDEN - m,
        {
            proof {
                lemma_pow2_unfold((e + 100) as nat);
                lemma_pow2_unfold((bits + 1) as nat);
                assert((2 * m) * pow2((e + 99) as nat) == m * (2 * pow2((e + 99) as nat)))
                    by (nonlinear_arith);
                vstd::arithmetic::power2::lemma2_to64();
                vstd::arithmetic::power2::lemma2_to64_rest();
                bits = bits + 1;
                if bits > 52 {
                    lemma_pow2_strictly_increases(52, bits as nat);
                }
            }
            m = m * 2;
            e = e - 1;
        }
        (m, e)
    }

    fn build(negative: bool, m: u64) -> (r: Double)
        requires
            m <= INFINITY,
        ensures
            r == signed(negative, m as int),
    {
        if negative {
            Double { bits: SIGN + m }
        } else {
            Double { bits: m }
        }
    }

    /// The product, rounded.
    #[verifier::when_used_as_spec(spec_times)]
    pub fn times(self, other: Double) -> (r: Double)
        ensures
            r == self.spec_times(other),
    {
        proof {
            reveal(Double::spec_times);
        }
        let negative: bool = (self.bits >= SIGN) != (other.bits >= SIGN);
        if self.is_nan() || other.is_nan() {
            return Double { bits: 0x7ff8_0000_0000_0000 };
        }
        if self.bits % SIGN == INFINITY || other.bits % SIGN == INFINITY {
            if self.bits % SIGN == 0 || other.bits % SIGN == 0 {
                return Double { bits: 0x7ff8_0000_0000_0000 };
            }
            return Double::build(negative, INFINITY);
        }
        let (ma, ea) = self.parts();
        let (mb, eb) = other.parts();
        let exp: i32 = ea as i32 + eb as i32 - 1074;
        assert(ma * mb <= 0x400_0000_0000_0000_0000_0000_0000) by (nonlinear_arith)
            requires
                ma < 0x20_0000_0000_0000,
                mb < 0x20_0000_0000_0000,
        ;
        let sig: u128 = (ma as u128) * (mb as u128);
        let ghost n = ulps(self.magnitude()) * ulps(other.magnitude());
        let ghost d = pow2(1074) as int;
        proof {
            lemma_pow2_pos(1074);
            lemma_pow2_adds(ea as nat, eb as nat);
            lemma_pow2_adds((exp + 4000) as nat, 1074);
            lemma_pow2_adds((ea + eb) as nat, 4000);
            lemma_pow2_pos((exp + 4000) as nat);
            let pa = pow2(ea as nat) as int;
            let pb = pow2(eb as nat) as int;
            let big = pow2(4000) as int;
            let t = pow2((exp + 4000) as nat) * d;
            assert(t == (pa * pb) * big);
            assert(n * big == sig * t) by (nonlinear_arith)
                requires
                    n == (ma * pa) * (mb * pb),
                    sig == ma * mb,
                    t == (pa * pb) * big,
            ;
            assert(t > 0) by (nonlinear_arith)
                requires
                    t == pow2((exp + 4000) as nat) * d,
                    pow2((exp + 4000) as nat) > 0,
                    d > 0,
            ;
            assert((sig + 1) * t == sig * t + t) by (nonlinear_arith);
        }
        let m: u64 = round_parts(sig, exp, false, Ghost(n), Ghost(d));
        proof {
            lemma_round_ratio(n, d, m as int);
        }
        Double::build(negative, m)
    }

    /// The quotient, rounded.
    #[verifier::when_used_as_spec(spec_over)]
    pub fn over(self, other: Double) -> (r: Double)
        ensures
            r == self.spec_over(other),
    {
        proof {
            reveal(Double::spec_over);
        }
        let negative: bool = (self.bits >= SIGN) != (other.bits >= SIGN);
        if self.is_nan() || other.is_nan() {
            return Double { bits: 0x7ff8_0000_0000_0000 };
        }
        if self.bits % SIGN == INFINITY {
            if other.bits % SIGN == INFINITY {
                return Double { bits: 0x7ff8_0000_0000_0000 };
            }
            return Double::build(negative, INFINITY);
        }
        if other.bits % SIGN == INFINITY {
            return Double::build(negative, 0);
        }
        if other.bits % SIGN == 0 {
            if self.bits % SIGN == 0 {
                return Double { bits: 0x7ff8_0000_0000_0000 };
            }
            return Double::build(negative, INFINITY);
        }
        if self.bits % SIGN == 0 {
            proof {
                lemma_pow2_pos(1074);
                lemma_divisor(other);
                assert(ulps(0) * pow2(1074) == 0) by (nonlinear_arith)
                    requires
                        ulps(0) == 0,
                ;
                lemma_zero_rounds_to_zero(ulps(other.magnitude()));
                lemma_round_ratio(0, ulps(other.magnitude()), 0);
            }
            return Double::build(negative, 0);
        }
        let (ma, ea) = self.normal_parts();
        let (mb, eb) = other.parts();
        let exp: i32 = ea - eb as i32 + 999;
        let scale: u128 = power(75);
        let ghost n = ulps(self.magnitude()) * pow2(1074);
        let ghost d = ulps(other.magnitude());
        proof {
            vstd::arithmetic::power2::lemma2_to64();
            vstd::arithmetic::power2::lemma2_to64_rest();
            lemma_pow2_adds(11, 64);
            lemma_divisor(other);
            assert(ma * scale < 0x20_0000_0000_0000 * scale) by (nonlinear_arith)
                requires
                    ma < 0x20_0000_0000_0000,
                    scale > 0,
            ;
        }
        let top: u128 = (ma as u128) * scale;
        let sig: u128 = top / (mb as u128);
        let left: u128 = top % (mb as u128);
        proof {
            let pb = pow2(eb as nat) as int;
            let t = pow2((exp + 4000) as nat) * d;
            let u = pow2((ea + 4999) as nat) as int;
            lemma_pow2_adds((exp + 4000) as nat, eb as nat);
            lemma_pow2_adds((ea + 100) as nat, 4899);
            lemma_pow2_adds(1074, 4000);
            lemma_pow2_adds(75, 4999);
            lemma_pow2_adds(100, 4899);
            lemma_pow2_pos((ea + 4999) as nat);
            lemma_pow2_pos(100);
            let k = pow2(100) as int;
            let pa = pow2((ea + 100) as nat) as int;
            assert(t == mb * u) by (nonlinear_arith)
                requires
                    t == pow2((exp + 4000) as nat) * (mb * pb),
                    u == pow2((exp + 4000) as nat) * pb,
            ;
            let size = ulps(self.magnitude());
            let p0 = pow2(1074) as int;
            let p1 = pow2(4000) as int;
            let p2 = pow2(4899) as int;
            assert(((size * p0) * p1) * k == (size * k) * (p0 * p1)) by (nonlinear_arith);
            assert((ma * pa) * (scale * (k * p2)) == ((ma * scale) * (pa * p2)) * k)
                by (nonlinear_arith);
            lemma_cancel(n * pow2(4000), top * u, k);
            assert(top == sig * mb + left && 0 <= left < mb) by (nonlinear_arith)
                requires
                    sig == top / (mb as u128),
                    left == top % (mb as u128),
                    mb > 0,
            ;
            assert(top * u == sig * t + left * u) by (nonlinear_arith)
                requires
                    top == sig * mb + left,
                    t == mb * u,
            ;
            assert((sig + 1) * t == sig * t + t) by (nonlinear_arith);
            lemma_cancel(left as int, mb as int, u);
            lemma_cancel(0, left as int, u);
            assert(sig >= 0x2000_0000_0000_0000) by (nonlinear_arith)
                requires
                    sig == top / (mb as u128),
                    top == ma * scale,
                    ma >= 0x10_0000_0000_0000,
                    scale == 0x800 * 0x1_0000_0000_0000_0000,
                    0 < mb < 0x20_0000_0000_0000,
            ;
        }
        let m: u64 = round_parts(sig, exp, left > 0, Ghost(n), Ghost(d));
        proof {
            lemma_round_ratio(n, d, m as int);
        }
        Double::build(negative, m)
    }

    /// The magnitude pattern of the sum of two finite numbers, the first of which has the
    /// larger exponent, and whether the sum is below zero.
    fn sum_of(self, other: Double) -> (r: (bool, u64))
        requires
            self.magnitude() < INFINITY,
            other.magnitude() < INFINITY,
            self.magnitude() / (HIDDEN as int) >= other.magnitude() / (HIDDEN as int),
        ensures
            r.1 <= INFINITY,
            r.0 == (self.value() + other.value() < 0),
            r.0 ==> rounds_to(-(self.value() + other.value()), 1, r.1 as int),
            !r.0 ==> rounds_to(self.value() + other.value(), 1, r.1 as int),
    {
        let (ma, ea) = self.parts();
        let (mb, eb) = other.parts();
        assert(ea >= eb);
        let na: bool = self.bits >= SIGN;
        let nb: bool = other.bits >= SIGN;
        let ghost sum = self.value() + other.value();
        let ghost n = if sum < 0 { -sum } else { sum };
        let ghost pa = pow2(ea as nat) as int;
        let ghost pb = pow2(eb as nat) as int;
        proof {
            lemma_pow2_pos(ea as nat);
            lemma_pow2_pos(eb as nat);
        }
        if ea - eb <= 64 {
            let scale: u128 = power(ea - eb);
            proof {
                vstd::arithmetic::power2::lemma2_to64();
                vstd::arithmetic::power2::lemma2_to64_rest();
                lemma_pow2_adds((ea - eb) as nat, eb as nat);
                if ea - eb < 64 {
                    lemma_pow2_strictly_increases((ea - eb) as nat, 64);
                }
                assert(ma * scale <= 0x20_0000_0000_0000 * 0x1_0000_0000_0000_0000) by (nonlinear_arith)
                    requires
                        ma < 0x20_0000_0000_0000,
                        scale <= 0x1_0000_0000_0000_0000,
                ;
                assert(ma * pa == (ma * scale) * pb) by (nonlinear_arith)
                    requires
                        pa == scale * pb,
                ;
            }
            let a: i128 = (ma as i128) * (scale as i128);
            let b: i128 = mb as i128;
            let s: i128 = (if na { -a } else { a }) + (if nb { -b } else { b });
            assert(sum == s * pb) by {
                assert((-a) * pb == -(a * pb)) by (nonlinear_arith);
                assert((-b) * pb == -(b * pb)) by (nonlinear_arith);
                let x = if na { -a } else { a as int };
                let y = if nb { -b } else { b as int };
                assert((x + y) * pb == x * pb + y * pb) by (nonlinear_arith);
            }
            let negative: bool = s < 0;
            let sig: u128 = (if s < 0 { -s } else { s }) as u128;
            proof {
                lemma_cancel(0, s as int, pb);
                lemma_cancel(s as int, 0, pb);
                assert((-s) * pb == -(s * pb)) by (nonlinear_arith);
                lemma_pow2_adds(eb as nat, 4000);
                let t = pow2((eb + 4000) as nat) as int;
                lemma_pow2_pos((eb + 4000) as nat);
                assert(n * pow2(4000) == sig * t) by (nonlinear_arith)
                    requires
                        n == sig * pb,
                        t == pb * pow2(4000),
                ;
                assert(t * 1 == t);
                assert((sig + 1) * t == sig * t + t) by (nonlinear_arith);
            }
            let m: u64 = round_parts(sig, eb as i32, false, Ghost(n), Ghost(1));
            (negative, m)
        } else {
            let scale: u128 = power(11);
            let exp: i32 = ea as i32 - 11;
            proof {
                vstd::arithmetic::power2::lemma2_to64();
                vstd::arithmetic::power2::lemma2_to64_rest();
                assert(0x10_0000_0000_0000 * scale <= ma * scale < 0x20_0000_0000_0000 * scale) by (nonlinear_arith)
                    requires
                        0x10_0000_0000_0000 <= ma < 0x20_0000_0000_0000,
                        scale > 0,
                ;
            }
            let a: u128 = (ma as u128) * scale;
            let rest: bool = mb > 0;
            let sig: u128 = if rest && na != nb { a - 1 } else { a };
            proof {
                let t = pow2((exp + 4000) as nat) as int;
                let big = pow2(4000) as int;
                let x = (ma * pa) * big;
                let y = (mb * pb) * big;
                lemma_pow2_pos(4000);
                lemma_pow2_pos((exp + 4000) as nat);
                lemma_pow2_adds((exp + 4000) as nat, 11);
                lemma_pow2_adds(ea as nat, 4000);
                assert(x == a * t) by (nonlinear_arith)
                    requires
                        x == (ma * pa) * big,
                        a == ma * scale,
                        pa * big == t * scale,
                ;
                lemma_pow2_adds(53, (eb + 4000) as nat);
                lemma_pow2_adds(eb as nat, 4000);
                lemma_pow2_strictly_increases((eb + 4053) as nat, (exp + 4000) as nat);
                lemma_pow2_pos((eb + 4000) as nat);
                assert(0 <= y < t) by (nonlinear_arith)
                    requires
                        y == (mb * pb) * big,
                        pb * big == pow2((eb + 4000) as nat),
                        pow2((eb + 4000) as nat) > 0,
                        0 <= mb < 0x20_0000_0000_0000,
                        0x20_0000_0000_0000 * pow2((eb + 4000) as nat) == pow2((eb + 4053) as nat),
                        pow2((eb + 4053) as nat) < t,
                ;
                assert(mb == 0 ==> y == 0) by (nonlinear_arith)
                    requires
                        y == (mb * pb) * big,
                ;
                if mb > 0 {
                    assert(y > 0) by (nonlinear_arith)
                        requires
                            y == (mb * pb) * big,
                            mb > 0,
                            pb > 0,
                            big > 0,
                    ;
                }
                assert(a * t >= 2 * t) by (nonlinear_arith)
                    requires
                        a >= 2,
                        t > 0,
                ;
                assert(((ma * pa) - (mb * pb)) * big == x - y) by (nonlinear_arith)
                    requires
                        x == (ma * pa) * big,
                        y == (mb * pb) * big,
                ;
                assert(((ma * pa) + (mb * pb)) * big == x + y) by (nonlinear_arith)
                    requires
                        x == (ma * pa) * big,
                        y == (mb * pb) * big,
                ;
                lemma_cancel(0, ma * pa - mb * pb, big);
                lemma_cancel(0, ma * pa, big);
                lemma_cancel(0, mb * pb, big);
                assert(0 * big == 0);
                assert((a + 1) * t == a * t + t) by (nonlinear_arith);
                assert((a - 1) * t == a * t - t) by (nonlinear_arith);
                assert(t * 1 == t);
                assert(sum != 0);
                assert((sum < 0) == na);
            }
            let m: u64 = round_parts(sig, exp, rest, Ghost(n), Ghost(1));
            (na, m)
        }
    }

    /// The sum, rounded.
    #[verifier::when_used_as_spec(spec_plus)]
    pub fn plus(self, other: Double) -> (r: Double)
        ensures
            r == self.spec_plus(other),
    {
        proof {
            reveal(Double::spec_plus);
        }
        let na: bool = self.bits >= SIGN;
        let nb: bool = other.bits >= SIGN;
        if self.is_nan() || other.is_nan() {
            return Double { bits: 0x7ff8_0000_0000_0000 };
        }
        if self.bits % SIGN == INFINITY {
            if other.bits % SIGN == INFINITY && na != nb {
                return Double { bits: 0x7ff8_0000_0000_0000 };
            }
            return self;
        }
        if other.bits % SIGN == INFINITY {
            return other;
        }
        let (negative, m) = if (self.bits % SIGN) / HIDDEN >= (other.bits % SIGN) / HIDDEN {
            self.sum_of(other)
        } else {
            other.sum_of(self)
        };
        let ghost sum = self.value() + other.value();
        proof {
            if sum < 0 {
                lemma_round_ratio(-sum, 1, m as int);
            } else {
                lemma_round_ratio(sum, 1, m as int);
                if sum == 0 {
                    lemma_zero_rounds_to_zero(1);
                    lemma_rounding_is_unique(0, 1, 0, m as int);
                } else if m == 0 {
                    lemma_ulps_step(0);
                }
            }
        }
        if m == 0 {
            Double::build(na && nb, 0)
        } else {
            Double::build(negative, m)
        }
    }

    /// The difference, rounded.
    #[verifier::when_used_as_spec(spec_minus)]
    pub fn minus(self, other: Double) -> (r: Double)
        ensures
            r == self.spec_minus(other),
    {
        self.plus(other.negated())
    }

    /// The square root, rounded.
    #[verifier::when_used_as_spec(spec_sqrt)]
    pub fn sqrt(self) -> (r: Double)
        ensures
            r == self.spec_sqrt(),
    {
        proof {
            reveal(Double::spec_sqrt);
        }
        if self.is_nan() || (self.bits >= SIGN && self.bits % SIGN > 0) {
            return Double { bits: 0x7ff8_0000_0000_0000 };
        }
        if self.bits % SIGN == INFINITY || self.bits % SIGN == 0 {
            return self;
        }
        let (m, e) = self.normal_parts();
        let odd: bool = e % 2 != 0;
        let big: u128 = if odd { 2 * (m as u128) } else { m as u128 };
        let j: u32 = if odd { (e + 1001) as u32 / 2 } else { (e + 1002) as u32 / 2 };
        let scale: u128 = power(72);
        let ghost n = ulps(self.magnitude()) * pow2(1074);
        proof {
            vstd::arithmetic::power2::lemma2_to64();
            vstd::arithmetic::power2::lemma2_to64_rest();
            lemma_pow2_adds(8, 64);
            assert(0x10_0000_0000_0000 * scale <= big * scale < 0x40_0000_0000_0000 * scale)
                by (nonlinear_arith)
                requires
                    0x10_0000_0000_0000 <= big < 0x40_0000_0000_0000,
                    scale > 0,
            ;
        }
        let a: u128 = big * scale;
        let s: u128 = root(a);
        assert(s * s <= 0x4000_0000_0000_0000_0000_0000_0000_0000) by (nonlinear_arith)
            requires
                0 <= s < 0x8000_0000_0000_0000,
        ;
        let rest: bool = s * s != a;
        let ghost p = pow2(j as nat) as int;
        let ghost v = (2 * s + if rest { 1int } else { 0int }) * p;
        proof {
            assert(s >= 0x2000_0000_0000_0000) by (nonlinear_arith)
                requires
                    a < (s + 1) * (s + 1),
                    a >= 0x10_0000_0000_0000 * scale,
                    scale == 0x100 * 0x1_0000_0000_0000_0000,
                    s >= 0,
            ;
            // the root of `n` is the root of `a` times `p`
            lemma_pow2_adds((e + 100) as nat, 974);
            lemma_pow2_adds(100, 974);
            lemma_pow2_adds(j as nat, j as nat);
            lemma_pow2_adds((2 * j) as nat, 72);
            lemma_pow2_unfold((e + 1074) as nat);
            let size = ulps(self.magnitude());
            let k = pow2(974) as int;
            assert((size * pow2(100)) * k == size * (pow2(100) * k)) by (nonlinear_arith);
            assert((m * pow2((e + 100) as nat)) * k == m * (pow2((e + 100) as nat) * k))
                by (nonlinear_arith);
            assert(n == m * pow2((e + 1074) as nat));
            assert(n == a * (p * p)) by {
                let w = pow2((2 * j + 72) as nat) as int;
                assert(w == (p * p) * scale);
                if odd {
                    assert(2 * j + 72 == e + 1073);
                    assert(n == (2 * m) * w) by (nonlinear_arith)
                        requires
                            n == m * (2 * w),
                    ;
                } else {
                    assert(2 * j + 72 == e + 1074);
                }
                assert(n == big * w);
                assert(big * w == a * (p * p)) by (nonlinear_arith)
                    requires
                        w == (p * p) * scale,
                        a == big * scale,
                ;
            }
            lemma_pow2_pos(j as nat);
            assert((s * p) * (s * p) == (s * s) * (p * p)) by (nonlinear_arith);
            assert(((s + 1) * p) * ((s + 1) * p) == ((s + 1) * (s + 1)) * (p * p))
                by (nonlinear_arith);
            assert(p * p > 0) by (nonlinear_arith)
                requires
                    p > 0,
            ;
            lemma_cancel(s * s, a as int, p * p);
            lemma_cancel(a as int, (s + 1) * (s + 1), p * p);
            // and the value that is rounded splits at `s`
            lemma_pow2_adds(j as nat, 4000);
            lemma_pow2_pos((j + 4000) as nat);
            let t = pow2((j + 4000) as nat) * 2;
            assert(v * pow2(4000) == (2 * s + if rest { 1int } else { 0int }) * pow2(
                (j + 4000) as nat,
            )) by (nonlinear_arith)
                requires
                    v == (2 * s + if rest { 1int } else { 0int }) * p,
                    pow2((j + 4000) as nat) == p * pow2(4000),
            ;
            let w = pow2((j + 4000) as nat) as int;
            assert(s * (w * 2) == (2 * s) * w) by (nonlinear_arith);
            assert((s + 1) * (w * 2) == (2 * s) * w + 2 * w) by (nonlinear_arith);
            assert((2 * s + 1) * w == (2 * s) * w + w) by (nonlinear_arith);
        }
        let r: u64 = round_parts(s, j as i32, rest, Ghost(v), Ghost(2));
        proof {
            lemma_root_from_whole(n, s as int, j as int, rest, r as int);
            lemma_round_root(n, r as int);
        }
        Double::build(false, r)
    }

    pub open spec fn spec_max(self, other: Double) -> Double {
        if self.spec_is_nan() || self.spec_lt(other) {
            other
        } else {
            self
        }
    }

    /// The larger of two numbers; the other one where one is not a number.
    #[verifier::when_used_as_spec(spec_max)]
    pub fn max(self, other: Double) -> (r: Double)
        ensures
            r == self.spec_max(other),
    {
        if self.is_nan() || self.lt(other) {
            other
        } else {
            self
        }
    }

    #[verifier::opaque]
    pub open spec fn spec_from_count(n: u64) -> Double {
        signed(false, round_ratio(n * pow2(1074), 1))
    }

    /// The number nearest to a count.
    #[verifier::when_used_as_spec(spec_from_count)]
    pub fn from_count(n: u64) -> (r: Double)
        ensures
            r == Double::spec_from_count(n),
    {
        proof {
            reveal(Double::spec_from_count);
        }
        Double::build(false, Double::scaled(n, 1074))
    }

    /// The pattern that `n` times two to the power `e` units round to.
    fn scaled(n: u64, e: u32) -> (r: u64)
        requires
            e <= 2000,
        ensures
            r <= INFINITY,
            r == round_ratio(n * pow2(e as nat), 1),
    {
        let ghost v = n * pow2(e as nat);
        proof {
            lemma_pow2_adds(e as nat, 4000);
            let t = pow2((e + 4000) as nat) as int;
            lemma_pow2_pos((e + 4000) as nat);
            assert(v * pow2(4000) == n * t) by (nonlinear_arith)
                requires
                    v == n * pow2(e as nat),
                    t == pow2(e as nat) * pow2(4000),
            ;
            assert(t * 1 == t);
            assert((n + 1) * t == n * t + t) by (nonlinear_arith);
        }
        let m: u64 = round_parts(n as u128, e as i32, false, Ghost(v), Ghost(1));
        proof {
            lemma_round_ratio(v, 1, m as int);
        }
        m
    }

    #[verifier::opaque]
    pub open spec fn spec_from_single(x: Single) -> Double {
        if x.spec_is_nan() {
            not_a_number()
        } else if x.infinite() {
            signed(x.negative(), INFINITY as int)
        } else {
            signed(x.negative(), round_ratio(crate::single::ulps(x.magnitude()) * pow2(925), 1))
        }
    }

    /// A single as a double.
    #[verifier::when_used_as_spec(spec_from_single)]
    pub fn from_single(x: Single) -> (r: Double)
        ensures
            r == Double::spec_from_single(x),
    {
        proof {
            reveal(Double::spec_from_single);
        }
        let negative: bool = x.bits >= crate::single::SIGN;
        if x.is_nan() {
            return Double { bits: 0x7ff8_0000_0000_0000 };
        }
        if x.bits % crate::single::SIGN == crate::single::INFINITY {
            return Double::build(negative, INFINITY);
        }
        let (m, e) = x.parts();
        proof {
            lemma_pow2_adds(e as nat, 925);
            assert((m * pow2(e as nat)) * pow2(925) == m * (pow2(e as nat) * pow2(925)))
                by (nonlinear_arith);
        }
        Double::build(negative, Double::scaled(m as u64, e + 925))
    }

    pub open spec fn spec_narrowed(self) -> Single {
        Single::spec_from_double(self.bits)
    }

    /// The single nearest to the number.
    #[verifier::when_used_as_spec(spec_narrowed)]
    pub fn narrowed(self) -> (r: Single)
        ensures
            r == self.spec_narrowed(),
    {
        Single::from_double(self.bits)
    }
}

/// The first `n` terms that pass a test, added up one after the other from zero.
pub open spec fn sum_where(test: spec_fn(int) -> bool, term: spec_fn(int) -> Double, n: int) -> Double
    decreases n,
{
    if n <= 0 {
        wide(0)
    } else if test(n - 1) {
        sum_where(test, term, n - 1).plus(term(n - 1))
    } else {
        sum_where(test, term, n - 1)
    }
}

/// The first `n` terms, added up one after the other from zero.
pub open spec fn sum_of_all(term: spec_fn(int) -> Double, n: int) -> Double {
    sum_where(|i: int| true, term, n)
}

pub open spec fn spec_mean_of(sum: Double, count: u64) -> Single {
    sum.over(Double::from_count(count)).narrowed()
}

/// A sum over a count, as a single.
#[verifier::when_used_as_spec(spec_mean_of)]
pub fn mean_of(sum: Double, count: u64) -> (r: Single)
    ensures
        r == spec_mean_of(sum, count),
{
    sum.over(Double::from_count(count)).narrowed()
}

pub open spec fn spec_percent_of(part: u64, count: u64) -> Single {
    // 100
    Double::from_count(part).over(Double::from_count(count)).times(wide(0x4059_0000_0000_0000)).narrowed()
}

/// A part of a count in percent, as a single.
#[verifier::when_used_as_spec(spec_percent_of)]
pub fn percent_of(part: u64, count: u64) -> (r: Single)
    ensures
        r == spec_percent_of(part, count),
{
    // 100
    Double::from_count(part).over(Double::from_count(count)).times(wide(0x4059_0000_0000_0000)).narrowed()
}

} // verus!
