//! Single-precision numbers held by their IEEE 754 bit pattern.
//!
//! Every tone and colour parameter is a single-precision number. `Single` keeps
//! such a number as its bit pattern, compares it, and computes on it with the
//! rounding that IEEE 754 prescribes: to nearest, ties to even. A `Single` goes
//! to and from the machine's own representation by its bits.

use vstd::arithmetic::power2::{
    lemma_pow2_adds, lemma_pow2_pos, lemma_pow2_strictly_increases, lemma_pow2_unfold, pow2,
};
use vstd::prelude::*;

verus! {

/// A single-precision number. `==` compares bit patterns; `same` compares numbers.
#[derive(Clone, Copy, Debug, PartialEq, Eq, Structural)]
pub struct Single {
    pub bits: u32,
}

/// The pattern of positive infinity; every larger magnitude is not a number.
pub const INFINITY: u32 = 0x7f80_0000;

/// The pattern with only the sign bit set.
pub const SIGN: u32 = 0x8000_0000;

/// Half of the significand's range: two to the power 23.
pub const HIDDEN: u32 = 0x0080_0000;

/// The number with the bit pattern `bits`.
pub open spec fn spec_num(bits: u32) -> Single {
    Single { bits }
}

/// The number with the bit pattern `bits`.
#[verifier::when_used_as_spec(spec_num)]
pub fn num(bits: u32) -> (r: Single)
    ensures
        r == spec_num(bits),
{
    Single { bits }
}

/// The size of the number with magnitude pattern `m`, in units of two to the power -149.
/// Patterns from `INFINITY` on continue the sequence: the first of them stands for two to
/// the power 128.
pub open spec fn ulps(m: int) -> int {
    if m < HIDDEN {
        m
    } else {
        (HIDDEN + m % (HIDDEN as int)) * pow2((m / (HIDDEN as int) - 1) as nat)
    }
}

/// `m` is the magnitude pattern nearest to `n / d` units of two to the power -149. Of two
/// patterns that are equally near, it is the even one.
pub open spec fn rounds_to(n: int, d: int, m: int) -> bool {
    &&& 0 <= m <= INFINITY
    &&& m > 0 ==> {
        let low = (ulps(m - 1) + ulps(m)) * d;
        low < 2 * n || (low == 2 * n && m % 2 == 0)
    }
    &&& m < INFINITY ==> {
        let high = (ulps(m) + ulps(m + 1)) * d;
        2 * n < high || (2 * n == high && m % 2 == 0)
    }
}

/// `m` is the magnitude pattern nearest to the square root of `n`, in units of two to the
/// power -149, ties to even.
pub open spec fn root_rounds_to(n: int, m: int) -> bool {
    &&& 0 <= m <= INFINITY
    &&& m > 0 ==> {
        let low = ulps(m - 1) + ulps(m);
        low * low < 4 * n || (low * low == 4 * n && m % 2 == 0)
    }
    &&& m < INFINITY ==> {
        let high = ulps(m) + ulps(m + 1);
        4 * n < high * high || (4 * n == high * high && m % 2 == 0)
    }
}

/// The magnitude pattern that the square root of `n` rounds to.
pub open spec fn round_root(n: int) -> int {
    choose|m: int| root_rounds_to(n, m)
}

/// The magnitude pattern that `n / d` units of two to the power -149 round to.
pub open spec fn round_ratio(n: int, d: int) -> int {
    choose|m: int| rounds_to(n, d, m)
}

/// The size of the pattern with exponent `q` and mantissa `m`.
pub proof fn lemma_ulps_form(q: int, m: int)
    requires
        0 <= q,
        0 <= m <= 2 * HIDDEN,
        q == 0 || m >= HIDDEN,
    ensures
        ulps(q * HIDDEN + m) == m * pow2(q as nat),
{
    let h = HIDDEN as int;
    vstd::arithmetic::power2::lemma2_to64();
    if q == 0 && m < h {
        assert(m * 1 == m);
    } else if m < 2 * h {
        assert((q * h + m) / h == q + 1) by (nonlinear_arith)
            requires
                h <= m < 2 * h,
                h > 0,
        ;
        assert((q * h + m) % h == m - h) by (nonlinear_arith)
            requires
                h <= m < 2 * h,
                h > 0,
        ;
        assert(q * h + m >= h) by (nonlinear_arith)
            requires
                h <= m,
                h > 0,
                q >= 0,
        ;
    } else {
        assert((q * h + m) / h == q + 2) by (nonlinear_arith)
            requires
                m == 2 * h,
                h > 0,
        ;
        assert((q * h + m) % h == 0) by (nonlinear_arith)
            requires
                m == 2 * h,
                h > 0,
        ;
        assert(q * h + m >= h) by (nonlinear_arith)
            requires
                h <= m,
                h > 0,
                q >= 0,
        ;
        lemma_pow2_unfold((q + 1) as nat);
        assert(h * (2 * pow2(q as nat)) == m * pow2(q as nat)) by (nonlinear_arith)
            requires
                m == 2 * h,
        ;
    }
}

/// Patterns in order stand for sizes in order.
pub proof fn lemma_ulps_step(m: int)
    requires
        0 <= m,
    ensures
        0 <= ulps(m) < ulps(m + 1),
{
    let h = HIDDEN as int;
    let q0 = m / h;
    let r = m % h;
    assert(m == q0 * h + r && 0 <= r < h) by (nonlinear_arith)
        requires
            h > 0,
            q0 == m / h,
            r == m % h,
    ;
    assert(q0 >= 0) by (nonlinear_arith)
        requires
            m >= 0,
            h > 0,
            q0 == m / h,
    ;
    if q0 == 0 {
        lemma_ulps_form(0, m);
        lemma_ulps_form(0, m + 1);
        lemma_pow2_pos(0);
        assert(0 <= m * pow2(0) < (m + 1) * pow2(0)) by (nonlinear_arith)
            requires
                m >= 0,
                pow2(0) > 0,
        ;
    } else {
        let q = q0 - 1;
        assert(q0 * h == q * h + h) by (nonlinear_arith)
            requires
                q0 == q + 1,
        ;
        lemma_ulps_form(q, h + r);
        lemma_ulps_form(q, h + r + 1);
        let p = pow2(q as nat) as int;
        lemma_pow2_pos(q as nat);
        assert(0 <= (h + r) * p < (h + r + 1) * p) by (nonlinear_arith)
            requires
                h + r >= 0,
                p > 0,
        ;
    }
}

/// A larger pattern stands for a larger size.
pub proof fn lemma_ulps_monotone(a: int, b: int)
    requires
        0 <= a < b,
    ensures
        0 <= ulps(a) < ulps(b),
    decreases b - a,
{
    lemma_ulps_step(a);
    if a + 1 < b {
        lemma_ulps_monotone(a + 1, b);
    }
}

/// A ratio rounds to one pattern only.
pub proof fn lemma_rounding_is_unique(n: int, d: int, a: int, b: int)
    requires
        0 < d,
        rounds_to(n, d, a),
        rounds_to(n, d, b),
    ensures
        a == b,
{
    if a <= b {
        lemma_rounding_order(n, d, a, b);
    } else {
        lemma_rounding_order(n, d, b, a);
    }
}

proof fn lemma_rounding_order(n: int, d: int, a: int, b: int)
    requires
        0 < d,
        a <= b,
        rounds_to(n, d, a),
        rounds_to(n, d, b),
    ensures
        a == b,
{
    if a == b {
        return;
    }
    lemma_ulps_step(a);
    lemma_ulps_step(b - 1);
    let high = ulps(a) + ulps(a + 1);
    let low = ulps(b - 1) + ulps(b);
    if a + 1 < b {
        lemma_ulps_monotone(a, b - 1);
        lemma_ulps_monotone(a + 1, b);
        assert(high * d < low * d) by (nonlinear_arith)
            requires
                high < low,
                d > 0,
        ;
    } else {
        assert(a % 2 == 0 && b % 2 == 0);
    }
}

/// What is left of `n / d` once `m` units of two to the power `q` are taken out: `half` says
/// that it is half a unit or more, `rest` that there is something beside that half.
spec fn split_at(n: int, d: int, m: int, q: int, half: bool, rest: bool) -> bool {
    let x = n * pow2(400);
    let t = pow2((q + 400) as nat) * d;
    &&& m * t <= x < (m + 1) * t
    &&& (x == m * t) == (!half && !rest)
}

spec fn half_is_exact(n: int, d: int, m: int, q: int, half: bool, rest: bool) -> bool {
    let x = n * pow2(400);
    let t = pow2((q + 400) as nat) * d;
    &&& !half ==> 2 * x < (2 * m + 1) * t
    &&& half && !rest ==> 2 * x == (2 * m + 1) * t
    &&& half && rest ==> 2 * x > (2 * m + 1) * t
}

proof fn lemma_split_halves(n: int, d: int, m: int, q: int, half: bool, rest: bool)
    requires
        0 < d,
        0 <= m,
        -400 <= q,
        split_at(n, d, m, q, half, rest),
    ensures
        split_at(n, d, m / 2, q + 1, m % 2 == 1, half || rest),
        half_is_exact(n, d, m / 2, q + 1, m % 2 == 1, half || rest),
{
    let x = n * pow2(400);
    let p = pow2((q + 400) as nat) as int;
    let t = p * d;
    let k = m / 2;
    lemma_pow2_unfold((q + 401) as nat);
    lemma_pow2_pos((q + 400) as nat);
    assert(pow2((q + 401) as nat) * d == 2 * t) by (nonlinear_arith)
        requires
            pow2((q + 401) as nat) == 2 * p,
            t == p * d,
    ;
    assert(t > 0) by (nonlinear_arith)
        requires
            p > 0,
            d > 0,
            t == p * d,
    ;
    assert(k * (2 * t) == (2 * k) * t) by (nonlinear_arith);
    assert((k + 1) * (2 * t) == (2 * k + 2) * t) by (nonlinear_arith);
    assert((2 * k + 1) * (2 * t) == 2 * ((2 * k + 1) * t)) by (nonlinear_arith);
    assert((2 * k + 1) * t == (2 * k) * t + t) by (nonlinear_arith);
    assert((2 * k + 2) * t == (2 * k) * t + 2 * t) by (nonlinear_arith);
    assert((m + 1) * t == m * t + t) by (nonlinear_arith);
    if m % 2 == 1 {
        assert(m == 2 * k + 1);
    } else {
        assert(m == 2 * k);
    }
}

proof fn lemma_split_doubles(n: int, d: int, m: int, q: int)
    requires
        0 < d,
        -400 < q,
        split_at(n, d, m, q, false, false),
    ensures
        split_at(n, d, 2 * m, q - 1, false, false),
{
    let p = pow2((q + 399) as nat) as int;
    lemma_pow2_unfold((q + 400) as nat);
    lemma_pow2_pos((q + 399) as nat);
    assert(m * ((2 * p) * d) == (2 * m) * (p * d)) by (nonlinear_arith);
    assert((2 * m + 1) * (p * d) == (2 * m) * (p * d) + p * d) by (nonlinear_arith);
    assert(p * d > 0) by (nonlinear_arith)
        requires
            p > 0,
            d > 0,
    ;
}

/// Eight binary places at once.
proof fn lemma_split_byte(n: int, d: int, m: int, q: int, half: bool, rest: bool)
    requires
        0 < d,
        0 <= m,
        -400 <= q,
        split_at(n, d, m, q, half, rest),
    ensures
        split_at(n, d, m / 256, q + 8, (m / 128) % 2 == 1, half || rest || m % 128 != 0),
        half_is_exact(n, d, m / 256, q + 8, (m / 128) % 2 == 1, half || rest || m % 128 != 0),
{
    assert(m / 2 / 2 == m / 4 && m / 4 / 2 == m / 8 && m / 8 / 2 == m / 16 && m / 16 / 2 == m / 32
        && m / 32 / 2 == m / 64 && m / 64 / 2 == m / 128 && m / 128 / 2 == m / 256);
    let r1 = half || rest;
    lemma_split_halves(n, d, m, q, half, rest);
    let r2 = m % 2 == 1 || r1;
    lemma_split_halves(n, d, m / 2, q + 1, m % 2 == 1, r1);
    let r3 = (m / 2) % 2 == 1 || r2;
    lemma_split_halves(n, d, m / 4, q + 2, (m / 2) % 2 == 1, r2);
    let r4 = (m / 4) % 2 == 1 || r3;
    lemma_split_halves(n, d, m / 8, q + 3, (m / 4) % 2 == 1, r3);
    let r5 = (m / 8) % 2 == 1 || r4;
    lemma_split_halves(n, d, m / 16, q + 4, (m / 8) % 2 == 1, r4);
    let r6 = (m / 16) % 2 == 1 || r5;
    lemma_split_halves(n, d, m / 32, q + 5, (m / 16) % 2 == 1, r5);
    let r7 = (m / 32) % 2 == 1 || r6;
    lemma_split_halves(n, d, m / 64, q + 6, (m / 32) % 2 == 1, r6);
    lemma_split_halves(n, d, m / 128, q + 7, (m / 64) % 2 == 1, r7);
    let r8 = (m / 64) % 2 == 1 || r7;
    assert(r8 == (half || rest || m % 128 != 0));
}

/// Eight binary places more.
proof fn lemma_split_times_byte(n: int, d: int, m: int, q: int)
    requires
        0 < d,
        -392 < q,
        split_at(n, d, m, q, false, false),
    ensures
        split_at(n, d, 256 * m, q - 8, false, false),
{
    lemma_split_doubles(n, d, m, q);
    lemma_split_doubles(n, d, 2 * m, q - 1);
    lemma_split_doubles(n, d, 4 * m, q - 2);
    lemma_split_doubles(n, d, 8 * m, q - 3);
    lemma_split_doubles(n, d, 16 * m, q - 4);
    lemma_split_doubles(n, d, 32 * m, q - 5);
    lemma_split_doubles(n, d, 64 * m, q - 6);
    lemma_split_doubles(n, d, 128 * m, q - 7);
}

pub(crate) proof fn lemma_cancel(a: int, b: int, p: int)
    requires
        p > 0,
    ensures
        (a * p < b * p) == (a < b),
        (a * p == b * p) == (a == b),
{
    if a < b {
        assert(a * p < b * p) by (nonlinear_arith)
            requires
                a < b,
                p > 0,
        ;
    } else if b < a {
        assert(b * p < a * p) by (nonlinear_arith)
            requires
                b < a,
                p > 0,
        ;
    }
}

/// The last step of rounding: from the split at a final exponent to the nearest pattern.
proof fn lemma_round_up_or_down(n: int, d: int, m: int, q: int, half: bool, rest: bool, r: int)
    requires
        0 < d,
        0 <= q,
        0 <= m < 2 * HIDDEN,
        q == 0 || m >= HIDDEN,
        split_at(n, d, m, q, half, rest),
        half_is_exact(n, d, m, q, half, rest),
        r == q * HIDDEN + m + (if half && (rest || m % 2 == 1) { 1int } else { 0int }),
    ensures
        rounds_to(n, d, if r < INFINITY { r } else { INFINITY as int }),
{
    let h = HIDDEN as int;
    let p = pow2(q as nat) as int;
    let big = pow2(400) as int;
    lemma_pow2_pos(q as nat);
    lemma_pow2_pos(400);
    lemma_pow2_adds(q as nat, 400);
    let t = pow2((q + 400) as nat) * d;
    let u = p * d;
    assert(t == u * big) by (nonlinear_arith)
        requires
            t == (p * big) * d,
            u == p * d,
    ;
    assert(u > 0) by (nonlinear_arith)
        requires
            p > 0,
            d > 0,
            u == p * d,
    ;
    assert(m * t == (m * u) * big) by (nonlinear_arith)
        requires
            t == u * big,
    ;
    assert((m + 1) * t == ((m + 1) * u) * big) by (nonlinear_arith)
        requires
            t == u * big,
    ;
    assert((2 * m + 1) * t == ((2 * m + 1) * u) * big) by (nonlinear_arith)
        requires
            t == u * big,
    ;
    assert(2 * (n * big) == (2 * n) * big) by (nonlinear_arith);
    lemma_cancel(n, m * u, big);
    lemma_cancel(n, (m + 1) * u, big);
    lemma_cancel(2 * n, (2 * m + 1) * u, big);
    let base = q * h + m;
    lemma_ulps_form(q, m);
    lemma_ulps_form(q, m + 1);
    assert(base >= 0) by (nonlinear_arith)
        requires
            base == q * h + m,
            q >= 0,
            h > 0,
            m >= 0,
    ;
    assert(ulps(base) * d == m * u) by (nonlinear_arith)
        requires
            ulps(base) == m * p,
            u == p * d,
    ;
    assert(ulps(base + 1) * d == (m + 1) * u) by (nonlinear_arith)
        requires
            ulps(base + 1) == (m + 1) * p,
            u == p * d,
    ;
    assert((ulps(base) + ulps(base + 1)) * d == ulps(base) * d + ulps(base + 1) * d)
        by (nonlinear_arith);
    assert((2 * m + 1) * u == m * u + (m + 1) * u) by (nonlinear_arith);
    assert(base % 2 == m % 2) by (nonlinear_arith)
        requires
            base == q * h + m,
            h == 8388608,
    ;
    if r == base {
        if base > 0 {
            lemma_ulps_step(base - 1);
            lemma_cancel(ulps(base - 1) + ulps(base), ulps(base) + ulps(base), d);
            assert((ulps(base) + ulps(base)) * d == 2 * (ulps(base) * d)) by (nonlinear_arith);
        }
        lemma_at_infinity(n, d, base);
    } else {
        lemma_ulps_step(base + 1);
        lemma_cancel(ulps(base + 1) + ulps(base + 1), ulps(base + 1) + ulps(base + 2), d);
        assert((ulps(base + 1) + ulps(base + 1)) * d == 2 * (ulps(base + 1) * d))
            by (nonlinear_arith);
        if base >= INFINITY {
            lemma_at_infinity(n, d, base);
        }
    }
}

/// What is as large as a pattern from infinity on rounds to infinity.
proof fn lemma_at_infinity(n: int, d: int, base: int)
    requires
        0 < d,
        base >= 0,
        ulps(base) * d <= n,
    ensures
        base >= INFINITY ==> rounds_to(n, d, INFINITY as int),
{
    if base >= INFINITY {
        let i = INFINITY as int;
        if base > i {
            lemma_ulps_monotone(i, base);
        }
        lemma_ulps_step(i - 1);
        assert((ulps(i - 1) + ulps(i)) * d < 2 * n) by (nonlinear_arith)
            requires
                ulps(i - 1) < ulps(i),
                ulps(i) <= ulps(base),
                ulps(base) * d <= n,
                d > 0,
        ;
    }
}

/// Rounds `n / d`, of which `sig` units of two to the power `exp` are the whole part.
fn round_parts(sig: u128, exp: i32, rest: bool, Ghost(n): Ghost<int>, Ghost(d): Ghost<int>) -> (r:
    u32)
    requires
        0 < d,
        -400 <= exp <= 400,
        split_at(n, d, sig as int, exp as int, false, rest),
        rest ==> sig >= 0x1_0000_0000,
    ensures
        rounds_to(n, d, r as int),
{
    let mut m: u128 = sig;
    let mut q: i32 = exp;
    let mut half: bool = false;
    let mut more: bool = rest;
    while m < 0x8000 && q >= 8
        invariant
            0 < d,
            -400 <= q <= 400,
            !half,
            more == rest,
            rest ==> m >= 0x1_0000_0000,
            split_at(n, d, m as int, q as int, half, more),
        decreases q,
    {
        proof {
            lemma_split_times_byte(n, d, m as int, q as int);
        }
        m = m * 256;
        q = q - 8;
    }
    while m < 0x80_0000 && q > 0
        invariant
            0 < d,
            -400 <= q <= 400,
            !half,
            more == rest,
            rest ==> m >= 0x1_0000_0000,
            split_at(n, d, m as int, q as int, half, more),
        decreases q,
    {
        proof {
            lemma_split_doubles(n, d, m as int, q as int);
        }
        m = m * 2;
        q = q - 1;
    }
    let ghost mut bits: int = 128;
    proof {
        vstd::arithmetic::power2::lemma2_to64();
        lemma_pow2_adds(64, 64);
        assert(!more ==> half_is_exact(n, d, m as int, q as int, half, more)) by {
            let t = pow2((q + 400) as nat) * d;
            lemma_pow2_pos((q + 400) as nat);
            assert(t > 0) by (nonlinear_arith)
                requires
                    t == pow2((q + 400) as nat) * d,
                    pow2((q + 400) as nat) > 0,
                    d > 0,
            ;
            assert((2 * m + 1) * t == 2 * (m * t) + t) by (nonlinear_arith);
        }
    }
    while m >= 0x1_0000_0000
        invariant
            0 < d,
            -400 <= q,
            0 <= bits <= 128,
            q <= 0 || q <= 528 - bits,
            m < pow2(bits as nat),
            q >= 0 ==> m >= 0x80_0000 || q == 0,
            split_at(n, d, m as int, q as int, half, more),
            (m < 0x1_0000_0000 || !more) ==> half_is_exact(n, d, m as int, q as int, half, more),
        decreases m,
    {
        proof {
            lemma_split_byte(n, d, m as int, q as int, half, more);
            vstd::arithmetic::power2::lemma2_to64();
            if bits < 32 {
                lemma_pow2_strictly_increases(bits as nat, 32);
            }
            lemma_pow2_adds(8, (bits - 8) as nat);
            bits = bits - 8;
        }
        more = more || half || m % 128 != 0;
        half = (m / 128) % 2 == 1;
        m = m / 256;
        q = q + 8;
    }
    while m >= 0x100_0000 || q < 0
        invariant
            0 < d,
            -400 <= q,
            0 <= bits <= 128,
            q <= 0 || q <= 528 - bits,
            m < pow2(bits as nat),
            q >= 0 ==> m >= 0x80_0000 || q == 0,
            split_at(n, d, m as int, q as int, half, more),
            (m < 0x1_0000_0000 || !more) ==> half_is_exact(n, d, m as int, q as int, half, more),
        decreases m, 400 - q,
    {
        proof {
            lemma_split_halves(n, d, m as int, q as int, half, more);
            if m > 0 {
                vstd::arithmetic::power2::lemma2_to64();
                lemma_pow2_unfold(bits as nat);
                bits = bits - 1;
            }
        }
        more = more || half;
        half = m % 2 == 1;
        m = m / 2;
        q = q + 1;
    }
    let up: u128 = if half && (more || m % 2 == 1) { 1 } else { 0 };
    proof {
        lemma_round_up_or_down(
            n, d, m as int, q as int, half, more, q * HIDDEN + m + up);
    }
    if q >= 254 {
        proof {
            assert(q * 0x80_0000 + m >= 0x7f80_0000);
        }
        INFINITY
    } else {
        let r: u32 = (q as u32) * 0x80_0000 + (m as u32) + (up as u32);
        if r < INFINITY { r } else { INFINITY }
    }
}

pub(crate) proof fn lemma_square_order(a: int, b: int)
    requires
        0 <= a,
        0 <= b,
    ensures
        (a * a < b * b) == (a < b),
        (a * a == b * b) == (a == b),
{
    if a < b {
        assert(a * a < b * b) by (nonlinear_arith)
            requires
                0 <= a < b,
        ;
    } else if b < a {
        assert(b * b < a * a) by (nonlinear_arith)
            requires
                0 <= b < a,
        ;
    }
}

proof fn lemma_root_order(n: int, a: int, b: int)
    requires
        a <= b,
        root_rounds_to(n, a),
        root_rounds_to(n, b),
    ensures
        a == b,
{
    if a == b {
        return;
    }
    lemma_ulps_step(a);
    lemma_ulps_step(b - 1);
    lemma_ulps_step(b);
    lemma_ulps_step(a + 1);
    let high = ulps(a) + ulps(a + 1);
    let low = ulps(b - 1) + ulps(b);
    lemma_square_order(high, low);
    if a + 1 < b {
        lemma_ulps_monotone(a, b - 1);
        lemma_ulps_monotone(a + 1, b);
    } else {
        assert(a % 2 == 0 && b % 2 == 0);
    }
}

proof fn lemma_round_root(n: int, m: int)
    requires
        root_rounds_to(n, m),
    ensures
        round_root(n) == m,
{
    let r = round_root(n);
    if m <= r {
        lemma_root_order(n, m, r);
    } else {
        lemma_root_order(n, r, m);
    }
}

/// From the pattern `k` on, where the exponent is `j` or more, sizes are multiples of two to
/// the power `j`.
proof fn lemma_ulps_multiple(k: int, j: int)
    requires
        0 <= j,
        k >= (j + 1) * HIDDEN,
    ensures
        ulps(k) == (ulps(k) / (pow2(j as nat) as int)) * pow2(j as nat),
{
    let h = HIDDEN as int;
    let e = k / h - 1;
    assert(e >= j && k >= h) by (nonlinear_arith)
        requires
            k >= (j + 1) * h,
            e == k / h - 1,
            h == 8388608,
            j >= 0,
    ;
    let c = h + k % h;
    let p = pow2(j as nat) as int;
    lemma_pow2_adds(j as nat, (e - j) as nat);
    lemma_pow2_pos(j as nat);
    let rest = c * pow2((e - j) as nat);
    assert(ulps(k) == rest * p) by (nonlinear_arith)
        requires
            ulps(k) == c * pow2(e as nat),
            pow2(e as nat) == p * pow2((e - j) as nat),
            rest == c * pow2((e - j) as nat),
    ;
    assert((rest * p) / p == rest) by (nonlinear_arith)
        requires
            p > 0,
    ;
}

/// Rounding `2 * s * 2^j`, or that and a bit, half of it, rounds the root of a number whose
/// root lies there.
proof fn lemma_root_from_whole(n: int, s: int, j: int, rest: bool, m: int)
    requires
        0 <= j <= 200,
        s >= 0x1_0000_0000,
        rounds_to((2 * s + if rest { 1int } else { 0int }) * pow2(j as nat), 2, m),
        ({
            let p = pow2(j as nat) as int;
            &&& (s * p) * (s * p) <= n < ((s + 1) * p) * ((s + 1) * p)
            &&& rest == ((s * p) * (s * p) != n)
        }),
    ensures
        root_rounds_to(n, m),
{
    let p = pow2(j as nat) as int;
    let v = (2 * s + if rest { 1int } else { 0int }) * p;
    lemma_pow2_pos(j as nat);
    let x = 2 * (s * p);
    let y = 2 * ((s + 1) * p);
    assert(x * x == 4 * ((s * p) * (s * p))) by (nonlinear_arith)
        requires
            x == 2 * (s * p),
    ;
    assert(y * y == 4 * (((s + 1) * p) * ((s + 1) * p))) by (nonlinear_arith)
        requires
            y == 2 * ((s + 1) * p),
    ;
    assert(y == x + 2 * p && v == x + (if rest { p } else { 0 })) by (nonlinear_arith)
        requires
            x == 2 * (s * p),
            y == 2 * ((s + 1) * p),
            v == (2 * s + if rest { 1int } else { 0int }) * p,
    ;
    assert(x >= 0) by (nonlinear_arith)
        requires
            x == 2 * (s * p),
            s >= 0,
            p > 0,
    ;
    lemma_ulps_step(m);
    if m > 0 {
        lemma_ulps_step(m - 1);
    }
    let low = ulps(m - 1) + ulps(m);
    let high = ulps(m) + ulps(m + 1);
    let q = pow2((j + 1) as nat) as int;
    lemma_pow2_unfold((j + 1) as nat);
    let edge = (j + 3) * HIDDEN;
    if m < edge {
        if m + 1 < edge {
            lemma_ulps_monotone(m + 1, edge);
        }
        lemma_ulps_form(j + 2, HIDDEN as int);
        lemma_pow2_unfold((j + 2) as nat);
        assert((j + 3) * HIDDEN == (j + 2) * HIDDEN + HIDDEN) by (nonlinear_arith);
        assert(high * 2 < 2 * v) by (nonlinear_arith)
            requires
                high <= 2 * (8388608 * (4 * p)),
                v >= 2 * (s * p),
                s >= 0x1_0000_0000,
                p > 0,
        ;
    }
    assert(m - 1 >= (j + 2) * HIDDEN) by (nonlinear_arith)
        requires
            m >= (j + 3) * HIDDEN,
            HIDDEN == 8388608,
    ;
    lemma_ulps_multiple(m - 1, j + 1);
    lemma_ulps_multiple(m, j + 1);
    lemma_ulps_multiple(m + 1, j + 1);
    let a = ulps(m - 1) / q + ulps(m) / q;
    let b = ulps(m) / q + ulps(m + 1) / q;
    assert(low == a * q) by (nonlinear_arith)
        requires
            low == (ulps(m - 1) / q) * q + (ulps(m) / q) * q,
            a == ulps(m - 1) / q + ulps(m) / q,
    ;
    assert(high == b * q) by (nonlinear_arith)
        requires
            high == (ulps(m) / q) * q + (ulps(m + 1) / q) * q,
            b == ulps(m) / q + ulps(m + 1) / q,
    ;
    assert(x == s * q) by (nonlinear_arith)
        requires
            x == 2 * (s * p),
            q == 2 * p,
    ;
    assert(y == (s + 1) * q) by (nonlinear_arith)
        requires
            y == 2 * ((s + 1) * p),
            q == 2 * p,
    ;
    lemma_cancel(a, s, q);
    lemma_cancel(a, s + 1, q);
    lemma_cancel(b, s, q);
    lemma_cancel(b, s + 1, q);
    lemma_square_order(low, x);
    lemma_square_order(high, x);
    lemma_square_order(high, y);
    lemma_square_order(low, y);
}

/// The whole part of a square root.
pub(crate) fn root(a: u128) -> (r: u128)
    requires
        a < 0x4000_0000_0000_0000_0000_0000_0000_0000,
    ensures
        r * r <= a < (r + 1) * (r + 1),
        r < 0x8000_0000_0000_0000,
{
    let mut r: u128 = 0;
    let mut step: u128 = 0x8000_0000_0000_0000;
    proof {
        vstd::arithmetic::power2::lemma2_to64_rest();
        assert(step == pow2(63));
    }
    assert(0x8000_0000_0000_0000int * 0x8000_0000_0000_0000int
        == 0x4000_0000_0000_0000_0000_0000_0000_0000int);
    while step > 1
        invariant
            1 <= step <= 0x8000_0000_0000_0000,
            step == 1 || step % 2 == 0,
            r + step <= 0x8000_0000_0000_0000,
            r * r <= a < (r + step) * (r + step),
            exists|k: nat| step == #[trigger] pow2(k),
        decreases step,
    {
        let half: u128 = step / 2;
        proof {
            let k = choose|k: nat| step == #[trigger] pow2(k);
            vstd::arithmetic::power2::lemma2_to64();
            lemma_pow2_unfold(k);
            assert(half == pow2((k - 1) as nat));
            if k > 1 {
                lemma_pow2_unfold((k - 1) as nat);
            }
        }
        let t: u128 = r + half;
        assert(t * t <= 0x8000_0000_0000_0000 * 0x8000_0000_0000_0000) by (nonlinear_arith)
            requires
                0 <= t <= 0x8000_0000_0000_0000,
        ;
        if t * t <= a {
            r = t;
        }
        step = half;
    }
    r
}

/// A number from its sign and its magnitude pattern.
pub open spec fn signed(negative: bool, m: int) -> Single {
    Single { bits: (if negative { SIGN + m } else { m }) as u32 }
}

/// The result of an operation that has no number for a result.
pub open spec fn not_a_number() -> Single {
    Single { bits: 0x7fc0_0000 }
}

/// `v` limited to the range from `lo` to `hi`.
pub open spec fn within(v: int, lo: int, hi: int) -> int {
    if v < lo {
        lo
    } else if v > hi {
        hi
    } else {
        v
    }
}

/// Two to the power `k`.
pub(crate) fn power(k: u32) -> (r: u128)
    requires
        k <= 127,
    ensures
        r == pow2(k as nat),
{
    let mut r: u128 = 1;
    let mut i: u32 = 0;
    proof {
        vstd::arithmetic::power2::lemma2_to64();
    }
    while i < k
        invariant
            i <= k <= 127,
            r == pow2(i as nat),
        decreases k - i,
    {
        proof {
            lemma_pow2_unfold((i + 1) as nat);
            lemma_pow2_adds(64, 64);
            vstd::arithmetic::power2::lemma2_to64();
            if i + 1 < 128 {
                lemma_pow2_strictly_increases((i + 1) as nat, 128);
            }
        }
        r = r * 2;
        i = i + 1;
    }
    r
}

/// A size that has a pattern rounds to it.
proof fn lemma_exact(m: int)
    requires
        0 <= m <= INFINITY,
    ensures
        rounds_to(ulps(m), 1, m),
{
    lemma_ulps_step(m);
    if m > 0 {
        lemma_ulps_step(m - 1);
    }
}

/// Below two to the power 23 the nearest whole number is small.
proof fn lemma_small_whole(m: int)
    requires
        0 <= m < 0x4b00_0000,
    ensures
        (2 * ulps(m) + pow2(149)) / (2 * pow2(149) as int) < 0x100_0000,
{
    let p = pow2(149) as int;
    lemma_pow2_pos(149);
    lemma_ulps_form(149, HIDDEN as int);
    lemma_ulps_monotone(m, 0x4b00_0000);
    assert((2 * ulps(m) + p) / (2 * p) < 0x100_0000) by (nonlinear_arith)
        requires
            ulps(m) < 8388608 * p,
            p > 0,
    ;
}

/// Nothing rounds to nothing.
pub proof fn lemma_zero_rounds_to_zero(d: int)
    requires
        0 < d,
    ensures
        rounds_to(0, d, 0),
{
    lemma_ulps_step(0);
    assert((ulps(0) + ulps(1)) * d > 0) by (nonlinear_arith)
        requires
            ulps(0) >= 0,
            ulps(1) > 0,
            d > 0,
    ;
}

/// A ratio rounds to one pattern only.
pub proof fn lemma_round_ratio(n: int, d: int, m: int)
    requires
        0 < d,
        rounds_to(n, d, m),
    ensures
        round_ratio(n, d) == m,
{
    lemma_rounding_is_unique(n, d, m, round_ratio(n, d));
}

impl Single {
    /// The sign bit is set.
    pub open spec fn negative(self) -> bool {
        self.bits >= SIGN
    }

    /// The pattern without its sign bit.
    pub open spec fn magnitude(self) -> int {
        (self.bits % SIGN) as int
    }

    pub open spec fn spec_is_nan(self) -> bool {
        self.magnitude() > INFINITY
    }

    pub open spec fn infinite(self) -> bool {
        self.magnitude() == INFINITY
    }

    /// The number in units of two to the power -149.
    pub open spec fn value(self) -> int {
        if self.negative() {
            -ulps(self.magnitude())
        } else {
            ulps(self.magnitude())
        }
    }

    /// The place of the pattern on the number line: the order of keys is the order of numbers.
    pub open spec fn key(self) -> int {
        if self.negative() {
            -self.magnitude()
        } else {
            self.magnitude()
        }
    }

    #[verifier::when_used_as_spec(spec_is_nan)]
    pub fn is_nan(self) -> (r: bool)
        ensures
            r == self.spec_is_nan(),
    {
        self.bits % SIGN > INFINITY
    }

    fn rank(self) -> (r: i64)
        ensures
            r == self.key(),
    {
        let m: i64 = (self.bits % SIGN) as i64;
        if self.bits >= SIGN {
            -m
        } else {
            m
        }
    }

    pub open spec fn spec_lt(self, other: Single) -> bool {
        !self.spec_is_nan() && !other.spec_is_nan() && self.key() < other.key()
    }

    pub open spec fn spec_le(self, other: Single) -> bool {
        !self.spec_is_nan() && !other.spec_is_nan() && self.key() <= other.key()
    }

    pub open spec fn spec_gt(self, other: Single) -> bool {
        other.spec_lt(self)
    }

    pub open spec fn spec_ge(self, other: Single) -> bool {
        other.spec_le(self)
    }

    pub open spec fn spec_same(self, other: Single) -> bool {
        !self.spec_is_nan() && !other.spec_is_nan() && self.key() == other.key()
    }

    /// Less than; false where either side is not a number.
    #[verifier::when_used_as_spec(spec_lt)]
    pub fn lt(self, other: Single) -> (r: bool)
        ensures
            r == self.spec_lt(other),
    {
        !self.is_nan() && !other.is_nan() && self.rank() < other.rank()
    }

    /// At most; false where either side is not a number.
    #[verifier::when_used_as_spec(spec_le)]
    pub fn le(self, other: Single) -> (r: bool)
        ensures
            r == self.spec_le(other),
    {
        !self.is_nan() && !other.is_nan() && self.rank() <= other.rank()
    }

    /// Greater than; false where either side is not a number.
    #[verifier::when_used_as_spec(spec_gt)]
    pub fn gt(self, other: Single) -> (r: bool)
        ensures
            r == self.spec_gt(other),
    {
        other.lt(self)
    }

    /// At least; false where either side is not a number.
    #[verifier::when_used_as_spec(spec_ge)]
    pub fn ge(self, other: Single) -> (r: bool)
        ensures
            r == self.spec_ge(other),
    {
        other.le(self)
    }

    /// Equal as numbers: the two zeros are the same, and no NaN is the same as anything.
    #[verifier::when_used_as_spec(spec_same)]
    pub fn same(self, other: Single) -> (r: bool)
        ensures
            r == self.spec_same(other),
    {
        !self.is_nan() && !other.is_nan() && self.rank() == other.rank()
    }

    pub open spec fn spec_max(self, other: Single) -> Single {
        if self.spec_is_nan() || self.spec_lt(other) {
            other
        } else {
            self
        }
    }

    pub open spec fn spec_min(self, other: Single) -> Single {
        if self.spec_is_nan() || other.spec_lt(self) {
            other
        } else {
            self
        }
    }

    pub open spec fn spec_clamp(self, lo: Single, hi: Single) -> Single {
        if self.spec_lt(lo) {
            lo
        } else if self.spec_gt(hi) {
            hi
        } else {
            self
        }
    }

    /// The larger of two numbers; the other one where one is not a number.
    #[verifier::when_used_as_spec(spec_max)]
    pub fn max(self, other: Single) -> (r: Single)
        ensures
            r == self.spec_max(other),
    {
        if self.is_nan() || self.lt(other) {
            other
        } else {
            self
        }
    }

    /// The smaller of two numbers; the other one where one is not a number.
    #[verifier::when_used_as_spec(spec_min)]
    pub fn min(self, other: Single) -> (r: Single)
        ensures
            r == self.spec_min(other),
    {
        if self.is_nan() || other.lt(self) {
            other
        } else {
            self
        }
    }

    /// The number limited to the range from `lo` to `hi`; what is not a number stays.
    #[verifier::when_used_as_spec(spec_clamp)]
    pub fn clamp(self, lo: Single, hi: Single) -> (r: Single)
        ensures
            r == self.spec_clamp(lo, hi),
    {
        if self.lt(lo) {
            lo
        } else if self.gt(hi) {
            hi
        } else {
            self
        }
    }

    pub open spec fn spec_negated(self) -> Single {
        signed(!self.negative(), self.magnitude())
    }

    pub open spec fn spec_abs(self) -> Single {
        signed(false, self.magnitude())
    }

    /// The number with its sign bit flipped.
    #[verifier::when_used_as_spec(spec_negated)]
    pub fn negated(self) -> (r: Single)
        ensures
            r == self.spec_negated(),
    {
        if self.bits >= SIGN {
            Single { bits: self.bits - SIGN }
        } else {
            Single { bits: self.bits + SIGN }
        }
    }

    /// The number with its sign bit cleared.
    #[verifier::when_used_as_spec(spec_abs)]
    pub fn abs(self) -> (r: Single)
        ensures
            r == self.spec_abs(),
    {
        Single { bits: self.bits % SIGN }
    }

    #[verifier::opaque]
    pub open spec fn spec_plus(self, other: Single) -> Single {
        if self.spec_is_nan() || other.spec_is_nan() {
            not_a_number()
        } else if self.infinite() {
            if other.infinite() && self.negative() != other.negative() {
                not_a_number()
            } else {
                self
            }
        } else if other.infinite() {
            other
        } else {
            let sum = self.value() + other.value();
            if sum == 0 {
                signed(self.negative() && other.negative(), 0)
            } else if sum < 0 {
                signed(true, round_ratio(-sum, 1))
            } else {
                signed(false, round_ratio(sum, 1))
            }
        }
    }

    pub open spec fn spec_minus(self, other: Single) -> Single {
        self.spec_plus(other.spec_negated())
    }

    #[verifier::opaque]
    pub open spec fn spec_times(self, other: Single) -> Single {
        let negative = self.negative() != other.negative();
        if self.spec_is_nan() || other.spec_is_nan() {
            not_a_number()
        } else if self.infinite() || other.infinite() {
            if self.magnitude() == 0 || other.magnitude() == 0 {
                not_a_number()
            } else {
                signed(negative, INFINITY as int)
            }
        } else {
            signed(
                negative,
                round_ratio(
                    ulps(self.magnitude()) * ulps(other.magnitude()),
                    pow2(149) as int,
                ),
            )
        }
    }

    #[verifier::opaque]
    pub open spec fn spec_over(self, other: Single) -> Single {
        let negative = self.negative() != other.negative();
        if self.spec_is_nan() || other.spec_is_nan() {
            not_a_number()
        } else if self.infinite() {
            if other.infinite() {
                not_a_number()
            } else {
                signed(negative, INFINITY as int)
            }
        } else if other.infinite() {
            signed(negative, 0)
        } else if other.magnitude() == 0 {
            if self.magnitude() == 0 {
                not_a_number()
            } else {
                signed(negative, INFINITY as int)
            }
        } else {
            signed(
                negative,
                round_ratio(ulps(self.magnitude()) * pow2(149), ulps(other.magnitude())),
            )
        }
    }

    #[verifier::opaque]
    pub open spec fn spec_rem(self, other: Single) -> Single {
        if self.spec_is_nan() || other.spec_is_nan() || self.infinite() || other.magnitude() == 0 {
            not_a_number()
        } else if other.infinite() {
            self
        } else {
            signed(
                self.negative(),
                round_ratio(ulps(self.magnitude()) % ulps(other.magnitude()), 1),
            )
        }
    }

    pub open spec fn spec_rem_euclid(self, other: Single) -> Single {
        let r = self.spec_rem(other);
        if r.spec_lt(num(0)) {
            r.spec_plus(other.spec_abs())
        } else {
            r
        }
    }

    #[verifier::opaque]
    pub open spec fn spec_sqrt(self) -> Single {
        if self.spec_is_nan() || (self.negative() && self.magnitude() > 0) {
            not_a_number()
        } else if self.infinite() || self.magnitude() == 0 {
            self
        } else {
            signed(false, round_root(ulps(self.magnitude()) * pow2(149)))
        }
    }

    /// The size as a whole number, halves going up.
    pub open spec fn nearest_whole(self) -> int {
        (2 * ulps(self.magnitude()) + pow2(149)) / (2 * pow2(149) as int)
    }

    #[verifier::opaque]
    pub open spec fn spec_round(self) -> Single {
        if self.spec_is_nan() || self.infinite() {
            self
        } else {
            signed(self.negative(), round_ratio(self.nearest_whole() * pow2(149), 1))
        }
    }

    /// The smallest whole number that is not less, limited to a range.
    #[verifier::opaque]
    pub open spec fn raised(self, lo: int, hi: int) -> int {
        let p = pow2(149) as int;
        let u = ulps(self.magnitude());
        if self.spec_is_nan() {
            0
        } else if self.negative() {
            if self.infinite() { lo } else { within(-(u / p), lo, hi) }
        } else {
            if self.infinite() { hi } else { within((u + p - 1) / p, lo, hi) }
        }
    }

    #[verifier::opaque]
    pub open spec fn spec_from_int(n: int) -> Single {
        if n < 0 {
            signed(true, round_ratio(-n * pow2(149), 1))
        } else {
            signed(false, round_ratio(n * pow2(149), 1))
        }
    }

    /// The whole part, towards zero, limited to a range. What is not a number counts as zero.
    #[verifier::opaque]
    pub open spec fn truncated(self, lo: int, hi: int) -> int {
        let whole = ulps(self.magnitude()) / pow2(149) as int;
        if self.spec_is_nan() {
            0
        } else if self.negative() {
            if self.infinite() { lo } else { within(-whole, lo, hi) }
        } else {
            if self.infinite() { hi } else { within(whole, lo, hi) }
        }
    }

    /// The nearest whole number, halves away from zero, limited to a range.
    #[verifier::opaque]
    pub open spec fn rounded(self, lo: int, hi: int) -> int {
        let whole = (2 * ulps(self.magnitude()) + pow2(149)) / (2 * pow2(149) as int);
        if self.spec_is_nan() {
            0
        } else if self.negative() {
            if self.infinite() { lo } else { within(-whole, lo, hi) }
        } else {
            if self.infinite() { hi } else { within(whole, lo, hi) }
        }
    }

    /// The significand and the exponent of a finite number.
    pub(crate) fn parts(self) -> (r: (u32, u32))
        requires
            self.magnitude() < INFINITY,
        ensures
            r.0 < 2 * HIDDEN,
            r.1 <= 253,
            r.1 > 0 ==> r.0 >= HIDDEN,
            ulps(self.magnitude()) == r.0 * pow2(r.1 as nat),
            r.0 == 0 <==> self.magnitude() == 0,
            self.magnitude() < HIDDEN ==> r.1 == 0,
            self.magnitude() >= HIDDEN ==> r.1 == self.magnitude() / (HIDDEN as int) - 1,
    {
        let m: u32 = self.bits % SIGN;
        proof {
            vstd::arithmetic::power2::lemma2_to64();
        }
        if m < HIDDEN {
            assert(m * pow2(0) == m);
            (m, 0)
        } else {
            (HIDDEN + m % HIDDEN, m / HIDDEN - 1)
        }
    }

    fn build(negative: bool, m: u32) -> (r: Single)
        requires
            m <= INFINITY,
        ensures
            r == signed(negative, m as int),
    {
        if negative {
            Single { bits: SIGN + m }
        } else {
            Single { bits: m }
        }
    }

    /// The product, rounded.
    #[verifier::when_used_as_spec(spec_times)]
    pub fn times(self, other: Single) -> (r: Single)
        ensures
            r == self.spec_times(other),
    {
        proof {
            reveal(Single::spec_times);
        }
        let negative: bool = (self.bits >= SIGN) != (other.bits >= SIGN);
        if self.is_nan() || other.is_nan() {
            return Single { bits: 0x7fc0_0000 };
        }
        if self.bits % SIGN == INFINITY || other.bits % SIGN == INFINITY {
            if self.bits % SIGN == 0 || other.bits % SIGN == 0 {
                return Single { bits: 0x7fc0_0000 };
            }
            return Single::build(negative, INFINITY);
        }
        let (ma, ea) = self.parts();
        let (mb, eb) = other.parts();
        let exp: i32 = ea as i32 + eb as i32 - 149;
        assert(ma * mb <= 0xffff_ffff_ffff_ffff) by (nonlinear_arith)
            requires
                ma < 0x100_0000,
                mb < 0x100_0000,
        ;
        let sig: u128 = (ma as u128) * (mb as u128);
        let ghost n = ulps(self.magnitude()) * ulps(other.magnitude());
        let ghost d = pow2(149) as int;
        proof {
            lemma_pow2_pos(149);
            lemma_pow2_adds(ea as nat, eb as nat);
            lemma_pow2_adds((exp + 400) as nat, 149);
            lemma_pow2_adds((ea + eb) as nat, 400);
            lemma_pow2_pos((exp + 400) as nat);
            let pa = pow2(ea as nat) as int;
            let pb = pow2(eb as nat) as int;
            let big = pow2(400) as int;
            let t = pow2((exp + 400) as nat) * d;
            assert(t == (pa * pb) * big);
            assert(n * big == sig * t) by (nonlinear_arith)
                requires
                    n == (ma * pa) * (mb * pb),
                    sig == ma * mb,
                    t == (pa * pb) * big,
            ;
            assert(t > 0) by (nonlinear_arith)
                requires
                    t == pow2((exp + 400) as nat) * d,
                    pow2((exp + 400) as nat) > 0,
                    d > 0,
            ;
            assert((sig + 1) * t == sig * t + t) by (nonlinear_arith);
        }
        let m: u32 = round_parts(sig, exp, false, Ghost(n), Ghost(d));
        proof {
            lemma_round_ratio(n, d, m as int);
        }
        Single::build(negative, m)
    }

    /// The quotient, rounded.
    #[verifier::when_used_as_spec(spec_over)]
    pub fn over(self, other: Single) -> (r: Single)
        ensures
            r == self.spec_over(other),
    {
        proof {
            reveal(Single::spec_over);
        }
        let negative: bool = (self.bits >= SIGN) != (other.bits >= SIGN);
        if self.is_nan() || other.is_nan() {
            return Single { bits: 0x7fc0_0000 };
        }
        if self.bits % SIGN == INFINITY {
            if other.bits % SIGN == INFINITY {
                return Single { bits: 0x7fc0_0000 };
            }
            return Single::build(negative, INFINITY);
        }
        if other.bits % SIGN == INFINITY {
            return Single::build(negative, 0);
        }
        if other.bits % SIGN == 0 {
            if self.bits % SIGN == 0 {
                return Single { bits: 0x7fc0_0000 };
            }
            return Single::build(negative, INFINITY);
        }
        let (ma, ea) = self.parts();
        let (mb, eb) = other.parts();
        let exp: i32 = ea as i32 - eb as i32 + 49;
        let scale: u128 = 0x10_0000_0000_0000_0000_0000_0000;
        let ghost n = ulps(self.magnitude()) * pow2(149);
        let ghost d = ulps(other.magnitude());
        proof {
            vstd::arithmetic::power2::lemma2_to64();
            vstd::arithmetic::power2::lemma2_to64_rest();
            lemma_pow2_adds(36, 64);
            assert(ma * scale < 0x100_0000 * scale) by (nonlinear_arith)
                requires
                    ma < 0x100_0000,
                    scale > 0,
            ;
            lemma_pow2_pos(eb as nat);
            assert(d > 0) by (nonlinear_arith)
                requires
                    d == mb * pow2(eb as nat),
                    mb > 0,
                    pow2(eb as nat) > 0,
            ;
        }
        let top: u128 = (ma as u128) * scale;
        let sig: u128 = top / (mb as u128);
        let left: u128 = top % (mb as u128);
        proof {
            let pa = pow2(ea as nat) as int;
            let pb = pow2(eb as nat) as int;
            let t = pow2((exp + 400) as nat) * d;
            let u = pow2((ea + 449) as nat) as int;
            lemma_pow2_adds((exp + 400) as nat, eb as nat);
            lemma_pow2_adds(ea as nat, 449);
            lemma_pow2_adds(149, 400);
            lemma_pow2_adds(100, 449);
            lemma_pow2_pos((ea + 449) as nat);
            assert(t == mb * u) by (nonlinear_arith)
                requires
                    t == pow2((exp + 400) as nat) * (mb * pb),
                    u == pow2((exp + 400) as nat) * pb,
            ;
            assert(n * pow2(400) == top * u) by (nonlinear_arith)
                requires
                    n == (ma * pa) * pow2(149),
                    top == ma * scale,
                    u == pa * pow2(449),
                    pow2(149) * pow2(400) == scale * pow2(449),
            ;
            assert(top == sig * mb + left && 0 <= left < mb) by (nonlinear_arith)
                requires
                    sig == top / (mb as u128),
                    left == top % (mb as u128),
                    mb > 0,
            ;
            assert(top * u == sig * t + left * u) by (nonlinear_arith)
                requires
                    top == sig * mb + left,
                    t == mb * u,
            ;
            assert((sig + 1) * t == sig * t + t) by (nonlinear_arith);
            lemma_cancel(left as int, mb as int, u);
            lemma_cancel(0, left as int, u);
            if ma > 0 {
                assert(sig >= 0x1_0000_0000) by (nonlinear_arith)
                    requires
                        sig == top / (mb as u128),
                        top == ma * scale,
                        ma >= 1,
                        scale == 0x10_0000_0000 * 0x1_0000_0000_0000_0000,
                        0 < mb < 0x100_0000,
                ;
            } else {
                assert(top == 0);
                assert(left == 0);
            }
        }
        let m: u32 = round_parts(sig, exp, left > 0, Ghost(n), Ghost(d));
        proof {
            lemma_round_ratio(n, d, m as int);
        }
        Single::build(negative, m)
    }

    /// The magnitude pattern of the sum of two finite numbers, the first of which has the
    /// larger exponent, and whether the sum is below zero.
    fn sum_of(self, other: Single) -> (r: (bool, u32))
        requires
            self.magnitude() < INFINITY,
            other.magnitude() < INFINITY,
            self.magnitude() / (HIDDEN as int) >= other.magnitude() / (HIDDEN as int),
        ensures
            r.1 <= INFINITY,
            r.0 == (self.value() + other.value() < 0),
            r.0 ==> rounds_to(-(self.value() + other.value()), 1, r.1 as int),
            !r.0 ==> rounds_to(self.value() + other.value(), 1, r.1 as int),
    {
        let (ma, ea) = self.parts();
        let (mb, eb) = other.parts();
        assert(ea >= eb);
        let na: bool = self.bits >= SIGN;
        let nb: bool = other.bits >= SIGN;
        let ghost sum = self.value() + other.value();
        let ghost n = if sum < 0 { -sum } else { sum };
        let ghost pa = pow2(ea as nat) as int;
        let ghost pb = pow2(eb as nat) as int;
        proof {
            lemma_pow2_pos(ea as nat);
            lemma_pow2_pos(eb as nat);
        }
        if ea - eb <= 64 {
            let scale: u128 = power(ea - eb);
            proof {
                vstd::arithmetic::power2::lemma2_to64();
                lemma_pow2_adds((ea - eb) as nat, eb as nat);
                if ea - eb < 64 {
                    lemma_pow2_strictly_increases((ea - eb) as nat, 64);
                }
                assert(ma * scale <= 0x100_0000 * 0x1_0000_0000_0000_0000) by (nonlinear_arith)
                    requires
                        ma < 0x100_0000,
                        scale <= 0x1_0000_0000_0000_0000,
                ;
                assert(ma * pa == (ma * scale) * pb) by (nonlinear_arith)
                    requires
                        pa == scale * pb,
                ;
            }
            let a: i128 = (ma as i128) * (scale as i128);
            let b: i128 = mb as i128;
            let s: i128 = (if na { -a } else { a }) + (if nb { -b } else { b });
            assert(sum == s * pb) by {
                assert((-a) * pb == -(a * pb)) by (nonlinear_arith);
                assert((-b) * pb == -(b * pb)) by (nonlinear_arith);
                let x = if na { -a } else { a as int };
                let y = if nb { -b } else { b as int };
                assert((x + y) * pb == x * pb + y * pb) by (nonlinear_arith);
            }
            let negative: bool = s < 0;
            let sig: u128 = (if s < 0 { -s } else { s }) as u128;
            proof {
                lemma_cancel(0, s as int, pb);
                lemma_cancel(s as int, 0, pb);
                assert((-s) * pb == -(s * pb)) by (nonlinear_arith);
                lemma_pow2_adds(eb as nat, 400);
                let t = pow2((eb + 400) as nat) as int;
                lemma_pow2_pos((eb + 400) as nat);
                assert(n * pow2(400) == sig * t) by (nonlinear_arith)
                    requires
                        n == sig * pb,
                        t == pb * pow2(400),
                ;
                assert(t * 1 == t);
                assert((sig + 1) * t == sig * t + t) by (nonlinear_arith);
            }
            let m: u32 = round_parts(sig, eb as i32, false, Ghost(n), Ghost(1));
            (negative, m)
        } else {
            let scale: u128 = power(40);
            let exp: i32 = ea as i32 - 40;
            proof {
                vstd::arithmetic::power2::lemma2_to64();
                vstd::arithmetic::power2::lemma2_to64_rest();
                assert(0x80_0000 * scale <= ma * scale < 0x100_0000 * scale) by (nonlinear_arith)
                    requires
                        0x80_0000 <= ma < 0x100_0000,
                        scale > 0,
                ;
            }
            let a: u128 = (ma as u128) * scale;
            let rest: bool = mb > 0;
            let sig: u128 = if rest && na != nb { a - 1 } else { a };
            proof {
                let t = pow2((exp + 400) as nat) as int;
                let big = pow2(400) as int;
                let x = (ma * pa) * big;
                let y = (mb * pb) * big;
                lemma_pow2_pos(400);
                lemma_pow2_pos((exp + 400) as nat);
                lemma_pow2_adds((exp + 400) as nat, 40);
                lemma_pow2_adds(ea as nat, 400);
                assert(x == a * t) by (nonlinear_arith)
                    requires
                        x == (ma * pa) * big,
                        a == ma * scale,
                        pa * big == t * scale,
                ;
                lemma_pow2_adds(24, (eb + 400) as nat);
                lemma_pow2_adds(eb as nat, 400);
                lemma_pow2_strictly_increases((eb + 424) as nat, (exp + 400) as nat);
                lemma_pow2_pos((eb + 400) as nat);
                assert(0 <= y < t) by (nonlinear_arith)
                    requires
                        y == (mb * pb) * big,
                        pb * big == pow2((eb + 400) as nat),
                        pow2((eb + 400) as nat) > 0,
                        0 <= mb < 0x100_0000,
                        0x100_0000 * pow2((eb + 400) as nat) == pow2((eb + 424) as nat),
                        pow2((eb + 424) as nat) < t,
                ;
                assert(mb == 0 ==> y == 0) by (nonlinear_arith)
                    requires
                        y == (mb * pb) * big,
                ;
                if mb > 0 {
                    assert(y > 0) by (nonlinear_arith)
                        requires
                            y == (mb * pb) * big,
                            mb > 0,
                            pb > 0,
                            big > 0,
                    ;
                }
                assert(a * t >= 2 * t) by (nonlinear_arith)
                    requires
                        a >= 2,
                        t > 0,
                ;
                assert(((ma * pa) - (mb * pb)) * big == x - y) by (nonlinear_arith)
                    requires
                        x == (ma * pa) * big,
                        y == (mb * pb) * big,
                ;
                assert(((ma * pa) + (mb * pb)) * big == x + y) by (nonlinear_arith)
                    requires
                        x == (ma * pa) * big,
                        y == (mb * pb) * big,
                ;
                lemma_cancel(0, ma * pa - mb * pb, big);
                lemma_cancel(0, ma * pa, big);
                lemma_cancel(0, mb * pb, big);
                assert(0 * big == 0);
                assert((a + 1) * t == a * t + t) by (nonlinear_arith);
                assert((a - 1) * t == a * t - t) by (nonlinear_arith);
                assert(t * 1 == t);
                assert(sum != 0);
                assert((sum < 0) == na);
            }
            let m: u32 = round_parts(sig, exp, rest, Ghost(n), Ghost(1));
            (na, m)
        }
    }

    /// The sum, rounded.
    #[verifier::when_used_as_spec(spec_plus)]
    pub fn plus(self, other: Single) -> (r: Single)
        ensures
            r == self.spec_plus(other),
    {
        proof {
            reveal(Single::spec_plus);
        }
        let na: bool = self.bits >= SIGN;
        let nb: bool = other.bits >= SIGN;
        if self.is_nan() || other.is_nan() {
            return Single { bits: 0x7fc0_0000 };
        }
        if self.bits % SIGN == INFINITY {
            if other.bits % SIGN == INFINITY && na != nb {
                return Single { bits: 0x7fc0_0000 };
            }
            return self;
        }
        if other.bits % SIGN == INFINITY {
            return other;
        }
        let (negative, m) = if (self.bits % SIGN) / HIDDEN >= (other.bits % SIGN) / HIDDEN {
            self.sum_of(other)
        } else {
            other.sum_of(self)
        };
        let ghost sum = self.value() + other.value();
        proof {
            if sum < 0 {
                lemma_round_ratio(-sum, 1, m as int);
            } else {
                lemma_round_ratio(sum, 1, m as int);
                if sum == 0 {
                    lemma_zero_rounds_to_zero(1);
                    lemma_rounding_is_unique(0, 1, 0, m as int);
                } else if m == 0 {
                    lemma_ulps_step(0);
                }
            }
        }
        if m == 0 {
            Single::build(na && nb, 0)
        } else {
            Single::build(negative, m)
        }
    }

    /// The difference, rounded.
    #[verifier::when_used_as_spec(spec_minus)]
    pub fn minus(self, other: Single) -> (r: Single)
        ensures
            r == self.spec_minus(other),
    {
        self.plus(other.negated())
    }

    /// The square root, rounded.
    #[verifier::when_used_as_spec(spec_sqrt)]
    pub fn sqrt(self) -> (r: Single)
        ensures
            r == self.spec_sqrt(),
    {
        proof {
            reveal(Single::spec_sqrt);
        }
        if self.is_nan() || (self.bits >= SIGN && self.bits % SIGN > 0) {
            return Single { bits: 0x7fc0_0000 };
        }
        if self.bits % SIGN == INFINITY || self.bits % SIGN == 0 {
            return self;
        }
        let (m, e) = self.parts();
        let odd: bool = e % 2 == 0;
        let big: u128 = if odd { 2 * (m as u128) } else { m as u128 };
        let k: u32 = if odd { (e + 148) / 2 } else { (e + 149) / 2 };
        let scale: u128 = 0x10_0000_0000_0000_0000_0000_0000;
        let ghost n = ulps(self.magnitude()) * pow2(149);
        proof {
            vstd::arithmetic::power2::lemma2_to64();
            vstd::arithmetic::power2::lemma2_to64_rest();
            lemma_pow2_adds(36, 64);
            assert(0 < big * scale < 0x200_0000 * scale) by (nonlinear_arith)
                requires
                    0 < big < 0x200_0000,
                    scale > 0,
            ;
        }
        let a: u128 = big * scale;
        let s: u128 = root(a);
        assert(s * s <= 0x4000_0000_0000_0000_0000_0000_0000_0000) by (nonlinear_arith)
            requires
                0 <= s < 0x8000_0000_0000_0000,
        ;
        let rest: bool = s * s != a;
        let j: u32 = k - 50;
        let ghost p = pow2(j as nat) as int;
        let ghost v = (2 * s + if rest { 1int } else { 0int }) * p;
        proof {
            assert(s >= 0x1_0000_0000) by (nonlinear_arith)
                requires
                    a < (s + 1) * (s + 1),
                    a >= scale,
                    scale == 0x10_0000_0000 * 0x1_0000_0000_0000_0000,
                    s >= 0,
            ;
            // the root of `n` is the root of `a` times `p`
            lemma_pow2_adds(e as nat, 149);
            lemma_pow2_adds(j as nat, j as nat);
            lemma_pow2_adds((2 * j) as nat, 100);
            lemma_pow2_unfold((e + 149) as nat);
            let pp = pow2((2 * j) as nat) as int;
            assert(n == m * pow2((e + 149) as nat)) by (nonlinear_arith)
                requires
                    n == (m * pow2(e as nat)) * pow2(149),
                    pow2((e + 149) as nat) == pow2(e as nat) * pow2(149),
            ;
            assert(n == a * (p * p)) by {
                let w = pow2((2 * j + 100) as nat) as int;
                assert(w == (p * p) * scale);
                if odd {
                    assert(2 * j + 100 == e + 148);
                    assert(n == (2 * m) * w) by (nonlinear_arith)
                        requires
                            n == m * (2 * w),
                    ;
                } else {
                    assert(2 * j + 100 == e + 149);
                }
                assert(n == big * w);
                assert(big * w == a * (p * p)) by (nonlinear_arith)
                    requires
                        w == (p * p) * scale,
                        a == big * scale,
                ;
            }
            lemma_pow2_pos(j as nat);
            assert((s * p) * (s * p) == (s * s) * (p * p)) by (nonlinear_arith);
            assert(((s + 1) * p) * ((s + 1) * p) == ((s + 1) * (s + 1)) * (p * p))
                by (nonlinear_arith);
            assert(p * p > 0) by (nonlinear_arith)
                requires
                    p > 0,
            ;
            lemma_cancel(s * s, a as int, p * p);
            lemma_cancel(a as int, (s + 1) * (s + 1), p * p);
            // and the value that is rounded splits at `s`
            lemma_pow2_adds(j as nat, 400);
            lemma_pow2_pos((j + 400) as nat);
            let t = pow2((j + 400) as nat) * 2;
            assert(v * pow2(400) == (2 * s + if rest { 1int } else { 0int }) * pow2(
                (j + 400) as nat,
            )) by (nonlinear_arith)
                requires
                    v == (2 * s + if rest { 1int } else { 0int }) * p,
                    pow2((j + 400) as nat) == p * pow2(400),
            ;
            let w = pow2((j + 400) as nat) as int;
            assert(s * (w * 2) == (2 * s) * w) by (nonlinear_arith);
            assert((s + 1) * (w * 2) == (2 * s) * w + 2 * w) by (nonlinear_arith);
            assert((2 * s + 1) * w == (2 * s) * w + w) by (nonlinear_arith);
        }
        let r: u32 = round_parts(s, j as i32, rest, Ghost(v), Ghost(2));
        proof {
            lemma_root_from_whole(n, s as int, j as int, rest, r as int);
            lemma_round_root(n, r as int);
        }
        Single::build(false, r)
    }

    /// What is left of the number when as many whole `other` as fit are taken out; it has the
    /// number's sign.
    #[verifier::when_used_as_spec(spec_rem)]
    pub fn rem(self, other: Single) -> (r: Single)
        ensures
            r == self.spec_rem(other),
    {
        proof {
            reveal(Single::spec_rem);
        }
        if self.is_nan() || other.is_nan() || self.bits % SIGN == INFINITY || other.bits % SIGN
            == 0 {
            return Single { bits: 0x7fc0_0000 };
        }
        if other.bits % SIGN == INFINITY {
            return self;
        }
        let negative: bool = self.bits >= SIGN;
        let (ma, ea) = self.parts();
        let (mb, eb) = other.parts();
        let ghost a = ulps(self.magnitude());
        let ghost b = ulps(other.magnitude());
        let ghost pa = pow2(ea as nat) as int;
        let ghost pb = pow2(eb as nat) as int;
        proof {
            lemma_pow2_pos(ea as nat);
            lemma_pow2_pos(eb as nat);
        }
        if ea < eb {
            proof {
                lemma_pow2_unfold((ea + 1) as nat);
                if ea + 1 < eb {
                    lemma_pow2_strictly_increases((ea + 1) as nat, eb as nat);
                }
                assert(0 <= a < b) by (nonlinear_arith)
                    requires
                        a == ma * pa,
                        b == mb * pb,
                        0 <= ma < 0x100_0000,
                        mb >= 0x80_0000,
                        pb >= 2 * pa,
                        pa > 0,
                ;
                vstd::arithmetic::div_mod::lemma_small_mod(a as nat, b as nat);
                lemma_exact(self.magnitude());
                lemma_round_ratio(a, 1, self.magnitude());
            }
            return self;
        }
        let mut acc: u64 = ma as u64 % mb as u64;
        let mut i: u32 = 0;
        proof {
            vstd::arithmetic::power2::lemma2_to64();
            assert(ma * 1 == ma);
        }
        while i < ea - eb
            invariant
                eb <= ea <= 253,
                i <= ea - eb,
                0 < mb < 0x100_0000,
                acc < mb,
                acc == (ma * pow2(i as nat)) % (mb as int),
            decreases ea - eb - i,
        {
            proof {
                lemma_pow2_unfold((i + 1) as nat);
                let x = ma * pow2(i as nat);
                vstd::arithmetic::div_mod::lemma_mul_mod_noop_right(2, x, mb as int);
                assert(ma * (2 * pow2(i as nat)) == 2 * x) by (nonlinear_arith)
                    requires
                        x == ma * pow2(i as nat),
                ;
            }
            acc = (2 * acc) % (mb as u64);
            i = i + 1;
        }
        proof {
            let k = (ea - eb) as nat;
            lemma_pow2_adds(k, eb as nat);
            let x = ma * pow2(k);
            lemma_pow2_pos(k);
            assert(a == pb * x) by (nonlinear_arith)
                requires
                    a == ma * pa,
                    pa == pow2(k) * pb,
                    x == ma * pow2(k),
            ;
            assert(b == pb * mb) by (nonlinear_arith)
                requires
                    b == mb * pb,
            ;
            assert(x >= 0) by (nonlinear_arith)
                requires
                    x == ma * pow2(k),
                    ma >= 0,
                    pow2(k) > 0,
            ;
            vstd::arithmetic::div_mod::lemma_truncate_middle(x, pb, mb as int);
            assert(a % b == pb * acc);
            lemma_pow2_adds(eb as nat, 400);
            lemma_pow2_pos((eb + 400) as nat);
            let t = pow2((eb + 400) as nat) as int;
            assert((pb * acc) * pow2(400) == acc * t) by (nonlinear_arith)
                requires
                    t == pb * pow2(400),
            ;
            assert(t * 1 == t);
            assert((acc + 1) * t == acc * t + t) by (nonlinear_arith);
        }
        let m: u32 = round_parts(acc as u128, eb as i32, false, Ghost(a % b), Ghost(1));
        proof {
            lemma_round_ratio(a % b, 1, m as int);
        }
        Single::build(negative, m)
    }

    /// The remainder that is not below zero.
    #[verifier::when_used_as_spec(spec_rem_euclid)]
    pub fn rem_euclid(self, other: Single) -> (r: Single)
        ensures
            r == self.spec_rem_euclid(other),
    {
        let r: Single = self.rem(other);
        if r.lt(num(0)) {
            r.plus(other.abs())
        } else {
            r
        }
    }

    /// The number nearest to an integer.
    pub fn from_int(n: i128) -> (r: Single)
        requires
            n > i128::MIN,
        ensures
            r == Single::spec_from_int(n as int),
            r.negative() == (n < 0),
            rounds_to((if n < 0 { -n } else { n as int }) * pow2(149), 1, r.magnitude()),
    {
        proof {
            reveal(Single::spec_from_int);
        }
        let sig: u128 = (if n < 0 { -n } else { n }) as u128;
        let ghost v = sig * pow2(149);
        proof {
            lemma_pow2_adds(149, 400);
            let t = pow2(549) as int;
            lemma_pow2_pos(549);
            assert(v * pow2(400) == sig * t) by (nonlinear_arith)
                requires
                    v == sig * pow2(149),
                    t == pow2(149) * pow2(400),
            ;
            assert(t * 1 == t);
            assert((sig + 1) * t == sig * t + t) by (nonlinear_arith);
        }
        let m: u32 = round_parts(sig, 149, false, Ghost(v), Ghost(1));
        proof {
            lemma_round_ratio(v, 1, m as int);
        }
        Single::build(n < 0, m)
    }

    /// The size of a finite number as a whole number, at most two to the power 63: cut off, or
    /// rounded with halves going up.
    fn whole(self, round: bool) -> (r: u64)
        requires
            self.magnitude() < INFINITY,
        ensures
            ({
                let u = ulps(self.magnitude());
                let p = pow2(149) as int;
                let w = if round { (2 * u + p) / (2 * p) } else { u / p };
                w >= 0 && r == within(w, 0, 0x8000_0000_0000_0000)
            }),
    {
        let (m, e) = self.parts();
        let ghost u = ulps(self.magnitude());
        let ghost p = pow2(149) as int;
        let ghost pe = pow2(e as nat) as int;
        proof {
            lemma_pow2_pos(149);
            lemma_pow2_pos(e as nat);
            vstd::arithmetic::power2::lemma2_to64();
            vstd::arithmetic::power2::lemma2_to64_rest();
            lemma_ulps_step(self.magnitude());
            assert(u / p >= 0 && (2 * u + p) / (2 * p) >= 0) by (nonlinear_arith)
                requires
                    u >= 0,
                    p > 0,
            ;
        }
        if e >= 149 {
            let ghost w = m * pow2((e - 149) as nat);
            proof {
                lemma_pow2_adds((e - 149) as nat, 149);
                lemma_pow2_pos((e - 149) as nat);
                assert(u == w * p) by (nonlinear_arith)
                    requires
                        u == m * pe,
                        pe == pow2((e - 149) as nat) * p,
                        w == m * pow2((e - 149) as nat),
                ;
                assert(u / p == w) by (nonlinear_arith)
                    requires
                        u == w * p,
                        p > 0,
                ;
                assert((2 * u + p) / (2 * p) == w) by (nonlinear_arith)
                    requires
                        u == w * p,
                        p > 0,
                ;
            }
            if e - 149 >= 40 {
                proof {
                    if e - 149 > 40 {
                        lemma_pow2_strictly_increases(40, (e - 149) as nat);
                    }
                    assert(w >= 0x80_0000 * 0x100_0000_0000) by (nonlinear_arith)
                        requires
                            w == m * pow2((e - 149) as nat),
                            m >= 0x80_0000 || w == 0,
                            m >= 0x80_0000,
                            pow2((e - 149) as nat) >= 0x100_0000_0000,
                    ;
                }
                0x8000_0000_0000_0000
            } else {
                let scale: u128 = power(e - 149);
                proof {
                    lemma_pow2_strictly_increases((e - 149) as nat, 40);
                    assert(0 <= m * scale < 0x100_0000 * 0x100_0000_0000) by (nonlinear_arith)
                        requires
                            0 <= m < 0x100_0000,
                            0 <= scale < 0x100_0000_0000,
                    ;
                }
                let r: u128 = (m as u128) * scale;
                if r >= 0x8000_0000_0000_0000 {
                    0x8000_0000_0000_0000
                } else {
                    r as u64
                }
            }
        } else {
            let j: u32 = 149 - e;
            let ghost pj = pow2(j as nat) as int;
            proof {
                lemma_pow2_adds(e as nat, j as nat);
                lemma_pow2_pos(j as nat);
                vstd::arithmetic::div_mod::lemma_div_multiples_vanish_quotient(pe, m as int, pj);
                assert(u == pe * m) by (nonlinear_arith)
                    requires
                        u == m * pe,
                ;
                vstd::arithmetic::div_mod::lemma_div_multiples_vanish_quotient(
                    pe, 2 * m + pj, 2 * pj);
                assert(2 * u + p == pe * (2 * m + pj)) by (nonlinear_arith)
                    requires
                        u == m * pe,
                        p == pe * pj,
                ;
                assert(2 * p == pe * (2 * pj)) by (nonlinear_arith)
                    requires
                        p == pe * pj,
                ;
            }
            if j > 64 {
                proof {
                    lemma_pow2_strictly_increases(64, j as nat);
                    assert(m as int / pj == 0) by (nonlinear_arith)
                        requires
                            0 <= m < pj,
                    ;
                    assert((2 * m + pj) / (2 * pj) == 0) by (nonlinear_arith)
                        requires
                            0 <= 2 * m < pj,
                    ;
                }
                0
            } else {
                let scale: u128 = power(j);
                proof {
                    if j < 64 {
                        lemma_pow2_strictly_increases(j as nat, 64);
                    }
                }
                let r: u128 = if round {
                    (2 * (m as u128) + scale) / (2 * scale)
                } else {
                    (m as u128) / scale
                };
                assert(0 <= r < 0x200_0000) by (nonlinear_arith)
                    requires
                        0 <= m < 0x100_0000,
                        scale > 0,
                        r == (2 * m + scale) / (2 * scale) || r == m as int / scale as int,
                ;
                r as u64
            }
        }
    }

    /// The nearest whole number, halves away from zero.
    #[verifier::when_used_as_spec(spec_round)]
    pub fn round(self) -> (r: Single)
        ensures
            r == self.spec_round(),
    {
        proof {
            reveal(Single::spec_round);
            reveal(Single::spec_from_int);
        }
        if self.is_nan() || self.bits % SIGN == INFINITY {
            return self;
        }
        let w: u64 = self.whole(true);
        let ghost m = self.magnitude();
        if self.bits % SIGN >= 0x4b00_0000 {
            proof {
                // from here on every number is whole
                let h = HIDDEN as int;
                let e = m / h - 1;
                let c = h + m % h;
                lemma_pow2_adds((e - 149) as nat, 149);
                lemma_pow2_pos(149);
                let p = pow2(149) as int;
                let k = c * pow2((e - 149) as nat);
                assert(ulps(m) == k * p) by (nonlinear_arith)
                    requires
                        ulps(m) == c * pow2(e as nat),
                        pow2(e as nat) == pow2((e - 149) as nat) * p,
                        k == c * pow2((e - 149) as nat),
                ;
                assert((2 * (k * p) + p) / (2 * p) == k) by (nonlinear_arith)
                    requires
                        p > 0,
                ;
                lemma_exact(m);
                lemma_round_ratio(ulps(m), 1, m);
            }
            return self;
        }
        let r: Single = Single::from_int(w as i128);
        proof {
            lemma_small_whole(m);
            lemma_round_ratio(w * pow2(149), 1, r.magnitude());
        }
        if self.bits >= SIGN {
            r.negated()
        } else {
            r
        }
    }

    /// The smallest whole number that is not less, as a `u32`.
    pub fn ceil_u32(self) -> (r: u32)
        ensures
            r == self.raised(0, u32::MAX as int),
    {
        proof {
            reveal(Single::raised);
        }
        if self.is_nan() || self.bits >= SIGN {
            proof {
                lemma_pow2_pos(149);
                lemma_ulps_step(self.magnitude());
                assert(ulps(self.magnitude()) / pow2(149) as int >= 0) by (nonlinear_arith)
                    requires
                        ulps(self.magnitude()) >= 0,
                        pow2(149) > 0,
                ;
            }
            return 0;
        }
        if self.bits % SIGN == INFINITY {
            return u32::MAX;
        }
        let w: u64 = self.whole(false);
        let ghost u = ulps(self.magnitude());
        let ghost p = pow2(149) as int;
        proof {
            lemma_pow2_pos(149);
            lemma_ulps_step(self.magnitude());
            vstd::arithmetic::div_mod::lemma_fundamental_div_mod(u, p);
            vstd::arithmetic::div_mod::lemma_mod_bound(u, p);
            let k = u / p;
            if u % p == 0 {
                assert((u + p - 1) / p == k) by (nonlinear_arith)
                    requires
                        u == p * k,
                        p > 0,
                ;
            } else {
                assert((u + p - 1) / p == k + 1) by (nonlinear_arith)
                    requires
                        u == p * k + u % p,
                        1 <= u % p < p,
                ;
            }
        }
        if w >= u32::MAX as u64 {
            return u32::MAX;
        }
        if self.is_whole() {
            w as u32
        } else {
            w as u32 + 1
        }
    }

    /// A finite number has no fraction.
    fn is_whole(self) -> (r: bool)
        requires
            self.magnitude() < INFINITY,
        ensures
            r == (ulps(self.magnitude()) % pow2(149) as int == 0),
    {
        let (m, e) = self.parts();
        let ghost u = ulps(self.magnitude());
        let ghost p = pow2(149) as int;
        let ghost pe = pow2(e as nat) as int;
        proof {
            lemma_pow2_pos(149);
            lemma_pow2_pos(e as nat);
            vstd::arithmetic::power2::lemma2_to64();
        }
        if e >= 149 {
            proof {
                lemma_pow2_adds((e - 149) as nat, 149);
                let k = m * pow2((e - 149) as nat);
                assert(u == k * p) by (nonlinear_arith)
                    requires
                        u == m * pe,
                        pe == pow2((e - 149) as nat) * p,
                        k == m * pow2((e - 149) as nat),
                ;
                vstd::arithmetic::div_mod::lemma_mod_multiples_basic(k, p);
            }
            return true;
        }
        let j: u32 = 149 - e;
        proof {
            lemma_pow2_adds(e as nat, j as nat);
            lemma_pow2_pos(j as nat);
            vstd::arithmetic::div_mod::lemma_truncate_middle(m as int, pe, pow2(j as nat) as int);
            assert(u == pe * m) by (nonlinear_arith)
                requires
                    u == m * pe,
            ;
            let pj = pow2(j as nat) as int;
            let rem = m as int % pj;
            assert((pe * rem == 0) == (rem == 0)) by (nonlinear_arith)
                requires
                    pe > 0,
            ;
        }
        if j > 64 {
            proof {
                lemma_pow2_strictly_increases(64, j as nat);
                vstd::arithmetic::div_mod::lemma_small_mod(m as nat, pow2(j as nat));
            }
            m == 0
        } else {
            let scale: u128 = power(j);
            (m as u128) % scale == 0
        }
    }

    /// The whole part as an `i64`.
    pub fn to_i64(self) -> (r: i64)
        ensures
            r == self.truncated(i64::MIN as int, i64::MAX as int),
    {
        proof {
            reveal(Single::truncated);
        }
        if self.is_nan() {
            return 0;
        }
        if self.bits % SIGN == INFINITY {
            return if self.bits >= SIGN { i64::MIN } else { i64::MAX };
        }
        let w: u64 = self.whole(false);
        if self.bits >= SIGN {
            (-(w as i128)) as i64
        } else if w >= 0x8000_0000_0000_0000 {
            i64::MAX
        } else {
            w as i64
        }
    }

    /// The nearest whole number as an `i64`, halves away from zero.
    pub fn round_i64(self) -> (r: i64)
        ensures
            r == self.rounded(i64::MIN as int, i64::MAX as int),
    {
        proof {
            reveal(Single::rounded);
        }
        if self.is_nan() {
            return 0;
        }
        if self.bits % SIGN == INFINITY {
            return if self.bits >= SIGN { i64::MIN } else { i64::MAX };
        }
        let w: u64 = self.whole(true);
        if self.bits >= SIGN {
            (-(w as i128)) as i64
        } else if w >= 0x8000_0000_0000_0000 {
            i64::MAX
        } else {
            w as i64
        }
    }

    /// The whole part as an `i32`.
    pub fn to_i32(self) -> (r: i32)
        ensures
            r == self.truncated(i32::MIN as int, i32::MAX as int),
    {
        proof {
            reveal(Single::truncated);
        }
        let w: i64 = self.to_i64();
        if w < i32::MIN as i64 {
            i32::MIN
        } else if w > i32::MAX as i64 {
            i32::MAX
        } else {
            w as i32
        }
    }

    /// The whole part as a `u32`.
    pub fn to_u32(self) -> (r: u32)
        ensures
            r == self.truncated(0, u32::MAX as int),
    {
        proof {
            reveal(Single::truncated);
        }
        let w: i64 = self.to_i64();
        if w < 0 {
            0
        } else if w > u32::MAX as i64 {
            u32::MAX
        } else {
            w as u32
        }
    }

    /// The whole part as a byte.
    pub fn to_u8(self) -> (r: u8)
        ensures
            r == self.truncated(0, 255),
    {
        proof {
            reveal(Single::truncated);
        }
        let w: i64 = self.to_i64();
        if w < 0 {
            0
        } else if w > 255 {
            255
        } else {
            w as u8
        }
    }

    /// The nearest whole number as a `u32`, halves away from zero.
    pub fn round_u32(self) -> (r: u32)
        ensures
            r == self.rounded(0, u32::MAX as int),
    {
        proof {
            reveal(Single::rounded);
        }
        let w: i64 = self.round_i64();
        if w < 0 {
            0
        } else if w > u32::MAX as i64 {
            u32::MAX
        } else {
            w as u32
        }
    }
}

/// Comparing numbers compares what they stand for: for finite numbers, less-than on `Single`
/// is less-than on their values.
pub proof fn law_order_is_numeric(a: Single, b: Single)
    requires
        a.magnitude() < INFINITY,
        b.magnitude() < INFINITY,
    ensures
        a.lt(b) == (a.value() < b.value()),
        a.le(b) == (a.value() <= b.value()),
        a.same(b) == (a.value() == b.value()),
{
    let x = a.magnitude();
    let y = b.magnitude();
    lemma_ulps_step(x);
    lemma_ulps_step(y);
    lemma_zero_magnitude(x);
    lemma_zero_magnitude(y);
    if x < y {
        lemma_ulps_monotone(x, y);
    } else if y < x {
        lemma_ulps_monotone(y, x);
    }
}

/// Only the pattern of zero has no size.
pub proof fn lemma_zero_magnitude(x: int)
    requires
        0 <= x,
    ensures
        ulps(x) == 0 <==> x == 0,
{
    if x > 0 {
        lemma_ulps_monotone(0, x);
    }
}

/// A sum does not depend on the order of its terms.
pub proof fn law_sum_commutes(a: Single, b: Single)
    requires
        !a.is_nan(),
        !b.is_nan(),
    ensures
        a.plus(b) == b.plus(a),
{
    reveal(Single::spec_plus);
}

proof fn lemma_rounding_below(n: int, d: int, m: int)
    requires
        0 <= n,
        0 < d,
        0 <= m <= INFINITY,
        m < INFINITY ==> {
            let high = (ulps(m) + ulps(m + 1)) * d;
            2 * n < high || (2 * n == high && m % 2 == 0)
        },
    ensures
        exists|r: int| rounds_to(n, d, r),
    decreases m,
{
    let low = (ulps(m - 1) + ulps(m)) * d;
    if m == 0 || low < 2 * n || (low == 2 * n && m % 2 == 0) {
        assert(rounds_to(n, d, m));
    } else {
        lemma_rounding_below(n, d, m - 1);
    }
}

/// Every ratio rounds to a pattern.
pub proof fn law_every_ratio_rounds(n: int, d: int)
    requires
        0 <= n,
        0 < d,
    ensures
        rounds_to(n, d, round_ratio(n, d)),
{
    lemma_rounding_below(n, d, INFINITY as int);
}

proof fn lemma_representable(c: int, q: int) -> (m: int)
    requires
        0 <= c <= 2 * HIDDEN,
        0 <= q <= 200,
    ensures
        0 <= m < INFINITY,
        ulps(m) == c * pow2(q as nat),
    decreases q,
{
    if q == 0 || c >= HIDDEN {
        lemma_ulps_form(q, c);
        q * HIDDEN + c
    } else {
        lemma_pow2_unfold(q as nat);
        assert(c * (2 * pow2((q - 1) as nat)) == (2 * c) * pow2((q - 1) as nat)) by (nonlinear_arith);
        lemma_representable(2 * c, q - 1)
    }
}

/// Whole numbers up to two to the power 24 are held exactly.
pub proof fn law_small_integers_are_exact(n: int)
    requires
        0 <= n <= 0x100_0000,
    ensures
        Single::spec_from_int(n).value() == n * pow2(149),
        Single::spec_from_int(n).magnitude() < INFINITY,
        !Single::spec_from_int(n).negative(),
{
    reveal(Single::spec_from_int);
    let m = lemma_representable(n, 149);
    lemma_exact(m);
    lemma_round_ratio(n * pow2(149), 1, m);
}

/// Sums of whole numbers are exact up to two to the power 24.
pub proof fn law_small_sums_are_exact(a: int, b: int)
    requires
        0 <= a,
        0 <= b,
        a + b <= 0x100_0000,
    ensures
        Single::spec_from_int(a).plus(Single::spec_from_int(b)) == Single::spec_from_int(a + b),
{
    law_small_integers_are_exact(a);
    law_small_integers_are_exact(b);
    law_small_integers_are_exact(a + b);
    let p = pow2(149) as int;
    lemma_pow2_pos(149);
    assert(a * p + b * p == (a + b) * p) by (nonlinear_arith);
    assert((a + b) * p * 1 == (a + b) * p);
    reveal(Single::spec_plus);
    reveal(Single::spec_from_int);
    if a + b == 0 {
        lemma_zero_rounds_to_zero(1);
        lemma_round_ratio(0, 1, 0);
        assert(0 * p == 0);
    } else {
        assert((a + b) * p > 0) by (nonlinear_arith)
            requires
                a + b > 0,
                p > 0,
        ;
    }
}

/// What is at most 60, or not a number, is at most 60 when rounded.
pub proof fn lemma_sixty_is_whole(v: Single)
    requires
        v.is_nan() || v.le(num(0x4270_0000)),
    ensures
        v.round().truncated(i32::MIN as int, i32::MAX as int) <= 60,
{
    reveal(Single::spec_round);
    reveal(Single::truncated);
    let p = pow2(149) as int;
    lemma_pow2_pos(149);
    vstd::arithmetic::power2::lemma2_to64();
    let m = v.magnitude();
    let u = ulps(m);
    let k = (2 * u + p) / (2 * p);
    lemma_ulps_step(m);
    assert(k >= 0) by (nonlinear_arith)
        requires
            k == (2 * u + p) / (2 * p),
            0 <= u,
            p > 0,
    ;
    assert(k * p >= 0) by (nonlinear_arith)
        requires
            k >= 0,
            p > 0,
    ;
    let r = v.round();
    if v.is_nan() || v.infinite() {
    } else if v.negative() {
        law_every_ratio_rounds(k * p, 1);
        let w = ulps(r.magnitude());
        lemma_ulps_step(r.magnitude());
        assert(w / p >= 0) by (nonlinear_arith)
            requires
                w >= 0,
                p > 0,
        ;
    } else {
        lemma_pow2_adds(131, 18);
        lemma_ulps_form(131, 0xf0_0000);
        if m < 0x4270_0000 {
            lemma_ulps_monotone(m, 0x4270_0000);
        }
        assert(u <= 60 * p) by (nonlinear_arith)
            requires
                u <= 0xf0_0000 * pow2(131),
                p == pow2(131) * 0x4_0000,
        ;
        assert(0 <= k <= 60) by (nonlinear_arith)
            requires
                k == (2 * u + p) / (2 * p),
                0 <= u <= 60 * p,
                p > 0,
        ;
        let e = lemma_representable(k, 149);
        lemma_exact(e);
        lemma_round_ratio(k * p, 1, e);
        assert((k * p) / p == k) by (nonlinear_arith)
            requires
                p > 0,
        ;
    }
}

/// One times a number is the number.
pub proof fn law_one_is_neutral(x: Single)
    requires
        !x.is_nan(),
    ensures
        x.times(num(0x3f80_0000)) == x,
        num(0x3f80_0000).times(x) == x,
{
    reveal(Single::spec_times);
    let m = x.magnitude();
    let p = pow2(149) as int;
    lemma_pow2_pos(149);
    lemma_ulps_form(126, HIDDEN as int);
    lemma_pow2_adds(126, 23);
    vstd::arithmetic::power2::lemma2_to64();
    assert(ulps(0x3f80_0000) == p) by (nonlinear_arith)
        requires
            ulps(0x3f80_0000) == HIDDEN * pow2(126),
            p == pow2(126) * pow2(23),
            pow2(23) == 0x80_0000,
            HIDDEN == 0x80_0000,
    ;
    if m < INFINITY {
        lemma_exact_ratio(m, p);
        assert(ulps(m) * p == p * ulps(m)) by (nonlinear_arith);
        lemma_round_ratio(ulps(m) * p, p, m);
    }
}

/// A ratio that a pattern stands for rounds to the pattern.
pub proof fn lemma_exact_ratio(m: int, d: int)
    requires
        0 <= m < INFINITY,
        0 < d,
    ensures
        rounds_to(ulps(m) * d, d, m),
{
    if m > 0 {
        lemma_ulps_step(m - 1);
        assert((ulps(m - 1) + ulps(m)) * d < 2 * (ulps(m) * d)) by (nonlinear_arith)
            requires
                ulps(m - 1) < ulps(m),
                0 < d,
        ;
    }
    lemma_ulps_step(m);
    assert(2 * (ulps(m) * d) < (ulps(m) + ulps(m + 1)) * d) by (nonlinear_arith)
        requires
            ulps(m) < ulps(m + 1),
            0 < d,
    ;
}

/// Zero times a finite number is zero.
pub proof fn law_zero_times_is_zero(x: Single)
    requires
        x.magnitude() < INFINITY,
    ensures
        x.times(num(0)).same(num(0)),
        num(0).times(x).same(num(0)),
{
    reveal(Single::spec_times);
    lemma_pow2_pos(149);
    lemma_zero_rounds_to_zero(pow2(149) as int);
    lemma_round_ratio(0, pow2(149) as int, 0);
    assert(ulps(x.magnitude()) * 0 == 0);
    assert(0 * ulps(x.magnitude()) == 0);
}

/// A zero of either sign times a finite number is zero.
pub proof fn lemma_any_zero_times_is_zero(z: Single, x: Single)
    requires
        z.same(num(0)),
        x.magnitude() < INFINITY,
    ensures
        z.times(x).same(num(0)),
{
    reveal(Single::spec_times);
    lemma_pow2_pos(149);
    lemma_zero_magnitude(z.magnitude());
    lemma_zero_rounds_to_zero(pow2(149) as int);
    lemma_round_ratio(0, pow2(149) as int, 0);
    assert(0 * ulps(x.magnitude()) == 0);
}

/// A number plus zero is the number, whatever the sign of the zero; of a zero it is a zero.
pub proof fn law_zero_is_neutral(x: Single, z: Single)
    requires
        !x.is_nan(),
        z.same(num(0)),
    ensures
        x.plus(z).same(x),
        !x.same(num(0)) ==> x.plus(z) == x,
        !x.same(num(0)) ==> z.plus(x) == x,
{
    reveal(Single::spec_plus);
    let m = x.magnitude();
    lemma_zero_magnitude(m);
    if m < INFINITY {
        lemma_ulps_step(m);
        lemma_exact_ratio(m, 1);
        lemma_round_ratio(ulps(m) * 1, 1, m);
    }
}

/// Rounding keeps a small whole number, and its whole part is the number.
pub proof fn law_small_integers_are_whole(n: int, lo: int, hi: int)
    requires
        0 <= n <= 0x100_0000,
    ensures
        Single::spec_from_int(n).round() == Single::spec_from_int(n),
        Single::spec_from_int(n).truncated(lo, hi) == within(n, lo, hi),
{
    law_small_integers_are_exact(n);
    reveal(Single::spec_round);
    reveal(Single::spec_from_int);
    reveal(Single::truncated);
    let p = pow2(149) as int;
    lemma_pow2_pos(149);
    assert((n * p) / p == n) by (nonlinear_arith)
        requires
            p > 0,
    ;
    assert((2 * (n * p) + p) / (2 * p) == n) by (nonlinear_arith)
        requires
            p > 0,
    ;
}

/// A zero of either sign stays a zero when it is rounded, and its whole part is zero.
pub proof fn law_zero_becomes_zero(v: Single)
    requires
        v.same(num(0)),
    ensures
        v.round() == v,
        forall|lo: int, hi: int| lo <= 0 <= hi ==> #[trigger] v.truncated(lo, hi) == 0,
{
    reveal(Single::spec_round);
    reveal(Single::truncated);
    lemma_zero_magnitude(0);
    let p = pow2(149) as int;
    lemma_pow2_pos(149);
    assert(0int / p == 0) by (nonlinear_arith)
        requires
            p > 0,
    ;
    assert((2 * 0 + p) / (2 * p) == 0) by (nonlinear_arith)
        requires
            p > 0,
    ;
    assert(0 * p == 0);
    lemma_zero_rounds_to_zero(1);
    lemma_round_ratio(0, 1, 0);
}

/// A byte is within the range of the bytes.
pub proof fn law_bytes_are_in_range(n: int)
    requires
        0 <= n <= 255,
    ensures
        Single::spec_from_int(n).clamp(num(0), num(0x437f_0000)) == Single::spec_from_int(n),  // 255
{
    law_small_integers_are_exact(n);
    let x = Single::spec_from_int(n);
    let p = pow2(149) as int;
    lemma_pow2_pos(149);
    lemma_pow2_adds(133, 16);
    lemma_ulps_form(133, 0xff_0000);
    vstd::arithmetic::power2::lemma2_to64();
    assert(ulps(0x437f_0000) == 255 * p) by (nonlinear_arith)
        requires
            ulps(0x437f_0000) == 0xff_0000 * pow2(133),
            p == pow2(133) * 0x1_0000,
    ;
    assert(0 <= n * p <= 255 * p) by (nonlinear_arith)
        requires
            0 <= n <= 255,
            p > 0,
    ;
    law_order_is_numeric(x, num(0));
    law_order_is_numeric(num(0x437f_0000), x);  // 255
}

/// A difference of small whole numbers is exact where it is not negative.
pub proof fn law_small_differences_are_exact(a: int, b: int)
    requires
        0 <= b <= a <= 0x100_0000,
    ensures
        Single::spec_from_int(a).minus(Single::spec_from_int(b)) == Single::spec_from_int(a - b),
{
    law_small_integers_are_exact(a);
    law_small_integers_are_exact(b);
    law_small_integers_are_exact(a - b);
    reveal(Single::spec_plus);
    reveal(Single::spec_from_int);
    let p = pow2(149) as int;
    lemma_pow2_pos(149);
    assert(a * p - b * p == (a - b) * p) by (nonlinear_arith);
    if a == b {
        lemma_zero_rounds_to_zero(1);
        lemma_round_ratio(0, 1, 0);
        assert(0 * p == 0);
    } else {
        assert((a - b) * p > 0) by (nonlinear_arith)
            requires
                a - b > 0,
                p > 0,
        ;
    }
}

/// One is the number one.
pub proof fn lemma_one()
    ensures
        Single::spec_from_int(1) == num(0x3f80_0000),
{
    law_small_integers_are_exact(1);
    let p = pow2(149) as int;
    lemma_pow2_pos(149);
    lemma_ulps_form(126, HIDDEN as int);
    lemma_pow2_adds(126, 23);
    vstd::arithmetic::power2::lemma2_to64();
    assert(ulps(0x3f80_0000) == p) by (nonlinear_arith)
        requires
            ulps(0x3f80_0000) == HIDDEN * pow2(126),
            p == pow2(126) * pow2(23),
            pow2(23) == 0x80_0000,
            HIDDEN == 0x80_0000,
    ;
    law_order_is_numeric(Single::spec_from_int(1), num(0x3f80_0000));
}

/// Rounding keeps the order.
pub proof fn lemma_rounding_keeps_order(a: int, b: int, d: int)
    requires
        0 <= a <= b,
        0 < d,
    ensures
        0 <= round_ratio(a, d) <= round_ratio(b, d) <= INFINITY,
{
    law_every_ratio_rounds(a, d);
    law_every_ratio_rounds(b, d);
    let x = round_ratio(a, d);
    let y = round_ratio(b, d);
    if x > y {
        lemma_ulps_step(y);
        lemma_ulps_step(x - 1);
        let high = ulps(y) + ulps(y + 1);
        let low = ulps(x - 1) + ulps(x);
        if y + 1 < x {
            lemma_ulps_monotone(y, x - 1);
            lemma_ulps_monotone(y + 1, x);
            assert(high * d < low * d) by (nonlinear_arith)
                requires
                    high < low,
                    d > 0,
            ;
        } else {
            assert(x % 2 == 0 && y % 2 == 0);
        }
    }
}

/// A product with a number that is not negative keeps the order of numbers that are not
/// negative.
pub proof fn law_products_keep_order(a: Single, b: Single, x: Single)
    requires
        num(0).le(a),
        a.le(b),
        b.magnitude() < INFINITY,
        num(0).le(x),
        x.magnitude() < INFINITY,
    ensures
        a.times(x).le(b.times(x)),
        num(0).le(a.times(x)),
{
    reveal(Single::spec_times);
    let p = pow2(149) as int;
    lemma_pow2_pos(149);
    lemma_zero_magnitude(0);
    let u = ulps(a.magnitude());
    let v = ulps(b.magnitude());
    let w = ulps(x.magnitude());
    lemma_ulps_step(a.magnitude());
    lemma_ulps_step(b.magnitude());
    lemma_ulps_step(x.magnitude());
    if a.magnitude() < b.magnitude() {
        lemma_ulps_monotone(a.magnitude(), b.magnitude());
    }
    assert(0 <= u * w <= v * w) by (nonlinear_arith)
        requires
            0 <= u <= v,
            0 <= w,
    ;
    lemma_rounding_keeps_order(u * w, v * w, p);
    lemma_zero_rounds_to_zero(p);
    lemma_round_ratio(0, p, 0);
    if u == 0 || w == 0 {
        assert(u * w == 0) by (nonlinear_arith)
            requires
                u == 0 || w == 0,
        ;
    }
    if v == 0 || w == 0 {
        assert(v * w == 0) by (nonlinear_arith)
            requires
                v == 0 || w == 0,
        ;
    }
    lemma_zero_magnitude(a.magnitude());
    lemma_zero_magnitude(b.magnitude());
    lemma_zero_magnitude(x.magnitude());
}

/// A sum with a number keeps the order.
pub proof fn law_sums_keep_order(a: Single, b: Single, x: Single)
    requires
        a.le(b),
        a.magnitude() < INFINITY,
        b.magnitude() < INFINITY,
        x.magnitude() < INFINITY,
    ensures
        a.plus(x).le(b.plus(x)),
        x.plus(a).le(x.plus(b)),
{
    reveal(Single::spec_plus);
    law_order_is_numeric(a, b);
    let s = a.value() + x.value();
    let t = b.value() + x.value();
    lemma_zero_rounds_to_zero(1);
    lemma_round_ratio(0, 1, 0);
    if s > 0 {
        lemma_rounding_keeps_order(s, t, 1);
    } else if t < 0 {
        lemma_rounding_keeps_order(-t, -s, 1);
    } else {
        lemma_rounding_keeps_order(0, t, 1);
        lemma_rounding_keeps_order(0, -s, 1);
    }
}

/// The whole part of a number is not above that of a larger one.
pub proof fn law_whole_parts_keep_order(a: Single, b: Single, lo: int, hi: int)
    requires
        a.le(b),
        lo <= 0 <= hi,
    ensures
        a.truncated(lo, hi) <= b.truncated(lo, hi),
{
    reveal(Single::truncated);
    let p = pow2(149) as int;
    lemma_pow2_pos(149);
    let x = ulps(a.magnitude());
    let y = ulps(b.magnitude());
    lemma_ulps_step(a.magnitude());
    lemma_ulps_step(b.magnitude());
    assert(x / p >= 0) by (nonlinear_arith)
        requires
            x >= 0,
            p > 0,
    ;
    assert(y / p >= 0) by (nonlinear_arith)
        requires
            y >= 0,
            p > 0,
    ;
    if a.magnitude() < b.magnitude() {
        lemma_ulps_monotone(a.magnitude(), b.magnitude());
        vstd::arithmetic::div_mod::lemma_div_is_ordered(x, y, p);
    } else if b.magnitude() < a.magnitude() {
        lemma_ulps_monotone(b.magnitude(), a.magnitude());
        vstd::arithmetic::div_mod::lemma_div_is_ordered(y, x, p);
    }
}

/// The whole part of a small positive number is small, and not above the number.
pub proof fn lemma_small_whole_part(x: Single)
    requires
        x.gt(num(0)),
        x.lt(num(0x4b00_0000)),  // 8388608
    ensures
        forall|lo: int, hi: int|
            lo <= 0 && 0x80_0000 <= hi ==> 0 <= #[trigger] x.truncated(lo, hi) < 0x80_0000
                && x.truncated(lo, hi) == x.truncated(0, 0x80_0000)
                && !Single::spec_from_int(x.truncated(lo, hi)).gt(x),
{
    reveal(Single::truncated);
    let p = pow2(149) as int;
    lemma_pow2_pos(149);
    lemma_ulps_form(149, HIDDEN as int);
    lemma_ulps_monotone(x.magnitude(), 0x4b00_0000);
    let u = ulps(x.magnitude());
    let k = u / p;
    assert(0 <= k < 0x80_0000 && k * p <= u) by (nonlinear_arith)
        requires
            k == u / p,
            0 <= u < 0x80_0000 * p,
            p > 0,
    ;
    law_small_integers_are_exact(k);
    law_order_is_numeric(x, Single::spec_from_int(k));
}

/// The difference of two small whole numbers is finite.
pub proof fn law_small_differences_are_finite(a: int, b: int)
    requires
        0 <= a <= 0x100_0000,
        0 <= b <= 0x100_0000,
    ensures
        Single::spec_from_int(a).minus(Single::spec_from_int(b)).magnitude() < INFINITY,
{
    law_small_integers_are_exact(a);
    law_small_integers_are_exact(b);
    reveal(Single::spec_plus);
    let p = pow2(149) as int;
    lemma_pow2_pos(149);
    let n = if a < b { b - a } else { a - b };
    let m = lemma_representable(n, 149);
    lemma_exact(m);
    lemma_round_ratio(n * p, 1, m);
    assert(a * p - b * p == (a - b) * p) by (nonlinear_arith);
    assert(-((a - b) * p) == (b - a) * p) by (nonlinear_arith);
}

/// Sums of whole numbers are exact up to two to the power 24, whatever their signs.
pub proof fn law_whole_sums_are_exact(x: Single, y: Single, a: int, b: int)
    requires
        x.magnitude() < INFINITY,
        y.magnitude() < INFINITY,
        x.value() == a * pow2(149),
        y.value() == b * pow2(149),
        -0x100_0000 <= a + b <= 0x100_0000,
    ensures
        x.plus(y).value() == (a + b) * pow2(149),
        x.plus(y).magnitude() < INFINITY,
{
    reveal(Single::spec_plus);
    let p = pow2(149) as int;
    lemma_pow2_pos(149);
    let n = if a + b < 0 { -(a + b) } else { a + b };
    let m = lemma_representable(n, 149);
    lemma_exact(m);
    lemma_round_ratio(n * p, 1, m);
    assert(a * p + b * p == (a + b) * p) by (nonlinear_arith);
    assert(-((a + b) * p) == (-(a + b)) * p) by (nonlinear_arith);
    if a + b == 0 {
        assert(0 * p == 0);
    } else {
        assert(n * p > 0) by (nonlinear_arith)
            requires
                n > 0,
                p > 0,
        ;
    }
}

/// A number with its sign flipped has the opposite value.
pub proof fn law_negation_is_opposite(x: Single)
    requires
        x.magnitude() < INFINITY,
    ensures
        x.negated().value() == -x.value(),
        x.negated().magnitude() == x.magnitude(),
{
}

proof fn lemma_square_by_size(x: Single, y: Single)
    requires
        x.magnitude() == y.magnitude(),
    ensures
        x.times(x) == y.times(y),
{
    reveal(Single::spec_times);
}

/// Differences that are turned around have the same size.
#[verifier::spinoff_prover]
#[verifier::rlimit(60)]
pub proof fn lemma_opposite_differences(a: Single, b: Single)
    ensures
        a.minus(b).magnitude() == b.minus(a).magnitude(),
{
    reveal(Single::spec_plus);
    if !a.is_nan() && !b.is_nan() && !a.infinite() && !b.infinite() {
        law_negation_is_opposite(a);
        law_negation_is_opposite(b);
        let n = a.value() - b.value();
        let size = if n < 0 { -n } else { n };
        law_every_ratio_rounds(size, 1);
    }
}

/// Two differences that are each other's opposites have the same square.
pub proof fn law_opposite_differences_square_alike(a: Single, b: Single)
    ensures
        a.minus(b).times(a.minus(b)) == b.minus(a).times(b.minus(a)),
{
    lemma_opposite_differences(a, b);
    lemma_square_by_size(a.minus(b), b.minus(a));
}

/// How far two numbers are apart.
pub open spec fn away(a: int, b: int) -> int {
    if a < b {
        b - a
    } else {
        a - b
    }
}

/// The number after a pattern's is not much larger.
pub proof fn lemma_gap(m: int)
    requires
        0 <= m,
    ensures
        HIDDEN * (ulps(m + 1) - ulps(m)) <= ulps(m) + HIDDEN,
{
    let h = HIDDEN as int;
    let q0 = m / h;
    let r = m % h;
    assert(m == q0 * h + r && 0 <= r < h && q0 >= 0) by (nonlinear_arith)
        requires
            h > 0,
            m >= 0,
            q0 == m / h,
            r == m % h,
    ;
    if q0 == 0 {
        lemma_ulps_form(0, m);
        lemma_ulps_form(0, m + 1);
        vstd::arithmetic::power2::lemma2_to64();
        assert(m * 1 == m && (m + 1) * 1 == m + 1);
    } else {
        let q = q0 - 1;
        assert(q0 * h == q * h + h) by (nonlinear_arith)
            requires
                q0 == q + 1,
        ;
        lemma_ulps_form(q, h + r);
        lemma_ulps_form(q, h + r + 1);
        let p = pow2(q as nat) as int;
        lemma_pow2_pos(q as nat);
        assert((h + r + 1) * p - (h + r) * p == p) by (nonlinear_arith);
        assert(h * p <= (h + r) * p) by (nonlinear_arith)
            requires
                0 <= r,
                0 < p,
        ;
    }
}

/// What a ratio rounds to is off by half of the gap at most.
proof fn lemma_rounding_error(n: int, d: int, m: int)
    requires
        0 <= n,
        0 < d,
        rounds_to(n, d, m),
        m < INFINITY,
    ensures
        0x100_0000 * away(ulps(m) * d, n) <= (ulps(m) + 0x80_0000) * d,
{
    let u = ulps(m);
    lemma_ulps_step(m);
    lemma_gap(m);
    let up = ulps(m + 1);
    assert((u + up) * d == 2 * (u * d) + (up - u) * d) by (nonlinear_arith);
    let above = (up - u) * d;
    assert(0x80_0000 * ((up - u) * d) <= (u + 0x80_0000) * d) by (nonlinear_arith)
        requires
            0x80_0000 * (up - u) <= u + 0x80_0000,
            d > 0,
    ;
    if m > 0 {
        lemma_ulps_step(m - 1);
        lemma_gap(m - 1);
        let down = ulps(m - 1);
        assert((down + u) * d == 2 * (u * d) - (u - down) * d) by (nonlinear_arith);
        assert(0x80_0000 * ((u - down) * d) <= (u + 0x80_0000) * d) by (nonlinear_arith)
            requires
                0x80_0000 * (u - down) <= down + 0x80_0000,
                down <= u,
                d > 0,
        ;
    } else {
        assert(0 * d == 0);
        assert((u + 0x80_0000) * d >= 0) by (nonlinear_arith)
            requires
                u >= 0,
                d > 0,
        ;
    }
    let v = u * d;
    if n >= v {
        assert(2 * n <= 2 * v + above);
    }
}

/// A ratio well below the largest number does not round to infinity.
proof fn lemma_stays_finite(n: int, d: int, m: int)
    requires
        0 <= n,
        0 < d,
        rounds_to(n, d, m),
        n <= pow2(200) * d,
    ensures
        m < INFINITY,
{
    if m == INFINITY {
        let top = ulps(INFINITY as int);
        lemma_ulps_form(254, HIDDEN as int);
        assert(254 * HIDDEN + HIDDEN == INFINITY);
        vstd::arithmetic::power2::lemma2_to64();
        lemma_pow2_strictly_increases(201, 254);
        lemma_pow2_unfold(201);
        lemma_pow2_pos(200);
        let p = pow2(200) as int;
        assert(top > 2 * p) by (nonlinear_arith)
            requires
                top == 0x80_0000 * pow2(254),
                pow2(254) > 2 * p,
        ;
        lemma_ulps_step(INFINITY - 1);
        let low = ulps(INFINITY - 1);
        assert((low + top) * d > 2 * (p * d)) by (nonlinear_arith)
            requires
                low >= 0,
                top > 2 * p,
                d > 0,
        ;
    }
}

/// A product is off by one part in two to the power 24 at most, or by half of the smallest
/// number.
pub proof fn law_products_are_close(x: Single, y: Single)
    requires
        x.magnitude() < INFINITY,
        y.magnitude() < INFINITY,
        away(x.value() * y.value(), 0) <= pow2(200) * pow2(149),
    ensures
        ({
            let z = x.times(y);
            &&& z.magnitude() < INFINITY
            &&& 0x100_0000 * away(z.value() * pow2(149), x.value() * y.value()) <= (away(
                z.value(),
                0,
            ) + 0x80_0000) * pow2(149)
        }),
{
    reveal(Single::spec_times);
    let z = x.times(y);
    let a = ulps(x.magnitude());
    let b = ulps(y.magnitude());
    let d = pow2(149) as int;
    lemma_pow2_pos(149);
    lemma_ulps_step(x.magnitude());
    lemma_ulps_step(y.magnitude());
    assert(a * b >= 0) by (nonlinear_arith)
        requires
            a >= 0,
            b >= 0,
    ;
    assert((-a) * b == -(a * b) && a * (-b) == -(a * b) && (-a) * (-b) == a * b)
        by (nonlinear_arith);
    law_every_ratio_rounds(a * b, d);
    let m = round_ratio(a * b, d);
    lemma_stays_finite(a * b, d, m);
    lemma_rounding_error(a * b, d, m);
    let u = ulps(m);
    lemma_ulps_step(m);
    assert((-u) * d == -(u * d)) by (nonlinear_arith);
    assert(z.magnitude() == m);
}

/// A sum is off by one part in two to the power 24 at most, or by half of the smallest number.
#[verifier::spinoff_prover]
#[verifier::rlimit(60)]
pub proof fn law_sums_are_close(x: Single, y: Single)
    requires
        x.magnitude() < INFINITY,
        y.magnitude() < INFINITY,
        away(x.value() + y.value(), 0) <= pow2(200),
    ensures
        ({
            let z = x.plus(y);
            &&& z.magnitude() < INFINITY
            &&& 0x100_0000 * away(z.value(), x.value() + y.value()) <= away(z.value(), 0)
                + 0x80_0000
        }),
{
    reveal(Single::spec_plus);
    let z = x.plus(y);
    let sum = x.value() + y.value();
    let n = away(sum, 0);
    law_every_ratio_rounds(n, 1);
    let m = round_ratio(n, 1);
    assert(pow2(200) * 1 == pow2(200));
    lemma_stays_finite(n, 1, m);
    lemma_rounding_error(n, 1, m);
    let u = ulps(m);
    lemma_ulps_step(m);
    assert(u * 1 == u && (u + HIDDEN) * 1 == u + HIDDEN);
}

/// A quotient is off by one part in two to the power 24 at most, or by half of the smallest
/// number.
pub proof fn law_quotients_are_close(x: Single, y: Single)
    requires
        x.magnitude() < INFINITY,
        0 < y.magnitude() < INFINITY,
        away(x.value(), 0) * pow2(149) <= pow2(200) * away(y.value(), 0),
    ensures
        ({
            let z = x.over(y);
            &&& z.magnitude() < INFINITY
            &&& 0x100_0000 * away(z.value() * y.value(), x.value() * pow2(149)) <= (away(
                z.value(),
                0,
            ) + 0x80_0000) * away(y.value(), 0)
        }),
{
    reveal(Single::spec_over);
    let z = x.over(y);
    let a = ulps(x.magnitude());
    let d = ulps(y.magnitude());
    let p = pow2(149) as int;
    lemma_pow2_pos(149);
    lemma_ulps_step(x.magnitude());
    lemma_ulps_monotone(0, y.magnitude());
    assert(a * p >= 0) by (nonlinear_arith)
        requires
            a >= 0,
            p > 0,
    ;
    law_every_ratio_rounds(a * p, d);
    let m = round_ratio(a * p, d);
    lemma_stays_finite(a * p, d, m);
    lemma_rounding_error(a * p, d, m);
    let u = ulps(m);
    lemma_ulps_step(m);
    assert((-u) * d == -(u * d) && u * (-d) == -(u * d) && (-u) * (-d) == u * d)
        by (nonlinear_arith);
    assert((-a) * p == -(a * p)) by (nonlinear_arith);
    assert(z.magnitude() == m);
}

/// A number from a millionth to a million, about: from two to the power -20 to two to the
/// power 20.
pub open spec fn is_moderate(k: Single) -> bool {
    !k.negative() && 0x3580_0000 <= k.magnitude() <= 0x4980_0000
}

/// What the size of a moderate number is.
pub proof fn lemma_moderate(k: Single)
    requires
        is_moderate(k),
    ensures
        0 < k.value(),
        pow2(149) <= 0x10_0000 * k.value(),
        k.value() <= 0x10_0000 * pow2(149),
{
    lemma_ulps_form(106, HIDDEN as int);
    lemma_ulps_form(146, HIDDEN as int);
    assert(106 * HIDDEN + HIDDEN == 0x3580_0000);
    assert(146 * HIDDEN + HIDDEN == 0x4980_0000);
    vstd::arithmetic::power2::lemma2_to64();
    lemma_pow2_adds(106, 23);
    lemma_pow2_adds(146, 23);
    lemma_pow2_adds(129, 20);
    lemma_pow2_adds(149, 20);
    lemma_pow2_pos(129);
    assert(0x80_0000 * pow2(106) == pow2(106) * 0x80_0000) by (nonlinear_arith);
    assert(0x80_0000 * pow2(146) == pow2(146) * 0x80_0000) by (nonlinear_arith);
    assert(0x10_0000 * pow2(129) == pow2(129) * 0x10_0000) by (nonlinear_arith);
    if 0x3580_0000 < k.magnitude() {
        lemma_ulps_monotone(0x3580_0000, k.magnitude());
    }
    if k.magnitude() < 0x4980_0000 {
        lemma_ulps_monotone(k.magnitude(), 0x4980_0000);
    }
}

/// A number whose pattern is at most one binary place above another's is at most twice its size.
pub proof fn lemma_at_most_twice(c: Single, k: Single)
    requires
        is_moderate(k),
        c.magnitude() <= k.magnitude() + HIDDEN,
    ensures
        away(c.value(), 0) <= 2 * k.value(),
        c.magnitude() < INFINITY,
{
    let h = HIDDEN as int;
    let m = k.magnitude();
    let q = m / h - 1;
    let r = m % h + h;
    assert(q >= 0 && q * h + r == m && (q + 1) * h + r == m + h) by (nonlinear_arith)
        requires
            h > 0,
            m >= h,
            q == m / h - 1,
            r == m % h + h,
    ;
    lemma_ulps_form(q, r);
    lemma_ulps_form(q + 1, r);
    lemma_pow2_unfold((q + 1) as nat);
    assert(r * (2 * pow2(q as nat)) == 2 * (r * pow2(q as nat))) by (nonlinear_arith);
    lemma_ulps_step(c.magnitude());
    if c.magnitude() < m + h {
        lemma_ulps_monotone(c.magnitude(), m + h);
    }
}

/// The value of one, and of its opposite.
pub proof fn lemma_units()
    ensures
        num(0x3f80_0000).value() == pow2(149),
        num(0xbf80_0000).value() == -pow2(149),
        num(0x3f80_0000).magnitude() < INFINITY,
        num(0xbf80_0000).magnitude() < INFINITY,
{
    lemma_one();
    law_small_integers_are_exact(1);
    law_negation_is_opposite(num(0x3f80_0000));
    assert(1 * pow2(149) == pow2(149));
    assert(num(0x3f80_0000).negated() == num(0xbf80_0000));
}

/// Products commute.
pub proof fn law_product_commutes(a: Single, b: Single)
    ensures
        a.times(b) == b.times(a),
{
    reveal(Single::spec_times);
    let u = ulps(a.magnitude());
    let v = ulps(b.magnitude());
    assert(u * v == v * u) by (nonlinear_arith);
}

/// Dividing by a positive number keeps the order of numbers that are not negative.
pub proof fn law_quotients_keep_order(a: Single, b: Single, x: Single)
    requires
        num(0).le(a),
        a.le(b),
        b.magnitude() < INFINITY,
        num(0).lt(x),
        x.magnitude() < INFINITY,
    ensures
        a.over(x).le(b.over(x)),
        num(0).le(a.over(x)),
{
    reveal(Single::spec_over);
    let p = pow2(149) as int;
    lemma_pow2_pos(149);
    let u = ulps(a.magnitude());
    let v = ulps(b.magnitude());
    let w = ulps(x.magnitude());
    lemma_ulps_step(a.magnitude());
    lemma_ulps_step(b.magnitude());
    lemma_ulps_monotone(0, x.magnitude());
    if a.magnitude() < b.magnitude() {
        lemma_ulps_monotone(a.magnitude(), b.magnitude());
    }
    assert(0 <= u * p <= v * p) by (nonlinear_arith)
        requires
            0 <= u <= v,
            0 < p,
    ;
    lemma_rounding_keeps_order(u * p, v * p, w);
    lemma_zero_rounds_to_zero(w);
    lemma_round_ratio(0, w, 0);
    lemma_zero_magnitude(a.magnitude());
    lemma_zero_magnitude(b.magnitude());
    if u == 0 {
        assert(0 * p == 0);
    }
    if v == 0 {
        assert(0 * p == 0);
    }
}

/// The integer sixteen as a single.
pub proof fn lemma_sixteen()
    ensures
        Single::spec_from_int(16) == num(0x4180_0000),
{
    law_small_integers_are_exact(16);
    let p = pow2(149) as int;
    lemma_pow2_pos(149);
    lemma_ulps_form(130, HIDDEN as int);
    lemma_pow2_adds(130, 19);
    vstd::arithmetic::power2::lemma2_to64();
    assert(ulps(0x4180_0000) == 16 * p) by (nonlinear_arith)
        requires
            ulps(0x4180_0000) == HIDDEN * pow2(130),
            p == pow2(130) * pow2(19),
            pow2(19) == 0x8_0000,
            HIDDEN == 0x80_0000,
    ;
    law_order_is_numeric(Single::spec_from_int(16), num(0x4180_0000));
}

/// The integers two and three as singles.
pub proof fn lemma_two_and_three()
    ensures
        Single::spec_from_int(2) == num(0x4000_0000),
        Single::spec_from_int(3) == num(0x4040_0000),
{
    law_small_integers_are_exact(2);
    law_small_integers_are_exact(3);
    let p = pow2(149) as int;
    lemma_pow2_pos(149);
    lemma_ulps_form(127, HIDDEN as int);
    lemma_ulps_form(127, 0xc0_0000);
    lemma_pow2_adds(127, 22);
    vstd::arithmetic::power2::lemma2_to64();
    assert(ulps(0x4000_0000) == 2 * p && ulps(0x4040_0000) == 3 * p) by (nonlinear_arith)
        requires
            ulps(0x4000_0000) == HIDDEN * pow2(127),
            ulps(0x4040_0000) == 0xc0_0000 * pow2(127),
            p == pow2(127) * pow2(22),
            pow2(22) == 0x40_0000,
            HIDDEN == 0x80_0000,
    ;
    law_order_is_numeric(Single::spec_from_int(2), num(0x4000_0000));
    law_order_is_numeric(Single::spec_from_int(3), num(0x4040_0000));
}

/// A number of at most two to the power 20, of either sign.
pub open spec fn is_small(x: Single) -> bool {
    x.magnitude() <= 0x4980_0000
}

/// The sum of two small numbers is finite, and zero only where they are opposite.
pub proof fn lemma_small_sum(x: Single, y: Single)
    requires
        is_small(x),
        is_small(y),
    ensures
        x.plus(y).magnitude() < INFINITY,
        x.value() + y.value() != 0 ==> !x.plus(y).same(num(0)),
{
    let top = num(0x4980_0000);
    lemma_moderate(top);
    lemma_ulps_step(x.magnitude());
    lemma_ulps_step(y.magnitude());
    if x.magnitude() < 0x4980_0000 {
        lemma_ulps_monotone(x.magnitude(), 0x4980_0000);
    }
    if y.magnitude() < 0x4980_0000 {
        lemma_ulps_monotone(y.magnitude(), 0x4980_0000);
    }
    let p = pow2(149) as int;
    lemma_pow2_adds(149, 51);
    lemma_pow2_adds(32, 19);
    vstd::arithmetic::power2::lemma2_to64();
    assert(pow2(51) == 0x8_0000_0000_0000);
    lemma_pow2_pos(149);
    assert(0x20_0000 * p <= pow2(200)) by (nonlinear_arith)
        requires
            pow2(200) == p * pow2(51),
            pow2(51) == 0x8_0000_0000_0000,
            p > 0,
    ;
    law_sums_are_close(x, y);
    law_order_is_numeric(x.plus(y), num(0));
    lemma_zero_magnitude(0);
}

/// A finite number divided by one that is not zero is a number.
pub proof fn lemma_quotient_is_a_number(x: Single, y: Single)
    requires
        x.magnitude() < INFINITY,
        0 < y.magnitude() < INFINITY,
    ensures
        !x.over(y).is_nan(),
{
    reveal(Single::spec_over);
    lemma_pow2_pos(149);
    lemma_ulps_step(x.magnitude());
    lemma_ulps_monotone(0, y.magnitude());
    let n = ulps(x.magnitude()) * pow2(149);
    assert(n >= 0) by (nonlinear_arith)
        requires
            n == ulps(x.magnitude()) * pow2(149),
            ulps(x.magnitude()) >= 0,
            pow2(149) > 0,
    ;
    lemma_rounding_keeps_order(n, n, ulps(y.magnitude()));
}

/// The integer zero as a single.
pub proof fn lemma_no_integer()
    ensures
        Single::spec_from_int(0) == num(0),
{
    reveal(Single::spec_from_int);
    lemma_zero_rounds_to_zero(1);
    lemma_round_ratio(0, 1, 0);
}

/// The remainder of a zero is a zero.
pub proof fn lemma_zero_remainder(x: Single, y: Single)
    requires
        x.same(num(0)),
        0 < y.magnitude() < INFINITY,
    ensures
        x.rem_euclid(y).same(num(0)),
{
    reveal(Single::spec_rem);
    lemma_zero_magnitude(x.magnitude());
    lemma_ulps_monotone(0, y.magnitude());
    let d = ulps(y.magnitude());
    assert(0int % d == 0) by (nonlinear_arith)
        requires
            d > 0,
    ;
    lemma_zero_rounds_to_zero(1);
    lemma_round_ratio(0, 1, 0);
}

/// A hue below a full turn is less than one turn.
proof fn lemma_below_one_turn(h: Single)
    requires
        num(0).le(h),
        h.lt(num(0x43b4_0000)),  // 360
    ensures
        num(0).le(h.over(num(0x43b4_0000))),
        h.over(num(0x43b4_0000)).lt(num(0x3f80_0000)),
{
    let full = num(0x43b4_0000);  // 360
    let last = num(0x43b3_ffff);
    law_quotients_keep_order(h, last, full);
    reveal(Single::spec_over);
    let a = pow2(125) as int;
    let b = pow2(134) as int;
    lemma_pow2_pos(125);
    lemma_pow2_pos(134);
    lemma_pow2_adds(125, 24);
    vstd::arithmetic::power2::lemma2_to64();
    lemma_ulps_form(125, 0xff_ffff);
    lemma_ulps_form(125, 0x100_0000);
    lemma_ulps_form(134, 0xb3_ffff);
    lemma_ulps_form(134, 0xb4_0000);
    assert(125 * HIDDEN + 0xff_ffff == 0x3f7f_ffff && 125 * HIDDEN + 0x100_0000 == 0x3f80_0000);
    assert(134 * HIDDEN + 0xb3_ffff == 0x43b3_ffff && 134 * HIDDEN + 0xb4_0000 == 0x43b4_0000);
    let d = ulps(0x43b4_0000);
    let n = ulps(0x43b3_ffff) * pow2(149);
    let low = (ulps(0x3f7f_ffff) + ulps(0x3f80_0000)) * d;
    let c = a * b;
    assert(c > 0 && d > 0 && n >= 0 && n == 0xb3_ffff * 0x100_0000 * c && low == 0x1ff_ffff
        * 0xb4_0000 * c) by (nonlinear_arith)
        requires
            a > 0,
            b > 0,
            c == a * b,
            d == 0xb4_0000 * b,
            n == (0xb3_ffff * b) * pow2(149),
            pow2(149) == a * 0x100_0000,
            low == (0xff_ffff * a + 0x100_0000 * a) * d,
    ;
    assert(2 * n < low) by (nonlinear_arith)
        requires
            n == 0xb3_ffff * 0x100_0000 * c,
            low == 0x1ff_ffff * 0xb4_0000 * c,
            c > 0,
    ;
    law_every_ratio_rounds(n, d);
    let m = round_ratio(n, d);
    if m >= 0x3f80_0000 {
        let floor = (ulps(m - 1) + ulps(m)) * d;
        if m > 0x3f80_0000 {
            lemma_ulps_monotone(0x3f80_0000, m);
            lemma_ulps_monotone(0x3f7f_ffff, m - 1);
        }
        assert(floor >= low) by (nonlinear_arith)
            requires
                ulps(m - 1) + ulps(m) >= ulps(0x3f7f_ffff) + ulps(0x3f80_0000),
                floor == (ulps(m - 1) + ulps(m)) * d,
                low == (ulps(0x3f7f_ffff) + ulps(0x3f80_0000)) * d,
                d > 0,
        ;
        assert(false);
    }
}

/// A hue from 0 up to a full turn has no whole turns and is its own remainder.
pub proof fn lemma_within_one_turn(h: Single)
    requires
        num(0).le(h),
        h.lt(num(0x43b4_0000)),  // 360
    ensures
        num(0).le(h.over(num(0x43b4_0000))),
        h.over(num(0x43b4_0000)).lt(num(0x3f80_0000)),
        forall|lo: int, hi: int|
            lo <= 0 <= hi ==> #[trigger] h.over(num(0x43b4_0000)).truncated(lo, hi) == 0,
        h.rem_euclid(num(0x43b4_0000)) == h,
{
    lemma_below_one_turn(h);
    let q = h.over(num(0x43b4_0000));
    let p = pow2(149) as int;
    lemma_pow2_pos(149);
    lemma_units();
    reveal(Single::truncated);
    lemma_ulps_step(q.magnitude());
    if q.magnitude() < 0x3f80_0000 {
        lemma_ulps_monotone(q.magnitude(), 0x3f80_0000);
    }
    let u = ulps(q.magnitude());
    assert(u / p == 0) by (nonlinear_arith)
        requires
            0 <= u < p,
    ;
    reveal(Single::spec_rem);
    let m = h.magnitude();
    let d = ulps(0x43b4_0000);
    lemma_ulps_step(m);
    if m < 0x43b4_0000 {
        lemma_ulps_monotone(m, 0x43b4_0000);
    }
    let v = ulps(m);
    assert(v % d == v) by (nonlinear_arith)
        requires
            0 <= v < d,
    ;
    lemma_exact_ratio(m, 1);
    lemma_round_ratio(v * 1, 1, m);
}

/// A number divided by itself is one.
pub proof fn law_self_quotient_is_one(x: Single)
    requires
        0 < x.magnitude() < INFINITY,
    ensures
        x.over(x) == num(0x3f80_0000),
{
    reveal(Single::spec_over);
    let u = ulps(x.magnitude());
    lemma_ulps_monotone(0, x.magnitude());
    lemma_units();
    let one = num(0x3f80_0000);
    lemma_exact_ratio(one.magnitude(), u);
    assert(u * pow2(149) == pow2(149) * u) by (nonlinear_arith);
    lemma_round_ratio(u * pow2(149), u, one.magnitude());
}

/// The size of a double in units of two to the power -149, from its pattern without the sign:
/// its whole part and the power of two on it.
pub open spec fn double_parts(m: int) -> (int, int) {
    if m < 0x10_0000_0000_0000 {
        (m, -925)
    } else {
        (0x10_0000_0000_0000 + m % 0x10_0000_0000_0000, m / 0x10_0000_0000_0000 - 926)
    }
}

impl Single {
    #[verifier::opaque]
    pub open spec fn spec_from_double(bits: u64) -> Single {
        let negative = bits >= 0x8000_0000_0000_0000;
        let m = bits as int % 0x8000_0000_0000_0000;
        let (sig, e) = double_parts(m);
        if m > 0x7ff0_0000_0000_0000 {
            not_a_number()
        } else if m == 0x7ff0_0000_0000_0000 {
            signed(negative, INFINITY as int)
        } else if e >= 0 {
            signed(negative, round_ratio(sig * pow2(e as nat), 1))
        } else {
            signed(negative, round_ratio(sig, pow2((-e) as nat) as int))
        }
    }

    /// The number nearest to a double, given by its pattern.
    pub fn from_double(bits: u64) -> (r: Single)
        ensures
            r == Single::spec_from_double(bits),
    {
        proof {
            reveal(Single::spec_from_double);
        }
        let negative: bool = bits >= 0x8000_0000_0000_0000;
        let m: u64 = bits % 0x8000_0000_0000_0000;
        if m > 0x7ff0_0000_0000_0000 {
            return Single { bits: 0x7fc0_0000 };
        }
        if m == 0x7ff0_0000_0000_0000 {
            return Single::build(negative, INFINITY);
        }
        let sig: u64 = if m < 0x10_0000_0000_0000 {
            m
        } else {
            0x10_0000_0000_0000 + m % 0x10_0000_0000_0000
        };
        let e: i32 = if m < 0x10_0000_0000_0000 {
            -925
        } else {
            (m / 0x10_0000_0000_0000) as i32 - 926
        };
        assert((sig as int, e as int) == double_parts(m as int));
        assert(-925 <= e <= 1120);
        if e > 400 {
            proof {
                lemma_beyond_infinity(sig as int, e as int);
                lemma_round_ratio(sig * pow2(e as nat), 1, INFINITY as int);
            }
            return Single::build(negative, INFINITY);
        }
        if e < -400 {
            proof {
                lemma_below_everything(sig as int, -e);
                lemma_pow2_pos((-e) as nat);
                lemma_round_ratio(sig as int, pow2((-e) as nat) as int, 0);
            }
            return Single::build(negative, 0);
        }
        let ghost n = if e >= 0 {
            sig * pow2(e as nat)
        } else {
            sig as int
        };
        let ghost d = if e >= 0 {
            1
        } else {
            pow2((-e) as nat) as int
        };
        proof {
            let t = pow2((e + 400) as nat) * d;
            lemma_pow2_pos((e + 400) as nat);
            if e >= 0 {
                lemma_pow2_adds(e as nat, 400);
                assert(n * pow2(400) == sig * t) by (nonlinear_arith)
                    requires
                        n == sig * pow2(e as nat),
                        t == pow2((e + 400) as nat) * 1,
                        pow2((e + 400) as nat) == pow2(e as nat) * pow2(400),
                ;
                assert(t > 0);
            } else {
                lemma_pow2_adds((e + 400) as nat, (-e) as nat);
                lemma_pow2_pos((-e) as nat);
                assert(t == pow2(400));
                assert(n * pow2(400) == sig * t);
                lemma_pow2_pos(400);
            }
            assert((sig + 1) * t == sig * t + t) by (nonlinear_arith);
        }
        let r: u32 = round_parts(sig as u128, e, false, Ghost(n), Ghost(d));
        proof {
            lemma_round_ratio(n, d, r as int);
        }
        Single::build(negative, r)
    }
}

proof fn lemma_beyond_infinity(sig: int, e: int)
    requires
        sig >= 1,
        e > 400,
    ensures
        rounds_to(sig * pow2(e as nat), 1, INFINITY as int),
{
    let n = sig * pow2(e as nat);
    lemma_ulps_form(254, HIDDEN as int);
    lemma_ulps_step(INFINITY - 1);
    lemma_pow2_adds(254, 23);
    vstd::arithmetic::power2::lemma2_to64();
    vstd::arithmetic::power2::lemma_pow2_strictly_increases(277, e as nat);
    assert(ulps(INFINITY as int) == pow2(277)) by (nonlinear_arith)
        requires
            ulps(INFINITY as int) == HIDDEN * pow2(254),
            pow2(277) == pow2(254) * pow2(23),
            pow2(23) == 0x80_0000,
            HIDDEN == 0x80_0000,
    ;
    assert(n >= pow2(e as nat)) by (nonlinear_arith)
        requires
            sig >= 1,
            n == sig * pow2(e as nat),
            pow2(e as nat) >= 0,
    ;
}

proof fn lemma_below_everything(sig: int, k: int)
    requires
        0 <= sig < 0x20_0000_0000_0000,
        k > 400,
    ensures
        rounds_to(sig, pow2(k as nat) as int, 0),
{
    vstd::arithmetic::power2::lemma2_to64();
    vstd::arithmetic::power2::lemma2_to64_rest();
    vstd::arithmetic::power2::lemma_pow2_strictly_increases(54, k as nat);
    assert(ulps(0) == 0 && ulps(1) == 1);
    let high = (ulps(0) + ulps(1)) * pow2(k as nat);
    assert(high == pow2(k as nat));
}

} // verus!
