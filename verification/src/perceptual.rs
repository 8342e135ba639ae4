//! How a slider's position maps to a setting.
//!
//! A position runs from -1 to 1. The mapping bends it, so that equal moves look like equal
//! changes. The bends are values of tanh, exp, atanh and ln, which the caller hands in; where
//! to take them is said here.

use crate::single::{
    away, is_moderate, law_negation_is_opposite, law_order_is_numeric, law_products_are_close,
    law_quotients_are_close, law_sums_are_close, lemma_at_most_twice, lemma_moderate, lemma_units,
    num, Single, HIDDEN, INFINITY,
};
use vstd::arithmetic::power2::pow2;
use vstd::prelude::*;

verus! {

/// The kinds of mapping.
#[derive(Clone, Copy, Debug, PartialEq, Eq, Structural)]
pub enum CurveKind {
    /// In proportion.
    Linear,
    /// By tanh: steep at the centre, flat at the ends.
    SoftKnee,
    /// By exp: equal steps are equal factors.
    LogSat,
}

/// Steepness of the soft knee: 2.2, as the bits of a single.
pub const SOFT_K: u32 = 0x400c_cccd;

pub open spec fn spec_bend_at(curve: CurveKind, scale: Single, pos: Single) -> Single {
    let p = pos.clamp(num(0xbf80_0000), num(0x3f80_0000));  // -1, 1
    match curve {
        CurveKind::Linear => p,
        CurveKind::SoftKnee => num(SOFT_K).times(p),
        CurveKind::LogSat => p.times(scale),
    }
}

/// Where the bend of a position is taken: tanh of this for the soft knee, exp of this for the
/// logarithmic mapping, whose `scale` is ln of the range. A position beyond the ends counts as
/// the end.
#[verifier::when_used_as_spec(spec_bend_at)]
pub fn bend_at(curve: CurveKind, scale: Single, pos: Single) -> (r: Single)
    ensures
        r == spec_bend_at(curve, scale, pos),
{
    let p: Single = pos.clamp(num(0xbf80_0000), num(0x3f80_0000));  // -1, 1
    match curve {
        CurveKind::Linear => p,
        CurveKind::SoftKnee => num(SOFT_K).times(p),
        CurveKind::LogSat => p.times(scale),
    }
}

pub open spec fn spec_slider_to_raw(
    curve: CurveKind,
    center: Single,
    half: Single,
    pos: Single,
    bend: Single,
    knee: Single,
) -> Single {
    match curve {
        CurveKind::Linear => center.plus(
            half.times(pos.clamp(num(0xbf80_0000), num(0x3f80_0000))),  // -1, 1
        ),
        CurveKind::SoftKnee => center.plus(half.times(bend).over(knee)),
        CurveKind::LogSat => if center.same(num(0)) {
            num(0)
        } else {
            center.times(bend)
        },
    }
}

/// The value of a setting at a slider's position. `bend` is the position's bend and `knee` is
/// tanh of the steepness.
#[verifier::when_used_as_spec(spec_slider_to_raw)]
pub fn slider_to_raw(
    curve: CurveKind,
    center: Single,
    half: Single,
    pos: Single,
    bend: Single,
    knee: Single,
) -> (r: Single)
    ensures
        r == spec_slider_to_raw(curve, center, half, pos, bend, knee),
{
    match curve {
        CurveKind::Linear => center.plus(
            half.times(pos.clamp(num(0xbf80_0000), num(0x3f80_0000))),  // -1, 1
        ),
        CurveKind::SoftKnee => center.plus(half.times(bend).over(knee)),
        CurveKind::LogSat => if center.same(num(0)) {
            num(0)
        } else {
            center.times(bend)
        },
    }
}

pub open spec fn spec_unbend_at(
    curve: CurveKind,
    center: Single,
    half: Single,
    raw: Single,
    knee: Single,
) -> Single {
    match curve {
        CurveKind::Linear => raw,
        CurveKind::SoftKnee => raw.minus(center).over(half).clamp(
            num(0xbf80_0000),  // -1
            num(0x3f80_0000),
        ).times(knee),
        CurveKind::LogSat => raw.over(center),
    }
}

/// Where the bend of a value is undone: atanh of this for the soft knee, ln of this for the
/// logarithmic mapping.
#[verifier::when_used_as_spec(spec_unbend_at)]
pub fn unbend_at(curve: CurveKind, center: Single, half: Single, raw: Single, knee: Single) -> (r:
    Single)
    ensures
        r == spec_unbend_at(curve, center, half, raw, knee),
{
    match curve {
        CurveKind::Linear => raw,
        CurveKind::SoftKnee => raw.minus(center).over(half).clamp(
            num(0xbf80_0000),  // -1
            num(0x3f80_0000),
        ).times(knee),
        CurveKind::LogSat => raw.over(center),
    }
}

pub open spec fn spec_raw_to_slider(
    curve: CurveKind,
    center: Single,
    half: Single,
    raw: Single,
    unbent: Single,
    scale: Single,
) -> Single {
    match curve {
        CurveKind::Linear => raw.minus(center).over(half).clamp(
            num(0xbf80_0000),  // -1
            num(0x3f80_0000),
        ),
        // -1, 1
        CurveKind::SoftKnee => unbent.over(num(SOFT_K)).clamp(num(0xbf80_0000), num(0x3f80_0000)),
        CurveKind::LogSat => if center.same(num(0)) {
            num(0)
        } else {
            unbent.over(scale).clamp(num(0xbf80_0000), num(0x3f80_0000))  // -1, 1
        },
    }
}

/// The slider's position for a value of a setting. `unbent` is the value with its bend undone
/// and `scale` is ln of the range.
#[verifier::when_used_as_spec(spec_raw_to_slider)]
pub fn raw_to_slider(
    curve: CurveKind,
    center: Single,
    half: Single,
    raw: Single,
    unbent: Single,
    scale: Single,
) -> (r: Single)
    ensures
        r == spec_raw_to_slider(curve, center, half, raw, unbent, scale),
{
    match curve {
        CurveKind::Linear => raw.minus(center).over(half).clamp(
            num(0xbf80_0000),  // -1
            num(0x3f80_0000),
        ),
        // -1, 1
        CurveKind::SoftKnee => unbent.over(num(SOFT_K)).clamp(num(0xbf80_0000), num(0x3f80_0000)),
        CurveKind::LogSat => if center.same(num(0)) {
            num(0)
        } else {
            unbent.over(scale).clamp(num(0xbf80_0000), num(0x3f80_0000))  // -1, 1
        },
    }
}

/// A position that is a number never lies beyond the ends.
pub proof fn law_slider_stays_between_its_ends(
    curve: CurveKind,
    center: Single,
    half: Single,
    raw: Single,
    unbent: Single,
    scale: Single,
)
    ensures
        ({
            let p = raw_to_slider(curve, center, half, raw, unbent, scale);
            p.is_nan() || (p.ge(num(0xbf80_0000)) && p.le(num(0x3f80_0000)))  // -1, 1
        }),
{
}

/// Beyond its ends a slider gives the value of the end.
pub proof fn law_far_positions_count_as_ends(curve: CurveKind, scale: Single, pos: Single)
    ensures
        pos.gt(num(0x3f80_0000)) ==> bend_at(curve, scale, pos) == bend_at(
            curve,
            scale,
            num(0x3f80_0000),
        ),
        pos.lt(num(0xbf80_0000)) ==> bend_at(curve, scale, pos) == bend_at(  // -1
            curve,
            scale,
            num(0xbf80_0000),  // -1
        ),
{
}

/// Two positions are within a hundred-thousandth of each other.
pub open spec fn are_close(a: Single, b: Single) -> bool {
    !a.is_nan() && 0x2_0000 * away(a.value(), b.value()) <= pow2(149)
}

/// The sizes for which a position reads back: the reach of a straight slider, the neutral value
/// at most twice that, and the range of a logarithmic one.
pub open spec fn reads_back(curve: CurveKind, center: Single, half: Single, scale: Single) -> bool {
    match curve {
        CurveKind::Linear => is_moderate(half) && center.magnitude() <= half.magnitude() + HIDDEN,
        CurveKind::SoftKnee => true,
        CurveKind::LogSat => is_moderate(scale) && !center.same(num(0)),
    }
}

proof fn lemma_back(vp: int, vk: int, vs: int, vt: int, p: int)
    requires
        0x1000_0000_0000_0000 <= p,
        away(vp, 0) <= p,
        0 < vk,
        p <= 0x10_0000 * vk,
        0x100_0000 * away(vs * p, vp * vk) <= (away(vs, 0) + 0x80_0000) * p,
        0x100_0000 * away(vt * vk, vs * p) <= (away(vt, 0) + 0x80_0000) * vk,
    ensures
        0x2_0000 * away(vt, vp) <= p,
{
    let a = vs * p;
    let b = vp * vk;
    let c = vt * vk;
    let m = p * vk;
    lemma_size(vs, p);
    lemma_size(vt, vk);
    lemma_size(vp, vk);
    lemma_size(vt - vp, vk);
    assert(away(vp, 0) * vk <= m) by (nonlinear_arith)
        requires
            away(vp, 0) <= p,
            0 < vk,
            m == p * vk,
    ;
    assert((away(vs, 0) + 0x80_0000) * p == away(vs, 0) * p + 0x80_0000 * p) by (nonlinear_arith);
    assert((away(vt, 0) + 0x80_0000) * vk == away(vt, 0) * vk + 0x80_0000 * vk)
        by (nonlinear_arith);
    assert((vt - vp) * vk == c - b) by (nonlinear_arith)
        requires
            c == vt * vk,
            b == vp * vk,
    ;
    assert(m >= 0x1000_0000_0000_0000 * vk) by (nonlinear_arith)
        requires
            m == p * vk,
            p >= 0x1000_0000_0000_0000,
            vk > 0,
    ;
    assert(away(a, 0) <= 2 * m + p);
    assert(away(c, 0) <= 4 * m + 2 * p + vk);
    assert(0x100_0000 * away(c, b) <= 8 * m);
    lemma_drop_factor(away(vt, vp), p, vk, 8);
}

/// The size of a product with a positive number.
proof fn lemma_size(x: int, k: int)
    requires
        0 < k,
    ensures
        away(x * k, 0) == away(x, 0) * k,
{
    assert((-x) * k == -(x * k)) by (nonlinear_arith);
    assert(x >= 0 ==> x * k >= 0) by (nonlinear_arith)
        requires
            0 < k,
    ;
    assert(x < 0 ==> x * k < 0) by (nonlinear_arith)
        requires
            0 < k,
    ;
}

proof fn lemma_drop_factor(x: int, p: int, k: int, n: int)
    requires
        0 < k,
        0 <= n <= 100,
        0 <= x,
        0 < p,
        0x100_0000 * (x * k) <= n * (p * k),
    ensures
        0x2_0000 * x <= p,
{
    if 0x2_0000 * x > p {
        assert(0x2_0000 * (x * k) > p * k) by (nonlinear_arith)
            requires
                0x2_0000 * x > p,
                0 < k,
        ;
        assert(n * (p * k) <= 100 * (p * k)) by (nonlinear_arith)
            requires
                n <= 100,
                p > 0,
                k > 0,
        ;
    }
}

proof fn lemma_straight_back(
    vp: int,
    vh: int,
    vc: int,
    va: int,
    vr: int,
    vb: int,
    vt: int,
    p: int,
)
    requires
        0x1000_0000_0000_0000 <= p,
        away(vp, 0) <= p,
        0 < vh,
        p <= 0x10_0000 * vh,
        away(vc, 0) <= 2 * vh,
        0x100_0000 * away(va * p, vh * vp) <= (away(va, 0) + 0x80_0000) * p,
        away(va, 0) <= 2 * vh + 1,
        away(vb, 0) <= 20 * vh + 0x100_0000,
        0x100_0000 * away(vb, va) <= 28 * vh + 0x200_0000,
        0x100_0000 * away(vt * vh, vb * p) <= (away(vt, 0) + 0x80_0000) * vh,
    ensures
        0x2_0000 * away(vt, vp) <= p,
{
    let a = va * p;
    let b = vh * vp;
    let c = vt * vh;
    let d = vb * p;
    let m = p * vh;
    lemma_size(va, p);
    lemma_size(vb, p);
    lemma_size(vb - va, p);
    lemma_size(vt, vh);
    lemma_size(vt - vp, vh);
    assert((vb - va) * p == d - a) by (nonlinear_arith)
        requires
            d == vb * p,
            a == va * p,
    ;
    assert((vt - vp) * vh == c - b) by (nonlinear_arith)
        requires
            c == vt * vh,
            b == vh * vp,
    ;
    assert((away(va, 0) + 0x80_0000) * p == away(va, 0) * p + 0x80_0000 * p) by (nonlinear_arith);
    assert((away(vt, 0) + 0x80_0000) * vh == away(vt, 0) * vh + 0x80_0000 * vh)
        by (nonlinear_arith);
    assert(away(va, 0) * p <= 2 * m + p) by (nonlinear_arith)
        requires
            away(va, 0) <= 2 * vh + 1,
            m == p * vh,
            p > 0,
    ;
    assert(away(vb, 0) * p <= 20 * m + 0x100_0000 * p) by (nonlinear_arith)
        requires
            away(vb, 0) <= 20 * vh + 0x100_0000,
            m == p * vh,
            p > 0,
    ;
    assert(0x100_0000 * (away(vb, va) * p) <= 28 * m + 0x200_0000 * p) by (nonlinear_arith)
        requires
            0x100_0000 * away(vb, va) <= 28 * vh + 0x200_0000,
            m == p * vh,
            p > 0,
    ;
    assert(away(vb - va, 0) == away(vb, va));
    assert(m >= 0x1000_0000_0000_0000 * vh) by (nonlinear_arith)
        requires
            m == p * vh,
            p >= 0x1000_0000_0000_0000,
            vh > 0,
    ;
    assert(away(c, 0) <= 40 * m + 0x300_0000 * p + vh);
    assert(0x100_0000 * away(c, b) <= 80 * m);
    lemma_drop_factor(away(vt, vp), p, vh, 80);
}

/// Bringing a position into its range does not take it away from one that is there.
proof fn lemma_limited_is_close(t: Single, p: Single)
    requires
        t.magnitude() < INFINITY,
        p.ge(num(0xbf80_0000)),  // -1
        p.le(num(0x3f80_0000)),
        p.magnitude() < INFINITY,
        0x2_0000 * away(t.value(), p.value()) <= pow2(149),
    ensures
        are_close(t.clamp(num(0xbf80_0000), num(0x3f80_0000)), p),  // -1, 1
{
    lemma_units();
    law_order_is_numeric(t, num(0xbf80_0000));  // -1
    law_order_is_numeric(num(0x3f80_0000), t);
    law_order_is_numeric(num(0xbf80_0000), p);  // -1
    law_order_is_numeric(p, num(0x3f80_0000));
}

proof fn lemma_position(p: Single)
    requires
        p.ge(num(0xbf80_0000)),  // -1
        p.le(num(0x3f80_0000)),
    ensures
        p.magnitude() < INFINITY,
        away(p.value(), 0) <= pow2(149),
        pow2(200) == 0x8_0000_0000_0000 * pow2(149),
        0x1000_0000_0000_0000 <= pow2(149),
{
    lemma_units();
    law_order_is_numeric(num(0xbf80_0000), p);  // -1
    law_order_is_numeric(p, num(0x3f80_0000));
    vstd::arithmetic::power2::lemma2_to64();
    vstd::arithmetic::power2::lemma2_to64_rest();
    vstd::arithmetic::power2::lemma_pow2_adds(149, 51);
    vstd::arithmetic::power2::lemma_pow2_strictly_increases(60, 149);
}

/// Multiplying a position by a moderate number and dividing by it again loses next to nothing.
proof fn lemma_scaled_and_back(p: Single, k: Single, s: Single)
    requires
        p.ge(num(0xbf80_0000)),  // -1
        p.le(num(0x3f80_0000)),
        is_moderate(k),
        s == p.times(k) || s == k.times(p),
    ensures
        are_close(s.over(k).clamp(num(0xbf80_0000), num(0x3f80_0000)), p),  // -1, 1
{
    let one = pow2(149) as int;
    let vp = p.value();
    let vk = k.value();
    lemma_position(p);
    lemma_moderate(k);
    lemma_size(vp, vk);
    assert(away(vp, 0) * vk <= pow2(200) * one) by (nonlinear_arith)
        requires
            away(vp, 0) <= one,
            0 <= away(vp, 0),
            0 < vk <= 0x10_0000 * one,
            pow2(200) == 0x8_0000_0000_0000 * one,
            one > 0,
    ;
    assert(vp * vk == vk * vp) by (nonlinear_arith);
    if s == p.times(k) {
        law_products_are_close(p, k);
    } else {
        law_products_are_close(k, p);
    }
    let vs = s.value();
    lemma_size(vs, one);
    assert((away(vs, 0) + 0x80_0000) * one == away(vs, 0) * one + 0x80_0000 * one)
        by (nonlinear_arith);
    assert(away(vp, 0) * vk <= one * vk) by (nonlinear_arith)
        requires
            away(vp, 0) <= one,
            0 < vk,
    ;
    assert(one * 1 <= one * vk) by (nonlinear_arith)
        requires
            1 <= vk,
            0 < one,
    ;
    assert(away(vs, 0) * one <= 3 * (one * vk));
    assert(3 * (one * vk) <= pow2(200) * vk) by (nonlinear_arith)
        requires
            pow2(200) == 0x8_0000_0000_0000 * one,
            0 < one,
            0 < vk,
    ;
    law_quotients_are_close(s, k);
    let t = s.over(k);
    lemma_back(vp, vk, vs, t.value(), one);
    lemma_limited_is_close(t, p);
}

proof fn lemma_straight_reads_back(center: Single, half: Single, p: Single)
    requires
        p.ge(num(0xbf80_0000)),  // -1
        p.le(num(0x3f80_0000)),
        is_moderate(half),
        center.magnitude() <= half.magnitude() + HIDDEN,
    ensures
        are_close(
            center.plus(half.times(p)).minus(center).over(half).clamp(
                num(0xbf80_0000),  // -1
                num(0x3f80_0000),
            ),
            p,
        ),
{
    let one = pow2(149) as int;
    let vp = p.value();
    let vh = half.value();
    let vc = center.value();
    lemma_position(p);
    lemma_moderate(half);
    lemma_at_most_twice(center, half);
    lemma_size(vp, vh);
    assert(vp * vh == vh * vp) by (nonlinear_arith);
    assert(away(vp, 0) * vh <= one * vh) by (nonlinear_arith)
        requires
            away(vp, 0) <= one,
            0 < vh,
    ;
    assert(one * vh <= pow2(200) * one) by (nonlinear_arith)
        requires
            0 < vh <= 0x10_0000 * one,
            pow2(200) == 0x8_0000_0000_0000 * one,
            one > 0,
    ;
    law_products_are_close(half, p);
    let a = half.times(p);
    let va = a.value();
    lemma_size(va, one);
    assert((away(va, 0) + 0x80_0000) * one == away(va, 0) * one + 0x80_0000 * one)
        by (nonlinear_arith);
    assert(away(va, 0) * one <= 2 * (one * vh) + one);
    assert(away(va, 0) <= 2 * vh + 1) by (nonlinear_arith)
        requires
            away(va, 0) * one <= 2 * (one * vh) + one,
            one > 0,
    ;
    law_sums_are_close(center, a);
    let raw = center.plus(a);
    let vr = raw.value();
    assert(away(vr, 0) <= 8 * vh + 0x80_0000);
    law_negation_is_opposite(center);
    law_sums_are_close(raw, center.negated());
    let b = raw.minus(center);
    let vb = b.value();
    assert(away(vb, 0) <= 20 * vh + 0x100_0000);
    assert(0x100_0000 * away(vb, va) <= 28 * vh + 0x200_0000);
    assert(away(vb, 0) * one <= pow2(200) * vh) by (nonlinear_arith)
        requires
            away(vb, 0) <= 20 * vh + 0x100_0000,
            pow2(200) == 0x8_0000_0000_0000 * one,
            vh >= 1,
            one > 0,
    ;
    law_quotients_are_close(b, half);
    let t = b.over(half);
    lemma_straight_back(vp, vh, vc, va, vr, vb, t.value(), one);
    lemma_limited_is_close(t, p);
}

/// A position reads back: the slider's position for the value at a position is that position, to
/// a hundred-thousandth. For the bent mappings `unbent` is the bend undone: where the bend was
/// taken.
pub proof fn law_position_reads_back(
    curve: CurveKind,
    center: Single,
    half: Single,
    p: Single,
    bend: Single,
    knee: Single,
    unbent: Single,
    scale: Single,
)
    requires
        p.ge(num(0xbf80_0000)),  // -1
        p.le(num(0x3f80_0000)),
        reads_back(curve, center, half, scale),
        curve != CurveKind::Linear ==> unbent == bend_at(curve, scale, p),
    ensures
        are_close(
            raw_to_slider(
                curve,
                center,
                half,
                slider_to_raw(curve, center, half, p, bend, knee),
                unbent,
                scale,
            ),
            p,
        ),
{
    lemma_position(p);
    match curve {
        CurveKind::Linear => {
            lemma_straight_reads_back(center, half, p);
        },
        CurveKind::SoftKnee => {
            lemma_scaled_and_back(p, num(SOFT_K), unbent);
        },
        CurveKind::LogSat => {
            lemma_scaled_and_back(p, scale, unbent);
        },
    }
}

} // verus!
