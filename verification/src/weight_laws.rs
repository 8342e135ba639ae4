//! How weights fall with distance: of neighbours in a blur, of hues from the hue that is looked
//! for, of tones from a zone and of bands of colour.

use crate::color_engine::{green_exponent, sky_exponent};
use crate::develop::{band_weights, nearest_of, zone_center, zone_exponent};
use crate::develop_laws::{is_share, lemma_two_halves};
use crate::freqsep::smoothing_exponent;
use crate::grading_laws::lemma_distance_is_a_share;
use crate::lch::hue_distance;
use crate::order::{
    is_finite, law_adding_raises, law_difference_shows_order, law_differences_keep_order,
    law_dividing_by_more, law_dividing_keeps_order, law_doubling_is_exact, law_exact_product,
    law_exact_sum, law_factors_stretch, law_negation_passes_through, law_product_sign,
    law_scaling_keeps_order, law_shares_shrink, law_small_difference, law_small_product_is_finite,
    law_whole_numbers_are_exact, lemma_binary,
};
use crate::single::{
    is_small, law_every_ratio_rounds, law_negation_is_opposite, law_order_is_numeric,
    law_product_commutes, law_quotients_are_close, law_self_quotient_is_one, law_sum_commutes,
    law_sums_keep_order, law_zero_is_neutral, lemma_any_zero_times_is_zero, lemma_exact_ratio,
    lemma_one, lemma_round_ratio, lemma_small_sum, lemma_ulps_form, lemma_ulps_monotone,
    lemma_ulps_step, lemma_units, num, ulps, Single,
};
use crate::spatial::blur_exponent;
use vstd::arithmetic::power2::{lemma2_to64, lemma_pow2_adds, lemma_pow2_pos, pow2};
use vstd::prelude::*;

verus! {

/// The square of a number is that of its size.
proof fn lemma_square_of_size(x: Single)
    requires
        is_finite(x),
    ensures
        x.abs().times(x.abs()) == x.times(x),
        num(0).le(x.times(x)),
{
    if x.abs() != x {
        assert(x.abs() == x.negated());
        law_negation_passes_through(x, x);
        law_negation_passes_through(x, x.negated());
        assert(x.times(x).negated().negated() == x.times(x));
    }
    law_product_sign(x.abs(), x.abs());
}

/// Squares follow the size of their roots.
pub proof fn law_squares_follow_size(x: Single, y: Single)
    requires
        is_finite(x) && is_finite(y),
        x.abs().le(y.abs()),
    ensures
        num(0).le(x.times(x)),
        x.times(x).le(y.times(y)),
{
    lemma_square_of_size(x);
    lemma_square_of_size(y);
    law_scaling_keeps_order(x.abs(), y.abs(), x.abs());
    law_scaling_keeps_order(x.abs(), y.abs(), y.abs());
}

/// Minus half of a larger number that is not negative is no larger, and never positive.
proof fn lemma_minus_half(a: Single, b: Single)
    requires
        num(0).le(a),
        a.le(b),
    ensures
        num(0xbf00_0000).times(b).le(num(0xbf00_0000).times(a)),
        num(0xbf00_0000).times(a).le(num(0)),
        a.same(num(0)) ==> num(0xbf00_0000).times(a).same(num(0)),
{
    let half = num(0x3f00_0000);
    assert(half.negated() == num(0xbf00_0000));
    if a.same(num(0)) {
        law_product_commutes(num(0xbf00_0000), a);
        lemma_any_zero_times_is_zero(a, num(0xbf00_0000));
    }
    if is_finite(b) {
        law_negation_passes_through(half, a);
        law_negation_passes_through(half, b);
        law_scaling_keeps_order(a, b, half);
        law_product_sign(a, half);
    } else {
        lemma_minus_half_of_infinity(b);
        if is_finite(a) {
            law_negation_passes_through(half, a);
            law_product_sign(a, half);
        }
    }
}

proof fn lemma_minus_half_of_infinity(b: Single)
    requires
        !b.is_nan(),
        num(0).le(b),
        !is_finite(b),
    ensures
        num(0xbf00_0000).times(b) == num(0xff80_0000),
{
    reveal(Single::spec_times);
}

/// The exponent of a weight that falls as a bell: of two distances over one width.
proof fn lemma_bell(d: int, e: int, width: Single)
    requires
        -0x1_0000 <= d <= 0x1_0000,
        -0x1_0000 <= e <= 0x1_0000,
        -e <= d <= e || e <= d <= -e,
        num(0x3e80_0000).le(width) && is_finite(width),  // 0.25
    ensures
        ({
            let x = Single::spec_from_int(d).over(width);
            let y = Single::spec_from_int(e).over(width);
            &&& num(0).le(x.times(x)) && x.times(x).le(y.times(y))
            &&& d == 0 ==> x.times(x).same(num(0))
        }),
{
    let (a, b) = (Single::spec_from_int(d), Single::spec_from_int(e));
    law_whole_numbers_are_exact(d);
    law_whole_numbers_are_exact(e);
    lemma_size_over(d, width);
    lemma_size_over(e, width);
    let (x, y) = (a.over(width), b.over(width));
    let (i, j) = (if d < 0 { -d } else { d }, if e < 0 { -e } else { e });
    law_whole_numbers_are_exact(i);
    law_whole_numbers_are_exact(j);
    lemma_pow2_pos(149);
    let p = pow2(149) as int;
    assert(i * p <= j * p) by (nonlinear_arith)
        requires
            i <= j,
            p > 0,
    ;
    law_order_is_numeric(Single::spec_from_int(i), Single::spec_from_int(j));
    law_dividing_keeps_order(Single::spec_from_int(i), Single::spec_from_int(j), width);
    lemma_quotient_is_finite(i, width);
    lemma_quotient_is_finite(j, width);
    law_squares_follow_size(x, y);
    if d == 0 {
        lemma_ulps_form(0, 0);
        assert(d * p == 0) by (nonlinear_arith)
            requires
                d == 0,
        ;
        law_order_is_numeric(a, num(0));
        lemma_zero_over(a, width);
        lemma_any_zero_times_is_zero(x, x);
    }
}

proof fn lemma_zero_over(a: Single, width: Single)
    requires
        a.same(num(0)),
        num(0).lt(width) && is_finite(width),
    ensures
        a.over(width).same(num(0)),
{
    law_dividing_keeps_order(a, a, width);
}

/// The size of a whole number over a width.
proof fn lemma_size_over(d: int, width: Single)
    requires
        num(0).lt(width) && is_finite(width),
        -0x1_0000 <= d <= 0x1_0000,
    ensures
        Single::spec_from_int(d).over(width).abs() == Single::spec_from_int(if d < 0 {
            -d
        } else {
            d
        }).over(width).abs(),
        num(0).le(Single::spec_from_int(if d < 0 {
            -d
        } else {
            d
        }).over(width)),
{
    reveal(Single::spec_from_int);
    let i = if d < 0 {
        -d
    } else {
        d
    };
    law_whole_numbers_are_exact(d);
    law_whole_numbers_are_exact(i);
    law_order_is_numeric(num(0), Single::spec_from_int(i));
    lemma_pow2_pos(149);
    assert(0 <= i * pow2(149)) by (nonlinear_arith)
        requires
            0 <= i,
            pow2(149) > 0,
    ;
    law_dividing_keeps_order(Single::spec_from_int(i), Single::spec_from_int(i), width);
    law_every_ratio_rounds(i * pow2(149), 1);
    assert(Single::spec_from_int(d).abs() == Single::spec_from_int(i).abs());
    assert(Single::spec_from_int(i).abs() == Single::spec_from_int(i));
    lemma_over_of_size(Single::spec_from_int(d), width);
}

/// A whole number of moderate size over a width of at least a quarter is finite.
proof fn lemma_quotient_is_finite(i: int, width: Single)
    requires
        0 <= i <= 0x1_0000,
        num(0x3e80_0000).le(width) && is_finite(width),
    ensures
        is_finite(Single::spec_from_int(i).over(width)),
{
    let a = Single::spec_from_int(i);
    law_whole_numbers_are_exact(i);
    lemma_binary(2);
    let q = num(0x3e80_0000);
    law_order_is_numeric(q, width);
    lemma_pow2_pos(149);
    lemma_pow2_pos(147);
    lemma_pow2_adds(147, 2);
    lemma_pow2_adds(149, 51);
    lemma_pow2_adds(20, 31);
    lemma_pow2_pos(31);
    lemma2_to64();
    let (p, r, t) = (pow2(149) as int, pow2(147) as int, pow2(51) as int);
    let w = width.value();
    let n = i * p;
    assert(0 <= n && n * p <= (p * t) * w) by (nonlinear_arith)
        requires
            n == i * p,
            0 <= i <= 0x1_0000,
            p == 4 * r,
            0 < r <= w,
            t >= 0x10_0000,
    {
        assert(n * p <= (0x1_0000 * p) * p);
        assert((0x1_0000 * p) * p == (0x4_0000 * p) * r);
        assert((0x4_0000 * p) * r <= (t * p) * r);
        assert((t * p) * r <= (t * p) * w);
    }
    law_quotients_are_close(a, width);
}

/// In a blur a neighbour counts the less the further it is, whatever the radius: the exponent of
/// its weight falls with the distance, from nothing.
pub proof fn law_blur_weights_fall(near: int, far: int, radius: int)
    requires
        -0x1_0000 <= far <= 0x1_0000,
        -far <= near <= far || far <= near <= -far,
        0 <= radius <= 0x1_0000,
    ensures
        blur_exponent(far, radius).le(blur_exponent(near, radius)),
        blur_exponent(near, radius).le(num(0)),
        blur_exponent(0, radius).same(num(0)),
{
    let half = num(0x3f00_0000);
    let two = num(0x4000_0000);
    let r = Single::spec_from_int(radius);
    law_whole_numbers_are_exact(radius);
    lemma_pow2_pos(149);
    assert(0 <= radius * pow2(149)) by (nonlinear_arith)
        requires
            0 <= radius,
            pow2(149) > 0,
    ;
    law_order_is_numeric(num(0), r);
    law_dividing_keeps_order(r, r, two);
    lemma_quotient_is_finite(radius, two);
    let v = r.over(two);
    law_adding_raises(half, v);
    law_sum_commutes(half, v);
    law_dividing_by_more(r, num(0x3f80_0000), two);
    lemma_one_divides(r);
    lemma_whole_is_small(radius);
    lemma_small_sum(v, half);
    let sigma = v.plus(half);
    lemma_bell(near, far, sigma);
    lemma_bell(0, 0, sigma);
    let x = Single::spec_from_int(near).over(sigma);
    let y = Single::spec_from_int(far).over(sigma);
    let z = Single::spec_from_int(0).over(sigma);
    lemma_minus_half(x.times(x), y.times(y));
    lemma_minus_half(z.times(z), z.times(z));
}

/// The same of the smoothing that parts tone from texture.
pub proof fn law_smoothing_weights_fall(near: int, far: int, width: Single)
    requires
        -0x1_0000 <= far <= 0x1_0000,
        -far <= near <= far || far <= near <= -far,
        num(0x3e80_0000).le(width) && is_finite(width),  // 0.25
    ensures
        smoothing_exponent(far, width).le(smoothing_exponent(near, width)),
        smoothing_exponent(near, width).le(num(0)),
        smoothing_exponent(0, width).same(num(0)),
{
    lemma_bell(near, far, width);
    lemma_bell(0, 0, width);
    let x = Single::spec_from_int(near).over(width);
    let y = Single::spec_from_int(far).over(width);
    let z = Single::spec_from_int(0).over(width);
    lemma_minus_half(x.times(x), y.times(y));
    lemma_minus_half(z.times(z), z.times(z));
}

/// A whole number of moderate size is small.
proof fn lemma_whole_is_small(n: int)
    requires
        0 <= n <= 0x1_0000,
    ensures
        is_small(Single::spec_from_int(n)),
{
    law_whole_numbers_are_exact(n);
    let top = num(0x4980_0000);
    lemma_ulps_form(146, 0x80_0000);
    lemma_pow2_adds(146, 3);
    lemma2_to64();
    lemma_pow2_pos(149);
    let (a, p) = (pow2(146) as int, pow2(149) as int);
    assert(n * p <= 0x80_0000 * a && 0 <= n * p) by (nonlinear_arith)
        requires
            p == 8 * a,
            0 <= n <= 0x1_0000,
            p > 0,
    ;
    law_order_is_numeric(Single::spec_from_int(n), top);
    law_order_is_numeric(num(0), Single::spec_from_int(n));
}

/// Dividing by one changes nothing.
proof fn lemma_one_divides(x: Single)
    requires
        num(0).le(x) && is_finite(x),
    ensures
        x.over(num(0x3f80_0000)).le(x),
{
    reveal(Single::spec_over);
    lemma_units();
    lemma_pow2_pos(149);
    lemma_exact_ratio(x.magnitude() as int, pow2(149) as int);
    lemma_round_ratio(ulps(x.magnitude() as int) * pow2(149), pow2(149) as int, x.magnitude() as int);
}

/// The exponent of a hue that is looked for: a nearer one has no lower weight.
proof fn lemma_hue_bell(d: Single, e: Single, k: Single)
    requires
        num(0).le(d) && d.le(e) && is_small(e),
        num(0).lt(k) && is_finite(k),
    ensures
        e.times(e).negated().over(k).le(d.times(d).negated().over(k)),
        d.times(d).negated().over(k).le(num(0)),
{
    law_squares_follow_size(d, e);
    law_small_product_is_finite(d, d);
    law_small_product_is_finite(e, e);
    let (a, b) = (d.times(d).negated(), e.times(e).negated());
    law_dividing_keeps_order(b, a, k);
}

/// A hue nearer to that of the sky, or of foliage, counts no less for it.
pub proof fn law_hue_weights_fall(near: Single, far: Single)
    requires
        is_small(near) && is_small(far),
    ensures
        // 240
        ({
            let (a, b) = (hue_distance(near, num(0x4370_0000)), hue_distance(far, num(0x4370_0000)));
            num(0).le(a) && a.le(b) && is_small(b) ==> sky_exponent(far).le(sky_exponent(near)) && sky_exponent(near).le(num(0))
        }),
        // 120
        ({
            let (a, b) = (hue_distance(near, num(0x42f0_0000)), hue_distance(far, num(0x42f0_0000)));
            num(0).le(a) && a.le(b) && is_small(b) ==> green_exponent(far).le(green_exponent(near)) && green_exponent(near).le(num(0))
        }),
{
    let two = num(0x4000_0000);
    let (m, n) = (num(0x41a0_0000), num(0x41b0_0000));
    lemma_width(m);
    lemma_width(n);
    let (a, b) = (hue_distance(near, num(0x4370_0000)), hue_distance(far, num(0x4370_0000)));
    if num(0).le(a) && a.le(b) && is_small(b) {
        lemma_hue_bell(a, b, two.times(m).times(m));
    }
    let (c, d) = (hue_distance(near, num(0x42f0_0000)), hue_distance(far, num(0x42f0_0000)));
    if num(0).le(c) && c.le(d) && is_small(d) {
        lemma_hue_bell(c, d, two.times(n).times(n));
    }
}

/// Twice the square of a width of one or more is positive and finite.
proof fn lemma_width(m: Single)
    requires
        num(0x3f80_0000).le(m),
        m.le(num(0x4380_0000)),
    ensures
        num(0).lt(num(0x4000_0000).times(m).times(m)),
        is_finite(num(0x4000_0000).times(m).times(m)),
{
    let two = num(0x4000_0000);
    let top = num(0x4380_0000);
    law_factors_stretch(two, m);
    law_small_product_is_finite(two, m);
    law_factors_stretch(two.times(m), m);
    law_scaling_keeps_order(m, top, two);
    lemma_twice_256();
    law_small_product_is_finite(two.times(m), m);
}

proof fn lemma_twice_256()
    ensures
        num(0x4000_0000).times(num(0x4380_0000)) == num(0x4400_0000),
{
    lemma_ulps_form(127, 0x80_0000);
    lemma_ulps_form(134, 0x80_0000);
    lemma_ulps_form(135, 0x80_0000);
    lemma_pow2_adds(134, 1);
    lemma_pow2_adds(127, 22);
    lemma2_to64();
    let (a, b) = (pow2(127) as int, pow2(134) as int);
    assert((0x80_0000 * a) * (0x80_0000 * b) == (0x80_0000 * (b * 2)) * (a * 0x40_0000)) by (nonlinear_arith);
    law_exact_product(num(0x4000_0000), num(0x4380_0000), num(0x4400_0000));
}

/// A tone nearer to the middle of a zone counts no less for it, and one at the middle most.
pub proof fn law_zone_weights_fall(near: Single, far: Single, i: usize)
    requires
        is_share(near) && is_share(far),
        near.minus(zone_center(i)).abs().le(far.minus(zone_center(i)).abs()),
    ensures
        zone_exponent(far, i).le(zone_exponent(near, i)),
        zone_exponent(near, i).le(num(0)),
        near == zone_center(i) ==> zone_exponent(near, i).same(num(0)),
{
    let c = zone_center(i);
    let k = num(0x3eae_147b);
    let half = num(0xbf00_0000);
    law_small_difference(near, c, num(0));
    law_small_difference(far, c, num(0));
    lemma_over_is_finite(near, c);
    lemma_over_is_finite(far, c);
    lemma_zone_square(near.minus(c), k);
    lemma_zone_square(far.minus(c), k);
    let (d, e) = (near.minus(c).abs(), far.minus(c).abs());
    law_dividing_keeps_order(d, e, k);
    let (x, y) = (d.over(k), e.over(k));
    let h = num(0x3f00_0000);
    law_scaling_keeps_order(x, y, h);
    law_shares_shrink(x, h);
    law_shares_shrink(y, h);
    law_scaling_keeps_order(h.times(x), h.times(y), x);
    law_scaling_keeps_order(x, y, h.times(y));
    law_product_sign(h.times(x), x);
    if near == c {
        law_difference_shows_order(near, near);
        lemma_zero_over(near.minus(c), k);
        let z = near.minus(c).over(k);
        law_product_commutes(half, z);
        lemma_any_zero_times_is_zero(z, half);
        lemma_any_zero_times_is_zero(half.times(z), z);
    }
}

/// Minus half a number times the number is that of its size, turned around.
proof fn lemma_zone_square(d: Single, k: Single)
    requires
        is_finite(d),
        num(0).lt(k) && is_finite(k),
        is_finite(d.abs().over(k)),
    ensures
        ({
            let x = d.over(k);
            let y = d.abs().over(k);
            num(0xbf00_0000).times(x).times(x) == num(0x3f00_0000).times(y).times(y).negated()
        }),
{
    let h = num(0x3f00_0000);
    let x = d.over(k);
    let y = d.abs().over(k);
    assert(h.negated() == num(0xbf00_0000));
    lemma_over_of_size(d, k);
    law_shares_shrink(y, h);
    law_negation_passes_through(h, y);
    let t = h.times(y);
    if d.abs() == d {
        law_negation_passes_through(t, y);
    } else {
        assert(x == y.negated());
        law_negation_passes_through(h, x);
        law_negation_passes_through(y, h.negated());
        assert(h.negated().times(x) == t) by {
            assert(h.negated().times(y.negated()) == h.negated().times(y).negated());
            assert(t.negated().negated() == t);
        }
        law_negation_passes_through(y, t);
    }
}

/// A quotient of a number turned around is turned around.
proof fn lemma_over_of_size(d: Single, k: Single)
    requires
        is_finite(d),
        num(0).lt(k) && is_finite(k),
    ensures
        d.abs() != d ==> d.over(k) == d.abs().over(k).negated(),
{
    reveal(Single::spec_over);
    let (u, v) = (ulps(d.magnitude() as int) as int, ulps(k.magnitude() as int) as int);
    lemma_ulps_monotone(0, k.magnitude() as int);
    lemma_ulps_step(d.magnitude() as int);
    lemma_pow2_pos(149);
    assert(0 <= u * pow2(149)) by (nonlinear_arith)
        requires
            0 <= u,
            pow2(149) > 0,
    ;
    law_every_ratio_rounds(u * pow2(149), v);
}

proof fn lemma_over_is_finite(x: Single, c: Single)
    requires
        is_share(x),
        is_share(c),
    ensures
        is_finite(x.minus(c).abs().over(num(0x3eae_147b))),
        num(0).le(x.minus(c).abs().over(num(0x3eae_147b))),
{
    let k = num(0x3eae_147b);
    let q = num(0x3e80_0000);
    let one = num(0x3f80_0000);
    lemma_distance_is_a_share(x, c);
    let d = x.minus(c).abs();
    law_dividing_by_more(d, q, k);
    law_dividing_keeps_order(d, one, q);
    lemma_one();
    lemma_quotient_is_finite(1, q);
}

/// Half of one is what is left after half.
proof fn lemma_difference_of_halves()
    ensures
        num(0x3f80_0000).minus(num(0x3f00_0000)) == num(0x3f00_0000),
{
    let half = num(0x3f00_0000);
    lemma_two_halves();
    law_negation_is_opposite(half);
    law_exact_sum(num(0x3f80_0000), half.negated(), half);
}

/// A number over its double is half.
proof fn lemma_half_of_double(b: Single)
    requires
        num(0).lt(b),
        is_small(b),
    ensures
        b.over(b.plus(b)) == num(0x3f00_0000),
{
    reveal(Single::spec_over);
    law_doubling_is_exact(b);
    law_adding_raises(b, b);
    let t = b.plus(b);
    lemma_two_halves();
    lemma_units();
    lemma_ulps_monotone(0, b.magnitude() as int);
    lemma_ulps_monotone(0, t.magnitude() as int);
    let (u, v) = (ulps(b.magnitude() as int), ulps(t.magnitude() as int));
    let p = pow2(149) as int;
    let m = num(0x3f00_0000).magnitude() as int;
    assert(u * p == ulps(m) * v) by (nonlinear_arith)
        requires
            v == 2 * u,
            p == 2 * ulps(m),
    ;
    lemma_exact_ratio(m, v);
    lemma_round_ratio(u * p, v, m);
}

/// Of the two bands at a hue the nearer one counts at least half.
pub proof fn law_nearer_band_counts_more(h: Single)
    requires
        num(0).le(nearest_of(h, 8).d1),
        nearest_of(h, 8).d1.le(nearest_of(h, 8).d2),
        is_small(nearest_of(h, 8).d2),
    ensures
        num(0x3f00_0000).le(band_weights(h).1),  // 0.5
        band_weights(h).3.le(num(0x3f00_0000)),
{
    let n = nearest_of(h, 8);
    let (a, b) = (n.d1, n.d2);
    let half = num(0x3f00_0000);
    let one = num(0x3f80_0000);
    let s = a.plus(b);
    lemma_small_sum(a, b);
    lemma_two_halves();
    lemma_difference_of_halves();
    if b.same(num(0)) {
        law_zero_is_neutral(a, b);
    }
    if s.gt(num(0)) {
        law_adding_raises(b, a);
        law_sum_commutes(a, b);
        law_dividing_by_more(b, b, s);
        law_self_quotient_is_one(b);
        law_doubling_is_exact(b);
        law_sums_keep_order(a, b, b);
        let t = b.plus(b);
        law_dividing_by_more(b, s, t);
        lemma_half_of_double(b);
        law_differences_keep_order(half, b.over(s), one);
    } else {
        law_difference_shows_order(one, one);
    }
}

} // verus!
