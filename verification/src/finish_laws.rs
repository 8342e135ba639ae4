//! What the finishing steps do to a pixel: sharpening, noise reduction, glow, smooth skin and
//! detail by scale.

use crate::advanced::{fused_value, scale_gain, smoothed_skin, PyramidFusion};
use crate::detail::{glow_share, glowing, range_exponent, range_factor};
use crate::develop_laws::{is_share, lemma_pivot_sum_keeps_order, lemma_scaling_below};
use crate::lch::{lemma_smoothstep_is_bounded, of_byte, smoothstep};
use crate::order::{
    is_finite, law_adding_lowers, law_adding_raises, law_difference_lies_between,
    law_difference_shows_order, law_differences_keep_order, law_dividing_by_more,
    law_dividing_keeps_order, law_doubling_is_exact, law_exact_product, law_factors_stretch,
    law_limits_keep_order, law_negation_passes_through, law_product_is_finite, law_product_sign,
    law_rounding_keeps_order, law_scaling_keeps_order, law_shares_shrink, law_small_difference,
    law_small_product_is_finite, law_sum_lies_between, law_totals_keep_order,
    law_whole_numbers_are_exact, lemma_small_lies, lemma_sum_is_a_number, lemma_top_byte,
    lies_between,
};
use crate::sharpen::{
    boost_of, light_weight, mixed_detail, sharpen_gain, sharpened, skin_weight, SharpenRecipe, Tint,
};
use crate::single::{
    is_small, law_negation_is_opposite, law_one_is_neutral, law_order_is_numeric,
    law_product_commutes, law_small_integers_are_exact, law_sum_commutes, law_sums_keep_order,
    law_whole_parts_keep_order, law_zero_is_neutral, lemma_any_zero_times_is_zero, lemma_small_sum,
    lemma_two_and_three, lemma_ulps_form, num, Single,
};
use crate::spatial::{law_byte_reads_back, limited_byte, luma};
use crate::tone_laws::lemma_bytes_in_order;
use vstd::arithmetic::power2::{lemma2_to64, lemma_pow2_adds, lemma_pow2_pos, pow2};
use vstd::prelude::*;

verus! {

/// Sharpening moves a lightness the way of its detail: up where the detail is positive, down
/// where it is negative, and not where there is none.
pub proof fn law_sharpening_follows_the_detail(recipe: SharpenRecipe, p: Tint, mixed: Single, strength: Single)
    requires
        is_share(p.l),
        is_share(strength),
        is_share(recipe.skin_protect),
        is_share(recipe.luma_protect),
        is_small(mixed),
    ensures
        num(0).le(mixed) ==> p.l.le(sharpened(&recipe, &p, mixed, strength)),
        mixed.le(num(0)) ==> sharpened(&recipe, &p, mixed, strength).le(p.l),
{
    let one = num(0x3f80_0000);
    let a = light_weight(&recipe, p.l);
    let b = skin_weight(&recipe, &p);
    law_small_difference(p.l, num(0x3f00_0000), num(0));
    law_middle_tones_are_sharpened_most(recipe, p.l, p.l);
    law_difference_shows_order(recipe.skin_protect, one);
    law_adding_raises(one, recipe.skin_protect);
    law_shares_shrink(mixed, a);
    let x = mixed.times(a);
    law_shares_shrink(x, b);
    let y = x.times(b);
    law_shares_shrink(y, strength);
    let z = y.times(strength);
    if num(0).le(mixed) {
        law_adding_raises(p.l, z);
    }
    if mixed.le(num(0)) {
        law_adding_lowers(p.l, z);
    }
}

/// A lightness nearer to the middle is sharpened no less, and every weight is a share.
pub proof fn law_middle_tones_are_sharpened_most(recipe: SharpenRecipe, near: Single, far: Single)
    requires
        is_share(near) && is_share(far),
        is_share(recipe.luma_protect),
        near.minus(num(0x3f00_0000)).abs().le(far.minus(num(0x3f00_0000)).abs()),  // 0.5
    ensures
        light_weight(&recipe, far).le(light_weight(&recipe, near)),
        num(0x3e19_999a).le(light_weight(&recipe, near)),  // 0.15
        light_weight(&recipe, near).le(num(0x3f80_0000)),  // 1
{
    let one = num(0x3f80_0000);
    let two = num(0x4000_0000);
    let half = num(0x3f00_0000);
    law_small_difference(near, half, two);
    law_small_difference(far, half, two);
    let (a, b) = (near.minus(half).abs(), far.minus(half).abs());
    lemma_abs_lies(near);
    lemma_abs_lies(far);
    law_scaling_keeps_order(a, b, two);
    law_product_is_finite(a, two);
    law_product_is_finite(b, two);
    let (c, d) = (a.times(two), b.times(two));
    law_product_sign(a, two);
    law_product_sign(b, two);
    law_shares_shrink(c, recipe.luma_protect);
    law_shares_shrink(d, recipe.luma_protect);
    law_scaling_keeps_order(c, d, recipe.luma_protect);
    let (e, f) = (c.times(recipe.luma_protect), d.times(recipe.luma_protect));
    law_differences_keep_order(e, f, one);
    law_limits_keep_order(one.minus(f), one.minus(e), num(0x3e19_999a), one);
    law_limits_keep_order(one.minus(e), one.minus(e), num(0x3e19_999a), one);
}

/// How far a share lies from the middle is a moderate number.
proof fn lemma_abs_lies(x: Single)
    requires
        is_share(x),
    ensures
        lies_between(x.minus(num(0x3f00_0000)).abs(), -0x40_0000, 0x40_0000),
        lies_between(num(0x4000_0000), -0x40_0000, 0x40_0000),
{
    let half = num(0x3f00_0000);
    law_small_difference(x, half, num(0));
    let d = x.minus(half);
    law_negation_is_opposite(d);
    lemma_small_lies(num(0x4000_0000));
    lemma_pow2_pos(149);
}

/// Skin is sharpened no more than anything else.
pub proof fn law_skin_is_spared(recipe: SharpenRecipe, p: Tint)
    requires
        is_share(recipe.skin_protect),
    ensures
        num(0).le(skin_weight(&recipe, &p)),
        skin_weight(&recipe, &p).le(num(0x3f80_0000)),  // 1
{
    law_difference_shows_order(recipe.skin_protect, num(0x3f80_0000));
    law_adding_raises(num(0x3f80_0000), recipe.skin_protect);
}

/// A picture that was made smaller is sharpened no less, up to a limit of 1.25.
pub proof fn law_smaller_pictures_get_more_gain(recipe: SharpenRecipe, small: Single, large: Single)
    requires
        is_small(small) && is_small(large),
        small.le(large),
        is_small(recipe.base_gain),
    ensures
        sharpen_gain(&recipe, large).le(sharpen_gain(&recipe, small)),
        recipe.base_gain.le(num(0x3fa0_0000)) ==> recipe.base_gain.le(sharpen_gain(&recipe, large)),  // 1.25
        sharpen_gain(&recipe, small).le(num(0x3fa0_0000)),
{
    let one = num(0x3f80_0000);
    law_differences_keep_order(small, large, one);
    law_limits_keep_order(one.minus(large), one.minus(small), num(0), one);
    let (a, b) = (one.minus(large).clamp(num(0), one), one.minus(small).clamp(num(0), one));
    law_limits_keep_order(one.minus(small), one.minus(small), num(0), one);
    law_limits_keep_order(one.minus(large), one.minus(large), num(0), one);
    law_one_is_neutral(a);
    law_one_is_neutral(b);
    lemma_small_sum(recipe.base_gain, a);
    lemma_small_sum(recipe.base_gain, b);
    law_sums_keep_order(a, b, recipe.base_gain);
    law_adding_raises(recipe.base_gain, a);
}

/// The detail that is added has the sign of the detail found, and a larger boost adds no less of
/// it either way.
pub proof fn law_boost_strengthens_detail(detail: Single, less: Single, more: Single, tanh: Single)
    requires
        is_small(detail) && is_small(less) && is_small(more),
        num(0).le(less) && less.le(more),
        is_small(tanh),
        num(0).le(detail) ==> num(0).le(tanh),
        detail.le(num(0)) ==> tanh.le(num(0)),
    ensures
        num(0).le(detail) ==> num(0).le(mixed_detail(detail, less, tanh)) && mixed_detail(detail, less, tanh).le(mixed_detail(detail, more, tanh)),
        detail.le(num(0)) ==> mixed_detail(detail, less, tanh).le(num(0)) && mixed_detail(detail, more, tanh).le(mixed_detail(detail, less, tanh)),
{
    let (k, m, n) = (num(0x3ecc_cccd), num(0x3f0c_cccd), num(0x3ee6_6666));
    law_small_product_is_finite(detail, less);
    law_small_product_is_finite(detail, more);
    law_product_sign(detail, less);
    law_product_sign(detail, more);
    let (a, b) = (detail.times(less), detail.times(more));
    law_shares_shrink(tanh, k);
    let soft = tanh.times(k);
    law_shares_shrink(soft, n);
    law_shares_shrink(a, m);
    law_shares_shrink(b, m);
    let t = soft.times(n);
    if num(0).le(detail) {
        law_scaling_keeps_order(less, more, detail);
        law_scaling_keeps_order(a, b, m);
        law_adding_raises(a.times(m), t);
    }
    if detail.le(num(0)) {
        lemma_scaling_below(detail, less, more);
        law_scaling_keeps_order(b, a, m);
        law_adding_lowers(a.times(m), t);
    }
    lemma_sum_is_a_number(a.times(m), t);
    lemma_sum_is_a_number(b.times(m), t);
    if num(0).le(detail) {
        law_totals_keep_order(a.times(m), b.times(m), t, t);
    }
    if detail.le(num(0)) {
        law_totals_keep_order(b.times(m), a.times(m), t, t);
    }
}

/// Flat places get a fifth of the gain, and edges their own boost.
pub proof fn law_edges_get_their_boost(recipe: SharpenRecipe, gain: Single, spread: Single)
    requires
        is_small(recipe.edge_boost) && !recipe.edge_boost.same(num(0)),
        is_small(gain) && !gain.times(num(0x3e4c_cccd)).same(num(0)),  // 0.2
        num(0).le(spread) && is_small(spread),
    ensures
        spread.same(num(0)) ==> boost_of(&recipe, gain, spread) == gain.times(num(0x3e4c_cccd)),  // 0.2
        num(0x3f80_0000).le(spread) ==> boost_of(&recipe, gain, spread) == recipe.edge_boost,  // 1
{
    let one = num(0x3f80_0000);
    let six = num(0x40c0_0000);
    let k = num(0x3e4c_cccd);
    let g = gain.times(k);
    law_shares_shrink(gain, k);
    if spread.same(num(0)) {
        lemma_any_zero_times_is_zero(spread, six);
        let edge = spread.times(six).clamp(num(0), one);
        lemma_any_zero_times_is_zero(edge, recipe.edge_boost);
        law_zero_is_neutral(one, edge.negated());
        law_one_is_neutral(g);
        law_zero_is_neutral(g, edge.times(recipe.edge_boost));
    }
    if one.le(spread) {
        law_factors_stretch(spread, six);
        let edge = spread.times(six).clamp(num(0), one);
        assert(edge == one);
        law_one_is_neutral(recipe.edge_boost);
        law_difference_shows_order(one, one);
        lemma_any_zero_times_is_zero(one.minus(one), g);
        law_zero_is_neutral(recipe.edge_boost, one.minus(one).times(g));
    }
}

/// A square turned around, of two numbers by their size.
proof fn lemma_squares_follow_size(x: Single, y: Single)
    requires
        is_small(x) && is_small(y),
        x.abs().le(y.abs()),
    ensures
        num(0).le(x.times(x)),
        x.times(x).le(y.times(y)),
        is_finite(x.times(x)) && is_finite(y.times(y)),
{
    lemma_square_of_size(x);
    lemma_square_of_size(y);
    law_small_product_is_finite(x, x);
    law_small_product_is_finite(y, y);
    law_scaling_keeps_order(x.abs(), y.abs(), x.abs());
    law_scaling_keeps_order(x.abs(), y.abs(), y.abs());
    law_product_sign(x.abs(), x.abs());
}

proof fn lemma_square_of_size(x: Single)
    requires
        is_small(x),
    ensures
        x.abs().times(x.abs()) == x.times(x),
{
    if x.abs() != x {
        assert(x.abs() == x.negated());
        law_negation_passes_through(x, x);
        law_negation_passes_through(x, x.negated());
        assert(x.times(x).negated().negated() == x.times(x));
    }
}

/// A neighbour counts the less for noise reduction the more its brightness differs: the exponent
/// of its weight is never positive, nothing for the same brightness, and falls with the distance.
pub proof fn law_unlike_neighbours_count_less(near: Single, far: Single, here: Single, factor: Single)
    requires
        lies_between(near, -0x100, 0x100) && lies_between(far, -0x100, 0x100) && lies_between(here, -0x100, 0x100),
        near.minus(here).abs().le(far.minus(here).abs()),
        num(0).le(factor) && is_small(factor),
    ensures
        range_exponent(far, here, factor).le(range_exponent(near, here, factor)),
        range_exponent(near, here, factor).le(num(0)),
        near.same(here) ==> range_exponent(near, here, factor).same(num(0)),
{
    law_difference_lies_between(near, here, -0x100, 0x100, -0x100, 0x100);
    law_difference_lies_between(far, here, -0x100, 0x100, -0x100, 0x100);
    lemma_lies_is_small(near.minus(here));
    lemma_lies_is_small(far.minus(here));
    let (d, e) = (near.minus(here), far.minus(here));
    lemma_squares_follow_size(d, e);
    let (a, b) = (d.times(d).negated(), e.times(e).negated());
    law_scaling_keeps_order(b, a, factor);
    law_product_sign(a, factor);
    law_difference_shows_order(here, near);
    if near.same(here) {
        lemma_any_zero_times_is_zero(d, d);
        lemma_any_zero_times_is_zero(a, factor);
    }
}

proof fn lemma_lies_is_small(x: Single)
    requires
        lies_between(x, -0x200, 0x200),
    ensures
        is_small(x),
{
    law_whole_numbers_are_exact(0x200);
    lemma_large_power();
    law_order_is_numeric(x, num(0x4400_0000));
    law_negation_is_opposite(num(0x4400_0000));
    assert(num(0x4400_0000).negated() == num(0xc400_0000));
    law_order_is_numeric(num(0xc400_0000), x);
}

proof fn lemma_large_power()
    ensures
        num(0x4400_0000).value() == 0x200 * pow2(149),
{
    lemma_ulps_form(135, 0x80_0000);
    lemma_pow2_adds(135, 14);
    lemma2_to64();
    let a = pow2(135) as int;
    assert(0x80_0000 * a == 0x200 * (a * 0x4000)) by (nonlinear_arith);
}

/// Glow moves a byte towards the smoothed one: never past the side it started on.
pub proof fn law_glow_goes_to_the_smooth_byte(share: Single, s: u8, b: u8)
    requires
        is_share(share),
    ensures
        s <= b ==> s <= glowing(share, s, b),
        b <= s ==> glowing(share, s, b) <= s,
{
    let (x, y) = (of_byte(s), of_byte(b));
    law_small_integers_are_exact(s as int);
    law_small_integers_are_exact(b as int);
    law_whole_numbers_are_exact(s as int);
    law_whole_numbers_are_exact(b as int);
    lemma_pow2_pos(149);
    let one = pow2(149) as int;
    let (i, j) = (s as int, b as int);
    assert((i <= j ==> i * one <= j * one) && (j <= i ==> j * one <= i * one)) by (nonlinear_arith)
        requires
            one > 0,
    ;
    law_order_is_numeric(x, y);
    law_order_is_numeric(y, x);
    law_difference_shows_order(x, y);
    law_difference_lies_between(y, x, b as int, b as int, s as int, s as int);
    let d = y.minus(x);
    law_shares_shrink(d, share);
    let t = share.times(d);
    lemma_top_byte();
    lemma_byte_stays(s);
    let v = x.plus(t);
    if s <= b {
        law_adding_raises(x, t);
        law_limits_keep_order(x, v, num(0), num(0x437f_0000));
        lemma_limited_keeps_order(x, v);
    }
    if b <= s {
        law_adding_lowers(x, t);
        law_limits_keep_order(v, x, num(0), num(0x437f_0000));
        lemma_limited_keeps_order(v, x);
    }
}

/// A byte is its own limited byte.
proof fn lemma_byte_stays(s: u8)
    ensures
        limited_byte(of_byte(s)) == s,
        is_finite(of_byte(s)),
{
    law_whole_numbers_are_exact(s as int);
    law_byte_reads_back(of_byte(s), s);
}

/// A larger number gives no smaller byte.
proof fn lemma_limited_keeps_order(v: Single, w: Single)
    requires
        v.le(w),
    ensures
        limited_byte(v) <= limited_byte(w),
{
    let top = num(0x437f_0000);
    law_limits_keep_order(v, w, num(0), top);
    law_limits_keep_order(w, w, num(0), top);
    let (a, b) = (v.clamp(num(0), top), w.clamp(num(0), top));
    law_rounding_keeps_order(a, b);
    law_whole_parts_keep_order(a.round(), b.round(), 0, 255);
}

/// Keeping more texture leaves skin nearer to what it was, on either side of the smoothed tone.
pub proof fn law_texture_is_kept(s: Single, b: Single, m: Single, less: Single, more: Single)
    requires
        lies_between(s, 0, 0x100) && lies_between(b, 0, 0x100),
        is_share(m) && is_share(less) && is_share(more),
        less.le(more),
    ensures
        b.le(s) ==> smoothed_skin(s, b, m, less).le(smoothed_skin(s, b, m, more)),
        s.le(b) ==> smoothed_skin(s, b, m, more).le(smoothed_skin(s, b, m, less)),
{
    let one = num(0x3f80_0000);
    law_difference_lies_between(s, b, 0, 0x100, 0, 0x100);
    law_difference_shows_order(b, s);
    let tex = s.minus(b);
    law_shares_shrink(tex, less);
    law_shares_shrink(tex, more);
    let (x, y) = (tex.times(less), tex.times(more));
    law_difference_shows_order(m, one);
    law_adding_raises(one, m);
    law_shares_shrink(s, one.minus(m));
    let rest = s.times(one.minus(m));
    lemma_lies_is_small_wide(b);
    lemma_lies_is_small(tex);
    lemma_small_sum(b, x);
    lemma_small_sum(b, y);
    law_shares_shrink(b.plus(x), m);
    law_shares_shrink(b.plus(y), m);
    if b.le(s) {
        law_scaling_keeps_order(less, more, tex);
        law_sums_keep_order(x, y, b);
        law_scaling_keeps_order(b.plus(x), b.plus(y), m);
        law_sums_keep_order(b.plus(x).times(m), b.plus(y).times(m), rest);
    }
    if s.le(b) {
        lemma_scaling_below(tex, less, more);
        law_sums_keep_order(y, x, b);
        law_scaling_keeps_order(b.plus(y), b.plus(x), m);
        law_sums_keep_order(b.plus(y).times(m), b.plus(x).times(m), rest);
    }
}

proof fn lemma_lies_is_small_wide(x: Single)
    requires
        lies_between(x, 0, 0x100),
    ensures
        is_small(x),
{
    lemma_pow2_pos(149);
    lemma_lies_is_small(x);
}

/// More strength never takes gain from a scale, and no scale gets less than it had.
pub proof fn law_scales_gain_with_strength(less: PyramidFusion, more: PyramidFusion, part: Single)
    requires
        num(0).le(less.strength) && less.strength.le(more.strength),
        is_small(more.strength),
        less.detail_scale == more.detail_scale,
        num(0).le(less.detail_scale) && is_small(less.detail_scale),
        is_share(part),
    ensures
        num(0x3f80_0000).le(scale_gain(&less, part)),  // 1
        scale_gain(&less, part).le(scale_gain(&more, part)),
{
    let one = num(0x3f80_0000);
    let k = less.detail_scale;
    law_small_product_is_finite(less.strength, k);
    law_small_product_is_finite(more.strength, k);
    law_scaling_keeps_order(less.strength, more.strength, k);
    law_product_sign(less.strength, k);
    law_product_sign(more.strength, k);
    let (a, b) = (less.strength.times(k), more.strength.times(k));
    law_shares_shrink(a, part);
    law_shares_shrink(b, part);
    law_scaling_keeps_order(a, b, part);
    law_adding_raises(one, a.times(part));
    law_adding_raises(one, b.times(part));
    law_sums_keep_order(a.times(part), b.times(part), one);
}

/// Stronger noise reduction lets neighbours count that differ more: its factor on the squared
/// difference falls.
pub proof fn law_stronger_smoothing_reaches_further(less: Single, more: Single)
    requires
        is_share(less) && is_share(more),
        less.le(more),
    ensures
        range_factor(more).le(range_factor(less)),
        num(0).le(range_factor(more)),
{
    let (one, two) = (num(0x3f80_0000), num(0x4000_0000));
    let (six, fifty) = (num(0x40c0_0000), num(0x4248_0000));
    law_scaling_keeps_order(less, more, fifty);
    law_shares_shrink(fifty, less);
    law_shares_shrink(fifty, more);
    let (a, b) = (less.times(fifty), more.times(fifty));
    law_sums_keep_order(a, b, six);
    law_adding_raises(six, a);
    law_adding_raises(six, b);
    lemma_width_lies(b);
    lemma_width_lies(a);
    let (x, y) = (six.plus(a), six.plus(b));
    law_scaling_keeps_order(x, y, two);
    law_small_product_is_finite(two, x);
    law_small_product_is_finite(two, y);
    law_factors_stretch(two, x);
    law_factors_stretch(two, y);
    let (p, q) = (two.times(x), two.times(y));
    lemma_twice_lies(x);
    lemma_twice_lies(y);
    law_scaling_keeps_order(p, q, x);
    law_scaling_keeps_order(x, y, q);
    law_small_product_is_finite(p, x);
    law_small_product_is_finite(q, y);
    law_factors_stretch(p, x);
    law_dividing_by_more(one, p.times(x), q.times(y));
}

/// Six and up to fifty are a moderate number.
proof fn lemma_width_lies(a: Single)
    requires
        num(0).le(a) && a.le(num(0x4248_0000)),
    ensures
        is_small(num(0x40c0_0000).plus(a)),
        lies_between(num(0x40c0_0000).plus(a), 0, 0x80),
{
    let six = num(0x40c0_0000);
    let top = num(0x4280_0000);  // 64
    lemma_sixty_four();
    lemma_ulps_form(0, 0);
    lemma_pow2_pos(149);
    assert(0 * pow2(149) == 0);
    law_order_is_numeric(num(0), a);
    law_order_is_numeric(a, top);
    law_order_is_numeric(num(0), six);
    law_order_is_numeric(six, top);
    law_sum_lies_between(six, a, 0, 0x40, 0, 0x40);
    assert(0x80 * pow2(149) <= 0x200 * pow2(149) && -0x200 * pow2(149) <= 0 * pow2(149)) by (nonlinear_arith)
        requires
            pow2(149) > 0,
    ;
    lemma_lies_is_small(six.plus(a));
}

proof fn lemma_sixty_four()
    ensures
        num(0x4280_0000).value() == 0x40 * pow2(149),
{
    lemma_ulps_form(132, 0x80_0000);
    lemma_pow2_adds(132, 17);
    lemma2_to64();
    let a = pow2(132) as int;
    assert(0x80_0000 * a == 0x40 * (a * 0x2_0000)) by (nonlinear_arith);
}

/// Twice a width is a moderate number.
proof fn lemma_twice_lies(x: Single)
    requires
        num(0).le(x) && is_small(x),
        lies_between(x, 0, 0x80),
    ensures
        is_small(num(0x4000_0000).times(x)),
{
    let two = num(0x4000_0000);
    let t = two.times(x);
    law_doubling_is_exact(x);
    law_small_product_is_finite(two, x);
    law_whole_numbers_are_exact(2);
    lemma_two_and_three();
    let p = pow2(149) as int;
    lemma_pow2_pos(149);
    let v = x.value();
    assert((2 * p) * v == (2 * v) * p) by (nonlinear_arith);
    law_exact_product(two, x, x.plus(x));
    law_order_is_numeric(t, x.plus(x));
    assert(2 * v <= 0x200 * p && -0x200 * p <= 2 * v) by (nonlinear_arith)
        requires
            0 * p <= v <= 0x80 * p,
            p > 0,
    ;
    lemma_lies_is_small(t);
}

/// Pixels up to a brightness of 0.45 do not glow, and none glows less than nothing.
pub proof fn law_dark_pixels_do_not_glow(amount: Single, red: u8, green: u8, blue: u8)
    requires
        is_share(amount),
        is_share(luma(red, green, blue).over(num(0x437f_0000))),
    ensures
        num(0).le(glow_share(amount, red, green, blue)),
        luma(red, green, blue).over(num(0x437f_0000)).le(num(0x3ee6_6666)) ==> glow_share(amount, red, green, blue).same(num(0)),  // 0.45
{
    let (lo, hi) = (num(0x3ee6_6666), num(0x3f73_3333));
    let (one, two, three) = (num(0x3f80_0000), num(0x4000_0000), num(0x4040_0000));
    let l = luma(red, green, blue).over(num(0x437f_0000));
    law_difference_shows_order(lo, hi);
    law_difference_shows_order(lo, l);
    law_small_difference(l, lo, num(0));
    law_small_difference(hi, lo, num(0));
    let d = l.minus(lo);
    law_dividing_keeps_order(d, d, hi.minus(lo));
    lemma_smoothstep_is_bounded(lo, hi, l);
    let s = smoothstep(lo, hi, l);
    law_product_sign(amount, s);
    if l.le(lo) {
        let t = d.over(hi.minus(lo)).clamp(num(0), one);
        lemma_any_zero_times_is_zero(t, t);
        lemma_any_zero_times_is_zero(t, two);
        law_product_commutes(two, t);
        law_zero_is_neutral(three, two.times(t).negated());
        lemma_any_zero_times_is_zero(t.times(t), three.minus(two.times(t)));
        law_product_commutes(amount, s);
        lemma_any_zero_times_is_zero(s, amount);
    }
}

/// Where each scale is brighter than the next coarser one, larger gains give no darker pixel.
pub proof fn law_fusion_follows_the_gains(lows: Seq<Seq<u8>>, less: Seq<Single>, more: Seq<Single>, i: int, k: int)
    requires
        0 <= k <= 4,
        forall|j: int| 0 <= j < 4 ==> is_small(#[trigger] less[j]) && is_small(more[j]) && less[j].le(more[j]),
        forall|j: int| 0 <= j < 4 ==> #[trigger] lows[j][i] >= lows[j + 1][i],
    ensures
        fused_value(lows, less, i, k).le(fused_value(lows, more, i, k)),
    decreases k,
{
    if k <= 0 {
        lemma_byte_stays(lows[4][i]);
    } else {
        law_fusion_follows_the_gains(lows, less, more, i, k - 1);
        let (a, b) = (fused_value(lows, less, i, k - 1), fused_value(lows, more, i, k - 1));
        let (p, q) = (lows[k - 1][i], lows[k][i]);
        assert(lows[k - 1][i] >= lows[k - 1 + 1][i]);
        lemma_bytes_in_order(q, p);
        let (x, y) = (of_byte(p), of_byte(q));
        law_whole_numbers_are_exact(p as int);
        law_whole_numbers_are_exact(q as int);
        law_difference_lies_between(x, y, p as int, p as int, q as int, q as int);
        law_difference_shows_order(y, x);
        let d = x.minus(y);
        lemma_pow2_pos(149);
        let u = pow2(149) as int;
        let (m, n) = (p as int, q as int);
        assert((m - n) * u <= 0x200 * u && -0x200 * u <= (m - n) * u) by (nonlinear_arith)
            requires
                0 <= m <= 255,
                0 <= n <= 255,
                u > 0,
        ;
        lemma_lies_is_small(d);
        assert(is_small(less[k - 1]) && is_small(more[k - 1]) && less[k - 1].le(more[k - 1]));
        law_small_product_is_finite(less[k - 1], d);
        law_small_product_is_finite(more[k - 1], d);
        law_scaling_keeps_order(less[k - 1], more[k - 1], d);
        let (s, t) = (less[k - 1].times(d), more[k - 1].times(d));
        lemma_pivot_sum_keeps_order(s, a, a);
        lemma_pivot_sum_keeps_order(t, b, b);
        law_sum_commutes(s, a);
        law_sum_commutes(t, b);
        law_totals_keep_order(a, b, s, t);
    }
}

} // verus!
