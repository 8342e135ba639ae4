//! Light and bytes, sliders and settings, and the mixing of versions of a picture: which way
//! each of them goes.

use crate::auto::{highlight_version, mixed_byte, shadow_version, with_plan, zone_weights};
use crate::color_engine::ColorPlan;
use crate::develop_laws::{is_share, lemma_pivot_sum_keeps_order};
use crate::lch::of_byte;
use crate::order::{
    law_adding_raises, law_difference_shows_order, law_differences_keep_order, law_dividing_by_more,
    law_dividing_keeps_order, law_doubling_is_exact, law_factors_stretch, law_limits_keep_order,
    law_rounding_keeps_order, law_scaling_keeps_order, law_shares_shrink, law_small_difference,
    law_small_product_is_finite, law_sum_lies_between, law_totals_keep_order,
    law_whole_numbers_are_exact, lemma_top_byte, lies_between,
};
use crate::perceptual::{bend_at, raw_to_slider, slider_to_raw, CurveKind, SOFT_K};
use crate::pipeline::Adjustments;
use crate::single::{
    is_small, law_one_is_neutral, law_order_is_numeric, law_self_quotient_is_one,
    law_small_integers_are_whole, law_sum_commutes, law_sums_keep_order, law_whole_parts_keep_order,
    law_zero_becomes_zero, law_zero_is_neutral, lemma_any_zero_times_is_zero, lemma_small_sum,
    lemma_ulps_form, num, Single,
};
use crate::transfer::{encoded, light_base, light_byte, share_of, srgb_to_linear};
use vstd::arithmetic::power2::{lemma2_to64, lemma_pow2_adds, lemma_pow2_pos, pow2};
use vstd::prelude::*;

verus! {

/// Bytes are in the order of their numbers, from 0 to 255.
pub proof fn lemma_bytes_in_order(a: u8, b: u8)
    requires
        a <= b,
    ensures
        of_byte(a).le(of_byte(b)),
        num(0).le(of_byte(a)),
        lies_between(of_byte(a), 0, 255) && lies_between(of_byte(b), 0, 255),
        a < b ==> of_byte(a).lt(of_byte(b)),
{
    law_whole_numbers_are_exact(a as int);
    law_whole_numbers_are_exact(b as int);
    law_whole_numbers_are_exact(0);
    lemma_pow2_pos(149);
    let p = pow2(149) as int;
    let (i, j) = (a as int, b as int);
    assert(0 * p <= i * p && i * p <= j * p && j * p <= 255 * p && (i < j ==> i * p < j * p)) by (nonlinear_arith)
        requires
            0 <= i <= j <= 255,
            p > 0,
    ;
    assert(num(0).value() == 0) by {
        lemma_ulps_form(0, 0);
    }
    law_order_is_numeric(of_byte(a), of_byte(b));
    law_order_is_numeric(num(0), of_byte(a));
}

/// A larger byte is a larger share of white, and its light is no less: in proportion where both
/// are dark, and else by the base of its power, which rises.
pub proof fn law_light_rises_with_the_byte(a: u8, b: u8, p: Single)
    requires
        a <= b,
    ensures
        share_of(a).le(share_of(b)),
        num(0).le(share_of(a)),
        light_base(b) is None ==> light_base(a) is None && srgb_to_linear(a, p).le(srgb_to_linear(b, p)),
        light_base(a) matches Some(x) ==> (light_base(b) matches Some(y) && x.le(y) && num(0).lt(x)),
{
    let white = num(0x437f_0000);
    lemma_bytes_in_order(a, b);
    lemma_bytes_in_order(0, a);
    law_dividing_keeps_order(of_byte(a), of_byte(b), white);
    let (c, d) = (share_of(a), share_of(b));
    lemma_share_is_finite(a);
    lemma_share_is_finite(b);
    law_dividing_keeps_order(c, d, num(0x414e_b852));
    let e = num(0x3d61_47ae);
    law_sums_keep_order(c, d, e);
    law_adding_raises(e, c);
    law_sum_commutes(e, c);
    lemma_small_sum(c, e);
    lemma_small_sum(d, e);
    law_dividing_keeps_order(c.plus(e), d.plus(e), num(0x3f87_0a3d));
    law_dividing_keeps_order(e, c.plus(e), num(0x3f87_0a3d));
    lemma_offset_counts();
}

/// A byte over white is a share.
proof fn lemma_share_is_finite(a: u8)
    ensures
        is_share(share_of(a)),
{
    let white = num(0x437f_0000);
    lemma_bytes_in_order(a, 255);
    lemma_top_byte();
    law_dividing_keeps_order(of_byte(a), white, white);
    law_self_quotient_is_one(white);
}

/// The offset of the curve, over its factor, is above nothing.
proof fn lemma_offset_counts()
    ensures
        num(0).lt(num(0x3d61_47ae).over(num(0x3f87_0a3d))),
{
    let e = num(0x3d61_47ae);
    law_dividing_by_more(e, num(0x3f87_0a3d), num(0x4000_0000));
    lemma_half_counts(e);
}

proof fn lemma_half_counts(e: Single)
    requires
        e == num(0x3d61_47ae),
    ensures
        num(0).lt(e.over(num(0x4000_0000))),
{
    law_doubling_is_exact(num(0x3ce1_47ae));
    let h = num(0x3ce1_47ae);
    lemma_ulps_form(120, 0xe1_47ae);
    lemma_ulps_form(121, 0xe1_47ae);
    lemma_pow2_adds(120, 1);
    lemma2_to64();
    law_order_is_numeric(h.plus(h), e);
}

/// More light gives no smaller byte, as long as a power is taken of both or of neither.
pub proof fn law_bytes_rise_with_light(l: Single, m: Single, r: Single, s: Single)
    requires
        is_small(l) && is_small(m) && is_small(r) && is_small(s),
        l.le(m),
        num(0).le(r) && r.le(s),
        l.le(num(0x3b4d_2e1c)) == m.le(num(0x3b4d_2e1c)),  // 0.0031308
    ensures
        encoded(l, r).le(encoded(m, s)),
        light_byte(l, r) <= light_byte(m, s),
{
    let one = num(0x3f80_0000);
    let white = num(0x437f_0000);
    law_scaling_keeps_order(l, m, num(0x414e_b852));
    law_small_product_is_finite(l, num(0x414e_b852));
    law_small_product_is_finite(m, num(0x414e_b852));
    let k = num(0x3f87_0a3d);
    law_scaling_keeps_order(r, s, k);
    law_small_product_is_finite(k, r);
    law_small_product_is_finite(k, s);
    law_differences_keep_order(k.times(r), k.times(s), num(0x3d61_47ae));
    let (a, b) = (encoded(l, r), encoded(m, s));
    law_limits_keep_order(a, b, num(0), one);
    law_limits_keep_order(b, b, num(0), one);
    let (c, d) = (a.clamp(num(0), one), b.clamp(num(0), one));
    law_scaling_keeps_order(c, d, white);
    law_small_product_is_finite(c, white);
    law_small_product_is_finite(d, white);
    law_rounding_keeps_order(c.times(white), d.times(white));
    law_whole_parts_keep_order(c.times(white).round(), d.times(white).round(), 0, 255);
}

/// A slider that is moved up never lowers its setting, on any curve.
pub proof fn law_sliders_go_up(curve: CurveKind, center: Single, half: Single, low: Single, high: Single, a: Single, b: Single, knee: Single)
    requires
        is_small(center) && is_small(half) && is_small(a) && is_small(b),
        num(0).le(half) && num(0).le(center),
        num(0x3f00_0000).le(knee) && is_small(knee),  // 0.5
        low.le(high),
        a.le(b),
    ensures
        slider_to_raw(curve, center, half, low, a, knee).le(slider_to_raw(curve, center, half, high, b, knee)),
{
    let one = num(0x3f80_0000);
    match curve {
        CurveKind::Linear => {
            law_limits_keep_order(low, high, num(0xbf80_0000), one);
            law_limits_keep_order(high, high, num(0xbf80_0000), one);
            let (x, y) = (low.clamp(num(0xbf80_0000), one), high.clamp(num(0xbf80_0000), one));
            law_scaling_keeps_order(x, y, half);
            law_small_product_is_finite(half, x);
            law_small_product_is_finite(half, y);
            law_sums_keep_order(half.times(x), half.times(y), center);
        },
        CurveKind::SoftKnee => {
            law_scaling_keeps_order(a, b, half);
            law_small_product_is_finite(half, a);
            law_small_product_is_finite(half, b);
            law_dividing_keeps_order(half.times(a), half.times(b), knee);
            lemma_pivot_sum_keeps_order(center, half.times(a).over(knee), half.times(b).over(knee));
        },
        CurveKind::LogSat => {
            law_scaling_keeps_order(a, b, center);
        },
    }
}

/// A higher setting never shows as a lower position of its slider.
pub proof fn law_positions_go_up(curve: CurveKind, center: Single, half: Single, low: Single, high: Single, a: Single, b: Single, scale: Single)
    requires
        is_small(center) && is_small(low) && is_small(high) && is_small(a) && is_small(b),
        num(0).lt(half) && is_small(half),
        num(0).lt(scale) && is_small(scale),
        low.le(high),
        a.le(b),
    ensures
        raw_to_slider(curve, center, half, low, a, scale).le(raw_to_slider(curve, center, half, high, b, scale)),
{
    let one = num(0x3f80_0000);
    law_differences_keep_order(low, high, center);
    law_small_difference(low, center, num(0));
    law_small_difference(high, center, num(0));
    law_dividing_keeps_order(low.minus(center), high.minus(center), half);
    law_limits_keep_order(low.minus(center).over(half), high.minus(center).over(half), num(0xbf80_0000), one);
    law_dividing_keeps_order(a, b, num(SOFT_K));
    law_limits_keep_order(a.over(num(SOFT_K)), b.over(num(SOFT_K)), num(0xbf80_0000), one);
    law_dividing_keeps_order(a, b, scale);
    law_limits_keep_order(a.over(scale), b.over(scale), num(0xbf80_0000), one);
}

/// A position further up is never bent further down.
pub proof fn law_bends_go_up(curve: CurveKind, scale: Single, low: Single, high: Single)
    requires
        num(0).le(scale) && is_small(scale),
        low.le(high),
    ensures
        bend_at(curve, scale, low).le(bend_at(curve, scale, high)),
{
    let one = num(0x3f80_0000);
    law_limits_keep_order(low, high, num(0xbf80_0000), one);
    law_limits_keep_order(high, high, num(0xbf80_0000), one);
    let (x, y) = (low.clamp(num(0xbf80_0000), one), high.clamp(num(0xbf80_0000), one));
    law_scaling_keeps_order(x, y, num(SOFT_K));
    law_scaling_keeps_order(x, y, scale);
}

/// A mix of two bytes lies with its whole share at either end, and rises with each byte.
pub proof fn law_mixed_bytes_follow(m: Single, p: u8, q: u8, o: u8, n: u8)
    requires
        is_share(m),
        p <= q,
        o <= n,
    ensures
        mixed_byte(num(0x3f80_0000), p, o) == p,  // 1
        mixed_byte(num(0), p, o) == o,
        mixed_byte(m, p, o) <= mixed_byte(m, q, n),
{
    let one = num(0x3f80_0000);
    lemma_mix_ends(p, o);
    lemma_bytes_in_order(p, q);
    lemma_bytes_in_order(o, n);
    law_difference_shows_order(m, one);
    law_adding_raises(one, m);
    let r = one.minus(m);
    lemma_weighted_byte(m, p);
    lemma_weighted_byte(m, q);
    lemma_weighted_byte(r, o);
    lemma_weighted_byte(r, n);
    law_scaling_keeps_order(of_byte(p), of_byte(q), m);
    law_scaling_keeps_order(of_byte(o), of_byte(n), r);
    let (a, b) = (m.times(of_byte(p)), m.times(of_byte(q)));
    let (c, d) = (r.times(of_byte(o)), r.times(of_byte(n)));
    law_sum_lies_between(a, c, 0, 255, 0, 255);
    law_sum_lies_between(b, d, 0, 255, 0, 255);
    law_totals_keep_order(a, b, c, d);
    law_rounding_keeps_order(a.plus(c), b.plus(d));
    law_whole_parts_keep_order(a.plus(c).round(), b.plus(d).round(), 0, 255);
}

/// A share of a byte lies between nothing and white.
proof fn lemma_weighted_byte(m: Single, p: u8)
    requires
        is_share(m),
    ensures
        lies_between(m.times(of_byte(p)), 0, 255),
        num(0).le(m.times(of_byte(p))),
{
    lemma_bytes_in_order(p, 255);
    let x = of_byte(p);
    law_shares_shrink(x, m);
    lemma_pow2_pos(149);
    lemma_ulps_form(0, 0);
    law_order_is_numeric(num(0), m.times(x));
    law_order_is_numeric(m.times(x), x);
}

/// With all of the share on one side a mix is that side's byte.
proof fn lemma_mix_ends(p: u8, o: u8)
    ensures
        mixed_byte(num(0x3f80_0000), p, o) == p,
        mixed_byte(num(0), p, o) == o,
{
    let one = num(0x3f80_0000);
    let (x, y) = (of_byte(p), of_byte(o));
    lemma_bytes_in_order(p, 255);
    lemma_bytes_in_order(o, 255);
    law_one_is_neutral(x);
    law_one_is_neutral(y);
    law_difference_shows_order(one, one);
    lemma_any_zero_times_is_zero(one.minus(one), y);
    law_zero_is_neutral(x, one.minus(one).times(y));
    lemma_any_zero_times_is_zero(num(0), x);
    law_zero_is_neutral(one, num(0).negated());
    let z = num(0).times(x);
    law_sum_commutes(z, y);
    law_zero_is_neutral(y, z);
    lemma_whole_byte(x.plus(one.minus(one).times(y)), p);
    lemma_whole_byte(z.plus(y), o);
}

/// What stands for a byte rounds to it.
pub proof fn lemma_whole_byte(v: Single, b: u8)
    requires
        v.same(of_byte(b)),
    ensures
        v.round().truncated(0, 255) == b,
{
    law_small_integers_are_whole(b as int, 0, 255);
    if b == 0 {
        law_whole_numbers_are_exact(0);
        lemma_ulps_form(0, 0);
        law_order_is_numeric(of_byte(0), num(0));
        law_zero_becomes_zero(v);
    } else {
        lemma_bytes_in_order(0, b);
        assert(v == of_byte(b));
    }
}

/// Between dark and bright only the plain version counts, and in black too.
pub proof fn law_plain_version_holds_the_middle(l: Single)
    requires
        is_share(l),
    ensures
        // 0.35, 0.75
        num(0x3eb3_3333).le(l) && l.le(num(0x3f40_0000)) ==> zone_weights(l) == (num(0), num(0x3f80_0000), num(0)),
        l.lt(num(0x3d75_c28f)) ==> zone_weights(l) == (num(0), num(0x3f80_0000), num(0)),  // 0.06
        l.le(num(0x3f40_0000)) ==> zone_weights(l).2 == num(0),
        num(0x3eb3_3333).le(l) ==> zone_weights(l).0 == num(0),
{
    law_zero_is_neutral(num(0x3f80_0000), num(0).negated());
}

/// The version for the shadows lifts them, and the one for the highlights holds them, the more
/// so with more strength and no further than their limits.
pub proof fn law_versions_go_their_way(a: Adjustments, less: Single, more: Single)
    requires
        num(0).le(less) && less.le(more) && is_small(more),
        is_small(a.grade.shadow_lift) && a.grade.shadow_lift.le(num(0x3f00_0000)),  // 0.5
        is_small(a.grade.deep_shadow_lift) && a.grade.deep_shadow_lift.le(num(0x3f00_0000)),  // 0.5
        is_small(a.grade.light_ratio) && a.grade.light_ratio.le(num(0x3f19_999a)),  // 0.6
        is_small(a.grade.film_curve) && a.grade.film_curve.le(num(0x3ecc_cccd)),  // 0.4
    ensures
        a.grade.shadow_lift.le(shadow_version(&a, less).grade.shadow_lift),
        shadow_version(&a, less).grade.shadow_lift.le(shadow_version(&a, more).grade.shadow_lift),
        a.grade.deep_shadow_lift.le(shadow_version(&a, less).grade.deep_shadow_lift),
        shadow_version(&a, less).grade.deep_shadow_lift.le(shadow_version(&a, more).grade.deep_shadow_lift),
        a.grade.light_ratio.le(highlight_version(&a, less).grade.light_ratio),
        highlight_version(&a, less).grade.light_ratio.le(highlight_version(&a, more).grade.light_ratio),
        a.grade.film_curve.le(highlight_version(&a, less).grade.film_curve),
        highlight_version(&a, less).grade.film_curve.le(highlight_version(&a, more).grade.film_curve),
{
    lemma_raised_to(a.grade.shadow_lift, num(0x3e38_51ec), less, more, num(0x3f00_0000));
    lemma_raised_to(a.grade.deep_shadow_lift, num(0x3df5_c28f), less, more, num(0x3f00_0000));
    lemma_raised_to(a.grade.light_ratio, num(0x3dcc_cccd), less, more, num(0x3f19_999a));
    lemma_raised_to(a.grade.film_curve, num(0x3d75_c28f), less, more, num(0x3ecc_cccd));
}

/// A setting that is raised in proportion, up to a limit.
proof fn lemma_raised_to(x: Single, k: Single, less: Single, more: Single, top: Single)
    requires
        is_small(x),
        x.le(top),
        is_share(k),
        num(0).le(less) && less.le(more) && is_small(more),
        !top.is_nan(),
    ensures
        x.le(x.plus(k.times(less)).min(top)),
        x.plus(k.times(less)).min(top).le(x.plus(k.times(more)).min(top)),
{
    law_scaling_keeps_order(less, more, k);
    law_shares_shrink(less, k);
    law_shares_shrink(more, k);
    law_sums_keep_order(k.times(less), k.times(more), x);
    law_adding_raises(x, k.times(less));
}

/// A plan adds its vibrance to a setting and multiplies its saturation.
pub proof fn law_plan_goes_on_top(a: Adjustments, plan: ColorPlan)
    requires
        is_small(a.color.vibrance) && is_small(a.color.saturation),
        is_small(plan.vibrance_target) && is_small(plan.saturation_target),
        num(0).le(a.color.saturation),
    ensures
        num(0).le(plan.vibrance_target) ==> a.color.vibrance.le(with_plan(&a, &plan).color.vibrance),
        plan.saturation_target == num(0x3f80_0000) ==> with_plan(&a, &plan).color.saturation == a.color.saturation,  // 1
        num(0x3f80_0000).le(plan.saturation_target) ==> a.color.saturation.le(with_plan(&a, &plan).color.saturation),
        is_share(plan.saturation_target) ==> with_plan(&a, &plan).color.saturation.le(a.color.saturation),
{
    if num(0).le(plan.vibrance_target) {
        law_adding_raises(a.color.vibrance, plan.vibrance_target);
    }
    law_one_is_neutral(a.color.saturation);
    if num(0x3f80_0000).le(plan.saturation_target) {
        law_factors_stretch(a.color.saturation, plan.saturation_target);
    }
    if is_share(plan.saturation_target) {
        law_shares_shrink(a.color.saturation, plan.saturation_target);
    }
}

} // verus!
