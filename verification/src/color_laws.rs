//! What the corrections of sky, foliage, warm light and shadows do to a colour, and how the plan
//! for them follows the scene.

use crate::analyze::ImageMetrics;
use crate::color_engine::{
    blue_shortfall, color_plan, correct_fluorescent, correct_green, correct_overcast,
    correct_shadow, correct_sky, correct_warm, green_probability, sky_probability, yellow_excess,
    ColorMetrics, ColorPlan, SceneRules, SceneType,
};
use crate::develop_laws::is_share;
use crate::lch::{shorter_way, wrap_degrees, Lch};
use crate::order::{
    is_finite, law_adding_lowers, law_adding_raises, law_difference_lies_between,
    law_difference_shows_order, law_differences_keep_order, law_dividing_keeps_order,
    law_limits_keep_order, law_product_sign, law_scaling_keeps_order, law_shares_shrink,
    law_small_difference, law_small_product_is_finite, law_sum_lies_between, law_totals_keep_order,
    law_whole_numbers_are_exact, lemma_sum_is_a_number, lies_between,
};
use crate::pipeline::{ColorGrade, HslRegions, SkinTone};
use crate::reference::{band_center, drawn_tint, hue_shortest_diff, moved_bands, stepped_color};
use crate::single::{
    is_small, law_order_is_numeric, law_self_quotient_is_one, law_sum_commutes, law_sums_keep_order,
    law_zero_is_neutral, lemma_any_zero_times_is_zero, lemma_one, lemma_small_sum, lemma_ulps_form,
    lemma_within_one_turn, num, Single, HIDDEN,
};
use vstd::arithmetic::power2::{lemma_pow2_adds, lemma_pow2_pos, pow2};
use vstd::prelude::*;

verus! {

/// A pattern of exponent and mantissa that holds a whole number.
proof fn lemma_whole_constant(n: int, q: int, m: int)
    requires
        125 <= q <= 149,
        HIDDEN <= m < 2 * HIDDEN,
        m == n * pow2((149 - q) as nat),
    ensures
        num((q * HIDDEN + m) as u32).value() == n * pow2(149),
{
    lemma_ulps_form(q, m);
    lemma_pow2_adds((149 - q) as nat, q as nat);
    let a = pow2((149 - q) as nat) as int;
    let b = pow2(q as nat) as int;
    assert(m * b == n * (a * b)) by (nonlinear_arith)
        requires
            m == n * a,
    ;
    assert(q * HIDDEN + m < 0x8000_0000);
}

/// The hues at which a correction begins, ends or aims, in degrees.
proof fn lemma_hues()
    ensures
        num(0x4218_0000).value() == 38 * pow2(149),
        num(0x4234_0000).value() == 45 * pow2(149),
        num(0x429c_0000).value() == 78 * pow2(149),
        num(0x42a0_0000).value() == 80 * pow2(149),
        num(0x42be_0000).value() == 95 * pow2(149),
        num(0x42ec_0000).value() == 118 * pow2(149),
        num(0x4311_0000).value() == 145 * pow2(149),
        num(0x4320_0000).value() == 160 * pow2(149),
        num(0x4334_0000).value() == 180 * pow2(149),
        num(0x434d_0000).value() == 205 * pow2(149),
        num(0x4361_0000).value() == 225 * pow2(149),
        num(0x4372_0000).value() == 242 * pow2(149),
        num(0x4384_8000).value() == 265 * pow2(149),
        num(0x4389_8000).value() == 275 * pow2(149),
        num(0x43b4_0000).value() == 360 * pow2(149),
        num(0xc334_0000).value() == -180 * pow2(149),
        num(0).value() == 0,
{
    vstd::arithmetic::power2::lemma2_to64();
    lemma_whole_constant(38, 131, 0x980000);
    lemma_whole_constant(45, 131, 0xb40000);
    lemma_whole_constant(78, 132, 0x9c0000);
    lemma_whole_constant(80, 132, 0xa00000);
    lemma_whole_constant(95, 132, 0xbe0000);
    lemma_whole_constant(118, 132, 0xec0000);
    lemma_whole_constant(145, 133, 0x910000);
    lemma_whole_constant(160, 133, 0xa00000);
    lemma_whole_constant(180, 133, 0xb40000);
    lemma_whole_constant(205, 133, 0xcd0000);
    lemma_whole_constant(225, 133, 0xe10000);
    lemma_whole_constant(242, 133, 0xf20000);
    lemma_whole_constant(265, 134, 0x848000);
    lemma_whole_constant(275, 134, 0x898000);
    lemma_whole_constant(360, 134, 0xb40000);
    lemma_ulps_form(0, 0);
}

/// Turning a hue by a share of a difference goes the way of the difference, and stays on the
/// circle where the ends do.
proof fn lemma_turned_by_a_share(h: Single, d: Single, w: Single, k: Single, a: int, b: int, c: int, e: int)
    requires
        lies_between(h, a, b),
        lies_between(d, c, e),
        is_share(w),
        is_share(k),
        c <= 0 <= e,
        0 <= a + c,
        a <= b,
        b + e < 360,
    ensures
        ({
            let t = h.plus(d.times(w).times(k));
            &&& wrap_degrees(t) == t
            &&& num(0).le(d) ==> h.le(t)
            &&& d.le(num(0)) ==> t.le(h)
        }),
{
    lemma_hues();
    lemma_pow2_pos(149);
    let p = pow2(149) as int;
    law_shares_shrink(d, w);
    let x = d.times(w);
    law_shares_shrink(x, k);
    let y = x.times(k);
    law_order_is_numeric(num(0), d);
    law_order_is_numeric(d, num(0));
    law_order_is_numeric(d, x);
    law_order_is_numeric(x, d);
    law_order_is_numeric(x, num(0));
    law_order_is_numeric(num(0), x);
    law_order_is_numeric(x, y);
    law_order_is_numeric(y, x);
    law_order_is_numeric(y, num(0));
    law_order_is_numeric(num(0), y);
    assert(c * p <= 0 <= e * p) by (nonlinear_arith)
        requires
            c <= 0 <= e,
            p > 0,
    ;
    assert(lies_between(y, c, e));
    law_sum_lies_between(h, y, a, b, c, e);
    let t = h.plus(y);
    assert(0 <= (a + c) * p && (b + e) * p < 360 * p) by (nonlinear_arith)
        requires
            0 <= a + c,
            b + e < 360,
            p > 0,
    ;
    law_order_is_numeric(num(0), t);
    law_order_is_numeric(t, num(0x43b4_0000));
    lemma_within_one_turn(t);
    if num(0).le(d) {
        law_adding_raises(h, y);
    }
    if d.le(num(0)) {
        law_adding_lowers(h, y);
    }
}

/// A hue between two others turns towards a third along the straight way.
proof fn lemma_turns_towards(h: Single, aim: Single, w: Single, k: Single, a: int, b: int, g: int)
    requires
        lies_between(h, a, b),
        lies_between(aim, g, g),
        is_share(w),
        is_share(k),
        40 <= a <= g <= b < 320,
        b - a <= 80,
        b <= a + g,
        b + g - a < 360,
    ensures
        ({
            let t = wrap_degrees(h.plus(shorter_way(aim.minus(h)).times(w).times(k)));
            &&& h.le(aim) ==> h.le(t)
            &&& aim.le(h) ==> t.le(h)
            &&& shorter_way(aim.minus(h)) == aim.minus(h)
        }),
{
    lemma_hues();
    lemma_pow2_pos(149);
    let p = pow2(149) as int;
    let d = aim.minus(h);
    law_difference_lies_between(aim, h, g, g, a, b);
    assert((g - a) * p <= 80 * p && -80 * p <= (g - b) * p) by (nonlinear_arith)
        requires
            g - a <= 80,
            b - g <= 80,
            p > 0,
    ;
    law_order_is_numeric(num(0x4334_0000), d);
    law_order_is_numeric(d, num(0xc334_0000));
    law_difference_shows_order(h, aim);
    lemma_turned_by_a_share(h, d, w, k, a, b, g - b, g - a);
}

/// The sky is turned towards a hue of 242 degrees. Blue in the middle of the band gains colour
/// and blue at its edges loses it; lightness stays.
pub proof fn law_sky_turns_blue(o: Lch, plan: ColorPlan, hue_w: Single)
    requires
        is_share(plan.sky_boost),
    ensures
        correct_sky(o, o, &plan, hue_w).l == o.l,
        o.h.le(num(0x4372_0000)) ==> o.h.le(correct_sky(o, o, &plan, hue_w).h),  // 242
        num(0x4372_0000).le(o.h) ==> correct_sky(o, o, &plan, hue_w).h.le(o.h),  // 242
        // 215, 255, 0.12
        num(0x4357_0000).le(o.h) && o.h.le(num(0x437f_0000)) && num(0).le(o.c) && o.c.le(num(0x3df5_c28f)) ==> o.c.le(correct_sky(o, o, &plan, hue_w).c),
        o.h.lt(num(0x4357_0000)) && num(0).le(o.c) && is_finite(o.c) ==> correct_sky(o, o, &plan, hue_w).c.le(o.c),
        num(0x437f_0000).lt(o.h) && num(0).le(o.c) && is_finite(o.c) ==> correct_sky(o, o, &plan, hue_w).c.le(o.c),
{
    let prob = sky_probability(o.h, o.c, o.l, hue_w);
    let w = plan.sky_boost.times(prob);
    if prob.gt(num(0)) && o.h.ge(num(0x434d_0000)) && o.h.le(num(0x4384_8000)) {
        law_shares_shrink(plan.sky_boost, prob);
        lemma_hues();
        law_order_is_numeric(num(0x434d_0000), o.h);
        law_order_is_numeric(o.h, num(0x4384_8000));
        lemma_turns_towards(o.h, num(0x4372_0000), w, num(0x3f26_6666), 205, 265, 242);
        lemma_dimmed(o.c, w, num(0x3e19_999a));
        lemma_raised(o.c, w, num(0x3c75_c28f));
    }
}

/// A colour times one less a share of a share is no stronger.
proof fn lemma_dimmed(c: Single, w: Single, k: Single)
    requires
        is_share(w),
        is_share(k),
    ensures
        num(0).le(c) && is_finite(c) ==> c.times(num(0x3f80_0000).minus(w.times(k))).le(c),
{
    let one = num(0x3f80_0000);
    law_shares_shrink(w, k);
    let t = w.times(k);
    law_adding_raises(one, t);
    law_difference_shows_order(t, one);
    if num(0).le(c) && is_finite(c) {
        law_shares_shrink(c, one.minus(t));
    }
}

/// Adding a share of a share never lowers a number.
proof fn lemma_raised(c: Single, w: Single, k: Single)
    requires
        is_share(w),
        is_share(k),
    ensures
        is_finite(c) ==> c.le(c.plus(w.times(k))),
{
    law_shares_shrink(w, k);
    if is_finite(c) {
        law_adding_raises(c, w.times(k));
    }
}

/// Foliage is turned towards a hue of 118 degrees, is never darkened below 0.35 and, where its
/// hue is far off, loses colour.
pub proof fn law_foliage_turns_green(o: Lch, plan: ColorPlan, hue_w: Single)
    requires
        is_share(plan.green_boost),
        num(0).le(o.c) && is_finite(o.c),
        !o.l.is_nan(),
    ensures
        o.h.le(num(0x42ec_0000)) ==> o.h.le(correct_green(o, o, &plan, hue_w).h),  // 118
        num(0x42ec_0000).le(o.h) ==> correct_green(o, o, &plan, hue_w).h.le(o.h),  // 118
        correct_green(o, o, &plan, hue_w).c.le(o.c),
        o.l.le(correct_green(o, o, &plan, hue_w).l),
        num(0x3eb3_3333).le(o.l) ==> correct_green(o, o, &plan, hue_w).l == o.l,  // 0.35
{
    let prob = green_probability(o.h, o.c, o.l, hue_w);
    let w = plan.green_boost.times(prob);
    if prob.gt(num(0)) && o.h.ge(num(0x42a0_0000)) && o.h.le(num(0x4320_0000)) {
        law_shares_shrink(plan.green_boost, prob);
        lemma_hues();
        law_order_is_numeric(num(0x42a0_0000), o.h);
        law_order_is_numeric(o.h, num(0x4320_0000));
        lemma_turns_towards(o.h, num(0x42ec_0000), w, num(0x3f0c_cccd), 80, 160, 118);
        lemma_dimmed(o.c, w, num(0x3e80_0000));
        lemma_raised(o.l, w, num(0x3cf5_c28f));
    }
}

/// Warm light is turned back towards orange, and gets no darker and no paler.
pub proof fn law_warm_light_turns_orange(o: Lch, plan: ColorPlan)
    requires
        is_share(plan.warm_boost),
        !o.h.is_nan() && !o.l.is_nan(),
        o.c.le(num(0x3e4c_cccd)),  // 0.2
        num(0).le(o.c),
    ensures
        correct_warm(o, o, &plan).h.le(o.h),
        o.c.le(correct_warm(o, o, &plan).c),
        o.l.le(correct_warm(o, o, &plan).l),
{
    if o.h.ge(num(0x4234_0000)) && o.h.le(num(0x429c_0000)) {
        lemma_hues();
        let aim = num(0x4218_0000);
        law_order_is_numeric(num(0x4234_0000), o.h);
        law_order_is_numeric(o.h, num(0x429c_0000));
        law_difference_lies_between(aim, o.h, 38, 38, 45, 78);
        law_difference_shows_order(o.h, aim);
        lemma_turned_by_a_share(o.h, aim.minus(o.h), plan.warm_boost, num(0x3f19_999a), 45, 78, -40, 0);
        lemma_raised(o.c, plan.warm_boost, num(0x3d23_d70a));
        lemma_raised(o.l, plan.warm_boost, num(0x3cf5_c28f));
    }
}

/// What is left of one after a part of a limit is a share, and less where more was taken.
proof fn lemma_rest_is_a_share(c: Single, limit: Single)
    requires
        num(0).le(c),
        c.lt(limit),
        is_finite(limit),
        limit.ge(num(0x3c00_0000)),
        limit.le(num(0x3f80_0000)),
    ensures
        is_share(num(0x3f80_0000).minus(c.over(limit))),
{
    let one = num(0x3f80_0000);
    law_dividing_keeps_order(c, limit, limit);
    law_self_quotient_is_one(limit);
    let q = c.over(limit);
    law_difference_shows_order(q, one);
    law_adding_raises(one, q);
}

/// A grey green cast of lamps is taken out: the colour gets no stronger, but for a last trace,
/// and no darker, and its hue stays.
pub proof fn law_lamp_cast_is_taken_out(o: Lch, plan: ColorPlan)
    requires
        is_share(plan.fluorescent_fix),
        num(0x3a83_126f).le(o.c) && is_finite(o.c),  // 0.001
        !o.l.is_nan(),
        o.l.le(num(0x3f40_0000)),  // 0.75
    ensures
        correct_fluorescent(o, o, &plan).c.le(o.c),
        o.l.le(correct_fluorescent(o, o, &plan).l),
        correct_fluorescent(o, o, &plan).h == o.h,
{
    if o.c.lt(num(0x3d75_c28f)) {
        lemma_rest_is_a_share(o.c, num(0x3d75_c28f));
        let rest = num(0x3f80_0000).minus(o.c.over(num(0x3d75_c28f)));
        law_shares_shrink(plan.fluorescent_fix, rest);
        let w = plan.fluorescent_fix.times(rest);
        lemma_dimmed(o.c, w, num(0x3f00_0000));
        lemma_raised(o.l, w, num(0x3cf5_c28f));
    }
}

/// Grey of an overcast day is turned from blue towards green and gets no darker; its colour keeps
/// its strength.
pub proof fn law_overcast_grey_is_warmed(o: Lch, plan: ColorPlan)
    requires
        is_share(plan.overcast_warm),
        num(0).le(o.c),
        !o.h.is_nan() && !o.l.is_nan(),
    ensures
        correct_overcast(o, o, &plan).h.le(o.h),
        o.l.le(correct_overcast(o, o, &plan).l),
        correct_overcast(o, o, &plan).c == o.c,
{
    if o.h.ge(num(0x4361_0000)) && o.h.le(num(0x4389_8000)) && o.c.lt(num(0x3d23_d70a)) {
        lemma_rest_is_a_share(o.c, num(0x3d23_d70a));
        let rest = num(0x3f80_0000).minus(o.c.over(num(0x3d23_d70a)));
        law_shares_shrink(plan.overcast_warm, rest);
        let w = plan.overcast_warm.times(rest);
        lemma_raised(o.l, w, num(0x3ca3_d70a));
        let eight = num(0x4100_0000);
        lemma_hues();
        law_shares_shrink(eight, w);
        let t = eight.times(w);
        law_adding_raises(o.h, t);
        law_order_is_numeric(num(0x4361_0000), o.h);
        law_order_is_numeric(o.h, num(0x4389_8000));
        law_order_is_numeric(num(0), t);
        law_order_is_numeric(t, num(0x4218_0000));
        lemma_pow2_pos(149);
        law_difference_lies_between(o.h, t, 225, 275, 0, 38);
        law_order_is_numeric(num(0), o.h.minus(t));
        law_order_is_numeric(o.h.minus(t), num(0x43b4_0000));
        lemma_within_one_turn(o.h.minus(t));
    }
}

/// Colour in the shadows is held back: without a limit it gets no stronger, a higher limit leaves
/// no less of it, and lightness and hue stay.
pub proof fn law_shadow_color_is_held_back(o: Lch, low: ColorPlan, high: ColorPlan)
    requires
        num(0).le(o.l),
        is_share(o.c),
        is_share(low.shadow_chroma_cap) && is_share(high.shadow_chroma_cap),
        low.shadow_chroma_cap.le(high.shadow_chroma_cap),
        high.shadow_chroma_cap.lt(o.c),
    ensures
        correct_shadow(o, o, &low).l == o.l,
        correct_shadow(o, o, &low).h == o.h,
        correct_shadow(o, o, &low).c.le(correct_shadow(o, o, &high).c),
        low.shadow_chroma_cap.same(num(0)) ==> correct_shadow(o, o, &low).c.le(o.c),
{
    let one = num(0x3f80_0000);
    let limit = num(0x3e8f_5c29);
    let k = num(0x3f19_999a);
    if o.l.lt(limit) {
        law_difference_shows_order(o.l, limit);
        law_adding_raises(limit, o.l);
        let d = limit.minus(o.l);
        law_dividing_keeps_order(d, limit, limit);
        law_self_quotient_is_one(limit);
        let t = d.over(limit);
        assert(is_share(t));
        lemma_dimmed(o.c, t, k);
        law_shares_shrink(t, k);
        law_adding_raises(one, t.times(k));
        law_difference_shows_order(t.times(k), one);
        law_shares_shrink(o.c, one.minus(t.times(k)));
        let left = o.c.times(one.minus(t.times(k)));
        let a = low.shadow_chroma_cap;
        let b = high.shadow_chroma_cap;
        law_shares_shrink(a, t);
        law_shares_shrink(b, t);
        law_scaling_keeps_order(a, b, t);
        law_shares_shrink(a.times(t), k);
        law_shares_shrink(b.times(t), k);
        law_scaling_keeps_order(a.times(t), b.times(t), k);
        law_sums_keep_order(a.times(t).times(k), b.times(t).times(k), left);
        law_sum_commutes(left, a.times(t).times(k));
        law_sum_commutes(left, b.times(t).times(k));
        if a.same(num(0)) {
            lemma_any_zero_times_is_zero(a, t);
            lemma_any_zero_times_is_zero(a.times(t), k);
            law_zero_is_neutral(left, a.times(t).times(k));
        }
    }
}

/// A factor rises with what it multiplies, up to its limit.
proof fn lemma_planned(k: Single, a: Single, b: Single, top: Single)
    requires
        num(0).le(k) && is_finite(k),
        num(0).le(a) && a.le(b) && is_finite(b),
        num(0).lt(top) && is_finite(top),
    ensures
        k.times(a).min(top).le(k.times(b).min(top)),
        num(0).le(k.times(a).min(top)),
        is_finite(k.times(a).min(top)),
        is_finite(k.times(b).min(top)),
{
    law_scaling_keeps_order(a, b, k);
    law_product_sign(a, k);
    law_product_sign(b, k);
}

/// The plan for a scene is no weaker where more strength is asked for: every boost rises with it
/// and none is negative. Of a vivid scene saturation is taken, to a flat one it is given, and any
/// other keeps it.
pub proof fn law_plan_follows_strength(cm: ColorMetrics, rules: SceneRules, less: Single, more: Single)
    requires
        is_small(rules.color_factor) && num(0).le(rules.color_factor),
        is_small(less) && is_small(more),
        num(0).le(less),
        less.le(more),
    ensures
        ({
            let a = color_plan(&cm, &rules, less);
            let b = color_plan(&cm, &rules, more);
            &&& num(0).le(a.vibrance_target) && a.vibrance_target.le(b.vibrance_target)
            &&& num(0).le(a.warm_boost) && a.warm_boost.le(b.warm_boost)
            &&& num(0).le(a.sky_boost) && a.sky_boost.le(b.sky_boost)
            &&& num(0).le(a.green_boost) && a.green_boost.le(b.green_boost)
            &&& num(0).le(a.fluorescent_fix) && a.fluorescent_fix.le(b.fluorescent_fix)
            &&& num(0).le(a.overcast_warm) && a.overcast_warm.le(b.overcast_warm)
            &&& cm.scene == SceneType::Vivid ==> b.saturation_target.le(a.saturation_target) && a.saturation_target.le(num(0x3f80_0000))
            &&& cm.scene == SceneType::FlatLowContrast ==> a.saturation_target.le(b.saturation_target) && num(0x3f80_0000).le(a.saturation_target)
            &&& cm.scene != SceneType::Vivid && cm.scene != SceneType::FlatLowContrast ==> a.saturation_target == num(0x3f80_0000)
        }),
{
    let one = num(0x3f80_0000);
    let f = rules.color_factor;
    law_scaling_keeps_order(less, more, f);
    law_product_sign(less, f);
    law_product_sign(more, f);
    law_small_product_is_finite(f, less);
    law_small_product_is_finite(f, more);
    let a = f.times(less);
    let b = f.times(more);
    lemma_planned(num(0x3e19_999a), a, b, num(0x3ecc_cccd));
    lemma_planned(num(0), a, b, num(0x3dcc_cccd));
    lemma_planned(num(0x3d4c_cccd), a, b, num(0x3e19_999a));
    lemma_planned(num(0x3da3_d70a), a, b, num(0x3e99_999a));
    lemma_planned(num(0x3d75_c28f), a, b, num(0x3e4c_cccd));
    lemma_planned(num(0x3d23_d70a), a, b, num(0x3e19_999a));
    lemma_planned(num(0x3da3_d70a), a, b, num(0x3e80_0000));
    lemma_planned(num(0x3eb3_3333), a, b, num(0x3f19_999a));
    lemma_planned(num(0x3e99_999a), a, b, num(0x3f0c_cccd));
    lemma_planned(num(0x3ecc_cccd), a, b, num(0x3f33_3333));
    lemma_planned(num(0x3e80_0000), a, b, num(0x3ee6_6666));
    lemma_planned(num(0x3da3_d70a), a, b, num(0x3e4c_cccd));
    lemma_planned(num(0x3d75_c28f), a, b, num(0x3e19_999a));
    let p = num(0x3da3_d70a).times(a).min(num(0x3e4c_cccd));
    let q = num(0x3da3_d70a).times(b).min(num(0x3e4c_cccd));
    law_adding_raises(one, p);
    law_differences_keep_order(p, q, one);
    let r = num(0x3d75_c28f).times(a).min(num(0x3e19_999a));
    let s = num(0x3d75_c28f).times(b).min(num(0x3e19_999a));
    law_adding_raises(one, r);
    law_sums_keep_order(r, s, one);
    law_sum_commutes(one, r);
    law_sum_commutes(one, s);
}

/// A step that is limited on both sides goes the way of what it is a part of.
proof fn lemma_limited_turn(old: Single, d: Single, k: Single, lo: Single, hi: Single)
    requires
        is_small(old),
        is_finite(d),
        is_share(k),
        lo.le(num(0)) && num(0).le(hi),
    ensures
        num(0).le(d) ==> old.le(old.plus(d.times(k).clamp(lo, hi))),
        d.le(num(0)) ==> old.plus(d.times(k).clamp(lo, hi)).le(old),
{
    law_shares_shrink(d, k);
    let t = d.times(k).clamp(lo, hi);
    if num(0).le(d) {
        law_adding_raises(old, t);
    }
    if d.le(num(0)) {
        law_adding_lowers(old, t);
    }
}

/// Of two pictures whose strongest bands differ, the band of the first turns towards that of the
/// second and gains no saturation, unless it is below 0.85; every other band stays.
pub proof fn law_strongest_band_turns(h: HslRegions, from: usize, to: usize, j: int)
    requires
        from < 8 && to < 8,
        from != to,
        is_small(h.hue_shift[from as int]),
        is_small(h.sat_mult[from as int]),
        is_finite(hue_shortest_diff(band_center(to), band_center(from))),
        0 <= j < 8,
    ensures
        num(0).le(hue_shortest_diff(band_center(to), band_center(from))) ==> h.hue_shift[from as int].le(moved_bands(h, from, to).hue_shift[from as int]),
        hue_shortest_diff(band_center(to), band_center(from)).le(num(0)) ==> moved_bands(h, from, to).hue_shift[from as int].le(h.hue_shift[from as int]),
        num(0x3f59_999a).le(h.sat_mult[from as int]) ==> moved_bands(h, from, to).sat_mult[from as int].le(h.sat_mult[from as int]),  // 0.85
        j != from ==> moved_bands(h, from, to).hue_shift[j] == h.hue_shift[j] && moved_bands(h, from, to).sat_mult[j] == h.sat_mult[j],
        moved_bands(h, from, to).light_mult == h.light_mult,
{
    let turn = hue_shortest_diff(band_center(to), band_center(from));
    lemma_limited_turn(h.hue_shift[from as int], turn, num(0x3eb3_3333), num(0xc20c_0000), num(0x420c_0000));
    law_adding_raises(h.sat_mult[from as int], num(0x3ca3_d70a));
}

/// A tint is drawn towards a hue the shorter way, and a step towards a reference turns the hue
/// that way too.
pub proof fn law_steps_turn_towards_the_hue(c: ColorGrade, m: ImageMetrics, reference: ImageMetrics, hue: Single, pull: Single)
    requires
        is_small(c.hue_rotate),
        num(0xc234_0000).le(c.split_shadow) && c.split_shadow.le(num(0x4234_0000)),  // -45, 45
        is_finite(hue_shortest_diff(hue, c.split_shadow)),
        is_finite(hue_shortest_diff(reference.color.mean_h_deg, m.color.mean_h_deg)),
        is_share(pull),
    ensures
        num(0).le(hue_shortest_diff(hue, c.split_shadow)) ==> c.split_shadow.le(drawn_tint(c.split_shadow, hue, pull)),
        hue_shortest_diff(hue, c.split_shadow).le(num(0)) ==> drawn_tint(c.split_shadow, hue, pull).le(c.split_shadow),
        num(0).le(hue_shortest_diff(reference.color.mean_h_deg, m.color.mean_h_deg)) ==> c.hue_rotate.le(
            stepped_color(&c, &m, &reference).hue_rotate,
        ),
        hue_shortest_diff(reference.color.mean_h_deg, m.color.mean_h_deg).le(num(0)) ==> stepped_color(&c, &m, &reference).hue_rotate.le(
            c.hue_rotate,
        ),
{
    let d = hue_shortest_diff(hue, c.split_shadow);
    law_shares_shrink(d, pull);
    let t = d.times(pull);
    let dh = hue_shortest_diff(reference.color.mean_h_deg, m.color.mean_h_deg);
    lemma_limited_turn(c.hue_rotate, dh, num(0x3e80_0000), num(0xc1c8_0000), num(0x41c8_0000));
    if num(0).le(d) {
        law_adding_raises(c.split_shadow, t);
    }
    if d.le(num(0)) {
        law_adding_lowers(c.split_shadow, t);
    }
}

/// Reddening skin never takes colour from its target and taking yellow out never gives any; a
/// lighter target is lifted no less, and pink turns its hue forward.
pub proof fn law_skin_targets_follow_the_controls(a: SkinTone, b: SkinTone)
    requires
        is_share(a.redden) && is_share(b.redden) && is_share(a.pinken) && is_share(b.pinken),
        is_share(a.yellow_reduce) && is_share(b.yellow_reduce) && is_share(a.lighten) && is_share(b.lighten),
        is_share(a.chroma_target) && a.chroma_target == b.chroma_target,
        is_share(a.light_lift) && a.light_lift == b.light_lift,
        a.redden.le(b.redden) && a.pinken.le(b.pinken) && a.lighten.le(b.lighten),
        b.yellow_reduce.le(a.yellow_reduce),
    ensures
        a.resolved_targets().0.le(b.resolved_targets().0),
        a.resolved_targets().1.le(b.resolved_targets().1),
        a.resolved_targets().2.le(b.resolved_targets().2),
{
    lemma_control(a.redden, b.redden, num(0x3ccc_cccd));
    lemma_control(a.pinken, b.pinken, num(0x3c75_c28f));
    lemma_control(b.yellow_reduce, a.yellow_reduce, num(0x3cf5_c28f));
    lemma_control(a.lighten, b.lighten, num(0x3d4c_cccd));
    let (r, s) = (a.redden.times(num(0x3ccc_cccd)), b.redden.times(num(0x3ccc_cccd)));
    let (p, q) = (a.pinken.times(num(0x3c75_c28f)), b.pinken.times(num(0x3c75_c28f)));
    let (y, z) = (a.yellow_reduce.times(num(0x3cf5_c28f)), b.yellow_reduce.times(num(0x3cf5_c28f)));
    let c = a.chroma_target;
    law_sums_keep_order(r, s, c);
    lemma_small_sum(c, r);
    lemma_small_sum(c, s);
    let (d, e) = (c.plus(r), c.plus(s));
    lemma_sum_is_a_number(d, p);
    lemma_sum_is_a_number(e, q);
    law_totals_keep_order(d, e, p, q);
    lemma_terms_of_chroma(c, r, p);
    lemma_terms_of_chroma(c, s, q);
    let (f, g) = (d.plus(p), e.plus(q));
    law_differences_keep_order(f, g, y);
    law_differences_keep_order(z, y, g);
    law_limits_keep_order(f.minus(y), g.minus(z), num(0x3cf5_c28f), num(0x3db8_51ec));
    law_sums_keep_order(a.lighten.times(num(0x3d4c_cccd)), b.lighten.times(num(0x3d4c_cccd)), a.light_lift);
    lemma_target_hue(a, b);
}

/// A control times its factor.
proof fn lemma_control(x: Single, y: Single, k: Single)
    requires
        is_share(x) && is_share(y) && x.le(y),
        is_share(k),
    ensures
        x.times(k).le(y.times(k)),
        is_share(x.times(k)) && is_share(y.times(k)),
{
    law_scaling_keeps_order(x, y, k);
    law_shares_shrink(x, k);
    law_shares_shrink(y, k);
}

/// A sum of three shares is finite.
proof fn lemma_terms_of_chroma(c: Single, r: Single, p: Single)
    requires
        is_share(c) && is_share(r) && is_share(p),
    ensures
        is_finite(c.plus(r).plus(p)),
{
    lemma_share_is_between(c);
    lemma_share_is_between(r);
    lemma_share_is_between(p);
    law_sum_lies_between(c, r, 0, 1, 0, 1);
    law_sum_lies_between(c.plus(r), p, 0, 2, 0, 1);
}

proof fn lemma_share_is_between(x: Single)
    requires
        is_share(x),
    ensures
        lies_between(x, 0, 1),
{
    law_whole_numbers_are_exact(1);
    lemma_one();
    lemma_ulps_form(0, 0);
    law_order_is_numeric(num(0), x);
    law_order_is_numeric(x, num(0x3f80_0000));
    lemma_pow2_pos(149);
    assert(0 * pow2(149) == 0);
}

/// The wanted hue: from 30 degrees, pink adds to it and yellow that is taken out lowers it.
proof fn lemma_target_hue(a: SkinTone, b: SkinTone)
    requires
        is_share(a.pinken) && is_share(b.pinken) && a.pinken.le(b.pinken),
        is_share(a.yellow_reduce) && is_share(b.yellow_reduce) && b.yellow_reduce.le(a.yellow_reduce),
    ensures
        a.resolved_targets().0.le(b.resolved_targets().0),
{
    let base = num(0x41f0_0000);
    let (six, four) = (num(0x40c0_0000), num(0x4080_0000));
    law_scaling_keeps_order(a.pinken, b.pinken, six);
    law_scaling_keeps_order(b.yellow_reduce, a.yellow_reduce, four);
    let (p, q) = (a.pinken.times(six), b.pinken.times(six));
    let (y, z) = (a.yellow_reduce.times(four), b.yellow_reduce.times(four));
    lemma_part_of(a.pinken, six);
    lemma_part_of(b.pinken, six);
    lemma_part_of(a.yellow_reduce, four);
    lemma_part_of(b.yellow_reduce, four);
    lemma_thirty();
    law_sums_keep_order(p, q, base);
    law_sum_lies_between(base, p, 30, 30, 0, 8);
    law_sum_lies_between(base, q, 30, 30, 0, 8);
    let (d, e) = (base.plus(p), base.plus(q));
    law_differences_keep_order(d, e, y);
    law_differences_keep_order(z, y, e);
    law_difference_lies_between(d, y, 30, 38, 0, 8);
    law_difference_lies_between(e, z, 30, 38, 0, 8);
    lemma_hues();
    lemma_pow2_pos(149);
    law_order_is_numeric(num(0), d.minus(y));
    law_order_is_numeric(d.minus(y), num(0x43b4_0000));
    law_order_is_numeric(num(0), e.minus(z));
    law_order_is_numeric(e.minus(z), num(0x43b4_0000));
    lemma_within_one_turn(d.minus(y));
    lemma_within_one_turn(e.minus(z));
}

proof fn lemma_thirty()
    ensures
        lies_between(num(0x41f0_0000), 30, 30),
        lies_between(num(0x4100_0000), 8, 8),
{
    vstd::arithmetic::power2::lemma2_to64();
    lemma_whole_constant(30, 130, 0xf0_0000);
    lemma_whole_constant(8, 129, 0x80_0000);
}

/// A share of up to eight.
proof fn lemma_part_of(x: Single, k: Single)
    requires
        is_share(x),
        num(0).le(k) && k.le(num(0x4100_0000)),
    ensures
        lies_between(x.times(k), 0, 8),
{
    law_shares_shrink(k, x);
    lemma_thirty();
    lemma_ulps_form(0, 0);
    lemma_pow2_pos(149);
    assert(0 * pow2(149) == 0);
    law_order_is_numeric(num(0), x.times(k));
    law_order_is_numeric(x.times(k), k);
    law_order_is_numeric(k, num(0x4100_0000));
}

/// The excess of yellow rises with the mean hue, and the shortfall of blue falls as the sky's hue
/// rises; neither is negative.
pub proof fn law_excess_follows_the_hue(scene: SceneType, sky: u64, low: Single, high: Single)
    requires
        is_small(low) && is_small(high),
        low.le(high),
    ensures
        num(0).le(yellow_excess(scene, low)),
        yellow_excess(scene, low).le(yellow_excess(scene, high)),
        num(0).le(blue_shortfall(sky, high)),
        blue_shortfall(sky, high).le(blue_shortfall(sky, low)),
{
    lemma_yellow_excess(scene, low, high);
    lemma_blue_shortfall(sky, low, high);
}

#[verifier::spinoff_prover]
#[verifier::rlimit(60)]
proof fn lemma_yellow_excess(scene: SceneType, low: Single, high: Single)
    requires
        is_small(low) && is_small(high),
        low.le(high),
    ensures
        num(0).le(yellow_excess(scene, low)),
        yellow_excess(scene, low).le(yellow_excess(scene, high)),
{
    let y = num(0x4220_0000);
    law_differences_keep_order(low, high, y);
    law_small_difference(low, y, num(0));
    law_small_difference(high, y, num(0));
    let (c, d) = (low.minus(y), high.minus(y));
    law_shares_shrink(c, num(0x3e99_999a));
    law_shares_shrink(d, num(0x3e99_999a));
    law_scaling_keeps_order(c, d, num(0x3e99_999a));
}

#[verifier::spinoff_prover]
#[verifier::rlimit(60)]
proof fn lemma_blue_shortfall(sky: u64, low: Single, high: Single)
    requires
        is_small(low) && is_small(high),
        low.le(high),
    ensures
        num(0).le(blue_shortfall(sky, high)),
        blue_shortfall(sky, high).le(blue_shortfall(sky, low)),
{
    let b = num(0x4370_0000);
    law_differences_keep_order(low, high, b);
    law_small_difference(low, b, num(0));
    law_small_difference(high, b, num(0));
    let (e, f) = (low.minus(b).negated(), high.minus(b).negated());
    law_shares_shrink(e, num(0x3e80_0000));
    law_shares_shrink(f, num(0x3e80_0000));
    law_scaling_keeps_order(f, e, num(0x3e80_0000));
}

} // verus!
