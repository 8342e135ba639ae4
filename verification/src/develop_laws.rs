//! What the stages of development do to light and colour: which way a setting moves them.

use crate::develop::{
    add_contrast, apply_color_grade, apply_white_balance, apply_zones, film_light, grade_active,
    guard_chroma, hold_highlights, lemma_weights_are_finite, lift_dark, lift_light, mixed,
    nearest_of, scale_light, spec_band_distance, with_bands, zone_delta, Light,
};
use crate::lch::{law_turned_hue_stays, lemma_smoothstep_is_bounded, of_byte, smoothstep, Lch};
use crate::order::{
    is_finite, law_adding_lowers, law_adding_raises, law_difference_shows_order,
    law_differences_keep_order, law_dividing_keeps_order, law_exact_product, law_exact_sum,
    law_factors_stretch, law_negation_passes_through, law_product_sign, law_rounding_keeps_order,
    law_scaling_keeps_order, law_shares_shrink, law_sum_lies_between, law_whole_numbers_are_exact,
    lemma_small_lies, lemma_sum_is_a_number, lemma_top_byte, lies_between,
};
use crate::pipeline::{ColorGrade, Grade, HslRegions, WhiteBalance, ZoneGrade};
use crate::single::{
    is_small, law_negation_is_opposite, law_one_is_neutral, law_order_is_numeric,
    law_product_commutes, law_self_quotient_is_one, law_sums_keep_order, law_whole_parts_keep_order,
    law_zero_is_neutral, law_zero_times_is_zero, lemma_any_zero_times_is_zero, lemma_exact_ratio,
    lemma_no_integer, lemma_quotient_is_a_number, lemma_round_ratio, lemma_rounding_keeps_order,
    lemma_small_sum, lemma_two_and_three, lemma_ulps_form, lemma_units, lemma_within_one_turn,
    lemma_zero_magnitude, num, ulps, Single, HIDDEN,
};
use vstd::arithmetic::power2::{lemma_pow2_adds, lemma_pow2_pos, pow2};
use vstd::prelude::*;

verus! {

/// From zero to one.
pub open spec fn is_share(x: Single) -> bool {
    num(0).le(x) && x.le(num(0x3f80_0000))  // 1
}

/// A factor of at least one never darkens light, and one of at most one never brightens it.
pub proof fn law_exposure_scales_light(p: Light, k: Single)
    requires
        num(0).le(p.r) && num(0).le(p.g) && num(0).le(p.b),
        is_finite(p.r) && is_finite(p.g) && is_finite(p.b),
        is_finite(k),
        num(0).le(k),
    ensures
        ({
            let q = scale_light(p, k);
            &&& num(0x3f80_0000).le(k) ==> p.r.le(q.r) && p.g.le(q.g) && p.b.le(q.b)  // 1
            &&& k.le(num(0x3f80_0000)) ==> q.r.le(p.r) && q.g.le(p.g) && q.b.le(p.b)
            &&& num(0).le(q.r) && num(0).le(q.g) && num(0).le(q.b)
        }),
{
    law_product_sign(p.r, k);
    law_product_sign(p.g, k);
    law_product_sign(p.b, k);
    if num(0x3f80_0000).le(k) {
        law_factors_stretch(p.r, k);
        law_factors_stretch(p.g, k);
        law_factors_stretch(p.b, k);
    } else {
        law_shares_shrink(p.r, k);
        law_shares_shrink(p.g, k);
        law_shares_shrink(p.b, k);
    }
    if k.le(num(0x3f80_0000)) {
        law_shares_shrink(p.r, k);
        law_shares_shrink(p.g, k);
        law_shares_shrink(p.b, k);
    }
}

/// More exposure never gives less light.
pub proof fn law_light_rises_with_exposure(p: Light, k: Single, m: Single)
    requires
        num(0).le(p.r) && num(0).le(p.g) && num(0).le(p.b),
        is_finite(p.r) && is_finite(p.g) && is_finite(p.b),
        is_finite(k) && is_finite(m),
        k.le(m),
    ensures
        scale_light(p, k).r.le(scale_light(p, m).r),
        scale_light(p, k).g.le(scale_light(p, m).g),
        scale_light(p, k).b.le(scale_light(p, m).b),
{
    law_scaling_keeps_order(k, m, p.r);
    law_scaling_keeps_order(k, m, p.g);
    law_scaling_keeps_order(k, m, p.b);
}

/// A gain: one plus or minus a setting times a positive factor.
proof fn lemma_gain(s: Single, k: Single)
    requires
        is_small(s),
        num(0).le(k),
        k.le(num(0x3f80_0000)),
    ensures
        ({
            let one = num(0x3f80_0000);
            let up = one.plus(s.times(k));
            let down = one.minus(s.times(k));
            &&& num(0).le(s) ==> one.le(up) && down.le(one)
            &&& s.le(num(0)) ==> up.le(one) && one.le(down)
            &&& is_finite(up) && is_finite(down)
        }),
{
    let one = num(0x3f80_0000);
    law_shares_shrink(s, k);
    let t = s.times(k);
    if num(0).le(s) {
        law_adding_raises(one, t);
    }
    if s.le(num(0)) {
        law_adding_lowers(one, t);
    }
    lemma_small_sum(one, t);
    lemma_small_sum(one, t.negated());
}

/// Warmth raises red and lowers blue, cold the other way round, and neither touches green.
pub proof fn law_warmth_favours_red(p: Light, wb: WhiteBalance)
    requires
        num(0).le(p.r) && num(0).le(p.g) && num(0).le(p.b),
        is_finite(p.r) && is_finite(p.g) && is_finite(p.b),
        is_small(wb.temp),
        wb.tint.same(num(0)),
    ensures
        ({
            let q = apply_white_balance(p, &wb);
            &&& num(0).le(wb.temp) ==> p.r.le(q.r) && q.b.le(p.b)
            &&& wb.temp.le(num(0)) ==> q.r.le(p.r) && p.b.le(q.b)
            &&& q.g.same(p.g)
        }),
{
    let one = num(0x3f80_0000);
    let k = num(0x3e4c_cccd);  // 0.2
    lemma_gain(wb.temp, k);
    let t = wb.temp.times(k);
    law_one_is_neutral(p.r);
    law_one_is_neutral(p.g);
    law_one_is_neutral(p.b);
    if num(0).le(wb.temp) {
        law_scaling_keeps_order(one, one.plus(t), p.r);
        law_scaling_keeps_order(one.minus(t), one, p.b);
    }
    if wb.temp.le(num(0)) {
        law_scaling_keeps_order(one.plus(t), one, p.r);
        law_scaling_keeps_order(one, one.minus(t), p.b);
    }
    lemma_any_zero_times_is_zero(wb.tint, num(0x3e19_999a));  // 0.15
    law_zero_is_neutral(one, wb.tint.times(num(0x3e19_999a)).negated());
}

/// Magenta lowers green, green raises it, and neither touches red or blue.
pub proof fn law_magenta_lowers_green(p: Light, wb: WhiteBalance)
    requires
        num(0).le(p.r) && num(0).le(p.g) && num(0).le(p.b),
        is_finite(p.r) && is_finite(p.g) && is_finite(p.b),
        is_small(wb.tint),
        wb.temp.same(num(0)),
    ensures
        ({
            let q = apply_white_balance(p, &wb);
            &&& num(0).le(wb.tint) ==> q.g.le(p.g)
            &&& wb.tint.le(num(0)) ==> p.g.le(q.g)
            &&& q.r.same(p.r)
            &&& q.b.same(p.b)
        }),
{
    let one = num(0x3f80_0000);
    let k = num(0x3e19_999a);  // 0.15
    lemma_gain(wb.tint, k);
    let t = wb.tint.times(k);
    law_one_is_neutral(p.r);
    law_one_is_neutral(p.g);
    law_one_is_neutral(p.b);
    if num(0).le(wb.tint) {
        law_scaling_keeps_order(one.minus(t), one, p.g);
    }
    if wb.tint.le(num(0)) {
        law_scaling_keeps_order(one, one.minus(t), p.g);
    }
    lemma_any_zero_times_is_zero(wb.temp, num(0x3e4c_cccd));  // 0.2
    let z = wb.temp.times(num(0x3e4c_cccd));
    law_zero_is_neutral(one, z);
    law_zero_is_neutral(one, z.negated());
}

/// Half and half are one.
pub proof fn lemma_two_halves()
    ensures
        num(0x3f00_0000).plus(num(0x3f00_0000)) == num(0x3f80_0000),
        2 * num(0x3f00_0000).value() == num(0x3f80_0000).value(),
{
    lemma_units();
    lemma_ulps_form(125, 0x80_0000);
    lemma_pow2_adds(125, 24);
    vstd::arithmetic::power2::lemma2_to64();
    assert(125 * HIDDEN + 0x80_0000 == 0x3f00_0000);
    assert(2 * (0x80_0000 * pow2(125)) == pow2(125) * 0x100_0000) by (nonlinear_arith);
    law_exact_sum(num(0x3f00_0000), num(0x3f00_0000), num(0x3f80_0000));
}

/// The weight of a colour's zone is from a half to one, and one where nothing is taken off.
proof fn lemma_zone_is_a_share(taper: Single)
    requires
        is_share(taper),
    ensures
        ({
            let zone = num(0x3f00_0000).plus(
                num(0x3f00_0000).times(num(0x3f80_0000).minus(taper)),
            );
            &&& is_share(zone)
            &&& taper.same(num(0)) ==> zone == num(0x3f80_0000)
        }),
{
    let half = num(0x3f00_0000);
    let one = num(0x3f80_0000);
    lemma_two_halves();
    law_difference_shows_order(taper, one);
    law_adding_raises(one, taper);
    let rest = one.minus(taper);
    law_shares_shrink(half, rest);
    let t = half.times(rest);
    law_adding_raises(half, t);
    law_sums_keep_order(t, half, half);
    law_one_is_neutral(half);
    if taper.same(num(0)) {
        law_zero_is_neutral(one, taper.negated());
    }
}

/// The factor that a saturation gives at a zone.
spec fn saturation_factor(s: Single, zone: Single) -> Single {
    let one = num(0x3f80_0000);
    if s.ge(one) {
        one.plus(s.minus(one).times(zone))
    } else {
        one.minus(one.minus(s).times(zone))
    }
}

proof fn lemma_saturation_factor(s: Single, zone: Single)
    requires
        num(0).le(s),
        is_small(s),
        is_share(zone),
    ensures
        ({
            let one = num(0x3f80_0000);
            let m = saturation_factor(s, zone);
            &&& is_finite(m)
            &&& num(0).le(m)
            &&& s.le(one) ==> m.le(one)
            &&& one.le(s) ==> one.le(m)
        }),
{
    let one = num(0x3f80_0000);
    law_difference_shows_order(one, s);
    law_difference_shows_order(s, one);
    law_adding_lowers(s, one.negated());
    law_adding_raises(one, s);
    let up = s.minus(one);
    let down = one.minus(s);
    lemma_small_sum(s, one.negated());
    lemma_small_sum(one, s.negated());
    law_shares_shrink(up, zone);
    law_shares_shrink(down, zone);
    if s.ge(one) {
        law_adding_raises(one, up.times(zone));
        lemma_small_sum(one, up.times(zone));
    } else {
        law_adding_raises(one, down.times(zone));
        law_difference_shows_order(down.times(zone), one);
        lemma_small_sum(one, down.times(zone).negated());
    }
    if s.same(one) {
        law_shares_shrink(up, zone);
        law_adding_lowers(one, up.times(zone));
    }
}

proof fn lemma_saturation_factor_rises(s: Single, t: Single, zone: Single)
    requires
        num(0).le(s),
        s.le(t),
        is_small(t),
        is_share(zone),
    ensures
        saturation_factor(s, zone).le(saturation_factor(t, zone)),
{
    let one = num(0x3f80_0000);
    lemma_saturation_factor(s, zone);
    lemma_saturation_factor(t, zone);
    lemma_small_sum(s, one.negated());
    lemma_small_sum(t, one.negated());
    lemma_small_sum(one, s.negated());
    lemma_small_sum(one, t.negated());
    law_differences_keep_order(s, t, one);
    if s.ge(one) {
        law_scaling_keeps_order(s.minus(one), t.minus(one), zone);
        law_adding_raises(t, num(0));
        law_difference_shows_order(one, s);
        law_difference_shows_order(one, t);
        law_adding_lowers(s, one.negated());
        law_adding_lowers(t, one.negated());
        law_shares_shrink(s.minus(one), zone);
        law_shares_shrink(t.minus(one), zone);
        law_sums_keep_order(s.minus(one).times(zone), t.minus(one).times(zone), one);
    } else if !t.ge(one) {
        law_difference_shows_order(s, one);
        law_difference_shows_order(t, one);
        law_adding_raises(one, s);
        law_adding_raises(one, t);
        law_shares_shrink(one.minus(s), zone);
        law_shares_shrink(one.minus(t), zone);
        law_scaling_keeps_order(one.minus(t), one.minus(s), zone);
        law_differences_keep_order(one.minus(t).times(zone), one.minus(s).times(zone), one);
    }
}

/// Saturation below one takes chroma away and above one adds some; the chroma rises with the
/// saturation from zero up; and without saturation nothing is left of it where nothing is tapered.
pub proof fn law_chroma_rises_with_saturation(
    p: Lch,
    less: ColorGrade,
    more: ColorGrade,
    taper: Single,
)
    requires
        num(0).le(p.c),
        is_finite(p.c),
        is_share(taper),
        less.vibrance.same(num(0)),
        more.vibrance.same(num(0)),
        num(0).le(less.saturation),
        less.saturation.le(more.saturation),
        is_small(more.saturation),
    ensures
        ({
            let a = apply_color_grade(p, &less, taper).c;
            let b = apply_color_grade(p, &more, taper).c;
            &&& a.le(b)
            &&& num(0).le(a)
            &&& less.saturation.le(num(0x3f80_0000)) ==> a.le(p.c)  // 1
            &&& more.saturation.ge(num(0x3f80_0000)) ==> p.c.le(b)
            &&& less.saturation.same(num(0)) && taper.same(num(0)) ==> a.same(num(0))
        }),
{
    let one = num(0x3f80_0000);
    let half = num(0x3f00_0000);
    let zone = half.plus(half.times(one.minus(taper)));
    lemma_zone_is_a_share(taper);
    let (s, t) = (less.saturation, more.saturation);
    lemma_saturation_factor(s, zone);
    lemma_saturation_factor(t, zone);
    lemma_saturation_factor_rises(s, t, zone);
    let m = saturation_factor(s, zone);
    let n = saturation_factor(t, zone);
    law_scaling_keeps_order(m, n, p.c);
    law_product_sign(p.c, m);
    law_one_is_neutral(p.c);
    if s.le(one) {
        law_scaling_keeps_order(m, one, p.c);
    }
    if t.ge(one) {
        law_scaling_keeps_order(one, n, p.c);
    }
    if s.same(num(0)) && taper.same(num(0)) {
        law_zero_is_neutral(one, s.negated());
        assert(one.minus(s) == one);
        law_one_is_neutral(one);
        law_difference_shows_order(one, one);
        assert(m.same(num(0)));
        lemma_any_zero_times_is_zero(m, p.c);
        law_product_commutes(m, p.c);
    }
}

/// What vibrance leaves of a colour's dullness is from zero to one.
proof fn lemma_dullness(c: Single)
    requires
        num(0).le(c),
        is_finite(c),
    ensures
        ({
            let low = num(0x3f80_0000).minus(
                c.over(num(0x3e99_999a)).clamp(num(0), num(0x3f80_0000)),
            );
            &&& is_share(low)
            &&& num(0x3e99_999a).le(c) ==> low.same(num(0))
        }),
{
    let one = num(0x3f80_0000);
    let d = num(0x3e99_999a);  // 0.3
    lemma_quotient_is_a_number(c, d);
    let x = c.over(d).clamp(num(0), one);
    law_difference_shows_order(x, one);
    law_adding_raises(one, x);
    if d.le(c) {
        law_dividing_keeps_order(d, c, d);
        law_self_quotient_is_one(d);
    }
}

/// More vibrance never gives less chroma; it does nothing to a colour whose chroma is 0.3 or more.
pub proof fn law_chroma_rises_with_vibrance(
    p: Lch,
    less: ColorGrade,
    more: ColorGrade,
    taper: Single,
)
    requires
        is_share(p.c),
        is_share(taper),
        less.saturation == num(0x3f80_0000),  // 1
        more.saturation == num(0x3f80_0000),
        less.vibrance.le(more.vibrance),
        is_small(less.vibrance),
        is_small(more.vibrance),
    ensures
        ({
            let a = apply_color_grade(p, &less, taper).c;
            let b = apply_color_grade(p, &more, taper).c;
            &&& a.le(b)
            &&& num(0).le(more.vibrance) ==> p.c.le(b)
            &&& less.vibrance.le(num(0)) ==> a.le(p.c)
            &&& num(0x3e99_999a).le(p.c) ==> b.same(p.c)  // 0.3
        }),
{
    let one = num(0x3f80_0000);
    let half = num(0x3f00_0000);
    let zone = half.plus(half.times(one.minus(taper)));
    lemma_zone_is_a_share(taper);
    law_difference_shows_order(one, one);
    lemma_any_zero_times_is_zero(one.minus(one), zone);
    law_zero_is_neutral(one, one.minus(one).times(zone));
    law_one_is_neutral(p.c);
    lemma_dullness(p.c);
    let low = one.minus(p.c.over(num(0x3e99_999a)).clamp(num(0), one));
    lemma_vibrance_factor(less.vibrance, low, zone);
    lemma_vibrance_factor(more.vibrance, low, zone);
    let (v, w) = (less.vibrance, more.vibrance);
    law_scaling_keeps_order(v, w, low);
    law_scaling_keeps_order(v.times(low), w.times(low), zone);
    let (x, y) = (v.times(low).times(zone), w.times(low).times(zone));
    law_sums_keep_order(x, y, one);
    law_scaling_keeps_order(one.plus(x), one.plus(y), p.c);
    if num(0).le(w) {
        law_scaling_keeps_order(one, one.plus(y), p.c);
    }
    if v.le(num(0)) {
        law_scaling_keeps_order(one.plus(x), one, p.c);
    }
    if v.same(num(0)) {
        lemma_any_zero_times_is_zero(v, low);
        lemma_any_zero_times_is_zero(v.times(low), zone);
        law_zero_is_neutral(one, x);
    }
    if w.same(num(0)) {
        lemma_any_zero_times_is_zero(w, low);
        lemma_any_zero_times_is_zero(w.times(low), zone);
        law_zero_is_neutral(one, y);
    }
    if num(0x3e99_999a).le(p.c) {
        law_product_commutes(w, low);
        lemma_any_zero_times_is_zero(low, w);
        lemma_any_zero_times_is_zero(w.times(low), zone);
        law_zero_is_neutral(one, y);
    }
}

proof fn lemma_vibrance_factor(v: Single, low: Single, zone: Single)
    requires
        is_small(v),
        is_share(low),
        is_share(zone),
    ensures
        ({
            let one = num(0x3f80_0000);
            let m = one.plus(v.times(low).times(zone));
            &&& is_finite(v.times(low))
            &&& is_finite(v.times(low).times(zone))
            &&& is_finite(m)
            &&& num(0).le(v) ==> one.le(m)
            &&& v.le(num(0)) ==> m.le(one)
        }),
{
    let one = num(0x3f80_0000);
    law_shares_shrink(v, low);
    law_shares_shrink(v.times(low), zone);
    let t = v.times(low).times(zone);
    lemma_small_sum(one, t);
    if num(0).le(v) {
        law_adding_raises(one, t);
    }
    if v.le(num(0)) {
        law_adding_lowers(one, t);
    }
}

/// A hue turns forward by the degrees that are set: where the sum stays below a full turn, it is
/// the hue. Shadows and highlights are not tinted here.
pub proof fn law_hue_turns_forward(p: Lch, cg: ColorGrade, taper: Single)
    requires
        is_share(p.l),
        num(0x3a83_126f).lt(p.c),  // 0.001
        is_finite(p.c),
        is_share(taper),
        num(0).le(p.h),
        p.h.lt(num(0x43b4_0000)),  // 360
        p.h.ge(num(0x0080_0000)),
        cg.saturation == num(0x3f80_0000),  // 1
        cg.vibrance.same(num(0)),
        cg.split_shadow.same(num(0)),
        cg.split_highlight.same(num(0)),
        num(0).le(p.h.plus(cg.hue_rotate)),
        p.h.plus(cg.hue_rotate).lt(num(0x43b4_0000)),
    ensures
        apply_color_grade(p, &cg, taper).h.same(p.h.plus(cg.hue_rotate)),
{
    let one = num(0x3f80_0000);
    let half = num(0x3f00_0000);
    let zone = half.plus(half.times(one.minus(taper)));
    lemma_zone_is_a_share(taper);
    law_difference_shows_order(one, one);
    lemma_any_zero_times_is_zero(one.minus(one), zone);
    law_zero_is_neutral(one, one.minus(one).times(zone));
    law_one_is_neutral(p.c);
    law_turned_hue_stays(p.h);
    lemma_weights_are_finite(p.l);
    let sh = one.minus(smoothstep(num(0), half, p.l));
    let hi = smoothstep(half, one, p.l);
    lemma_any_zero_times_is_zero(cg.split_shadow, sh);
    lemma_any_zero_times_is_zero(cg.split_highlight, hi);
    let a = cg.split_shadow.times(sh);
    let b = cg.split_highlight.times(hi);
    law_zero_is_neutral(a, b);
    let turned = p.h.plus(cg.hue_rotate);
    law_zero_is_neutral(turned, a.plus(b));
    let end = turned.plus(a.plus(b));
    lemma_within_one_turn(end);
}

/// What is not positive, scaled by more, gives less.
pub proof fn lemma_scaling_below(x: Single, a: Single, b: Single)
    requires
        x.le(num(0)),
        is_finite(x),
        a.le(b),
        is_finite(a),
        is_finite(b),
    ensures
        x.times(b).le(x.times(a)),
{
    law_scaling_keeps_order(a, b, x.negated());
    law_negation_passes_through(x, a);
    law_negation_passes_through(x, b);
    law_product_commutes(x.negated(), a);
    law_product_commutes(x.negated(), b);
}

/// The more the lift, and so the smaller the factor that 2 to its negative is, the brighter a
/// tone, and never above white.
pub proof fn law_lift_brightens(l: Single, g: Grade, less: Single, more: Single)
    requires
        is_share(l),
        g.brightness_lift.gt(num(0)),
        is_share(less),
        is_share(more),
        more.le(less),
    ensures
        lift_light(l, &g, less).le(lift_light(l, &g, more)),
        is_share(lift_light(l, &g, more)),
{
    let one = num(0x3f80_0000);
    law_difference_shows_order(l, one);
    law_adding_raises(one, l);
    let d = one.minus(l);
    law_shares_shrink(d, less);
    law_shares_shrink(d, more);
    law_scaling_keeps_order(more, less, d);
    law_differences_keep_order(d.times(more), d.times(less), one);
    law_difference_shows_order(d.times(more), one);
    law_adding_raises(one, d.times(more));
}

/// More contrast deepens tones below the pivot and holds back those above it, the pivot itself
/// stays, and no setting of more than minus one turns the order of two tones on one side around.
#[verifier::rlimit(80)]
#[verifier::spinoff_prover]
pub proof fn law_contrast_deepens(l: Single, m: Single, pivot: Single, less: Grade, more: Grade)
    requires
        is_share(l),
        is_share(m),
        is_share(pivot),
        !less.contrast.same(num(0)),
        !more.contrast.same(num(0)),
        less.contrast.le(more.contrast),
        is_small(less.contrast),
        is_small(more.contrast),
    ensures
        add_contrast(l, &more, pivot).le(add_contrast(l, &less, pivot)),
        l.same(pivot) ==> add_contrast(l, &more, pivot).same(pivot),
        l.le(m) && m.lt(pivot) && num(0xbf80_0000).le(more.contrast) ==> add_contrast(
            l,
            &more,
            pivot,
        ).le(add_contrast(m, &more, pivot)),  // -1
{
    let one = num(0x3f80_0000);
    let s = num(0x3e19_999a);  // 0.15
    law_difference_shows_order(pivot, l);
    lemma_small_sum(l, pivot.negated());
    lemma_small_sum(m, pivot.negated());
    let d = l.minus(pivot);
    let (a, b) = (less.contrast, more.contrast);
    law_shares_shrink(a.negated(), s);
    law_shares_shrink(b.negated(), s);
    lemma_small_sum(one, a);
    lemma_small_sum(one, b);
    lemma_small_sum(one, a.negated().times(s));
    lemma_small_sum(one, b.negated().times(s));
    law_sums_keep_order(a, b, one);
    law_scaling_keeps_order(b.negated(), a.negated(), s);
    law_sums_keep_order(b.negated().times(s), a.negated().times(s), one);
    let (x, y) = if l.ge(pivot) {
        (one.plus(a.negated().times(s)), one.plus(b.negated().times(s)))
    } else {
        (one.plus(a), one.plus(b))
    };
    if l.ge(pivot) {
        law_scaling_keeps_order(y, x, d);
    } else {
        lemma_scaling_below(d, x, y);
    }
    lemma_pivot_sum_keeps_order(pivot, d.times(y), d.times(x));
    if l.same(pivot) {
        lemma_any_zero_times_is_zero(d, y);
        law_zero_is_neutral(pivot, d.times(y));
    }
    if l.le(m) && m.lt(pivot) && num(0xbf80_0000).le(b) {
        law_differences_keep_order(l, m, pivot);
        law_order_is_numeric(num(0xbf80_0000), b);
        law_difference_shows_order(b.negated(), one);
        law_negation_is_opposite(b);
        assert(b.negated().negated() == b);
        assert(one.minus(b.negated()) == one.plus(b));
        law_order_is_numeric(b.negated(), one);
        lemma_units();
        law_scaling_keeps_order(d, m.minus(pivot), one.plus(b));
        law_product_commutes(d, one.plus(b));
        lemma_pivot_sum_keeps_order(pivot, d.times(one.plus(b)), m.minus(pivot).times(one.plus(b)));
    }
}

/// A sum with a finite number keeps the order of what may be infinite.
pub proof fn lemma_pivot_sum_keeps_order(pivot: Single, a: Single, b: Single)
    requires
        is_finite(pivot),
        a.le(b),
    ensures
        pivot.plus(a).le(pivot.plus(b)),
{
    if is_finite(a) && is_finite(b) {
        law_sums_keep_order(a, b, pivot);
    } else {
        reveal(Single::spec_plus);
        if is_finite(a) {
            lemma_sum_is_a_number(pivot, a);
        }
        if is_finite(b) {
            lemma_sum_is_a_number(pivot, b);
        }
    }
}

/// A film curve bends tones away from the middle: bright ones up and dark ones down, the middle
/// stays, and the result is a tone.
pub proof fn law_film_curve_bends_from_the_middle(l: Single, g: Grade)
    requires
        is_share(l),
        num(0).lt(g.film_curve),
        is_small(g.film_curve),
    ensures
        num(0x3f00_0000).le(l) ==> l.le(film_light(l, &g)),  // 0.5
        l.le(num(0x3f00_0000)) ==> film_light(l, &g).le(l),
        is_share(film_light(l, &g)),
{
    let one = num(0x3f80_0000);
    let half = num(0x3f00_0000);
    let four = num(0x4080_0000);
    law_difference_shows_order(half, l);
    lemma_small_sum(l, half.negated());
    let d = l.minus(half);
    // the distance from the middle is at most a half
    law_differences_keep_order(l, one, half);
    law_differences_keep_order(num(0), l, half);
    lemma_two_halves();
    law_negation_is_opposite(half);
    law_exact_sum(one, half.negated(), half);
    law_zero_is_neutral(half.negated(), num(0));
    assert(d.le(half) && half.negated().le(d));
    lemma_square_share(d);
    let rest = one.minus(four.times(d).times(d));
    let k = g.film_curve.times(d);
    law_product_sign(d, g.film_curve);
    lemma_half_share_is_small(g.film_curve, d);
    law_product_sign(k, rest);
    let t = k.times(rest);
    if half.le(l) {
        law_adding_raises(l, t);
    }
    if l.le(half) {
        law_adding_lowers(l, t);
    }
    law_shares_shrink(k, rest);
    lemma_small_sum(l, t);
}

proof fn lemma_half_share_is_small(k: Single, d: Single)
    requires
        is_small(k),
        num(0).le(k),
        d.le(num(0x3f00_0000)),
        num(0xbf00_0000).le(d),
    ensures
        is_small(k.times(d)),
{
    if num(0).le(d) {
        law_shares_shrink(k, d);
    } else {
        law_shares_shrink(k, d.negated());
        law_negation_passes_through(d, k);
    }
}

/// Four times the square of a number of at most a half is from zero to one.
proof fn lemma_square_share(d: Single)
    requires
        d.le(num(0x3f00_0000)),
        num(0xbf00_0000).le(d),
    ensures
        is_share(num(0x4080_0000).times(d).times(d)),
        is_share(num(0x3f80_0000).minus(num(0x4080_0000).times(d).times(d))),
{
    let one = num(0x3f80_0000);
    let half = num(0x3f00_0000);
    let two = num(0x4000_0000);
    let four = num(0x4080_0000);
    let a = d.abs();
    assert(a == d || a == d.negated());
    law_negation_passes_through(d, four);
    lemma_powers_of_two();
    law_exact_product(four, half, two);
    law_exact_product(two, half, one);
    law_scaling_keeps_order(a, half, four);
    law_product_sign(a, four);
    let x = four.times(a);
    law_scaling_keeps_order(x, two, a);
    law_scaling_keeps_order(a, half, two);
    law_product_sign(a, x);
    assert(x.times(a).le(one));
    if a == d.negated() {
        assert(is_finite(four.times(d)));
        lemma_double_negation(four, d);
    }
    let sq = four.times(d).times(d);
    law_difference_shows_order(sq, one);
    law_adding_raises(one, sq);
}

proof fn lemma_double_negation(k: Single, d: Single)
    requires
        is_finite(k),
        is_finite(d),
        is_finite(k.times(d)),
    ensures
        k.times(d.negated()).times(d.negated()) == k.times(d).times(d),
{
    law_negation_passes_through(d, k);
    law_negation_passes_through(k.times(d), d.negated());
    law_negation_passes_through(d, k.times(d));
    let x = k.times(d).times(d);
    assert(x.negated().negated() == x);
}

/// The values of a half, two and four.
proof fn lemma_powers_of_two()
    ensures
        num(0x4080_0000).value() * num(0x3f00_0000).value() == num(0x4000_0000).value() * pow2(149),
        num(0x4000_0000).value() * num(0x3f00_0000).value() == num(0x3f80_0000).value() * pow2(149),
{
    lemma_two_halves();
    lemma_units();
    let p = pow2(149) as int;
    law_whole_numbers_are_exact(2);
    law_whole_numbers_are_exact(4);
    lemma_two_and_three();
    lemma_ulps_form(128, 0x80_0000);
    lemma_pow2_adds(128, 21);
    vstd::arithmetic::power2::lemma2_to64();
    assert(128 * HIDDEN + 0x80_0000 == 0x4080_0000);
    assert(0x80_0000 * pow2(128) == 4 * (pow2(128) * 0x20_0000)) by (nonlinear_arith);
    let h = num(0x3f00_0000).value();
    assert((4 * p) * h == (2 * p) * p && (2 * p) * h == p * p) by (nonlinear_arith)
        requires
            2 * h == p,
    ;
}

/// A lift of the dark tones never darkens, and leaves what is at `top` or above alone; without a
/// lift nothing changes.
pub proof fn law_dark_lift_brightens(l: Single, lift: Single, top: Single)
    requires
        is_share(l),
        is_small(lift),
        num(0x3c23_d70a).le(top),  // 0.01
        top.le(num(0x3f80_0000)),
    ensures
        l.le(lift_dark(l, lift, top)),
        top.le(l) && num(0x3dcc_cccd).le(l) ==> lift_dark(l, lift, top).same(l),
        lift.le(num(0)) ==> lift_dark(l, lift, top) == l,
{
    let one = num(0x3f80_0000);
    if lift.gt(num(0)) {
        let (e0, e1) = (num(0x3cf5_c28f), num(0x3dcc_cccd));  // 0.03, 0.1
        lemma_step_is_bounded(e0, e1, l);
        let floor = smoothstep(e0, e1, l);
        let x = one.minus(l.over(top));
        let w = if l.lt(top) {
            x.times(x)
        } else {
            num(0)
        };
        if l.lt(top) {
            law_dividing_keeps_order(l, top, top);
            law_self_quotient_is_one(top);
            law_difference_shows_order(l.over(top), one);
            law_adding_raises(one, l.over(top));
            law_shares_shrink(x, x);
        }
        law_shares_shrink(lift, w);
        law_product_sign(lift.times(w), floor);
        lemma_product_is_a_number(lift.times(w), floor);
        law_adding_raises(l, lift.times(w).times(floor));
        if top.le(l) {
            law_zero_times_is_zero(lift);
            lemma_any_zero_times_is_zero(lift.times(num(0)), floor);
            law_zero_is_neutral(l, lift.times(w).times(floor));
        }
    }
}

proof fn lemma_product_is_a_number(a: Single, b: Single)
    requires
        is_finite(a),
        is_finite(b),
    ensures
        !a.times(b).is_nan(),
{
    law_negation_passes_through(a, b);
}

/// A smooth step between two edges is never negative and finite.
proof fn lemma_step_is_bounded(e0: Single, e1: Single, x: Single)
    requires
        is_small(e0),
        is_small(e1),
        is_small(x),
        e0.lt(e1),
    ensures
        num(0).le(smoothstep(e0, e1, x)),
        is_finite(smoothstep(e0, e1, x)),
{
    law_difference_shows_order(e0, e1);
    lemma_small_sum(x, e0.negated());
    lemma_small_sum(e1, e0.negated());
    lemma_quotient_is_a_number(x.minus(e0), e1.minus(e0));
    lemma_smoothstep_is_bounded(e0, e1, x);
}

/// Highlights are held back: no tone comes out above 0.98, and none of at most 0.9 changes.
pub proof fn law_highlights_are_held(l: Single, g: Grade)
    requires
        is_share(l),
    ensures
        l.le(num(0x3f66_6666)) ==> hold_highlights(l, &g) == l,  // 0.9
        grade_active(&g) && l.gt(num(0x3f66_6666)) ==> hold_highlights(l, &g).le(
            num(0x3f66_6666).plus(num(0x3da3_d70a)),  // 0.08
        ),
{
    if grade_active(&g) && l.gt(num(0x3f66_6666)) {
        let one = num(0x3f80_0000);
        let edge = num(0x3f66_6666);  // 0.9
        let k = num(0x3da3_d70a);  // 0.08
        law_difference_shows_order(edge, l);
        lemma_small_sum(l, edge.negated());
        law_adding_lowers(l, edge.negated());
        let d = l.minus(edge);
        let t = d.over(num(0x3dcc_cccd));  // 0.1
        lemma_tenth(d);
        lemma_small_sum(one, t.negated());
        let x = one.minus(t);
        lemma_square_is_not_negative(x);
        let sq = x.times(x);
        law_adding_raises(one, sq);
        let rest = one.minus(sq);
        if is_finite(rest) {
            law_scaling_keeps_order(rest, one, k);
            law_one_is_neutral(k);
            lemma_pivot_sum_keeps_order(edge, k.times(rest), k);
        } else {
            assert(rest.infinite() && rest.negative());
            assert(k.times(rest).infinite() && k.times(rest).negative()) by {
                reveal(Single::spec_times);
            }
            assert(edge.plus(k.times(rest)) == k.times(rest)) by {
                reveal(Single::spec_plus);
            }
            lemma_sum_is_a_number(edge, k);
        }
    }
}

proof fn lemma_tenth(d: Single)
    requires
        is_share(d),
    ensures
        is_small(d.over(num(0x3dcc_cccd))),
{
    let k = num(0x3dcc_cccd);  // 0.1
    let one = num(0x3f80_0000);
    law_dividing_keeps_order(d, one, k);
    law_dividing_keeps_order(num(0x3dcc_cccd), one, k);
    lemma_one_over_a_tenth();
}

proof fn lemma_one_over_a_tenth()
    ensures
        num(0x3f80_0000).over(num(0x3dcc_cccd)).le(num(0x4980_0000)),
{
    reveal(Single::spec_over);
    let k = num(0x3dcc_cccd);
    lemma_units();
    lemma_ulps_form(122, 0xcc_cccd);
    assert(122 * HIDDEN + 0xcc_cccd == 0x3dcc_cccd);
    lemma_pow2_adds(122, 27);
    vstd::arithmetic::power2::lemma2_to64();
    let p = pow2(149) as int;
    let d = ulps(0x3dcc_cccd);
    lemma_pow2_pos(122);
    assert(p <= 0x10_0000 * d && d > 0) by (nonlinear_arith)
        requires
            d == 0xcc_cccd * pow2(122),
            p == pow2(122) * pow2(27),
            pow2(27) == 0x800_0000,
            pow2(122) > 0,
    ;
    lemma_pow2_pos(149);
    lemma_ulps_form(146, 0x80_0000);
    assert(146 * HIDDEN + 0x80_0000 == 0x4980_0000);
    lemma_pow2_adds(146, 3);
    lemma_pow2_adds(149, 20);
    lemma_pow2_adds(146, 23);
    assert(ulps(0x4980_0000) == 0x10_0000 * p) by (nonlinear_arith)
        requires
            ulps(0x4980_0000) == 0x80_0000 * pow2(146),
            p == pow2(146) * 8,
    ;
    lemma_exact_ratio(0x4980_0000, d);
    lemma_round_ratio(ulps(0x4980_0000) * d, d, 0x4980_0000);
    assert(0 <= p * p <= (0x10_0000 * p) * d) by (nonlinear_arith)
        requires
            p > 0,
            p <= 0x10_0000 * d,
    ;
    lemma_rounding_keeps_order(p * p, ulps(0x4980_0000) * d, d);
}

proof fn lemma_square_is_not_negative(x: Single)
    requires
        is_finite(x),
    ensures
        num(0).le(x.times(x)),
{
    if num(0).le(x) {
        law_product_sign(x, x);
    } else {
        law_product_sign(x.negated(), x.negated());
        law_negation_passes_through(x, x.negated());
        law_negation_passes_through(x, x);
        let y = x.times(x);
        assert(y.negated().negated() == y);
    }
}

/// Zones that are all raised never darken a colour, and zones that are all lowered never
/// brighten it.
pub proof fn law_zones_move_lightness(p: Lch, z: ZoneGrade, w: [Single; 4])
    requires
        is_share(p.l),
        forall|i: int| 0 <= i < 4 ==> is_share(#[trigger] w[i]),
        forall|i: int| 0 <= i < 4 ==> is_small(#[trigger] z.lift[i]),
    ensures
        (forall|i: int| 0 <= i < 4 ==> num(0).le(#[trigger] z.lift[i])) ==> p.l.le(
            apply_zones(p, &z, w).l,
        ),
        (forall|i: int| 0 <= i < 4 ==> (#[trigger] z.lift[i]).le(num(0))) ==> apply_zones(
            p,
            &z,
            w,
        ).l.le(p.l),
{
    let s1 = num(0).plus(w[0]);
    let s2 = s1.plus(w[1]);
    let s3 = s2.plus(w[2]);
    let s4 = s3.plus(w[3]);
    lemma_share_sum(num(0), w[0], 0);
    lemma_share_sum(s1, w[1], 1);
    lemma_share_sum(s2, w[2], 2);
    lemma_share_sum(s3, w[3], 3);
    let (a, b, c, d) = (
        w[0].times(z.lift[0]),
        w[1].times(z.lift[1]),
        w[2].times(z.lift[2]),
        w[3].times(z.lift[3]),
    );
    law_shares_shrink(z.lift[0], w[0]);
    law_shares_shrink(z.lift[1], w[1]);
    law_shares_shrink(z.lift[2], w[2]);
    law_shares_shrink(z.lift[3], w[3]);
    if forall|i: int| 0 <= i < 4 ==> num(0).le(#[trigger] z.lift[i]) {
        assert(num(0).le(z.lift[0]) && num(0).le(z.lift[1]) && num(0).le(z.lift[2]) && num(0).le(
            z.lift[3],
        ));
        lemma_sum_of_signs(a, b, c, d, true);
        lemma_delta_sign(z, w, s4, true);
        law_adding_raises(p.l, zone_delta(&z, w));
    }
    if forall|i: int| 0 <= i < 4 ==> (#[trigger] z.lift[i]).le(num(0)) {
        assert(z.lift[0].le(num(0)) && z.lift[1].le(num(0)) && z.lift[2].le(num(0)) && z.lift[3].le(
            num(0),
        ));
        lemma_sum_of_signs(a, b, c, d, false);
        lemma_delta_sign(z, w, s4, false);
        law_adding_lowers(p.l, zone_delta(&z, w));
    }
}

proof fn lemma_share_sum(s: Single, w: Single, n: int)
    requires
        0 <= n < 8,
        lies_between(s, 0, n),
        is_share(w),
    ensures
        lies_between(s.plus(w), 0, n + 1),
{
    lemma_units();
    law_order_is_numeric(num(0), w);
    law_order_is_numeric(w, num(0x3f80_0000));
    lemma_zero_magnitude(0);
    assert(0 * pow2(149) == 0 && 1 * pow2(149) == pow2(149));
    law_sum_lies_between(s, w, 0, n, 0, 1);
}

proof fn lemma_sum_of_signs(a: Single, b: Single, c: Single, d: Single, up: bool)
    requires
        is_small(a) && is_small(b) && is_small(c) && is_small(d),
        up ==> num(0).le(a) && num(0).le(b) && num(0).le(c) && num(0).le(d),
        !up ==> a.le(num(0)) && b.le(num(0)) && c.le(num(0)) && d.le(num(0)),
    ensures
        ({
            let t = num(0).plus(a).plus(b).plus(c).plus(d);
            &&& is_finite(t)
            &&& up ==> num(0).le(t)
            &&& !up ==> t.le(num(0))
        }),
{
    let top: int = 0x10_0000;
    lemma_small_lies(a);
    lemma_small_lies(b);
    lemma_small_lies(c);
    lemma_small_lies(d);
    assert(lies_between(num(0), 0, 0)) by {
        law_whole_numbers_are_exact(0);
        lemma_no_integer();
    }
    let t1 = num(0).plus(a);
    law_sum_lies_between(num(0), a, 0, 0, -top, top);
    let t2 = t1.plus(b);
    law_sum_lies_between(t1, b, -top, top, -top, top);
    let t3 = t2.plus(c);
    law_sum_lies_between(t2, c, -2 * top, 2 * top, -top, top);
    law_sum_lies_between(t3, d, -3 * top, 3 * top, -top, top);
    if up {
        law_adding_raises(num(0), a);
        law_adding_raises(t1, b);
        law_adding_raises(t2, c);
        law_adding_raises(t3, d);
    } else {
        law_adding_lowers(num(0), a);
        law_adding_lowers(t1, b);
        law_adding_lowers(t2, c);
        law_adding_lowers(t3, d);
    }
}

proof fn lemma_delta_sign(z: ZoneGrade, w: [Single; 4], sum: Single, up: bool)
    requires
        sum == num(0).plus(w[0]).plus(w[1]).plus(w[2]).plus(w[3]),
        is_finite(sum),
        ({
            let t = num(0).plus(w[0].times(z.lift[0])).plus(w[1].times(z.lift[1])).plus(
                w[2].times(z.lift[2]),
            ).plus(w[3].times(z.lift[3]));
            &&& is_finite(t)
            &&& up ==> num(0).le(t)
            &&& !up ==> t.le(num(0))
        }),
    ensures
        up ==> num(0).le(zone_delta(&z, w)),
        !up ==> zone_delta(&z, w).le(num(0)),
{
    let t = num(0).plus(w[0].times(z.lift[0])).plus(w[1].times(z.lift[1])).plus(
        w[2].times(z.lift[2]),
    ).plus(w[3].times(z.lift[3]));
    if sum.gt(num(0)) {
        law_dividing_keeps_order(t, t, sum);
    }
}

/// Holding chroma back never raises it.
pub proof fn law_chroma_is_held_back(c: Single, orig: Single)
    requires
        num(0).le(c),
        is_finite(c),
        num(0).le(orig),
        is_finite(orig),
    ensures
        guard_chroma(c, orig).le(c),
        num(0).le(guard_chroma(c, orig)),
{
    law_product_sign(orig, num(0x4040_0000));  // 3
    law_product_sign(orig, num(0x4000_0000));  // 2
    law_product_sign(orig, num(0x4020_0000));  // 2.5
    law_scaling_keeps_order(num(0x4000_0000), num(0x4040_0000), orig);
}

/// Bands of hue scale chroma and lightness: factors of at least one raise them, factors of at
/// most one lower them.
pub proof fn law_bands_scale_colors(p: Lch, r: HslRegions, sat: Single, light: Single)
    requires
        num(0).le(p.c),
        is_finite(p.c),
        is_share(p.l),
        num(0).le(sat),
        is_finite(sat),
        num(0).le(light),
        is_finite(light),
    ensures
        ({
            let q = with_bands(p, r, sat, light);
            &&& num(0x3f80_0000).le(sat) ==> p.c.le(q.c)  // 1
            &&& sat.le(num(0x3f80_0000)) ==> q.c.le(p.c)
            &&& num(0x3f80_0000).le(light) ==> p.l.le(q.l)
            &&& light.le(num(0x3f80_0000)) ==> q.l.le(p.l)
        }),
{
    law_product_sign(p.c, sat);
    law_product_sign(p.l, light);
    if num(0x3f80_0000).le(sat) {
        law_factors_stretch(p.c, sat);
    }
    if sat.le(num(0x3f80_0000)) {
        law_shares_shrink(p.c, sat);
    }
    if num(0x3f80_0000).le(light) {
        law_factors_stretch(p.l, light);
    }
    if light.le(num(0x3f80_0000)) {
        law_shares_shrink(p.l, light);
    }
}

/// The two bands that act on a hue are the nearest ones: no band is nearer than the first.
pub proof fn law_nearest_band_comes_first(h: Single, k: int, i: int)
    requires
        0 <= i < k <= 8,
        forall|j: usize| j < 8 ==> !(#[trigger] spec_band_distance(h, j)).is_nan(),
    ensures
        nearest_of(h, k).d1.le(spec_band_distance(h, i as usize)),
        nearest_of(h, k).d1.le(nearest_of(h, k).d2),
        !nearest_of(h, k).d1.is_nan(),
    decreases k,
{
    assert(!spec_band_distance(h, (k - 1) as usize).is_nan());
    if k > 1 {
        law_nearest_band_comes_first(h, k - 1, if i < k - 1 { i } else { 0 });
    }
}

/// Mixing keeps the order of bytes: a brighter development or a brighter original never gives a
/// darker byte.
pub proof fn law_mix_keeps_order(mix: Single, a: u8, b: u8, c: u8, d: u8)
    requires
        !mix.is_nan(),
        a <= b,
        c <= d,
    ensures
        mixed(mix, a, c) <= mixed(mix, b, d),
{
    let one = num(0x3f80_0000);
    let m = mix.clamp(num(0), one);
    law_difference_shows_order(m, one);
    law_adding_raises(one, m);
    let n = one.minus(m);
    lemma_byte_order(a, b);
    lemma_byte_order(c, d);
    let (x, y) = (m.times(of_byte(a)), m.times(of_byte(b)));
    let (v, w) = (n.times(of_byte(c)), n.times(of_byte(d)));
    law_shares_shrink(of_byte(a), m);
    law_shares_shrink(of_byte(b), m);
    law_shares_shrink(of_byte(c), n);
    law_shares_shrink(of_byte(d), n);
    law_scaling_keeps_order(of_byte(a), of_byte(b), m);
    law_scaling_keeps_order(of_byte(c), of_byte(d), n);
    law_sums_keep_order(x, y, v);
    law_sums_keep_order(v, w, y);
    lemma_small_sum(x, v);
    lemma_small_sum(y, w);
    law_rounding_keeps_order(x.plus(v), y.plus(w));
    law_whole_parts_keep_order(x.plus(v).round(), y.plus(w).round(), 0, 255);
}

proof fn lemma_byte_order(a: u8, b: u8)
    requires
        a <= b,
    ensures
        num(0).le(of_byte(a)),
        of_byte(a).le(of_byte(b)),
        is_small(of_byte(a)),
        is_small(of_byte(b)),
{
    lemma_top_byte();
    law_whole_numbers_are_exact(a as int);
    law_whole_numbers_are_exact(b as int);
    let p = pow2(149) as int;
    lemma_pow2_pos(149);
    assert(0 <= a * p <= b * p) by (nonlinear_arith)
        requires
            a <= b,
            p > 0,
    ;
    law_order_is_numeric(of_byte(a), of_byte(b));
    law_order_is_numeric(num(0), of_byte(a));
    assert(b * p <= 255 * p) by (nonlinear_arith)
        requires
            b <= 255,
            p > 0,
    ;
    law_order_is_numeric(of_byte(b), num(0x437f_0000));  // 255
}

} // verus!
