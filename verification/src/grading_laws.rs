//! More of what development does: haze, the ratio of light, tamed colour, highlights that roll
//! off, skin and tints.

use crate::develop;
use crate::develop::{
    apply_color_grade, apply_skin_tone, band_weights, dehaze_light, gamut_softclip,
    lemma_weights_are_finite, light_luma, nearest_of, ratio_light, roll_off, rolloff_at,
    skin_probability, span_middle, tamed_chroma, with_bands, Light,
};
use crate::develop_laws::{
    is_share, law_light_rises_with_exposure, lemma_pivot_sum_keeps_order, lemma_scaling_below,
    lemma_two_halves,
};
use crate::lch::{lemma_smoothstep_is_bounded, positive_degrees, smoothstep, wrap_degrees, Lch};
use crate::order::{
    is_finite, law_adding_lowers, law_adding_raises, law_difference_lies_between,
    law_difference_shows_order, law_differences_keep_order, law_dividing_keeps_order,
    law_doubling_is_exact, law_exact_product, law_exact_sum, law_limits_keep_order,
    law_negation_passes_through, law_product_sign, law_scaling_keeps_order, law_shares_shrink,
    law_small_difference, law_sum_lies_between, law_totals_keep_order, law_whole_numbers_are_exact,
    lemma_sum_is_a_number, lemma_terms_are_numbers, lies_between,
};
use crate::pipeline::{ColorGrade, DefakeColor, Grade, HslRegions, SkinTone, ToneMapMode};
use crate::single::{
    is_small, law_negation_is_opposite, law_one_is_neutral, law_order_is_numeric,
    law_product_commutes, law_quotients_are_close, law_self_quotient_is_one,
    law_small_differences_are_exact, law_sum_commutes, law_sums_keep_order, law_zero_is_neutral,
    lemma_any_zero_times_is_zero, lemma_one, lemma_small_sum, lemma_two_and_three, lemma_ulps_form,
    lemma_units, lemma_within_one_turn, num, Single,
};
use vstd::arithmetic::power2::{
    lemma_pow2_adds, lemma_pow2_pos, lemma_pow2_strictly_increases, pow2,
};
use vstd::prelude::*;

verus! {

/// How far a lightness in the picture lies from another, and what is left to one.
pub proof fn lemma_distance_is_a_share(l: Single, pivot: Single)
    requires
        is_share(l),
        is_share(pivot),
    ensures
        is_share(l.minus(pivot).abs()),
        is_share(num(0x3f80_0000).minus(l.minus(pivot).abs())),
        num(0xbf80_0000).le(l.minus(pivot)) && l.minus(pivot).le(num(0x3f80_0000)),
{
    let one = num(0x3f80_0000);
    let d = l.minus(pivot);
    law_differences_keep_order(l, one, pivot);
    law_adding_raises(one, pivot);
    law_differences_keep_order(num(0), pivot, l);
    law_zero_is_neutral(l, num(0).negated());
    law_differences_keep_order(num(0), l, pivot);
    law_differences_keep_order(pivot, one, num(0));
    law_zero_is_neutral(pivot.negated(), num(0));
    law_sum_commutes(num(0), pivot.negated());
    law_difference_shows_order(d.abs(), one);
    law_adding_raises(one, d.abs());
}

/// What dehazing adds to a distance rises with its strength.
proof fn lemma_haze_term(d: Single, a: Single, b: Single)
    requires
        is_share(d),
        is_share(num(0x3f80_0000).minus(d)),
        a.le(b),
        is_small(a) && is_small(b),
    ensures
        ({
            let rest = num(0x3f80_0000).minus(d);
            let two = num(0x4000_0000);
            let x = d.plus(a.times(d).times(rest).times(two));
            let y = d.plus(b.times(d).times(rest).times(two));
            x.le(y)
        }),
{
    let rest = num(0x3f80_0000).minus(d);
    let two = num(0x4000_0000);
    law_shares_shrink(a, d);
    law_shares_shrink(b, d);
    law_scaling_keeps_order(a, b, d);
    let p = a.times(d);
    let q = b.times(d);
    law_shares_shrink(p, rest);
    law_shares_shrink(q, rest);
    law_scaling_keeps_order(p, q, rest);
    law_scaling_keeps_order(p.times(rest), q.times(rest), two);
    lemma_pivot_sum_keeps_order(d, p.times(rest).times(two), q.times(rest).times(two));
}

/// Taking away haze deepens: the more, the darker a lightness gets on either side of the pivot,
/// which itself stays.
pub proof fn law_dehazing_deepens(l: Single, pivot: Single, less: Grade, more: Grade)
    requires
        is_share(l),
        is_share(pivot),
        num(0).lt(less.dehaze),
        less.dehaze.le(more.dehaze),
        is_small(more.dehaze),
    ensures
        dehaze_light(l, &more, pivot).le(dehaze_light(l, &less, pivot)),
        l.same(pivot) ==> dehaze_light(l, &more, pivot).same(pivot),
{
    let one = num(0x3f80_0000);
    let k = num(0x3e19_999a);
    let (a, b) = (less.dehaze, more.dehaze);
    let d = l.minus(pivot).abs();
    lemma_distance_is_a_share(l, pivot);
    law_difference_shows_order(pivot, one);
    law_adding_raises(one, pivot);
    let most = if pivot.gt(num(0x3f00_0000)) {
        pivot
    } else {
        one.minus(pivot)
    };
    law_shares_shrink(a.negated(), k);
    law_shares_shrink(b.negated(), k);
    law_scaling_keeps_order(b.negated(), a.negated(), k);
    law_difference_shows_order(pivot, l);
    if l.ge(pivot) {
        let (x, y) = (a.negated().times(k), b.negated().times(k));
        lemma_haze_term(d, y, x);
        let rest = one.minus(d);
        let two = num(0x4000_0000);
        let p = d.plus(x.times(d).times(rest).times(two));
        let q = d.plus(y.times(d).times(rest).times(two));
        law_limits_keep_order(q, p, num(0), most);
        if l.same(pivot) {
            lemma_nothing_to_clear(d, y);
            law_limits_keep_order(q, q, num(0), most);
            law_limits_keep_order(p, p, num(0), most);
            lemma_haze_at_pivot(pivot, q.clamp(num(0), most), most);
            lemma_nothing_to_clear(d, x);
            lemma_haze_at_pivot(pivot, p.clamp(num(0), most), most);
        } else {
            law_one_is_neutral(p.clamp(num(0), most));
            law_one_is_neutral(q.clamp(num(0), most));
            lemma_pivot_sum_keeps_order(pivot, q.clamp(num(0), most), p.clamp(num(0), most));
        }
    } else {
        lemma_haze_term(d, a, b);
        let rest = one.minus(d);
        let two = num(0x4000_0000);
        let p = d.plus(a.times(d).times(rest).times(two));
        let q = d.plus(b.times(d).times(rest).times(two));
        law_limits_keep_order(p, q, num(0), most);
        law_limits_keep_order(q, q, num(0), most);
        lemma_turned_around(p.clamp(num(0), most));
        lemma_turned_around(q.clamp(num(0), most));
        lemma_pivot_sum_keeps_order(pivot, q.clamp(num(0), most).negated(), p.clamp(num(0), most).negated());
    }
}

/// Minus one times a number turns it around.
proof fn lemma_turned_around(x: Single)
    requires
        is_finite(x),
    ensures
        num(0xbf80_0000).times(x) == x.negated(),
{
    assert(num(0x3f80_0000).negated() == num(0xbf80_0000));
    law_negation_passes_through(num(0x3f80_0000), x);
    law_one_is_neutral(x);
}

/// No distance stays none, however much haze is taken.
proof fn lemma_nothing_to_clear(d: Single, k: Single)
    requires
        d.same(num(0)),
        is_small(k),
    ensures
        ({
            let rest = num(0x3f80_0000).minus(d);
            d.plus(k.times(d).times(rest).times(num(0x4000_0000))).same(num(0))
        }),
{
    let rest = num(0x3f80_0000).minus(d);
    law_zero_is_neutral(num(0x3f80_0000), d.negated());
    law_product_commutes(k, d);
    lemma_any_zero_times_is_zero(d, k);
    lemma_any_zero_times_is_zero(k.times(d), rest);
    lemma_any_zero_times_is_zero(k.times(d).times(rest), num(0x4000_0000));
    law_zero_is_neutral(d, k.times(d).times(rest).times(num(0x4000_0000)));
}

/// At the pivot nothing is added, whichever way it is counted.
proof fn lemma_haze_at_pivot(pivot: Single, x: Single, most: Single)
    requires
        is_share(pivot),
        x.same(num(0)),
    ensures
        pivot.plus(num(0xbf80_0000).times(x)).same(pivot),
        pivot.plus(num(0x3f80_0000).times(x)).same(pivot),
{
    law_product_commutes(num(0xbf80_0000), x);
    law_product_commutes(num(0x3f80_0000), x);
    lemma_any_zero_times_is_zero(x, num(0xbf80_0000));
    lemma_any_zero_times_is_zero(x, num(0x3f80_0000));
    law_zero_is_neutral(pivot, x.times(num(0xbf80_0000)));
    law_zero_is_neutral(pivot, x.times(num(0x3f80_0000)));
}

/// The factor that the ratio of light stretches a distance by.
proof fn lemma_ratio_factor(d: Single, a: Single, b: Single)
    requires
        num(0xbf80_0000).le(d) && d.le(num(0x3f80_0000)),
        a.le(b),
        is_small(a) && is_small(b),
    ensures
        ({
            let one = num(0x3f80_0000);
            let x = d.over(num(0x3f00_0000)).clamp(num(0xbf80_0000), one);
            let p = one.plus(a.times(one.minus(x.times(x))));
            let q = one.plus(b.times(one.minus(x.times(x))));
            p.le(q) && is_finite(p) && is_finite(q)
        }),
{
    let one = num(0x3f80_0000);
    let half = num(0x3f00_0000);
    law_dividing_keeps_order(d, d, half);
    let x = d.over(half).clamp(num(0xbf80_0000), one);
    lemma_square_is_a_share(x);
    let s = x.times(x);
    law_difference_shows_order(s, one);
    law_adding_raises(one, s);
    let rest = one.minus(s);
    law_shares_shrink(a, rest);
    law_shares_shrink(b, rest);
    law_scaling_keeps_order(a, b, rest);
    lemma_small_sum(one, a.times(rest));
    lemma_small_sum(one, b.times(rest));
    law_sums_keep_order(a.times(rest), b.times(rest), one);
}

/// The square of a number from -1 to 1 is a share.
proof fn lemma_square_is_a_share(x: Single)
    requires
        num(0xbf80_0000).le(x) && x.le(num(0x3f80_0000)),
    ensures
        is_share(x.times(x)),
{
    let one = num(0x3f80_0000);
    if num(0).le(x) {
        law_shares_shrink(x, x);
    } else {
        let y = x.negated();
        law_negation_passes_through(x, y);
        law_negation_passes_through(x, x);
        assert(y.negated() == x);
        law_negation_passes_through(y, x);
        law_negation_passes_through(y, y);
        law_shares_shrink(y, y);
        assert(x.times(x).negated().negated() == x.times(x));
    }
}

/// A higher ratio of light moves a lightness away from the pivot: what is above gets no darker
/// and what is below no lighter.
pub proof fn law_light_ratio_parts(l: Single, pivot: Single, less: Grade, more: Grade)
    requires
        is_share(l),
        is_share(pivot),
        !less.light_ratio.same(num(0)) && !more.light_ratio.same(num(0)),
        less.light_ratio.le(more.light_ratio),
        is_small(less.light_ratio) && is_small(more.light_ratio),
    ensures
        pivot.le(l) ==> ratio_light(l, &less, pivot).le(ratio_light(l, &more, pivot)),
        l.le(pivot) ==> ratio_light(l, &more, pivot).le(ratio_light(l, &less, pivot)),
{
    let one = num(0x3f80_0000);
    let d = l.minus(pivot);
    let (a, b) = (less.light_ratio, more.light_ratio);
    lemma_distance_is_a_share(l, pivot);
    law_difference_shows_order(pivot, l);
    lemma_ratio_factor(d, a, b);
    let x = d.over(num(0x3f00_0000)).clamp(num(0xbf80_0000), one);
    let p = one.plus(a.times(one.minus(x.times(x))));
    let q = one.plus(b.times(one.minus(x.times(x))));
    if pivot.le(l) {
        law_scaling_keeps_order(p, q, d);
        lemma_pivot_sum_keeps_order(pivot, d.times(p), d.times(q));
        law_limits_keep_order(pivot.plus(d.times(p)), pivot.plus(d.times(q)), num(0), one);
    }
    if l.le(pivot) {
        lemma_scaling_below(d, p, q);
        lemma_pivot_sum_keeps_order(pivot, d.times(q), d.times(p));
        law_limits_keep_order(pivot.plus(d.times(q)), pivot.plus(d.times(p)), num(0), one);
    }
}

/// A weight in highlights or shadows, whichever is larger, is not negative.
proof fn lemma_end_weight(l: Single)
    requires
        is_share(l),
    ensures
        ({
            let hi = smoothstep(num(0x3f19_999a), num(0x3f80_0000), l);
            let lo = num(0x3f80_0000).minus(smoothstep(num(0), num(0x3e38_51ec), l));
            num(0).le(hi.max(lo)) && hi.max(lo).le(num(0x4040_0000))  // 3
        }),
{
    let one = num(0x3f80_0000);
    let high = num(0x3f19_999a);
    let low = num(0x3e38_51ec);
    law_small_difference(l, high, num(0));
    law_small_difference(one, high, num(0));
    law_difference_shows_order(high, one);
    law_dividing_keeps_order(l.minus(high), l.minus(high), one.minus(high));
    lemma_smoothstep_is_bounded(high, one, l);
    law_small_difference(l, num(0), num(0));
    law_small_difference(low, num(0), num(0));
    law_difference_shows_order(num(0), low);
    law_dividing_keeps_order(l.minus(num(0)), l.minus(num(0)), low.minus(num(0)));
    lemma_smoothstep_is_bounded(num(0), low, l);
    let s = smoothstep(num(0), low, l);
    law_adding_raises(one, s);
    law_differences_keep_order(s, num(0x4040_0000), one);
}

/// Beyond a limit only a part of a colour counts; more still gives no less.
proof fn lemma_bent(x: Single, y: Single, t: Single, k: Single)
    requires
        x.le(y),
        is_small(x) && is_small(y) && is_small(t),
        is_share(k),
    ensures
        ({
            let a = if x.gt(t) {
                t.plus(x.minus(t).times(k))
            } else {
                x
            };
            let b = if y.gt(t) {
                t.plus(y.minus(t).times(k))
            } else {
                y
            };
            a.le(b) && (num(0).le(x) && num(0).le(t) ==> num(0).le(a))
        }),
{
    law_small_difference(x, t, num(0));
    law_small_difference(y, t, num(0));
    law_differences_keep_order(x, y, t);
    law_difference_shows_order(t, x);
    law_difference_shows_order(t, y);
    law_shares_shrink(x.minus(t), k);
    law_shares_shrink(y.minus(t), k);
    law_scaling_keeps_order(x.minus(t), y.minus(t), k);
    law_sums_keep_order(x.minus(t).times(k), y.minus(t).times(k), t);
    if y.gt(t) {
        law_adding_raises(t, y.minus(t).times(k));
    }
    if x.gt(t) {
        law_adding_raises(t, x.minus(t).times(k));
    }
}

/// The most colour that is plausible at a lightness is moderate and not negative.
proof fn lemma_plausible(l: Single)
    requires
        is_share(l),
    ensures
        ({
            let x = num(0x4000_0000).times(l).minus(num(0x3f80_0000));
            let v = num(0x3e23_d70a).times(num(0x3f80_0000).minus(x.times(x)).max(num(0))).plus(num(0x3d75_c28f));
            num(0).le(v) && v.le(num(0x3f80_0000))
        }),
{
    let one = num(0x3f80_0000);
    let two = num(0x4000_0000);
    let k = num(0x3e23_d70a);
    let e = num(0x3d75_c28f);
    law_shares_shrink(two, l);
    let y = two.times(l);
    law_differences_keep_order(num(0), y, one);
    law_differences_keep_order(y, two, one);
    law_zero_is_neutral(one.negated(), num(0));
    lemma_two_less_one();
    let x = y.minus(one);
    lemma_square_is_a_share(x);
    law_adding_raises(one, x.times(x));
    law_difference_shows_order(x.times(x), one);
    let m = one.minus(x.times(x)).max(num(0));
    law_shares_shrink(k, m);
    law_sums_keep_order(k.times(m), k, e);
    law_adding_raises(k.times(m), e);
    law_sums_keep_order(e, num(0x3f00_0000), k);
    law_sums_keep_order(k, num(0x3f00_0000), num(0x3f00_0000));
    lemma_two_halves();
    law_sum_commutes(k, num(0x3f00_0000));
}

/// Two less one is one.
proof fn lemma_two_less_one()
    ensures
        num(0x4000_0000).minus(num(0x3f80_0000)) == num(0x3f80_0000),
        num(0).minus(num(0x3f80_0000)) == num(0xbf80_0000),
{
    let one = num(0x3f80_0000);
    let two = num(0x4000_0000);
    law_whole_numbers_are_exact(1);
    law_whole_numbers_are_exact(2);
    lemma_one();
    lemma_two_and_three();
    law_negation_is_opposite(one);
    law_exact_sum(two, one.negated(), one);
    law_zero_is_neutral(one.negated(), num(0));
    assert(one.negated() == num(0xbf80_0000));
}

/// Taming never gives less colour to what had more, nor more where it is set stronger.
pub proof fn law_taming_is_even(p: Lch, q: Lch, less: DefakeColor, more: DefakeColor)
    requires
        is_share(p.l) && is_share(p.c) && is_share(q.c),
        q.l == p.l && q.h == p.h,
        p.c.le(q.c),
        less.fix_sky == more.fix_sky && less.protect_skin == more.protect_skin,
        num(0).lt(less.chroma_decay) && less.chroma_decay.le(more.chroma_decay),
        more.chroma_decay.le(num(0x3e80_0000)),  // 0.25
    ensures
        tamed_chroma(p, &less).le(tamed_chroma(q, &less)),
        tamed_chroma(p, &more).le(tamed_chroma(p, &less)),
{
    lemma_taming(p.l, p.c, q.c, p.h, less, less);
    lemma_taming(p.l, p.c, p.c, p.h, more, less);
}

/// Five sixteenths of three are less than one.
proof fn lemma_five_sixteenths_of_three()
    ensures
        num(0x3ea0_0000).times(num(0x4040_0000)) == num(0x3f70_0000),
{
    lemma_ulps_form(124, 0xa0_0000);
    lemma_ulps_form(127, 0xc0_0000);
    lemma_ulps_form(125, 0xf0_0000);
    lemma_pow2_adds(124, 1);
    lemma_pow2_adds(127, 22);
    vstd::arithmetic::power2::lemma2_to64();
    let (a, b) = (pow2(124) as int, pow2(127) as int);
    assert((0xa0_0000 * a) * (0xc0_0000 * b) == (0xf0_0000 * (a * 2)) * (b * 0x40_0000)) by (nonlinear_arith);
    law_exact_product(num(0x3ea0_0000), num(0x4040_0000), num(0x3f70_0000));
}

/// What a weight of up to three takes off one leaves a share.
proof fn lemma_small_weight(a: Single, w: Single)
    requires
        num(0).le(a) && a.le(num(0x3ea0_0000)),
        num(0).le(w) && w.le(num(0x4040_0000)),
    ensures
        is_share(a.times(w)),
        is_share(num(0x3f80_0000).minus(a.times(w))),
{
    let one = num(0x3f80_0000);
    lemma_five_sixteenths_of_three();
    law_scaling_keeps_order(a, num(0x3ea0_0000), w);
    law_scaling_keeps_order(w, num(0x4040_0000), num(0x3ea0_0000));
    law_product_sign(a, w);
    law_difference_shows_order(a.times(w), one);
    law_adding_raises(one, a.times(w));
}

/// How much a lightness leaves of a colour, and how much of it beyond what is plausible.
proof fn lemma_fading(l: Single, c: Single, e: Single, a: Single, b: Single)
    requires
        is_share(l) && is_share(c) && is_share(e),
        c.le(e),
        num(0).le(b) && b.le(a) && a.le(num(0x3ea0_0000)),
    ensures
        ({
            let one = num(0x3f80_0000);
            let hi = smoothstep(num(0x3f19_999a), one, l);
            let lo = one.minus(smoothstep(num(0), num(0x3e38_51ec), l));
            let w = hi.max(lo);
            let x = c.times(one.minus(a.times(w)));
            let y = e.times(one.minus(b.times(w)));
            &&& x.le(y)
            &&& x.le(c)
            &&& num(0).le(x)
            &&& is_share(y)
        }),
{
    let one = num(0x3f80_0000);
    lemma_end_weight(l);
    let hi = smoothstep(num(0x3f19_999a), one, l);
    let lo = one.minus(smoothstep(num(0), num(0x3e38_51ec), l));
    let w = hi.max(lo);
    lemma_small_weight(a, w);
    lemma_small_weight(b, w);
    law_scaling_keeps_order(b, a, w);
    law_differences_keep_order(b.times(w), a.times(w), one);
    let p = one.minus(a.times(w));
    let q = one.minus(b.times(w));
    law_shares_shrink(c, p);
    law_shares_shrink(c, q);
    law_shares_shrink(e, q);
    law_scaling_keeps_order(p, q, c);
    law_scaling_keeps_order(c, e, q);
}

/// What is left of a colour after the limits of what is plausible.
proof fn lemma_knee(x: Single, y: Single, v: Single, a: Single, b: Single)
    requires
        num(0).le(x) && x.le(y) && is_share(y),
        is_share(v),
        num(0).le(b) && b.le(a) && a.le(num(0x3ea0_0000)),
    ensures
        ({
            let one = num(0x3f80_0000);
            let half = num(0x3f00_0000);
            let p = if a.gt(num(0)) && x.gt(v) {
                v.plus(x.minus(v).times(one.minus(half.times(a))))
            } else {
                x
            };
            let q = if b.gt(num(0)) && y.gt(v) {
                v.plus(y.minus(v).times(one.minus(half.times(b))))
            } else {
                y
            };
            &&& b.gt(num(0)) ==> p.le(q)
            &&& num(0).le(p) && p.le(num(0x4000_0000))
            &&& num(0).le(q) && q.le(num(0x4000_0000))
        }),
{
    let one = num(0x3f80_0000);
    let half = num(0x3f00_0000);
    law_shares_shrink(half, a);
    law_shares_shrink(half, b);
    law_scaling_keeps_order(b, a, half);
    let (s, t) = (half.times(a), half.times(b));
    law_difference_shows_order(s, one);
    law_difference_shows_order(t, one);
    law_adding_raises(one, s);
    law_adding_raises(one, t);
    law_differences_keep_order(t, s, one);
    let (f, g) = (one.minus(s), one.minus(t));
    law_difference_shows_order(v, x);
    law_difference_shows_order(v, y);
    law_differences_keep_order(x, y, v);
    lemma_distance_is_a_share(x, v);
    lemma_distance_is_a_share(y, v);
    let (d, e) = (x.minus(v), y.minus(v));
    law_shares_shrink(d, f);
    law_shares_shrink(e, f);
    law_shares_shrink(e, g);
    law_scaling_keeps_order(d, e, f);
    if num(0).le(e) {
        law_adding_raises(v, e.times(g));
    }
    if num(0).le(d) {
        law_adding_raises(v, d.times(f));
    }
    lemma_one_and_one(v, d.times(f));
    lemma_one_and_one(v, e.times(g));
    if num(0).le(e) {
        law_scaling_keeps_order(f, g, e);
        law_sums_keep_order(d.times(f), e.times(g), v);
    }
}

/// Two shares add up to no more than two.
pub proof fn lemma_one_and_one(x: Single, y: Single)
    requires
        x.le(num(0x3f80_0000)) && is_finite(x),
        y.le(num(0x3f80_0000)) && is_finite(y),
    ensures
        x.plus(y).le(num(0x4000_0000)),
{
    let one = num(0x3f80_0000);
    law_sums_keep_order(x, one, y);
    law_sums_keep_order(y, one, one);
    law_whole_numbers_are_exact(1);
    law_whole_numbers_are_exact(2);
    lemma_one();
    lemma_two_and_three();
    law_exact_sum(one, one, num(0x4000_0000));
}

/// Of two colours at one lightness and hue, the paler one with the stronger setting keeps no
/// more.
proof fn lemma_taming(l: Single, c: Single, e: Single, h: Single, a: DefakeColor, b: DefakeColor)
    requires
        is_share(l) && is_share(c) && is_share(e),
        c.le(e),
        a.fix_sky == b.fix_sky && a.protect_skin == b.protect_skin,
        num(0).le(b.chroma_decay) && b.chroma_decay.le(a.chroma_decay),
        num(0).lt(b.chroma_decay) || a.chroma_decay == b.chroma_decay,
        a.chroma_decay.le(num(0x3ea0_0000)),
    ensures
        tamed_chroma(Lch { l, c, h }, &a).le(tamed_chroma(Lch { l, c: e, h }, &b)),
{
    let one = num(0x3f80_0000);
    let half = num(0x3f00_0000);
    let hi = smoothstep(num(0x3f19_999a), one, l);
    let lo = one.minus(smoothstep(num(0), num(0x3e38_51ec), l));
    let w = hi.max(lo);
    let (m, n) = (a.chroma_decay, b.chroma_decay);
    lemma_fading(l, c, e, m, n);
    lemma_fading(l, c, c, m, m);
    let fp = if m.gt(num(0)) {
        c.times(one.minus(m.times(w)))
    } else {
        c
    };
    let fq = if n.gt(num(0)) {
        e.times(one.minus(n.times(w)))
    } else {
        e
    };
    assert(num(0).le(fp) && fp.le(fq) && is_share(fq));
    lemma_plausible(l);
    let x = num(0x4000_0000).times(l).minus(one);
    let v = num(0x3e23_d70a).times(one.minus(x.times(x)).max(num(0))).plus(num(0x3d75_c28f));
    lemma_knee(fp, fq, v, m, n);
    let kp = if m.gt(num(0)) && fp.gt(v) {
        v.plus(fp.minus(v).times(one.minus(half.times(m))))
    } else {
        fp
    };
    let kq = if n.gt(num(0)) && fq.gt(v) {
        v.plus(fq.minus(v).times(one.minus(half.times(n))))
    } else {
        fq
    };
    lemma_after_the_knee(kp, kq, h, a, b);
}

/// The limits on sky and skin keep the order of two colours.
proof fn lemma_after_the_knee(p: Single, q: Single, h: Single, a: DefakeColor, b: DefakeColor)
    requires
        num(0).le(p) && p.le(q) && q.le(num(0x4000_0000)),
        a.fix_sky == b.fix_sky && a.protect_skin == b.protect_skin,
    ensures
        ({
            let g = positive_degrees(h);
            let in_sky = g.ge(num(0x4352_0000)) && g.le(num(0x4370_0000));
            let in_skin = g.ge(num(0x41a0_0000)) && g.le(num(0x4234_0000));
            let t = num(0x3e05_1eb8);
            let u = num(0x3de1_47ae);
            let sp = if a.fix_sky && in_sky && p.gt(t) {
                t.plus(p.minus(t).times(num(0x3e99_999a)))
            } else {
                p
            };
            let sq = if b.fix_sky && in_sky && q.gt(t) {
                t.plus(q.minus(t).times(num(0x3e99_999a)))
            } else {
                q
            };
            let kp = if a.protect_skin && in_skin && sp.gt(u) {
                u.plus(sp.minus(u).times(num(0x3ecc_cccd)))
            } else {
                sp
            };
            let kq = if b.protect_skin && in_skin && sq.gt(u) {
                u.plus(sq.minus(u).times(num(0x3ecc_cccd)))
            } else {
                sq
            };
            kp.max(num(0)).le(kq.max(num(0)))
        }),
{
    let g = positive_degrees(h);
    let in_sky = g.ge(num(0x4352_0000)) && g.le(num(0x4370_0000));
    let t = num(0x3e05_1eb8);
    let k = num(0x3e99_999a);
    lemma_bent(p, q, t, k);
    let sp = if a.fix_sky && in_sky && p.gt(t) {
        t.plus(p.minus(t).times(k))
    } else {
        p
    };
    let sq = if b.fix_sky && in_sky && q.gt(t) {
        t.plus(q.minus(t).times(k))
    } else {
        q
    };
    lemma_bent_stays_small(p, t, k);
    lemma_bent_stays_small(q, t, k);
    lemma_bent(sp, sq, num(0x3de1_47ae), num(0x3ecc_cccd));
}

/// A part beyond a limit leaves a moderate number.
proof fn lemma_bent_stays_small(x: Single, t: Single, k: Single)
    requires
        num(0).le(x) && x.le(num(0x4000_0000)),
        is_share(t),
        is_share(k),
    ensures
        is_small(t.plus(x.minus(t).times(k))),
{
    let two = num(0x4000_0000);
    law_small_difference(x, t, num(0));
    law_whole_numbers_are_exact(0);
    law_whole_numbers_are_exact(1);
    law_whole_numbers_are_exact(2);
    law_whole_numbers_are_exact(8);
    lemma_one();
    lemma_two_and_three();
    law_order_is_numeric(num(0), x);
    law_order_is_numeric(x, two);
    law_order_is_numeric(num(0), t);
    law_order_is_numeric(t, num(0x3f80_0000));
    law_difference_lies_between(x, t, 0, 2, 0, 1);
    let d = x.minus(t);
    law_shares_shrink(d, k);
    let y = d.times(k);
    law_order_is_numeric(d, y);
    law_order_is_numeric(y, d);
    law_order_is_numeric(num(0), y);
    law_order_is_numeric(y, num(0));
    law_order_is_numeric(d, num(0));
    law_order_is_numeric(num(0), d);
    assert(lies_between(y, -1, 2));
    law_sum_lies_between(t, y, 0, 1, -1, 2);
    lemma_between_is_small(t.plus(y));
}

/// Numbers from -4 to 4 are moderate.
proof fn lemma_between_is_small(x: Single)
    requires
        lies_between(x, -1, 3),
    ensures
        is_small(x),
{
    law_whole_numbers_are_exact(3);
    law_whole_numbers_are_exact(-1);
    lemma_two_and_three();
    lemma_units();
    law_order_is_numeric(x, num(0x4040_0000));
    law_order_is_numeric(num(0xbf80_0000), x);
}

/// Brightness rises with each of the three lights.
pub proof fn law_brightness_rises_with_light(p: Light, q: Light)
    requires
        is_small(p.r) && is_small(p.g) && is_small(p.b),
        is_small(q.r) && is_small(q.g) && is_small(q.b),
        num(0).le(p.r) && num(0).le(p.g) && num(0).le(p.b),
        p.r.le(q.r) && p.g.le(q.g) && p.b.le(q.b),
    ensures
        num(0).le(light_luma(p)),
        light_luma(p).le(light_luma(q)),
{
    let (i, j, k) = (num(0x3e59_b3d0), num(0x3f37_1759), num(0x3d93_dd98));
    law_scaling_keeps_order(p.r, q.r, i);
    law_scaling_keeps_order(p.g, q.g, j);
    law_scaling_keeps_order(p.b, q.b, k);
    law_product_sign(p.r, i);
    law_product_sign(p.g, j);
    law_product_sign(p.b, k);
    law_shares_shrink(p.r, i);
    law_shares_shrink(p.g, j);
    law_shares_shrink(p.b, k);
    law_shares_shrink(q.r, i);
    law_shares_shrink(q.g, j);
    law_shares_shrink(q.b, k);
    let (a, b, c) = (i.times(p.r), j.times(p.g), k.times(p.b));
    let (d, e, f) = (i.times(q.r), j.times(q.g), k.times(q.b));
    lemma_small_sum(a, b);
    lemma_small_sum(d, e);
    law_totals_keep_order(a, d, b, e);
    law_adding_raises(a, b);
    law_adding_raises(a.plus(b), c);
    lemma_sum_is_a_number(a.plus(b), c);
    lemma_sum_is_a_number(d.plus(e), f);
    law_totals_keep_order(a.plus(b), d.plus(e), c, f);
}

/// Where highlights roll off, brighter light is taken further along the bend, and light that is
/// bent less is no dimmer.
pub proof fn law_highlights_roll_off(p: Light, q: Light, exposure: Single, less: Single, more: Single)
    requires
        is_small(light_luma(p)) && is_small(light_luma(q)),
        light_luma(p).le(light_luma(q)),
        num(0x3f33_3333).lt(light_luma(p)),  // 0.7
        num(0x3f80_0000).lt(exposure),  // 1
        num(0).le(p.r) && num(0).le(p.g) && num(0).le(p.b),
        is_finite(p.r) && is_finite(p.g) && is_finite(p.b),
        is_share(less) && is_share(more),
        less.le(more),
    ensures
        rolloff_at(ToneMapMode::Off, exposure, p) matches Some(x) && (rolloff_at(ToneMapMode::Off, exposure, q) matches Some(y) && num(0).le(x) && x.le(y)),
        roll_off(p, less).r.le(roll_off(p, more).r),
        roll_off(p, less).g.le(roll_off(p, more).g),
        roll_off(p, less).b.le(roll_off(p, more).b),
{
    let one = num(0x3f80_0000);
    let knee = num(0x3f33_3333);
    let l = light_luma(p);
    let m = light_luma(q);
    law_difference_shows_order(knee, one);
    law_difference_shows_order(knee, l);
    law_differences_keep_order(l, m, knee);
    law_small_difference(l, knee, num(0));
    law_small_difference(m, knee, num(0));
    law_adding_raises(one, knee);
    let room = one.minus(knee);
    law_dividing_keeps_order(l.minus(knee), m.minus(knee), room);
    law_shares_shrink(room, less);
    law_shares_shrink(room, more);
    law_scaling_keeps_order(less, more, room);
    let (a, b) = (room.times(less), room.times(more));
    law_sums_keep_order(a, b, knee);
    law_adding_raises(knee, a);
    lemma_one_and_one(knee, a);
    lemma_one_and_one(knee, b);
    let (x, y) = (knee.plus(a), knee.plus(b));
    law_adding_raises(knee, b);
    law_dividing_keeps_order(x, y, l);
    lemma_quotient_of_bright(x, l);
    lemma_quotient_of_bright(y, l);
    law_light_rises_with_exposure(p, x.over(l), y.over(l));
}

/// A moderate number over one that is not dark is finite.
proof fn lemma_quotient_of_bright(x: Single, l: Single)
    requires
        num(0).le(x) && x.le(num(0x4000_0000)),
        num(0x3f33_3333).lt(l),
        is_small(l),
    ensures
        is_finite(x.over(l)),
{
    let half = num(0x3f00_0000);
    lemma_two_halves();
    lemma_units();
    law_whole_numbers_are_exact(0);
    law_whole_numbers_are_exact(2);
    lemma_two_and_three();
    law_order_is_numeric(half, l);
    law_order_is_numeric(num(0), x);
    law_order_is_numeric(x, num(0x4000_0000));
    lemma_pow2_adds(2, 198);
    lemma_pow2_pos(198);
    lemma_pow2_strictly_increases(149, 198);
    lemma_pow2_pos(149);
    vstd::arithmetic::power2::lemma2_to64();
    let (p, q, r) = (pow2(149) as int, pow2(198) as int, pow2(200) as int);
    let (a, b) = (x.value(), l.value());
    assert(a * p <= r * b) by (nonlinear_arith)
        requires
            0 <= a <= 2 * p,
            p <= 2 * b,
            r == 4 * q,
            p <= q,
            q >= 1,
            p >= 1,
    {
        assert(a * p <= (2 * p) * p);
        assert((2 * p) * p <= (2 * q) * p);
        assert((2 * q) * p <= (2 * q) * (2 * b));
    }
    law_quotients_are_close(x, l);
}

/// Skin goes towards the wanted chroma and gets no darker.
pub proof fn law_skin_goes_to_its_target(p: Lch, st: SkinTone, orig: Lch, hue_w: Single)
    requires
        is_share(p.l) && is_share(p.c),
        is_share(st.resolved_targets().1),
        is_small(st.strength),
        !skin_probability(&p, hue_w).is_nan(),
        is_small(st.resolved_targets().2),
        is_share(orig.l),
    ensures
        p.c.le(st.resolved_targets().1) ==> p.c.le(apply_skin_tone(p, &st, &orig, hue_w).c),
        st.resolved_targets().1.le(p.c) ==> apply_skin_tone(p, &st, &orig, hue_w).c.le(p.c),
        p.l.le(apply_skin_tone(p, &st, &orig, hue_w).l),
{
    let prob = skin_probability(&p, hue_w);
    let one = num(0x3f80_0000);
    let t = st.resolved_targets();
    if !(!st.enabled || st.strength.le(num(0)) || prob.le(num(0)) || prob.is_nan()) {
        law_scaling_keeps_order(num(0), st.strength, prob);
        law_product_sign(st.strength, prob);
        let w = st.strength.times(prob).clamp(num(0), one);
        assert(is_share(w));
        lemma_distance_is_a_share(t.1, p.c);
        law_difference_shows_order(p.c, t.1);
        let d = t.1.minus(p.c);
        law_shares_shrink(d, w);
        if p.c.le(t.1) {
            law_adding_raises(p.c, d.times(w));
        }
        if t.1.le(p.c) {
            law_adding_lowers(p.c, d.times(w));
        }
        lemma_lifted(p.l, w);
        let soften = num(0x3eb3_3333).minus(orig.l).times(num(0x3da3_d70a)).times(st.strength).min(num(0x3ccc_cccd));
        lemma_pivot_sum_keeps_order(t.2, soften, num(0x3ccc_cccd));
        lemma_small_sum(t.2, num(0x3ccc_cccd));
    }
}

/// A lift that is above nothing, by a share, raises a lightness.
proof fn lemma_lifted(l: Single, w: Single)
    requires
        is_share(l),
        is_share(w),
    ensures
        forall|lift: Single| #[trigger] lift.gt(num(0)) && is_finite(lift) ==> l.le(l.plus(lift.times(w)).clamp(num(0), num(0x3f80_0000))),
{
    assert forall|lift: Single| #[trigger] lift.gt(num(0)) && is_finite(lift) implies l.le(l.plus(lift.times(w)).clamp(num(0), num(0x3f80_0000))) by {
        law_shares_shrink(lift, w);
        law_adding_raises(l, lift.times(w));
    }
}

/// The lower half takes nothing of the highlights' weight, and the upper half nothing of the
/// shadows'.
proof fn lemma_halves_of_weight(l: Single)
    requires
        is_share(l),
    ensures
        l.le(num(0x3f00_0000)) ==> smoothstep(num(0x3f00_0000), num(0x3f80_0000), l).same(num(0)),
        num(0x3f00_0000).le(l) ==> num(0x3f80_0000).minus(smoothstep(num(0), num(0x3f00_0000), l)).same(num(0)),
{
    let one = num(0x3f80_0000);
    let two = num(0x4000_0000);
    let three = num(0x4040_0000);
    let half = num(0x3f00_0000);
    law_difference_shows_order(half, one);
    law_difference_shows_order(half, l);
    law_small_difference(l, half, num(0));
    law_small_difference(one, half, num(0));
    if l.le(half) {
        let d = l.minus(half);
        law_dividing_keeps_order(d, d, one.minus(half));
        let t = d.over(one.minus(half)).clamp(num(0), one);
        lemma_any_zero_times_is_zero(t, t);
        lemma_any_zero_times_is_zero(t, two);
        law_product_commutes(two, t);
        law_zero_is_neutral(three, two.times(t).negated());
        lemma_any_zero_times_is_zero(t.times(t), three.minus(two.times(t)));
    }
    if half.le(l) {
        law_zero_is_neutral(l, num(0).negated());
        law_zero_is_neutral(half, num(0).negated());
        law_dividing_keeps_order(half, l, half);
        law_self_quotient_is_one(half);
        let t = l.minus(num(0)).over(half.minus(num(0))).clamp(num(0), one);
        assert(t == one);
        law_one_is_neutral(one);
        law_one_is_neutral(two);
        lemma_one();
        lemma_two_and_three();
        law_small_differences_are_exact(3, 2);
        law_difference_shows_order(one, one);
    }
}

/// A sum does not tell apart terms that are both nothing.
proof fn lemma_turned_alike(turned: Single, a: Single, b: Single, c: Single)
    requires
        !turned.is_nan() && !a.is_nan(),
        b.same(num(0)) && c.same(num(0)),
        !turned.plus(a.plus(b)).is_nan(),
    ensures
        wrap_degrees(turned.plus(a.plus(b))) == wrap_degrees(turned.plus(a.plus(c))) || wrap_degrees(turned.plus(a.plus(b))).same(
            wrap_degrees(turned.plus(a.plus(c))),
        ),
        wrap_degrees(turned.plus(b.plus(a))) == wrap_degrees(turned.plus(c.plus(a))) || wrap_degrees(turned.plus(b.plus(a))).same(
            wrap_degrees(turned.plus(c.plus(a))),
        ),
{
    law_sum_commutes(a, b);
    law_sum_commutes(a, c);
    law_zero_is_neutral(a, b);
    law_zero_is_neutral(a, c);
    if a.same(num(0)) {
        law_zero_is_neutral(turned, a.plus(b));
        law_zero_is_neutral(turned, a.plus(c));
        if turned.same(num(0)) {
            lemma_within_one_turn(turned.plus(a.plus(b)));
            lemma_within_one_turn(turned.plus(a.plus(c)));
        }
    }
}

/// Tints keep apart: that of the highlights leaves the darker half alone, and that of the shadows
/// the lighter half.
pub proof fn law_tints_stay_apart(p: Lch, g: ColorGrade, h: ColorGrade, taper: Single)
    requires
        is_share(p.l),
        is_finite(g.split_shadow) && is_finite(g.split_highlight),
        is_finite(h.split_shadow) && is_finite(h.split_highlight),
        g.saturation == h.saturation && g.vibrance == h.vibrance && g.hue_rotate == h.hue_rotate,
        is_small(positive_degrees(p.h).plus(g.hue_rotate)),
    ensures
        ({
            let a = apply_color_grade(p, &g, taper).h;
            let b = apply_color_grade(p, &h, taper).h;
            &&& p.l.le(num(0x3f00_0000)) && g.split_shadow == h.split_shadow ==> a == b || a.same(b)  // 0.5
            &&& num(0x3f00_0000).le(p.l) && g.split_highlight == h.split_highlight ==> a == b || a.same(b)  // 0.5
        }),
{
    let one = num(0x3f80_0000);
    let half = num(0x3f00_0000);
    lemma_halves_of_weight(p.l);
    lemma_weights_are_finite(p.l);
    let sh = one.minus(smoothstep(num(0), half, p.l));
    let hi = smoothstep(half, one, p.l);
    let turned = positive_degrees(p.h).plus(g.hue_rotate);
    if p.l.le(half) && g.split_shadow == h.split_shadow {
        law_product_commutes(g.split_highlight, hi);
        law_product_commutes(h.split_highlight, hi);
        lemma_any_zero_times_is_zero(hi, g.split_highlight);
        lemma_any_zero_times_is_zero(hi, h.split_highlight);
        law_negation_passes_through(g.split_shadow, sh);
        let a = g.split_shadow.times(sh);
        let (b, c) = (g.split_highlight.times(hi), h.split_highlight.times(hi));
        lemma_no_nan_with_small(turned, a, b);
        lemma_turned_alike(turned, a, b, c);
    }
    if half.le(p.l) && g.split_highlight == h.split_highlight {
        law_product_commutes(g.split_shadow, sh);
        law_product_commutes(h.split_shadow, sh);
        lemma_any_zero_times_is_zero(sh, g.split_shadow);
        lemma_any_zero_times_is_zero(sh, h.split_shadow);
        law_negation_passes_through(g.split_highlight, hi);
        let a = g.split_highlight.times(hi);
        let (b, c) = (g.split_shadow.times(sh), h.split_shadow.times(sh));
        lemma_no_nan_with_small(turned, a, b);
        lemma_turned_alike(turned, a, b, c);
    }
}

/// A finite number and another one add up to a number.
proof fn lemma_no_nan_with_small(x: Single, a: Single, b: Single)
    requires
        is_finite(x),
        !a.is_nan(),
        b.same(num(0)),
    ensures
        !x.plus(a.plus(b)).is_nan(),
{
    law_zero_is_neutral(a, b);
    lemma_pivot_sum_keeps_order(x, a.plus(b), a.plus(b));
}

/// A tint turns the hue forward: a stronger one in the shadows or in the highlights never turns
/// it less, as long as it stays on the circle.
pub proof fn law_tints_turn_forward(p: Lch, less: ColorGrade, more: ColorGrade, taper: Single)
    requires
        is_share(p.l),
        is_small(less.split_shadow) && is_small(more.split_shadow),
        is_small(less.split_highlight) && is_small(more.split_highlight),
        less.saturation == more.saturation && less.vibrance == more.vibrance && less.hue_rotate == more.hue_rotate,
        less.split_shadow.le(more.split_shadow),
        less.split_highlight.le(more.split_highlight),
        num(0).le(num(0x3f80_0000).minus(smoothstep(num(0), num(0x3f00_0000), p.l))),
        ({
            let s = num(0x3f80_0000).minus(smoothstep(num(0), num(0x3f00_0000), p.l));
            let t = smoothstep(num(0x3f00_0000), num(0x3f80_0000), p.l);
            let turned = positive_degrees(p.h).plus(less.hue_rotate);
            let from = turned.plus(less.split_shadow.times(s).plus(less.split_highlight.times(t)));
            let to = turned.plus(more.split_shadow.times(s).plus(more.split_highlight.times(t)));
            &&& is_finite(turned)
            &&& num(0).le(from) && from.lt(num(0x43b4_0000))
            &&& num(0).le(to) && to.lt(num(0x43b4_0000))  // 360
        }),
        !p.h.is_nan(),
    ensures
        apply_color_grade(p, &less, taper).h.le(apply_color_grade(p, &more, taper).h),
{
    let s = num(0x3f80_0000).minus(smoothstep(num(0), num(0x3f00_0000), p.l));
    let t = smoothstep(num(0x3f00_0000), num(0x3f80_0000), p.l);
    let turned = positive_degrees(p.h).plus(less.hue_rotate);
    lemma_weights_are_finite(p.l);
    law_small_difference(p.l, num(0x3f00_0000), num(0));
    law_small_difference(num(0x3f80_0000), num(0x3f00_0000), num(0));
    law_difference_shows_order(num(0x3f00_0000), num(0x3f80_0000));
    law_dividing_keeps_order(
        p.l.minus(num(0x3f00_0000)),
        p.l.minus(num(0x3f00_0000)),
        num(0x3f80_0000).minus(num(0x3f00_0000)),
    );
    lemma_smoothstep_is_bounded(num(0x3f00_0000), num(0x3f80_0000), p.l);
    law_scaling_keeps_order(less.split_shadow, more.split_shadow, s);
    law_scaling_keeps_order(less.split_highlight, more.split_highlight, t);
    let (a, b) = (less.split_shadow.times(s), more.split_shadow.times(s));
    let (c, d) = (less.split_highlight.times(t), more.split_highlight.times(t));
    lemma_terms_are_numbers(turned, a.plus(c));
    lemma_terms_are_numbers(turned, b.plus(d));
    law_totals_keep_order(a, b, c, d);
    lemma_pivot_sum_keeps_order(turned, a.plus(c), b.plus(d));
    lemma_within_one_turn(turned.plus(a.plus(c)));
    lemma_within_one_turn(turned.plus(b.plus(d)));
}

/// At the middle of a band its settings count alone.
pub proof fn law_middle_of_a_band_counts_alone(h: Single)
    requires
        nearest_of(h, 8).d1.same(num(0)),
        num(0).lt(nearest_of(h, 8).d2),
        is_finite(nearest_of(h, 8).d2),
    ensures
        band_weights(h).0 == nearest_of(h, 8).first,
        band_weights(h).1 == num(0x3f80_0000),  // 1
        band_weights(h).3.same(num(0)),
{
    let n = nearest_of(h, 8);
    law_zero_is_neutral(n.d2, n.d1);
    law_self_quotient_is_one(n.d2);
    law_difference_shows_order(num(0x3f80_0000), num(0x3f80_0000));
}

/// The search for the edge of the gamut halves its span: the middle lies inside, what is inside
/// the gamut raises the lower end and what is outside lowers the upper one.
pub proof fn law_gamut_search_narrows(s: develop::Span, inside: bool)
    requires
        s.lo.le(s.hi),
        is_small(s.lo) && is_small(s.hi),
    ensures
        s.lo.le(span_middle(&s)) && span_middle(&s).le(s.hi),
        gamut_softclip(&s, inside).lo.le(gamut_softclip(&s, inside).hi),
        inside ==> gamut_softclip(&s, inside).hi == s.hi && s.lo.le(gamut_softclip(&s, inside).lo),
        !inside ==> gamut_softclip(&s, inside).lo == s.lo && gamut_softclip(&s, inside).hi.le(s.hi),
{
    let half = num(0x3f00_0000);
    law_doubling_is_exact(s.lo);
    law_doubling_is_exact(s.hi);
    lemma_small_sum(s.lo, s.hi);
    law_sums_keep_order(s.lo, s.hi, s.lo);
    law_sums_keep_order(s.lo, s.hi, s.hi);
    let (a, m, b) = (s.lo.plus(s.lo), s.lo.plus(s.hi), s.hi.plus(s.hi));
    law_scaling_keeps_order(a, m, half);
    law_scaling_keeps_order(m, b, half);
    lemma_two_halves();
    lemma_units();
    let p = pow2(149) as int;
    let v = half.value();
    assert(v * (2 * s.lo.value()) == s.lo.value() * p && v * (2 * s.hi.value()) == s.hi.value() * p) by (nonlinear_arith)
        requires
            2 * v == p,
    ;
    law_exact_product(half, a, s.lo);
    law_exact_product(half, b, s.hi);
}

/// A band that is turned further turns the hues in it further, as long as they stay on the
/// circle.
pub proof fn law_bands_turn_hues_forward(p: Lch, less: HslRegions, more: HslRegions, sat: Single, light: Single)
    requires
        ({
            let h = positive_degrees(p.h);
            let w = band_weights(h);
            let (a, b) = (less.hue_shift[w.0 as int], less.hue_shift[w.2 as int]);
            let (c, d) = (more.hue_shift[w.0 as int], more.hue_shift[w.2 as int]);
            let from = h.plus(w.1.times(a).plus(w.3.times(b)));
            let to = h.plus(w.1.times(c).plus(w.3.times(d)));
            &&& is_finite(h)
            &&& is_share(w.1) && is_share(w.3)
            &&& is_small(a) && is_small(b) && is_small(c) && is_small(d)
            &&& a.le(c) && b.le(d)
            &&& num(0).le(from) && from.lt(num(0x43b4_0000))  // 360
            &&& num(0).le(to) && to.lt(num(0x43b4_0000))  // 360
        }),
    ensures
        with_bands(p, less, sat, light).h.le(with_bands(p, more, sat, light).h),
{
    let h = positive_degrees(p.h);
    let w = band_weights(h);
    let (a, b) = (less.hue_shift[w.0 as int], less.hue_shift[w.2 as int]);
    let (c, d) = (more.hue_shift[w.0 as int], more.hue_shift[w.2 as int]);
    law_scaling_keeps_order(a, c, w.1);
    law_scaling_keeps_order(b, d, w.3);
    law_shares_shrink(a, w.1);
    law_shares_shrink(b, w.3);
    law_shares_shrink(c, w.1);
    law_shares_shrink(d, w.3);
    let (i, j) = (w.1.times(a), w.3.times(b));
    let (m, n) = (w.1.times(c), w.3.times(d));
    lemma_sum_is_a_number(i, j);
    lemma_sum_is_a_number(m, n);
    law_totals_keep_order(i, m, j, n);
    lemma_pivot_sum_keeps_order(h, i.plus(j), m.plus(n));
    lemma_within_one_turn(h.plus(i.plus(j)));
    lemma_within_one_turn(h.plus(m.plus(n)));
}

} // verus!
