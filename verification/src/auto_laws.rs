//! Which way the automatic correction goes: what a darker, paler or tinted picture gets, and how
//! a result is judged.

use crate::analyze::ImageMetrics;
use crate::auto::{first_rule, is_safe};
use crate::auto_color::{balance_of, depth_of, pale_vibrance};
use crate::guardrail::{
    band_score, bright_cap, does_damage, goodness, highlight_cap, is_artifact, shadow_cap, Damage,
    ToneTarget,
};
use crate::order::{
    is_finite, law_adding_raises, law_difference_shows_order, law_differences_keep_order,
    law_dividing_keeps_order, law_factors_stretch, law_limits_keep_order,
    law_negation_passes_through, law_product_sign, law_scaling_keeps_order, law_shares_shrink,
    law_small_difference, law_sum_lies_between, law_totals_keep_order, law_whole_numbers_are_exact,
    lies_between,
};
use crate::params::Field;
use crate::single::{
    is_small, law_order_is_numeric, law_product_commutes, law_products_keep_order,
    law_quotients_keep_order, law_self_quotient_is_one, law_sum_commutes, law_sums_keep_order,
    lemma_any_zero_times_is_zero, lemma_one, lemma_two_and_three, num, Single, INFINITY,
};
use crate::tonemap::{key_of, tonal_exposure, tonal_vibrance, Key, Tonality};
use vstd::prelude::*;

verus! {

/// Four times a number, turned around, has the opposite sign and falls where the number rises.
proof fn lemma_opposite(x: Single, y: Single)
    requires
        is_finite(x),
        is_finite(y),
        x.le(y),
    ensures
        num(0xc080_0000).times(y).le(num(0xc080_0000).times(x)),  // -4
        num(0).lt(x) ==> num(0xc080_0000).times(x).lt(num(0)),
        x.lt(num(0)) ==> num(0).lt(num(0xc080_0000).times(x)),
{
    let four = num(0x4080_0000);
    assert(four.negated() == num(0xc080_0000));
    law_negation_passes_through(four, x);
    law_negation_passes_through(four, y);
    law_scaling_keeps_order(x, y, four);
    if num(0).lt(x) {
        law_factors_stretch(x, four);
    }
    if x.lt(num(0)) {
        law_factors_stretch(x.negated(), four);
        law_negation_passes_through(x, four);
    }
}

/// The white balance goes against the cast: a yellow mean is cooled and a blue one warmed, a
/// magenta mean is turned to green and a green one to magenta, and a stronger cast is never
/// turned less.
pub proof fn law_balance_goes_against_the_cast(a: Single, b: Single, c: Single, d: Single)
    requires
        is_finite(a) && is_finite(b) && is_finite(c) && is_finite(d),
        a.le(c),
        b.le(d),
    ensures
        balance_of(c, d).temp.le(balance_of(a, b).temp),
        balance_of(c, d).tint.le(balance_of(a, b).tint),
        num(0).lt(b) ==> balance_of(a, b).temp.lt(num(0)),
        b.lt(num(0)) ==> num(0).lt(balance_of(a, b).temp),
        num(0).lt(a) ==> balance_of(a, b).tint.lt(num(0)),
        a.lt(num(0)) ==> num(0).lt(balance_of(a, b).tint),
{
    lemma_opposite(a, c);
    lemma_opposite(b, d);
    let four = num(0xc080_0000);
    law_limits_keep_order(four.times(d), four.times(b), num(0xbf0c_cccd), num(0x3f0c_cccd));
    law_limits_keep_order(four.times(c), four.times(a), num(0xbee6_6666), num(0x3ee6_6666));
}

/// A flatter picture never gets less exposure, nor more of the settings that deepen it.
pub proof fn law_flat_pictures_are_opened(lo: Single, hi: Single, top: Single)
    requires
        is_finite(lo) && is_finite(hi) && is_finite(top),
        hi.le(top),
    ensures
        depth_of(lo, hi).0.le(depth_of(lo, top).0),
        depth_of(lo, hi).1.le(depth_of(lo, top).1),
        depth_of(lo, top).2.le(depth_of(lo, hi).2),
        num(0).le(depth_of(lo, hi).2),
        hi.le(lo) ==> num(0).lt(depth_of(lo, hi).2) && depth_of(lo, hi).0.lt(num(0)),
{
    law_differences_keep_order(hi, top, lo);
    law_difference_shows_order(lo, hi);
}

/// A paler picture never gets less vibrance, and a vivid one gets none.
pub proof fn law_pale_pictures_get_vibrance(pale: Single, vivid: Single)
    requires
        pale.le(vivid),
    ensures
        pale_vibrance(vivid).le(pale_vibrance(pale)),
        num(0).le(pale_vibrance(vivid)),
        vivid.le(num(0)) ==> num(0).lt(pale_vibrance(vivid)),
        num(0x3f80_0000).le(vivid) ==> pale_vibrance(vivid) == num(0),  // 1
{
}

/// Vibrance is only ever added, and to a paler picture no less.
pub proof fn law_tonal_vibrance_is_added(vibrance: Single, mean_c: Single, strength: Single)
    requires
        is_finite(vibrance),
        vibrance.le(num(0x3ecc_cccd)),  // 0.4
        num(0).le(strength),
        is_finite(strength),
    ensures
        vibrance.le(tonal_vibrance(vibrance, mean_c, strength)),
        num(0x3f80_0000).le(mean_c) ==> tonal_vibrance(vibrance, mean_c, strength) == vibrance,  // 1
{
    law_product_sign(num(0x3e38_51ec), strength);
    law_product_sign(num(0x3da3_d70a), strength);
    law_adding_raises(vibrance, num(0x3e38_51ec).times(strength));
    law_adding_raises(vibrance, num(0x3da3_d70a).times(strength));
}

/// How far the median is raised at most, by key.
proof fn lemma_exposure_for_gap(gap: Single)
    requires
        !gap.is_nan(),
    ensures
        gap.le(num(0)) && is_finite(gap) ==> gap.over(num(0x3dcc_cccd)).clamp(num(0), num(0x4000_0000)).same(num(0)),
{
    if gap.le(num(0)) && is_finite(gap) {
        law_dividing_keeps_order(gap, gap, num(0x3dcc_cccd));
    }
}

/// What lies above a limit is not raised.
proof fn lemma_raised_to_a_limit(x: Single, t: Single, top: Single)
    requires
        is_small(x),
        is_small(top),
        is_small(t),
        num(0).le(t),
        num(0).lt(top),
        top.le(x),
    ensures
        x.plus(t).min(top).minus(x).over(num(0x3dcc_cccd)).clamp(num(0), num(0x4000_0000)).same(num(0)),
{
    law_adding_raises(x, t);
    let low = x.plus(t).min(top);
    assert(low == top);
    lemma_gap_is_finite(x, top);
    law_difference_shows_order(x, top);
    lemma_exposure_for_gap(top.minus(x));
}

/// A picture of middle key gets the more exposure the darker it is, and none from half up. A low
/// key is raised no further than 0.46 and a high key no further than 0.66.
pub proof fn law_dark_pictures_get_exposure(dark: Single, light: Single)
    requires
        is_small(dark) && is_small(light),
        dark.le(light),
    ensures
        tonal_exposure(Key::Mid, light).le(tonal_exposure(Key::Mid, dark)),
        num(0x3f00_0000).le(light) ==> tonal_exposure(Key::Mid, light).same(num(0)),  // 0.5
        num(0x3eeb_851f).le(light) ==> tonal_exposure(Key::Low, light).same(num(0)),  // 0.46
        num(0x3f28_f5c3).le(light) ==> tonal_exposure(Key::High, light).same(num(0)),  // 0.66
{
    let half = num(0x3f00_0000);
    let step = num(0x3dcc_cccd);
    law_differences_keep_order(dark, light, half);
    let near = half.minus(light);
    let far = half.minus(dark);
    lemma_gap_is_finite(light, half);
    lemma_gap_is_finite(dark, half);
    law_dividing_keeps_order(near, far, step);
    law_limits_keep_order(near.over(step), far.over(step), num(0), num(0x4000_0000));
    lemma_exposure_for_gap(near);
    law_difference_shows_order(light, half);
    if num(0x3eeb_851f).le(light) {
        lemma_raised_to_a_limit(light, num(0x3cf5_c28f), num(0x3eeb_851f));
    }
    if num(0x3f28_f5c3).le(light) {
        lemma_raised_to_a_limit(light, num(0x3d23_d70a), num(0x3f28_f5c3));
    }
}

/// More of a picture being bright never lowers its key, and more of it being dark never raises it.
pub proof fn law_key_follows_the_tones(m: ImageMetrics, n: ImageMetrics)
    requires
        m.tone.bright_area_pct.le(n.tone.bright_area_pct),
        n.tone.dark_area_pct.le(m.tone.dark_area_pct),
        m.tone.median_l.le(n.tone.median_l),
        m.exposure == n.exposure,
    ensures
        key_of(&m) == Key::High ==> key_of(&n) == Key::High,
        key_of(&n) == Key::Low ==> key_of(&m) == Key::Low,
{
}

/// A score lies between 0 and 1, is full inside the band, falls with the distance from it, and
/// is gone 0.06 away.
pub proof fn law_band_score_falls_outside(x: Single, y: Single, lo: Single, hi: Single)
    requires
        is_small(x) && is_small(y) && is_small(lo) && is_small(hi),
        lo.le(hi),
        x.le(y),
    ensures
        num(0).le(band_score(x, lo, hi)) && band_score(x, lo, hi).le(num(0x3f80_0000)),  // 1
        lo.le(x) && x.le(hi) ==> band_score(x, lo, hi) == num(0x3f80_0000),  // 1
        y.le(hi) ==> band_score(x, lo, hi).le(band_score(y, lo, hi)),
        lo.le(x) ==> band_score(y, lo, hi).le(band_score(x, lo, hi)),
        num(0x3d75_c28f).le(lo.minus(x)) ==> band_score(x, lo, hi).same(num(0)),  // 0.06
        num(0x3d75_c28f).le(x.minus(hi)) ==> band_score(x, lo, hi).same(num(0)),  // 0.06
{
    lemma_band_below(x, y, lo);
    lemma_band_above(x, y, hi);
    lemma_band_above(x, x, hi);
    law_difference_shows_order(x, lo);
    law_difference_shows_order(hi, x);
}

/// What is taken off a score, by how far a value lies outside.
proof fn lemma_taken_off(near: Single, far: Single)
    requires
        is_finite(far),
        num(0).le(near),
        near.le(far),
    ensures
        ({
            let one = num(0x3f80_0000);
            let step = num(0x3d75_c28f);
            let a = one.minus(near.over(step)).max(num(0));
            let b = one.minus(far.over(step)).max(num(0));
            &&& b.le(a)
            &&& num(0).le(b)
            &&& a.le(one)
            &&& step.le(far) ==> b.same(num(0))
        }),
{
    let one = num(0x3f80_0000);
    let step = num(0x3d75_c28f);
    law_quotients_keep_order(near, far, step);
    law_quotients_keep_order(num(0), near, step);
    law_dividing_keeps_order(num(0), num(0), step);
    law_self_quotient_is_one(step);
    if step.le(far) {
        law_quotients_keep_order(step, far, step);
    }
    let p = near.over(step);
    let q = far.over(step);
    assert(num(0).le(p) && p.le(q));
    assert(q.negated().le(p.negated()));
    assert(p.negated().le(num(0)));
    lemma_off_one(p, q);
}

/// Taking more away from one leaves less.
proof fn lemma_off_one(p: Single, q: Single)
    requires
        num(0).le(p),
        p.le(q),
    ensures
        num(0x3f80_0000).minus(q).le(num(0x3f80_0000).minus(p)),
        num(0x3f80_0000).minus(p).le(num(0x3f80_0000)),
        num(0x3f80_0000).le(q) ==> num(0x3f80_0000).minus(q).le(num(0)),
{
    let one = num(0x3f80_0000);
    law_adding_raises(one, p);
    if is_finite(q) {
        law_differences_keep_order(p, q, one);
        law_difference_shows_order(q, one);
    } else {
        reveal(Single::spec_plus);
        assert(one.minus(q).magnitude() == INFINITY && one.minus(q).negative());
    }
}

/// The difference of two moderate numbers is finite.
proof fn lemma_gap_is_finite(x: Single, y: Single)
    requires
        is_small(x) && is_small(y),
    ensures
        is_finite(x.minus(y)),
        is_finite(y.minus(x)),
{
    law_small_difference(x, y, num(0));
    law_small_difference(y, x, num(0));
}

proof fn lemma_band_below(x: Single, y: Single, lo: Single)
    requires
        is_small(x) && is_small(y) && is_small(lo),
        x.le(y),
    ensures
        ({
            let one = num(0x3f80_0000);
            let step = num(0x3d75_c28f);
            let a = one.minus(lo.minus(x).over(step)).max(num(0));
            let b = one.minus(lo.minus(y).over(step)).max(num(0));
            &&& x.lt(lo) ==> num(0).le(a) && a.le(one) && (step.le(lo.minus(x)) ==> a.same(num(0)))
            &&& y.lt(lo) ==> a.le(b)
        }),
{
    lemma_gap_is_finite(x, lo);
    lemma_gap_is_finite(y, lo);
    law_difference_shows_order(x, lo);
    law_difference_shows_order(y, lo);
    law_differences_keep_order(x, y, lo);
    if x.lt(lo) {
        lemma_taken_off(lo.minus(x), lo.minus(x));
    }
    if y.lt(lo) {
        lemma_taken_off(lo.minus(y), lo.minus(x));
    }
}

proof fn lemma_band_above(x: Single, y: Single, hi: Single)
    requires
        is_small(x) && is_small(y) && is_small(hi),
        x.le(y),
    ensures
        ({
            let one = num(0x3f80_0000);
            let step = num(0x3d75_c28f);
            let a = one.minus(x.minus(hi).over(step)).max(num(0));
            let b = one.minus(y.minus(hi).over(step)).max(num(0));
            &&& hi.lt(y) ==> num(0).le(b) && b.le(one) && (step.le(y.minus(hi)) ==> b.same(num(0)))
            &&& hi.lt(x) ==> b.le(a)
        }),
{
    lemma_gap_is_finite(x, hi);
    lemma_gap_is_finite(y, hi);
    law_difference_shows_order(hi, x);
    law_difference_shows_order(hi, y);
    law_differences_keep_order(x, y, hi);
    if hi.lt(y) {
        lemma_taken_off(y.minus(hi), y.minus(hi));
    }
    if hi.lt(x) {
        lemma_taken_off(x.minus(hi), y.minus(hi));
    }
}

/// What is no damage stays none where the result has less cast, skin no brighter and no more
/// vivid, and fewer blown highlights.
pub proof fn law_milder_results_are_no_damage(m: ImageMetrics, n: ImageMetrics, base: ImageMetrics, t: Tonality)
    requires
        n.cast.chroma.le(m.cast.chroma),
        n.skin.ratio == m.skin.ratio,
        n.skin.mean_l.le(m.skin.mean_l),
        n.skin.mean_c.le(m.skin.mean_c),
        n.exposure.highlight_clip_pct.le(m.exposure.highlight_clip_pct),
    ensures
        is_artifact(&m, &base, &t) is None ==> is_artifact(&n, &base, &t) is None,
{
}

/// A picture is no damage to itself unless its skin is too bright already.
pub proof fn law_unchanged_picture_is_no_damage(m: ImageMetrics, t: Tonality)
    requires
        is_finite(m.cast.chroma) && is_finite(m.skin.mean_c) && is_finite(m.exposure.highlight_clip_pct),
        m.skin.mean_l.le(num(0x3f51_eb85)),  // 0.82
    ensures
        is_artifact(&m, &m, &t) is None,
{
    law_adding_raises(m.cast.chroma, num(0x3da3_d70a));
    law_adding_raises(m.skin.mean_c, num(0x40e0_0000));
    law_adding_raises(m.exposure.highlight_clip_pct, num(0x3f80_0000));
}

/// What is safe stays safe where the result is darker, has fewer blown highlights, skin no
/// brighter and tones spread no less.
pub proof fn law_milder_results_are_safe(m: ImageMetrics, n: ImageMetrics, base: ImageMetrics)
    requires
        n.tone.mean_l.le(m.tone.mean_l),
        n.exposure.highlight_clip_pct.le(m.exposure.highlight_clip_pct),
        n.skin.mean_l.le(m.skin.mean_l),
        m.tone.std_l.le(n.tone.std_l),
    ensures
        is_safe(&m, &base) ==> is_safe(&n, &base),
{
}

/// A picture is safe for itself unless its skin is too bright already.
pub proof fn law_unchanged_picture_is_safe(m: ImageMetrics)
    requires
        is_finite(m.tone.mean_l) && is_finite(m.exposure.highlight_clip_pct) && is_finite(m.tone.std_l),
        num(0).le(m.tone.std_l),
        m.skin.mean_l.le(num(0x3f51_eb85)),  // 0.82
    ensures
        is_safe(&m, &m),
{
    law_adding_raises(m.tone.mean_l, num(0x3ca3_d70a));
    law_adding_raises(m.exposure.highlight_clip_pct, num(0x3da3_d70a));
    law_shares_shrink(m.tone.std_l, num(0x3f19_999a));
}

/// A result that is darker, has skin no brighter and colours, cast and clipping no stronger does
/// no damage that the other one does not, but for skin that it makes paler.
pub proof fn law_milder_results_do_less_damage(m: ImageMetrics, n: ImageMetrics, base: ImageMetrics, d: Damage)
    requires
        d != Damage::SkinPale,
        n.tone.mean_l.le(m.tone.mean_l),
        n.skin.ratio.le(m.skin.ratio),
        n.skin.mean_l.le(m.skin.mean_l),
        n.skin.mean_c.le(m.skin.mean_c),
        n.cast.chroma.le(m.cast.chroma),
        n.color.mean_c.le(m.color.mean_c),
        n.exposure.highlight_clip_pct.le(m.exposure.highlight_clip_pct),
        n.exposure.shadow_clip_pct.le(m.exposure.shadow_clip_pct),
    ensures
        does_damage(d, &n, &base) ==> does_damage(d, &m, &base),
{
}

/// Paling the skin is the damage of a result whose skin has less colour, never of one whose skin
/// has more; and it is never both too pale and too vivid.
pub proof fn law_pale_skin_has_less_color(m: ImageMetrics, n: ImageMetrics, base: ImageMetrics)
    requires
        is_finite(base.skin.mean_c),
        n.skin.ratio.le(m.skin.ratio),
        m.skin.mean_c.le(n.skin.mean_c),
    ensures
        does_damage(Damage::SkinPale, &n, &base) ==> does_damage(Damage::SkinPale, &m, &base),
        !(does_damage(Damage::SkinPale, &m, &base) && does_damage(Damage::SkinVivid, &m, &base)),
{
    law_adding_raises(base.skin.mean_c, num(0x40e0_0000));
}

/// A picture does no damage to itself unless it or its skin is too bright already.
pub proof fn law_unchanged_picture_does_no_damage(m: ImageMetrics, d: Damage)
    requires
        is_finite(m.skin.mean_c) && is_finite(m.cast.chroma) && is_finite(m.color.mean_c),
        is_finite(m.exposure.highlight_clip_pct) && is_finite(m.exposure.shadow_clip_pct),
        m.tone.mean_l.le(num(0x3f1e_b852)),  // 0.62
        m.skin.mean_l.le(num(0x3f51_eb85)),  // 0.82
    ensures
        !does_damage(d, &m, &m),
{
    law_adding_raises(m.skin.mean_c, num(0x40e0_0000));
    law_adding_raises(m.cast.chroma, num(0x4000_0000));
    law_adding_raises(m.color.mean_c, num(0x3cf5_c28f));
    law_adding_raises(m.exposure.highlight_clip_pct, num(0x4040_0000));
    law_adding_raises(m.exposure.highlight_clip_pct, num(0x3e99_999a));
    law_adding_raises(m.exposure.shadow_clip_pct, num(0x4120_0000));
    law_adding_raises(m.exposure.shadow_clip_pct, num(0x3f80_0000));
}

/// More brightness is granted to a picture that was brighter, and more black to one that was
/// darker.
pub proof fn law_limits_follow_the_original(dark: ImageMetrics, light: ImageMetrics)
    requires
        dark.tone.median_l.le(light.tone.median_l),
        dark.exposure == light.exposure,
        is_finite(dark.exposure.highlight_clip_pct) && is_finite(dark.exposure.shadow_clip_pct),
    ensures
        bright_cap(&dark).le(bright_cap(&light)),
        highlight_cap(&dark).le(highlight_cap(&light)),
        shadow_cap(&light).le(shadow_cap(&dark)),
{
    let h = dark.exposure.highlight_clip_pct;
    let s = dark.exposure.shadow_clip_pct;
    law_sums_keep_order(num(0x3e99_999a), num(0x4040_0000), h);
    law_sums_keep_order(num(0x3f80_0000), num(0x4120_0000), s);
    law_sum_commutes(h, num(0x3e99_999a));
    law_sum_commutes(h, num(0x4040_0000));
    law_sum_commutes(s, num(0x3f80_0000));
    law_sum_commutes(s, num(0x4120_0000));
}

/// A result whose measurements lie no further from the target, with no stronger cast, is never
/// judged worse.
pub proof fn law_goodness_follows_the_scores(m: ImageMetrics, n: ImageMetrics, t: ToneTarget)
    requires
        lies_between(band_score(m.tone.median_l, t.med_lo, t.med_hi), 0, 1),
        lies_between(band_score(m.tone.std_l, t.std_lo, t.std_hi), 0, 1),
        lies_between(band_score(m.color.mean_c, t.c_lo, t.c_hi), 0, 1),
        lies_between(band_score(n.tone.median_l, t.med_lo, t.med_hi), 0, 1),
        lies_between(band_score(n.tone.std_l, t.std_lo, t.std_hi), 0, 1),
        lies_between(band_score(n.color.mean_c, t.c_lo, t.c_hi), 0, 1),
        band_score(m.tone.median_l, t.med_lo, t.med_hi).le(band_score(n.tone.median_l, t.med_lo, t.med_hi)),
        band_score(m.tone.std_l, t.std_lo, t.std_hi).le(band_score(n.tone.std_l, t.std_lo, t.std_hi)),
        band_score(m.color.mean_c, t.c_lo, t.c_hi).le(band_score(n.color.mean_c, t.c_lo, t.c_hi)),
        is_small(m.cast.chroma) && is_small(n.cast.chroma),
        n.cast.chroma.le(m.cast.chroma),
    ensures
        goodness(&m, &t).le(goodness(&n, &t)),
{
    let three = num(0x4040_0000);
    let two = num(0x4000_0000);
    let more = num(0x3fc0_0000);
    let p0 = band_score(m.tone.median_l, t.med_lo, t.med_hi);
    let p1 = band_score(m.tone.std_l, t.std_lo, t.std_hi);
    let p2 = band_score(m.color.mean_c, t.c_lo, t.c_hi);
    let q0 = band_score(n.tone.median_l, t.med_lo, t.med_hi);
    let q1 = band_score(n.tone.std_l, t.std_lo, t.std_hi);
    let q2 = band_score(n.color.mean_c, t.c_lo, t.c_hi);
    lemma_gain(num(0), num(0), p0, q0, three, 0);
    let a = num(0).plus(p0.times(three));
    let b = num(0).plus(q0.times(three));
    lemma_gain(a, b, p1, q1, two, 3);
    let c = a.plus(p1.times(two));
    let d = b.plus(q1.times(two));
    lemma_gain(c, d, p2, q2, more, 6);
    let e = c.plus(p2.times(more));
    let f = d.plus(q2.times(more));
    lemma_loss(e, f, m.cast.chroma, n.cast.chroma);
}

/// A larger score adds no less.
proof fn lemma_gain(a: Single, b: Single, p: Single, q: Single, k: Single, most: int)
    requires
        a.le(b),
        lies_between(a, 0, most),
        lies_between(b, 0, most),
        0 <= most <= 8,
        p.le(q),
        lies_between(p, 0, 1),
        lies_between(q, 0, 1),
        num(0).le(k),
        k.le(num(0x4040_0000)),  // 3
    ensures
        a.plus(p.times(k)).le(b.plus(q.times(k))),
        lies_between(a.plus(p.times(k)), 0, most + 3),
        lies_between(b.plus(q.times(k)), 0, most + 3),
{
    law_scaling_keeps_order(p, q, k);
    lemma_share_of_three(p, k);
    lemma_share_of_three(q, k);
    law_sum_lies_between(a, p.times(k), 0, most, 0, 3);
    law_sum_lies_between(b, q.times(k), 0, most, 0, 3);
    law_totals_keep_order(a, b, p.times(k), q.times(k));
}

proof fn lemma_share_of_three(p: Single, k: Single)
    requires
        lies_between(p, 0, 1),
        num(0).le(k),
        k.le(num(0x4040_0000)),  // 3
    ensures
        lies_between(p.times(k), 0, 3),
{
    let one = num(0x3f80_0000);
    let three = num(0x4040_0000);
    law_whole_numbers_are_exact(0);
    law_whole_numbers_are_exact(1);
    law_whole_numbers_are_exact(3);
    lemma_two_and_three();
    lemma_one();
    law_order_is_numeric(num(0), p);
    law_order_is_numeric(p, one);
    law_product_commutes(p, k);
    law_shares_shrink(k, p);
    law_order_is_numeric(num(0), k.times(p));
    law_order_is_numeric(k.times(p), k);
    law_order_is_numeric(k, three);
}

/// A stronger cast takes no less away.
proof fn lemma_loss(e: Single, f: Single, x: Single, y: Single)
    requires
        e.le(f),
        is_finite(e) && is_finite(f),
        is_small(x) && is_small(y),
        y.le(x),
    ensures
        e.minus(x.minus(num(0x3cf5_c28f)).max(num(0)).times(num(0x4080_0000))).le(
            f.minus(y.minus(num(0x3cf5_c28f)).max(num(0)).times(num(0x4080_0000))),
        ),
{
    let floor = num(0x3cf5_c28f);
    let four = num(0x4080_0000);
    law_differences_keep_order(y, x, floor);
    law_small_difference(x, floor, four);
    law_small_difference(y, floor, four);
    let p = x.minus(floor).max(num(0));
    let q = y.minus(floor).max(num(0));
    law_scaling_keeps_order(q, p, four);
    law_small_difference(num(0), num(0), four);
    lemma_any_zero_times_is_zero(num(0), four);
    assert(is_finite(p.times(four)));
    assert(is_finite(q.times(four)));
    law_differences_keep_order(e, f, p.times(four));
    law_differences_keep_order(q.times(four), p.times(four), f);
}

/// The first correction brightens a dark picture and darkens a bright one, a darker one no less.
pub proof fn law_first_exposure_follows_the_mean(m: ImageMetrics, n: ImageMetrics)
    requires
        is_small(m.tone.mean_l) && is_small(n.tone.mean_l),
        m.tone.mean_l.le(n.tone.mean_l),
    ensures
        m.tone.mean_l.lt(num(0x3eeb_851f)) ==> (first_rule(&m, 0) matches Some(r) && r.0 == Field::ExposureEv && num(0).lt(r.1)),  // 0.46
        n.tone.mean_l.gt(num(0x3f19_999a)) ==> (first_rule(&n, 0) matches Some(r) && r.0 == Field::ExposureEv && r.1.lt(num(0))),  // 0.6
        first_rule(&m, 0) matches Some(r) ==> (first_rule(&n, 0) matches Some(q) ==> q.1.le(r.1)),
{
    let aim = num(0x3f05_1eb8);
    let up = num(0x3fb3_3333);
    let down = num(0x3f8c_cccd);
    let x = m.tone.mean_l;
    let y = n.tone.mean_l;
    lemma_first_step(x, y, aim, up, down);
}

proof fn lemma_first_step(x: Single, y: Single, aim: Single, up: Single, down: Single)
    requires
        is_small(x) && is_small(y),
        x.le(y),
        aim == num(0x3f05_1eb8),
        up == num(0x3fb3_3333),
        down == num(0x3f8c_cccd),
    ensures
        x.lt(aim) ==> num(0).lt(aim.minus(x).times(up).min(num(0x3f00_0000))),
        y.lt(aim) ==> aim.minus(y).times(up).min(num(0x3f00_0000)).le(aim.minus(x).times(up).min(num(0x3f00_0000))),
        aim.lt(y) ==> y.minus(aim).times(down).min(num(0x3f00_0000)).negated().lt(num(0)),
        aim.lt(x) ==> y.minus(aim).times(down).min(num(0x3f00_0000)).negated().le(x.minus(aim).times(down).min(num(0x3f00_0000)).negated()),
{
    law_difference_shows_order(x, aim);
    law_difference_shows_order(y, aim);
    law_difference_shows_order(aim, x);
    law_difference_shows_order(aim, y);
    lemma_gap_is_finite(x, aim);
    lemma_gap_is_finite(y, aim);
    law_differences_keep_order(x, y, aim);
    if x.lt(aim) {
        lemma_stretched(aim.minus(x), up);
    }
    if y.lt(aim) {
        lemma_stretched(aim.minus(y), up);
        law_products_keep_order(aim.minus(y), aim.minus(x), up);
    }
    if aim.lt(y) {
        lemma_stretched(y.minus(aim), down);
    }
    if aim.lt(x) {
        lemma_stretched(x.minus(aim), down);
        law_products_keep_order(x.minus(aim), y.minus(aim), down);
    }
}

/// A positive amount stays positive under a factor of one or more.
proof fn lemma_stretched(d: Single, k: Single)
    requires
        num(0).lt(d),
        num(0x3f80_0000).le(k),
        is_finite(k),
    ensures
        num(0).lt(d.times(k)),
{
    if is_finite(d) {
        law_factors_stretch(d, k);
    } else {
        reveal(Single::spec_times);
    }
}

} // verus!
