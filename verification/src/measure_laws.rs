//! What is measured of a picture, and how a result is scored by it.

use crate::analyze::{
    below, brightest, darkest, first_step, in_gamut, level_of, most_vivid, quartile, skin_prob,
    spec_step_l, ImageMetrics, Reading,
};
use crate::develop_laws::{is_share, lemma_pivot_sum_keeps_order};
use crate::grading_laws::lemma_one_and_one;
use crate::guardrail::{score, target_for};
use crate::order::{
    is_finite, law_adding_raises, law_difference_lies_between, law_differences_keep_order,
    law_dividing_keeps_order, law_factors_stretch, law_limits_keep_order, law_product_sign,
    law_scaling_keeps_order, law_shares_shrink, law_small_difference, law_small_product_is_finite,
    law_totals_keep_order, law_whole_numbers_are_exact, lemma_sum_is_a_number,
    lemma_terms_are_numbers, lemma_top_byte,
};
use crate::reference::{hue_shortest_diff, ref_score, strongest_band};
use crate::single::{
    is_small, law_negation_is_opposite, law_order_is_numeric, law_sum_commutes, law_sums_keep_order,
    law_whole_parts_keep_order, lemma_any_zero_times_is_zero, lemma_small_sum, num, Single,
};
use crate::tone_laws::lemma_bytes_in_order;
use crate::tonemap::{shape_of, tonal_grade, Key, Span, Tonality};
use vstd::arithmetic::power2::{lemma_pow2_pos, pow2};
use vstd::prelude::*;

verus! {

/// A lighter pixel never falls on a lower step of the histogram.
pub proof fn law_levels_rise_with_lightness(l: Single, m: Single)
    requires
        is_finite(l) && is_finite(m),
        l.le(m),
    ensures
        level_of(l) <= level_of(m),
{
    let top = num(0x437f_0000);
    law_scaling_keeps_order(l, m, top);
    let (a, b) = (l.times(top), m.times(top));
    law_limits_keep_order(a, b, num(0), top);
    law_whole_parts_keep_order(a.clamp(num(0), top), b.clamp(num(0), top), 0, 255);
}

/// No pixel is darker than the darkest or lighter than the lightest, and none more vivid than the
/// most vivid.
pub proof fn law_extremes_hold_every_pixel(v: Seq<Reading>, n: int, i: int)
    requires
        0 <= i < n <= v.len(),
        forall|j: int| 0 <= j < n ==> !(#[trigger] v[j]).l.is_nan() && !v[j].c.is_nan(),
    ensures
        darkest(v, n).le(v[i].l),
        v[i].l.le(brightest(v, n)),
        v[i].c.le(most_vivid(v, n)),
    decreases n,
{
    lemma_extremes_are_numbers(v, n - 1);
    assert(!v[n - 1].l.is_nan() && !v[n - 1].c.is_nan());
    if i < n - 1 {
        law_extremes_hold_every_pixel(v, n - 1, i);
    }
}

proof fn lemma_extremes_are_numbers(v: Seq<Reading>, n: int)
    requires
        0 <= n <= v.len(),
        forall|j: int| 0 <= j < n ==> !(#[trigger] v[j]).l.is_nan() && !v[j].c.is_nan(),
    ensures
        !darkest(v, n).is_nan() && !brightest(v, n).is_nan() && !most_vivid(v, n).is_nan(),
    decreases n,
{
    if n > 0 {
        lemma_extremes_are_numbers(v, n - 1);
        assert(!v[n - 1].l.is_nan() && !v[n - 1].c.is_nan());
    }
}

/// The lightness that more quarters of the pixels reach is no lower.
pub proof fn law_quartiles_rise(levels: Seq<u64>, n: int, few: int, many: int, l: Single, m: Single)
    requires
        0 <= n,
        few <= many,
        quartile(levels, n, few, l),
        quartile(levels, n, many, m),
    ensures
        l.le(m),
{
    if n > 0 {
        let a = choose|b: u32| #[trigger] first_step(levels, n, few, b as int) && l == spec_step_l(b);
        let b = choose|b: u32| #[trigger] first_step(levels, n, many, b as int) && m == spec_step_l(b);
        assert(few * n <= many * n) by (nonlinear_arith)
            requires
                few <= many,
                n >= 0,
        ;
        if b < a {
            assert(4 * below(levels, b + 1) < few * n);
        }
        let (x, y) = (Single::spec_from_int(a as int), Single::spec_from_int(b as int));
        law_whole_numbers_are_exact(a as int);
        law_whole_numbers_are_exact(b as int);
        lemma_pow2_pos(149);
        let p = pow2(149) as int;
        let (i, j) = (a as int, b as int);
        assert(i * p <= j * p) by (nonlinear_arith)
            requires
                i <= j,
                p > 0,
        ;
        law_order_is_numeric(x, y);
        let half = num(0x3f00_0000);
        lemma_step_is_small(a);
        lemma_step_is_small(b);
        law_sums_keep_order(x, y, half);
        lemma_small_sum(x, half);
        lemma_small_sum(y, half);
        law_dividing_keeps_order(x.plus(half), y.plus(half), num(0x4380_0000));
    }
}

proof fn lemma_step_is_small(b: u32)
    requires
        b < 256,
    ensures
        is_small(Single::spec_from_int(b as int)),
{
    lemma_bytes_in_order(b as u8, 255);
    lemma_top_byte();
}

/// A pixel counts no more for skin than its hue does, and less where it is too dark, too bright,
/// too pale or too vivid.
pub proof fn law_skin_counts_by_its_hue_at_most(p: Reading)
    requires
        is_share(p.skin_hue),
    ensures
        num(0).le(skin_prob(&p)),
        skin_prob(&p).le(p.skin_hue),
        // 0.18, 0.85, 0.02, 0.2
        num(0x3e38_51ec).le(p.l) && p.l.le(num(0x3f59_999a)) && num(0x3ca3_d70a).le(p.c) && p.c.le(num(0x3e4c_cccd)) ==> skin_prob(&p) == p.skin_hue,
{
    law_shares_shrink(p.skin_hue, num(0x3e4c_cccd));
    law_shares_shrink(p.skin_hue, num(0x3e99_999a));
    law_shares_shrink(p.skin_hue.times(num(0x3e4c_cccd)), num(0x3e99_999a));
}

/// Light whose channels are shares lies in the gamut.
pub proof fn law_shares_lie_in_the_gamut(r: Single, g: Single, b: Single)
    requires
        is_share(r) && is_share(g) && is_share(b),
    ensures
        in_gamut(r, g, b),
{
    law_adding_raises(num(0x3f80_0000), num(0x38d1_b717));
}

/// A number and one that is taken from it, where that is finite.
proof fn lemma_less(c: Single, s: Single, t: Single)
    requires
        !c.is_nan(),
        is_finite(s) && is_finite(t),
        s.le(t),
    ensures
        c.minus(t).le(c.minus(s)),
        !c.minus(s).is_nan(),
{
    if is_finite(c) {
        law_differences_keep_order(s, t, c);
    } else {
        lemma_pivot_sum_keeps_order(s.negated(), c, c);
        lemma_pivot_sum_keeps_order(t.negated(), c, c);
        law_sum_commutes(s.negated(), c);
        law_sum_commutes(t.negated(), c);
        law_totals_keep_order(c, c, t.negated(), s.negated());
    }
}

/// A sum with a finite number is a number.
proof fn lemma_more(c: Single, t: Single)
    requires
        !c.is_nan(),
        is_finite(t),
    ensures
        !c.plus(t).is_nan(),
{
    lemma_pivot_sum_keeps_order(t, c, c);
    law_sum_commutes(t, c);
}

/// Of two results that are alike in colour, the one whose tones are spread no less and lie no
/// further from the middle, with less clipping and no stronger cast, never scores lower.
pub proof fn law_cleaner_results_score_higher(m: ImageMetrics, n: ImageMetrics, base: ImageMetrics)
    requires
        m.color == n.color,
        is_small(m.tone.std_l) && is_small(m.tone.mean_l) && is_small(m.color.mean_c),
        is_small(n.tone.std_l) && is_small(n.tone.mean_l),
        m.tone.std_l.le(n.tone.std_l),
        n.tone.mean_l.minus(num(0x3f00_0000)).abs().le(m.tone.mean_l.minus(num(0x3f00_0000)).abs()),  // 0.5
        is_small(base.tone.std_l) && is_small(base.tone.mean_l) && is_small(base.color.mean_c) && is_small(base.cast.chroma),
        is_share(m.exposure.highlight_clip_pct) && is_share(m.exposure.shadow_clip_pct),
        is_share(n.exposure.highlight_clip_pct) && is_share(n.exposure.shadow_clip_pct),
        is_small(m.cast.chroma) && is_small(n.cast.chroma),
        n.exposure.highlight_clip_pct.le(m.exposure.highlight_clip_pct),
        n.exposure.shadow_clip_pct.le(m.exposure.shadow_clip_pct),
        n.cast.chroma.le(m.cast.chroma),
    ensures
        score(&m, &base).le(score(&n, &base)),
{
    lemma_tone_part(m, base);
    lemma_tone_part(n, base);
    lemma_tone_parts_in_order(m, n, base);
    lemma_charges(tone_part(m, base), tone_part(n, base), m, n, base);
}

/// Tones that are spread more and lie nearer to the middle add no less.
proof fn lemma_tone_parts_in_order(m: ImageMetrics, n: ImageMetrics, base: ImageMetrics)
    requires
        m.color == n.color,
        is_small(m.tone.std_l) && is_small(m.tone.mean_l) && is_small(m.color.mean_c),
        is_small(n.tone.std_l) && is_small(n.tone.mean_l),
        is_small(base.tone.std_l) && is_small(base.tone.mean_l) && is_small(base.color.mean_c),
        m.tone.std_l.le(n.tone.std_l),
        n.tone.mean_l.minus(num(0x3f00_0000)).abs().le(m.tone.mean_l.minus(num(0x3f00_0000)).abs()),
    ensures
        tone_part(m, base).le(tone_part(n, base)),
{
    let two = num(0x4000_0000);
    let half = num(0x3f00_0000);
    lemma_tone_part(m, base);
    lemma_tone_part(n, base);
    lemma_limited_product(m.tone.std_l, base.tone.std_l);
    lemma_limited_product(n.tone.std_l, base.tone.std_l);
    law_differences_keep_order(m.tone.std_l, n.tone.std_l, base.tone.std_l);
    law_small_difference(m.tone.std_l, base.tone.std_l, two);
    law_small_difference(n.tone.std_l, base.tone.std_l, two);
    let (x, z) = (m.tone.std_l.minus(base.tone.std_l).min(num(0x3e4c_cccd)), n.tone.std_l.minus(base.tone.std_l).min(num(0x3e4c_cccd)));
    law_scaling_keeps_order(x, z, two);
    lemma_more(num(0), x.times(two));
    lemma_more(num(0), z.times(two));
    law_totals_keep_order(num(0), num(0), x.times(two), z.times(two));
    lemma_middle_part(m.tone.mean_l, n.tone.mean_l, base.tone.mean_l);
    let y = base.tone.mean_l.minus(half).abs().minus(m.tone.mean_l.minus(half).abs());
    let u = base.tone.mean_l.minus(half).abs().minus(n.tone.mean_l.minus(half).abs());
    let (a, b) = (num(0).plus(x.times(two)), num(0).plus(z.times(two)));
    lemma_more(a, y.times(half));
    lemma_more(b, u.times(half));
    law_totals_keep_order(a, b, y.times(half), u.times(half));
    let (c, d) = (a.plus(y.times(half)), b.plus(u.times(half)));
    lemma_color_part(c, d, m.color.mean_c, base.color.mean_c);
}

/// The colour's part on top of two others.
proof fn lemma_color_part(c: Single, d: Single, x: Single, y: Single)
    requires
        c.le(d),
        is_small(x) && is_small(y),
    ensures
        c.plus(y.minus(x).times(num(0x3f80_0000))).le(d.plus(y.minus(x).times(num(0x3f80_0000)))),
        c.minus(x.minus(y.min(num(0x3e38_51ec))).max(num(0)).times(num(0x3f00_0000))).le(
            d.minus(x.minus(y.min(num(0x3e38_51ec))).max(num(0)).times(num(0x3f00_0000))),
        ),
{
    let one = num(0x3f80_0000);
    let half = num(0x3f00_0000);
    law_small_difference(y, x, one);
    law_small_difference(x, y.min(num(0x3e38_51ec)), half);
    let s = y.minus(x).times(one);
    let z = x.minus(y.min(num(0x3e38_51ec))).max(num(0));
    law_shares_shrink(z, half);
    let t = z.times(half).negated();
    lemma_more(c, s);
    lemma_more(d, s);
    lemma_more(c, t);
    lemma_more(d, t);
    law_totals_keep_order(c, d, s, s);
    law_totals_keep_order(c, d, t, t);
}

/// Half of how much nearer to the middle a lightness lies than the original's.
proof fn lemma_middle_part(m: Single, n: Single, base: Single)
    requires
        is_small(m) && is_small(n) && is_small(base),
        n.minus(num(0x3f00_0000)).abs().le(m.minus(num(0x3f00_0000)).abs()),
    ensures
        ({
            let half = num(0x3f00_0000);
            let y = base.minus(half).abs().minus(m.minus(half).abs());
            let u = base.minus(half).abs().minus(n.minus(half).abs());
            y.times(half).le(u.times(half)) && is_finite(y.times(half)) && is_finite(u.times(half))
        }),
{
    let half = num(0x3f00_0000);
    lemma_distance_product(base, m);
    lemma_distance_product(base, n);
    law_small_difference(base, half, half);
    law_small_difference(m, half, half);
    law_small_difference(n, half, half);
    let (a, b, c) = (base.minus(half).abs(), m.minus(half).abs(), n.minus(half).abs());
    law_differences_keep_order(c, b, a);
    lemma_difference_is_finite(base, m);
    lemma_difference_is_finite(base, n);
    law_scaling_keeps_order(a.minus(b), a.minus(c), half);
}

/// What tone and colour add to a score.
spec fn tone_part(m: ImageMetrics, base: ImageMetrics) -> Single {
    let a = num(0).plus(m.tone.std_l.minus(base.tone.std_l).min(num(0x3e4c_cccd)).times(num(0x4000_0000)));
    let y = base.tone.mean_l.minus(num(0x3f00_0000)).abs().minus(m.tone.mean_l.minus(num(0x3f00_0000)).abs());
    let b = a.plus(y.times(num(0x3f00_0000)));
    if m.color.mean_c.lt(base.color.mean_c) {
        b.plus(base.color.mean_c.minus(m.color.mean_c).times(num(0x3f80_0000)))
    } else {
        b.minus(m.color.mean_c.minus(base.color.mean_c.min(num(0x3e38_51ec))).max(num(0)).times(num(0x3f00_0000)))
    }
}

proof fn lemma_tone_part(m: ImageMetrics, base: ImageMetrics)
    requires
        is_small(m.tone.std_l) && is_small(m.tone.mean_l) && is_small(m.color.mean_c),
        is_small(base.tone.std_l) && is_small(base.tone.mean_l) && is_small(base.color.mean_c),
    ensures
        !tone_part(m, base).is_nan(),
{
    let two = num(0x4000_0000);
    let half = num(0x3f00_0000);
    let one = num(0x3f80_0000);
    let x = m.tone.std_l.minus(base.tone.std_l).min(num(0x3e4c_cccd));
    lemma_limited_product(m.tone.std_l, base.tone.std_l);
    let a = num(0).plus(x.times(two));
    lemma_more(num(0), x.times(two));
    let y = base.tone.mean_l.minus(half).abs().minus(m.tone.mean_l.minus(half).abs());
    lemma_distance_product(base.tone.mean_l, m.tone.mean_l);
    let b = a.plus(y.times(half));
    lemma_more(a, y.times(half));
    law_small_difference(base.color.mean_c, m.color.mean_c, one);
    let z = m.color.mean_c.minus(base.color.mean_c.min(num(0x3e38_51ec))).max(num(0));
    law_small_difference(m.color.mean_c, base.color.mean_c.min(num(0x3e38_51ec)), half);
    law_shares_shrink(z, half);
    lemma_more(b, base.color.mean_c.minus(m.color.mean_c).times(one));
    lemma_more(b, z.times(half).negated());
}

/// What clipping and a cast take from a score.
proof fn lemma_charges(c: Single, f: Single, m: ImageMetrics, n: ImageMetrics, base: ImageMetrics)
    requires
        c.le(f),
        is_small(base.cast.chroma),
        is_share(m.exposure.highlight_clip_pct) && is_share(m.exposure.shadow_clip_pct),
        is_share(n.exposure.highlight_clip_pct) && is_share(n.exposure.shadow_clip_pct),
        is_small(m.cast.chroma) && is_small(n.cast.chroma),
        n.exposure.highlight_clip_pct.le(m.exposure.highlight_clip_pct),
        n.exposure.shadow_clip_pct.le(m.exposure.shadow_clip_pct),
        n.cast.chroma.le(m.cast.chroma),
    ensures
        ({
            let two = num(0x4000_0000);
            let more = num(0x3fc0_0000);
            let d = c.minus(m.exposure.highlight_clip_pct.plus(m.exposure.shadow_clip_pct).times(more));
            let e = f.minus(n.exposure.highlight_clip_pct.plus(n.exposure.shadow_clip_pct).times(more));
            d.minus(m.cast.chroma.minus(base.cast.chroma).max(num(0)).times(two)).le(
                e.minus(n.cast.chroma.minus(base.cast.chroma).max(num(0)).times(two)),
            )
        }),
{
    let two = num(0x4000_0000);
    let more = num(0x3fc0_0000);
    let (s, t) = (n.exposure.highlight_clip_pct.plus(n.exposure.shadow_clip_pct), m.exposure.highlight_clip_pct.plus(m.exposure.shadow_clip_pct));
    lemma_clipping(n.exposure.highlight_clip_pct, n.exposure.shadow_clip_pct, m.exposure.highlight_clip_pct, m.exposure.shadow_clip_pct);
    let (u, w) = (n.cast.chroma.minus(base.cast.chroma).max(num(0)), m.cast.chroma.minus(base.cast.chroma).max(num(0)));
    lemma_cast_charge(n.cast.chroma, m.cast.chroma, base.cast.chroma);
    lemma_two_charges(c, f, s.times(more), t.times(more), u.times(two), w.times(two));
}

/// What a cast beyond that of the original is charged.
proof fn lemma_cast_charge(x: Single, y: Single, b: Single)
    requires
        is_small(x) && is_small(y) && is_small(b),
        x.le(y),
    ensures
        is_finite(x.minus(b).max(num(0)).times(num(0x4000_0000))) && is_finite(y.minus(b).max(num(0)).times(num(0x4000_0000))),
        x.minus(b).max(num(0)).times(num(0x4000_0000)).le(y.minus(b).max(num(0)).times(num(0x4000_0000))),
{
    let two = num(0x4000_0000);
    law_differences_keep_order(x, y, b);
    law_small_difference(x, b, two);
    law_small_difference(y, b, two);
    lemma_zero_product(two);
    law_scaling_keeps_order(x.minus(b).max(num(0)), y.minus(b).max(num(0)), two);
}

/// Of two charges each, the smaller ones leave no less.
proof fn lemma_two_charges(c: Single, f: Single, s: Single, t: Single, u: Single, w: Single)
    requires
        c.le(f),
        is_finite(s) && is_finite(t) && is_finite(u) && is_finite(w),
        s.le(t),
        u.le(w),
    ensures
        c.minus(t).minus(w).le(f.minus(s).minus(u)),
{
    lemma_less(c, t, t);
    lemma_less(f, s, s);
    law_totals_keep_order(c, f, t.negated(), s.negated());
    let (d, e) = (c.minus(t), f.minus(s));
    lemma_less(d, w, w);
    lemma_less(e, u, w);
    law_totals_keep_order(d, e, w.negated(), u.negated());
}

proof fn lemma_zero_product(k: Single)
    requires
        is_small(k),
    ensures
        is_finite(num(0).times(k)),
{
    law_small_product_is_finite(num(0), k);
}

/// A difference that is limited above, doubled.
proof fn lemma_limited_product(x: Single, y: Single)
    requires
        is_small(x) && is_small(y),
    ensures
        is_finite(x.minus(y).min(num(0x3e4c_cccd)).times(num(0x4000_0000))),
{
    let two = num(0x4000_0000);
    law_small_difference(x, y, two);
    law_small_product_is_finite(num(0x3e4c_cccd), two);
}

/// The difference of two distances from the middle is finite.
proof fn lemma_difference_is_finite(x: Single, y: Single)
    requires
        is_small(x) && is_small(y),
    ensures
        ({
            let half = num(0x3f00_0000);
            is_finite(x.minus(half).abs().minus(y.minus(half).abs()))
        }),
{
    let half = num(0x3f00_0000);
    law_small_difference(x, half, half);
    law_small_difference(y, half, half);
    let (a, b) = (x.minus(half).abs(), y.minus(half).abs());
    law_negation_is_opposite(x.minus(half));
    law_negation_is_opposite(y.minus(half));
    lemma_pow2_pos(149);
    law_difference_lies_between(a, b, -0x20_0000, 0x20_0000, -0x20_0000, 0x20_0000);
}

/// Half the difference of two distances.
proof fn lemma_distance_product(x: Single, y: Single)
    requires
        is_small(x) && is_small(y),
    ensures
        ({
            let half = num(0x3f00_0000);
            is_finite(x.minus(half).abs().minus(y.minus(half).abs()).times(half))
        }),
{
    let half = num(0x3f00_0000);
    let (a, b) = (x.minus(half).abs(), y.minus(half).abs());
    lemma_difference_is_finite(x, y);
    law_shares_shrink(a.minus(b), half);
}

/// Clipping at both ends, one and a half times.
proof fn lemma_clipping(a: Single, b: Single, c: Single, d: Single)
    requires
        is_share(a) && is_share(b) && is_share(c) && is_share(d),
        a.le(c) && b.le(d),
    ensures
        is_finite(a.plus(b).times(num(0x3fc0_0000))) && is_finite(c.plus(d).times(num(0x3fc0_0000))),
        a.plus(b).times(num(0x3fc0_0000)).le(c.plus(d).times(num(0x3fc0_0000))),
{
    let k = num(0x3fc0_0000);
    lemma_small_sum(a, b);
    lemma_small_sum(c, d);
    lemma_sum_is_a_number(a, b);
    lemma_sum_is_a_number(c, d);
    law_totals_keep_order(a, c, b, d);
    law_scaling_keeps_order(a.plus(b), c.plus(d), k);
    lemma_one_and_one(a, b);
    lemma_one_and_one(c, d);
    law_adding_raises(a, b);
    law_adding_raises(c, d);
    law_small_product_is_finite(a.plus(b), k);
    law_small_product_is_finite(c.plus(d), k);
}

/// A tonal grade is no weaker where more strength is asked for, and never negative.
pub proof fn law_tonal_grade_follows_strength(key: Key, span: Span, silhouette: bool, std_l: Single, less: Single, more: Single)
    requires
        num(0).le(less) && less.le(more) && is_small(more),
    ensures
        ({
            let a = tonal_grade(key, span, silhouette, std_l, less);
            let b = tonal_grade(key, span, silhouette, std_l, more);
            &&& num(0).le(a.contrast) && a.contrast.le(b.contrast)
            &&& num(0).le(a.film_curve) && a.film_curve.le(b.film_curve)
            &&& num(0).le(a.light_ratio) && a.light_ratio.le(b.light_ratio)
            &&& num(0).le(a.shadow_lift) && a.shadow_lift.le(b.shadow_lift)
            &&& num(0).le(a.deep_shadow_lift) && a.deep_shadow_lift.le(b.deep_shadow_lift)
            &&& num(0).le(a.dehaze) && a.dehaze.le(b.dehaze)
        }),
{
    let s = shape_of(key, span);
    assert(is_share(s.0) && is_share(s.1) && is_share(s.2) && is_share(s.3) && is_share(s.4));
    lemma_in_proportion(s.0, less, more);
    lemma_in_proportion(s.1, less, more);
    lemma_in_proportion(s.2, less, more);
    lemma_in_proportion(s.3, less, more);
    lemma_in_proportion(s.4, less, more);
    lemma_in_proportion(num(0x3d23_d70a), less, more);
    lemma_in_proportion(num(0x3dcc_cccd), less, more);
}

proof fn lemma_in_proportion(k: Single, less: Single, more: Single)
    requires
        is_share(k),
        num(0).le(less) && less.le(more) && is_small(more),
    ensures
        num(0).le(k.times(less)),
        k.times(less).le(k.times(more)),
{
    law_scaling_keeps_order(less, more, k);
    law_product_sign(less, k);
}

/// A picture of low key has its shadows lifted, and one that is neither dark nor flat does not.
pub proof fn law_dark_pictures_have_shadows_lifted(span: Span, silhouette: bool, std_l: Single, strength: Single)
    requires
        num(0x3f80_0000).le(strength) && is_small(strength),  // 1
    ensures
        num(0).lt(tonal_grade(Key::Low, span, silhouette, std_l, strength).shadow_lift),
        num(0).lt(tonal_grade(Key::Low, span, silhouette, std_l, strength).deep_shadow_lift),
        tonal_grade(Key::High, span, silhouette, std_l, strength).shadow_lift.same(num(0)),
        tonal_grade(Key::High, span, silhouette, std_l, strength).deep_shadow_lift.same(num(0)),
{
    let s = shape_of(Key::Low, span);
    law_factors_stretch(s.3, strength);
    law_factors_stretch(s.4, strength);
    lemma_any_zero_times_is_zero(num(0), strength);
}

/// Of two results that are alike but for blown highlights, the one with fewer is never judged
/// further from the reference; nor is one whose hue is nearer to the reference's.
#[verifier::spinoff_prover]
#[verifier::rlimit(100)]
pub proof fn law_fewer_blown_highlights_are_nearer(near: ImageMetrics, far: ImageMetrics, reference: ImageMetrics, sv: (Single, Single), rv: (Single, Single))
    requires
        near.tone == far.tone,
        near.color.mean_c == far.color.mean_c,
        is_small(near.exposure.highlight_clip_pct) && is_small(far.exposure.highlight_clip_pct) && is_small(
            reference.exposure.highlight_clip_pct,
        ),
        near.exposure.highlight_clip_pct.le(far.exposure.highlight_clip_pct),
        ({
            let a = hue_shortest_diff(reference.color.mean_h_deg, near.color.mean_h_deg);
            let b = hue_shortest_diff(reference.color.mean_h_deg, far.color.mean_h_deg);
            is_finite(a) && is_finite(b) && a.abs().le(b.abs())
        }),
        !ref_score(&near, &reference, sv, rv).is_nan(),
        !ref_score(&far, &reference, sv, rv).is_nan(),
    ensures
        ref_score(&far, &reference, sv, rv).le(ref_score(&near, &reference, sv, rv)),
{
    let a = num(0).plus(near.tone.mean_l.minus(reference.tone.mean_l).abs());
    let b = a.plus(near.tone.std_l.minus(reference.tone.std_l).abs().times(num(0x3f00_0000)));
    let c = b.plus(near.color.mean_c.minus(reference.color.mean_c).abs().times(num(0x3f80_0000)));
    let p = hue_shortest_diff(reference.color.mean_h_deg, near.color.mean_h_deg).abs();
    let q = hue_shortest_diff(reference.color.mean_h_deg, far.color.mean_h_deg).abs();
    let da = sv.0.minus(rv.0);
    let db = sv.1.minus(rv.1);
    let cast = da.times(da).plus(db.times(db)).sqrt().times(num(0x4000_0000));
    let k = num(0x3d4c_cccd);
    let base = reference.exposure.highlight_clip_pct;
    lemma_blown_part(near.exposure.highlight_clip_pct, far.exposure.highlight_clip_pct, base);
    let (x, y) = (near.exposure.highlight_clip_pct.minus(base).max(num(0)), far.exposure.highlight_clip_pct.minus(base).max(num(0)));
    law_scaling_keeps_order(p, q, num(0x3d23_d70a));
    lemma_distances_in_order(c, p.times(num(0x3d23_d70a)), q.times(num(0x3d23_d70a)), cast, x.times(k), y.times(k));
}

/// What blown highlights beyond those of the reference add.
proof fn lemma_blown_part(x: Single, y: Single, base: Single)
    requires
        is_small(x) && is_small(y) && is_small(base),
        x.le(y),
    ensures
        x.minus(base).max(num(0)).times(num(0x3d4c_cccd)).le(y.minus(base).max(num(0)).times(num(0x3d4c_cccd))),
{
    let k = num(0x3d4c_cccd);
    law_differences_keep_order(x, y, base);
    law_small_difference(x, base, k);
    law_small_difference(y, base, k);
    law_scaling_keeps_order(x.minus(base).max(num(0)), y.minus(base).max(num(0)), k);
}

/// Sums of distances of which two are no larger.
proof fn lemma_distances_in_order(c: Single, p: Single, q: Single, cast: Single, x: Single, y: Single)
    requires
        p.le(q),
        x.le(y),
        !c.plus(p).plus(cast).plus(x).is_nan(),
        !c.plus(q).plus(cast).plus(y).is_nan(),
    ensures
        c.plus(q).plus(cast).plus(y).negated().le(c.plus(p).plus(cast).plus(x).negated()),
{
    let (d, e) = (c.plus(p), c.plus(q));
    lemma_terms_are_numbers(d.plus(cast), x);
    lemma_terms_are_numbers(e.plus(cast), y);
    lemma_terms_are_numbers(d, cast);
    lemma_terms_are_numbers(e, cast);
    lemma_terms_are_numbers(c, p);
    law_totals_keep_order(c, c, p, q);
    law_totals_keep_order(d, e, cast, cast);
    law_totals_keep_order(d.plus(cast), e.plus(cast), x, y);
}

/// No band is stronger than the strongest, which is one of them or nothing.
pub proof fn law_strongest_band_is_strongest(chroma: [Single; 8], k: int, i: int)
    requires
        0 <= i < k <= 8,
        forall|j: int| 0 <= j < 8 ==> !(#[trigger] chroma[j]).is_nan(),
    ensures
        !strongest_band(chroma, k).1.lt(chroma[i]),
        0 <= strongest_band(chroma, k).0 < 8,
    decreases k,
{
    lemma_strongest_is_a_band(chroma, k - 1);
    assert(!chroma[k - 1].is_nan());
    if i < k - 1 {
        law_strongest_band_is_strongest(chroma, k - 1, i);
        assert(!chroma[i].is_nan());
    }
}

proof fn lemma_strongest_is_a_band(chroma: [Single; 8], k: int)
    requires
        0 <= k <= 8,
        forall|j: int| 0 <= j < 8 ==> !(#[trigger] chroma[j]).is_nan(),
    ensures
        0 <= strongest_band(chroma, k).0 < 8,
        !strongest_band(chroma, k).1.is_nan(),
    decreases k,
{
    if k > 0 {
        lemma_strongest_is_a_band(chroma, k - 1);
        assert(!chroma[k - 1].is_nan());
    }
}

/// A picture of higher key is wanted no darker, and every band of a target has its ends in order.
pub proof fn law_targets_follow_the_key(low: Tonality, mid: Tonality, high: Tonality, t: Tonality)
    requires
        !low.silhouette && !mid.silhouette && !high.silhouette,
        low.key == Key::Low && mid.key == Key::Mid && high.key == Key::High,
    ensures
        target_for(&low).med_lo.lt(target_for(&mid).med_lo) && target_for(&mid).med_lo.lt(target_for(&high).med_lo),
        target_for(&low).med_hi.lt(target_for(&mid).med_hi) && target_for(&mid).med_hi.lt(target_for(&high).med_hi),
        target_for(&t).med_lo.lt(target_for(&t).med_hi),
        target_for(&t).std_lo.lt(target_for(&t).std_hi),
        target_for(&t).c_lo.lt(target_for(&t).c_hi),
{
}

} // verus!
