//! Matching the look of another picture, step by step.

use crate::advanced::Advanced;
use crate::analyze::ImageMetrics;
use crate::auto::Search;
use crate::order::{
    is_finite, law_difference_shows_order, law_limited_step, law_scaling_keeps_order,
    law_small_difference, law_totals_keep_order, law_whole_numbers_are_exact,
    lemma_terms_are_numbers, lies_between,
};
use crate::params::with_eighth;
use crate::pipeline::{Adjustments, ColorGrade, Grade, HslRegions, WhiteBalance};
use crate::single::{
    is_small, law_order_is_numeric, law_sums_keep_order, law_zero_is_neutral,
    lemma_opposite_differences, lemma_two_and_three, lemma_within_one_turn, lemma_zero_magnitude,
    num, Single,
};
use vstd::prelude::*;

verus! {

pub open spec fn spec_cast_vec(m: &ImageMetrics, cos: Single, sin: Single) -> (Single, Single) {
    (m.cast.chroma.times(cos), m.cast.chroma.times(sin))
}

/// The cast as a vector: its chroma along the cosine and the sine of its hue.
#[verifier::when_used_as_spec(spec_cast_vec)]
pub fn cast_vec(m: &ImageMetrics, cos: Single, sin: Single) -> (r: (Single, Single))
    ensures
        r == spec_cast_vec(m, cos, sin),
{
    (m.cast.chroma.times(cos), m.cast.chroma.times(sin))
}

pub open spec fn spec_hue_shortest_diff(target: Single, current: Single) -> Single {
    let d: Single = target.minus(current);
    // 180, 360, 180
    (d.plus(num(0x4334_0000))).rem_euclid(num(0x43b4_0000)).minus(num(0x4334_0000))
}

/// The difference of two hues the shorter way round, from -180 to 180 degrees.
#[verifier::when_used_as_spec(spec_hue_shortest_diff)]
pub fn hue_shortest_diff(target: Single, current: Single) -> (r: Single)
    ensures
        r == spec_hue_shortest_diff(target, current),
{
    let d: Single = target.minus(current);
    // 180, 360, 180
    (d.plus(num(0x4334_0000))).rem_euclid(num(0x43b4_0000)).minus(num(0x4334_0000))
}

pub open spec fn spec_ref_score(m: &ImageMetrics, reference: &ImageMetrics, sv: (Single, Single), rv: (Single, Single)) -> Single {
    let a: Single = num(0).plus(m.tone.mean_l.minus(reference.tone.mean_l).abs());
    // 0.5
    let b: Single = a.plus(m.tone.std_l.minus(reference.tone.std_l).abs().times(num(0x3f00_0000)));
    // 1
    let c: Single = b.plus(m.color.mean_c.minus(reference.color.mean_c).abs().times(num(0x3f80_0000)));
    let dh: Single = hue_shortest_diff(reference.color.mean_h_deg, m.color.mean_h_deg).abs();
    let d: Single = c.plus(dh.times(num(0x3d23_d70a)));  // 0.04
    let da: Single = sv.0.minus(rv.0);
    let db: Single = sv.1.minus(rv.1);
    let e: Single = d.plus(da.times(da).plus(db.times(db)).sqrt().times(num(0x4000_0000)));  // 2
    // 0.05
    let over: Single = m.exposure.highlight_clip_pct.minus(reference.exposure.highlight_clip_pct).max(num(0)).times(num(0x3d4c_cccd));
    e.plus(over).negated()
}

/// How near a picture is to the reference: the distance with its sign turned, so that nearer is
/// higher. `sv` and `rv` are the casts as vectors.
#[verifier::when_used_as_spec(spec_ref_score)]
pub fn ref_score(m: &ImageMetrics, reference: &ImageMetrics, sv: (Single, Single), rv: (Single, Single)) -> (r: Single)
    ensures
        r == spec_ref_score(m, reference, sv, rv),
{
    let a: Single = num(0).plus(m.tone.mean_l.minus(reference.tone.mean_l).abs());
    // 0.5
    let b: Single = a.plus(m.tone.std_l.minus(reference.tone.std_l).abs().times(num(0x3f00_0000)));
    // 1
    let c: Single = b.plus(m.color.mean_c.minus(reference.color.mean_c).abs().times(num(0x3f80_0000)));
    let dh: Single = hue_shortest_diff(reference.color.mean_h_deg, m.color.mean_h_deg).abs();
    let d: Single = c.plus(dh.times(num(0x3d23_d70a)));  // 0.04
    let da: Single = sv.0.minus(rv.0);
    let db: Single = sv.1.minus(rv.1);
    let e: Single = d.plus(da.times(da).plus(db.times(db)).sqrt().times(num(0x4000_0000)));  // 2
    // 0.05
    let over: Single = m.exposure.highlight_clip_pct.minus(reference.exposure.highlight_clip_pct).max(num(0)).times(num(0x3d4c_cccd));
    e.plus(over).negated()
}

/// The strongest of the first `k` bands and its chroma; the first of several.
pub open spec fn strongest_band(chroma: [Single; 8], k: int) -> (int, Single)
    decreases k,
{
    if k <= 0 {
        (0, num(0xbf80_0000))  // -1
    } else {
        let best = strongest_band(chroma, k - 1);
        if chroma[k - 1].gt(best.1) {
            (k - 1, chroma[k - 1])
        } else {
            best
        }
    }
}

/// The band with the most chroma.
pub fn dominant_hue_band(m: &ImageMetrics) -> (r: usize)
    ensures
        r == strongest_band(m.color.per_hue_chroma, 8).0,
        r < 8,
{
    let mut best: usize = 0;
    let mut best_c: Single = num(0xbf80_0000);  // -1
    let mut i: usize = 0;
    while i < 8
        invariant
            i <= 8,
            best < 8,
            best == strongest_band(m.color.per_hue_chroma, i as int).0,
            best_c == strongest_band(m.color.per_hue_chroma, i as int).1,
        decreases 8 - i,
    {
        let c: Single = m.color.per_hue_chroma[i];
        if c.gt(best_c) {
            best_c = c;
            best = i;
        }
        i = i + 1;
    }
    best
}

/// Hue in the middle of a band, in degrees.
pub open spec fn spec_band_center(b: usize) -> Single {
    Single::spec_from_int(b as int).plus(num(0x3f00_0000)).times(num(0x4234_0000))  // 0.5, 45
}

/// Hue in the middle of a band, in degrees.
#[verifier::when_used_as_spec(spec_band_center)]
pub fn band_center(b: usize) -> (r: Single)
    ensures
        r == spec_band_center(b),
{
    Single::from_int(b as i128).plus(num(0x3f00_0000)).times(num(0x4234_0000))  // 0.5, 45
}

/// The colour bands after a step: where source and reference differ in their strongest band,
/// the source's turns towards the reference's and loses a little saturation.
pub open spec fn moved_bands(h: HslRegions, from: usize, to: usize) -> HslRegions {
    if from == to {
        h
    } else {
        let turn = hue_shortest_diff(band_center(to), band_center(from));
        HslRegions {
            hue_shift: with_eighth(
                h.hue_shift,
                from as int,
                // 0.35, -35, 35
                h.hue_shift[from as int].plus(turn.times(num(0x3eb3_3333)).clamp(num(0xc20c_0000), num(0x420c_0000))),
            ),
            sat_mult: with_eighth(
                h.sat_mult,
                from as int,
                // 0.02, 0.85
                h.sat_mult[from as int].minus(num(0x3ca3_d70a)).max(num(0x3f59_999a)),
            ),
            light_mult: h.light_mult,
        }
    }
}

fn move_bands(h: &HslRegions, from: usize, to: usize) -> (r: HslRegions)
    requires
        from < 8,
        to < 8,
    ensures
        r == moved_bands(*h, from, to),
{
    if from == to {
        return *h;
    }
    let turn: Single = hue_shortest_diff(band_center(to), band_center(from));
    let mut r: HslRegions = *h;
    // 0.35, -35, 35
    r.hue_shift[from] = h.hue_shift[from].plus(turn.times(num(0x3eb3_3333)).clamp(num(0xc20c_0000), num(0x420c_0000)));
    // 0.02, 0.85
    r.sat_mult[from] = h.sat_mult[from].minus(num(0x3ca3_d70a)).max(num(0x3f59_999a));
    assert(r.hue_shift =~= moved_bands(*h, from, to).hue_shift);
    assert(r.sat_mult =~= moved_bands(*h, from, to).sat_mult);
    r
}

pub open spec fn spec_drawn_tint(tint: Single, hue: Single, pull: Single) -> Single {
    // -45, 45
    tint.plus(hue_shortest_diff(hue, tint).times(pull)).clamp(num(0xc234_0000), num(0x4234_0000))
}

/// A tint of shadows or highlights drawn towards a hue.
#[verifier::when_used_as_spec(spec_drawn_tint)]
pub fn drawn_tint(tint: Single, hue: Single, pull: Single) -> (r: Single)
    ensures
        r == spec_drawn_tint(tint, hue, pull),
{
    // -45, 45
    tint.plus(hue_shortest_diff(hue, tint).times(pull)).clamp(num(0xc234_0000), num(0x4234_0000))
}

pub open spec fn spec_stepped_color(c: &ColorGrade, m: &ImageMetrics, reference: &ImageMetrics) -> ColorGrade {
    let dc: Single = reference.color.mean_c.minus(m.color.mean_c);
    let dh: Single = hue_shortest_diff(reference.color.mean_h_deg, m.color.mean_h_deg);
    let tinted: bool = reference.cast.chroma.gt(num(0x3d75_c28f));  // 0.06
    ColorGrade {
        // 0.6, -0.15, 0.15, 3
        saturation: c.saturation.plus(dc.times(num(0x3f19_999a)).clamp(num(0xbe19_999a), num(0x3e19_999a))).clamp(num(0), num(0x4040_0000)),
        vibrance: c.vibrance,
        // 0.25, -25, 25
        hue_rotate: c.hue_rotate.plus(dh.times(num(0x3e80_0000)).clamp(num(0xc1c8_0000), num(0x41c8_0000))),
        split_shadow: if tinted {
            drawn_tint(c.split_shadow, reference.cast.hue_deg, num(0x3dcc_cccd))  // 0.1
        } else {
            c.split_shadow
        },
        split_highlight: if tinted {
            drawn_tint(c.split_highlight, reference.cast.hue_deg, num(0x3da3_d70a))  // 0.08
        } else {
            c.split_highlight
        },
    }
}

/// The settings of lightness and colour after a step towards the reference.
#[verifier::when_used_as_spec(spec_stepped_color)]
pub fn stepped_color(c: &ColorGrade, m: &ImageMetrics, reference: &ImageMetrics) -> (r: ColorGrade)
    ensures
        r == spec_stepped_color(c, m, reference),
{
    let dc: Single = reference.color.mean_c.minus(m.color.mean_c);
    let dh: Single = hue_shortest_diff(reference.color.mean_h_deg, m.color.mean_h_deg);
    let tinted: bool = reference.cast.chroma.gt(num(0x3d75_c28f));  // 0.06
    ColorGrade {
        // 0.6, -0.15, 0.15, 3
        saturation: c.saturation.plus(dc.times(num(0x3f19_999a)).clamp(num(0xbe19_999a), num(0x3e19_999a))).clamp(num(0), num(0x4040_0000)),
        vibrance: c.vibrance,
        // 0.25, -25, 25
        hue_rotate: c.hue_rotate.plus(dh.times(num(0x3e80_0000)).clamp(num(0xc1c8_0000), num(0x41c8_0000))),
        split_shadow: if tinted {
            drawn_tint(c.split_shadow, reference.cast.hue_deg, num(0x3dcc_cccd))  // 0.1
        } else {
            c.split_shadow
        },
        split_highlight: if tinted {
            drawn_tint(c.split_highlight, reference.cast.hue_deg, num(0x3da3_d70a))  // 0.08
        } else {
            c.split_highlight
        },
    }
}

/// The settings after one step towards the reference.
pub open spec fn stepped(
    cur: Adjustments,
    m: &ImageMetrics,
    reference: &ImageMetrics,
    sv: (Single, Single),
    rv: (Single, Single),
) -> Adjustments {
    let dl = reference.tone.mean_l.minus(m.tone.mean_l);
    let ds = reference.tone.std_l.minus(m.tone.std_l);
    let da = sv.0.minus(rv.0);
    let db = sv.1.minus(rv.1);
    Adjustments {
        // 1, -0.2, 0.2
        exposure_ev: cur.exposure_ev.plus(dl.times(num(0x3f80_0000)).clamp(num(0xbe4c_cccd), num(0x3e4c_cccd))),
        grade: Grade {
            // 0.8, -0.15, 0.15
            contrast: cur.grade.contrast.plus(ds.times(num(0x3f4c_cccd)).clamp(num(0xbe19_999a), num(0x3e19_999a))),
            ..cur.grade
        },
        white_balance: WhiteBalance {
            // 0.3, -0.1, 0.1
            temp: cur.white_balance.temp.plus(da.negated().times(num(0x3e99_999a)).clamp(num(0xbdcc_cccd), num(0x3dcc_cccd))),
            // 0.3, -0.1, 0.1
            tint: cur.white_balance.tint.plus(db.negated().times(num(0x3e99_999a)).clamp(num(0xbdcc_cccd), num(0x3dcc_cccd))),
        },
        color: spec_stepped_color(&cur.color, m, reference),
        hsl: moved_bands(
            cur.hsl,
            strongest_band(m.color.per_hue_chroma, 8).0 as usize,
            strongest_band(reference.color.per_hue_chroma, 8).0 as usize,
        ),
        ..cur
    }
}

/// One step towards the reference: small, so that a result can be stopped before it is damaged.
pub fn ref_step(
    cur: &Adjustments,
    m: &ImageMetrics,
    reference: &ImageMetrics,
    sv: (Single, Single),
    rv: (Single, Single),
) -> (r: Adjustments)
    ensures
        r == stepped(*cur, m, reference, sv, rv),
{
    let dl: Single = reference.tone.mean_l.minus(m.tone.mean_l);
    let ds: Single = reference.tone.std_l.minus(m.tone.std_l);
    let da: Single = sv.0.minus(rv.0);
    let db: Single = sv.1.minus(rv.1);
    let mut a: Adjustments = *cur;
    // 1, -0.2, 0.2
    a.exposure_ev = cur.exposure_ev.plus(dl.times(num(0x3f80_0000)).clamp(num(0xbe4c_cccd), num(0x3e4c_cccd)));
    // 0.8, -0.15, 0.15
    a.grade.contrast = cur.grade.contrast.plus(ds.times(num(0x3f4c_cccd)).clamp(num(0xbe19_999a), num(0x3e19_999a)));
    // 0.3, -0.1, 0.1
    a.white_balance.temp = cur.white_balance.temp.plus(da.negated().times(num(0x3e99_999a)).clamp(num(0xbdcc_cccd), num(0x3dcc_cccd)));
    // 0.3, -0.1, 0.1
    a.white_balance.tint = cur.white_balance.tint.plus(db.negated().times(num(0x3e99_999a)).clamp(num(0xbdcc_cccd), num(0x3dcc_cccd)));
    a.color = stepped_color(&cur.color, m, reference);
    a.hsl = move_bands(&cur.hsl, dominant_hue_band(m), dominant_hue_band(reference));
    a
}

/// Begins a match: any round without an artefact beats the start.
pub fn begin_match(first: &Adjustments) -> (r: Search)
    ensures
        r == (Search { adj: *first, best_adj: *first, best_score: num(0xff80_0000) }),
{
    Search { adj: *first, best_adj: *first, best_score: num(0xff80_0000) }  // -infinity
}

pub open spec fn spec_matched(best: &Adjustments, strength: Single) -> Adjustments {
    Adjustments {
        mix: strength.clamp(num(0), num(0x3f80_0000)),  // 1
        advanced: Advanced::spec_default(),
        ..*best
    }
}

/// The settings of the match: the best ones, mixed by the strength. Skin smoothing and fusion
/// stay off.
#[verifier::when_used_as_spec(spec_matched)]
pub fn matched(best: &Adjustments, strength: Single) -> (r: Adjustments)
    ensures
        r == spec_matched(best, strength),
{
    Adjustments {
        mix: strength.clamp(num(0), num(0x3f80_0000)),  // 1
        advanced: Advanced::default(),
        ..*best
    }
}

/// A step changes nothing but exposure, contrast, white balance, colour and bands.
pub proof fn law_step_leaves_the_rest(
    cur: Adjustments,
    m: &ImageMetrics,
    reference: &ImageMetrics,
    sv: (Single, Single),
    rv: (Single, Single),
)
    ensures
        ({
            let a = stepped(cur, m, reference, sv, rv);
            &&& a.tone_map == cur.tone_map
            &&& a.defake == cur.defake
            &&& a.skin == cur.skin
            &&& a.zones == cur.zones
            &&& a.geometry == cur.geometry
            &&& a.detail == cur.detail
            &&& a.advanced == cur.advanced
            &&& a.color_plan == cur.color_plan
            &&& a.mix == cur.mix
            &&& a.color.vibrance == cur.color.vibrance
        }),
{
}

/// A picture like the reference keeps its strongest band where it is.
pub proof fn law_same_band_stays(h: HslRegions, band: usize)
    ensures
        moved_bands(h, band, band) == h,
{
}

/// A number lies above another by two to the power -8 or more.
pub open spec fn noticeably_above(above: Single, below: Single) -> bool {
    num(0x3b80_0000).le(above.minus(below))
}

/// `new` is a step from `old` towards a goal: up where the goal `to` lies above `from`, down where
/// it lies below, nowhere where they are equal, and it moves where they differ noticeably.
#[verifier::opaque]
pub open spec fn steps_towards(old: Single, new: Single, from: Single, to: Single) -> bool {
    &&& from.le(to) ==> old.le(new)
    &&& to.le(from) ==> new.le(old)
    &&& noticeably_above(to, from) ==> old.lt(new)
    &&& noticeably_above(from, to) ==> new.lt(old)
}

proof fn lemma_steps_towards(old: Single, from: Single, to: Single, k: Single, lo: Single, hi: Single)
    requires
        lies_between(old, -4, 4),
        is_small(from),
        is_small(to),
        num(0x3e80_0000).le(k),  // 0.25
        k.le(num(0x3f80_0000)),  // 1
        lo.le(num(0xba80_0000)),
        num(0x3a80_0000).le(hi),
        is_finite(lo),
        is_finite(hi),
    ensures
        steps_towards(old, old.plus(to.minus(from).times(k).clamp(lo, hi)), from, to),
        steps_towards(old, old.plus(from.minus(to).negated().times(k).clamp(lo, hi)), from, to),
        !old.plus(to.minus(from).times(k).clamp(lo, hi)).is_nan(),
{
    reveal(steps_towards);
    law_difference_shows_order(from, to);
    law_difference_shows_order(to, from);
    law_small_difference(to, from, k);
    law_small_difference(from, to, k);
    let d = to.minus(from);
    let e = from.minus(to).negated();
    law_limited_step(old, d, k, lo, hi);
    law_limited_step(old, e, k, lo, hi);
    lemma_opposite_differences(from, to);
}

/// A step moves the exposure towards the mean lightness of the reference.
pub proof fn law_step_moves_exposure(
    cur: Adjustments,
    m: &ImageMetrics,
    reference: &ImageMetrics,
    sv: (Single, Single),
    rv: (Single, Single),
)
    requires
        lies_between(cur.exposure_ev, -4, 4),
        is_small(m.tone.mean_l),
        is_small(reference.tone.mean_l),
    ensures
        steps_towards(
            cur.exposure_ev,
            stepped(cur, m, reference, sv, rv).exposure_ev,
            m.tone.mean_l,
            reference.tone.mean_l,
        ),
{
    lemma_steps_towards(
        cur.exposure_ev,
        m.tone.mean_l,
        reference.tone.mean_l,
        num(0x3f80_0000),
        num(0xbe4c_cccd),
        num(0x3e4c_cccd),
    );  // 1, -0.2, 0.2
}

/// A step moves the contrast towards the spread of the reference.
pub proof fn law_step_moves_contrast(
    cur: Adjustments,
    m: &ImageMetrics,
    reference: &ImageMetrics,
    sv: (Single, Single),
    rv: (Single, Single),
)
    requires
        lies_between(cur.grade.contrast, -4, 4),
        is_small(m.tone.std_l),
        is_small(reference.tone.std_l),
    ensures
        steps_towards(
            cur.grade.contrast,
            stepped(cur, m, reference, sv, rv).grade.contrast,
            m.tone.std_l,
            reference.tone.std_l,
        ),
{
    lemma_steps_towards(
        cur.grade.contrast,
        m.tone.std_l,
        reference.tone.std_l,
        num(0x3f4c_cccd),
        num(0xbe19_999a),
        num(0x3e19_999a),
    );  // 0.8, -0.15, 0.15
}

/// A step moves the warmth towards the cast of the reference.
pub proof fn law_step_moves_warmth(
    cur: Adjustments,
    m: &ImageMetrics,
    reference: &ImageMetrics,
    sv: (Single, Single),
    rv: (Single, Single),
)
    requires
        lies_between(cur.white_balance.temp, -4, 4),
        is_small(sv.0),
        is_small(rv.0),
    ensures
        steps_towards(
            cur.white_balance.temp,
            stepped(cur, m, reference, sv, rv).white_balance.temp,
            sv.0,
            rv.0,
        ),
{
    lemma_steps_towards(
        cur.white_balance.temp,
        sv.0,
        rv.0,
        num(0x3e99_999a),
        num(0xbdcc_cccd),
        num(0x3dcc_cccd),
    );  // 0.3, -0.1, 0.1
}

/// A step moves the tint towards the cast of the reference.
pub proof fn law_step_moves_tint(
    cur: Adjustments,
    m: &ImageMetrics,
    reference: &ImageMetrics,
    sv: (Single, Single),
    rv: (Single, Single),
)
    requires
        lies_between(cur.white_balance.tint, -4, 4),
        is_small(sv.1),
        is_small(rv.1),
    ensures
        steps_towards(
            cur.white_balance.tint,
            stepped(cur, m, reference, sv, rv).white_balance.tint,
            sv.1,
            rv.1,
        ),
{
    lemma_steps_towards(
        cur.white_balance.tint,
        sv.1,
        rv.1,
        num(0x3e99_999a),
        num(0xbdcc_cccd),
        num(0x3dcc_cccd),
    );  // 0.3, -0.1, 0.1
}

/// Saturation goes towards the reference's chroma, from zero to three, and a hue the shorter way
/// towards the reference's.
pub proof fn law_step_goes_towards_the_color(c: ColorGrade, m: &ImageMetrics, reference: &ImageMetrics)
    requires
        num(0).le(c.saturation),
        c.saturation.le(num(0x4040_0000)),  // 3
        is_small(m.color.mean_c),
        is_small(reference.color.mean_c),
    ensures
        ({
            let old = c.saturation;
            let new = stepped_color(&c, m, reference).saturation;
            let (from, to) = (m.color.mean_c, reference.color.mean_c);
            &&& from.le(to) ==> old.le(new)
            &&& to.le(from) ==> new.le(old)
            &&& from.same(to) ==> new.same(old)
            &&& noticeably_above(to, from) && old.lt(num(0x4000_0000)) ==> old.lt(new)  // 2
            &&& noticeably_above(from, to) && num(0x3f00_0000).lt(old) ==> new.lt(old)  // 0.5
        }),
{
    let three = num(0x4040_0000);
    lemma_two_and_three();
    law_whole_numbers_are_exact(3);
    law_order_is_numeric(num(0), c.saturation);
    law_order_is_numeric(c.saturation, three);
    vstd::arithmetic::power2::lemma_pow2_pos(149);
    let p = vstd::arithmetic::power2::pow2(149) as int;
    assert(-4 * p <= 0 && 3 * p <= 4 * p) by (nonlinear_arith)
        requires
            p > 0,
    ;
    lemma_zero_magnitude(0);
    reveal(steps_towards);
    lemma_steps_towards(
        c.saturation,
        m.color.mean_c,
        reference.color.mean_c,
        num(0x3f19_999a),
        num(0xbe19_999a),
        num(0x3e19_999a),
    );  // 0.6, -0.15, 0.15
}

/// The difference of two hues has the sign of the shorter way: ahead by less than half a turn is
/// positive, behind by at most half a turn is negative.
pub proof fn law_hues_differ_the_shorter_way(target: Single, current: Single)
    requires
        ({
            let sum = target.minus(current).plus(num(0x4334_0000));  // 180
            num(0).le(sum) && sum.lt(num(0x43b4_0000))  // 360
        }),
        is_finite(target.minus(current)),
    ensures
        num(0).le(target.minus(current)) ==> num(0).le(hue_shortest_diff(target, current)),
        target.minus(current).le(num(0)) ==> hue_shortest_diff(target, current).le(num(0)),
{
    let d = target.minus(current);
    let half = num(0x4334_0000);  // 180
    let sum = d.plus(half);
    lemma_within_one_turn(sum);
    if num(0).le(d) {
        law_sums_keep_order(num(0), d, half);
        law_zero_is_neutral(half, num(0));
    }
    if d.le(num(0)) {
        law_sums_keep_order(d, num(0), half);
        law_zero_is_neutral(half, num(0));
    }
    law_difference_shows_order(half, sum);
}

/// The score falls with the distance: a picture that is no nearer to the reference in lightness,
/// spread and chroma never scores higher, all else being equal.
#[verifier::rlimit(60)]
#[verifier::spinoff_prover]
pub proof fn law_nearer_scores_higher(
    near: &ImageMetrics,
    far: &ImageMetrics,
    reference: &ImageMetrics,
    sv: (Single, Single),
    rv: (Single, Single),
)
    requires
        is_small(near.tone.mean_l) && is_small(far.tone.mean_l) && is_small(reference.tone.mean_l),
        is_small(near.tone.std_l) && is_small(far.tone.std_l) && is_small(reference.tone.std_l),
        is_small(near.color.mean_c) && is_small(far.color.mean_c) && is_small(
            reference.color.mean_c,
        ),
        near.tone.mean_l.minus(reference.tone.mean_l).abs().le(
            far.tone.mean_l.minus(reference.tone.mean_l).abs(),
        ),
        near.tone.std_l.minus(reference.tone.std_l).abs().le(
            far.tone.std_l.minus(reference.tone.std_l).abs(),
        ),
        near.color.mean_c.minus(reference.color.mean_c).abs().le(
            far.color.mean_c.minus(reference.color.mean_c).abs(),
        ),
        near.color.mean_h_deg == far.color.mean_h_deg,
        near.exposure.highlight_clip_pct == far.exposure.highlight_clip_pct,
        !ref_score(near, reference, sv, rv).is_nan(),
        !ref_score(far, reference, sv, rv).is_nan(),
    ensures
        ref_score(far, reference, sv, rv).le(ref_score(near, reference, sv, rv)),
{
    let half = num(0x3f00_0000);  // 0.5
    let one = num(0x3f80_0000);
    let a = near.tone.mean_l.minus(reference.tone.mean_l).abs();
    let b = far.tone.mean_l.minus(reference.tone.mean_l).abs();
    let c = near.tone.std_l.minus(reference.tone.std_l).abs();
    let d = far.tone.std_l.minus(reference.tone.std_l).abs();
    let e = near.color.mean_c.minus(reference.color.mean_c).abs();
    let f = far.color.mean_c.minus(reference.color.mean_c).abs();
    lemma_scaled_distance(near.tone.std_l, far.tone.std_l, reference.tone.std_l, half);
    lemma_scaled_distance(near.color.mean_c, far.color.mean_c, reference.color.mean_c, one);
    let dh = hue_shortest_diff(reference.color.mean_h_deg, near.color.mean_h_deg).abs().times(
        num(0x3d23_d70a),
    );
    let (u, v) = (sv.0.minus(rv.0), sv.1.minus(rv.1));
    let cast = u.times(u).plus(v.times(v)).sqrt().times(num(0x4000_0000));
    let over = near.exposure.highlight_clip_pct.minus(
        reference.exposure.highlight_clip_pct,
    ).max(num(0)).times(num(0x3d4c_cccd));
    lemma_sums_of_distances(
        (a, c.times(half), e.times(one)),
        (b, d.times(half), f.times(one)),
        dh,
        cast,
        over,
    );
}

/// Distances keep their order when they are scaled.
proof fn lemma_scaled_distance(near: Single, far: Single, goal: Single, k: Single)
    requires
        is_small(near),
        is_small(far),
        is_small(goal),
        num(0).le(k),
        k.le(num(0x3f80_0000)),  // 1
        near.minus(goal).abs().le(far.minus(goal).abs()),
    ensures
        near.minus(goal).abs().times(k).le(far.minus(goal).abs().times(k)),
{
    law_small_difference(near, goal, k);
    law_small_difference(far, goal, k);
    law_scaling_keeps_order(near.minus(goal).abs(), far.minus(goal).abs(), k);
}

/// Sums of distances are in the order of their terms.
proof fn lemma_sums_of_distances(
    x: (Single, Single, Single),
    y: (Single, Single, Single),
    dh: Single,
    cast: Single,
    over: Single,
)
    requires
        x.0.le(y.0),
        x.1.le(y.1),
        x.2.le(y.2),
        !num(0).plus(x.0).plus(x.1).plus(x.2).plus(dh).plus(cast).plus(over).is_nan(),
        !num(0).plus(y.0).plus(y.1).plus(y.2).plus(dh).plus(cast).plus(over).is_nan(),
    ensures
        num(0).plus(x.0).plus(x.1).plus(x.2).plus(dh).plus(cast).plus(over).le(
            num(0).plus(y.0).plus(y.1).plus(y.2).plus(dh).plus(cast).plus(over),
        ),
{
    let a1 = num(0).plus(x.0);
    let b1 = num(0).plus(y.0);
    let a2 = a1.plus(x.1);
    let b2 = b1.plus(y.1);
    let a3 = a2.plus(x.2);
    let b3 = b2.plus(y.2);
    let a4 = a3.plus(dh);
    let b4 = b3.plus(dh);
    let a5 = a4.plus(cast);
    let b5 = b4.plus(cast);
    lemma_terms_are_numbers(a5, over);
    lemma_terms_are_numbers(b5, over);
    lemma_terms_are_numbers(a4, cast);
    lemma_terms_are_numbers(b4, cast);
    lemma_terms_are_numbers(a3, dh);
    lemma_terms_are_numbers(b3, dh);
    lemma_terms_are_numbers(a2, x.2);
    lemma_terms_are_numbers(b2, y.2);
    lemma_terms_are_numbers(a1, x.1);
    lemma_terms_are_numbers(b1, y.1);
    law_totals_keep_order(num(0), num(0), x.0, y.0);
    law_totals_keep_order(a1, b1, x.1, y.1);
    law_totals_keep_order(a2, b2, x.2, y.2);
    law_totals_keep_order(a3, b3, dh, dh);
    law_totals_keep_order(a4, b4, cast, cast);
    law_totals_keep_order(a5, b5, over, over);
}

} // verus!
