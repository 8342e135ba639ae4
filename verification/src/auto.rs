//! Correction without a person: first settings, refinement in rounds, and the ways in which a
//! result is held back or blended.
//!
//! A caller renders and measures; what is decided from the measurements stands here.

use crate::advanced::Advanced;
use crate::agent::{fit_into, fitted};
use crate::analyze::ImageMetrics;
use crate::color_engine::ColorPlan;
use crate::export::resamples;
use crate::guardrail::{clamp, clamped, edges_fit, goodness, is_artifact, spec_goodness};
use crate::guardrail::{spec_is_artifact, ToneTarget};
use crate::lch::{of_byte, smoothstep, spec_of_byte};
use crate::order::{
    is_finite, law_adding_lowers, law_adding_raises, law_difference_shows_order,
    law_differences_keep_order, law_middle_parts, law_negation_passes_through,
    law_noticeable_amounts_move, law_product_sign, law_scaled_amounts_stay_noticeable,
    law_scaling_keeps_order, law_shares_shrink, law_small_difference, law_whole_numbers_are_exact,
    lies_between,
};
use crate::params::{control, control_at, law_controls_are_in_place, Edges, Field, ParamSpec};
use crate::params::CONTROLS;
use crate::pipeline::{Adjustments, ColorGrade, Grade};
use crate::raster::RgbImage;
use crate::single::{law_order_is_numeric, law_product_commutes, law_products_keep_order};
use crate::single::{law_quotients_keep_order, law_self_quotient_is_one, law_sums_keep_order};
use crate::single::{law_small_differences_are_exact, law_small_integers_are_exact};
use crate::single::{is_small, law_negation_is_opposite, law_sum_commutes, lemma_small_sum};
use crate::single::{lemma_two_and_three, law_zero_is_neutral, lemma_one, lemma_sixteen, num};
use crate::single::{Single, INFINITY};
use crate::tonemap::{Key, Tonality};
use vstd::arithmetic::power2::{lemma_pow2_pos, pow2};
use vstd::prelude::*;

verus! {

/// The rules of the first correction, in their order: what each sets for given measurements.
pub open spec fn first_rule(m: &ImageMetrics, k: int) -> Option<(Field, Single)> {
    let h = m.cast.hue_deg;
    let cast = m.cast.chroma.gt(num(0x3dcc_cccd));  // 0.1
    let warm = (h.ge(num(0)) && h.le(num(0x4270_0000))) || h.gt(num(0x4396_0000));  // 60, 300
    let cool = h.ge(num(0x4334_0000)) && h.le(num(0x4396_0000));  // 180, 300
    let green = h.ge(num(0x42b4_0000)) && h.le(num(0x4320_0000));  // 90, 160
    let skin = m.skin.ratio.gt(num(0x3d23_d70a));  // 0.04
    let dull = m.skin.mean_c.lt(num(0x3d8f_5c29));  // 0.07
    let ruddy = m.skin.mean_c.gt(num(0x3e23_d70a));  // 0.16
    if k == 0 {
        if m.tone.mean_l.lt(num(0x3eeb_851f)) {  // 0.46
            // 0.52, 1.4, 0.5
            Some((Field::ExposureEv, num(0x3f05_1eb8).minus(m.tone.mean_l).times(num(0x3fb3_3333)).min(num(0x3f00_0000))))
        } else if m.tone.mean_l.gt(num(0x3f19_999a)) {  // 0.6
            // 0.52, 1.1, 0.5
            Some((Field::ExposureEv, m.tone.mean_l.minus(num(0x3f05_1eb8)).times(num(0x3f8c_cccd)).min(num(0x3f00_0000)).negated()))
        } else {
            None
        }
    } else if k == 1 && m.tone.std_l.lt(num(0x3df5_c28f)) {  // 0.12
        Some((Field::Contrast, num(0x3da3_d70a)))  // 0.08
    } else if k == 2 && m.tone.std_l.lt(num(0x3df5_c28f)) {  // 0.12
        Some((Field::Dehaze, num(0x3d75_c28f)))  // 0.06
    } else if k == 3 && m.color.mean_c.lt(num(0x3d75_c28f)) {  // 0.06
        Some((Field::Vibrance, num(0x3e19_999a)))  // 0.15
    } else if k == 4 && cast && warm {
        Some((Field::WBTemp, num(0xbda3_d70a)))  // -0.08
    } else if k == 4 && cast && cool {
        Some((Field::WBTemp, num(0x3dcc_cccd)))  // 0.1
    } else if k == 4 && cast && green {
        Some((Field::WBTint, num(0x3d8f_5c29)))  // 0.07
    } else if k == 5 && skin && (dull || ruddy) {
        Some((Field::SkinStrength, num(0x3e80_0000)))  // 0.25
    } else if k == 6 && skin && dull {
        Some((Field::SkinPinken, num(0x3e19_999a)))  // 0.15
    } else if k == 6 && skin && ruddy {
        Some((Field::SkinYellowReduce, num(0x3e19_999a)))  // 0.15
    } else if k == 7 && m.exposure.shadow_clip_pct.gt(num(0x3f00_0000)) {  // 0.5
        Some((Field::DeepShadowLift, num(0x3df5_c28f)))  // 0.12
    } else {
        None
    }
}

/// What the first `k` rules set.
pub open spec fn first_settings(m: &ImageMetrics, k: int) -> Seq<(Field, Single)>
    decreases k,
{
    if k <= 0 {
        Seq::empty()
    } else {
        match first_rule(m, k - 1) {
            Some(x) => first_settings(m, k - 1).push(x),
            None => first_settings(m, k - 1),
        }
    }
}

/// The first correction for measured faults: dark or bright, flat, pale, cast, skin, black.
pub fn auto_correct(m: &ImageMetrics) -> (r: Vec<(Field, Single)>)
    ensures
        r@ == first_settings(m, 8),
{
    let mut out: Vec<(Field, Single)> = Vec::new();
    proof {
        reveal_with_fuel(first_settings, 9);
    }
    if m.tone.mean_l.lt(num(0x3eeb_851f)) {  // 0.46
        // 0.52, 1.4, 0.5
        out.push((Field::ExposureEv, num(0x3f05_1eb8).minus(m.tone.mean_l).times(num(0x3fb3_3333)).min(num(0x3f00_0000))));
    } else if m.tone.mean_l.gt(num(0x3f19_999a)) {  // 0.6
        // 0.52, 1.1, 0.5
        out.push((Field::ExposureEv, m.tone.mean_l.minus(num(0x3f05_1eb8)).times(num(0x3f8c_cccd)).min(num(0x3f00_0000)).negated()));
    }
    assert(out@ =~= first_settings(m, 1));
    if m.tone.std_l.lt(num(0x3df5_c28f)) {  // 0.12
        out.push((Field::Contrast, num(0x3da3_d70a)));  // 0.08
        out.push((Field::Dehaze, num(0x3d75_c28f)));  // 0.06
    }
    assert(out@ =~= first_settings(m, 3));
    if m.color.mean_c.lt(num(0x3d75_c28f)) {  // 0.06
        out.push((Field::Vibrance, num(0x3e19_999a)));  // 0.15
    }
    assert(out@ =~= first_settings(m, 4));
    if m.cast.chroma.gt(num(0x3dcc_cccd)) {  // 0.1
        let h: Single = m.cast.hue_deg;
        if (h.ge(num(0)) && h.le(num(0x4270_0000))) || h.gt(num(0x4396_0000)) {  // 60, 300
            out.push((Field::WBTemp, num(0xbda3_d70a)));  // -0.08
        } else if h.ge(num(0x4334_0000)) && h.le(num(0x4396_0000)) {  // 180, 300
            out.push((Field::WBTemp, num(0x3dcc_cccd)));  // 0.1
        } else if h.ge(num(0x42b4_0000)) && h.le(num(0x4320_0000)) {  // 90, 160
            out.push((Field::WBTint, num(0x3d8f_5c29)));  // 0.07
        }
    }
    assert(out@ =~= first_settings(m, 5));
    if m.skin.ratio.gt(num(0x3d23_d70a)) {  // 0.04
        if m.skin.mean_c.lt(num(0x3d8f_5c29)) {  // 0.07
            out.push((Field::SkinStrength, num(0x3e80_0000)));  // 0.25
            out.push((Field::SkinPinken, num(0x3e19_999a)));  // 0.15
        } else if m.skin.mean_c.gt(num(0x3e23_d70a)) {  // 0.16
            out.push((Field::SkinStrength, num(0x3e80_0000)));  // 0.25
            out.push((Field::SkinYellowReduce, num(0x3e19_999a)));  // 0.15
        }
    }
    assert(out@ =~= first_settings(m, 7));
    if m.exposure.shadow_clip_pct.gt(num(0x3f00_0000)) {  // 0.5
        out.push((Field::DeepShadowLift, num(0x3df5_c28f)));  // 0.12
    }
    out
}

pub open spec fn spec_refine_correction(m: &ImageMetrics, prev: &Adjustments, target: &ToneTarget, tone: &Tonality, strength: Single) -> Adjustments {
    // 2
    let d: Single = target.med_lo.plus(target.med_hi).over(num(0x4000_0000)).minus(m.tone.median_l);
    // 2
    let ds: Single = target.std_lo.plus(target.std_hi).over(num(0x4000_0000)).minus(m.tone.std_l);
    // 2
    let dc: Single = target.c_lo.plus(target.c_hi).over(num(0x4000_0000)).minus(m.color.mean_c);
    let exposure: Single = if d.abs().gt(num(0x3c23_d70a)) {  // 0.01
        // 0.6, -0.3, 0.3
        prev.exposure_ev.plus(d.times(num(0x3f19_999a)).clamp(num(0xbe99_999a), num(0x3e99_999a)))
    } else {
        prev.exposure_ev
    };
    let contrast: Single = if tone.key == Key::Low {
        prev.grade.contrast
    } else if ds.gt(num(0)) {
        // 0.8, 0.1
        prev.grade.contrast.plus(ds.times(num(0x3f4c_cccd)).times(strength).clamp(num(0), num(0x3dcc_cccd)))
    } else if ds.lt(num(0)) {
        // 0.5, 0.08
        prev.grade.contrast.minus(ds.negated().times(num(0x3f00_0000)).times(strength).clamp(num(0), num(0x3da3_d70a)))
    } else {
        prev.grade.contrast
    };
    let vibrance: Single = if dc.gt(num(0)) {
        // 1.5, 0.15
        prev.color.vibrance.plus(dc.times(num(0x3fc0_0000)).times(strength).clamp(num(0), num(0x3e19_999a)))
    } else {
        prev.color.vibrance
    };
    Adjustments {
        exposure_ev: exposure.clamp(num(0xc000_0000), num(0x4000_0000)),  // -2, 2
        // -0.25, 0.55
        grade: Grade { contrast: contrast.clamp(num(0xbe80_0000), num(0x3f0c_cccd)), ..prev.grade },
        // 0.5
        color: ColorGrade { vibrance: vibrance.clamp(num(0), num(0x3f00_0000)), ..prev.color },
        ..*prev
    }
}

/// The next settings after a round: the median moves towards the target's, contrast and
/// vibrance follow in step with the strength. A low key gets no contrast.
#[verifier::when_used_as_spec(spec_refine_correction)]
pub fn refine_correction(m: &ImageMetrics, prev: &Adjustments, target: &ToneTarget, tone: &Tonality, strength: Single) -> (r: Adjustments)
    ensures
        r == spec_refine_correction(m, prev, target, tone, strength),
{
    // 2
    let d: Single = target.med_lo.plus(target.med_hi).over(num(0x4000_0000)).minus(m.tone.median_l);
    // 2
    let ds: Single = target.std_lo.plus(target.std_hi).over(num(0x4000_0000)).minus(m.tone.std_l);
    // 2
    let dc: Single = target.c_lo.plus(target.c_hi).over(num(0x4000_0000)).minus(m.color.mean_c);
    let exposure: Single = if d.abs().gt(num(0x3c23_d70a)) {  // 0.01
        // 0.6, -0.3, 0.3
        prev.exposure_ev.plus(d.times(num(0x3f19_999a)).clamp(num(0xbe99_999a), num(0x3e99_999a)))
    } else {
        prev.exposure_ev
    };
    let contrast: Single = if tone.key == Key::Low {
        prev.grade.contrast
    } else if ds.gt(num(0)) {
        // 0.8, 0.1
        prev.grade.contrast.plus(ds.times(num(0x3f4c_cccd)).times(strength).clamp(num(0), num(0x3dcc_cccd)))
    } else if ds.lt(num(0)) {
        // 0.5, 0.08
        prev.grade.contrast.minus(ds.negated().times(num(0x3f00_0000)).times(strength).clamp(num(0), num(0x3da3_d70a)))
    } else {
        prev.grade.contrast
    };
    let vibrance: Single = if dc.gt(num(0)) {
        // 1.5, 0.15
        prev.color.vibrance.plus(dc.times(num(0x3fc0_0000)).times(strength).clamp(num(0), num(0x3e19_999a)))
    } else {
        prev.color.vibrance
    };
    Adjustments {
        exposure_ev: exposure.clamp(num(0xc000_0000), num(0x4000_0000)),  // -2, 2
        // -0.25, 0.55
        grade: Grade { contrast: contrast.clamp(num(0xbe80_0000), num(0x3f0c_cccd)), ..prev.grade },
        // 0.5
        color: ColorGrade { vibrance: vibrance.clamp(num(0), num(0x3f00_0000)), ..prev.color },
        ..*prev
    }
}

/// Refinement stays within its own limits whatever was measured.
pub proof fn law_refinement_is_limited(
    m: &ImageMetrics,
    prev: &Adjustments,
    target: &ToneTarget,
    tone: &Tonality,
    strength: Single,
)
    ensures
        ({
            let a = refine_correction(m, prev, target, tone, strength);
            // -2, 2
            &&& a.exposure_ev.is_nan() || (a.exposure_ev.ge(num(0xc000_0000))
                && a.exposure_ev.le(num(0x4000_0000)))
            // -0.25, 0.55
            &&& a.grade.contrast.is_nan() || (a.grade.contrast.ge(num(0xbe80_0000))
                && a.grade.contrast.le(num(0x3f0c_cccd)))
            // 0.5
            &&& a.color.vibrance.is_nan() || (a.color.vibrance.ge(num(0))
                && a.color.vibrance.le(num(0x3f00_0000)))
            &&& a.advanced == prev.advanced
            &&& a.tone_map == prev.tone_map
            &&& a.mix == prev.mix
        }),
{
}

/// A refinement moves contrast towards the target's spread, except in a low key: a picture that is
/// flatter than the middle of the target's band never loses contrast, and one with a wider spread
/// never gains any. One that is flatter than the band by a noticeable amount gains some.
pub proof fn law_refinement_moves_contrast(
    m: &ImageMetrics,
    prev: &Adjustments,
    target: &ToneTarget,
    tone: &Tonality,
    strength: Single,
)
    requires
        tone.key != Key::Low,
        is_small(target.std_lo),
        is_small(target.std_hi),
        is_small(m.tone.std_l),
        num(0).le(strength),
        is_small(strength),
        num(0xbe80_0000).le(prev.grade.contrast),  // -0.25
        prev.grade.contrast.le(num(0x3f0c_cccd)),  // 0.55
    ensures
        ({
            let old = prev.grade.contrast;
            let new = refine_correction(m, prev, target, tone, strength).grade.contrast;
            let twice = 2 * m.tone.std_l.value();
            let ends = target.std_lo.value() + target.std_hi.value();
            &&& twice <= ends ==> old.le(new)
            &&& ends <= twice ==> new.le(old)
            &&& target.std_lo.le(target.std_hi) && noticeable(target.std_lo, m.tone.std_l)
                && num(0x3e80_0000).le(strength) && old.lt(num(0x3f00_0000)) ==> old.lt(new)  // 0.25, 0.5
            &&& target.std_lo.le(target.std_hi) && noticeable(m.tone.std_l, target.std_hi)
                && num(0x3e80_0000).le(strength) && num(0).lt(old) ==> new.lt(old)
        }),
{
    let old = prev.grade.contrast;
    let x = m.tone.std_l;
    let middle = target.std_lo.plus(target.std_hi).over(num(0x4000_0000));
    law_middle_parts(target.std_lo, target.std_hi, x);
    lemma_middle_in_band(target.std_lo, target.std_hi);
    law_difference_shows_order(x, middle);
    let d = middle.minus(x);
    lemma_distance_is_finite(target.std_lo, target.std_hi, x);
    lemma_small_setting(old);
    if d.gt(num(0)) {
        lemma_step(d, num(0x3f4c_cccd), strength);  // 0.8
        let t = d.times(num(0x3f4c_cccd)).times(strength).clamp(num(0), num(0x3dcc_cccd));
        law_adding_raises(old, t);
        if target.std_lo.le(target.std_hi) && noticeable(target.std_lo, x) && num(0x3e80_0000).le(
            strength,
        ) {
            law_differences_keep_order(target.std_lo, middle, x);
            lemma_noticeable_step(d, num(0x3f4c_cccd), strength);
            law_noticeable_amounts_move(old, t);
        }
    } else if d.lt(num(0)) {
        let e = d.negated();
        lemma_step(e, num(0x3f00_0000), strength);  // 0.5
        let t = e.times(num(0x3f00_0000)).times(strength).clamp(num(0), num(0x3da3_d70a));
        law_adding_raises(old, t);
        if target.std_lo.le(target.std_hi) && noticeable(x, target.std_hi) && num(0x3e80_0000).le(
            strength,
        ) {
            law_differences_keep_order(middle, target.std_hi, x);
            lemma_turned_difference(x, target.std_hi);
            lemma_noticeable_step(e, num(0x3f00_0000), strength);
            law_noticeable_amounts_move(old, t);
        }
    }
    if target.std_lo.le(target.std_hi) && noticeable(target.std_lo, x) {
        law_difference_shows_order(x, target.std_lo);
        law_differences_keep_order(target.std_lo, middle, x);
    }
    if target.std_lo.le(target.std_hi) && noticeable(x, target.std_hi) {
        law_difference_shows_order(target.std_hi, x);
        law_differences_keep_order(middle, target.std_hi, x);
        lemma_turned_difference(x, target.std_hi);
    }
}

/// A number lies above another by two to the power -8 or more.
pub open spec fn noticeable(above: Single, below: Single) -> bool {
    num(0x3b80_0000).le(above.minus(below))
}

/// A difference turned around has the opposite sign and the same size.
proof fn lemma_turned_difference(a: Single, b: Single)
    requires
        is_finite(a),
        is_finite(b),
        num(0).lt(a.minus(b)),
    ensures
        b.minus(a).negated() == a.minus(b),
{
    law_difference_shows_order(b, a);
    law_difference_shows_order(a, b);
    crate::single::lemma_opposite_differences(a, b);
}

/// The middle of a band lies in the band.
proof fn lemma_middle_in_band(lo: Single, hi: Single)
    requires
        is_small(lo),
        is_small(hi),
    ensures
        lo.le(hi) ==> lo.le(lo.plus(hi).over(num(0x4000_0000))) && lo.plus(hi).over(
            num(0x4000_0000),
        ).le(hi),
{
    law_order_is_numeric(lo, hi);
    law_middle_parts(lo, hi, lo);
    law_middle_parts(lo, hi, hi);
}

/// The distance from the middle of a band is finite.
proof fn lemma_distance_is_finite(lo: Single, hi: Single, x: Single)
    requires
        is_small(lo),
        is_small(hi),
        is_small(x),
    ensures
        is_small(lo.plus(hi).over(num(0x4000_0000))),
        is_finite(lo.plus(hi).over(num(0x4000_0000)).minus(x)),
{
    law_order_is_numeric(lo, hi);
    if lo.le(hi) {
        lemma_middle_in_band(lo, hi);
    } else {
        lemma_middle_in_band(hi, lo);
        law_sum_commutes(lo, hi);
    }
    lemma_small_sum(lo.plus(hi).over(num(0x4000_0000)), x.negated());
}

/// Settings of the size of a slider are finite.
proof fn lemma_small_setting(x: Single)
    requires
        num(0xc000_0000).le(x),  // -2
        x.le(num(0x4000_0000)),
    ensures
        is_small(x),
        lies_between(x, -4, 4),
{
    let two = num(0x4000_0000);
    lemma_two_and_three();
    law_whole_numbers_are_exact(2);
    law_negation_is_opposite(two);
    law_order_is_numeric(x, two);
    law_order_is_numeric(two.negated(), x);
    assert(two.negated() == num(0xc000_0000));
    lemma_pow2_pos(149);
    let p = pow2(149) as int;
    assert(-4 * p <= -(2 * p) && 2 * p <= 4 * p) by (nonlinear_arith)
        requires
            p > 0,
    ;
}

/// A step has the sign of what it is taken of.
proof fn lemma_step(d: Single, k: Single, strength: Single)
    requires
        num(0).le(d),
        is_finite(d),
        num(0).le(k),
        k.le(num(0x3f80_0000)),  // 1
        num(0).le(strength),
        is_small(strength),
    ensures
        num(0).le(d.times(k).times(strength)),
        is_finite(d.times(k)),
{
    law_shares_shrink(d, k);
    law_product_sign(d.times(k), strength);
}

/// A noticeable distance gives a noticeable step.
proof fn lemma_noticeable_step(d: Single, k: Single, strength: Single)
    requires
        num(0x3b80_0000).le(d),
        is_finite(d),
        num(0x3f00_0000).le(k),  // 0.5
        k.le(num(0x3f80_0000)),  // 1
        num(0x3e80_0000).le(strength),  // 0.25
        is_small(strength),
    ensures
        num(0x3580_0000).le(d.times(k)),
        num(0x3580_0000).le(d.times(k).times(strength)),
{
    let e = num(0x3b80_0000);
    law_scaled_amounts_stay_noticeable(e, k, strength);
    law_shares_shrink(d, k);
    law_shares_shrink(e, k);
    law_scaling_keeps_order(e, d, k);
    law_scaling_keeps_order(e.times(k), d.times(k), strength);
}

/// A refinement moves exposure by the median: a picture darker than the middle of the target's
/// band never loses exposure, a brighter one never gains any, and a noticeable distance from the
/// band always moves it.
pub proof fn law_refinement_moves_exposure(
    m: &ImageMetrics,
    prev: &Adjustments,
    target: &ToneTarget,
    tone: &Tonality,
    strength: Single,
)
    requires
        is_small(target.med_lo),
        is_small(target.med_hi),
        is_small(m.tone.median_l),
        num(0xc000_0000).le(prev.exposure_ev),  // -2
        prev.exposure_ev.le(num(0x4000_0000)),  // 2
    ensures
        ({
            let old = prev.exposure_ev;
            let new = refine_correction(m, prev, target, tone, strength).exposure_ev;
            let twice = 2 * m.tone.median_l.value();
            let ends = target.med_lo.value() + target.med_hi.value();
            &&& twice <= ends ==> old.le(new)
            &&& ends <= twice ==> new.le(old)
            &&& target.med_lo.le(target.med_hi) && num(0x3c80_0000).le(
                target.med_lo.minus(m.tone.median_l),
            ) && old.lt(num(0x3f80_0000)) ==> old.lt(new)  // 2 to the power -6, 1
            &&& target.med_lo.le(target.med_hi) && num(0x3c80_0000).le(
                m.tone.median_l.minus(target.med_hi),
            ) && num(0xbf80_0000).lt(old) ==> new.lt(old)  // -1
        }),
{
    let old = prev.exposure_ev;
    let x = m.tone.median_l;
    let middle = target.med_lo.plus(target.med_hi).over(num(0x4000_0000));
    law_middle_parts(target.med_lo, target.med_hi, x);
    lemma_middle_in_band(target.med_lo, target.med_hi);
    law_difference_shows_order(x, middle);
    let d = middle.minus(x);
    lemma_distance_is_finite(target.med_lo, target.med_hi, x);
    lemma_exposure_step(old, d);
    if target.med_lo.le(target.med_hi) && num(0x3c80_0000).le(target.med_lo.minus(x)) {
        law_differences_keep_order(target.med_lo, middle, x);
    }
    if target.med_lo.le(target.med_hi) && num(0x3c80_0000).le(x.minus(target.med_hi)) {
        law_difference_shows_order(target.med_hi, x);
        lemma_turned_difference(x, target.med_hi);
        law_differences_keep_order(middle, target.med_hi, x);
    }
}

/// A step of the exposure goes the way of the distance.
proof fn lemma_exposure_step(old: Single, d: Single)
    requires
        is_finite(d),
        num(0xc000_0000).le(old),  // -2
        old.le(num(0x4000_0000)),  // 2
    ensures
        ({
            let t = d.times(num(0x3f19_999a)).clamp(num(0xbe99_999a), num(0x3e99_999a));
            let new = (if d.abs().gt(num(0x3c23_d70a)) {
                old.plus(t)
            } else {
                old
            }).clamp(num(0xc000_0000), num(0x4000_0000));
            &&& num(0).le(d) ==> old.le(new)
            &&& d.le(num(0)) ==> new.le(old)
            &&& num(0x3c80_0000).le(d) && old.lt(num(0x3f80_0000)) ==> old.lt(new)
            &&& d.le(num(0xbc80_0000)) && num(0xbf80_0000).lt(old) ==> new.lt(old)
        }),
{
    let k = num(0x3f19_999a);  // 0.6
    let (lo, hi) = (num(0xbe99_999a), num(0x3e99_999a));  // -0.3, 0.3
    lemma_small_setting(old);
    law_product_sign(d, k);
    law_shares_shrink(d, k);
    let t = d.times(k).clamp(lo, hi);
    if num(0).le(d) {
        law_adding_raises(old, t);
    } else {
        law_adding_lowers(old, t);
    }
    if d.le(num(0)) {
        law_adding_lowers(old, t);
    }
    let one = num(0x3f80_0000);
    if num(0x3c80_0000).le(d) {
        lemma_noticeable_step(d, k, one);
        law_noticeable_amounts_move(old, t);
    }
    if d.le(num(0xbc80_0000)) {
        lemma_noticeable_step(d.negated(), k, one);
        law_negation_passes_through(d, k);
        law_noticeable_amounts_move(old, t.negated());
        assert(t.negated().negated() == t);
    }
}

/// A refinement adds vibrance to a picture paler than the middle of the target's band, and takes
/// none away.
pub proof fn law_refinement_moves_vibrance(
    m: &ImageMetrics,
    prev: &Adjustments,
    target: &ToneTarget,
    tone: &Tonality,
    strength: Single,
)
    requires
        is_small(target.c_lo),
        is_small(target.c_hi),
        is_small(m.color.mean_c),
        num(0).le(strength),
        is_small(strength),
        num(0).le(prev.color.vibrance),
        prev.color.vibrance.le(num(0x3f00_0000)),  // 0.5
    ensures
        ({
            let old = prev.color.vibrance;
            let new = refine_correction(m, prev, target, tone, strength).color.vibrance;
            &&& old.le(new)
            &&& target.c_lo.value() + target.c_hi.value() <= 2 * m.color.mean_c.value()
                ==> new == old
            &&& target.c_lo.le(target.c_hi) && noticeable(target.c_lo, m.color.mean_c)
                && num(0x3e80_0000).le(strength) && old.lt(num(0x3e80_0000)) ==> old.lt(new)  // 0.25
        }),
{
    let old = prev.color.vibrance;
    let x = m.color.mean_c;
    let k = num(0x3fc0_0000);  // 1.5
    let middle = target.c_lo.plus(target.c_hi).over(num(0x4000_0000));
    law_middle_parts(target.c_lo, target.c_hi, x);
    lemma_middle_in_band(target.c_lo, target.c_hi);
    law_difference_shows_order(x, middle);
    let d = middle.minus(x);
    lemma_distance_is_finite(target.c_lo, target.c_hi, x);
    law_small_difference(middle, x, k);
    lemma_small_setting(old);
    let t = d.times(k).times(strength).clamp(num(0), num(0x3e19_999a));
    if d.gt(num(0)) {
        law_product_sign(d, k);
        law_product_sign(d.times(k), strength);
        law_adding_raises(old, t);
    }
    if target.c_lo.le(target.c_hi) && noticeable(target.c_lo, x) && num(0x3e80_0000).le(strength) {
        law_differences_keep_order(target.c_lo, middle, x);
        let e = num(0x3b80_0000);
        law_scaled_amounts_stay_noticeable(e, k, strength);
        law_scaling_keeps_order(e, d, k);
        law_scaling_keeps_order(e.times(k), d.times(k), strength);
        law_noticeable_amounts_move(old, t);
    }
}

/// The state of a search for the best settings.
#[derive(Clone, Copy, Debug)]
pub struct Search {
    /// The settings to measure next.
    pub adj: Adjustments,
    /// The best settings so far.
    pub best_adj: Adjustments,
    pub best_score: Single,
}

/// The longest side at which rounds are rendered: 1024 where none is given.
pub fn proxy_limit(asked: u32) -> (r: u32)
    ensures
        r == if asked == 0 {
            1024
        } else {
            asked
        },
{
    if asked == 0 {
        1024
    } else {
        asked
    }
}

/// How many rounds a search has: four where no count is given.
pub fn round_count(asked: usize) -> (r: usize)
    ensures
        r == if asked == 0 {
            4
        } else {
            asked
        },
{
    if asked == 0 {
        4
    } else {
        asked
    }
}

/// The size at which rounds are rendered: the picture's own, or one with the given width. A
/// picture is made smaller where its longer side exceeds the limit.
pub fn proxy_size(width: u32, height: u32, limit: u32) -> (r: Option<(u32, u32)>)
    requires
        width > 0,
        limit * height <= u32::MAX,
    ensures
        r == if width > limit || height > limit {
            Some((limit, (limit * height / width as int) as u32))
        } else {
            None
        },
{
    if width > limit || height > limit {
        proof {
            vstd::arithmetic::div_mod::lemma_div_is_ordered_by_denominator(
                limit * height,
                1,
                width as int,
            );
            vstd::arithmetic::div_mod::lemma_div_pos_is_pos(limit * height, width as int);
        }
        Some((limit, limit * height / width))
    } else {
        None
    }
}

/// The picture at the size at which rounds are rendered: itself where it is within the limit,
/// and fitted into the box of `proxy_size` where it is not.
pub fn proxy(img: &RgbImage, limit: u32) -> (r: RgbImage)
    requires
        img.wf(),
        0 < img.width,
        0 < img.height,
        limit * img.height <= u32::MAX,
        img.width > limit || img.height > limit ==> resamples(
            img.width as int,
            img.height as int,
            limit as int,
            limit * img.height / img.width as int,
        ),
    ensures
        r.wf(),
        if img.width > limit || img.height > limit {
            fitted(
                img.width,
                img.height,
                limit,
                (limit * img.height / img.width as int) as u32,
                r.width,
                r.height,
            )
        } else {
            r.width == img.width && r.height == img.height && r.data@ == img.data@
        },
{
    match proxy_size(img.width, img.height, limit) {
        Some((w, h)) => fit_into(img, w, h),
        None => img.clone(),
    }
}

/// Begins a search from measured first settings. Where they show an artefact, the standard look
/// is the one to beat.
pub fn begin_search(
    first: &Adjustments,
    first_m: &ImageMetrics,
    base: &ImageMetrics,
    t: &Tonality,
    target: &ToneTarget,
) -> (r: Search)
    ensures
        r.adj == *first,
        spec_is_artifact(first_m, base, t) is None ==> r.best_adj == *first && r.best_score
            == spec_goodness(first_m, target),
        spec_is_artifact(first_m, base, t) is Some ==> r.best_adj
            == Adjustments::spec_photo_default() && r.best_score == spec_goodness(base, target),
{
    if is_artifact(first_m, base, t).is_none() {
        Search { adj: *first, best_adj: *first, best_score: goodness(first_m, target) }
    } else {
        Search {
            adj: *first,
            best_adj: Adjustments::photo_default(),
            best_score: goodness(base, target),
        }
    }
}

/// A round's settings become the best ones where they show no artefact and score higher.
pub open spec fn judged(
    s: Search,
    m: &ImageMetrics,
    base: &ImageMetrics,
    t: &Tonality,
    score: Single,
) -> Search {
    if spec_is_artifact(m, base, t) is None && score.gt(s.best_score) {
        Search { best_adj: s.adj, best_score: score, ..s }
    } else {
        s
    }
}

/// Judges a round by its measurements and the score that they get.
pub fn judge_round(
    s: &Search,
    m: &ImageMetrics,
    base: &ImageMetrics,
    t: &Tonality,
    score: Single,
) -> (r: Search)
    ensures
        r == judged(*s, m, base, t, score),
{
    if is_artifact(m, base, t).is_none() && score.gt(s.best_score) {
        Search { adj: s.adj, best_adj: s.adj, best_score: score }
    } else {
        *s
    }
}

/// Goes to the next settings, brought within the sliders.
pub fn next_round(s: &Search, next: &Adjustments, e: &Edges) -> (r: Search)
    requires
        edges_fit(*e),
    ensures
        r == (Search { adj: clamped(*next, *e, CONTROLS as int), ..*s }),
{
    let mut a: Adjustments = *next;
    clamp(&mut a, e);
    Search { adj: a, best_adj: s.best_adj, best_score: s.best_score }
}

/// A round never makes the best worse: the score does not fall, and new best settings are those
/// of the round, without an artefact.
pub proof fn law_search_never_falls_back(
    s: Search,
    m: &ImageMetrics,
    base: &ImageMetrics,
    t: &Tonality,
    score: Single,
)
    requires
        !s.best_score.is_nan(),
    ensures
        ({
            let r = judged(s, m, base, t, score);
            &&& r.best_score.ge(s.best_score)
            &&& r.best_adj == s.best_adj || (r.best_adj == s.adj && spec_is_artifact(m, base, t) is
                None)
        }),
{
}

/// What a round of a search came to: what its settings measured, the score of that, and the
/// settings that were proposed next.
pub struct Round {
    pub measured: ImageMetrics,
    pub score: Single,
    pub next: Adjustments,
}

/// A search after the first `k` rounds.
pub open spec fn after_rounds(
    s: Search,
    rounds: Seq<Round>,
    base: &ImageMetrics,
    t: &Tonality,
    e: Edges,
    k: int,
) -> Search
    decreases k,
{
    if k <= 0 {
        s
    } else {
        let r = rounds[k - 1];
        let now = judged(
            after_rounds(s, rounds, base, t, e, k - 1),
            &r.measured,
            base,
            t,
            r.score,
        );
        Search { adj: clamped(r.next, e, CONTROLS as int), ..now }
    }
}

/// A round showed no artefact.
pub open spec fn is_clean(r: Round, base: &ImageMetrics, t: &Tonality) -> bool {
    spec_is_artifact(&r.measured, base, t) is None
}

/// The settings of round `i` were kept: it is clean, scored higher than the start, and is the
/// first of the clean rounds with the highest score.
pub open spec fn was_kept(
    s: Search,
    rounds: Seq<Round>,
    base: &ImageMetrics,
    t: &Tonality,
    e: Edges,
    k: int,
    i: int,
) -> bool {
    let end = after_rounds(s, rounds, base, t, e, k);
    &&& 0 <= i < k
    &&& is_clean(rounds[i], base, t)
    &&& rounds[i].score.gt(s.best_score)
    &&& forall|j: int|
        0 <= j < i && is_clean(#[trigger] rounds[j], base, t) ==> !rounds[j].score.ge(
            rounds[i].score,
        )
    &&& end.best_adj == after_rounds(s, rounds, base, t, e, i).adj
    &&& end.best_score == rounds[i].score
}

/// Over all rounds the first of the highest scores without an artefact is kept, and the start
/// where no round beats it.
pub proof fn law_first_highest_score_is_kept(
    s: Search,
    rounds: Seq<Round>,
    base: &ImageMetrics,
    t: &Tonality,
    e: Edges,
    k: int,
)
    requires
        0 <= k <= rounds.len(),
        !s.best_score.is_nan(),
    ensures
        ({
            let end = after_rounds(s, rounds, base, t, e, k);
            &&& !end.best_score.is_nan()
            &&& end.best_score.ge(s.best_score)
            &&& forall|j: int|
                0 <= j < k && is_clean(#[trigger] rounds[j], base, t) ==> !rounds[j].score.gt(
                    end.best_score,
                )
            &&& (end.best_adj == s.best_adj && end.best_score == s.best_score) || exists|i: int|
                #[trigger] was_kept(s, rounds, base, t, e, k, i)
        }),
    decreases k,
{
    if k > 0 {
        law_first_highest_score_is_kept(s, rounds, base, t, e, k - 1);
        let before = after_rounds(s, rounds, base, t, e, k - 1);
        let end = after_rounds(s, rounds, base, t, e, k);
        let r = rounds[k - 1];
        if is_clean(r, base, t) && r.score.gt(before.best_score) {
            assert(was_kept(s, rounds, base, t, e, k, k - 1));
        } else if !(before.best_adj == s.best_adj && before.best_score == s.best_score) {
            let i = choose|i: int| #[trigger] was_kept(s, rounds, base, t, e, k - 1, i);
            assert(was_kept(s, rounds, base, t, e, k, i));
        }
    }
}

pub open spec fn spec_with_plan(a: &Adjustments, plan: &ColorPlan) -> Adjustments {
    Adjustments {
        color_plan: Some(*plan),
        color: ColorGrade {
            vibrance: a.color.vibrance.plus(plan.vibrance_target),
            saturation: a.color.saturation.times(plan.saturation_target),
            ..a.color
        },
        advanced: Advanced::spec_default(),
        ..*a
    }
}

/// Puts the colour plan into the chosen settings. Skin smoothing and fusion stay off.
#[verifier::when_used_as_spec(spec_with_plan)]
pub fn with_plan(a: &Adjustments, plan: &ColorPlan) -> (r: Adjustments)
    ensures
        r == spec_with_plan(a, plan),
{
    Adjustments {
        color_plan: Some(*plan),
        color: ColorGrade {
            vibrance: a.color.vibrance.plus(plan.vibrance_target),
            saturation: a.color.saturation.times(plan.saturation_target),
            ..a.color
        },
        advanced: Advanced::default(),
        ..*a
    }
}

/// A setting differs from its neutral value so much that it is listed.
pub open spec fn listed(a: Adjustments, e: Edges, k: int) -> bool {
    let c = control_at(k);
    c.field.value_in(a).minus(c.middle(e)).abs().gt(num(0x38d1_b717))  // 0.0001
}

/// The names and values of the listed settings among the first `k`.
pub open spec fn listed_settings(a: Adjustments, e: Edges, k: int) -> Seq<(Seq<char>, Single)>
    decreases k,
{
    if k <= 0 {
        Seq::empty()
    } else if listed(a, e, k - 1) {
        listed_settings(a, e, k - 1).push(
            (control_at(k - 1).field.name(), control_at(k - 1).field.value_in(a)),
        )
    } else {
        listed_settings(a, e, k - 1)
    }
}

/// Names and values, with each name as its characters.
pub open spec fn named_values(v: Seq<(String, Single)>) -> Seq<(Seq<char>, Single)> {
    Seq::new(v.len(), |i: int| (v[i].0@, v[i].1))
}

/// The settings that differ from their neutral values, by name.
pub fn applied_params(a: &Adjustments, e: &Edges) -> (r: Vec<(String, Single)>)
    ensures
        named_values(r@) == listed_settings(*a, *e, CONTROLS as int),
{
    let mut r: Vec<(String, Single)> = Vec::new();
    assert(named_values(r@) =~= listed_settings(*a, *e, 0));
    let mut k: usize = 0;
    while k < CONTROLS
        invariant
            k <= CONTROLS,
            named_values(r@) == listed_settings(*a, *e, k as int),
        decreases CONTROLS - k,
    {
        let spec: ParamSpec = control(k);
        proof {
            law_controls_are_in_place(k as int);
        }
        let v: Single = spec.field.get(a);
        let d: Single = spec.neutral(e);
        if v.minus(d).abs().gt(num(0x38d1_b717)) {  // 0.0001
            let ghost before = r@;
            r.push((spec.field.id(), v));
            assert(named_values(r@) =~= named_values(before).push(
                (control_at(k as int).field.name(), v),
            ));
        }
        k = k + 1;
    }
    r
}

pub open spec fn spec_is_safe(mt: &ImageMetrics, base: &ImageMetrics) -> bool {
    let cap: Single = if base.tone.mean_l.gt(num(0x3f0c_cccd)) {  // 0.55
        base.tone.mean_l.plus(num(0x3ca3_d70a))  // 0.02
    } else {
        num(0x3f14_7ae1)  // 0.58
    };
    !mt.tone.mean_l.gt(cap)
        // 0.08
        && !mt.exposure.highlight_clip_pct.gt(base.exposure.highlight_clip_pct.plus(num(0x3da3_d70a)))
        // 0.03, 0.82
        && !(base.skin.ratio.gt(num(0x3cf5_c28f)) && mt.skin.mean_l.gt(num(0x3f51_eb85)))
        && !mt.tone.std_l.lt(base.tone.std_l.times(num(0x3f19_999a)))  // 0.6
}

/// A developed picture does not damage the original: it is not too bright, has hardly more
/// clipped highlights, no washed out skin, and keeps its contrast.
#[verifier::when_used_as_spec(spec_is_safe)]
pub fn is_safe(mt: &ImageMetrics, base: &ImageMetrics) -> (r: bool)
    ensures
        r == spec_is_safe(mt, base),
{
    let cap: Single = if base.tone.mean_l.gt(num(0x3f0c_cccd)) {  // 0.55
        base.tone.mean_l.plus(num(0x3ca3_d70a))  // 0.02
    } else {
        num(0x3f14_7ae1)  // 0.58
    };
    !mt.tone.mean_l.gt(cap)
        // 0.08
        && !mt.exposure.highlight_clip_pct.gt(base.exposure.highlight_clip_pct.plus(num(0x3da3_d70a)))
        // 0.03, 0.82
        && !(base.skin.ratio.gt(num(0x3cf5_c28f)) && mt.skin.mean_l.gt(num(0x3f51_eb85)))
        && !mt.tone.std_l.lt(base.tone.std_l.times(num(0x3f19_999a)))  // 0.6
}

pub open spec fn spec_mix_at(start: Single, i: u32) -> Single {
    // 1, 16
    start.times(num(0x3f80_0000).minus(Single::spec_from_int(i as int).over(num(0x4180_0000))))
}

/// The share of the developed picture at a step from the start down to nothing at step 16.
#[verifier::when_used_as_spec(spec_mix_at)]
pub fn mix_at(start: Single, i: u32) -> (r: Single)
    ensures
        r == spec_mix_at(start, i),
{
    start.times(num(0x3f80_0000).minus(Single::from_int(i as i128).over(num(0x4180_0000))))  // 1, 16
}

/// What to do after a share was measured.
#[derive(Clone, Copy, Debug, PartialEq, Eq, Structural)]
pub enum MixChoice {
    /// Leave the settings as they are.
    Keep,
    /// Measure this share next.
    Try(Single),
    /// Settle on this share.
    Use(Single),
}

pub open spec fn spec_safe_neutral(start: Single, i: u32, safe: bool) -> MixChoice {
    if safe {
        if i == 0 {
            MixChoice::Keep
        } else {
            MixChoice::Use(mix_at(start, i))
        }
    } else if i < 16 {
        MixChoice::Try(mix_at(start, (i + 1) as u32))
    } else {
        MixChoice::Use(num(0))
    }
}

/// The step after the share of step `i` was found safe or not: the largest safe share is taken,
/// and the original where none is.
#[verifier::when_used_as_spec(spec_safe_neutral)]
pub fn safe_neutral(start: Single, i: u32, safe: bool) -> (r: MixChoice)
    ensures
        r == spec_safe_neutral(start, i, safe),
{
    if safe {
        if i == 0 {
            MixChoice::Keep
        } else {
            MixChoice::Use(mix_at(start, i))
        }
    } else if i < 16 {
        MixChoice::Try(mix_at(start, (i + 1) as u32))
    } else {
        MixChoice::Use(num(0))
    }
}

/// Where the search for a share ends that stands at step `i`; `safe` says of every step whether
/// its share is safe.
pub open spec fn share_from(start: Single, safe: Seq<bool>, i: int) -> MixChoice
    decreases 17 - i,
{
    if i > 16 {
        MixChoice::Use(num(0))
    } else {
        match safe_neutral(start, i as u32, safe[i]) {
            MixChoice::Try(_) => share_from(start, safe, i + 1),
            end => end,
        }
    }
}

/// The search ends at the first safe share on the way down, which is the largest one, or at
/// nothing where none is safe; a start that is safe is kept.
pub proof fn law_largest_safe_share_is_taken(start: Single, safe: Seq<bool>, i: int)
    requires
        safe.len() == 17,
        0 <= i <= 16,
    ensures
        match share_from(start, safe, i) {
            MixChoice::Keep => i == 0 && safe[0],
            MixChoice::Use(m) => if forall|j: int| i <= j <= 16 ==> !#[trigger] safe[j] {
                m == num(0)
            } else {
                exists|k: int|
                    #![trigger safe[k]]
                    i <= k <= 16 && 0 < k && safe[k] && m == mix_at(start, k as u32) && forall|
                        j: int,
                    |
                        i <= j < k ==> !#[trigger] safe[j]
            },
            MixChoice::Try(_) => false,
        },
    decreases 17 - i,
{
    if !safe[i] && i < 16 {
        law_largest_safe_share_is_taken(start, safe, i + 1);
        let rest = share_from(start, safe, i + 1);
        assert(share_from(start, safe, i) == rest);
        if exists|j: int| i <= j <= 16 && #[trigger] safe[j] {
            let j = choose|j: int| i <= j <= 16 && #[trigger] safe[j];
            assert(i + 1 <= j <= 16 && safe[j]);
        }
    }
}

/// Later steps never have larger shares.
pub proof fn law_shares_fall(start: Single, i: u32, j: u32)
    requires
        num(0).le(start),
        start.magnitude() < INFINITY,
        i <= j <= 16,
    ensures
        mix_at(start, j).le(mix_at(start, i)),
{
    let one = num(0x3f80_0000);
    let all = num(0x4180_0000);  // 16
    let a = Single::spec_from_int(i as int);
    let b = Single::spec_from_int(j as int);
    let c = Single::spec_from_int(16);
    law_small_integers_are_exact(i as int);
    law_small_integers_are_exact(j as int);
    law_small_integers_are_exact(16);
    law_small_integers_are_exact(0);
    lemma_sixteen();
    lemma_pow2_pos(149);
    assert(0 <= i * pow2(149) <= j * pow2(149) <= 16 * pow2(149)) by (nonlinear_arith)
        requires
            0 <= i <= j <= 16,
            pow2(149) > 0,
    ;
    law_order_is_numeric(num(0), a);
    law_order_is_numeric(num(0), b);
    law_order_is_numeric(a, b);
    law_order_is_numeric(b, c);
    law_quotients_keep_order(a, b, all);
    law_quotients_keep_order(b, c, all);
    law_self_quotient_is_one(all);
    let x = a.over(all);
    let y = b.over(all);
    law_sums_keep_order(y.negated(), x.negated(), one);
    law_sums_keep_order(one.negated(), y.negated(), one);
    let f = one.minus(x);
    let g = one.minus(y);
    law_small_differences_are_exact(1, 1);
    lemma_one();
    law_sums_keep_order(x.negated(), num(0), one);
    law_zero_is_neutral(one, num(0));
    law_products_keep_order(g, f, start);
    law_product_commutes(start, f);
    law_product_commutes(start, g);
}

/// A share of one byte and the rest of another.
pub open spec fn mixed_byte(m: Single, p: u8, o: u8) -> int {
    // 1
    m.times(spec_of_byte(p)).plus(num(0x3f80_0000).minus(m).times(spec_of_byte(o))).round().truncated(0, 255)
}

/// Blends a developed picture with the original.
pub fn blend_rgb(developed: &RgbImage, orig: &RgbImage, m: Single) -> (r: RgbImage)
    requires
        developed.wf(),
        developed.data@.len() == orig.data@.len(),
    ensures
        r.wf(),
        r.width == developed.width,
        r.height == developed.height,
        forall|i: int|
            0 <= i < r.data@.len() ==> #[trigger] r.data@[i] == mixed_byte(
                m,
                developed.data@[i],
                orig.data@[i],
            ),
{
    let mut data: Vec<u8> = Vec::new();
    let mut i: usize = 0;
    while i < developed.data.len()
        invariant
            i <= developed.data@.len(),
            developed.data@.len() == orig.data@.len(),
            data@.len() == i,
            forall|j: int|
                0 <= j < i ==> #[trigger] data@[j] == mixed_byte(
                    m,
                    developed.data@[j],
                    orig.data@[j],
                ),
        decreases developed.data@.len() - i,
    {
        let p: Single = of_byte(developed.data[i]);
        let o: Single = of_byte(orig.data[i]);
        data.push(m.times(p).plus(num(0x3f80_0000).minus(m).times(o)).round().to_u8());  // 1
        i = i + 1;
    }
    RgbImage { width: developed.width, height: developed.height, data }
}

pub open spec fn spec_zone_weights(l: Single) -> (Single, Single, Single) {
    let ws: Single = if l.lt(num(0x3d75_c28f)) {  // 0.06
        num(0)
    } else if l.lt(num(0x3eb3_3333)) {  // 0.35
        smoothstep(num(0x3d75_c28f), num(0x3eb3_3333), l)  // 0.06, 0.35
    } else {
        num(0)
    };
    let wh: Single = if l.gt(num(0x3f40_0000)) {  // 0.75
        smoothstep(num(0x3f40_0000), num(0x3f80_0000), l)  // 0.75, 1
    } else {
        num(0)
    };
    let wm: Single = num(0x3f80_0000).minus(ws).minus(wh).max(num(0));  // 1
    (ws, wm, wh)
}

/// Weights of the three versions at a brightness: the one with lifted shadows, the plain one,
/// and the one with held highlights. Black belongs to the plain one.
#[verifier::when_used_as_spec(spec_zone_weights)]
pub fn zone_weights(l: Single) -> (r: (Single, Single, Single))
    ensures
        r == spec_zone_weights(l),
{
    let ws: Single = if l.lt(num(0x3d75_c28f)) {  // 0.06
        num(0)
    } else if l.lt(num(0x3eb3_3333)) {  // 0.35
        smoothstep(num(0x3d75_c28f), num(0x3eb3_3333), l)  // 0.06, 0.35
    } else {
        num(0)
    };
    let wh: Single = if l.gt(num(0x3f40_0000)) {  // 0.75
        smoothstep(num(0x3f40_0000), num(0x3f80_0000), l)  // 0.75, 1
    } else {
        num(0)
    };
    let wm: Single = num(0x3f80_0000).minus(ws).minus(wh).max(num(0));  // 1
    (ws, wm, wh)
}

pub open spec fn spec_shadow_version(a: &Adjustments, strength: Single) -> Adjustments {
    Adjustments {
        grade: Grade {
            // 0.18, 0.5
            shadow_lift: a.grade.shadow_lift.plus(num(0x3e38_51ec).times(strength)).min(num(0x3f00_0000)),
            // 0.12, 0.5
            deep_shadow_lift: a.grade.deep_shadow_lift.plus(num(0x3df5_c28f).times(strength)).min(num(0x3f00_0000)),
            ..a.grade
        },
        ..*a
    }
}

/// The settings of the version with lifted shadows.
#[verifier::when_used_as_spec(spec_shadow_version)]
pub fn shadow_version(a: &Adjustments, strength: Single) -> (r: Adjustments)
    ensures
        r == spec_shadow_version(a, strength),
{
    Adjustments {
        grade: Grade {
            // 0.18, 0.5
            shadow_lift: a.grade.shadow_lift.plus(num(0x3e38_51ec).times(strength)).min(num(0x3f00_0000)),
            // 0.12, 0.5
            deep_shadow_lift: a.grade.deep_shadow_lift.plus(num(0x3df5_c28f).times(strength)).min(num(0x3f00_0000)),
            ..a.grade
        },
        ..*a
    }
}

pub open spec fn spec_highlight_version(a: &Adjustments, strength: Single) -> Adjustments {
    Adjustments {
        grade: Grade {
            // 0.1, 0.6
            light_ratio: a.grade.light_ratio.plus(num(0x3dcc_cccd).times(strength)).min(num(0x3f19_999a)),
            // 0.06, 0.4
            film_curve: a.grade.film_curve.plus(num(0x3d75_c28f).times(strength)).min(num(0x3ecc_cccd)),
            ..a.grade
        },
        ..*a
    }
}

/// The settings of the version with held highlights.
#[verifier::when_used_as_spec(spec_highlight_version)]
pub fn highlight_version(a: &Adjustments, strength: Single) -> (r: Adjustments)
    ensures
        r == spec_highlight_version(a, strength),
{
    Adjustments {
        grade: Grade {
            // 0.1, 0.6
            light_ratio: a.grade.light_ratio.plus(num(0x3dcc_cccd).times(strength)).min(num(0x3f19_999a)),
            // 0.06, 0.4
            film_curve: a.grade.film_curve.plus(num(0x3d75_c28f).times(strength)).min(num(0x3ecc_cccd)),
            ..a.grade
        },
        ..*a
    }
}

pub open spec fn spec_luma(red: u8, green: u8, blue: u8) -> Single {
    // 0.2126, 0.7152, 0.0722, 255
    num(0x3e59_b3d0).times(of_byte(red)).plus(num(0x3f37_1759).times(of_byte(green))).plus(num(0x3d93_dd98).times(of_byte(blue))).over(num(0x437f_0000))
}

/// Brightness of a pixel, 0 to 1.
#[verifier::when_used_as_spec(spec_luma)]
pub fn luma(red: u8, green: u8, blue: u8) -> (r: Single)
    ensures
        r == spec_luma(red, green, blue),
{
    // 0.2126, 0.7152, 0.0722, 255
    num(0x3e59_b3d0).times(of_byte(red)).plus(num(0x3f37_1759).times(of_byte(green))).plus(num(0x3d93_dd98).times(of_byte(blue))).over(num(0x437f_0000))
}

/// One byte of the three versions, weighted by brightness.
pub open spec fn zone_byte(l: Single, s: u8, g: u8, h: u8) -> int {
    let w = spec_zone_weights(l);
    w.0.times(spec_of_byte(s)).plus(w.1.times(spec_of_byte(g))).plus(w.2.times(spec_of_byte(h))).round().truncated(0, 255)
}

/// Brightness of pixel `k` in rows of bytes.
pub open spec fn luma_at(data: Seq<u8>, k: int) -> Single {
    spec_luma(data[3 * k], data[3 * k + 1], data[3 * k + 2])
}

fn zone_value(w: (Single, Single, Single), s: u8, g: u8, h: u8, Ghost(l): Ghost<Single>) -> (r: u8)
    requires
        w == spec_zone_weights(l),
    ensures
        r == zone_byte(l, s, g, h),
{
    w.0.times(of_byte(s)).plus(w.1.times(of_byte(g))).plus(w.2.times(of_byte(h))).round().to_u8()
}

/// Blends the plain version, the one with lifted shadows and the one with held highlights by
/// the brightness of the original.
pub fn zone_blend(plain: &RgbImage, shadows: &RgbImage, highlights: &RgbImage, orig: &RgbImage) -> (r:
    RgbImage)
    requires
        plain.wf(),
        shadows.data@.len() == plain.data@.len(),
        highlights.data@.len() == plain.data@.len(),
        orig.data@.len() == plain.data@.len(),
    ensures
        r.wf(),
        r.width == plain.width,
        r.height == plain.height,
        forall|i: int|
            0 <= i < r.data@.len() ==> #[trigger] r.data@[i] == zone_byte(
                luma_at(orig.data@, i / 3),
                shadows.data@[i],
                plain.data@[i],
                highlights.data@[i],
            ),
{
    let mut data: Vec<u8> = Vec::new();
    let n: usize = plain.data.len() / 3;
    let mut k: usize = 0;
    while k < n
        invariant
            k <= n,
            plain.data@.len() == 3 * n,
            shadows.data@.len() == plain.data@.len(),
            highlights.data@.len() == plain.data@.len(),
            orig.data@.len() == plain.data@.len(),
            data@.len() == 3 * k,
            forall|i: int|
                0 <= i < 3 * k ==> #[trigger] data@[i] == zone_byte(
                    luma_at(orig.data@, i / 3),
                    shadows.data@[i],
                    plain.data@[i],
                    highlights.data@[i],
                ),
        decreases n - k,
    {
        let size: usize = plain.data.len();
        let l: Single = luma(orig.data[3 * k], orig.data[3 * k + 1], orig.data[3 * k + 2]);
        assert(l == luma_at(orig.data@, k as int));
        let w: (Single, Single, Single) = zone_weights(l);
        let i: usize = 3 * k;
        data.push(zone_value(w, shadows.data[i], plain.data[i], highlights.data[i], Ghost(l)));
        data.push(
            zone_value(w, shadows.data[i + 1], plain.data[i + 1], highlights.data[i + 1], Ghost(l)),
        );
        data.push(
            zone_value(w, shadows.data[i + 2], plain.data[i + 2], highlights.data[i + 2], Ghost(l)),
        );
        k = k + 1;
    }
    RgbImage { width: plain.width, height: plain.height, data }
}

} // verus!
