//! The development of one pixel: light first, then colour.
//!
//! Light is linear red, green and blue; colour is lightness, chroma and hue. A caller converts
//! between them and computes powers, logarithms and the like. Which stage comes next, what it
//! needs and what it does stands here.

use crate::color_engine::{apply_color_correction, green_exponent, sky_exponent};
use crate::lch::{law_turned_hue_stays, lemma_smoothstep_is_bounded, of_byte, positive_degrees};
use crate::lch::{shorter_way, smoothstep, wrap_degrees, Lch};
use crate::pipeline::{
    Adjustments, ColorGrade, DefakeColor, Grade, HslRegions, SkinTone, ToneMapMode, WhiteBalance,
    ZoneGrade,
};
use crate::single::{law_negation_is_opposite, law_one_is_neutral, law_order_is_numeric};
use crate::single::{law_product_commutes, law_products_keep_order, law_small_differences_are_exact};
use crate::single::{law_small_integers_are_exact, law_small_integers_are_whole};
use crate::single::{law_sums_keep_order, law_zero_becomes_zero, law_zero_is_neutral};
use crate::single::{law_zero_times_is_zero, lemma_no_integer, lemma_one, lemma_small_sum};
use crate::single::{lemma_quotient_is_a_number, lemma_zero_remainder, num, Single, INFINITY};
use vstd::prelude::*;

verus! {

/// Linear light of one pixel.
#[derive(Clone, Copy, Debug, PartialEq, Eq, Structural)]
pub struct Light {
    pub r: Single,
    pub g: Single,
    pub b: Single,
}

pub open spec fn spec_scale_light(p: Light, k: Single) -> Light {
    Light { r: p.r.times(k), g: p.g.times(k), b: p.b.times(k) }
}

/// All channels scaled by one factor.
#[verifier::when_used_as_spec(spec_scale_light)]
pub fn scale_light(p: Light, k: Single) -> (r: Light)
    ensures
        r == spec_scale_light(p, k),
{
    Light { r: p.r.times(k), g: p.g.times(k), b: p.b.times(k) }
}

pub open spec fn spec_apply_white_balance(p: Light, wb: &WhiteBalance) -> Light {
    if wb.temp.same(num(0)) && wb.tint.same(num(0)) {
        p
    } else {
        Light {
            r: p.r.times(num(0x3f80_0000).plus(wb.temp.times(num(0x3e4c_cccd)))),  // 1, 0.2
            g: p.g.times(num(0x3f80_0000).minus(wb.tint.times(num(0x3e19_999a)))),  // 1, 0.15
            b: p.b.times(num(0x3f80_0000).minus(wb.temp.times(num(0x3e4c_cccd)))),  // 1, 0.2
        }
    }
}

/// White balance: warmth raises red and lowers blue, magenta lowers green.
#[verifier::when_used_as_spec(spec_apply_white_balance)]
pub fn apply_white_balance(p: Light, wb: &WhiteBalance) -> (r: Light)
    ensures
        r == spec_apply_white_balance(p, wb),
{
    if wb.temp.same(num(0)) && wb.tint.same(num(0)) {
        p
    } else {
        Light {
            r: p.r.times(num(0x3f80_0000).plus(wb.temp.times(num(0x3e4c_cccd)))),  // 1, 0.2
            g: p.g.times(num(0x3f80_0000).minus(wb.tint.times(num(0x3e19_999a)))),  // 1, 0.15
            b: p.b.times(num(0x3f80_0000).minus(wb.temp.times(num(0x3e4c_cccd)))),  // 1, 0.2
        }
    }
}

pub open spec fn spec_light_luma(p: Light) -> Single {
    // 0.2126, 0.7152, 0.0722
    num(0x3e59_b3d0).times(p.r).plus(num(0x3f37_1759).times(p.g)).plus(num(0x3d93_dd98).times(p.b))
}

/// Brightness of light.
#[verifier::when_used_as_spec(spec_light_luma)]
pub fn light_luma(p: Light) -> (r: Single)
    ensures
        r == spec_light_luma(p),
{
    // 0.2126, 0.7152, 0.0722
    num(0x3e59_b3d0).times(p.r).plus(num(0x3f37_1759).times(p.g)).plus(num(0x3d93_dd98).times(p.b))
}

pub open spec fn spec_rolloff_at(mode: ToneMapMode, exposure: Single, p: Light) -> Option<Single> {
    let l: Single = light_luma(p);
    // 1, 0.7
    if mode == ToneMapMode::Off && exposure.gt(num(0x3f80_0000)) && l.gt(num(0x3f33_3333)) {
        // 0.7, 1, 0.7
        Some(l.minus(num(0x3f33_3333)).over(num(0x3f80_0000).minus(num(0x3f33_3333))))
    } else {
        None
    }
}

/// Where the roll-off of highlights is taken: tanh of this. There is one where no tone map is
/// set, the exposure is raised and the pixel is brighter than 0.7.
#[verifier::when_used_as_spec(spec_rolloff_at)]
pub fn rolloff_at(mode: ToneMapMode, exposure: Single, p: Light) -> (r: Option<Single>)
    ensures
        r == spec_rolloff_at(mode, exposure, p),
{
    let l: Single = light_luma(p);
    // 1, 0.7
    if mode == ToneMapMode::Off && exposure.gt(num(0x3f80_0000)) && l.gt(num(0x3f33_3333)) {
        // 0.7, 1, 0.7
        Some(l.minus(num(0x3f33_3333)).over(num(0x3f80_0000).minus(num(0x3f33_3333))))
    } else {
        None
    }
}

pub open spec fn spec_roll_off(p: Light, bend: Single) -> Light {
    let l: Single = light_luma(p);
    // 0.7, 1, 0.7
    let rolled: Single = num(0x3f33_3333).plus(num(0x3f80_0000).minus(num(0x3f33_3333)).times(bend));
    scale_light(p, rolled.over(l))
}

/// Highlights rolled off: all channels by one factor, so that the hue stays. `bend` is tanh of
/// `rolloff_at`.
#[verifier::when_used_as_spec(spec_roll_off)]
pub fn roll_off(p: Light, bend: Single) -> (r: Light)
    ensures
        r == spec_roll_off(p, bend),
{
    let l: Single = light_luma(p);
    // 0.7, 1, 0.7
    let rolled: Single = num(0x3f33_3333).plus(num(0x3f80_0000).minus(num(0x3f33_3333)).times(bend));
    scale_light(p, rolled.over(l))
}

/// What the tone of a pixel's light needs from outside.
#[derive(Clone, Copy, Debug, PartialEq, Eq, Structural)]
pub enum LightAsk {
    /// The light through the curve of the tone map.
    Curve(ToneMapMode),
    /// tanh of this, in all channels.
    Tanh(Single),
    /// The light stays as it is.
    Done,
}

/// The light before its tone: exposure first, then white balance.
pub open spec fn balanced_light(p: Light, exposure: Single, wb: WhiteBalance) -> Light {
    spec_apply_white_balance(spec_scale_light(p, exposure), &wb)
}

/// Begins the development of light: exposure, then white balance.
pub fn begin_light(p: Light, exposure: Single, adj: &Adjustments) -> (r: Light)
    ensures
        r == balanced_light(p, exposure, adj.white_balance),
{
    apply_white_balance(scale_light(p, exposure), &adj.white_balance)
}

/// What comes after white balance: the curve of a tone map that is set, else the roll-off where
/// there is one.
pub open spec fn light_asked(p: Light, exposure: Single, mode: ToneMapMode) -> LightAsk {
    if mode != ToneMapMode::Off {
        LightAsk::Curve(mode)
    } else {
        match spec_rolloff_at(mode, exposure, p) {
            Some(x) => LightAsk::Tanh(x),
            None => LightAsk::Done,
        }
    }
}

/// Says what balanced light needs for its tone.
pub fn ask_light(p: Light, exposure: Single, adj: &Adjustments) -> (r: LightAsk)
    ensures
        r == light_asked(p, exposure, adj.tone_map),
{
    match adj.tone_map {
        ToneMapMode::Off => match rolloff_at(adj.tone_map, exposure, p) {
            Some(x) => LightAsk::Tanh(x),
            None => LightAsk::Done,
        },
        mode => LightAsk::Curve(mode),
    }
}

/// Light with its tone; `a` is what was asked for.
pub open spec fn toned_light(p: Light, ask: LightAsk, a: Light) -> Light {
    match ask {
        LightAsk::Curve(_) => a,
        LightAsk::Tanh(_) => spec_roll_off(p, a.r),
        LightAsk::Done => p,
    }
}

/// Ends the development of light.
pub fn finish_light(p: Light, ask: &LightAsk, a: Light) -> (r: Light)
    ensures
        r == toned_light(p, *ask, a),
{
    match ask {
        LightAsk::Curve(_) => a,
        LightAsk::Tanh(_) => roll_off(p, a.r),
        LightAsk::Done => p,
    }
}

/// The stages of a picture.
#[derive(Clone, Copy, Debug, PartialEq, Eq, Structural)]
pub enum PictureStage {
    Geometry,
    Develop,
    Detail,
    Advanced,
    Mix,
    End,
}

/// The first stage of a picture from `s` on that does something. Development and the mix with
/// the picture before it always take place.
pub open spec fn picture_stage_from(s: PictureStage, adj: Adjustments) -> PictureStage {
    let advanced = if adj.advanced.spec_is_identity() {
        PictureStage::Mix
    } else {
        PictureStage::Advanced
    };
    match s {
        PictureStage::Geometry => if adj.geometry.spec_is_identity() {
            PictureStage::Develop
        } else {
            PictureStage::Geometry
        },
        PictureStage::Detail => if adj.detail.spec_is_identity() {
            advanced
        } else {
            PictureStage::Detail
        },
        PictureStage::Advanced => advanced,
        same => same,
    }
}

fn find_picture_stage(s: PictureStage, adj: &Adjustments) -> (r: PictureStage)
    ensures
        r == picture_stage_from(s, *adj),
{
    let advanced: PictureStage = if adj.advanced.is_identity() {
        PictureStage::Mix
    } else {
        PictureStage::Advanced
    };
    match s {
        PictureStage::Geometry => if adj.geometry.is_identity() {
            PictureStage::Develop
        } else {
            PictureStage::Geometry
        },
        PictureStage::Detail => if adj.detail.is_identity() {
            advanced
        } else {
            PictureStage::Detail
        },
        PictureStage::Advanced => advanced,
        same => same,
    }
}

/// The first stage of a picture.
pub fn first_stage(adj: &Adjustments) -> (r: PictureStage)
    ensures
        r == picture_stage_from(PictureStage::Geometry, *adj),
{
    find_picture_stage(PictureStage::Geometry, adj)
}

/// The stage of a picture after `s`: geometry, development, detail, skin and tone of the
/// finished picture, mix.
pub open spec fn stage_after(s: PictureStage, adj: Adjustments) -> PictureStage {
    match s {
        PictureStage::Geometry => PictureStage::Develop,
        PictureStage::Develop => picture_stage_from(PictureStage::Detail, adj),
        PictureStage::Detail => picture_stage_from(PictureStage::Advanced, adj),
        PictureStage::Advanced => PictureStage::Mix,
        PictureStage::Mix => PictureStage::End,
        PictureStage::End => PictureStage::End,
    }
}

/// Says which stage of a picture comes after `s`.
pub fn next_stage(s: PictureStage, adj: &Adjustments) -> (r: PictureStage)
    ensures
        r == stage_after(s, *adj),
{
    match s {
        PictureStage::Geometry => PictureStage::Develop,
        PictureStage::Develop => find_picture_stage(PictureStage::Detail, adj),
        PictureStage::Detail => find_picture_stage(PictureStage::Advanced, adj),
        PictureStage::Advanced => PictureStage::Mix,
        PictureStage::Mix => PictureStage::End,
        PictureStage::End => PictureStage::End,
    }
}

/// The place of a stage in the order of stages.
pub open spec fn stage_rank(s: PictureStage) -> nat {
    match s {
        PictureStage::Geometry => 0,
        PictureStage::Develop => 1,
        PictureStage::Detail => 2,
        PictureStage::Advanced => 3,
        PictureStage::Mix => 4,
        PictureStage::End => 5,
    }
}

/// Stages of a picture come in one order and come to an end; none comes whose settings do
/// nothing, and development and mix are never left out.
pub proof fn law_picture_stages_come_in_order(s: PictureStage, adj: Adjustments)
    ensures
        s != PictureStage::End ==> stage_rank(s) < stage_rank(stage_after(s, adj)),
        s != PictureStage::Geometry ==> stage_after(s, adj) != PictureStage::Geometry,
        stage_after(s, adj) == PictureStage::Detail ==> !adj.detail.spec_is_identity(),
        stage_after(s, adj) == PictureStage::Advanced ==> !adj.advanced.spec_is_identity(),
        stage_rank(s) < 1 ==> stage_after(s, adj) == PictureStage::Develop,
        stage_rank(s) < 4 ==> stage_rank(stage_after(s, adj)) <= 4,
        stage_rank(picture_stage_from(PictureStage::Geometry, adj)) <= 1,
{
}

/// Neutral settings need no outside tone, and leave light as it is but for the exposure.
pub proof fn law_neutral_settings_keep_light(p: Light)
    requires
        !p.r.is_nan(),
        !p.g.is_nan(),
        !p.b.is_nan(),
    ensures
        ({
            let one = num(0x3f80_0000);
            let adj = Adjustments::spec_default();
            &&& balanced_light(p, one, adj.white_balance) == p
            &&& light_asked(p, one, adj.tone_map) == LightAsk::Done
        }),
{
    law_one_is_neutral(p.r);
    law_one_is_neutral(p.g);
    law_one_is_neutral(p.b);
}

pub open spec fn spec_tamed_chroma(p: Lch, d: &DefakeColor) -> Single {
    let h: Single = positive_degrees(p.h);
    let hi: Single = smoothstep(num(0x3f19_999a), num(0x3f80_0000), p.l);  // 0.6, 1
    let lo: Single = num(0x3f80_0000).minus(smoothstep(num(0), num(0x3e38_51ec), p.l));  // 1, 0.18
    let faded: Single = if d.chroma_decay.gt(num(0)) {
        p.c.times(num(0x3f80_0000).minus(d.chroma_decay.times(hi.max(lo))))  // 1
    } else {
        p.c
    };
    let x: Single = num(0x4000_0000).times(p.l).minus(num(0x3f80_0000));  // 2, 1
    // 0.16, 1, 0.06
    let plausible: Single = num(0x3e23_d70a).times(num(0x3f80_0000).minus(x.times(x)).max(num(0))).plus(num(0x3d75_c28f));
    let knee: Single = if d.chroma_decay.gt(num(0)) && faded.gt(plausible) {
        // 1, 0.5
        plausible.plus(faded.minus(plausible).times(num(0x3f80_0000).minus(num(0x3f00_0000).times(d.chroma_decay))))
    } else {
        faded
    };
    // 210, 240, 0.13
    let sky: Single = if d.fix_sky && h.ge(num(0x4352_0000)) && h.le(num(0x4370_0000))
        && knee.gt(num(0x3e05_1eb8)) {
        // 0.13, 0.13, 0.3
        num(0x3e05_1eb8).plus(knee.minus(num(0x3e05_1eb8)).times(num(0x3e99_999a)))
    } else {
        knee
    };
    // 20, 45, 0.11
    let skin: Single = if d.protect_skin && h.ge(num(0x41a0_0000)) && h.le(num(0x4234_0000))
        && sky.gt(num(0x3de1_47ae)) {
        // 0.11, 0.11, 0.4
        num(0x3de1_47ae).plus(sky.minus(num(0x3de1_47ae)).times(num(0x3ecc_cccd)))
    } else {
        sky
    };
    skin.max(num(0))
}

/// Chroma after taming: faded in highlights and deep shadows, drawn back where it is implausible
/// for the lightness, and limited in the hues of sky and skin.
#[verifier::when_used_as_spec(spec_tamed_chroma)]
pub fn tamed_chroma(p: Lch, d: &DefakeColor) -> (r: Single)
    ensures
        r == spec_tamed_chroma(p, d),
{
    let h: Single = positive_degrees(p.h);
    let hi: Single = smoothstep(num(0x3f19_999a), num(0x3f80_0000), p.l);  // 0.6, 1
    let lo: Single = num(0x3f80_0000).minus(smoothstep(num(0), num(0x3e38_51ec), p.l));  // 1, 0.18
    let faded: Single = if d.chroma_decay.gt(num(0)) {
        p.c.times(num(0x3f80_0000).minus(d.chroma_decay.times(hi.max(lo))))  // 1
    } else {
        p.c
    };
    let x: Single = num(0x4000_0000).times(p.l).minus(num(0x3f80_0000));  // 2, 1
    // 0.16, 1, 0.06
    let plausible: Single = num(0x3e23_d70a).times(num(0x3f80_0000).minus(x.times(x)).max(num(0))).plus(num(0x3d75_c28f));
    let knee: Single = if d.chroma_decay.gt(num(0)) && faded.gt(plausible) {
        // 1, 0.5
        plausible.plus(faded.minus(plausible).times(num(0x3f80_0000).minus(num(0x3f00_0000).times(d.chroma_decay))))
    } else {
        faded
    };
    // 210, 240, 0.13
    let sky: Single = if d.fix_sky && h.ge(num(0x4352_0000)) && h.le(num(0x4370_0000))
        && knee.gt(num(0x3e05_1eb8)) {
        // 0.13, 0.13, 0.3
        num(0x3e05_1eb8).plus(knee.minus(num(0x3e05_1eb8)).times(num(0x3e99_999a)))
    } else {
        knee
    };
    // 20, 45, 0.11
    let skin: Single = if d.protect_skin && h.ge(num(0x41a0_0000)) && h.le(num(0x4234_0000))
        && sky.gt(num(0x3de1_47ae)) {
        // 0.11, 0.11, 0.4
        num(0x3de1_47ae).plus(sky.minus(num(0x3de1_47ae)).times(num(0x3ecc_cccd)))
    } else {
        sky
    };
    skin.max(num(0))
}

pub open spec fn spec_apply_defake(p: Lch, d: &DefakeColor) -> Lch {
    if d.enabled {
        Lch { l: p.l, c: tamed_chroma(p, d), h: p.h }
    } else {
        p
    }
}

/// Taming of implausible colour, where it is on.
#[verifier::when_used_as_spec(spec_apply_defake)]
pub fn apply_defake(p: Lch, d: &DefakeColor) -> (r: Lch)
    ensures
        r == spec_apply_defake(p, d),
{
    if d.enabled {
        Lch { l: p.l, c: tamed_chroma(p, d), h: p.h }
    } else {
        p
    }
}

pub open spec fn spec_taper_at(l: Single) -> Single {
    num(0x4000_0000).times(l).minus(num(0x3f80_0000)).abs()  // 2, 1
}

/// Where the taper of saturation is taken: this to the power of 1.5.
#[verifier::when_used_as_spec(spec_taper_at)]
pub fn taper_at(l: Single) -> (r: Single)
    ensures
        r == spec_taper_at(l),
{
    num(0x4000_0000).times(l).minus(num(0x3f80_0000)).abs()  // 2, 1
}

pub open spec fn spec_apply_color_grade(p: Lch, cg: &ColorGrade, taper: Single) -> Lch {
    // 0.5, 0.5, 1
    let zone: Single = num(0x3f00_0000).plus(num(0x3f00_0000).times(num(0x3f80_0000).minus(taper)));
    let mult: Single = if cg.saturation.ge(num(0x3f80_0000)) {  // 1
        num(0x3f80_0000).plus(cg.saturation.minus(num(0x3f80_0000)).times(zone))  // 1, 1
    } else {
        num(0x3f80_0000).minus(num(0x3f80_0000).minus(cg.saturation).times(zone))  // 1, 1
    };
    let c1: Single = p.c.times(mult);
    // 1, 0.3, 1
    let low: Single = num(0x3f80_0000).minus(c1.over(num(0x3e99_999a)).clamp(num(0), num(0x3f80_0000)));
    let c2: Single = if !cg.vibrance.same(num(0)) {
        c1.times(num(0x3f80_0000).plus(cg.vibrance.times(low).times(zone)))  // 1
    } else {
        c1
    };
    let sh_w: Single = num(0x3f80_0000).minus(smoothstep(num(0), num(0x3f00_0000), p.l));  // 1, 0.5
    let hi_w: Single = smoothstep(num(0x3f00_0000), num(0x3f80_0000), p.l);  // 0.5, 1
    let turned: Single = positive_degrees(p.h).plus(cg.hue_rotate).plus(cg.split_shadow.times(sh_w).plus(cg.split_highlight.times(hi_w)));
    Lch {
        l: p.l,
        c: c2.max(num(0)),
        h: if c2.gt(num(0x3a83_126f)) {  // 0.001
            wrap_degrees(turned)
        } else {
            p.h
        },
    }
}

/// Saturation, vibrance, rotation of hues and split toning. Saturation and vibrance count full
/// in the midtones and half at the ends; `taper` is `taper_at` to the power of 1.5. Greys have
/// no hue to turn.
#[verifier::when_used_as_spec(spec_apply_color_grade)]
pub fn apply_color_grade(p: Lch, cg: &ColorGrade, taper: Single) -> (r: Lch)
    ensures
        r == spec_apply_color_grade(p, cg, taper),
{
    // 0.5, 0.5, 1
    let zone: Single = num(0x3f00_0000).plus(num(0x3f00_0000).times(num(0x3f80_0000).minus(taper)));
    let mult: Single = if cg.saturation.ge(num(0x3f80_0000)) {  // 1
        num(0x3f80_0000).plus(cg.saturation.minus(num(0x3f80_0000)).times(zone))  // 1, 1
    } else {
        num(0x3f80_0000).minus(num(0x3f80_0000).minus(cg.saturation).times(zone))  // 1, 1
    };
    let c1: Single = p.c.times(mult);
    // 1, 0.3, 1
    let low: Single = num(0x3f80_0000).minus(c1.over(num(0x3e99_999a)).clamp(num(0), num(0x3f80_0000)));
    let c2: Single = if !cg.vibrance.same(num(0)) {
        c1.times(num(0x3f80_0000).plus(cg.vibrance.times(low).times(zone)))  // 1
    } else {
        c1
    };
    let sh_w: Single = num(0x3f80_0000).minus(smoothstep(num(0), num(0x3f00_0000), p.l));  // 1, 0.5
    let hi_w: Single = smoothstep(num(0x3f00_0000), num(0x3f80_0000), p.l);  // 0.5, 1
    let turned: Single = positive_degrees(p.h).plus(cg.hue_rotate).plus(cg.split_shadow.times(sh_w).plus(cg.split_highlight.times(hi_w)));
    Lch {
        l: p.l,
        c: c2.max(num(0)),
        h: if c2.gt(num(0x3a83_126f)) {  // 0.001
            wrap_degrees(turned)
        } else {
            p.h
        },
    }
}

pub open spec fn spec_grade_active(g: &Grade) -> bool {
    g.brightness_lift.gt(num(0)) || !g.contrast.same(num(0)) || g.dehaze.gt(num(0))
        || g.shadow_lift.gt(num(0)) || g.deep_shadow_lift.gt(num(0))
        || !g.film_curve.same(num(0)) || !g.light_ratio.same(num(0))
}

/// Any setting of the grade does something.
#[verifier::when_used_as_spec(spec_grade_active)]
pub fn grade_active(g: &Grade) -> (r: bool)
    ensures
        r == spec_grade_active(g),
{
    g.brightness_lift.gt(num(0)) || !g.contrast.same(num(0)) || g.dehaze.gt(num(0))
        || g.shadow_lift.gt(num(0)) || g.deep_shadow_lift.gt(num(0))
        || !g.film_curve.same(num(0)) || !g.light_ratio.same(num(0))
}

pub open spec fn spec_lift_light(l: Single, g: &Grade, k: Single) -> Single {
    if g.brightness_lift.gt(num(0)) {
        num(0x3f80_0000).minus(num(0x3f80_0000).minus(l).times(k))  // 1, 1
    } else {
        l
    }
}

/// Soft lift that keeps highlights. `k` is 2 to the power of the lift with its sign turned.
#[verifier::when_used_as_spec(spec_lift_light)]
pub fn lift_light(l: Single, g: &Grade, k: Single) -> (r: Single)
    ensures
        r == spec_lift_light(l, g, k),
{
    if g.brightness_lift.gt(num(0)) {
        num(0x3f80_0000).minus(num(0x3f80_0000).minus(l).times(k))  // 1, 1
    } else {
        l
    }
}

pub open spec fn spec_add_contrast(l: Single, g: &Grade, pivot: Single) -> Single {
    let k: Single = if l.ge(pivot) {
        g.contrast.negated().times(num(0x3e19_999a))  // 0.15
    } else {
        g.contrast
    };
    if !g.contrast.same(num(0)) {
        pivot.plus(l.minus(pivot).times(num(0x3f80_0000).plus(k)))  // 1
    } else {
        l
    }
}

/// Contrast around the mean: full below it, slightly turned round above it.
#[verifier::when_used_as_spec(spec_add_contrast)]
pub fn add_contrast(l: Single, g: &Grade, pivot: Single) -> (r: Single)
    ensures
        r == spec_add_contrast(l, g, pivot),
{
    let k: Single = if l.ge(pivot) {
        g.contrast.negated().times(num(0x3e19_999a))  // 0.15
    } else {
        g.contrast
    };
    if !g.contrast.same(num(0)) {
        pivot.plus(l.minus(pivot).times(num(0x3f80_0000).plus(k)))  // 1
    } else {
        l
    }
}

pub open spec fn spec_dehaze_light(l: Single, g: &Grade, pivot: Single) -> Single {
    let sign: Single = if l.gt(pivot) {
        num(0x3f80_0000)  // 1
    } else {
        num(0xbf80_0000)  // -1
    };
    let most: Single = if pivot.gt(num(0x3f00_0000)) {  // 0.5
        pivot
    } else {
        num(0x3f80_0000).minus(pivot)  // 1
    };
    let d: Single = l.minus(pivot).abs();
    let k: Single = if l.ge(pivot) {
        g.dehaze.negated().times(num(0x3e19_999a))  // 0.15
    } else {
        g.dehaze
    };
    // 1, 2
    let new_d: Single = d.plus(k.times(d).times(num(0x3f80_0000).minus(d)).times(num(0x4000_0000)));
    if g.dehaze.gt(num(0)) {
        pivot.plus(sign.times(new_d.clamp(num(0), most)))
    } else {
        l
    }
}

/// Separation of the midtones around the mean.
#[verifier::when_used_as_spec(spec_dehaze_light)]
pub fn dehaze_light(l: Single, g: &Grade, pivot: Single) -> (r: Single)
    ensures
        r == spec_dehaze_light(l, g, pivot),
{
    let sign: Single = if l.gt(pivot) {
        num(0x3f80_0000)  // 1
    } else {
        num(0xbf80_0000)  // -1
    };
    let most: Single = if pivot.gt(num(0x3f00_0000)) {  // 0.5
        pivot
    } else {
        num(0x3f80_0000).minus(pivot)  // 1
    };
    let d: Single = l.minus(pivot).abs();
    let k: Single = if l.ge(pivot) {
        g.dehaze.negated().times(num(0x3e19_999a))  // 0.15
    } else {
        g.dehaze
    };
    // 1, 2
    let new_d: Single = d.plus(k.times(d).times(num(0x3f80_0000).minus(d)).times(num(0x4000_0000)));
    if g.dehaze.gt(num(0)) {
        pivot.plus(sign.times(new_d.clamp(num(0), most)))
    } else {
        l
    }
}

pub open spec fn spec_film_light(l: Single, g: &Grade) -> Single {
    let d: Single = l.minus(num(0x3f00_0000));  // 0.5
    if !g.film_curve.same(num(0)) {
        // 1, 4, 1
        l.plus(g.film_curve.times(d).times(num(0x3f80_0000).minus(num(0x4080_0000).times(d).times(d)))).clamp(num(0), num(0x3f80_0000))
    } else {
        l
    }
}

/// A film-like curve that keeps black, middle grey and white.
#[verifier::when_used_as_spec(spec_film_light)]
pub fn film_light(l: Single, g: &Grade) -> (r: Single)
    ensures
        r == spec_film_light(l, g),
{
    let d: Single = l.minus(num(0x3f00_0000));  // 0.5
    if !g.film_curve.same(num(0)) {
        // 1, 4, 1
        l.plus(g.film_curve.times(d).times(num(0x3f80_0000).minus(num(0x4080_0000).times(d).times(d)))).clamp(num(0), num(0x3f80_0000))
    } else {
        l
    }
}

pub open spec fn spec_ratio_light(l: Single, g: &Grade, pivot: Single) -> Single {
    let d: Single = l.minus(pivot);
    // 0.5, -1, 1
    let x: Single = d.over(num(0x3f00_0000)).clamp(num(0xbf80_0000), num(0x3f80_0000));
    if !g.light_ratio.same(num(0)) {
        // 1, 1, 1
        pivot.plus(d.times(num(0x3f80_0000).plus(g.light_ratio.times(num(0x3f80_0000).minus(x.times(x)))))).clamp(num(0), num(0x3f80_0000))
    } else {
        l
    }
}

/// The light ratio around the mean, eased off away from it.
#[verifier::when_used_as_spec(spec_ratio_light)]
pub fn ratio_light(l: Single, g: &Grade, pivot: Single) -> (r: Single)
    ensures
        r == spec_ratio_light(l, g, pivot),
{
    let d: Single = l.minus(pivot);
    // 0.5, -1, 1
    let x: Single = d.over(num(0x3f00_0000)).clamp(num(0xbf80_0000), num(0x3f80_0000));
    if !g.light_ratio.same(num(0)) {
        // 1, 1, 1
        pivot.plus(d.times(num(0x3f80_0000).plus(g.light_ratio.times(num(0x3f80_0000).minus(x.times(x)))))).clamp(num(0), num(0x3f80_0000))
    } else {
        l
    }
}

pub open spec fn spec_lift_dark(l: Single, lift: Single, top: Single) -> Single {
    let floor: Single = smoothstep(num(0x3cf5_c28f), num(0x3dcc_cccd), l);  // 0.03, 0.1
    let x: Single = num(0x3f80_0000).minus(l.over(top));  // 1
    let w: Single = if l.lt(top) {
        x.times(x)
    } else {
        num(0)
    };
    if lift.gt(num(0)) {
        l.plus(lift.times(w).times(floor))
    } else {
        l
    }
}

/// Lift of what is darker than `top`. True black stays.
#[verifier::when_used_as_spec(spec_lift_dark)]
pub fn lift_dark(l: Single, lift: Single, top: Single) -> (r: Single)
    ensures
        r == spec_lift_dark(l, lift, top),
{
    let floor: Single = smoothstep(num(0x3cf5_c28f), num(0x3dcc_cccd), l);  // 0.03, 0.1
    let x: Single = num(0x3f80_0000).minus(l.over(top));  // 1
    let w: Single = if l.lt(top) {
        x.times(x)
    } else {
        num(0)
    };
    if lift.gt(num(0)) {
        l.plus(lift.times(w).times(floor))
    } else {
        l
    }
}

pub open spec fn spec_hold_highlights(l: Single, g: &Grade) -> Single {
    let t: Single = l.minus(num(0x3f66_6666)).over(num(0x3dcc_cccd));  // 0.9, 0.1
    if grade_active(g) && l.gt(num(0x3f66_6666)) {  // 0.9
        // 0.9, 0.08, 1, 1, 1
        num(0x3f66_6666).plus(num(0x3da3_d70a).times(num(0x3f80_0000).minus(num(0x3f80_0000).minus(t).times(num(0x3f80_0000).minus(t)))))
    } else {
        l
    }
}

/// Highlights above 0.9 rolled off towards 0.98, where the grade does anything.
#[verifier::when_used_as_spec(spec_hold_highlights)]
pub fn hold_highlights(l: Single, g: &Grade) -> (r: Single)
    ensures
        r == spec_hold_highlights(l, g),
{
    let t: Single = l.minus(num(0x3f66_6666)).over(num(0x3dcc_cccd));  // 0.9, 0.1
    if grade_active(g) && l.gt(num(0x3f66_6666)) {  // 0.9
        // 0.9, 0.08, 1, 1, 1
        num(0x3f66_6666).plus(num(0x3da3_d70a).times(num(0x3f80_0000).minus(num(0x3f80_0000).minus(t).times(num(0x3f80_0000).minus(t)))))
    } else {
        l
    }
}

pub open spec fn spec_apply_grade(p: Lch, g: &Grade, pivot: Single, k: Single) -> Lch {
    let a: Single = lift_light(p.l, g, k);
    let b: Single = add_contrast(a, g, pivot);
    let c: Single = dehaze_light(b, g, pivot);
    let d: Single = film_light(c, g);
    let e: Single = ratio_light(d, g, pivot);
    let f: Single = lift_dark(e, g.deep_shadow_lift, num(0x3e4c_cccd));  // 0.2
    let h: Single = lift_dark(f, g.shadow_lift, num(0x3e99_999a));  // 0.3
    let i: Single = hold_highlights(h, g);
    Lch { l: i.clamp(num(0), num(0x3f80_0000)), c: p.c, h: p.h }  // 1
}

/// Changes of lightness, around the mean lightness of the picture.
#[verifier::when_used_as_spec(spec_apply_grade)]
pub fn apply_grade(p: Lch, g: &Grade, pivot: Single, k: Single) -> (r: Lch)
    ensures
        r == spec_apply_grade(p, g, pivot, k),
{
    let a: Single = lift_light(p.l, g, k);
    let b: Single = add_contrast(a, g, pivot);
    let c: Single = dehaze_light(b, g, pivot);
    let d: Single = film_light(c, g);
    let e: Single = ratio_light(d, g, pivot);
    let f: Single = lift_dark(e, g.deep_shadow_lift, num(0x3e4c_cccd));  // 0.2
    let h: Single = lift_dark(f, g.shadow_lift, num(0x3e99_999a));  // 0.3
    let i: Single = hold_highlights(h, g);
    Lch { l: i.clamp(num(0), num(0x3f80_0000)), c: p.c, h: p.h }  // 1
}

pub open spec fn spec_needs_pivot(g: &Grade) -> bool {
    !g.contrast.same(num(0)) || g.dehaze.gt(num(0))
}

/// The grade needs the mean lightness of the picture; without it 0.5 does.
#[verifier::when_used_as_spec(spec_needs_pivot)]
pub fn needs_pivot(g: &Grade) -> (r: bool)
    ensures
        r == spec_needs_pivot(g),
{
    !g.contrast.same(num(0)) || g.dehaze.gt(num(0))
}

pub open spec fn spec_band_hue(i: usize) -> Single {
    if i == 0 {
        num(0x41e8_0000)  // 29
    } else if i == 1 {
        num(0x4254_0000)  // 53
    } else if i == 2 {
        num(0x42dc_0000)  // 110
    } else if i == 3 {
        num(0x430e_0000)  // 142
    } else if i == 4 {
        num(0x4343_0000)  // 195
    } else if i == 5 {
        num(0x4384_0000)  // 264
    } else if i == 6 {
        num(0x4393_0000)  // 294
    } else {
        num(0x43a4_0000)  // 328
    }
}

/// The middle of a band of hue, in degrees.
#[verifier::when_used_as_spec(spec_band_hue)]
pub fn band_hue(i: usize) -> (r: Single)
    ensures
        r == spec_band_hue(i),
{
    if i == 0 {
        num(0x41e8_0000)  // 29
    } else if i == 1 {
        num(0x4254_0000)  // 53
    } else if i == 2 {
        num(0x42dc_0000)  // 110
    } else if i == 3 {
        num(0x430e_0000)  // 142
    } else if i == 4 {
        num(0x4343_0000)  // 195
    } else if i == 5 {
        num(0x4384_0000)  // 264
    } else if i == 6 {
        num(0x4393_0000)  // 294
    } else {
        num(0x43a4_0000)  // 328
    }
}

pub open spec fn spec_band_distance(h: Single, i: usize) -> Single {
    let d: Single = h.minus(band_hue(i)).abs();
    if d.gt(num(0x4334_0000)) {  // 180
        num(0x43b4_0000).minus(d)  // 360
    } else {
        d
    }
}

/// Distance of a hue to a band, at most half a turn.
#[verifier::when_used_as_spec(spec_band_distance)]
pub fn band_distance(h: Single, i: usize) -> (r: Single)
    ensures
        r == spec_band_distance(h, i),
{
    let d: Single = h.minus(band_hue(i)).abs();
    if d.gt(num(0x4334_0000)) {  // 180
        num(0x43b4_0000).minus(d)  // 360
    } else {
        d
    }
}

/// The nearest band so far, its distance, the second nearest and its distance.
#[derive(Clone, Copy, Debug, PartialEq, Eq, Structural)]
pub struct Nearest {
    pub first: usize,
    pub d1: Single,
    pub second: usize,
    pub d2: Single,
}

/// The two nearest among the first `k` bands; of equally near ones the earlier.
pub open spec fn nearest_of(h: Single, k: int) -> Nearest
    decreases k,
{
    if k <= 0 {
        Nearest { first: 0, d1: num(0x7f7f_ffff), second: 0, d2: num(0x7f7f_ffff) }  // 3.4028235e+38
    } else {
        let n = nearest_of(h, k - 1);
        let d = spec_band_distance(h, (k - 1) as usize);
        if d.lt(n.d1) {
            Nearest { first: (k - 1) as usize, d1: d, second: n.first, d2: n.d1 }
        } else if d.lt(n.d2) {
            Nearest { first: n.first, d1: n.d1, second: (k - 1) as usize, d2: d }
        } else {
            n
        }
    }
}

/// Finds the two bands nearest to a hue.
pub fn nearest_bands(h: Single) -> (r: Nearest)
    ensures
        r == nearest_of(h, 8),
        r.first < 8,
        r.second < 8,
{
    let mut n: Nearest = Nearest {
        first: 0,
        d1: num(0x7f7f_ffff),  // 3.4028235e+38
        second: 0,
        d2: num(0x7f7f_ffff),  // 3.4028235e+38
    };
    let mut k: usize = 0;
    while k < 8
        invariant
            k <= 8,
            n == nearest_of(h, k as int),
            n.first < 8,
            n.second < 8,
        decreases 8 - k,
    {
        let d: Single = band_distance(h, k);
        if d.lt(n.d1) {
            n = Nearest { first: k, d1: d, second: n.first, d2: n.d1 };
        } else if d.lt(n.d2) {
            n = Nearest { first: n.first, d1: n.d1, second: k, d2: d };
        }
        k = k + 1;
    }
    n
}

/// Bands and their shares for a hue: the two nearest, each the more the nearer it is.
pub open spec fn band_weights(h: Single) -> (usize, Single, usize, Single) {
    let n = nearest_of(h, 8);
    let w = if n.d1.plus(n.d2).gt(num(0)) {
        n.d2.over(n.d1.plus(n.d2))
    } else {
        num(0x3f80_0000)  // 1
    };
    (n.first, w, n.second, num(0x3f80_0000).minus(w))  // 1
}

/// Bands and their shares for a hue.
pub fn hsl_band_weights(h: Single) -> (r: (usize, Single, usize, Single))
    ensures
        r == band_weights(h),
        r.0 < 8,
        r.2 < 8,
{
    let n: Nearest = nearest_bands(h);
    let w: Single = if n.d1.plus(n.d2).gt(num(0)) {
        n.d2.over(n.d1.plus(n.d2))
    } else {
        num(0x3f80_0000)  // 1
    };
    (n.first, w, n.second, num(0x3f80_0000).minus(w))  // 1
}

/// A band is not neutral.
pub open spec fn band_acts(r: HslRegions, i: int) -> bool {
    // 1, 1
    !r.hue_shift[i].same(num(0)) || !r.sat_mult[i].same(num(0x3f80_0000))
        || !r.light_mult[i].same(num(0x3f80_0000))
}

/// Some band is not neutral.
pub open spec fn regions_act(r: HslRegions) -> bool {
    exists|i: int| 0 <= i < 8 && #[trigger] band_acts(r, i)
}

/// Whether some band is not neutral.
pub fn hsl_active(r: &HslRegions) -> (b: bool)
    ensures
        b == regions_act(*r),
{
    let mut i: usize = 0;
    while i < 8
        invariant
            i <= 8,
            forall|j: int| 0 <= j < i ==> !#[trigger] band_acts(*r, j),
        decreases 8 - i,
    {
        // 1, 1
        if !r.hue_shift[i].same(num(0)) || !r.sat_mult[i].same(num(0x3f80_0000))
            || !r.light_mult[i].same(num(0x3f80_0000)) {
            assert(band_acts(*r, i as int));
            return true;
        }
        i = i + 1;
    }
    false
}

/// What the factors of the bands are taken from: exp of `w1` times ln of `s1` plus `w2` times ln
/// of `s2`, and the same with `l1` and `l2`.
#[derive(Clone, Copy, Debug, PartialEq, Eq, Structural)]
pub struct BandAsk {
    pub w1: Single,
    pub w2: Single,
    pub s1: Single,
    pub s2: Single,
    pub l1: Single,
    pub l2: Single,
}

/// What the factors of the bands are taken from, for a colour.
pub open spec fn bands_at(p: Lch, r: HslRegions) -> BandAsk {
    let w = band_weights(positive_degrees(p.h));
    BandAsk {
        w1: w.1,
        w2: w.3,
        s1: r.sat_mult[w.0 as int],
        s2: r.sat_mult[w.2 as int],
        l1: r.light_mult[w.0 as int],
        l2: r.light_mult[w.2 as int],
    }
}

/// The colour with its bands applied; `sat_f` and `light_f` are their factors.
pub open spec fn with_bands(p: Lch, r: HslRegions, sat_f: Single, light_f: Single) -> Lch {
    let h = positive_degrees(p.h);
    let w = band_weights(h);
    let turn = w.1.times(r.hue_shift[w.0 as int]).plus(w.3.times(r.hue_shift[w.2 as int]));
    Lch {
        l: p.l.times(light_f).clamp(num(0), num(0x3f80_0000)),  // 1
        c: p.c.times(sat_f).max(num(0)),
        h: wrap_degrees(h.plus(turn)),
    }
}

/// Applies the bands to a colour.
pub fn apply_hsl_regions(p: &Lch, r: &HslRegions, sat_f: Single, light_f: Single) -> (q: Lch)
    ensures
        q == with_bands(*p, *r, sat_f, light_f),
{
    let h: Single = positive_degrees(p.h);
    let w: (usize, Single, usize, Single) = hsl_band_weights(h);
    let turn: Single = w.1.times(r.hue_shift[w.0]).plus(w.3.times(r.hue_shift[w.2]));
    Lch {
        l: p.l.times(light_f).clamp(num(0), num(0x3f80_0000)),  // 1
        c: p.c.times(sat_f).max(num(0)),
        h: wrap_degrees(h.plus(turn)),
    }
}

pub open spec fn spec_skin_hue_exponent(p: &Lch, smooth: Single) -> Single {
    let d: Single = positive_degrees(p.h).minus(num(0x4204_0000)).abs();  // 33
    let dh: Single = if d.gt(num(0x4334_0000)) {  // 180
        num(0x43b4_0000).minus(d)  // 360
    } else {
        d
    };
    dh.times(dh).negated().over(num(0x4000_0000).times(smooth).times(smooth))  // 2
}

/// Where the closeness of a hue to skin is taken: exp of this.
#[verifier::when_used_as_spec(spec_skin_hue_exponent)]
pub fn skin_hue_exponent(p: &Lch, smooth: Single) -> (r: Single)
    ensures
        r == spec_skin_hue_exponent(p, smooth),
{
    let d: Single = positive_degrees(p.h).minus(num(0x4204_0000)).abs();  // 33
    let dh: Single = if d.gt(num(0x4334_0000)) {  // 180
        num(0x43b4_0000).minus(d)  // 360
    } else {
        d
    };
    dh.times(dh).negated().over(num(0x4000_0000).times(smooth).times(smooth))  // 2
}

pub open spec fn spec_skin_chroma_weight(c: Single) -> Single {
    if c.lt(num(0x3ba3_d70a)) {  // 0.005
        num(0)
    } else if c.gt(num(0x3e4c_cccd)) {  // 0.2
        num(0x3e4c_cccd).over(c).clamp(num(0), num(0x3f80_0000))  // 0.2, 1
    } else {
        let up: Single = smoothstep(num(0x3ba3_d70a), num(0x3d4c_cccd), c);  // 0.005, 0.05
        // 1, 0.13, 0.2
        let down: Single = num(0x3f80_0000).minus(smoothstep(num(0x3e05_1eb8), num(0x3e4c_cccd), c));
        up.times(down).clamp(num(0), num(0x3f80_0000))  // 1
    }
}

/// How much a chroma is that of skin.
#[verifier::when_used_as_spec(spec_skin_chroma_weight)]
pub fn skin_chroma_weight(c: Single) -> (r: Single)
    ensures
        r == spec_skin_chroma_weight(c),
{
    if c.lt(num(0x3ba3_d70a)) {  // 0.005
        num(0)
    } else if c.gt(num(0x3e4c_cccd)) {  // 0.2
        num(0x3e4c_cccd).over(c).clamp(num(0), num(0x3f80_0000))  // 0.2, 1
    } else {
        let up: Single = smoothstep(num(0x3ba3_d70a), num(0x3d4c_cccd), c);  // 0.005, 0.05
        // 1, 0.13, 0.2
        let down: Single = num(0x3f80_0000).minus(smoothstep(num(0x3e05_1eb8), num(0x3e4c_cccd), c));
        up.times(down).clamp(num(0), num(0x3f80_0000))  // 1
    }
}

pub open spec fn spec_skin_probability(p: &Lch, hue_w: Single) -> Single {
    if p.l.gt(num(0x3f4c_cccd)) && p.c.lt(num(0x3d8f_5c29)) {  // 0.8, 0.07
        num(0)
    } else {
        // 0.18, 0.28, 1, 0.82, 0.9
        let l_w: Single = smoothstep(num(0x3e38_51ec), num(0x3e8f_5c29), p.l).times(num(0x3f80_0000).minus(smoothstep(num(0x3f51_eb85), num(0x3f66_6666), p.l)));
        hue_w.times(skin_chroma_weight(p.c)).times(l_w).clamp(num(0), num(0x3f80_0000))  // 1
    }
}

/// How much a colour is that of skin, 0 to 1. Bright and dull is none: nails, eyes, teeth.
#[verifier::when_used_as_spec(spec_skin_probability)]
pub fn skin_probability(p: &Lch, hue_w: Single) -> (r: Single)
    ensures
        r == spec_skin_probability(p, hue_w),
{
    if p.l.gt(num(0x3f4c_cccd)) && p.c.lt(num(0x3d8f_5c29)) {  // 0.8, 0.07
        num(0)
    } else {
        // 0.18, 0.28, 1, 0.82, 0.9
        let l_w: Single = smoothstep(num(0x3e38_51ec), num(0x3e8f_5c29), p.l).times(num(0x3f80_0000).minus(smoothstep(num(0x3f51_eb85), num(0x3f66_6666), p.l)));
        hue_w.times(skin_chroma_weight(p.c)).times(l_w).clamp(num(0), num(0x3f80_0000))  // 1
    }
}

pub open spec fn spec_apply_skin_tone(p: Lch, st: &SkinTone, orig: &Lch, hue_w: Single) -> Lch {
    let prob: Single = skin_probability(&p, hue_w);
    // 0.15
    if !st.enabled || st.strength.le(num(0)) || prob.le(num(0)) || (st.protect_non_skin
        && prob.lt(num(0x3e19_999a))) {
        p
    } else {
        let w: Single = st.strength.times(prob).clamp(num(0), num(0x3f80_0000));  // 1
        let t: (Single, Single, Single) = st.resolved_targets();
        let h: Single = positive_degrees(p.h);
        // 0.35, 0.08, 0.025
        let soften: Single = num(0x3eb3_3333).minus(orig.l).times(num(0x3da3_d70a)).times(st.strength).min(num(0x3ccc_cccd));
        // 0.4, 0.35
        let lift: Single = if prob.gt(num(0x3ecc_cccd)) && orig.l.lt(num(0x3eb3_3333)) {
            t.2.plus(soften)
        } else {
            t.2
        };
        Lch {
            l: if lift.gt(num(0)) {
                p.l.plus(lift.times(w)).clamp(num(0), num(0x3f80_0000))  // 1
            } else {
                p.l
            },
            c: p.c.plus(t.1.minus(p.c).times(w)).max(num(0)),
            h: wrap_degrees(h.plus(shorter_way(t.0.minus(h)).times(w))),
        }
    }
}

/// Skin moves towards its target in hue and chroma and gains some light, more in deep shadow.
/// `orig` is the colour before all stages, `hue_w` the closeness in hue.
#[verifier::when_used_as_spec(spec_apply_skin_tone)]
pub fn apply_skin_tone(p: Lch, st: &SkinTone, orig: &Lch, hue_w: Single) -> (r: Lch)
    ensures
        r == spec_apply_skin_tone(p, st, orig, hue_w),
{
    let prob: Single = skin_probability(&p, hue_w);
    // 0.15
    if !st.enabled || st.strength.le(num(0)) || prob.le(num(0)) || (st.protect_non_skin
        && prob.lt(num(0x3e19_999a))) {
        p
    } else {
        let w: Single = st.strength.times(prob).clamp(num(0), num(0x3f80_0000));  // 1
        let t: (Single, Single, Single) = st.resolved_targets();
        let h: Single = positive_degrees(p.h);
        // 0.35, 0.08, 0.025
        let soften: Single = num(0x3eb3_3333).minus(orig.l).times(num(0x3da3_d70a)).times(st.strength).min(num(0x3ccc_cccd));
        // 0.4, 0.35
        let lift: Single = if prob.gt(num(0x3ecc_cccd)) && orig.l.lt(num(0x3eb3_3333)) {
            t.2.plus(soften)
        } else {
            t.2
        };
        Lch {
            l: if lift.gt(num(0)) {
                p.l.plus(lift.times(w)).clamp(num(0), num(0x3f80_0000))  // 1
            } else {
                p.l
            },
            c: p.c.plus(t.1.minus(p.c).times(w)).max(num(0)),
            h: wrap_degrees(h.plus(shorter_way(t.0.minus(h)).times(w))),
        }
    }
}

pub open spec fn spec_zone_center(i: usize) -> Single {
    if i == 0 {
        num(0x3df5_c28f)  // 0.12
    } else if i == 1 {
        num(0x3ea3_d70a)  // 0.32
    } else if i == 2 {
        num(0x3f19_999a)  // 0.6
    } else {
        num(0x3f59_999a)  // 0.85
    }
}

/// The middle of a zone of lightness.
#[verifier::when_used_as_spec(spec_zone_center)]
pub fn zone_center(i: usize) -> (r: Single)
    ensures
        r == spec_zone_center(i),
{
    if i == 0 {
        num(0x3df5_c28f)  // 0.12
    } else if i == 1 {
        num(0x3ea3_d70a)  // 0.32
    } else if i == 2 {
        num(0x3f19_999a)  // 0.6
    } else {
        num(0x3f59_999a)  // 0.85
    }
}

pub open spec fn spec_zone_exponent(l: Single, i: usize) -> Single {
    let d: Single = l.minus(zone_center(i)).over(num(0x3eae_147b));  // 0.34
    num(0xbf00_0000).times(d).times(d)  // -0.5
}

/// Where the weight of a zone is taken: exp of this.
#[verifier::when_used_as_spec(spec_zone_exponent)]
pub fn zone_exponent(l: Single, i: usize) -> (r: Single)
    ensures
        r == spec_zone_exponent(l, i),
{
    let d: Single = l.minus(zone_center(i)).over(num(0x3eae_147b));  // 0.34
    num(0xbf00_0000).times(d).times(d)  // -0.5
}

pub open spec fn spec_zones_active(z: &ZoneGrade) -> bool {
    !(z.lift[0].same(num(0)) && z.lift[1].same(num(0)) && z.lift[2].same(num(0))
        && z.lift[3].same(num(0)))
}

/// Some zone is lifted.
#[verifier::when_used_as_spec(spec_zones_active)]
pub fn zones_active(z: &ZoneGrade) -> (r: bool)
    ensures
        r == spec_zones_active(z),
{
    !(z.lift[0].same(num(0)) && z.lift[1].same(num(0)) && z.lift[2].same(num(0))
        && z.lift[3].same(num(0)))
}

pub open spec fn spec_zone_delta(z: &ZoneGrade, w: [Single; 4]) -> Single {
    let sum: Single = num(0).plus(w[0]).plus(w[1]).plus(w[2]).plus(w[3]);
    let delta: Single = num(0).plus(w[0].times(z.lift[0])).plus(w[1].times(z.lift[1])).plus(
        w[2].times(z.lift[2]),
    ).plus(w[3].times(z.lift[3]));
    if sum.gt(num(0)) {
        delta.over(sum)
    } else {
        delta
    }
}

/// The mean of the zones' offsets, weighted; `w` holds the weights.
#[verifier::when_used_as_spec(spec_zone_delta)]
pub fn zone_delta(z: &ZoneGrade, w: [Single; 4]) -> (r: Single)
    ensures
        r == spec_zone_delta(z, w),
{
    let sum: Single = num(0).plus(w[0]).plus(w[1]).plus(w[2]).plus(w[3]);
    let delta: Single = num(0).plus(w[0].times(z.lift[0])).plus(w[1].times(z.lift[1])).plus(
        w[2].times(z.lift[2]),
    ).plus(w[3].times(z.lift[3]));
    if sum.gt(num(0)) {
        delta.over(sum)
    } else {
        delta
    }
}

pub open spec fn spec_apply_zones(p: Lch, z: &ZoneGrade, w: [Single; 4]) -> Lch {
    Lch { l: p.l.plus(zone_delta(z, w)).clamp(num(0), num(0x3f80_0000)), c: p.c, h: p.h }  // 1
}

/// The lightness with its zones applied.
#[verifier::when_used_as_spec(spec_apply_zones)]
pub fn apply_zones(p: Lch, z: &ZoneGrade, w: [Single; 4]) -> (r: Lch)
    ensures
        r == spec_apply_zones(p, z, w),
{
    Lch { l: p.l.plus(zone_delta(z, w)).clamp(num(0), num(0x3f80_0000)), c: p.c, h: p.h }  // 1
}

pub open spec fn spec_guard_chroma(c: Single, orig_c: Single) -> Single {
    let a: Single = if c.gt(orig_c.times(num(0x4040_0000))) && c.gt(num(0x3df5_c28f)) {  // 3, 0.12
        orig_c.times(num(0x4000_0000))  // 2
    } else {
        c
    };
    if a.gt(orig_c.times(num(0x3f86_6666))) {  // 1.05
        a.min(orig_c.times(num(0x4020_0000)).min(num(0x3e99_999a)))  // 2.5, 0.3
    } else {
        a
    }
}

/// Chroma held back at the end: more than three times the original's is brought to twice it, and
/// a rise is limited to two and a half times and to 0.3.
#[verifier::when_used_as_spec(spec_guard_chroma)]
pub fn guard_chroma(c: Single, orig_c: Single) -> (r: Single)
    ensures
        r == spec_guard_chroma(c, orig_c),
{
    let a: Single = if c.gt(orig_c.times(num(0x4040_0000))) && c.gt(num(0x3df5_c28f)) {  // 3, 0.12
        orig_c.times(num(0x4000_0000))  // 2
    } else {
        c
    };
    if a.gt(orig_c.times(num(0x3f86_6666))) {  // 1.05
        a.min(orig_c.times(num(0x4020_0000)).min(num(0x3e99_999a)))  // 2.5, 0.3
    } else {
        a
    }
}

/// What a stage needs to be told.
#[derive(Clone, Copy, Debug, PartialEq, Eq)]
pub enum Ask {
    /// This to the power of 1.5.
    Power(Single),
    /// The factors of the bands.
    Bands(BandAsk),
    /// exp of this.
    Exp(Single),
    /// exp of each.
    ExpPair(Single, Single),
    /// exp of each.
    ExpFour([Single; 4]),
    /// The colour is developed.
    Done,
}

/// The stages of a colour.
#[derive(Clone, Copy, Debug, PartialEq, Eq, Structural)]
pub enum Stage {
    Color,
    Bands,
    Skin,
    Plan,
    Zones,
    End,
}

/// A colour in development.
#[derive(Clone, Copy, Debug, PartialEq, Eq, Structural)]
pub struct Developing {
    /// The colour before all stages.
    pub orig: Lch,
    pub px: Lch,
    /// The stage that comes next.
    pub stage: Stage,
}

pub open spec fn spec_begin_color(orig: Lch, adj: &Adjustments) -> Developing {
    Developing { orig, px: apply_defake(orig, &adj.defake), stage: Stage::Color }
}

/// Begins the development of a colour: implausible colour is tamed.
#[verifier::when_used_as_spec(spec_begin_color)]
pub fn begin_color(orig: Lch, adj: &Adjustments) -> (r: Developing)
    ensures
        r == spec_begin_color(orig, adj),
{
    Developing { orig, px: apply_defake(orig, &adj.defake), stage: Stage::Color }
}

pub open spec fn spec_skin_active(st: &SkinTone) -> bool {
    st.enabled && !st.strength.le(num(0))
}

/// Skin care does something.
#[verifier::when_used_as_spec(spec_skin_active)]
pub fn skin_active(st: &SkinTone) -> (r: bool)
    ensures
        r == spec_skin_active(st),
{
    st.enabled && !st.strength.le(num(0))
}

/// What the next stage needs; a stage that does nothing needs nothing.
pub open spec fn asked(d: Developing, adj: Adjustments) -> Ask {
    match d.stage {
        Stage::Color => Ask::Power(taper_at(d.px.l)),
        Stage::Bands => Ask::Bands(bands_at(d.px, adj.hsl)),
        Stage::Skin => Ask::Exp(spec_skin_hue_exponent(&d.px, adj.skin.smoothness)),
        Stage::Plan => Ask::ExpPair(
            sky_exponent(positive_degrees(d.px.h)),
            green_exponent(positive_degrees(d.px.h)),
        ),
        Stage::Zones => Ask::ExpFour(
            [
                zone_exponent(d.px.l, 0),
                zone_exponent(d.px.l, 1),
                zone_exponent(d.px.l, 2),
                zone_exponent(d.px.l, 3),
            ],
        ),
        Stage::End => Ask::Done,
    }
}

/// Says what the next stage needs.
pub fn ask(d: &Developing, adj: &Adjustments) -> (r: Ask)
    ensures
        r == asked(*d, *adj),
{
    match d.stage {
        Stage::Color => Ask::Power(taper_at(d.px.l)),
        Stage::Bands => {
            let w: (usize, Single, usize, Single) = hsl_band_weights(positive_degrees(d.px.h));
            Ask::Bands(
                BandAsk {
                    w1: w.1,
                    w2: w.3,
                    s1: adj.hsl.sat_mult[w.0],
                    s2: adj.hsl.sat_mult[w.2],
                    l1: adj.hsl.light_mult[w.0],
                    l2: adj.hsl.light_mult[w.2],
                },
            )
        },
        Stage::Skin => Ask::Exp(skin_hue_exponent(&d.px, adj.skin.smoothness)),
        Stage::Plan => Ask::ExpPair(
            sky_exponent(positive_degrees(d.px.h)),
            green_exponent(positive_degrees(d.px.h)),
        ),
        Stage::Zones => Ask::ExpFour(
            [
                zone_exponent(d.px.l, 0),
                zone_exponent(d.px.l, 1),
                zone_exponent(d.px.l, 2),
                zone_exponent(d.px.l, 3),
            ],
        ),
        Stage::End => Ask::Done,
    }
}

/// The first stage from `s` on that does something.
pub open spec fn stage_from(s: Stage, adj: Adjustments) -> Stage {
    let zones = if spec_zones_active(&adj.zones) {
        Stage::Zones
    } else {
        Stage::End
    };
    let plan = if adj.color_plan is Some {
        Stage::Plan
    } else {
        zones
    };
    let skin = if spec_skin_active(&adj.skin) {
        Stage::Skin
    } else {
        plan
    };
    match s {
        Stage::Color => Stage::Color,
        Stage::Bands => if regions_act(adj.hsl) {
            Stage::Bands
        } else {
            skin
        },
        Stage::Skin => skin,
        Stage::Plan => plan,
        Stage::Zones => zones,
        Stage::End => Stage::End,
    }
}

fn find_stage(s: Stage, adj: &Adjustments) -> (r: Stage)
    ensures
        r == stage_from(s, *adj),
{
    let zones: Stage = if zones_active(&adj.zones) {
        Stage::Zones
    } else {
        Stage::End
    };
    let plan: Stage = match adj.color_plan {
        Some(_) => Stage::Plan,
        None => zones,
    };
    let skin: Stage = if skin_active(&adj.skin) {
        Stage::Skin
    } else {
        plan
    };
    match s {
        Stage::Color => Stage::Color,
        Stage::Bands => if hsl_active(&adj.hsl) {
            Stage::Bands
        } else {
            skin
        },
        Stage::Skin => skin,
        Stage::Plan => plan,
        Stage::Zones => zones,
        Stage::End => Stage::End,
    }
}

/// The colour after its next stage. `pivot` is the mean lightness of the picture, `k` is 2 to
/// the power of the lift with its sign turned, `a` what the stage asked for.
pub open spec fn advanced(
    d: Developing,
    adj: Adjustments,
    pivot: Single,
    k: Single,
    a: [Single; 4],
) -> Developing {
    match d.stage {
        Stage::Color => Developing {
            px: spec_apply_grade(
                spec_apply_color_grade(d.px, &adj.color, a[0]),
                &adj.grade,
                pivot,
                k,
            ),
            stage: stage_from(Stage::Bands, adj),
            ..d
        },
        Stage::Bands => Developing {
            px: with_bands(d.px, adj.hsl, a[0], a[1]),
            stage: stage_from(Stage::Skin, adj),
            ..d
        },
        Stage::Skin => Developing {
            px: spec_apply_skin_tone(d.px, &adj.skin, &d.orig, a[0]),
            stage: stage_from(Stage::Plan, adj),
            ..d
        },
        Stage::Plan => Developing {
            px: match adj.color_plan {
                Some(plan) => apply_color_correction(d.px, &plan, a[0], a[1]),
                None => d.px,
            },
            stage: stage_from(Stage::Zones, adj),
            ..d
        },
        Stage::Zones => Developing {
            px: spec_apply_zones(d.px, &adj.zones, a),
            stage: Stage::End,
            ..d
        },
        Stage::End => d,
    }
}

/// Takes the answer of a stage and goes on to the next.
pub fn advance(d: &Developing, adj: &Adjustments, pivot: Single, k: Single, a: [Single; 4]) -> (r:
    Developing)
    ensures
        r == advanced(*d, *adj, pivot, k, a),
{
    let mut r: Developing = *d;
    match d.stage {
        Stage::Color => {
            r.px = apply_grade(apply_color_grade(d.px, &adj.color, a[0]), &adj.grade, pivot, k);
            r.stage = find_stage(Stage::Bands, adj);
        },
        Stage::Bands => {
            r.px = apply_hsl_regions(&d.px, &adj.hsl, a[0], a[1]);
            r.stage = find_stage(Stage::Skin, adj);
        },
        Stage::Skin => {
            r.px = apply_skin_tone(d.px, &adj.skin, &d.orig, a[0]);
            r.stage = find_stage(Stage::Plan, adj);
        },
        Stage::Plan => {
            if let Some(plan) = adj.color_plan {
                r.px = apply_color_correction(d.px, &plan, a[0], a[1]);
            }
            r.stage = find_stage(Stage::Zones, adj);
        },
        Stage::Zones => {
            r.px = apply_zones(d.px, &adj.zones, a);
            r.stage = Stage::End;
        },
        Stage::End => {},
    }
    r
}

pub open spec fn spec_finish_color(d: &Developing) -> Lch {
    Lch { l: d.px.l, c: guard_chroma(d.px.c, d.orig.c), h: d.px.h }
}

/// The developed colour, with its chroma held back.
#[verifier::when_used_as_spec(spec_finish_color)]
pub fn finish_color(d: &Developing) -> (r: Lch)
    ensures
        r == spec_finish_color(d),
{
    Lch { l: d.px.l, c: guard_chroma(d.px.c, d.orig.c), h: d.px.h }
}

/// How many stages may still come.
pub open spec fn stages_left(s: Stage) -> nat {
    match s {
        Stage::Color => 5,
        Stage::Bands => 4,
        Stage::Skin => 3,
        Stage::Plan => 2,
        Stage::Zones => 1,
        Stage::End => 0,
    }
}

/// Development comes to an end: every answer brings a later stage.
pub proof fn law_development_ends(
    d: Developing,
    adj: Adjustments,
    pivot: Single,
    k: Single,
    a: [Single; 4],
)
    requires
        d.stage != Stage::End,
    ensures
        stages_left(advanced(d, adj, pivot, k, a).stage) < stages_left(d.stage),
        advanced(d, adj, pivot, k, a).orig == d.orig,
{
}

/// Neutral settings have one stage only.
pub proof fn law_neutral_settings_have_one_stage(d: Developing, pivot: Single, k: Single, a: [Single; 4])
    requires
        d.stage == Stage::Color,
    ensures
        advanced(d, Adjustments::spec_default(), pivot, k, a).stage == Stage::End,
{
    let r = Adjustments::spec_default().hsl;
    assert forall|i: int| 0 <= i < 8 implies !#[trigger] band_acts(r, i) by {}
}

/// Chroma that did not change is not held back.
pub proof fn law_unchanged_chroma_is_kept(c: Single, orig_c: Single)
    requires
        num(0).le(c),
        c.magnitude() < INFINITY,
        c.same(orig_c),
    ensures
        guard_chroma(c, orig_c) == c,
{
    let one = num(0x3f80_0000);
    law_products_keep_order(one, num(0x4040_0000), orig_c);  // 3
    law_products_keep_order(one, num(0x3f86_6666), orig_c);  // 1.05
    law_product_commutes(num(0x4040_0000), orig_c);  // 3
    law_product_commutes(num(0x3f86_6666), orig_c);  // 1.05
    law_one_is_neutral(orig_c);
}

/// What a weight of lightness amounts to is finite.
pub proof fn lemma_weights_are_finite(l: Single)
    requires
        num(0).le(l),
        l.le(num(0x3f80_0000)),
    ensures
        num(0x3f80_0000).minus(smoothstep(num(0), num(0x3f00_0000), l)).magnitude() < INFINITY,
        smoothstep(num(0x3f00_0000), num(0x3f80_0000), l).magnitude() < INFINITY,
{
    let half = num(0x3f00_0000);
    let one = num(0x3f80_0000);
    law_order_is_numeric(num(0), half);
    law_order_is_numeric(half, one);
    law_negation_is_opposite(num(0));
    law_negation_is_opposite(half);
    lemma_small_sum(l, num(0).negated());
    lemma_small_sum(l, half.negated());
    lemma_small_sum(half, num(0).negated());
    lemma_small_sum(one, half.negated());
    lemma_quotient_is_a_number(l.minus(num(0)), half.minus(num(0)));
    lemma_quotient_is_a_number(l.minus(half), one.minus(half));
    lemma_smoothstep_is_bounded(num(0), half, l);
    lemma_smoothstep_is_bounded(half, one, l);
    lemma_small_sum(one, smoothstep(num(0), half, l).negated());
}

/// The zone of a colour is finite.
proof fn lemma_zone_is_finite(taper: Single)
    requires
        num(0).le(taper),
        taper.le(num(0x3f80_0000)),
    ensures
        num(0x3f00_0000).plus(
            num(0x3f00_0000).times(num(0x3f80_0000).minus(taper)),
        ).magnitude() < INFINITY,
{
    let half = num(0x3f00_0000);
    let one = num(0x3f80_0000);
    law_sums_keep_order(taper.negated(), num(0), one);
    law_sums_keep_order(one.negated(), taper.negated(), one);
    law_zero_is_neutral(one, num(0));
    lemma_one();
    law_small_integers_are_exact(0);
    law_small_differences_are_exact(1, 1);
    let rest = one.minus(taper);
    law_products_keep_order(rest, one, half);
    law_product_commutes(rest, half);
    law_one_is_neutral(half);
    lemma_small_sum(half, half.times(rest));
}

/// Neutral settings give a colour back, whatever pivot and lift the picture has: the lightness,
/// the chroma, and the hue turned into the range from 0 to 360 degrees. Of a colour without
/// chroma the hue stays as it is.
pub proof fn law_neutral_settings_keep_color(
    p: Lch,
    pivot: Single,
    k: Single,
    taper: Single,
    rest: [Single; 4],
)
    requires
        num(0).le(p.l),
        p.l.le(num(0x3f80_0000)),  // 1
        num(0).le(p.c),
        p.c.magnitude() < INFINITY,
        num(0).le(taper),
        taper.le(num(0x3f80_0000)),  // 1
        rest[0] == taper,
        !positive_degrees(p.h).is_nan(),
    ensures
        ({
            let adj = Adjustments::spec_default();
            let end = advanced(spec_begin_color(p, &adj), adj, pivot, k, rest);
            let q = spec_finish_color(&end);
            let turned = wrap_degrees(positive_degrees(p.h));
            &&& end.stage == Stage::End
            &&& q.l == p.l
            &&& q.c == p.c
            &&& p.c.gt(num(0x3a83_126f)) && !positive_degrees(p.h).same(num(0)) ==> q.h == turned  // 0.001
            &&& p.c.gt(num(0x3a83_126f)) && positive_degrees(p.h).same(num(0)) ==> q.h.same(num(0))
            &&& !p.c.gt(num(0x3a83_126f)) ==> q.h == p.h
        }),
{
    let adj = Adjustments::spec_default();
    let cg = adj.color;
    let one = num(0x3f80_0000);
    let half = num(0x3f00_0000);
    let zone = half.plus(half.times(one.minus(taper)));
    lemma_zone_is_finite(taper);
    lemma_weights_are_finite(p.l);
    lemma_one();
    law_small_integers_are_exact(0);
    law_small_differences_are_exact(1, 1);
    law_order_is_numeric(one.minus(one), num(0));
    let none = one.minus(one);
    assert(none == Single::spec_from_int(0));
    lemma_no_integer();
    law_zero_times_is_zero(zone);
    law_zero_is_neutral(one, none.times(zone));
    law_one_is_neutral(p.c);
    let sh = one.minus(smoothstep(num(0), half, p.l));
    let hi = smoothstep(half, one, p.l);
    law_zero_times_is_zero(sh);
    law_zero_times_is_zero(hi);
    law_zero_is_neutral(num(0).times(sh), num(0).times(hi));
    let split = num(0).times(sh).plus(num(0).times(hi));
    let h = positive_degrees(p.h);
    law_zero_is_neutral(h, num(0));
    law_zero_is_neutral(h.plus(num(0)), split);
    let q = spec_apply_color_grade(p, &cg, taper);
    assert(q.c == p.c && q.l == p.l);
    law_neutral_grade_is_a_limit(q, pivot, k);
    law_unchanged_chroma_is_kept(p.c, p.c);
    law_neutral_settings_have_one_stage(spec_begin_color(p, &adj), pivot, k, rest);
    if h.same(num(0)) {
        lemma_zero_stays(h.plus(num(0)).plus(split));
    }
}

/// Neutral settings give a colour back whose hue is from 0 up to 360 degrees.
pub proof fn law_neutral_settings_give_the_color_back(
    p: Lch,
    pivot: Single,
    k: Single,
    taper: Single,
    rest: [Single; 4],
)
    requires
        num(0).le(p.l),
        p.l.le(num(0x3f80_0000)),  // 1
        num(0).le(p.c),
        p.c.magnitude() < INFINITY,
        num(0).le(p.h),
        p.h.lt(num(0x43b4_0000)),  // 360
        p.h.same(num(0)) || p.h.ge(num(0x0080_0000)),
        num(0).le(taper),
        taper.le(num(0x3f80_0000)),  // 1
        rest[0] == taper,
    ensures
        ({
            let adj = Adjustments::spec_default();
            let q = spec_finish_color(
                &advanced(spec_begin_color(p, &adj), adj, pivot, k, rest),
            );
            &&& q.l == p.l
            &&& q.c == p.c
            &&& q.h.same(p.h)
        }),
{
    law_turned_hue_stays(p.h);
    law_neutral_settings_keep_color(p, pivot, k, taper, rest);
}

/// A hue of zero stays zero.
proof fn lemma_zero_stays(h: Single)
    requires
        h.same(num(0)),
    ensures
        wrap_degrees(h).same(num(0)),
{
    lemma_zero_remainder(h, num(0x43b4_0000));  // 360
}

/// Taming of colour never touches lightness or hue.
pub proof fn law_taming_keeps_lightness_and_hue(p: Lch, d: &DefakeColor)
    ensures
        apply_defake(p, d).l == p.l,
        apply_defake(p, d).h == p.h,
{
}

/// Colour grading never touches lightness.
pub proof fn law_color_grade_keeps_lightness(p: Lch, cg: &ColorGrade, taper: Single)
    ensures
        apply_color_grade(p, cg, taper).l == p.l,
{
}

/// The grade never touches chroma or hue, and keeps lightness from 0 to 1.
pub proof fn law_grade_keeps_chroma_and_hue(p: Lch, g: &Grade, pivot: Single, k: Single)
    ensures
        ({
            let q = apply_grade(p, g, pivot, k);
            &&& q.c == p.c
            &&& q.h == p.h
            &&& q.l.is_nan() || (q.l.ge(num(0)) && q.l.le(num(0x3f80_0000)))
        }),
{
}

/// A neutral grade does nothing but keep lightness from 0 to 1.
pub proof fn law_neutral_grade_is_a_limit(p: Lch, pivot: Single, k: Single)
    ensures
        apply_grade(p, &Grade::spec_default(), pivot, k) == (Lch {
            l: p.l.clamp(num(0), num(0x3f80_0000)),
            ..p
        }),
{
}

/// Zones of lightness never touch chroma or hue.
pub proof fn law_zones_keep_chroma_and_hue(p: Lch, z: &ZoneGrade, w: [Single; 4])
    ensures
        apply_zones(p, z, w).c == p.c,
        apply_zones(p, z, w).h == p.h,
{
}

/// Skin care that is off does nothing.
pub proof fn law_skin_care_off_does_nothing(p: Lch, st: &SkinTone, orig: &Lch, hue_w: Single)
    requires
        !st.enabled,
    ensures
        apply_skin_tone(p, st, orig, hue_w) == p,
{
}

/// Neutral white balance leaves light alone.
pub proof fn law_neutral_balance_keeps_light(p: Light)
    ensures
        apply_white_balance(p, &WhiteBalance::spec_default()) == p,
{
}

/// Chroma that rises is never left above 0.3.
pub proof fn law_rising_chroma_is_limited(c: Single, orig_c: Single)
    ensures
        ({
            let g = guard_chroma(c, orig_c);
            g.gt(orig_c.times(num(0x3f86_6666))) ==> g.le(num(0x3e99_999a))  // 1.05
        }),
{
}

/// A span of chroma in which the edge of the gamut is looked for.
#[derive(Clone, Copy, Debug, PartialEq, Eq, Structural)]
pub struct Span {
    pub lo: Single,
    pub hi: Single,
}

pub open spec fn spec_span_middle(s: &Span) -> Single {
    num(0x3f00_0000).times(s.lo.plus(s.hi))  // 0.5
}

/// The middle of a span.
#[verifier::when_used_as_spec(spec_span_middle)]
pub fn span_middle(s: &Span) -> (r: Single)
    ensures
        r == spec_span_middle(s),
{
    num(0x3f00_0000).times(s.lo.plus(s.hi))  // 0.5
}

pub open spec fn spec_gamut_softclip(s: &Span, inside: bool) -> Span {
    if inside {
        Span { lo: span_middle(s), hi: s.hi }
    } else {
        Span { lo: s.lo, hi: span_middle(s) }
    }
}

/// The half of a span in which the edge lies: above the middle where that is inside.
#[verifier::when_used_as_spec(spec_gamut_softclip)]
pub fn gamut_softclip(s: &Span, inside: bool) -> (r: Span)
    ensures
        r == spec_gamut_softclip(s, inside),
{
    if inside {
        Span { lo: span_middle(s), hi: s.hi }
    } else {
        Span { lo: s.lo, hi: span_middle(s) }
    }
}

/// How often a span is halved.
pub const HALVINGS: u32 = 16;

/// One byte of the developed picture and the original, mixed.
pub fn mix_byte(mix: Single, developed: u8, orig: u8) -> (r: u8)
    ensures
        r == mixed(mix, developed, orig),
{
    let m: Single = mix.clamp(num(0), num(0x3f80_0000));  // 1
    // 1
    m.times(of_byte(developed)).plus(num(0x3f80_0000).minus(m).times(of_byte(orig))).round().to_u8()
}

/// The mix of a developed byte and the original's: the share of the former is from 0 to 1.
pub open spec fn mixed(mix: Single, developed: u8, orig: u8) -> int {
    let m = mix.clamp(num(0), num(0x3f80_0000));  // 1
    // 1
    m.times(of_byte(developed)).plus(num(0x3f80_0000).minus(m).times(of_byte(orig))).round().truncated(0, 255)
}

/// A mix of nothing is the original, and a mix of all is the development.
pub proof fn law_ends_of_the_mix(developed: u8, orig: u8)
    ensures
        mixed(num(0), developed, orig) == orig,
        mixed(num(0x3f80_0000), developed, orig) == developed,  // 1
{
    let one = num(0x3f80_0000);
    let a = of_byte(developed);
    let b = of_byte(orig);
    lemma_one();
    lemma_no_integer();
    law_small_integers_are_exact(developed as int);
    law_small_integers_are_exact(orig as int);
    law_zero_times_is_zero(a);
    law_zero_times_is_zero(b);
    law_small_differences_are_exact(1, 1);
    law_small_differences_are_exact(1, 0);
    law_one_is_neutral(a);
    law_one_is_neutral(b);
    law_zero_is_neutral(a, num(0).times(b));
    law_zero_is_neutral(b, num(0).times(a));
    law_order_is_numeric(a, num(0));
    law_order_is_numeric(b, num(0));
    law_small_integers_are_whole(developed as int, 0, 255);
    law_small_integers_are_whole(orig as int, 0, 255);
    vstd::arithmetic::power2::lemma_pow2_pos(149);
    let p = vstd::arithmetic::power2::pow2(149) as int;
    if developed == 0 {
        assert(0 * p == 0);
        law_zero_becomes_zero(a.plus(num(0).times(b)));
    } else {
        assert(developed * p > 0) by (nonlinear_arith)
            requires
                developed > 0,
                p > 0,
        ;
        assert(a.plus(num(0).times(b)) == a);
    }
    if orig != 0 {
        assert(orig * p > 0) by (nonlinear_arith)
            requires
                orig > 0,
                p > 0,
        ;
        assert(num(0).times(a).plus(b) == b);
    } else {
        assert(0 * p == 0);
        law_zero_is_neutral(num(0).times(a), b);
        law_zero_becomes_zero(num(0).times(a).plus(b));
    }
}

} // verus!
