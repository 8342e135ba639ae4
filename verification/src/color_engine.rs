//! Colour correction by scene: what kind of scene a picture shows, which correction it gets,
//! and what the correction does to one colour.

use crate::analyze::{how_many, ImageMetrics};
use crate::double::{mean_of, sum_of_all, sum_where, wide, Double};
use crate::lch::{hue_distance, positive_degrees, shorter_way, wrap_degrees, Lch};
use crate::pipeline::WhiteBalance;
use crate::single::{num, Single};
use vstd::prelude::*;

verus! {

/// Kinds of scenes.
#[derive(Clone, Copy, Debug, PartialEq, Eq, Structural)]
pub enum SceneType {
    NormalMid,
    /// Warm light.
    GoldenHour,
    /// Cold or dull light.
    Overcast,
    /// Strong colours.
    Vivid,
    FlatLowContrast,
    Night,
    /// Very wide range of lightness.
    Extreme,
}

/// How boldly a scene is corrected.
#[derive(Clone, Copy, Debug, PartialEq, Eq, Structural)]
pub struct SceneRules {
    /// Factor on exposure; 1 is the standard.
    pub exposure_factor: Single,
    /// Factor on colour; 1 is the standard.
    pub color_factor: Single,
    /// 0 loose, 1 standard, 2 strict.
    pub guard_level: u8,
}

pub open spec fn spec_scene_rules(st: SceneType) -> SceneRules {
    match st {
        SceneType::NormalMid => SceneRules {
            exposure_factor: num(0x3f80_0000),  // 1
            color_factor: num(0x3f80_0000),  // 1
            guard_level: 1,
        },
        SceneType::GoldenHour => SceneRules {
            exposure_factor: num(0x3f4c_cccd),  // 0.8
            color_factor: num(0x3fa6_6666),  // 1.3
            guard_level: 0,
        },
        SceneType::Overcast => SceneRules {
            exposure_factor: num(0x3f8c_cccd),  // 1.1
            color_factor: num(0x3f66_6666),  // 0.9
            guard_level: 1,
        },
        SceneType::Vivid => SceneRules {
            exposure_factor: num(0x3f80_0000),  // 1
            color_factor: num(0x3f33_3333),  // 0.7
            guard_level: 2,
        },
        SceneType::FlatLowContrast => SceneRules {
            exposure_factor: num(0x3fcc_cccd),  // 1.6
            color_factor: num(0x3fd9_999a),  // 1.7
            guard_level: 2,
        },
        SceneType::Night => SceneRules {
            exposure_factor: num(0x3ecc_cccd),  // 0.4
            color_factor: num(0x3f00_0000),  // 0.5
            guard_level: 2,
        },
        SceneType::Extreme => SceneRules {
            exposure_factor: num(0x3fb3_3333),  // 1.4
            color_factor: num(0x3f4c_cccd),  // 0.8
            guard_level: 2,
        },
    }
}

/// The rules for a kind of scene.
#[verifier::when_used_as_spec(spec_scene_rules)]
pub fn scene_rules(st: SceneType) -> (r: SceneRules)
    ensures
        r == spec_scene_rules(st),
{
    match st {
        SceneType::NormalMid => SceneRules {
            exposure_factor: num(0x3f80_0000),  // 1
            color_factor: num(0x3f80_0000),  // 1
            guard_level: 1,
        },
        SceneType::GoldenHour => SceneRules {
            exposure_factor: num(0x3f4c_cccd),  // 0.8
            color_factor: num(0x3fa6_6666),  // 1.3
            guard_level: 0,
        },
        SceneType::Overcast => SceneRules {
            exposure_factor: num(0x3f8c_cccd),  // 1.1
            color_factor: num(0x3f66_6666),  // 0.9
            guard_level: 1,
        },
        SceneType::Vivid => SceneRules {
            exposure_factor: num(0x3f80_0000),  // 1
            color_factor: num(0x3f33_3333),  // 0.7
            guard_level: 2,
        },
        SceneType::FlatLowContrast => SceneRules {
            exposure_factor: num(0x3fcc_cccd),  // 1.6
            color_factor: num(0x3fd9_999a),  // 1.7
            guard_level: 2,
        },
        SceneType::Night => SceneRules {
            exposure_factor: num(0x3ecc_cccd),  // 0.4
            color_factor: num(0x3f00_0000),  // 0.5
            guard_level: 2,
        },
        SceneType::Extreme => SceneRules {
            exposure_factor: num(0x3fb3_3333),  // 1.4
            color_factor: num(0x3f4c_cccd),  // 0.8
            guard_level: 2,
        },
    }
}

/// Colour measurements that a correction is planned from.
#[derive(Clone, Copy, Debug, PartialEq, Eq, Structural)]
pub struct ColorMetrics {
    pub mean_c: Single,
    /// Mean chroma of the dark pixels.
    pub shadow_c: Single,
    /// Direction of the cast in degrees.
    pub cast_hue: Single,
    /// Strength of the cast.
    pub cast_chroma: Single,
    /// Mean hue in degrees.
    pub mean_h: Single,
    /// Share of the picture that is sky.
    pub sky_ratio: Single,
    /// Share of the picture that is green.
    pub green_ratio: Single,
    /// How far warm light is too yellow.
    pub digital_yellow_delta: Single,
    /// How far the sky is off its blue.
    pub digital_blue_delta: Single,
    pub scene: SceneType,
}

/// What colour correction does to a picture.
#[derive(Clone, Copy, Debug, PartialEq, Eq)]
pub struct ColorPlan {
    pub wb: WhiteBalance,
    pub vibrance_target: Single,
    pub saturation_target: Single,
    /// Most chroma in the shadows.
    pub shadow_chroma_cap: Single,
    /// From digital yellow towards orange.
    pub warm_boost: Single,
    /// From digital blue towards sky blue.
    pub sky_boost: Single,
    /// Towards the green of plants.
    pub green_boost: Single,
    /// Against the green of tube light.
    pub fluorescent_fix: Single,
    /// Against the blue of clouds.
    pub overcast_warm: Single,
    /// Strength of all corrections.
    pub strength: Single,
}

impl ColorPlan {
    pub open spec fn spec_default() -> ColorPlan {
        ColorPlan {
            wb: WhiteBalance::spec_default(),
            vibrance_target: num(0),  // 0
            saturation_target: num(0x3f80_0000),  // 1
            shadow_chroma_cap: num(0x3d23_d70a),  // 0.04
            warm_boost: num(0),  // 0
            sky_boost: num(0),  // 0
            green_boost: num(0),  // 0
            fluorescent_fix: num(0),  // 0
            overcast_warm: num(0),  // 0
            strength: num(0x3f80_0000),  // 1
        }
    }
}

impl Default for ColorPlan {
    fn default() -> (r: ColorPlan)
        ensures
            r == ColorPlan::spec_default(),
    {
        ColorPlan {
            wb: WhiteBalance::default(),
            vibrance_target: num(0),  // 0
            saturation_target: num(0x3f80_0000),  // 1
            shadow_chroma_cap: num(0x3d23_d70a),  // 0.04
            warm_boost: num(0),  // 0
            sky_boost: num(0),  // 0
            green_boost: num(0),  // 0
            fluorescent_fix: num(0),  // 0
            overcast_warm: num(0),  // 0
            strength: num(0x3f80_0000),  // 1
        }
    }
}

pub open spec fn spec_is_shadow(p: &Lch) -> bool {
    p.l.lt(num(0x3e80_0000))  // 0.25
}

/// A dark pixel, whose chroma may be noise.
#[verifier::when_used_as_spec(spec_is_shadow)]
pub fn is_shadow(p: &Lch) -> (r: bool)
    ensures
        r == spec_is_shadow(p),
{
    p.l.lt(num(0x3e80_0000))  // 0.25
}

pub open spec fn spec_is_dull(p: &Lch) -> bool {
    p.c.lt(num(0x3ca3_d70a))  // 0.02
}

/// A pixel so dull that it shows the cast.
#[verifier::when_used_as_spec(spec_is_dull)]
pub fn is_dull(p: &Lch) -> (r: bool)
    ensures
        r == spec_is_dull(p),
{
    p.c.lt(num(0x3ca3_d70a))  // 0.02
}

pub open spec fn spec_is_sky(p: &Lch) -> bool {
    // 210, 255, 0.02, 0.14, 0.35
    p.h.ge(num(0x4352_0000)) && p.h.le(num(0x437f_0000)) && p.c.gt(num(0x3ca3_d70a))
        && p.c.lt(num(0x3e0f_5c29)) && p.l.gt(num(0x3eb3_3333))
}

/// A pixel that may be sky.
#[verifier::when_used_as_spec(spec_is_sky)]
pub fn is_sky(p: &Lch) -> (r: bool)
    ensures
        r == spec_is_sky(p),
{
    // 210, 255, 0.02, 0.14, 0.35
    p.h.ge(num(0x4352_0000)) && p.h.le(num(0x437f_0000)) && p.c.gt(num(0x3ca3_d70a))
        && p.c.lt(num(0x3e0f_5c29)) && p.l.gt(num(0x3eb3_3333))
}

pub open spec fn spec_is_green(p: &Lch) -> bool {
    // 80, 160, 0.04, 0.25
    p.h.ge(num(0x42a0_0000)) && p.h.le(num(0x4320_0000)) && p.c.gt(num(0x3d23_d70a))
        && p.l.gt(num(0x3e80_0000))
}

/// A pixel that may be green of plants.
#[verifier::when_used_as_spec(spec_is_green)]
pub fn is_green(p: &Lch) -> (r: bool)
    ensures
        r == spec_is_green(p),
{
    // 80, 160, 0.04, 0.25
    p.h.ge(num(0x42a0_0000)) && p.h.le(num(0x4320_0000)) && p.c.gt(num(0x3d23_d70a))
        && p.l.gt(num(0x3e80_0000))
}

/// Pixels of each sort.
#[derive(Clone, Copy, Debug, PartialEq, Eq, Structural)]
pub struct ColorCounts {
    pub count: u64,
    pub shadow: u64,
    pub dull: u64,
    pub sky: u64,
    pub green: u64,
}

/// The counts are those of the first `n` pixels.
pub open spec fn color_counts_of(t: ColorCounts, v: Seq<Lch>, n: int) -> bool {
    &&& t.count == n
    &&& t.shadow == how_many(|i: int| spec_is_shadow(&v[i]), n)
    &&& t.dull == how_many(|i: int| spec_is_dull(&v[i]), n)
    &&& t.sky == how_many(|i: int| spec_is_sky(&v[i]), n)
    &&& t.green == how_many(|i: int| spec_is_green(&v[i]), n)
}

proof fn lemma_count_bound(test: spec_fn(int) -> bool, n: int)
    requires
        0 <= n,
    ensures
        how_many(test, n) <= n,
    decreases n,
{
    if n > 0 {
        lemma_count_bound(test, n - 1);
    }
}

/// Counts the pixels of each sort.
pub fn count_colors(v: &Vec<Lch>) -> (t: ColorCounts)
    ensures
        color_counts_of(t, v@, v@.len() as int),
{
    let mut t: ColorCounts = ColorCounts { count: 0, shadow: 0, dull: 0, sky: 0, green: 0 };
    let mut k: usize = 0;
    while k < v.len()
        invariant
            k <= v@.len(),
            color_counts_of(t, v@, k as int),
        decreases v@.len() - k,
    {
        proof {
            lemma_count_bound(|i: int| spec_is_shadow(&v@[i]), k as int);
            lemma_count_bound(|i: int| spec_is_dull(&v@[i]), k as int);
            lemma_count_bound(|i: int| spec_is_sky(&v@[i]), k as int);
            lemma_count_bound(|i: int| spec_is_green(&v@[i]), k as int);
        }
        let p: Lch = v[k];
        t.count = t.count + 1;
        if is_shadow(&p) {
            t.shadow = t.shadow + 1;
        }
        if is_dull(&p) {
            t.dull = t.dull + 1;
        }
        if is_sky(&p) {
            t.sky = t.sky + 1;
        }
        if is_green(&p) {
            t.green = t.green + 1;
        }
        k = k + 1;
    }
    t
}

pub open spec fn spec_classify_scene(m: &ImageMetrics, mean_c: Single, cast_hue: Single, cast_chroma: Single, sky_ratio: Single, green_ratio: Single) -> SceneType {
    if m.dynamic_range.gt(num(0x3f19_999a)) {  // 0.6
        SceneType::Extreme
    // 0.38, 0.35, 0.04, 0.05
    } else if m.tone.median_l.lt(num(0x3ec2_8f5c)) && m.tone.median_l.lt(num(0x3eb3_3333))
        && cast_chroma.gt(num(0x3d23_d70a)) && sky_ratio.lt(num(0x3d4c_cccd)) {
        SceneType::Night
    // 25, 55, 0.03
    } else if cast_hue.ge(num(0x41c8_0000)) && cast_hue.le(num(0x425c_0000))
        && cast_chroma.gt(num(0x3cf5_c28f)) {
        SceneType::GoldenHour
    // 190, 270, 0.06
    } else if (cast_hue.ge(num(0x433e_0000)) && cast_hue.le(num(0x4387_0000)))
        || mean_c.lt(num(0x3d75_c28f)) {
        SceneType::Overcast
    } else if mean_c.gt(num(0x3e38_51ec)) {  // 0.18
        SceneType::Vivid
    } else if m.tone.std_l.lt(num(0x3df5_c28f)) && mean_c.lt(num(0x3d8f_5c29)) {  // 0.12, 0.07
        SceneType::FlatLowContrast
    } else {
        SceneType::NormalMid
    }
}

/// The kind of scene that the measurements show. The first rule that holds decides.
#[verifier::when_used_as_spec(spec_classify_scene)]
pub fn classify_scene(m: &ImageMetrics, mean_c: Single, cast_hue: Single, cast_chroma: Single, sky_ratio: Single, green_ratio: Single) -> (r: SceneType)
    ensures
        r == spec_classify_scene(m, mean_c, cast_hue, cast_chroma, sky_ratio, green_ratio),
{
    if m.dynamic_range.gt(num(0x3f19_999a)) {  // 0.6
        SceneType::Extreme
    // 0.38, 0.35, 0.04, 0.05
    } else if m.tone.median_l.lt(num(0x3ec2_8f5c)) && m.tone.median_l.lt(num(0x3eb3_3333))
        && cast_chroma.gt(num(0x3d23_d70a)) && sky_ratio.lt(num(0x3d4c_cccd)) {
        SceneType::Night
    // 25, 55, 0.03
    } else if cast_hue.ge(num(0x41c8_0000)) && cast_hue.le(num(0x425c_0000))
        && cast_chroma.gt(num(0x3cf5_c28f)) {
        SceneType::GoldenHour
    // 190, 270, 0.06
    } else if (cast_hue.ge(num(0x433e_0000)) && cast_hue.le(num(0x4387_0000)))
        || mean_c.lt(num(0x3d75_c28f)) {
        SceneType::Overcast
    } else if mean_c.gt(num(0x3e38_51ec)) {  // 0.18
        SceneType::Vivid
    } else if m.tone.std_l.lt(num(0x3df5_c28f)) && mean_c.lt(num(0x3d8f_5c29)) {  // 0.12, 0.07
        SceneType::FlatLowContrast
    } else {
        SceneType::NormalMid
    }
}

/// What is added up over the colours of a picture.
#[derive(Clone, Copy, Debug, PartialEq, Eq, Structural)]
pub struct ColorSums {
    /// Chroma.
    pub c: Double,
    /// Chroma of the dark pixels.
    pub shadow_c: Double,
    /// The dull pixels along the two axes of colour.
    pub cast_a: Double,
    pub cast_b: Double,
    /// Sines of the hues.
    pub sin: Double,
    /// Cosines of the hues.
    pub cos: Double,
    /// Hues of the sky.
    pub sky_h: Double,
}

/// The sums over the first `n` pixels, the cosines and sines of whose hues are `turns`.
pub open spec fn color_sums_of(s: ColorSums, v: Seq<Lch>, turns: Seq<(Single, Single)>, n: int) -> bool {
    &&& s.c == sum_of_all(|i: int| Double::from_single(v[i].c), n)
    &&& s.shadow_c == sum_where(
        |i: int| spec_is_shadow(&v[i]),
        |i: int| Double::from_single(v[i].c),
        n,
    )
    &&& s.cast_a == sum_where(
        |i: int| spec_is_dull(&v[i]),
        |i: int| Double::from_single(turns[i].0.times(v[i].c)),
        n,
    )
    &&& s.cast_b == sum_where(
        |i: int| spec_is_dull(&v[i]),
        |i: int| Double::from_single(turns[i].1.times(v[i].c)),
        n,
    )
    &&& s.sin == sum_of_all(|i: int| Double::from_single(turns[i].1), n)
    &&& s.cos == sum_of_all(|i: int| Double::from_single(turns[i].0), n)
    &&& s.sky_h == sum_where(|i: int| spec_is_sky(&v[i]), |i: int| Double::from_single(v[i].h), n)
}

/// Adds up the colours of a picture.
pub fn add_colors(v: &Vec<Lch>, turns: &Vec<(Single, Single)>) -> (s: ColorSums)
    requires
        turns@.len() == v@.len(),
    ensures
        color_sums_of(s, v@, turns@, v@.len() as int),
{
    let zero: Double = wide(0);
    let mut s: ColorSums = ColorSums {
        c: zero,
        shadow_c: zero,
        cast_a: zero,
        cast_b: zero,
        sin: zero,
        cos: zero,
        sky_h: zero,
    };
    let mut k: usize = 0;
    while k < v.len()
        invariant
            k <= v@.len(),
            turns@.len() == v@.len(),
            color_sums_of(s, v@, turns@, k as int),
        decreases v@.len() - k,
    {
        let p: Lch = v[k];
        let (cos, sin): (Single, Single) = turns[k];
        s.c = s.c.plus(Double::from_single(p.c));
        if is_shadow(&p) {
            s.shadow_c = s.shadow_c.plus(Double::from_single(p.c));
        }
        if is_dull(&p) {
            s.cast_a = s.cast_a.plus(Double::from_single(cos.times(p.c)));
            s.cast_b = s.cast_b.plus(Double::from_single(sin.times(p.c)));
        }
        s.sin = s.sin.plus(Double::from_single(sin));
        s.cos = s.cos.plus(Double::from_single(cos));
        if is_sky(&p) {
            s.sky_h = s.sky_h.plus(Double::from_single(p.h));
        }
        k = k + 1;
    }
    s
}

pub open spec fn spec_mean_chroma(sum: Double, count: u64) -> Single {
    sum.over(Double::from_single(Single::spec_from_int(count as int))).narrowed()
}

/// The mean chroma; the count is taken as a single.
#[verifier::when_used_as_spec(spec_mean_chroma)]
pub fn mean_chroma(sum: Double, count: u64) -> (r: Single)
    ensures
        r == spec_mean_chroma(sum, count),
{
    sum.over(Double::from_single(Single::from_int(count as i128))).narrowed()
}

pub open spec fn spec_cast_means(t: &ColorCounts, s: &ColorSums) -> (Single, Single) {
    (mean_of(s.cast_a, t.dull), mean_of(s.cast_b, t.dull))
}

/// The mean of the dull pixels along the two axes of colour.
#[verifier::when_used_as_spec(spec_cast_means)]
pub fn cast_means(t: &ColorCounts, s: &ColorSums) -> (r: (Single, Single))
    ensures
        r == spec_cast_means(t, s),
{
    (mean_of(s.cast_a, t.dull), mean_of(s.cast_b, t.dull))
}

pub open spec fn spec_cast_length(dull: u64, a: Single, b: Single) -> Single {
    if dull > 0 {
        a.times(a).plus(b.times(b)).sqrt()
    } else {
        num(0)
    }
}

/// How strong the cast is: the length of the mean of the dull pixels.
#[verifier::when_used_as_spec(spec_cast_length)]
pub fn cast_length(dull: u64, a: Single, b: Single) -> (r: Single)
    ensures
        r == spec_cast_length(dull, a, b),
{
    if dull > 0 {
        a.times(a).plus(b.times(b)).sqrt()
    } else {
        num(0)
    }
}

pub open spec fn spec_yellow_excess(scene: SceneType, mean_h: Single) -> Single {
    let diff: Single = mean_h.minus(num(0x4220_0000));  // 40
    if scene == SceneType::GoldenHour && diff.gt(num(0x40a0_0000)) {  // 5
        diff.times(num(0x3e99_999a))  // 0.3
    } else {
        num(0)
    }
}

/// How far warm light is too yellow: a third of what lies beyond 40 degrees, from 5 on.
#[verifier::when_used_as_spec(spec_yellow_excess)]
pub fn yellow_excess(scene: SceneType, mean_h: Single) -> (r: Single)
    ensures
        r == spec_yellow_excess(scene, mean_h),
{
    let diff: Single = mean_h.minus(num(0x4220_0000));  // 40
    if scene == SceneType::GoldenHour && diff.gt(num(0x40a0_0000)) {  // 5
        diff.times(num(0x3e99_999a))  // 0.3
    } else {
        num(0)
    }
}

pub open spec fn spec_blue_shortfall(sky: u64, sky_h: Single) -> Single {
    let diff: Single = sky_h.minus(num(0x4370_0000));  // 240
    if sky > 0 && diff.abs().gt(num(0x40a0_0000)) && diff.lt(num(0)) {  // 5
        diff.negated().times(num(0x3e80_0000))  // 0.25
    } else {
        num(0)
    }
}

/// How far the sky falls short of 240 degrees: a quarter of it, from 5 on.
#[verifier::when_used_as_spec(spec_blue_shortfall)]
pub fn blue_shortfall(sky: u64, sky_h: Single) -> (r: Single)
    ensures
        r == spec_blue_shortfall(sky, sky_h),
{
    let diff: Single = sky_h.minus(num(0x4370_0000));  // 240
    if sky > 0 && diff.abs().gt(num(0x40a0_0000)) && diff.lt(num(0)) {  // 5
        diff.negated().times(num(0x3e80_0000))  // 0.25
    } else {
        num(0)
    }
}

pub open spec fn spec_share_of(part: u64, count: u64) -> Single {
    Single::spec_from_int(part as int).over(Single::spec_from_int(count as int).max(num(0x3f80_0000)))
}

/// A share of the pixels.
#[verifier::when_used_as_spec(spec_share_of)]
pub fn share_of(part: u64, count: u64) -> (r: Single)
    ensures
        r == spec_share_of(part, count),
{
    Single::from_int(part as i128).over(Single::from_int(count as i128).max(num(0x3f80_0000)))
}

pub open spec fn spec_measure_color(m: &ImageMetrics, t: &ColorCounts, s: &ColorSums, cast_angle: Single, mean_h: Single) -> ColorMetrics {
    let mean_c: Single = mean_chroma(s.c, t.count);
    let shadow_c: Single = if t.shadow > 0 {
        mean_of(s.shadow_c, t.shadow)
    } else {
        num(0)
    };
    let cast: (Single, Single) = cast_means(t, s);
    let cast_chroma: Single = cast_length(t.dull, cast.0, cast.1);
    let cast_hue: Single = if cast_chroma.gt(num(0x3a83_126f)) {  // 0.001
        cast_angle
    } else {
        num(0)
    };
    let sky_h: Single = if t.sky > 0 {
        mean_of(s.sky_h, t.sky)
    } else {
        num(0)
    };
    let sky_ratio: Single = share_of(t.sky, t.count);
    let green_ratio: Single = share_of(t.green, t.count);
    let scene: SceneType = classify_scene(
        m,
        mean_c,
        cast_hue,
        cast_chroma,
        sky_ratio,
        green_ratio,
    );
    ColorMetrics {
        mean_c,
        shadow_c,
        cast_hue,
        cast_chroma,
        mean_h,
        sky_ratio,
        green_ratio,
        digital_yellow_delta: yellow_excess(scene, mean_h),
        digital_blue_delta: blue_shortfall(t.sky, sky_h),
        scene,
    }
}

/// The colour measurements that counts and sums give. `cast_angle` is the direction opposite to
/// the cast's mean, `mean_h` that of the sums of cosines and sines, both in degrees.
#[verifier::when_used_as_spec(spec_measure_color)]
pub fn measure_color(m: &ImageMetrics, t: &ColorCounts, s: &ColorSums, cast_angle: Single, mean_h: Single) -> (r: ColorMetrics)
    ensures
        r == spec_measure_color(m, t, s, cast_angle, mean_h),
{
    let mean_c: Single = mean_chroma(s.c, t.count);
    let shadow_c: Single = if t.shadow > 0 {
        mean_of(s.shadow_c, t.shadow)
    } else {
        num(0)
    };
    let cast: (Single, Single) = cast_means(t, s);
    let cast_chroma: Single = cast_length(t.dull, cast.0, cast.1);
    let cast_hue: Single = if cast_chroma.gt(num(0x3a83_126f)) {  // 0.001
        cast_angle
    } else {
        num(0)
    };
    let sky_h: Single = if t.sky > 0 {
        mean_of(s.sky_h, t.sky)
    } else {
        num(0)
    };
    let sky_ratio: Single = share_of(t.sky, t.count);
    let green_ratio: Single = share_of(t.green, t.count);
    let scene: SceneType = classify_scene(
        m,
        mean_c,
        cast_hue,
        cast_chroma,
        sky_ratio,
        green_ratio,
    );
    ColorMetrics {
        mean_c,
        shadow_c,
        cast_hue,
        cast_chroma,
        mean_h,
        sky_ratio,
        green_ratio,
        digital_yellow_delta: yellow_excess(scene, mean_h),
        digital_blue_delta: blue_shortfall(t.sky, sky_h),
        scene,
    }
}

/// Measures the colours of a picture, the cosines and sines of whose hues are `turns`.
/// `cast_angle` is the direction opposite to the cast's mean, `mean_h` that of the sums of
/// cosines and sines, both in degrees, as `count_colors` and `add_colors` give them.
pub fn analyze_color(
    m: &ImageMetrics,
    v: &Vec<Lch>,
    turns: &Vec<(Single, Single)>,
    cast_angle: Single,
    mean_h: Single,
) -> (r: ColorMetrics)
    requires
        turns@.len() == v@.len(),
    ensures
        exists|t: ColorCounts, s: ColorSums| #[trigger]
            color_counts_of(t, v@, v@.len() as int) && #[trigger] color_sums_of(
                s,
                v@,
                turns@,
                v@.len() as int,
            ) && r == spec_measure_color(m, &t, &s, cast_angle, mean_h),
{
    let t: ColorCounts = count_colors(v);
    let s: ColorSums = add_colors(v, turns);
    measure_color(m, &t, &s, cast_angle, mean_h)
}

pub open spec fn spec_color_plan(cm: &ColorMetrics, rules: &SceneRules, strength: Single) -> ColorPlan {
    let cf: Single = rules.color_factor.times(strength);
    ColorPlan {
        wb: WhiteBalance::spec_default(),
        vibrance_target: match cm.scene {
            // 0.15, 0.4
            SceneType::FlatLowContrast => num(0x3e19_999a).times(cf).min(num(0x3ecc_cccd)),
            SceneType::Vivid => num(0).times(cf).min(num(0x3dcc_cccd)),  // 0.1
            SceneType::Night => num(0x3d4c_cccd).times(cf).min(num(0x3e19_999a)),  // 0.05, 0.15
            SceneType::Overcast => num(0x3da3_d70a).times(cf).min(num(0x3e99_999a)),  // 0.08, 0.3
            SceneType::GoldenHour => num(0x3d75_c28f).times(cf).min(num(0x3e4c_cccd)),  // 0.06, 0.2
            SceneType::Extreme => num(0x3d23_d70a).times(cf).min(num(0x3e19_999a)),  // 0.04, 0.15
            SceneType::NormalMid => num(0x3da3_d70a).times(cf).min(num(0x3e80_0000)),  // 0.08, 0.25
        },
        saturation_target: match cm.scene {
            // 1, 0.08, 0.2
            SceneType::Vivid => num(0x3f80_0000).minus(num(0x3da3_d70a).times(cf).min(num(0x3e4c_cccd))),
            // 1, 0.06, 0.15
            SceneType::FlatLowContrast => num(0x3f80_0000).plus(num(0x3d75_c28f).times(cf).min(num(0x3e19_999a))),
            _ => num(0x3f80_0000),  // 1
        },
        shadow_chroma_cap: match cm.scene {
            SceneType::Extreme => num(0x3cf5_c28f),  // 0.03
            SceneType::Night => num(0x3d23_d70a),  // 0.04
            SceneType::Vivid => num(0x3d23_d70a),  // 0.04
            _ => num(0x3d4c_cccd),  // 0.05
        },
        warm_boost: if cm.scene == SceneType::GoldenHour {
            num(0x3eb3_3333).times(cf).min(num(0x3f19_999a))  // 0.35, 0.6
        } else {
            num(0)
        },
        sky_boost: if cm.sky_ratio.gt(num(0x3cf5_c28f)) {  // 0.03
            num(0x3e99_999a).times(cf).min(num(0x3f0c_cccd))  // 0.3, 0.55
        } else {
            num(0)
        },
        // 0.05
        green_boost: if cm.green_ratio.gt(num(0x3d4c_cccd)) && cm.scene != SceneType::Night {
            num(0x3e99_999a).times(cf).min(num(0x3f0c_cccd))  // 0.3, 0.55
        } else {
            num(0)
        },
        fluorescent_fix: if (cm.scene == SceneType::NormalMid || cm.scene == SceneType::Overcast)
            // 135, 180, 0.01, 0.06
            && cm.cast_hue.gt(num(0x4307_0000)) && cm.cast_hue.lt(num(0x4334_0000))
                && cm.cast_chroma.gt(num(0x3c23_d70a)) && cm.cast_chroma.lt(num(0x3d75_c28f)) {
            num(0x3ecc_cccd).times(cf).min(num(0x3f33_3333))  // 0.4, 0.7
        } else {
            num(0)
        },
        overcast_warm: if cm.scene == SceneType::Overcast
            // 220, 280, 0.008, 0.05
            || (cm.cast_hue.gt(num(0x435c_0000)) && cm.cast_hue.lt(num(0x438c_0000))
                && cm.cast_chroma.gt(num(0x3c03_126f)) && cm.cast_chroma.lt(num(0x3d4c_cccd))) {
            num(0x3e80_0000).times(cf).min(num(0x3ee6_6666))  // 0.25, 0.45
        } else {
            num(0)
        },
        strength,
    }
}

/// The correction for measured colour. All of it scales with the scene's factor and the
/// strength, up to a limit.
#[verifier::when_used_as_spec(spec_color_plan)]
pub fn color_plan(cm: &ColorMetrics, rules: &SceneRules, strength: Single) -> (r: ColorPlan)
    ensures
        r == spec_color_plan(cm, rules, strength),
{
    let cf: Single = rules.color_factor.times(strength);
    ColorPlan {
        wb: WhiteBalance::default(),
        vibrance_target: match cm.scene {
            // 0.15, 0.4
            SceneType::FlatLowContrast => num(0x3e19_999a).times(cf).min(num(0x3ecc_cccd)),
            SceneType::Vivid => num(0).times(cf).min(num(0x3dcc_cccd)),  // 0.1
            SceneType::Night => num(0x3d4c_cccd).times(cf).min(num(0x3e19_999a)),  // 0.05, 0.15
            SceneType::Overcast => num(0x3da3_d70a).times(cf).min(num(0x3e99_999a)),  // 0.08, 0.3
            SceneType::GoldenHour => num(0x3d75_c28f).times(cf).min(num(0x3e4c_cccd)),  // 0.06, 0.2
            SceneType::Extreme => num(0x3d23_d70a).times(cf).min(num(0x3e19_999a)),  // 0.04, 0.15
            SceneType::NormalMid => num(0x3da3_d70a).times(cf).min(num(0x3e80_0000)),  // 0.08, 0.25
        },
        saturation_target: match cm.scene {
            // 1, 0.08, 0.2
            SceneType::Vivid => num(0x3f80_0000).minus(num(0x3da3_d70a).times(cf).min(num(0x3e4c_cccd))),
            // 1, 0.06, 0.15
            SceneType::FlatLowContrast => num(0x3f80_0000).plus(num(0x3d75_c28f).times(cf).min(num(0x3e19_999a))),
            _ => num(0x3f80_0000),  // 1
        },
        shadow_chroma_cap: match cm.scene {
            SceneType::Extreme => num(0x3cf5_c28f),  // 0.03
            SceneType::Night => num(0x3d23_d70a),  // 0.04
            SceneType::Vivid => num(0x3d23_d70a),  // 0.04
            _ => num(0x3d4c_cccd),  // 0.05
        },
        warm_boost: if cm.scene == SceneType::GoldenHour {
            num(0x3eb3_3333).times(cf).min(num(0x3f19_999a))  // 0.35, 0.6
        } else {
            num(0)
        },
        sky_boost: if cm.sky_ratio.gt(num(0x3cf5_c28f)) {  // 0.03
            num(0x3e99_999a).times(cf).min(num(0x3f0c_cccd))  // 0.3, 0.55
        } else {
            num(0)
        },
        // 0.05
        green_boost: if cm.green_ratio.gt(num(0x3d4c_cccd)) && cm.scene != SceneType::Night {
            num(0x3e99_999a).times(cf).min(num(0x3f0c_cccd))  // 0.3, 0.55
        } else {
            num(0)
        },
        fluorescent_fix: if (cm.scene == SceneType::NormalMid || cm.scene == SceneType::Overcast)
            // 135, 180, 0.01, 0.06
            && cm.cast_hue.gt(num(0x4307_0000)) && cm.cast_hue.lt(num(0x4334_0000))
                && cm.cast_chroma.gt(num(0x3c23_d70a)) && cm.cast_chroma.lt(num(0x3d75_c28f)) {
            num(0x3ecc_cccd).times(cf).min(num(0x3f33_3333))  // 0.4, 0.7
        } else {
            num(0)
        },
        overcast_warm: if cm.scene == SceneType::Overcast
            // 220, 280, 0.008, 0.05
            || (cm.cast_hue.gt(num(0x435c_0000)) && cm.cast_hue.lt(num(0x438c_0000))
                && cm.cast_chroma.gt(num(0x3c03_126f)) && cm.cast_chroma.lt(num(0x3d4c_cccd))) {
            num(0x3e80_0000).times(cf).min(num(0x3ee6_6666))  // 0.25, 0.45
        } else {
            num(0)
        },
        strength,
    }
}

pub open spec fn spec_sky_exponent(h: Single) -> Single {
    let dh: Single = hue_distance(h, num(0x4370_0000));  // 240
    // 2, 20, 20
    dh.times(dh).negated().over(num(0x4000_0000).times(num(0x41a0_0000)).times(num(0x41a0_0000)))
}

/// Where the closeness of a hue to the sky's is taken: exp of this.
#[verifier::when_used_as_spec(spec_sky_exponent)]
pub fn sky_exponent(h: Single) -> (r: Single)
    ensures
        r == spec_sky_exponent(h),
{
    let dh: Single = hue_distance(h, num(0x4370_0000));  // 240
    // 2, 20, 20
    dh.times(dh).negated().over(num(0x4000_0000).times(num(0x41a0_0000)).times(num(0x41a0_0000)))
}

pub open spec fn spec_sky_probability(h: Single, c: Single, l: Single, hue_w: Single) -> Single {
    if hue_distance(h, num(0x4370_0000)).gt(num(0x4248_0000)) {  // 240, 50
        num(0)
    } else if c.lt(num(0x3ca3_d70a)) || c.gt(num(0x3e23_d70a)) {  // 0.02, 0.16
        num(0)
    } else if l.lt(num(0x3e99_999a)) || l.gt(num(0x3f6b_851f)) {  // 0.3, 0.92
        num(0)
    } else {
        let chroma_w: Single = if c.lt(num(0x3d23_d70a)) {  // 0.04
            c.minus(num(0x3ca3_d70a)).over(num(0x3ca3_d70a))  // 0.02, 0.02
        } else {
            num(0x3f80_0000)  // 1
        };
        // 0.3, 0.2, 1, 1, 0.8, 0.12
        let l_w: Single = l.minus(num(0x3e99_999a)).over(num(0x3e4c_cccd)).min(num(0x3f80_0000)).times(num(0x3f80_0000).minus(l.minus(num(0x3f4c_cccd)).over(num(0x3df5_c28f)).max(num(0))));
        hue_w.times(chroma_w).times(l_w).clamp(num(0), num(0x3f80_0000))  // 1
    }
}

/// How much a colour looks like sky, 0 to 1. `hue_w` is its closeness in hue.
#[verifier::when_used_as_spec(spec_sky_probability)]
pub fn sky_probability(h: Single, c: Single, l: Single, hue_w: Single) -> (r: Single)
    ensures
        r == spec_sky_probability(h, c, l, hue_w),
{
    if hue_distance(h, num(0x4370_0000)).gt(num(0x4248_0000)) {  // 240, 50
        num(0)
    } else if c.lt(num(0x3ca3_d70a)) || c.gt(num(0x3e23_d70a)) {  // 0.02, 0.16
        num(0)
    } else if l.lt(num(0x3e99_999a)) || l.gt(num(0x3f6b_851f)) {  // 0.3, 0.92
        num(0)
    } else {
        let chroma_w: Single = if c.lt(num(0x3d23_d70a)) {  // 0.04
            c.minus(num(0x3ca3_d70a)).over(num(0x3ca3_d70a))  // 0.02, 0.02
        } else {
            num(0x3f80_0000)  // 1
        };
        // 0.3, 0.2, 1, 1, 0.8, 0.12
        let l_w: Single = l.minus(num(0x3e99_999a)).over(num(0x3e4c_cccd)).min(num(0x3f80_0000)).times(num(0x3f80_0000).minus(l.minus(num(0x3f4c_cccd)).over(num(0x3df5_c28f)).max(num(0))));
        hue_w.times(chroma_w).times(l_w).clamp(num(0), num(0x3f80_0000))  // 1
    }
}

pub open spec fn spec_green_exponent(h: Single) -> Single {
    let dh: Single = hue_distance(h, num(0x42f0_0000));  // 120
    // 2, 22, 22
    dh.times(dh).negated().over(num(0x4000_0000).times(num(0x41b0_0000)).times(num(0x41b0_0000)))
}

/// Where the closeness of a hue to that of plants is taken: exp of this.
#[verifier::when_used_as_spec(spec_green_exponent)]
pub fn green_exponent(h: Single) -> (r: Single)
    ensures
        r == spec_green_exponent(h),
{
    let dh: Single = hue_distance(h, num(0x42f0_0000));  // 120
    // 2, 22, 22
    dh.times(dh).negated().over(num(0x4000_0000).times(num(0x41b0_0000)).times(num(0x41b0_0000)))
}

pub open spec fn spec_green_probability(h: Single, c: Single, l: Single, hue_w: Single) -> Single {
    if hue_distance(h, num(0x42f0_0000)).gt(num(0x425c_0000)) {  // 120, 55
        num(0)
    } else if c.lt(num(0x3cf5_c28f)) || c.gt(num(0x3e80_0000)) {  // 0.03, 0.25
        num(0)
    } else if l.lt(num(0x3e38_51ec)) || l.gt(num(0x3f66_6666)) {  // 0.18, 0.9
        num(0)
    } else {
        let chroma_w: Single = if c.lt(num(0x3d75_c28f)) {  // 0.06
            c.minus(num(0x3cf5_c28f)).over(num(0x3cf5_c28f))  // 0.03, 0.03
        } else {
            num(0x3f80_0000)  // 1
        };
        // 0.18, 0.15, 1, 1, 0.8, 0.1
        let l_w: Single = l.minus(num(0x3e38_51ec)).over(num(0x3e19_999a)).min(num(0x3f80_0000)).times(num(0x3f80_0000).minus(l.minus(num(0x3f4c_cccd)).over(num(0x3dcc_cccd)).max(num(0))));
        hue_w.times(chroma_w).times(l_w).clamp(num(0), num(0x3f80_0000))  // 1
    }
}

/// How much a colour looks like plants, 0 to 1. `hue_w` is its closeness in hue.
#[verifier::when_used_as_spec(spec_green_probability)]
pub fn green_probability(h: Single, c: Single, l: Single, hue_w: Single) -> (r: Single)
    ensures
        r == spec_green_probability(h, c, l, hue_w),
{
    if hue_distance(h, num(0x42f0_0000)).gt(num(0x425c_0000)) {  // 120, 55
        num(0)
    } else if c.lt(num(0x3cf5_c28f)) || c.gt(num(0x3e80_0000)) {  // 0.03, 0.25
        num(0)
    } else if l.lt(num(0x3e38_51ec)) || l.gt(num(0x3f66_6666)) {  // 0.18, 0.9
        num(0)
    } else {
        let chroma_w: Single = if c.lt(num(0x3d75_c28f)) {  // 0.06
            c.minus(num(0x3cf5_c28f)).over(num(0x3cf5_c28f))  // 0.03, 0.03
        } else {
            num(0x3f80_0000)  // 1
        };
        // 0.18, 0.15, 1, 1, 0.8, 0.1
        let l_w: Single = l.minus(num(0x3e38_51ec)).over(num(0x3e19_999a)).min(num(0x3f80_0000)).times(num(0x3f80_0000).minus(l.minus(num(0x3f4c_cccd)).over(num(0x3dcc_cccd)).max(num(0))));
        hue_w.times(chroma_w).times(l_w).clamp(num(0), num(0x3f80_0000))  // 1
    }
}

pub open spec fn spec_correct_sky(p: Lch, o: Lch, plan: &ColorPlan, hue_w: Single) -> Lch {
    let prob: Single = sky_probability(o.h, o.c, o.l, hue_w);
    let w: Single = plan.sky_boost.times(prob);
    // 205, 265, 0.015, 0.18, 0.3
    if plan.sky_boost.gt(num(0)) && o.h.ge(num(0x434d_0000)) && o.h.le(num(0x4384_8000))
        && o.c.gt(num(0x3c75_c28f)) && o.c.lt(num(0x3e38_51ec)) && o.l.gt(num(0x3e99_999a))
        && prob.gt(num(0)) {
        Lch {
            l: p.l,
            c: if o.h.lt(num(0x4357_0000)) || o.h.gt(num(0x437f_0000)) {  // 215, 255
                o.c.times(num(0x3f80_0000).minus(w.times(num(0x3e19_999a))))  // 1, 0.15
            } else {
                o.c.plus(w.times(num(0x3c75_c28f))).min(num(0x3df5_c28f))  // 0.015, 0.12
            },
            // 242, 0.65
            h: wrap_degrees(o.h.plus(shorter_way(num(0x4372_0000).minus(o.h)).times(w).times(num(0x3f26_6666)))),
        }
    } else {
        p
    }
}

/// Sky moves towards 242 degrees. Off its blue it loses chroma, and gains a little otherwise.
/// `o` is the colour before any correction and `p` the one corrected so far, here and below.
#[verifier::when_used_as_spec(spec_correct_sky)]
pub fn correct_sky(p: Lch, o: Lch, plan: &ColorPlan, hue_w: Single) -> (r: Lch)
    ensures
        r == spec_correct_sky(p, o, plan, hue_w),
{
    let prob: Single = sky_probability(o.h, o.c, o.l, hue_w);
    let w: Single = plan.sky_boost.times(prob);
    // 205, 265, 0.015, 0.18, 0.3
    if plan.sky_boost.gt(num(0)) && o.h.ge(num(0x434d_0000)) && o.h.le(num(0x4384_8000))
        && o.c.gt(num(0x3c75_c28f)) && o.c.lt(num(0x3e38_51ec)) && o.l.gt(num(0x3e99_999a))
        && prob.gt(num(0)) {
        Lch {
            l: p.l,
            c: if o.h.lt(num(0x4357_0000)) || o.h.gt(num(0x437f_0000)) {  // 215, 255
                o.c.times(num(0x3f80_0000).minus(w.times(num(0x3e19_999a))))  // 1, 0.15
            } else {
                o.c.plus(w.times(num(0x3c75_c28f))).min(num(0x3df5_c28f))  // 0.015, 0.12
            },
            // 242, 0.65
            h: wrap_degrees(o.h.plus(shorter_way(num(0x4372_0000).minus(o.h)).times(w).times(num(0x3f26_6666)))),
        }
    } else {
        p
    }
}

pub open spec fn spec_correct_green(p: Lch, o: Lch, plan: &ColorPlan, hue_w: Single) -> Lch {
    let prob: Single = green_probability(o.h, o.c, o.l, hue_w);
    let w: Single = plan.green_boost.times(prob);
    // 80, 160, 0.03, 0.2
    if plan.green_boost.gt(num(0)) && o.h.ge(num(0x42a0_0000)) && o.h.le(num(0x4320_0000))
        && o.c.gt(num(0x3cf5_c28f)) && o.l.gt(num(0x3e4c_cccd)) && prob.gt(num(0)) {
        Lch {
            l: if o.l.lt(num(0x3eb3_3333)) && o.c.gt(num(0x3d4c_cccd)) {  // 0.35, 0.05
                o.l.plus(w.times(num(0x3cf5_c28f))).min(num(0x3ecc_cccd))  // 0.03, 0.4
            } else {
                p.l
            },
            // 0.1, 95, 145
            c: if o.c.gt(num(0x3dcc_cccd)) && (o.h.lt(num(0x42be_0000))
                || o.h.gt(num(0x4311_0000))) {
                o.c.times(num(0x3f80_0000).minus(w.times(num(0x3e80_0000))))  // 1, 0.25
            } else {
                p.c
            },
            h: if o.h.minus(num(0x42ec_0000)).abs().gt(num(0x4140_0000)) {  // 118, 12
                // 118, 0.55
                wrap_degrees(o.h.plus(shorter_way(num(0x42ec_0000).minus(o.h)).times(w).times(num(0x3f0c_cccd))))
            } else {
                p.h
            },
        }
    } else {
        p
    }
}

/// Plants move towards 118 degrees; a strong off-green loses chroma, a dark green gains light.
#[verifier::when_used_as_spec(spec_correct_green)]
pub fn correct_green(p: Lch, o: Lch, plan: &ColorPlan, hue_w: Single) -> (r: Lch)
    ensures
        r == spec_correct_green(p, o, plan, hue_w),
{
    let prob: Single = green_probability(o.h, o.c, o.l, hue_w);
    let w: Single = plan.green_boost.times(prob);
    // 80, 160, 0.03, 0.2
    if plan.green_boost.gt(num(0)) && o.h.ge(num(0x42a0_0000)) && o.h.le(num(0x4320_0000))
        && o.c.gt(num(0x3cf5_c28f)) && o.l.gt(num(0x3e4c_cccd)) && prob.gt(num(0)) {
        Lch {
            l: if o.l.lt(num(0x3eb3_3333)) && o.c.gt(num(0x3d4c_cccd)) {  // 0.35, 0.05
                o.l.plus(w.times(num(0x3cf5_c28f))).min(num(0x3ecc_cccd))  // 0.03, 0.4
            } else {
                p.l
            },
            // 0.1, 95, 145
            c: if o.c.gt(num(0x3dcc_cccd)) && (o.h.lt(num(0x42be_0000))
                || o.h.gt(num(0x4311_0000))) {
                o.c.times(num(0x3f80_0000).minus(w.times(num(0x3e80_0000))))  // 1, 0.25
            } else {
                p.c
            },
            h: if o.h.minus(num(0x42ec_0000)).abs().gt(num(0x4140_0000)) {  // 118, 12
                // 118, 0.55
                wrap_degrees(o.h.plus(shorter_way(num(0x42ec_0000).minus(o.h)).times(w).times(num(0x3f0c_cccd))))
            } else {
                p.h
            },
        }
    } else {
        p
    }
}

pub open spec fn spec_correct_warm(p: Lch, o: Lch, plan: &ColorPlan) -> Lch {
    let dh: Single = num(0x4218_0000).minus(o.h);  // 38
    // 45, 78, 0.03, 1.5
    if plan.warm_boost.gt(num(0)) && o.h.ge(num(0x4234_0000)) && o.h.le(num(0x429c_0000))
        && o.c.gt(num(0x3cf5_c28f)) && dh.abs().gt(num(0x3fc0_0000)) {
        Lch {
            l: if o.l.gt(num(0x3e80_0000)) && o.l.lt(num(0x3f26_6666)) {  // 0.25, 0.65
                // 0.03, 0.68
                o.l.plus(plan.warm_boost.times(num(0x3cf5_c28f))).min(num(0x3f2e_147b))
            } else {
                p.l
            },
            // 0.04, 0.2
            c: o.c.plus(plan.warm_boost.times(num(0x3d23_d70a))).min(num(0x3e4c_cccd)),
            h: wrap_degrees(o.h.plus(dh.times(plan.warm_boost).times(num(0x3f19_999a)))),  // 0.6
        }
    } else {
        p
    }
}

/// Yellow of warm light moves towards orange and gains chroma and light.
#[verifier::when_used_as_spec(spec_correct_warm)]
pub fn correct_warm(p: Lch, o: Lch, plan: &ColorPlan) -> (r: Lch)
    ensures
        r == spec_correct_warm(p, o, plan),
{
    let dh: Single = num(0x4218_0000).minus(o.h);  // 38
    // 45, 78, 0.03, 1.5
    if plan.warm_boost.gt(num(0)) && o.h.ge(num(0x4234_0000)) && o.h.le(num(0x429c_0000))
        && o.c.gt(num(0x3cf5_c28f)) && dh.abs().gt(num(0x3fc0_0000)) {
        Lch {
            l: if o.l.gt(num(0x3e80_0000)) && o.l.lt(num(0x3f26_6666)) {  // 0.25, 0.65
                // 0.03, 0.68
                o.l.plus(plan.warm_boost.times(num(0x3cf5_c28f))).min(num(0x3f2e_147b))
            } else {
                p.l
            },
            // 0.04, 0.2
            c: o.c.plus(plan.warm_boost.times(num(0x3d23_d70a))).min(num(0x3e4c_cccd)),
            h: wrap_degrees(o.h.plus(dh.times(plan.warm_boost).times(num(0x3f19_999a)))),  // 0.6
        }
    } else {
        p
    }
}

pub open spec fn spec_correct_fluorescent(p: Lch, o: Lch, plan: &ColorPlan) -> Lch {
    // 1, 0.06
    let w: Single = plan.fluorescent_fix.times(num(0x3f80_0000).minus(o.c.over(num(0x3d75_c28f))));
    // 135, 180, 0.06, 0.25
    if plan.fluorescent_fix.gt(num(0)) && o.h.ge(num(0x4307_0000)) && o.h.le(num(0x4334_0000))
        && o.c.lt(num(0x3d75_c28f)) && o.l.gt(num(0x3e80_0000)) {
        Lch {
            l: o.l.plus(w.times(num(0x3cf5_c28f))).min(num(0x3f40_0000)),  // 0.03, 0.75
            // 1, 0.5, 0.001
            c: o.c.times(num(0x3f80_0000).minus(w.times(num(0x3f00_0000)))).max(num(0x3a83_126f)),
            h: p.h,
        }
    } else {
        p
    }
}

/// The green of fluorescent light on grey is taken back.
#[verifier::when_used_as_spec(spec_correct_fluorescent)]
pub fn correct_fluorescent(p: Lch, o: Lch, plan: &ColorPlan) -> (r: Lch)
    ensures
        r == spec_correct_fluorescent(p, o, plan),
{
    // 1, 0.06
    let w: Single = plan.fluorescent_fix.times(num(0x3f80_0000).minus(o.c.over(num(0x3d75_c28f))));
    // 135, 180, 0.06, 0.25
    if plan.fluorescent_fix.gt(num(0)) && o.h.ge(num(0x4307_0000)) && o.h.le(num(0x4334_0000))
        && o.c.lt(num(0x3d75_c28f)) && o.l.gt(num(0x3e80_0000)) {
        Lch {
            l: o.l.plus(w.times(num(0x3cf5_c28f))).min(num(0x3f40_0000)),  // 0.03, 0.75
            // 1, 0.5, 0.001
            c: o.c.times(num(0x3f80_0000).minus(w.times(num(0x3f00_0000)))).max(num(0x3a83_126f)),
            h: p.h,
        }
    } else {
        p
    }
}

pub open spec fn spec_correct_overcast(p: Lch, o: Lch, plan: &ColorPlan) -> Lch {
    // 1, 0.04
    let w: Single = plan.overcast_warm.times(num(0x3f80_0000).minus(o.c.over(num(0x3d23_d70a))));
    // 225, 275, 0.04, 0.2, 0.85
    if plan.overcast_warm.gt(num(0)) && o.h.ge(num(0x4361_0000)) && o.h.le(num(0x4389_8000))
        && o.c.lt(num(0x3d23_d70a)) && o.l.gt(num(0x3e4c_cccd)) && o.l.lt(num(0x3f59_999a)) {
        Lch {
            l: o.l.plus(w.times(num(0x3ca3_d70a))).min(num(0x3f61_47ae)),  // 0.02, 0.88
            c: p.c,
            h: wrap_degrees(o.h.minus(num(0x4100_0000).times(w))),  // 8
        }
    } else {
        p
    }
}

/// The blue of an overcast sky on grey is warmed.
#[verifier::when_used_as_spec(spec_correct_overcast)]
pub fn correct_overcast(p: Lch, o: Lch, plan: &ColorPlan) -> (r: Lch)
    ensures
        r == spec_correct_overcast(p, o, plan),
{
    // 1, 0.04
    let w: Single = plan.overcast_warm.times(num(0x3f80_0000).minus(o.c.over(num(0x3d23_d70a))));
    // 225, 275, 0.04, 0.2, 0.85
    if plan.overcast_warm.gt(num(0)) && o.h.ge(num(0x4361_0000)) && o.h.le(num(0x4389_8000))
        && o.c.lt(num(0x3d23_d70a)) && o.l.gt(num(0x3e4c_cccd)) && o.l.lt(num(0x3f59_999a)) {
        Lch {
            l: o.l.plus(w.times(num(0x3ca3_d70a))).min(num(0x3f61_47ae)),  // 0.02, 0.88
            c: p.c,
            h: wrap_degrees(o.h.minus(num(0x4100_0000).times(w))),  // 8
        }
    } else {
        p
    }
}

pub open spec fn spec_correct_shadow(p: Lch, o: Lch, plan: &ColorPlan) -> Lch {
    let t: Single = num(0x3e8f_5c29).minus(o.l).over(num(0x3e8f_5c29));  // 0.28, 0.28
    if o.l.lt(num(0x3e8f_5c29)) && o.c.gt(plan.shadow_chroma_cap) {  // 0.28
        Lch {
            l: p.l,
            // 1, 0.6, 0.6
            c: o.c.times(num(0x3f80_0000).minus(t.times(num(0x3f19_999a)))).plus(plan.shadow_chroma_cap.times(t).times(num(0x3f19_999a))),
            h: p.h,
        }
    } else {
        p
    }
}

/// Chroma of dark colours is drawn towards the cap, the more the darker.
#[verifier::when_used_as_spec(spec_correct_shadow)]
pub fn correct_shadow(p: Lch, o: Lch, plan: &ColorPlan) -> (r: Lch)
    ensures
        r == spec_correct_shadow(p, o, plan),
{
    let t: Single = num(0x3e8f_5c29).minus(o.l).over(num(0x3e8f_5c29));  // 0.28, 0.28
    if o.l.lt(num(0x3e8f_5c29)) && o.c.gt(plan.shadow_chroma_cap) {  // 0.28
        Lch {
            l: p.l,
            // 1, 0.6, 0.6
            c: o.c.times(num(0x3f80_0000).minus(t.times(num(0x3f19_999a)))).plus(plan.shadow_chroma_cap.times(t).times(num(0x3f19_999a))),
            h: p.h,
        }
    } else {
        p
    }
}

pub open spec fn spec_apply_color_correction(px: Lch, plan: &ColorPlan, sky_w: Single, green_w: Single) -> Lch {
    let o: Lch = Lch { l: px.l, c: px.c, h: positive_degrees(px.h) };
    let a: Lch = correct_sky(px, o, plan, sky_w);
    let b: Lch = correct_green(a, o, plan, green_w);
    let c: Lch = correct_warm(b, o, plan);
    let d: Lch = correct_fluorescent(c, o, plan);
    let e: Lch = correct_overcast(d, o, plan);
    correct_shadow(e, o, plan)
}

/// The correction of one colour. `sky_w` and `green_w` are its closeness to the hues of sky and
/// of plants.
#[verifier::when_used_as_spec(spec_apply_color_correction)]
pub fn apply_color_correction(px: Lch, plan: &ColorPlan, sky_w: Single, green_w: Single) -> (r: Lch)
    ensures
        r == spec_apply_color_correction(px, plan, sky_w, green_w),
{
    let o: Lch = Lch { l: px.l, c: px.c, h: positive_degrees(px.h) };
    let a: Lch = correct_sky(px, o, plan, sky_w);
    let b: Lch = correct_green(a, o, plan, green_w);
    let c: Lch = correct_warm(b, o, plan);
    let d: Lch = correct_fluorescent(c, o, plan);
    let e: Lch = correct_overcast(d, o, plan);
    correct_shadow(e, o, plan)
}

/// A plan without any boost leaves all but dark colours alone.
pub proof fn law_empty_plan_keeps_colors(px: Lch, sky_w: Single, green_w: Single)
    requires
        !px.l.lt(num(0x3e8f_5c29)),
    ensures
        apply_color_correction(px, &ColorPlan::spec_default(), sky_w, green_w) == px,
{
}

/// A picture is an extreme scene exactly where its range of lightness is wide, whatever its
/// colours are.
pub proof fn law_wide_range_is_extreme(
    m: &ImageMetrics,
    mean_c: Single,
    cast_hue: Single,
    cast_chroma: Single,
    sky_ratio: Single,
    green_ratio: Single,
)
    ensures
        m.dynamic_range.gt(num(0x3f19_999a)) <==> classify_scene(  // 0.6
            m,
            mean_c,
            cast_hue,
            cast_chroma,
            sky_ratio,
            green_ratio,
        ) == SceneType::Extreme,
{
}

} // verus!
