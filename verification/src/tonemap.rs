//! The tonality of a picture, and the settings that suit it.

use crate::advanced::Advanced;
use crate::analyze::ImageMetrics;
use crate::auto_color::AutoBalance;
use crate::detail::Detail;
use crate::geometry::Geometry;
use crate::pipeline::{
    Adjustments, ColorGrade, DefakeColor, Grade, HslRegions, SkinTone, ToneMapMode, ZoneGrade,
};
use crate::single::{num, Single, INFINITY};
use vstd::prelude::*;

verus! {

/// How bright the picture is as a whole.
#[derive(Clone, Copy, Debug, PartialEq, Eq, Structural)]
pub enum Key {
    Low,
    Mid,
    High,
}

/// How far apart its darkest and its brightest are.
#[derive(Clone, Copy, Debug, PartialEq, Eq, Structural)]
pub enum Span {
    Short,
    Mid,
    Long,
}

/// Whether both ends are clipped.
#[derive(Clone, Copy, Debug, PartialEq, Eq, Structural)]
pub enum Hardness {
    Soft,
    Hard,
}

/// The tonality of one picture.
#[derive(Clone, Copy, Debug)]
pub struct Tonality {
    pub key: Key,
    pub span: Span,
    pub hard: Hardness,
    pub silhouette: bool,
    /// Name for display.
    pub label: &'static str,
}

impl Tonality {
    pub open spec fn spec_is_extreme(self) -> bool {
        self.silhouette || (self.key != Key::Mid && self.span == Span::Long)
    }

    /// A silhouette, or a low or high key with a long span.
    pub fn is_extreme(&self) -> (r: bool)
        ensures
            r == self.spec_is_extreme(),
    {
        self.silhouette || (self.key == Key::Low && self.span == Span::Long) || (self.key
            == Key::High && self.span == Span::Long)
    }
}

pub open spec fn spec_key_of(m: &ImageMetrics) -> Key {
    // 55, 4, 0.66
    if (m.tone.bright_area_pct.ge(num(0x425c_0000))
        && m.exposure.shadow_clip_pct.lt(num(0x4080_0000)))
        || m.tone.median_l.gt(num(0x3f28_f5c3)) {
        Key::High
    // 25, 4, 0.36
    } else if (m.tone.dark_area_pct.ge(num(0x41c8_0000))
        && m.exposure.highlight_clip_pct.lt(num(0x4080_0000)))
        || m.tone.median_l.lt(num(0x3eb8_51ec)) {
        Key::Low
    } else {
        Key::Mid
    }
}

/// High where most of the picture is bright and hardly any of it black, or where the median is
/// high; low where much of it is dark and hardly any of it white, or where the median is low.
#[verifier::when_used_as_spec(spec_key_of)]
pub fn key_of(m: &ImageMetrics) -> (r: Key)
    ensures
        r == spec_key_of(m),
{
    // 55, 4, 0.66
    if (m.tone.bright_area_pct.ge(num(0x425c_0000))
        && m.exposure.shadow_clip_pct.lt(num(0x4080_0000)))
        || m.tone.median_l.gt(num(0x3f28_f5c3)) {
        Key::High
    // 25, 4, 0.36
    } else if (m.tone.dark_area_pct.ge(num(0x41c8_0000))
        && m.exposure.highlight_clip_pct.lt(num(0x4080_0000)))
        || m.tone.median_l.lt(num(0x3eb8_51ec)) {
        Key::Low
    } else {
        Key::Mid
    }
}

pub open spec fn spec_span_of(m: &ImageMetrics) -> Span {
    if m.dynamic_range.lt(num(0x3ea8_f5c3)) {  // 0.33
        Span::Short
    } else if m.dynamic_range.gt(num(0x3f28_f5c3)) {  // 0.66
        Span::Long
    } else {
        Span::Mid
    }
}

/// Short below a third of the whole range, long above two thirds.
#[verifier::when_used_as_spec(spec_span_of)]
pub fn span_of(m: &ImageMetrics) -> (r: Span)
    ensures
        r == spec_span_of(m),
{
    if m.dynamic_range.lt(num(0x3ea8_f5c3)) {  // 0.33
        Span::Short
    } else if m.dynamic_range.gt(num(0x3f28_f5c3)) {  // 0.66
        Span::Long
    } else {
        Span::Mid
    }
}

pub open spec fn spec_hardness_of(m: &ImageMetrics) -> Hardness {
    // 1, 1
    if m.exposure.highlight_clip_pct.gt(num(0x3f80_0000))
        && m.exposure.shadow_clip_pct.gt(num(0x3f80_0000)) {
        Hardness::Hard
    } else {
        Hardness::Soft
    }
}

/// Hard where more than one percent is clipped at either end.
#[verifier::when_used_as_spec(spec_hardness_of)]
pub fn hardness_of(m: &ImageMetrics) -> (r: Hardness)
    ensures
        r == spec_hardness_of(m),
{
    // 1, 1
    if m.exposure.highlight_clip_pct.gt(num(0x3f80_0000))
        && m.exposure.shadow_clip_pct.gt(num(0x3f80_0000)) {
        Hardness::Hard
    } else {
        Hardness::Soft
    }
}

pub open spec fn spec_silhouette_of(m: &ImageMetrics) -> bool {
    m.exposure.shadow_clip_pct.gt(num(0x40c0_0000)) && m.tone.min_l.lt(num(0x3d23_d70a))  // 6, 0.04
}

/// A large part is black.
#[verifier::when_used_as_spec(spec_silhouette_of)]
pub fn silhouette_of(m: &ImageMetrics) -> (r: bool)
    ensures
        r == spec_silhouette_of(m),
{
    m.exposure.shadow_clip_pct.gt(num(0x40c0_0000)) && m.tone.min_l.lt(num(0x3d23_d70a))  // 6, 0.04
}

/// The name of a tonality.
pub open spec fn label_of(key: Key, span: Span, silhouette: bool) -> Seq<char> {
    if silhouette {
        "剪影"@
    } else {
        match (key, span) {
            (Key::Low, Span::Short) => "低短调"@,
            (Key::Low, Span::Mid) => "低中调"@,
            (Key::Low, Span::Long) => "低长调"@,
            (Key::Mid, Span::Short) => "中短调"@,
            (Key::Mid, Span::Mid) => "中中调"@,
            (Key::Mid, Span::Long) => "中长调"@,
            (Key::High, Span::Short) => "高短调"@,
            (Key::High, Span::Mid) => "高中调"@,
            (Key::High, Span::Long) => "高长调"@,
        }
    }
}

/// The tonality that the measurements of a picture show.
pub fn classify_tonality(m: &ImageMetrics) -> (r: Tonality)
    ensures
        r.key == key_of(m),
        r.span == span_of(m),
        r.hard == hardness_of(m),
        r.silhouette == silhouette_of(m),
        r.label@ == label_of(r.key, r.span, r.silhouette),
{
    let key: Key = key_of(m);
    let span: Span = span_of(m);
    let silhouette: bool = silhouette_of(m);
    let label: &'static str = if silhouette {
        "剪影"
    } else {
        match (key, span) {
            (Key::Low, Span::Short) => "低短调",
            (Key::Low, Span::Mid) => "低中调",
            (Key::Low, Span::Long) => "低长调",
            (Key::Mid, Span::Short) => "中短调",
            (Key::Mid, Span::Mid) => "中中调",
            (Key::Mid, Span::Long) => "中长调",
            (Key::High, Span::Short) => "高短调",
            (Key::High, Span::Mid) => "高中调",
            (Key::High, Span::Long) => "高长调",
        }
    };
    Tonality { key, span, hard: hardness_of(m), silhouette, label }
}

pub open spec fn spec_shape_of(key: Key, span: Span) -> (Single, Single, Single, Single, Single) {
    match (key, span) {
        // 0.08, 0.1, 0.08, 0.12, 0.08
        (Key::Low, Span::Short) => (num(0x3da3_d70a), num(0x3dcc_cccd), num(0x3da3_d70a), num(0x3df5_c28f), num(0x3da3_d70a)),
        // 0.14, 0.16, 0.15, 0.1, 0.06
        (Key::Low, Span::Mid) => (num(0x3e0f_5c29), num(0x3e23_d70a), num(0x3e19_999a), num(0x3dcc_cccd), num(0x3d75_c28f)),
        // 0.2, 0.18, 0.2, 0.08, 0.05
        (Key::Low, Span::Long) => (num(0x3e4c_cccd), num(0x3e38_51ec), num(0x3e4c_cccd), num(0x3da3_d70a), num(0x3d4c_cccd)),
        // 0.18, 0.1, 0.08, 0.05, 0.03
        (Key::Mid, Span::Short) => (num(0x3e38_51ec), num(0x3dcc_cccd), num(0x3da3_d70a), num(0x3d4c_cccd), num(0x3cf5_c28f)),
        // 0.24, 0.14, 0.16
        (Key::Mid, Span::Mid) => (num(0x3e75_c28f), num(0x3e0f_5c29), num(0x3e23_d70a), num(0), num(0)),
        // 0.28, 0.14, 0.18
        (Key::Mid, Span::Long) => (num(0x3e8f_5c29), num(0x3e0f_5c29), num(0x3e38_51ec), num(0), num(0)),
        // 0.1, 0.08, 0.12
        (Key::High, Span::Short) => (num(0x3dcc_cccd), num(0x3da3_d70a), num(0x3df5_c28f), num(0), num(0)),
        // 0.18, 0.12, 0.16
        (Key::High, Span::Mid) => (num(0x3e38_51ec), num(0x3df5_c28f), num(0x3e23_d70a), num(0), num(0)),
        // 0.24, 0.14, 0.18
        (Key::High, Span::Long) => (num(0x3e75_c28f), num(0x3e0f_5c29), num(0x3e38_51ec), num(0), num(0)),
    }
}

/// Contrast, film curve, light ratio, lift of the shadows and of the deepest shadows that suit
/// a key and a span.
#[verifier::when_used_as_spec(spec_shape_of)]
pub fn shape_of(key: Key, span: Span) -> (r: (Single, Single, Single, Single, Single))
    ensures
        r == spec_shape_of(key, span),
{
    match (key, span) {
        // 0.08, 0.1, 0.08, 0.12, 0.08
        (Key::Low, Span::Short) => (num(0x3da3_d70a), num(0x3dcc_cccd), num(0x3da3_d70a), num(0x3df5_c28f), num(0x3da3_d70a)),
        // 0.14, 0.16, 0.15, 0.1, 0.06
        (Key::Low, Span::Mid) => (num(0x3e0f_5c29), num(0x3e23_d70a), num(0x3e19_999a), num(0x3dcc_cccd), num(0x3d75_c28f)),
        // 0.2, 0.18, 0.2, 0.08, 0.05
        (Key::Low, Span::Long) => (num(0x3e4c_cccd), num(0x3e38_51ec), num(0x3e4c_cccd), num(0x3da3_d70a), num(0x3d4c_cccd)),
        // 0.18, 0.1, 0.08, 0.05, 0.03
        (Key::Mid, Span::Short) => (num(0x3e38_51ec), num(0x3dcc_cccd), num(0x3da3_d70a), num(0x3d4c_cccd), num(0x3cf5_c28f)),
        // 0.24, 0.14, 0.16
        (Key::Mid, Span::Mid) => (num(0x3e75_c28f), num(0x3e0f_5c29), num(0x3e23_d70a), num(0), num(0)),
        // 0.28, 0.14, 0.18
        (Key::Mid, Span::Long) => (num(0x3e8f_5c29), num(0x3e0f_5c29), num(0x3e38_51ec), num(0), num(0)),
        // 0.1, 0.08, 0.12
        (Key::High, Span::Short) => (num(0x3dcc_cccd), num(0x3da3_d70a), num(0x3df5_c28f), num(0), num(0)),
        // 0.18, 0.12, 0.16
        (Key::High, Span::Mid) => (num(0x3e38_51ec), num(0x3df5_c28f), num(0x3e23_d70a), num(0), num(0)),
        // 0.24, 0.14, 0.18
        (Key::High, Span::Long) => (num(0x3e75_c28f), num(0x3e0f_5c29), num(0x3e38_51ec), num(0), num(0)),
    }
}

pub open spec fn spec_tonal_exposure(key: Key, median_l: Single) -> Single {
    let median: Single = if median_l.abs().lt(num(INFINITY)) {
        median_l
    } else {
        num(0x3f00_0000)  // 0.5
    };
    let target: Single = match key {
        Key::Low => median.plus(num(0x3cf5_c28f)).min(num(0x3eeb_851f)),  // 0.03, 0.46
        Key::Mid => num(0x3f00_0000),  // 0.5
        Key::High => median.plus(num(0x3d23_d70a)).min(num(0x3f28_f5c3)),  // 0.04, 0.66
    };
    target.minus(median).over(num(0x3dcc_cccd)).clamp(num(0), num(0x4000_0000))  // 0.1, 2
}

/// Stops of exposure that bring the median to where the key wants it: a dark picture stays
/// dark, a mid key goes to the middle, a bright one may rise a little. Never below zero.
#[verifier::when_used_as_spec(spec_tonal_exposure)]
pub fn tonal_exposure(key: Key, median_l: Single) -> (r: Single)
    ensures
        r == spec_tonal_exposure(key, median_l),
{
    let median: Single = if median_l.abs().lt(num(INFINITY)) {
        median_l
    } else {
        num(0x3f00_0000)  // 0.5
    };
    let target: Single = match key {
        Key::Low => median.plus(num(0x3cf5_c28f)).min(num(0x3eeb_851f)),  // 0.03, 0.46
        Key::Mid => num(0x3f00_0000),  // 0.5
        Key::High => median.plus(num(0x3d23_d70a)).min(num(0x3f28_f5c3)),  // 0.04, 0.66
    };
    target.minus(median).over(num(0x3dcc_cccd)).clamp(num(0), num(0x4000_0000))  // 0.1, 2
}

pub open spec fn spec_tonal_vibrance(vibrance: Single, mean_c: Single, strength: Single) -> Single {
    if mean_c.lt(num(0x3db8_51ec)) {  // 0.09
        vibrance.plus(num(0x3e38_51ec).times(strength)).min(num(0x3f00_0000))  // 0.18, 0.5
    } else if mean_c.lt(num(0x3e05_1eb8)) {  // 0.13
        vibrance.plus(num(0x3da3_d70a).times(strength)).min(num(0x3ecc_cccd))  // 0.08, 0.4
    } else {
        vibrance
    }
}

/// Vibrance for a picture of the given mean chroma: a pale one gains, in step with the strength.
#[verifier::when_used_as_spec(spec_tonal_vibrance)]
pub fn tonal_vibrance(vibrance: Single, mean_c: Single, strength: Single) -> (r: Single)
    ensures
        r == spec_tonal_vibrance(vibrance, mean_c, strength),
{
    if mean_c.lt(num(0x3db8_51ec)) {  // 0.09
        vibrance.plus(num(0x3e38_51ec).times(strength)).min(num(0x3f00_0000))  // 0.18, 0.5
    } else if mean_c.lt(num(0x3e05_1eb8)) {  // 0.13
        vibrance.plus(num(0x3da3_d70a).times(strength)).min(num(0x3ecc_cccd))  // 0.08, 0.4
    } else {
        vibrance
    }
}

pub open spec fn spec_tonal_grade(key: Key, span: Span, silhouette: bool, std_l: Single, strength: Single) -> Grade {
    let s: (Single, Single, Single, Single, Single) = shape_of(key, span);
    Grade {
        contrast: if silhouette {
            num(0x3d23_d70a).times(strength)  // 0.04
        } else {
            s.0.times(strength)
        },
        film_curve: s.1.times(strength),
        light_ratio: s.2.times(strength),
        shadow_lift: s.3.times(strength),
        deep_shadow_lift: s.4.times(strength),
        dehaze: if std_l.lt(num(0x3e0f_5c29)) {  // 0.14
            num(0x3dcc_cccd).times(strength)  // 0.1
        } else {
            num(0)
        },
        ..Grade::spec_default()
    }
}

/// The lightness settings for a tonality. The strength scales them; a silhouette gets hardly any
/// contrast; a flat picture is dehazed.
#[verifier::when_used_as_spec(spec_tonal_grade)]
pub fn tonal_grade(key: Key, span: Span, silhouette: bool, std_l: Single, strength: Single) -> (r: Grade)
    ensures
        r == spec_tonal_grade(key, span, silhouette, std_l, strength),
{
    let s: (Single, Single, Single, Single, Single) = shape_of(key, span);
    Grade {
        contrast: if silhouette {
            num(0x3d23_d70a).times(strength)  // 0.04
        } else {
            s.0.times(strength)
        },
        film_curve: s.1.times(strength),
        light_ratio: s.2.times(strength),
        shadow_lift: s.3.times(strength),
        deep_shadow_lift: s.4.times(strength),
        dehaze: if std_l.lt(num(0x3e0f_5c29)) {  // 0.14
            num(0x3dcc_cccd).times(strength)  // 0.1
        } else {
            num(0)
        },
        ..Grade::default()
    }
}

pub open spec fn spec_tonal_adjustments(base: &ImageMetrics, bal: &AutoBalance, smart_compensation: bool, strength: Single) -> Adjustments {
    let key: Key = key_of(base);
    let vibrance: Single = if smart_compensation {
        bal.comp_color.vibrance
    } else {
        num(0)
    };
    let saturation: Single = if smart_compensation {
        bal.comp_color.saturation
    } else {
        num(0x3f80_0000)  // 1
    };
    Adjustments {
        exposure_ev: tonal_exposure(key, base.tone.median_l),
        tone_map: ToneMapMode::Off,
        defake: DefakeColor::on(),
        grade: tonal_grade(key, span_of(base), silhouette_of(base), base.tone.std_l, strength),
        white_balance: bal.wb,
        color: ColorGrade {
            vibrance: tonal_vibrance(vibrance, base.color.mean_c, strength),
            saturation,
            ..ColorGrade::spec_default()
        },
        hsl: if smart_compensation {
            bal.comp_hsl
        } else {
            HslRegions::spec_default()
        },
        skin: SkinTone::spec_default(),
        zones: ZoneGrade::spec_default(),
        geometry: Geometry::spec_default(),
        detail: Detail::spec_default(),
        advanced: Advanced::spec_default(),
        color_plan: bal.color_plan,
        mix: num(0x3f80_0000),  // 1
    }
}

/// The settings that suit the tonality of a picture. Colour is neutralised as `bal` says, the
/// tone map stays off, and the whole effect is shown.
#[verifier::when_used_as_spec(spec_tonal_adjustments)]
pub fn tonal_adjustments(base: &ImageMetrics, bal: &AutoBalance, smart_compensation: bool, strength: Single) -> (r: Adjustments)
    ensures
        r == spec_tonal_adjustments(base, bal, smart_compensation, strength),
{
    let key: Key = key_of(base);
    let vibrance: Single = if smart_compensation {
        bal.comp_color.vibrance
    } else {
        num(0)
    };
    let saturation: Single = if smart_compensation {
        bal.comp_color.saturation
    } else {
        num(0x3f80_0000)  // 1
    };
    Adjustments {
        exposure_ev: tonal_exposure(key, base.tone.median_l),
        tone_map: ToneMapMode::Off,
        defake: DefakeColor::on(),
        grade: tonal_grade(key, span_of(base), silhouette_of(base), base.tone.std_l, strength),
        white_balance: bal.wb,
        color: ColorGrade {
            vibrance: tonal_vibrance(vibrance, base.color.mean_c, strength),
            saturation,
            ..ColorGrade::default()
        },
        hsl: if smart_compensation {
            bal.comp_hsl
        } else {
            HslRegions::default()
        },
        skin: SkinTone::default(),
        zones: ZoneGrade::default(),
        geometry: Geometry::default(),
        detail: Detail::default(),
        advanced: Advanced::default(),
        color_plan: bal.color_plan,
        mix: num(0x3f80_0000),  // 1
    }
}

/// A picture is never darkened: the exposure is from 0 to 2 stops, or not a number where the
/// median gives none.
pub proof fn law_exposure_never_darkens(key: Key, median_l: Single)
    ensures
        ({
            let e = tonal_exposure(key, median_l);
            e.is_nan() || (e.ge(num(0)) && e.le(num(0x4000_0000)))  // 2
        }),
{
}

/// Every picture has exactly one key, and a bright one is never taken for a dark one.
pub proof fn law_bright_area_makes_high_key(m: &ImageMetrics)
    requires
        m.tone.bright_area_pct.ge(num(0x425c_0000)),
        m.exposure.shadow_clip_pct.lt(num(0x4080_0000)),  // 4
    ensures
        key_of(m) == Key::High,
{
}

/// Automatic settings leave skin smoothing and fusion off and show the whole effect.
pub proof fn law_tonal_settings_are_safe(
    base: &ImageMetrics,
    bal: &AutoBalance,
    smart: bool,
    strength: Single,
)
    ensures
        ({
            let a = tonal_adjustments(base, bal, smart, strength);
            &&& a.advanced == Advanced::spec_default()
            &&& a.tone_map == ToneMapMode::Off
            &&& a.mix == num(0x3f80_0000)
        }),
{
}

} // verus!
