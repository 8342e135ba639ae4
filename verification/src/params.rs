//! The controls: the settings that a slider or a patch can reach, and how each is shown.

use crate::advanced::{Advanced, FreqSepSkin, PyramidFusion};
use crate::detail::Detail;
use crate::geometry::Geometry;
use crate::perceptual::{raw_to_slider, slider_to_raw, CurveKind};
use crate::perceptual::{are_close, bend_at, law_position_reads_back};
use crate::perceptual::{spec_raw_to_slider, spec_slider_to_raw};
use crate::pipeline::{
    Adjustments, ColorGrade, Grade, HslRegions, SkinTone, WhiteBalance, ZoneGrade,
};
use crate::single::{is_moderate, num, Single};
use crate::text::{
    after_head, chars_of, decimal_text, digits, has_head, index_in, law_index_reads_back, read_index, spells,
};
use vstd::prelude::*;
use vstd::string::*;

verus! {

/// One setting that is a number.
#[derive(Clone, Copy, Debug, PartialEq, Eq, Structural)]
pub enum Field {
    ExposureEv,
    FilmCurve,
    LightRatio,
    BrightnessLift,
    Contrast,
    Dehaze,
    ShadowLift,
    DeepShadowLift,
    WBTemp,
    WBTint,
    Saturation,
    Vibrance,
    HueRotate,
    SplitShadow,
    SplitHighlight,
    SkinStrength,
    SkinHue,
    SkinChroma,
    SkinLight,
    SkinYellowReduce,
    SkinLighten,
    SkinRedden,
    SkinPinken,
    /// Hue of a band.
    HslHue(usize),
    /// Saturation of a band.
    HslSat(usize),
    /// Lightness of a band.
    HslLight(usize),
    /// Lift of a zone of lightness.
    Zone(usize),
    GeomRotate,
    GeomPerspV,
    GeomPerspH,
    DetailDenoise,
    DetailSharpen,
    DetailDiffuse,
    FreqSepStrength,
    FreqSepTexture,
    FreqSepSmooth,
    FreqSepFeather,
    PyramidStrength,
    PyramidScale,
}

/// An array of eight numbers with one of them replaced.
pub open spec fn with_eighth(x: [Single; 8], i: int, v: Single) -> [Single; 8] {
    [
        if i == 0 { v } else { x[0] },
        if i == 1 { v } else { x[1] },
        if i == 2 { v } else { x[2] },
        if i == 3 { v } else { x[3] },
        if i == 4 { v } else { x[4] },
        if i == 5 { v } else { x[5] },
        if i == 6 { v } else { x[6] },
        if i == 7 { v } else { x[7] },
    ]
}

/// An array of four numbers with one of them replaced.
pub open spec fn with_fourth(x: [Single; 4], i: int, v: Single) -> [Single; 4] {
    [
        if i == 0 { v } else { x[0] },
        if i == 1 { v } else { x[1] },
        if i == 2 { v } else { x[2] },
        if i == 3 { v } else { x[3] },
    ]
}

/// The vertical keystone; zero where none is set.
pub open spec fn keystone_v(p: Option<(Single, Single)>) -> Single {
    match p {
        Some(q) => q.0,
        None => num(0),
    }
}

/// The horizontal keystone; zero where none is set.
pub open spec fn keystone_h(p: Option<(Single, Single)>) -> Single {
    match p {
        Some(q) => q.1,
        None => num(0),
    }
}

impl Field {
    /// Bands run from 0 to 7 and zones from 0 to 3.
    pub open spec fn valid(self) -> bool {
        match self {
            Field::HslHue(i) => i < 8,
            Field::HslSat(i) => i < 8,
            Field::HslLight(i) => i < 8,
            Field::Zone(i) => i < 4,
            _ => true,
        }
    }

    /// Whether bands and zones are in range.
    pub fn is_valid(&self) -> (r: bool)
        ensures
            r == self.valid(),
    {
        match self {
            Field::HslHue(i) => *i < 8,
            Field::HslSat(i) => *i < 8,
            Field::HslLight(i) => *i < 8,
            Field::Zone(i) => *i < 4,
            _ => true,
        }
    }

    /// The setting's value.
    pub open spec fn value_in(self, a: Adjustments) -> Single {
        match self {
            Field::ExposureEv => a.exposure_ev,
            Field::FilmCurve => a.grade.film_curve,
            Field::LightRatio => a.grade.light_ratio,
            Field::BrightnessLift => a.grade.brightness_lift,
            Field::Contrast => a.grade.contrast,
            Field::Dehaze => a.grade.dehaze,
            Field::ShadowLift => a.grade.shadow_lift,
            Field::DeepShadowLift => a.grade.deep_shadow_lift,
            Field::WBTemp => a.white_balance.temp,
            Field::WBTint => a.white_balance.tint,
            Field::Saturation => a.color.saturation,
            Field::Vibrance => a.color.vibrance,
            Field::HueRotate => a.color.hue_rotate,
            Field::SplitShadow => a.color.split_shadow,
            Field::SplitHighlight => a.color.split_highlight,
            Field::SkinStrength => a.skin.strength,
            Field::SkinHue => a.skin.hue_target,
            Field::SkinChroma => a.skin.chroma_target,
            Field::SkinLight => a.skin.light_lift,
            Field::SkinYellowReduce => a.skin.yellow_reduce,
            Field::SkinLighten => a.skin.lighten,
            Field::SkinRedden => a.skin.redden,
            Field::SkinPinken => a.skin.pinken,
            Field::HslHue(i) => a.hsl.hue_shift[i as int],
            Field::HslSat(i) => a.hsl.sat_mult[i as int],
            Field::HslLight(i) => a.hsl.light_mult[i as int],
            Field::Zone(i) => a.zones.lift[i as int],
            Field::GeomRotate => a.geometry.rotate_deg,
            Field::GeomPerspV => keystone_v(a.geometry.perspective),
            Field::GeomPerspH => keystone_h(a.geometry.perspective),
            Field::DetailDenoise => a.detail.denoise,
            Field::DetailSharpen => a.detail.sharpen,
            Field::DetailDiffuse => a.detail.diffuse,
            Field::FreqSepStrength => a.advanced.freqsep.strength,
            Field::FreqSepTexture => a.advanced.freqsep.texture_keep,
            Field::FreqSepSmooth => a.advanced.freqsep.smoothness,
            Field::FreqSepFeather => a.advanced.freqsep.mask_feather,
            Field::PyramidStrength => a.advanced.pyramid.strength,
            Field::PyramidScale => a.advanced.pyramid.detail_scale,
        }
    }

    /// The settings with this one given a new value.
    pub open spec fn with_value(self, a: Adjustments, v: Single) -> Adjustments {
        match self {
            Field::ExposureEv => Adjustments { exposure_ev: v, ..a },
            Field::FilmCurve => Adjustments { grade: Grade { film_curve: v, ..a.grade }, ..a },
            Field::LightRatio => Adjustments { grade: Grade { light_ratio: v, ..a.grade }, ..a },
            Field::BrightnessLift => Adjustments { grade: Grade { brightness_lift: v, ..a.grade }, ..a },
            Field::Contrast => Adjustments { grade: Grade { contrast: v, ..a.grade }, ..a },
            Field::Dehaze => Adjustments { grade: Grade { dehaze: v, ..a.grade }, ..a },
            Field::ShadowLift => Adjustments { grade: Grade { shadow_lift: v, ..a.grade }, ..a },
            Field::DeepShadowLift => Adjustments { grade: Grade { deep_shadow_lift: v, ..a.grade }, ..a },
            Field::WBTemp => Adjustments { white_balance: WhiteBalance { temp: v, ..a.white_balance }, ..a },
            Field::WBTint => Adjustments { white_balance: WhiteBalance { tint: v, ..a.white_balance }, ..a },
            Field::Saturation => Adjustments { color: ColorGrade { saturation: v, ..a.color }, ..a },
            Field::Vibrance => Adjustments { color: ColorGrade { vibrance: v, ..a.color }, ..a },
            Field::HueRotate => Adjustments { color: ColorGrade { hue_rotate: v, ..a.color }, ..a },
            Field::SplitShadow => Adjustments { color: ColorGrade { split_shadow: v, ..a.color }, ..a },
            Field::SplitHighlight => Adjustments { color: ColorGrade { split_highlight: v, ..a.color }, ..a },
            Field::SkinStrength => Adjustments { skin: SkinTone { strength: v, ..a.skin }, ..a },
            Field::SkinHue => Adjustments { skin: SkinTone { hue_target: v, ..a.skin }, ..a },
            Field::SkinChroma => Adjustments { skin: SkinTone { chroma_target: v, ..a.skin }, ..a },
            Field::SkinLight => Adjustments { skin: SkinTone { light_lift: v, ..a.skin }, ..a },
            Field::SkinYellowReduce => Adjustments { skin: SkinTone { yellow_reduce: v, ..a.skin }, ..a },
            Field::SkinLighten => Adjustments { skin: SkinTone { lighten: v, ..a.skin }, ..a },
            Field::SkinRedden => Adjustments { skin: SkinTone { redden: v, ..a.skin }, ..a },
            Field::SkinPinken => Adjustments { skin: SkinTone { pinken: v, ..a.skin }, ..a },
            Field::HslHue(i) => Adjustments {
                hsl: HslRegions { hue_shift: with_eighth(a.hsl.hue_shift, i as int, v), ..a.hsl },
                ..a
            },
            Field::HslSat(i) => Adjustments {
                hsl: HslRegions { sat_mult: with_eighth(a.hsl.sat_mult, i as int, v), ..a.hsl },
                ..a
            },
            Field::HslLight(i) => Adjustments {
                hsl: HslRegions { light_mult: with_eighth(a.hsl.light_mult, i as int, v), ..a.hsl },
                ..a
            },
            Field::Zone(i) => Adjustments {
                zones: ZoneGrade { lift: with_fourth(a.zones.lift, i as int, v) },
                ..a
            },
            Field::GeomRotate => Adjustments { geometry: Geometry { rotate_deg: v, ..a.geometry }, ..a },
            Field::GeomPerspV => Adjustments {
                geometry: Geometry {
                    perspective: Some((v, keystone_h(a.geometry.perspective))),
                    ..a.geometry
                },
                ..a
            },
            Field::GeomPerspH => Adjustments {
                geometry: Geometry {
                    perspective: Some((keystone_v(a.geometry.perspective), v)),
                    ..a.geometry
                },
                ..a
            },
            Field::DetailDenoise => Adjustments { detail: Detail { denoise: v, ..a.detail }, ..a },
            Field::DetailSharpen => Adjustments { detail: Detail { sharpen: v, ..a.detail }, ..a },
            Field::DetailDiffuse => Adjustments { detail: Detail { diffuse: v, ..a.detail }, ..a },
            Field::FreqSepStrength => Adjustments {
                advanced: Advanced {
                    freqsep: FreqSepSkin { strength: v, ..a.advanced.freqsep },
                    ..a.advanced
                },
                ..a
            },
            Field::FreqSepTexture => Adjustments {
                advanced: Advanced {
                    freqsep: FreqSepSkin { texture_keep: v, ..a.advanced.freqsep },
                    ..a.advanced
                },
                ..a
            },
            Field::FreqSepSmooth => Adjustments {
                advanced: Advanced {
                    freqsep: FreqSepSkin { smoothness: v, ..a.advanced.freqsep },
                    ..a.advanced
                },
                ..a
            },
            Field::FreqSepFeather => Adjustments {
                advanced: Advanced {
                    freqsep: FreqSepSkin { mask_feather: v, ..a.advanced.freqsep },
                    ..a.advanced
                },
                ..a
            },
            Field::PyramidStrength => Adjustments {
                advanced: Advanced {
                    pyramid: PyramidFusion { strength: v, ..a.advanced.pyramid },
                    ..a.advanced
                },
                ..a
            },
            Field::PyramidScale => Adjustments {
                advanced: Advanced {
                    pyramid: PyramidFusion { detail_scale: v, ..a.advanced.pyramid },
                    ..a.advanced
                },
                ..a
            },
        }
    }

    /// The setting's stable name. A band or a zone is named with its number.
    pub open spec fn name(self) -> Seq<char> {
        match self {
            Field::ExposureEv => "exposure_ev"@,
            Field::FilmCurve => "film_curve"@,
            Field::LightRatio => "light_ratio"@,
            Field::BrightnessLift => "brightness_lift"@,
            Field::Contrast => "contrast"@,
            Field::Dehaze => "dehaze"@,
            Field::ShadowLift => "shadow_lift"@,
            Field::DeepShadowLift => "deep_shadow_lift"@,
            Field::WBTemp => "wb_temp"@,
            Field::WBTint => "wb_tint"@,
            Field::Saturation => "saturation"@,
            Field::Vibrance => "vibrance"@,
            Field::HueRotate => "hue_rotate"@,
            Field::SplitShadow => "split_shadow"@,
            Field::SplitHighlight => "split_highlight"@,
            Field::SkinStrength => "skin_strength"@,
            Field::SkinHue => "skin_hue"@,
            Field::SkinChroma => "skin_chroma"@,
            Field::SkinLight => "skin_light"@,
            Field::SkinYellowReduce => "skin_yellow_reduce"@,
            Field::SkinLighten => "skin_lighten"@,
            Field::SkinRedden => "skin_redden"@,
            Field::SkinPinken => "skin_pinken"@,
            Field::HslHue(i) => "hsl_hue_"@ + digits(i as nat),
            Field::HslSat(i) => "hsl_sat_"@ + digits(i as nat),
            Field::HslLight(i) => "hsl_light_"@ + digits(i as nat),
            Field::Zone(i) => "zone_"@ + digits(i as nat),
            Field::GeomRotate => "geom_rotate"@,
            Field::GeomPerspV => "geom_persp_v"@,
            Field::GeomPerspH => "geom_persp_h"@,
            Field::DetailDenoise => "detail_denoise"@,
            Field::DetailSharpen => "detail_sharpen"@,
            Field::DetailDiffuse => "detail_diffuse"@,
            Field::FreqSepStrength => "freqsep_strength"@,
            Field::FreqSepTexture => "freqsep_texture"@,
            Field::FreqSepSmooth => "freqsep_smooth"@,
            Field::FreqSepFeather => "freqsep_feather"@,
            Field::PyramidStrength => "pyramid_strength"@,
            Field::PyramidScale => "pyramid_scale"@,
        }
    }
}

/// The setting that a name stands for.
pub open spec fn field_named(s: Seq<char>) -> Option<Field> {
    if s == "exposure_ev"@ {
        Some(Field::ExposureEv)
    } else if s == "film_curve"@ {
        Some(Field::FilmCurve)
    } else if s == "light_ratio"@ {
        Some(Field::LightRatio)
    } else if s == "brightness_lift"@ {
        Some(Field::BrightnessLift)
    } else if s == "contrast"@ {
        Some(Field::Contrast)
    } else if s == "dehaze"@ {
        Some(Field::Dehaze)
    } else if s == "shadow_lift"@ {
        Some(Field::ShadowLift)
    } else if s == "deep_shadow_lift"@ {
        Some(Field::DeepShadowLift)
    } else if s == "wb_temp"@ {
        Some(Field::WBTemp)
    } else if s == "wb_tint"@ {
        Some(Field::WBTint)
    } else if s == "saturation"@ {
        Some(Field::Saturation)
    } else if s == "vibrance"@ {
        Some(Field::Vibrance)
    } else if s == "hue_rotate"@ {
        Some(Field::HueRotate)
    } else if s == "split_shadow"@ {
        Some(Field::SplitShadow)
    } else if s == "split_highlight"@ {
        Some(Field::SplitHighlight)
    } else if s == "skin_strength"@ {
        Some(Field::SkinStrength)
    } else if s == "skin_hue"@ {
        Some(Field::SkinHue)
    } else if s == "skin_chroma"@ {
        Some(Field::SkinChroma)
    } else if s == "skin_light"@ {
        Some(Field::SkinLight)
    } else if s == "skin_yellow_reduce"@ {
        Some(Field::SkinYellowReduce)
    } else if s == "skin_lighten"@ {
        Some(Field::SkinLighten)
    } else if s == "skin_redden"@ {
        Some(Field::SkinRedden)
    } else if s == "skin_pinken"@ {
        Some(Field::SkinPinken)
    } else if s == "geom_rotate"@ {
        Some(Field::GeomRotate)
    } else if s == "geom_persp_v"@ {
        Some(Field::GeomPerspV)
    } else if s == "geom_persp_h"@ {
        Some(Field::GeomPerspH)
    } else if s == "detail_denoise"@ {
        Some(Field::DetailDenoise)
    } else if s == "detail_sharpen"@ {
        Some(Field::DetailSharpen)
    } else if s == "detail_diffuse"@ {
        Some(Field::DetailDiffuse)
    } else if s == "freqsep_strength"@ {
        Some(Field::FreqSepStrength)
    } else if s == "freqsep_texture"@ {
        Some(Field::FreqSepTexture)
    } else if s == "freqsep_smooth"@ {
        Some(Field::FreqSepSmooth)
    } else if s == "freqsep_feather"@ {
        Some(Field::FreqSepFeather)
    } else if s == "pyramid_strength"@ {
        Some(Field::PyramidStrength)
    } else if s == "pyramid_scale"@ {
        Some(Field::PyramidScale)
    } else if has_head(s, "hsl_hue_"@) {
        match index_in(s.skip("hsl_hue_"@.len() as int)) {
            Some(i) => Some(Field::HslHue(i)),
            None => None,
        }
    } else if has_head(s, "hsl_sat_"@) {
        match index_in(s.skip("hsl_sat_"@.len() as int)) {
            Some(i) => Some(Field::HslSat(i)),
            None => None,
        }
    } else if has_head(s, "hsl_light_"@) {
        match index_in(s.skip("hsl_light_"@.len() as int)) {
            Some(i) => Some(Field::HslLight(i)),
            None => None,
        }
    } else if has_head(s, "zone_"@) {
        match index_in(s.skip("zone_"@.len() as int)) {
            Some(i) => Some(Field::Zone(i)),
            None => None,
        }
    } else {
        None
    }
}

impl Field {
    /// Reads the setting.
    pub fn get(&self, a: &Adjustments) -> (r: Single)
        requires
            self.valid(),
        ensures
            r == self.value_in(*a),
    {
        match self {
            Field::ExposureEv => a.exposure_ev,
            Field::FilmCurve => a.grade.film_curve,
            Field::LightRatio => a.grade.light_ratio,
            Field::BrightnessLift => a.grade.brightness_lift,
            Field::Contrast => a.grade.contrast,
            Field::Dehaze => a.grade.dehaze,
            Field::ShadowLift => a.grade.shadow_lift,
            Field::DeepShadowLift => a.grade.deep_shadow_lift,
            Field::WBTemp => a.white_balance.temp,
            Field::WBTint => a.white_balance.tint,
            Field::Saturation => a.color.saturation,
            Field::Vibrance => a.color.vibrance,
            Field::HueRotate => a.color.hue_rotate,
            Field::SplitShadow => a.color.split_shadow,
            Field::SplitHighlight => a.color.split_highlight,
            Field::SkinStrength => a.skin.strength,
            Field::SkinHue => a.skin.hue_target,
            Field::SkinChroma => a.skin.chroma_target,
            Field::SkinLight => a.skin.light_lift,
            Field::SkinYellowReduce => a.skin.yellow_reduce,
            Field::SkinLighten => a.skin.lighten,
            Field::SkinRedden => a.skin.redden,
            Field::SkinPinken => a.skin.pinken,
            Field::HslHue(i) => a.hsl.hue_shift[*i],
            Field::HslSat(i) => a.hsl.sat_mult[*i],
            Field::HslLight(i) => a.hsl.light_mult[*i],
            Field::Zone(i) => a.zones.lift[*i],
            Field::GeomRotate => a.geometry.rotate_deg,
            Field::GeomPerspV => match a.geometry.perspective {
                Some(q) => q.0,
                None => num(0),
            },
            Field::GeomPerspH => match a.geometry.perspective {
                Some(q) => q.1,
                None => num(0),
            },
            Field::DetailDenoise => a.detail.denoise,
            Field::DetailSharpen => a.detail.sharpen,
            Field::DetailDiffuse => a.detail.diffuse,
            Field::FreqSepStrength => a.advanced.freqsep.strength,
            Field::FreqSepTexture => a.advanced.freqsep.texture_keep,
            Field::FreqSepSmooth => a.advanced.freqsep.smoothness,
            Field::FreqSepFeather => a.advanced.freqsep.mask_feather,
            Field::PyramidStrength => a.advanced.pyramid.strength,
            Field::PyramidScale => a.advanced.pyramid.detail_scale,
        }
    }

    /// Writes the setting and nothing else. A switch beside it stays as it is.
    pub fn set(&self, a: &mut Adjustments, v: Single)
        requires
            self.valid(),
        ensures
            *final(a) == self.with_value(*old(a), v),
    {
        match self {
            Field::ExposureEv => {
                a.exposure_ev = v;
            },
            Field::FilmCurve => {
                a.grade.film_curve = v;
            },
            Field::LightRatio => {
                a.grade.light_ratio = v;
            },
            Field::BrightnessLift => {
                a.grade.brightness_lift = v;
            },
            Field::Contrast => {
                a.grade.contrast = v;
            },
            Field::Dehaze => {
                a.grade.dehaze = v;
            },
            Field::ShadowLift => {
                a.grade.shadow_lift = v;
            },
            Field::DeepShadowLift => {
                a.grade.deep_shadow_lift = v;
            },
            Field::WBTemp => {
                a.white_balance.temp = v;
            },
            Field::WBTint => {
                a.white_balance.tint = v;
            },
            Field::Saturation => {
                a.color.saturation = v;
            },
            Field::Vibrance => {
                a.color.vibrance = v;
            },
            Field::HueRotate => {
                a.color.hue_rotate = v;
            },
            Field::SplitShadow => {
                a.color.split_shadow = v;
            },
            Field::SplitHighlight => {
                a.color.split_highlight = v;
            },
            Field::SkinStrength => {
                a.skin.strength = v;
            },
            Field::SkinHue => {
                a.skin.hue_target = v;
            },
            Field::SkinChroma => {
                a.skin.chroma_target = v;
            },
            Field::SkinLight => {
                a.skin.light_lift = v;
            },
            Field::SkinYellowReduce => {
                a.skin.yellow_reduce = v;
            },
            Field::SkinLighten => {
                a.skin.lighten = v;
            },
            Field::SkinRedden => {
                a.skin.redden = v;
            },
            Field::SkinPinken => {
                a.skin.pinken = v;
            },
            Field::HslHue(i) => {
                a.hsl.hue_shift[*i] = v;
                assert(a.hsl.hue_shift =~= with_eighth(old(a).hsl.hue_shift, *i as int, v));
            },
            Field::HslSat(i) => {
                a.hsl.sat_mult[*i] = v;
                assert(a.hsl.sat_mult =~= with_eighth(old(a).hsl.sat_mult, *i as int, v));
            },
            Field::HslLight(i) => {
                a.hsl.light_mult[*i] = v;
                assert(a.hsl.light_mult =~= with_eighth(old(a).hsl.light_mult, *i as int, v));
            },
            Field::Zone(i) => {
                a.zones.lift[*i] = v;
                assert(a.zones.lift =~= with_fourth(old(a).zones.lift, *i as int, v));
            },
            Field::GeomRotate => {
                a.geometry.rotate_deg = v;
            },
            Field::GeomPerspV => {
                let other: Single = match a.geometry.perspective {
                    Some(q) => q.1,
                    None => num(0),
                };
                a.geometry.perspective = Some((v, other));
            },
            Field::GeomPerspH => {
                let other: Single = match a.geometry.perspective {
                    Some(q) => q.0,
                    None => num(0),
                };
                a.geometry.perspective = Some((other, v));
            },
            Field::DetailDenoise => {
                a.detail.denoise = v;
            },
            Field::DetailSharpen => {
                a.detail.sharpen = v;
            },
            Field::DetailDiffuse => {
                a.detail.diffuse = v;
            },
            Field::FreqSepStrength => {
                a.advanced.freqsep.strength = v;
            },
            Field::FreqSepTexture => {
                a.advanced.freqsep.texture_keep = v;
            },
            Field::FreqSepSmooth => {
                a.advanced.freqsep.smoothness = v;
            },
            Field::FreqSepFeather => {
                a.advanced.freqsep.mask_feather = v;
            },
            Field::PyramidStrength => {
                a.advanced.pyramid.strength = v;
            },
            Field::PyramidScale => {
                a.advanced.pyramid.detail_scale = v;
            },
        }
    }

    /// The stable name of the setting.
    pub fn id(&self) -> (r: String)
        ensures
            r@ == self.name(),
    {
        match self {
            Field::ExposureEv => "exposure_ev".to_string(),
            Field::FilmCurve => "film_curve".to_string(),
            Field::LightRatio => "light_ratio".to_string(),
            Field::BrightnessLift => "brightness_lift".to_string(),
            Field::Contrast => "contrast".to_string(),
            Field::Dehaze => "dehaze".to_string(),
            Field::ShadowLift => "shadow_lift".to_string(),
            Field::DeepShadowLift => "deep_shadow_lift".to_string(),
            Field::WBTemp => "wb_temp".to_string(),
            Field::WBTint => "wb_tint".to_string(),
            Field::Saturation => "saturation".to_string(),
            Field::Vibrance => "vibrance".to_string(),
            Field::HueRotate => "hue_rotate".to_string(),
            Field::SplitShadow => "split_shadow".to_string(),
            Field::SplitHighlight => "split_highlight".to_string(),
            Field::SkinStrength => "skin_strength".to_string(),
            Field::SkinHue => "skin_hue".to_string(),
            Field::SkinChroma => "skin_chroma".to_string(),
            Field::SkinLight => "skin_light".to_string(),
            Field::SkinYellowReduce => "skin_yellow_reduce".to_string(),
            Field::SkinLighten => "skin_lighten".to_string(),
            Field::SkinRedden => "skin_redden".to_string(),
            Field::SkinPinken => "skin_pinken".to_string(),
            Field::HslHue(i) => "hsl_hue_".to_string().concat(decimal_text(*i).as_str()),
            Field::HslSat(i) => "hsl_sat_".to_string().concat(decimal_text(*i).as_str()),
            Field::HslLight(i) => "hsl_light_".to_string().concat(decimal_text(*i).as_str()),
            Field::Zone(i) => "zone_".to_string().concat(decimal_text(*i).as_str()),
            Field::GeomRotate => "geom_rotate".to_string(),
            Field::GeomPerspV => "geom_persp_v".to_string(),
            Field::GeomPerspH => "geom_persp_h".to_string(),
            Field::DetailDenoise => "detail_denoise".to_string(),
            Field::DetailSharpen => "detail_sharpen".to_string(),
            Field::DetailDiffuse => "detail_diffuse".to_string(),
            Field::FreqSepStrength => "freqsep_strength".to_string(),
            Field::FreqSepTexture => "freqsep_texture".to_string(),
            Field::FreqSepSmooth => "freqsep_smooth".to_string(),
            Field::FreqSepFeather => "freqsep_feather".to_string(),
            Field::PyramidStrength => "pyramid_strength".to_string(),
            Field::PyramidScale => "pyramid_scale".to_string(),
        }
    }

    /// The setting with the given name.
    pub fn from_id(s: &str) -> (r: Option<Field>)
        ensures
            r == field_named(s@),
    {
        let v: Vec<char> = chars_of(s);
        if spells(&v, "exposure_ev") {
            Some(Field::ExposureEv)
        } else if spells(&v, "film_curve") {
            Some(Field::FilmCurve)
        } else if spells(&v, "light_ratio") {
            Some(Field::LightRatio)
        } else if spells(&v, "brightness_lift") {
            Some(Field::BrightnessLift)
        } else if spells(&v, "contrast") {
            Some(Field::Contrast)
        } else if spells(&v, "dehaze") {
            Some(Field::Dehaze)
        } else if spells(&v, "shadow_lift") {
            Some(Field::ShadowLift)
        } else if spells(&v, "deep_shadow_lift") {
            Some(Field::DeepShadowLift)
        } else if spells(&v, "wb_temp") {
            Some(Field::WBTemp)
        } else if spells(&v, "wb_tint") {
            Some(Field::WBTint)
        } else if spells(&v, "saturation") {
            Some(Field::Saturation)
        } else if spells(&v, "vibrance") {
            Some(Field::Vibrance)
        } else if spells(&v, "hue_rotate") {
            Some(Field::HueRotate)
        } else if spells(&v, "split_shadow") {
            Some(Field::SplitShadow)
        } else if spells(&v, "split_highlight") {
            Some(Field::SplitHighlight)
        } else if spells(&v, "skin_strength") {
            Some(Field::SkinStrength)
        } else if spells(&v, "skin_hue") {
            Some(Field::SkinHue)
        } else if spells(&v, "skin_chroma") {
            Some(Field::SkinChroma)
        } else if spells(&v, "skin_light") {
            Some(Field::SkinLight)
        } else if spells(&v, "skin_yellow_reduce") {
            Some(Field::SkinYellowReduce)
        } else if spells(&v, "skin_lighten") {
            Some(Field::SkinLighten)
        } else if spells(&v, "skin_redden") {
            Some(Field::SkinRedden)
        } else if spells(&v, "skin_pinken") {
            Some(Field::SkinPinken)
        } else if spells(&v, "geom_rotate") {
            Some(Field::GeomRotate)
        } else if spells(&v, "geom_persp_v") {
            Some(Field::GeomPerspV)
        } else if spells(&v, "geom_persp_h") {
            Some(Field::GeomPerspH)
        } else if spells(&v, "detail_denoise") {
            Some(Field::DetailDenoise)
        } else if spells(&v, "detail_sharpen") {
            Some(Field::DetailSharpen)
        } else if spells(&v, "detail_diffuse") {
            Some(Field::DetailDiffuse)
        } else if spells(&v, "freqsep_strength") {
            Some(Field::FreqSepStrength)
        } else if spells(&v, "freqsep_texture") {
            Some(Field::FreqSepTexture)
        } else if spells(&v, "freqsep_smooth") {
            Some(Field::FreqSepSmooth)
        } else if spells(&v, "freqsep_feather") {
            Some(Field::FreqSepFeather)
        } else if spells(&v, "pyramid_strength") {
            Some(Field::PyramidStrength)
        } else if spells(&v, "pyramid_scale") {
            Some(Field::PyramidScale)
        } else if let Some(rest) = after_head(&v, "hsl_hue_") {
            match read_index(&rest) {
                Some(i) => Some(Field::HslHue(i)),
                None => None,
            }
        } else if let Some(rest) = after_head(&v, "hsl_sat_") {
            match read_index(&rest) {
                Some(i) => Some(Field::HslSat(i)),
                None => None,
            }
        } else if let Some(rest) = after_head(&v, "hsl_light_") {
            match read_index(&rest) {
                Some(i) => Some(Field::HslLight(i)),
                None => None,
            }
        } else if let Some(rest) = after_head(&v, "zone_") {
            match read_index(&rest) {
                Some(i) => Some(Field::Zone(i)),
                None => None,
            }
        } else {
            None
        }
    }
}

/// A setting that was written reads back as written.
pub proof fn law_written_value_reads_back(f: Field, a: Adjustments, v: Single)
    requires
        f.valid(),
    ensures
        f.value_in(f.with_value(a, v)) == v,
{
}

/// Writing what a setting already is changes nothing, up to keystones of zero where none are set.
pub proof fn law_same_value_changes_nothing(f: Field, a: Adjustments)
    requires
        f.valid(),
        f == Field::GeomPerspV || f == Field::GeomPerspH ==> a.geometry.perspective is Some,
    ensures
        f.with_value(a, f.value_in(a)) == a,
{
    let b = f.with_value(a, f.value_in(a));
    assert(b.zones.lift =~= a.zones.lift);
    assert(b.hsl.hue_shift =~= a.hsl.hue_shift);
    assert(b.hsl.sat_mult =~= a.hsl.sat_mult);
    assert(b.hsl.light_mult =~= a.hsl.light_mult);
    assert(b.geometry == a.geometry);
}

/// Writing one setting leaves every other one as it was.
pub proof fn law_other_settings_stay(f: Field, g: Field, a: Adjustments, v: Single)
    requires
        f.valid(),
        g.valid(),
        f != g,
    ensures
        g.value_in(f.with_value(a, v)) == g.value_in(a),
{
}

proof fn lemma_name_heads()
    ensures
        "exposure_ev"@.len() == 11 && "exposure_ev"@[0] == 'e' && "exposure_ev"@[1] == 'x',
        "film_curve"@.len() == 10 && "film_curve"@[0] == 'f' && "film_curve"@[1] == 'i',
        "light_ratio"@.len() == 11 && "light_ratio"@[0] == 'l' && "light_ratio"@[1] == 'i',
        "brightness_lift"@.len() == 15 && "brightness_lift"@[0] == 'b' && "brightness_lift"@[1] == 'r',
        "contrast"@.len() == 8 && "contrast"@[0] == 'c' && "contrast"@[1] == 'o',
        "dehaze"@.len() == 6 && "dehaze"@[0] == 'd' && "dehaze"@[1] == 'e',
        "shadow_lift"@.len() == 11 && "shadow_lift"@[0] == 's' && "shadow_lift"@[1] == 'h',
        "deep_shadow_lift"@.len() == 16 && "deep_shadow_lift"@[0] == 'd' && "deep_shadow_lift"@[1] == 'e',
        "wb_temp"@.len() == 7 && "wb_temp"@[0] == 'w' && "wb_temp"@[1] == 'b',
        "wb_tint"@.len() == 7 && "wb_tint"@[0] == 'w' && "wb_tint"@[1] == 'b',
        "saturation"@.len() == 10 && "saturation"@[0] == 's' && "saturation"@[1] == 'a',
        "vibrance"@.len() == 8 && "vibrance"@[0] == 'v' && "vibrance"@[1] == 'i',
        "hue_rotate"@.len() == 10 && "hue_rotate"@[0] == 'h' && "hue_rotate"@[1] == 'u',
        "split_shadow"@.len() == 12 && "split_shadow"@[0] == 's' && "split_shadow"@[1] == 'p',
        "split_highlight"@.len() == 15 && "split_highlight"@[0] == 's' && "split_highlight"@[1] == 'p',
        "skin_strength"@.len() == 13 && "skin_strength"@[0] == 's' && "skin_strength"@[1] == 'k',
        "skin_hue"@.len() == 8 && "skin_hue"@[0] == 's' && "skin_hue"@[1] == 'k',
        "skin_chroma"@.len() == 11 && "skin_chroma"@[0] == 's' && "skin_chroma"@[1] == 'k',
        "skin_light"@.len() == 10 && "skin_light"@[0] == 's' && "skin_light"@[1] == 'k',
        "skin_yellow_reduce"@.len() == 18 && "skin_yellow_reduce"@[0] == 's' && "skin_yellow_reduce"@[1] == 'k',
        "skin_lighten"@.len() == 12 && "skin_lighten"@[0] == 's' && "skin_lighten"@[1] == 'k',
        "skin_redden"@.len() == 11 && "skin_redden"@[0] == 's' && "skin_redden"@[1] == 'k',
        "skin_pinken"@.len() == 11 && "skin_pinken"@[0] == 's' && "skin_pinken"@[1] == 'k',
        "geom_rotate"@.len() == 11 && "geom_rotate"@[0] == 'g' && "geom_rotate"@[1] == 'e',
        "geom_persp_v"@.len() == 12 && "geom_persp_v"@[0] == 'g' && "geom_persp_v"@[1] == 'e',
        "geom_persp_h"@.len() == 12 && "geom_persp_h"@[0] == 'g' && "geom_persp_h"@[1] == 'e',
        "detail_denoise"@.len() == 14 && "detail_denoise"@[0] == 'd' && "detail_denoise"@[1] == 'e',
        "detail_sharpen"@.len() == 14 && "detail_sharpen"@[0] == 'd' && "detail_sharpen"@[1] == 'e',
        "detail_diffuse"@.len() == 14 && "detail_diffuse"@[0] == 'd' && "detail_diffuse"@[1] == 'e',
        "freqsep_strength"@.len() == 16 && "freqsep_strength"@[0] == 'f' && "freqsep_strength"@[1] == 'r',
        "freqsep_texture"@.len() == 15 && "freqsep_texture"@[0] == 'f' && "freqsep_texture"@[1] == 'r',
        "freqsep_smooth"@.len() == 14 && "freqsep_smooth"@[0] == 'f' && "freqsep_smooth"@[1] == 'r',
        "freqsep_feather"@.len() == 15 && "freqsep_feather"@[0] == 'f' && "freqsep_feather"@[1] == 'r',
        "pyramid_strength"@.len() == 16 && "pyramid_strength"@[0] == 'p' && "pyramid_strength"@[1] == 'y',
        "pyramid_scale"@.len() == 13 && "pyramid_scale"@[0] == 'p' && "pyramid_scale"@[1] == 'y',
{
    reveal_strlit("exposure_ev");
    reveal_strlit("film_curve");
    reveal_strlit("light_ratio");
    reveal_strlit("brightness_lift");
    reveal_strlit("contrast");
    reveal_strlit("dehaze");
    reveal_strlit("shadow_lift");
    reveal_strlit("deep_shadow_lift");
    reveal_strlit("wb_temp");
    reveal_strlit("wb_tint");
    reveal_strlit("saturation");
    reveal_strlit("vibrance");
    reveal_strlit("hue_rotate");
    reveal_strlit("split_shadow");
    reveal_strlit("split_highlight");
    reveal_strlit("skin_strength");
    reveal_strlit("skin_hue");
    reveal_strlit("skin_chroma");
    reveal_strlit("skin_light");
    reveal_strlit("skin_yellow_reduce");
    reveal_strlit("skin_lighten");
    reveal_strlit("skin_redden");
    reveal_strlit("skin_pinken");
    reveal_strlit("geom_rotate");
    reveal_strlit("geom_persp_v");
    reveal_strlit("geom_persp_h");
    reveal_strlit("detail_denoise");
    reveal_strlit("detail_sharpen");
    reveal_strlit("detail_diffuse");
    reveal_strlit("freqsep_strength");
    reveal_strlit("freqsep_texture");
    reveal_strlit("freqsep_smooth");
    reveal_strlit("freqsep_feather");
    reveal_strlit("pyramid_strength");
    reveal_strlit("pyramid_scale");
}

proof fn lemma_names_differ()
    ensures
        "exposure_ev"@ != "light_ratio"@,
        "exposure_ev"@ != "shadow_lift"@,
        "exposure_ev"@ != "skin_chroma"@,
        "exposure_ev"@ != "skin_redden"@,
        "exposure_ev"@ != "skin_pinken"@,
        "exposure_ev"@ != "geom_rotate"@,
        "film_curve"@ != "saturation"@,
        "film_curve"@ != "hue_rotate"@,
        "film_curve"@ != "skin_light"@,
        "light_ratio"@ != "shadow_lift"@,
        "light_ratio"@ != "skin_chroma"@,
        "light_ratio"@ != "skin_redden"@,
        "light_ratio"@ != "skin_pinken"@,
        "light_ratio"@ != "geom_rotate"@,
        "brightness_lift"@ != "split_highlight"@,
        "brightness_lift"@ != "freqsep_texture"@,
        "brightness_lift"@ != "freqsep_feather"@,
        "contrast"@ != "vibrance"@,
        "contrast"@ != "skin_hue"@,
        "shadow_lift"@ != "skin_chroma"@,
        "shadow_lift"@ != "skin_redden"@,
        "shadow_lift"@ != "skin_pinken"@,
        "shadow_lift"@ != "geom_rotate"@,
        "deep_shadow_lift"@ != "freqsep_strength"@,
        "deep_shadow_lift"@ != "pyramid_strength"@,
        "wb_temp"@ != "wb_tint"@,
        "saturation"@ != "hue_rotate"@,
        "saturation"@ != "skin_light"@,
        "vibrance"@ != "skin_hue"@,
        "hue_rotate"@ != "skin_light"@,
        "split_shadow"@ != "skin_lighten"@,
        "split_shadow"@ != "geom_persp_v"@,
        "split_shadow"@ != "geom_persp_h"@,
        "split_highlight"@ != "freqsep_texture"@,
        "split_highlight"@ != "freqsep_feather"@,
        "skin_strength"@ != "pyramid_scale"@,
        "skin_chroma"@ != "skin_redden"@,
        "skin_chroma"@ != "skin_pinken"@,
        "skin_chroma"@ != "geom_rotate"@,
        "skin_lighten"@ != "geom_persp_v"@,
        "skin_lighten"@ != "geom_persp_h"@,
        "skin_redden"@ != "skin_pinken"@,
        "skin_redden"@ != "geom_rotate"@,
        "skin_pinken"@ != "geom_rotate"@,
        "geom_persp_v"@ != "geom_persp_h"@,
        "detail_denoise"@ != "detail_sharpen"@,
        "detail_denoise"@ != "detail_diffuse"@,
        "detail_denoise"@ != "freqsep_smooth"@,
        "detail_sharpen"@ != "detail_diffuse"@,
        "detail_sharpen"@ != "freqsep_smooth"@,
        "detail_diffuse"@ != "freqsep_smooth"@,
        "freqsep_strength"@ != "pyramid_strength"@,
        "freqsep_texture"@ != "freqsep_feather"@,
{
    reveal_strlit("exposure_ev");
    reveal_strlit("light_ratio");
    reveal_strlit("shadow_lift");
    reveal_strlit("skin_chroma");
    reveal_strlit("skin_redden");
    reveal_strlit("skin_pinken");
    reveal_strlit("geom_rotate");
    reveal_strlit("film_curve");
    reveal_strlit("saturation");
    reveal_strlit("hue_rotate");
    reveal_strlit("skin_light");
    reveal_strlit("brightness_lift");
    reveal_strlit("split_highlight");
    reveal_strlit("freqsep_texture");
    reveal_strlit("freqsep_feather");
    reveal_strlit("contrast");
    reveal_strlit("vibrance");
    reveal_strlit("skin_hue");
    reveal_strlit("deep_shadow_lift");
    reveal_strlit("freqsep_strength");
    reveal_strlit("pyramid_strength");
    reveal_strlit("wb_temp");
    reveal_strlit("wb_tint");
    reveal_strlit("split_shadow");
    reveal_strlit("skin_lighten");
    reveal_strlit("geom_persp_v");
    reveal_strlit("geom_persp_h");
    reveal_strlit("skin_strength");
    reveal_strlit("pyramid_scale");
    reveal_strlit("detail_denoise");
    reveal_strlit("detail_sharpen");
    reveal_strlit("detail_diffuse");
    reveal_strlit("freqsep_smooth");
    assert("exposure_ev"@[0] != "light_ratio"@[0]);
    assert("exposure_ev"@[0] != "shadow_lift"@[0]);
    assert("exposure_ev"@[0] != "skin_chroma"@[0]);
    assert("exposure_ev"@[0] != "skin_redden"@[0]);
    assert("exposure_ev"@[0] != "skin_pinken"@[0]);
    assert("exposure_ev"@[0] != "geom_rotate"@[0]);
    assert("film_curve"@[0] != "saturation"@[0]);
    assert("film_curve"@[0] != "hue_rotate"@[0]);
    assert("film_curve"@[0] != "skin_light"@[0]);
    assert("light_ratio"@[0] != "shadow_lift"@[0]);
    assert("light_ratio"@[0] != "skin_chroma"@[0]);
    assert("light_ratio"@[0] != "skin_redden"@[0]);
    assert("light_ratio"@[0] != "skin_pinken"@[0]);
    assert("light_ratio"@[0] != "geom_rotate"@[0]);
    assert("brightness_lift"@[0] != "split_highlight"@[0]);
    assert("brightness_lift"@[0] != "freqsep_texture"@[0]);
    assert("brightness_lift"@[0] != "freqsep_feather"@[0]);
    assert("contrast"@[0] != "vibrance"@[0]);
    assert("contrast"@[0] != "skin_hue"@[0]);
    assert("shadow_lift"@[1] != "skin_chroma"@[1]);
    assert("shadow_lift"@[1] != "skin_redden"@[1]);
    assert("shadow_lift"@[1] != "skin_pinken"@[1]);
    assert("shadow_lift"@[0] != "geom_rotate"@[0]);
    assert("deep_shadow_lift"@[0] != "freqsep_strength"@[0]);
    assert("deep_shadow_lift"@[0] != "pyramid_strength"@[0]);
    assert("wb_temp"@[4] != "wb_tint"@[4]);
    assert("saturation"@[0] != "hue_rotate"@[0]);
    assert("saturation"@[1] != "skin_light"@[1]);
    assert("vibrance"@[0] != "skin_hue"@[0]);
    assert("hue_rotate"@[0] != "skin_light"@[0]);
    assert("split_shadow"@[1] != "skin_lighten"@[1]);
    assert("split_shadow"@[0] != "geom_persp_v"@[0]);
    assert("split_shadow"@[0] != "geom_persp_h"@[0]);
    assert("split_highlight"@[0] != "freqsep_texture"@[0]);
    assert("split_highlight"@[0] != "freqsep_feather"@[0]);
    assert("skin_strength"@[0] != "pyramid_scale"@[0]);
    assert("skin_chroma"@[5] != "skin_redden"@[5]);
    assert("skin_chroma"@[5] != "skin_pinken"@[5]);
    assert("skin_chroma"@[0] != "geom_rotate"@[0]);
    assert("skin_lighten"@[0] != "geom_persp_v"@[0]);
    assert("skin_lighten"@[0] != "geom_persp_h"@[0]);
    assert("skin_redden"@[5] != "skin_pinken"@[5]);
    assert("skin_redden"@[0] != "geom_rotate"@[0]);
    assert("skin_pinken"@[0] != "geom_rotate"@[0]);
    assert("geom_persp_v"@[11] != "geom_persp_h"@[11]);
    assert("detail_denoise"@[7] != "detail_sharpen"@[7]);
    assert("detail_denoise"@[8] != "detail_diffuse"@[8]);
    assert("detail_denoise"@[0] != "freqsep_smooth"@[0]);
    assert("detail_sharpen"@[7] != "detail_diffuse"@[7]);
    assert("detail_sharpen"@[0] != "freqsep_smooth"@[0]);
    assert("detail_diffuse"@[0] != "freqsep_smooth"@[0]);
    assert("freqsep_strength"@[0] != "pyramid_strength"@[0]);
    assert("freqsep_texture"@[8] != "freqsep_feather"@[8]);
}

proof fn lemma_numbered_name(head: Seq<char>, n: usize)
    ensures
        ({
            let s = head + digits(n as nat);
            &&& has_head(s, head)
            &&& index_in(s.skip(head.len() as int)) == Some(n)
            &&& s.len() > head.len()
            &&& forall|i: int| 0 <= i < head.len() ==> s[i] == head[i]
        }),
{
    let s = head + digits(n as nat);
    law_index_reads_back(n);
    assert(s.subrange(0, head.len() as int) =~= head);
    assert(s.skip(head.len() as int) =~= digits(n as nat));
    assert(index_in(digits(n as nat)) is Some);
}

/// The name of a setting finds the setting again.
#[verifier::rlimit(60)]
pub proof fn law_name_finds_field(f: Field)
    ensures
        field_named(f.name()) == Some(f),
{
    lemma_name_heads();
    lemma_names_differ();
    reveal_strlit("hsl_hue_");
    reveal_strlit("hsl_sat_");
    reveal_strlit("hsl_light_");
    reveal_strlit("zone_");
    let s = f.name();
    match f {
        Field::HslHue(i) => {
            lemma_numbered_name("hsl_hue_"@, i);
            assert(s[0] == 'h' && s[1] == 's');
        },
        Field::HslSat(i) => {
            lemma_numbered_name("hsl_sat_"@, i);
            assert(s[0] == 'h' && s[1] == 's');
            assert(s.subrange(0, 8)[4] == 's');
            assert("hsl_hue_"@[4] == 'h');
        },
        Field::HslLight(i) => {
            lemma_numbered_name("hsl_light_"@, i);
            assert(s[0] == 'h' && s[1] == 's');
            assert(s.subrange(0, 8)[4] == 'l');
            assert("hsl_hue_"@[4] == 'h');
            assert("hsl_sat_"@[4] == 's');
        },
        Field::Zone(i) => {
            lemma_numbered_name("zone_"@, i);
            assert(s[0] == 'z');
            assert(s.len() >= 8 ==> s.subrange(0, 8)[0] == 'z');
            assert(s.len() >= 10 ==> s.subrange(0, 10)[0] == 'z');
            assert("hsl_hue_"@[0] == 'h');
            assert("hsl_sat_"@[0] == 'h');
            assert("hsl_light_"@[0] == 'h');
        },
        _ => {},
    }
}

/// No two settings share a name.
pub proof fn law_names_are_distinct(f: Field, g: Field)
    requires
        f.name() == g.name(),
    ensures
        f == g,
{
    law_name_finds_field(f);
    law_name_finds_field(g);
}

/// A control: how one setting is shown and moved.
pub struct ParamSpec {
    /// Name beside the slider.
    pub label: String,
    /// What the control does, in one sentence.
    pub tooltip: &'static str,
    pub field: Field,
    pub curve: CurveKind,
    /// Neutral in the middle, not at the left end.
    pub bipolar: bool,
    /// The neutral value.
    pub center: Single,
    /// Reach of the slider from the neutral value.
    pub half: Single,
    /// Unit behind a value that is shown.
    pub unit: &'static str,
    /// Decimal places of a value that is shown.
    pub dec: usize,
}

/// What a control holds.
pub struct Control {
    pub label: Seq<char>,
    pub tooltip: Seq<char>,
    pub field: Field,
    pub curve: CurveKind,
    pub bipolar: bool,
    pub center: Single,
    pub half: Single,
    pub unit: Seq<char>,
    pub dec: nat,
}

impl View for ParamSpec {
    type V = Control;

    open spec fn view(&self) -> Control {
        Control {
            label: self.label@,
            tooltip: self.tooltip@,
            field: self.field,
            curve: self.curve,
            bipolar: self.bipolar,
            center: self.center,
            half: self.half,
            unit: self.unit@,
            dec: self.dec as nat,
        }
    }
}

impl Clone for ParamSpec {
    fn clone(&self) -> (r: ParamSpec)
        ensures
            r@ == self@,
    {
        ParamSpec {
            label: self.label.clone(),
            tooltip: self.tooltip,
            field: self.field,
            curve: self.curve,
            bipolar: self.bipolar,
            center: self.center,
            half: self.half,
            unit: self.unit,
            dec: self.dec,
        }
    }
}

impl ParamSpec {
    /// The setting's value at a slider's position; see `slider_to_raw` for the last two.
    pub fn to_raw(&self, pos: Single, bend: Single, knee: Single) -> (r: Single)
        ensures
            r == spec_slider_to_raw(self.curve, self.center, self.half, pos, bend, knee),
    {
        slider_to_raw(self.curve, self.center, self.half, pos, bend, knee)
    }

    /// The slider's position for a value; see `raw_to_slider` for the last two.
    pub fn to_pos(&self, raw: Single, unbent: Single, scale: Single) -> (r: Single)
        ensures
            r == spec_raw_to_slider(self.curve, self.center, self.half, raw, unbent, scale),
    {
        raw_to_slider(self.curve, self.center, self.half, raw, unbent, scale)
    }
}

/// Values at which the bent mappings end.
#[derive(Clone, Copy, Debug, PartialEq, Eq, Structural)]
pub struct Edges {
    /// tanh of the steepness of the soft knee.
    pub knee: Single,
    /// exp of -ln 3: every logarithmic control reaches a factor of 3.
    pub third: Single,
    /// exp of ln 3.
    pub triple: Single,
}

impl Control {
    /// The smallest value that the slider reaches.
    pub open spec fn low(self, e: Edges) -> Single {
        let bend = if self.curve == CurveKind::LogSat {
            e.third
        } else {
            e.knee.negated()
        };
        slider_to_raw(self.curve, self.center, self.half, num(0xbf80_0000), bend, e.knee)  // -1
    }

    /// The largest value that the slider reaches.
    pub open spec fn high(self, e: Edges) -> Single {
        let bend = if self.curve == CurveKind::LogSat {
            e.triple
        } else {
            e.knee
        };
        slider_to_raw(self.curve, self.center, self.half, num(0x3f80_0000), bend, e.knee)
    }

    /// The value in the middle of the slider: tanh of 0 is 0 and exp of 0 is 1.
    pub open spec fn middle(self, e: Edges) -> Single {
        let bend = if self.curve == CurveKind::LogSat {
            num(0x3f80_0000)
        } else {
            num(0)
        };
        slider_to_raw(self.curve, self.center, self.half, num(0), bend, e.knee)
    }
}

impl ParamSpec {
    /// The smallest and the largest value that the slider reaches.
    pub fn limits(&self, e: &Edges) -> (r: (Single, Single))
        ensures
            r == (self@.low(*e), self@.high(*e)),
    {
        match self.curve {
            CurveKind::LogSat => (
                self.to_raw(num(0xbf80_0000), e.third, e.knee),  // -1
                self.to_raw(num(0x3f80_0000), e.triple, e.knee),
            ),
            _ => (
                self.to_raw(num(0xbf80_0000), e.knee.negated(), e.knee),  // -1
                self.to_raw(num(0x3f80_0000), e.knee, e.knee),
            ),
        }
    }

    /// The value in the middle of the slider.
    pub fn neutral(&self, e: &Edges) -> (r: Single)
        ensures
            r == self@.middle(*e),
    {
        match self.curve {
            CurveKind::LogSat => self.to_raw(num(0), num(0x3f80_0000), e.knee),
            _ => self.to_raw(num(0), num(0), e.knee),
        }
    }
}

/// The controls of exposure, tone and white balance.
pub open spec fn spec_light_control(k: int) -> Control {
    if k == 0 {
        Control {
            label: "曝光"@,
            tooltip: "像相机曝光补偿：整体调亮或压暗。EV 单位本身按人眼对数感知设计，每档亮度变化量相同；推到 + 时建议配合 AgX/Filmic 保护高光"@,
            field: Field::ExposureEv,
            curve: CurveKind::Linear,
            bipolar: true,
            center: num(0),
            half: num(0x4040_0000),  // 3.0
            unit: " EV"@,
            dec: 2,
        }
    } else if k == 1 {
        Control {
            label: "胶片曲线"@,
            tooltip: "胶片感的 S 曲线：暗部不黑死、高光不刺眼，过渡柔和。滑块采用 SoftKnee 感知映射，越往两端效果越衰减，避免一下调过头"@,
            field: Field::FilmCurve,
            curve: CurveKind::SoftKnee,
            bipolar: true,
            center: num(0),
            half: num(0x3e99_999a),  // 0.3
            unit: ""@,
            dec: 2,
        }
    } else if k == 2 {
        Control {
            label: "光比融合"@,
            tooltip: "柔化亮部与暗部的反差，让照片光影过渡更自然。感知映射：小幅拖动即可看到明显变化， extreme 位置自动放缓"@,
            field: Field::LightRatio,
            curve: CurveKind::SoftKnee,
            bipolar: true,
            center: num(0),
            half: num(0x3f19_999a),  // 0.6
            unit: ""@,
            dec: 2,
        }
    } else if k == 3 {
        Control {
            label: "提亮"@,
            tooltip: "整体画面往上提亮，高光处会自动保护不过曝。越往右提亮的增量按人眼习惯衰减，不易过曝"@,
            field: Field::BrightnessLift,
            curve: CurveKind::SoftKnee,
            bipolar: false,
            center: num(0),
            half: num(0x3f80_0000),  // 1.0
            unit: ""@,
            dec: 2,
        }
    } else if k == 4 {
        Control {
            label: "对比"@,
            tooltip: "加大或减小明暗反差，中间调不会生硬断裂。SoftKnee 映射让极端位置的影响逐渐减弱"@,
            field: Field::Contrast,
            curve: CurveKind::SoftKnee,
            bipolar: true,
            center: num(0),
            half: num(0x3f80_0000),  // 1.0
            unit: ""@,
            dec: 2,
        }
    } else if k == 5 {
        Control {
            label: "去雾 / 通透"@,
            tooltip: "去掉灰雾感，让照片更通透、颜色更清爽。感知映射，推到底也不会把画面拉花"@,
            field: Field::Dehaze,
            curve: CurveKind::SoftKnee,
            bipolar: false,
            center: num(0),
            half: num(0x3f80_0000),  // 1.0
            unit: ""@,
            dec: 2,
        }
    } else if k == 6 {
        Control {
            label: "提亮暗部"@,
            tooltip: "把暗部往上拉，显出细节，同时避免整片灰掉。感知映射：接近上限时提升量逐渐衰减，保持自然"@,
            field: Field::ShadowLift,
            curve: CurveKind::SoftKnee,
            bipolar: false,
            center: num(0),
            half: num(0x3f80_0000),  // 1.0
            unit: ""@,
            dec: 2,
        }
    } else if k == 7 {
        Control {
            label: "提亮黑位"@,
            tooltip: "把最黑的地方提起来，拯救死黑但保留层次。感知映射防止黑位被提成灰片"@,
            field: Field::DeepShadowLift,
            curve: CurveKind::SoftKnee,
            bipolar: false,
            center: num(0),
            half: num(0x3f80_0000),  // 1.0
            unit: ""@,
            dec: 2,
        }
    } else if k == 8 {
        Control {
            label: "色温 (暖+)"@,
            tooltip: "往右变暖偏黄，往左变冷偏蓝，修正环境光色温"@,
            field: Field::WBTemp,
            curve: CurveKind::SoftKnee,
            bipolar: true,
            center: num(0),
            half: num(0x3f80_0000),  // 1.0
            unit: ""@,
            dec: 2,
        }
    } else {
        Control {
            label: "色调 (品红+)"@,
            tooltip: "往右偏品红，往左偏绿，常用来修肤色偏绿"@,
            field: Field::WBTint,
            curve: CurveKind::SoftKnee,
            bipolar: true,
            center: num(0),
            half: num(0x3f80_0000),  // 1.0
            unit: ""@,
            dec: 2,
        }
    }
}

fn light_control(k: usize) -> (r: ParamSpec)
    requires
        k < 10,
    ensures
        r@ == spec_light_control(k as int),
{
    if k == 0 {
        ParamSpec {
            label: "曝光".to_string(),
            tooltip: "像相机曝光补偿：整体调亮或压暗。EV 单位本身按人眼对数感知设计，每档亮度变化量相同；推到 + 时建议配合 AgX/Filmic 保护高光",
            field: Field::ExposureEv,
            curve: CurveKind::Linear,
            bipolar: true,
            center: num(0),
            half: num(0x4040_0000),  // 3.0
            unit: " EV",
            dec: 2,
        }
    } else if k == 1 {
        ParamSpec {
            label: "胶片曲线".to_string(),
            tooltip: "胶片感的 S 曲线：暗部不黑死、高光不刺眼，过渡柔和。滑块采用 SoftKnee 感知映射，越往两端效果越衰减，避免一下调过头",
            field: Field::FilmCurve,
            curve: CurveKind::SoftKnee,
            bipolar: true,
            center: num(0),
            half: num(0x3e99_999a),  // 0.3
            unit: "",
            dec: 2,
        }
    } else if k == 2 {
        ParamSpec {
            label: "光比融合".to_string(),
            tooltip: "柔化亮部与暗部的反差，让照片光影过渡更自然。感知映射：小幅拖动即可看到明显变化， extreme 位置自动放缓",
            field: Field::LightRatio,
            curve: CurveKind::SoftKnee,
            bipolar: true,
            center: num(0),
            half: num(0x3f19_999a),  // 0.6
            unit: "",
            dec: 2,
        }
    } else if k == 3 {
        ParamSpec {
            label: "提亮".to_string(),
            tooltip: "整体画面往上提亮，高光处会自动保护不过曝。越往右提亮的增量按人眼习惯衰减，不易过曝",
            field: Field::BrightnessLift,
            curve: CurveKind::SoftKnee,
            bipolar: false,
            center: num(0),
            half: num(0x3f80_0000),  // 1.0
            unit: "",
            dec: 2,
        }
    } else if k == 4 {
        ParamSpec {
            label: "对比".to_string(),
            tooltip: "加大或减小明暗反差，中间调不会生硬断裂。SoftKnee 映射让极端位置的影响逐渐减弱",
            field: Field::Contrast,
            curve: CurveKind::SoftKnee,
            bipolar: true,
            center: num(0),
            half: num(0x3f80_0000),  // 1.0
            unit: "",
            dec: 2,
        }
    } else if k == 5 {
        ParamSpec {
            label: "去雾 / 通透".to_string(),
            tooltip: "去掉灰雾感，让照片更通透、颜色更清爽。感知映射，推到底也不会把画面拉花",
            field: Field::Dehaze,
            curve: CurveKind::SoftKnee,
            bipolar: false,
            center: num(0),
            half: num(0x3f80_0000),  // 1.0
            unit: "",
            dec: 2,
        }
    } else if k == 6 {
        ParamSpec {
            label: "提亮暗部".to_string(),
            tooltip: "把暗部往上拉，显出细节，同时避免整片灰掉。感知映射：接近上限时提升量逐渐衰减，保持自然",
            field: Field::ShadowLift,
            curve: CurveKind::SoftKnee,
            bipolar: false,
            center: num(0),
            half: num(0x3f80_0000),  // 1.0
            unit: "",
            dec: 2,
        }
    } else if k == 7 {
        ParamSpec {
            label: "提亮黑位".to_string(),
            tooltip: "把最黑的地方提起来，拯救死黑但保留层次。感知映射防止黑位被提成灰片",
            field: Field::DeepShadowLift,
            curve: CurveKind::SoftKnee,
            bipolar: false,
            center: num(0),
            half: num(0x3f80_0000),  // 1.0
            unit: "",
            dec: 2,
        }
    } else if k == 8 {
        ParamSpec {
            label: "色温 (暖+)".to_string(),
            tooltip: "往右变暖偏黄，往左变冷偏蓝，修正环境光色温",
            field: Field::WBTemp,
            curve: CurveKind::SoftKnee,
            bipolar: true,
            center: num(0),
            half: num(0x3f80_0000),  // 1.0
            unit: "",
            dec: 2,
        }
    } else {
        ParamSpec {
            label: "色调 (品红+)".to_string(),
            tooltip: "往右偏品红，往左偏绿，常用来修肤色偏绿",
            field: Field::WBTint,
            curve: CurveKind::SoftKnee,
            bipolar: true,
            center: num(0),
            half: num(0x3f80_0000),  // 1.0
            unit: "",
            dec: 2,
        }
    }
}

/// The controls of colour and skin.
pub open spec fn spec_color_control(k: int) -> Control {
    if k == 0 {
        Control {
            label: "饱和度"@,
            tooltip: "所有颜色一起变艳或变淡，1.0 为原图。采用分区感知：中间调响应最强，暗部/高光自然衰减，避免数码生硬感"@,
            field: Field::Saturation,
            curve: CurveKind::LogSat,
            bipolar: true,
            center: num(0x3f80_0000),  // 1.0
            half: num(0x4040_0000),  // 3.0
            unit: "×"@,
            dec: 2,
        }
    } else if k == 1 {
        Control {
            label: "鲜艳度"@,
            tooltip: "智能加饱和：优先让低彩度区域变鲜活，同时避开肤色并在暗部/高光自然衰减"@,
            field: Field::Vibrance,
            curve: CurveKind::SoftKnee,
            bipolar: true,
            center: num(0),
            half: num(0x3f80_0000),  // 1.0
            unit: ""@,
            dec: 2,
        }
    } else if k == 2 {
        Control {
            label: "色相旋转"@,
            tooltip: "整张照片在色相环上旋转，创意调色用"@,
            field: Field::HueRotate,
            curve: CurveKind::Linear,
            bipolar: true,
            center: num(0),
            half: num(0x4334_0000),  // 180.0
            unit: "°"@,
            dec: 0,
        }
    } else if k == 3 {
        Control {
            label: "暗部染色"@,
            tooltip: "只给阴影区域加一层颜色，不影响亮部"@,
            field: Field::SplitShadow,
            curve: CurveKind::Linear,
            bipolar: true,
            center: num(0),
            half: num(0x4334_0000),  // 180.0
            unit: "°"@,
            dec: 0,
        }
    } else if k == 4 {
        Control {
            label: "高光染色"@,
            tooltip: "只给高光区域加一层颜色，如夕阳金、冷高光"@,
            field: Field::SplitHighlight,
            curve: CurveKind::Linear,
            bipolar: true,
            center: num(0),
            half: num(0x4334_0000),  // 180.0
            unit: "°"@,
            dec: 0,
        }
    } else if k == 5 {
        Control {
            label: "肤色强度"@,
            tooltip: "肤色模块整体作用大小，0 为不处理"@,
            field: Field::SkinStrength,
            curve: CurveKind::SoftKnee,
            bipolar: false,
            center: num(0),
            half: num(0x3f80_0000),  // 1.0
            unit: ""@,
            dec: 2,
        }
    } else if k == 6 {
        Control {
            label: "肤色色相 (粉嫩)"@,
            tooltip: "肤色往粉或红偏，打造健康气色"@,
            field: Field::SkinHue,
            curve: CurveKind::Linear,
            bipolar: true,
            center: num(0x420c_0000),  // 35.0
            half: num(0x41f0_0000),  // 30.0
            unit: "°"@,
            dec: 0,
        }
    } else if k == 7 {
        Control {
            label: "肤色彩度"@,
            tooltip: "肤色红润程度，宁小勿大，避免塑料感"@,
            field: Field::SkinChroma,
            curve: CurveKind::SoftKnee,
            bipolar: false,
            center: num(0),
            half: num(0x3e4c_cccd),  // 0.2
            unit: ""@,
            dec: 3,
        }
    } else if k == 8 {
        Control {
            label: "肤色提亮"@,
            tooltip: "局部提亮肤色，改善暗沉但保持五官立体"@,
            field: Field::SkinLight,
            curve: CurveKind::SoftKnee,
            bipolar: false,
            center: num(0),
            half: num(0x3dcc_cccd),  // 0.1
            unit: ""@,
            dec: 3,
        }
    } else if k == 9 {
        Control {
            label: "去黄"@,
            tooltip: "肤色偏黄时往红润方向拉，只影响皮肤区域"@,
            field: Field::SkinYellowReduce,
            curve: CurveKind::SoftKnee,
            bipolar: false,
            center: num(0),
            half: num(0x3f80_0000),  // 1.0
            unit: ""@,
            dec: 2,
        }
    } else if k == 10 {
        Control {
            label: "减淡"@,
            tooltip: "皮肤局部提亮，改善暗沉但不过曝"@,
            field: Field::SkinLighten,
            curve: CurveKind::SoftKnee,
            bipolar: false,
            center: num(0),
            half: num(0x3f80_0000),  // 1.0
            unit: ""@,
            dec: 2,
        }
    } else if k == 11 {
        Control {
            label: "加红"@,
            tooltip: "增加肤色红润感，自然血色"@,
            field: Field::SkinRedden,
            curve: CurveKind::SoftKnee,
            bipolar: false,
            center: num(0),
            half: num(0x3f80_0000),  // 1.0
            unit: ""@,
            dec: 2,
        }
    } else {
        Control {
            label: "加粉"@,
            tooltip: "肤色往粉嫩方向偏，适合女生/健康气色"@,
            field: Field::SkinPinken,
            curve: CurveKind::SoftKnee,
            bipolar: false,
            center: num(0),
            half: num(0x3f80_0000),  // 1.0
            unit: ""@,
            dec: 2,
        }
    }
}

fn color_control(k: usize) -> (r: ParamSpec)
    requires
        k < 13,
    ensures
        r@ == spec_color_control(k as int),
{
    if k == 0 {
        ParamSpec {
            label: "饱和度".to_string(),
            tooltip: "所有颜色一起变艳或变淡，1.0 为原图。采用分区感知：中间调响应最强，暗部/高光自然衰减，避免数码生硬感",
            field: Field::Saturation,
            curve: CurveKind::LogSat,
            bipolar: true,
            center: num(0x3f80_0000),  // 1.0
            half: num(0x4040_0000),  // 3.0
            unit: "×",
            dec: 2,
        }
    } else if k == 1 {
        ParamSpec {
            label: "鲜艳度".to_string(),
            tooltip: "智能加饱和：优先让低彩度区域变鲜活，同时避开肤色并在暗部/高光自然衰减",
            field: Field::Vibrance,
            curve: CurveKind::SoftKnee,
            bipolar: true,
            center: num(0),
            half: num(0x3f80_0000),  // 1.0
            unit: "",
            dec: 2,
        }
    } else if k == 2 {
        ParamSpec {
            label: "色相旋转".to_string(),
            tooltip: "整张照片在色相环上旋转，创意调色用",
            field: Field::HueRotate,
            curve: CurveKind::Linear,
            bipolar: true,
            center: num(0),
            half: num(0x4334_0000),  // 180.0
            unit: "°",
            dec: 0,
        }
    } else if k == 3 {
        ParamSpec {
            label: "暗部染色".to_string(),
            tooltip: "只给阴影区域加一层颜色，不影响亮部",
            field: Field::SplitShadow,
            curve: CurveKind::Linear,
            bipolar: true,
            center: num(0),
            half: num(0x4334_0000),  // 180.0
            unit: "°",
            dec: 0,
        }
    } else if k == 4 {
        ParamSpec {
            label: "高光染色".to_string(),
            tooltip: "只给高光区域加一层颜色，如夕阳金、冷高光",
            field: Field::SplitHighlight,
            curve: CurveKind::Linear,
            bipolar: true,
            center: num(0),
            half: num(0x4334_0000),  // 180.0
            unit: "°",
            dec: 0,
        }
    } else if k == 5 {
        ParamSpec {
            label: "肤色强度".to_string(),
            tooltip: "肤色模块整体作用大小，0 为不处理",
            field: Field::SkinStrength,
            curve: CurveKind::SoftKnee,
            bipolar: false,
            center: num(0),
            half: num(0x3f80_0000),  // 1.0
            unit: "",
            dec: 2,
        }
    } else if k == 6 {
        ParamSpec {
            label: "肤色色相 (粉嫩)".to_string(),
            tooltip: "肤色往粉或红偏，打造健康气色",
            field: Field::SkinHue,
            curve: CurveKind::Linear,
            bipolar: true,
            center: num(0x420c_0000),  // 35.0
            half: num(0x41f0_0000),  // 30.0
            unit: "°",
            dec: 0,
        }
    } else if k == 7 {
        ParamSpec {
            label: "肤色彩度".to_string(),
            tooltip: "肤色红润程度，宁小勿大，避免塑料感",
            field: Field::SkinChroma,
            curve: CurveKind::SoftKnee,
            bipolar: false,
            center: num(0),
            half: num(0x3e4c_cccd),  // 0.2
            unit: "",
            dec: 3,
        }
    } else if k == 8 {
        ParamSpec {
            label: "肤色提亮".to_string(),
            tooltip: "局部提亮肤色，改善暗沉但保持五官立体",
            field: Field::SkinLight,
            curve: CurveKind::SoftKnee,
            bipolar: false,
            center: num(0),
            half: num(0x3dcc_cccd),  // 0.1
            unit: "",
            dec: 3,
        }
    } else if k == 9 {
        ParamSpec {
            label: "去黄".to_string(),
            tooltip: "肤色偏黄时往红润方向拉，只影响皮肤区域",
            field: Field::SkinYellowReduce,
            curve: CurveKind::SoftKnee,
            bipolar: false,
            center: num(0),
            half: num(0x3f80_0000),  // 1.0
            unit: "",
            dec: 2,
        }
    } else if k == 10 {
        ParamSpec {
            label: "减淡".to_string(),
            tooltip: "皮肤局部提亮，改善暗沉但不过曝",
            field: Field::SkinLighten,
            curve: CurveKind::SoftKnee,
            bipolar: false,
            center: num(0),
            half: num(0x3f80_0000),  // 1.0
            unit: "",
            dec: 2,
        }
    } else if k == 11 {
        ParamSpec {
            label: "加红".to_string(),
            tooltip: "增加肤色红润感，自然血色",
            field: Field::SkinRedden,
            curve: CurveKind::SoftKnee,
            bipolar: false,
            center: num(0),
            half: num(0x3f80_0000),  // 1.0
            unit: "",
            dec: 2,
        }
    } else {
        ParamSpec {
            label: "加粉".to_string(),
            tooltip: "肤色往粉嫩方向偏，适合女生/健康气色",
            field: Field::SkinPinken,
            curve: CurveKind::SoftKnee,
            bipolar: false,
            center: num(0),
            half: num(0x3f80_0000),  // 1.0
            unit: "",
            dec: 2,
        }
    }
}

/// The controls of geometry, detail and retouching.
pub open spec fn spec_finish_control(k: int) -> Control {
    if k == 0 {
        Control {
            label: "旋转"@,
            tooltip: "任意角度旋转画面，90° 步进会自动对齐像素"@,
            field: Field::GeomRotate,
            curve: CurveKind::Linear,
            bipolar: true,
            center: num(0),
            half: num(0x4234_0000),  // 45.0
            unit: "°"@,
            dec: 0,
        }
    } else if k == 1 {
        Control {
            label: "透视 · 纵"@,
            tooltip: "修正上下方向的透视歪斜，如建筑前倾后仰"@,
            field: Field::GeomPerspV,
            curve: CurveKind::SoftKnee,
            bipolar: true,
            center: num(0),
            half: num(0x3f80_0000),  // 1.0
            unit: ""@,
            dec: 2,
        }
    } else if k == 2 {
        Control {
            label: "透视 · 横"@,
            tooltip: "修正左右方向的透视歪斜，如建筑左右倾斜"@,
            field: Field::GeomPerspH,
            curve: CurveKind::SoftKnee,
            bipolar: true,
            center: num(0),
            half: num(0x3f80_0000),  // 1.0
            unit: ""@,
            dec: 2,
        }
    } else if k == 3 {
        Control {
            label: "降噪"@,
            tooltip: "减少颗粒噪点，边缘会被保护，不会变糊"@,
            field: Field::DetailDenoise,
            curve: CurveKind::SoftKnee,
            bipolar: false,
            center: num(0),
            half: num(0x3f80_0000),  // 1.0
            unit: ""@,
            dec: 2,
        }
    } else if k == 4 {
        Control {
            label: "锐化"@,
            tooltip: "增强边缘清晰度，自动避开平坦区域避免锐化噪点"@,
            field: Field::DetailSharpen,
            curve: CurveKind::SoftKnee,
            bipolar: false,
            center: num(0),
            half: num(0x3f80_0000),  // 1.0
            unit: ""@,
            dec: 2,
        }
    } else if k == 5 {
        Control {
            label: "柔光"@,
            tooltip: "只让高光区域微微泛光，产生柔焦梦幻感"@,
            field: Field::DetailDiffuse,
            curve: CurveKind::SoftKnee,
            bipolar: false,
            center: num(0),
            half: num(0x3f80_0000),  // 1.0
            unit: ""@,
            dec: 2,
        }
    } else if k == 6 {
        Control {
            label: "磨皮强度"@,
            tooltip: "只影响皮肤区域，发丝、眼睛、背景完全不动"@,
            field: Field::FreqSepStrength,
            curve: CurveKind::SoftKnee,
            bipolar: false,
            center: num(0),
            half: num(0x3f80_0000),  // 1.0
            unit: ""@,
            dec: 2,
        }
    } else if k == 7 {
        Control {
            label: "磨皮 · 纹理保留"@,
            tooltip: "保留毛孔纹理，越高越自然，越低越平滑"@,
            field: Field::FreqSepTexture,
            curve: CurveKind::SoftKnee,
            bipolar: false,
            center: num(0),
            half: num(0x3f80_0000),  // 1.0
            unit: ""@,
            dec: 2,
        }
    } else if k == 8 {
        Control {
            label: "磨皮 · 平滑度"@,
            tooltip: "控制磨皮模糊范围，适度即可避免塑料感"@,
            field: Field::FreqSepSmooth,
            curve: CurveKind::SoftKnee,
            bipolar: false,
            center: num(0),
            half: num(0x3f80_0000),  // 1.0
            unit: ""@,
            dec: 2,
        }
    } else if k == 9 {
        Control {
            label: "磨皮 · 蒙版羽化"@,
            tooltip: "皮肤与非皮肤过渡的柔和度"@,
            field: Field::FreqSepFeather,
            curve: CurveKind::SoftKnee,
            bipolar: false,
            center: num(0),
            half: num(0x3f80_0000),  // 1.0
            unit: ""@,
            dec: 2,
        }
    } else if k == 10 {
        Control {
            label: "金字塔融合"@,
            tooltip: "多层细节自然融合，增加立体感而不生硬"@,
            field: Field::PyramidStrength,
            curve: CurveKind::SoftKnee,
            bipolar: false,
            center: num(0),
            half: num(0x3f80_0000),  // 1.0
            unit: ""@,
            dec: 2,
        }
    } else {
        Control {
            label: "金字塔 · 细节倍率"@,
            tooltip: "细节增强强度，1.0 接近自然，适度更立体"@,
            field: Field::PyramidScale,
            curve: CurveKind::SoftKnee,
            bipolar: false,
            center: num(0x3f80_0000),  // 1.0
            half: num(0x4000_0000),  // 2.0
            unit: "×"@,
            dec: 2,
        }
    }
}

fn finish_control(k: usize) -> (r: ParamSpec)
    requires
        k < 12,
    ensures
        r@ == spec_finish_control(k as int),
{
    if k == 0 {
        ParamSpec {
            label: "旋转".to_string(),
            tooltip: "任意角度旋转画面，90° 步进会自动对齐像素",
            field: Field::GeomRotate,
            curve: CurveKind::Linear,
            bipolar: true,
            center: num(0),
            half: num(0x4234_0000),  // 45.0
            unit: "°",
            dec: 0,
        }
    } else if k == 1 {
        ParamSpec {
            label: "透视 · 纵".to_string(),
            tooltip: "修正上下方向的透视歪斜，如建筑前倾后仰",
            field: Field::GeomPerspV,
            curve: CurveKind::SoftKnee,
            bipolar: true,
            center: num(0),
            half: num(0x3f80_0000),  // 1.0
            unit: "",
            dec: 2,
        }
    } else if k == 2 {
        ParamSpec {
            label: "透视 · 横".to_string(),
            tooltip: "修正左右方向的透视歪斜，如建筑左右倾斜",
            field: Field::GeomPerspH,
            curve: CurveKind::SoftKnee,
            bipolar: true,
            center: num(0),
            half: num(0x3f80_0000),  // 1.0
            unit: "",
            dec: 2,
        }
    } else if k == 3 {
        ParamSpec {
            label: "降噪".to_string(),
            tooltip: "减少颗粒噪点，边缘会被保护，不会变糊",
            field: Field::DetailDenoise,
            curve: CurveKind::SoftKnee,
            bipolar: false,
            center: num(0),
            half: num(0x3f80_0000),  // 1.0
            unit: "",
            dec: 2,
        }
    } else if k == 4 {
        ParamSpec {
            label: "锐化".to_string(),
            tooltip: "增强边缘清晰度，自动避开平坦区域避免锐化噪点",
            field: Field::DetailSharpen,
            curve: CurveKind::SoftKnee,
            bipolar: false,
            center: num(0),
            half: num(0x3f80_0000),  // 1.0
            unit: "",
            dec: 2,
        }
    } else if k == 5 {
        ParamSpec {
            label: "柔光".to_string(),
            tooltip: "只让高光区域微微泛光，产生柔焦梦幻感",
            field: Field::DetailDiffuse,
            curve: CurveKind::SoftKnee,
            bipolar: false,
            center: num(0),
            half: num(0x3f80_0000),  // 1.0
            unit: "",
            dec: 2,
        }
    } else if k == 6 {
        ParamSpec {
            label: "磨皮强度".to_string(),
            tooltip: "只影响皮肤区域，发丝、眼睛、背景完全不动",
            field: Field::FreqSepStrength,
            curve: CurveKind::SoftKnee,
            bipolar: false,
            center: num(0),
            half: num(0x3f80_0000),  // 1.0
            unit: "",
            dec: 2,
        }
    } else if k == 7 {
        ParamSpec {
            label: "磨皮 · 纹理保留".to_string(),
            tooltip: "保留毛孔纹理，越高越自然，越低越平滑",
            field: Field::FreqSepTexture,
            curve: CurveKind::SoftKnee,
            bipolar: false,
            center: num(0),
            half: num(0x3f80_0000),  // 1.0
            unit: "",
            dec: 2,
        }
    } else if k == 8 {
        ParamSpec {
            label: "磨皮 · 平滑度".to_string(),
            tooltip: "控制磨皮模糊范围，适度即可避免塑料感",
            field: Field::FreqSepSmooth,
            curve: CurveKind::SoftKnee,
            bipolar: false,
            center: num(0),
            half: num(0x3f80_0000),  // 1.0
            unit: "",
            dec: 2,
        }
    } else if k == 9 {
        ParamSpec {
            label: "磨皮 · 蒙版羽化".to_string(),
            tooltip: "皮肤与非皮肤过渡的柔和度",
            field: Field::FreqSepFeather,
            curve: CurveKind::SoftKnee,
            bipolar: false,
            center: num(0),
            half: num(0x3f80_0000),  // 1.0
            unit: "",
            dec: 2,
        }
    } else if k == 10 {
        ParamSpec {
            label: "金字塔融合".to_string(),
            tooltip: "多层细节自然融合，增加立体感而不生硬",
            field: Field::PyramidStrength,
            curve: CurveKind::SoftKnee,
            bipolar: false,
            center: num(0),
            half: num(0x3f80_0000),  // 1.0
            unit: "",
            dec: 2,
        }
    } else {
        ParamSpec {
            label: "金字塔 · 细节倍率".to_string(),
            tooltip: "细节增强强度，1.0 接近自然，适度更立体",
            field: Field::PyramidScale,
            curve: CurveKind::SoftKnee,
            bipolar: false,
            center: num(0x3f80_0000),  // 1.0
            half: num(0x4000_0000),  // 2.0
            unit: "×",
            dec: 2,
        }
    }
}

pub open spec fn spec_band_label(i: int) -> Seq<char> {
    if i == 0 {
        "红"@
    } else if i == 1 {
        "橙"@
    } else if i == 2 {
        "黄"@
    } else if i == 3 {
        "绿"@
    } else if i == 4 {
        "青"@
    } else if i == 5 {
        "蓝"@
    } else if i == 6 {
        "紫"@
    } else {
        "品红"@
    }
}

fn band_label(i: usize) -> (r: &'static str)
    ensures
        r@ == spec_band_label(i as int),
{
    if i == 0 {
        "红"
    } else if i == 1 {
        "橙"
    } else if i == 2 {
        "黄"
    } else if i == 3 {
        "绿"
    } else if i == 4 {
        "青"
    } else if i == 5 {
        "蓝"
    } else if i == 6 {
        "紫"
    } else {
        "品红"
    }
}

pub open spec fn spec_zone_label(i: int) -> Seq<char> {
    if i == 0 {
        "暗部"@
    } else if i == 1 {
        "阴影"@
    } else if i == 2 {
        "中间调"@
    } else {
        "高光"@
    }
}

fn zone_label(i: usize) -> (r: &'static str)
    ensures
        r@ == spec_zone_label(i as int),
{
    if i == 0 {
        "暗部"
    } else if i == 1 {
        "阴影"
    } else if i == 2 {
        "中间调"
    } else {
        "高光"
    }
}

/// The controls of a band: its hue, saturation and lightness.
pub open spec fn spec_band_control(i: usize, part: int) -> Control {
    if part == 0 {
        Control {
            label: spec_band_label(i as int) + " · 色相"@,
            tooltip: "单独调整该颜色区域的色相，不影响其他颜色"@,
            field: Field::HslHue(i),
            curve: CurveKind::Linear,
            bipolar: true,
            center: num(0),
            half: num(0x42b4_0000),  // 90.0
            unit: "°"@,
            dec: 0,
        }
    } else if part == 1 {
        Control {
            label: spec_band_label(i as int) + " · 饱和"@,
            tooltip: "单独调整该颜色区域的鲜艳度，1.0 为原图"@,
            field: Field::HslSat(i),
            curve: CurveKind::LogSat,
            bipolar: true,
            center: num(0x3f80_0000),  // 1.0
            half: num(0x4040_0000),  // 3.0
            unit: "×"@,
            dec: 2,
        }
    } else {
        Control {
            label: spec_band_label(i as int) + " · 明度"@,
            tooltip: "单独提亮或压暗该颜色区域，1.0 为原图"@,
            field: Field::HslLight(i),
            curve: CurveKind::SoftKnee,
            bipolar: true,
            center: num(0x3f80_0000),  // 1.0
            half: num(0x3f00_0000),  // 0.5
            unit: "×"@,
            dec: 2,
        }
    }
}

fn band_control(i: usize, part: usize) -> (r: ParamSpec)
    ensures
        r@ == spec_band_control(i, part as int),
{
    if part == 0 {
        ParamSpec {
            label: band_label(i).to_string().concat(" · 色相"),
            tooltip: "单独调整该颜色区域的色相，不影响其他颜色",
            field: Field::HslHue(i),
            curve: CurveKind::Linear,
            bipolar: true,
            center: num(0),
            half: num(0x42b4_0000),  // 90.0
            unit: "°",
            dec: 0,
        }
    } else if part == 1 {
        ParamSpec {
            label: band_label(i).to_string().concat(" · 饱和"),
            tooltip: "单独调整该颜色区域的鲜艳度，1.0 为原图",
            field: Field::HslSat(i),
            curve: CurveKind::LogSat,
            bipolar: true,
            center: num(0x3f80_0000),  // 1.0
            half: num(0x4040_0000),  // 3.0
            unit: "×",
            dec: 2,
        }
    } else {
        ParamSpec {
            label: band_label(i).to_string().concat(" · 明度"),
            tooltip: "单独提亮或压暗该颜色区域，1.0 为原图",
            field: Field::HslLight(i),
            curve: CurveKind::SoftKnee,
            bipolar: true,
            center: num(0x3f80_0000),  // 1.0
            half: num(0x3f00_0000),  // 0.5
            unit: "×",
            dec: 2,
        }
    }
}

/// The control of a zone of lightness.
pub open spec fn spec_zone_control(i: usize) -> Control {
    Control {
        label: "分区 · "@ + spec_zone_label(i as int),
        tooltip: "单独提亮或压暗该亮度区域，多版本融合无硬边"@,
        field: Field::Zone(i),
        curve: CurveKind::SoftKnee,
        bipolar: true,
        center: num(0),
        half: num(0x3ecc_cccd),  // 0.4
        unit: ""@,
        dec: 2,
    }
}

fn zone_control(i: usize) -> (r: ParamSpec)
    ensures
        r@ == spec_zone_control(i),
{
    ParamSpec {
        label: "分区 · ".to_string().concat(zone_label(i)),
        tooltip: "单独提亮或压暗该亮度区域，多版本融合无硬边",
        field: Field::Zone(i),
        curve: CurveKind::SoftKnee,
        bipolar: true,
        center: num(0),
        half: num(0x3ecc_cccd),  // 0.4
        unit: "",
        dec: 2,
    }
}

/// Number of controls.
pub const CONTROLS: usize = 63;

/// The control at each place of the list.
pub open spec fn control_at(k: int) -> Control {
    if k < 10 {
        spec_light_control(k)
    } else if k < 23 {
        spec_color_control(k - 10)
    } else if k < 47 {
        spec_band_control(((k - 23) / 3) as usize, (k - 23) % 3)
    } else if k < 51 {
        spec_zone_control((k - 47) as usize)
    } else {
        spec_finish_control(k - 51)
    }
}

/// The control at a place of the list.
pub fn control(k: usize) -> (r: ParamSpec)
    requires
        k < CONTROLS,
    ensures
        r@ == control_at(k as int),
{
    if k < 10 {
        light_control(k)
    } else if k < 23 {
        color_control(k - 10)
    } else if k < 47 {
        band_control((k - 23) / 3, (k - 23) % 3)
    } else if k < 51 {
        zone_control(k - 47)
    } else {
        finish_control(k - 51)
    }
}

/// All controls, in the order in which they are shown.
pub fn registry() -> (r: Vec<ParamSpec>)
    ensures
        r@.len() == CONTROLS,
        forall|k: int| 0 <= k < CONTROLS ==> (#[trigger] r@[k])@ == control_at(k),
{
    let mut v: Vec<ParamSpec> = Vec::new();
    let mut k: usize = 0;
    while k < CONTROLS
        invariant
            k <= CONTROLS,
            v@.len() == k,
            forall|j: int| 0 <= j < k ==> (#[trigger] v@[j])@ == control_at(j),
        decreases CONTROLS - k,
    {
        v.push(control(k));
        k = k + 1;
    }
    v
}

/// Where in the list the control of a setting stands.
pub open spec fn place_of(f: Field) -> int {
    match f {
        Field::ExposureEv => 0,
        Field::FilmCurve => 1,
        Field::LightRatio => 2,
        Field::BrightnessLift => 3,
        Field::Contrast => 4,
        Field::Dehaze => 5,
        Field::ShadowLift => 6,
        Field::DeepShadowLift => 7,
        Field::WBTemp => 8,
        Field::WBTint => 9,
        Field::Saturation => 10,
        Field::Vibrance => 11,
        Field::HueRotate => 12,
        Field::SplitShadow => 13,
        Field::SplitHighlight => 14,
        Field::SkinStrength => 15,
        Field::SkinHue => 16,
        Field::SkinChroma => 17,
        Field::SkinLight => 18,
        Field::SkinYellowReduce => 19,
        Field::SkinLighten => 20,
        Field::SkinRedden => 21,
        Field::SkinPinken => 22,
        Field::HslHue(i) => 23 + 3 * i,
        Field::HslSat(i) => 23 + 3 * i + 1,
        Field::HslLight(i) => 23 + 3 * i + 2,
        Field::Zone(i) => 47 + i,
        Field::GeomRotate => 51,
        Field::GeomPerspV => 52,
        Field::GeomPerspH => 53,
        Field::DetailDenoise => 54,
        Field::DetailSharpen => 55,
        Field::DetailDiffuse => 56,
        Field::FreqSepStrength => 57,
        Field::FreqSepTexture => 58,
        Field::FreqSepSmooth => 59,
        Field::FreqSepFeather => 60,
        Field::PyramidStrength => 61,
        Field::PyramidScale => 62,
    }
}

/// Every control drives a setting that exists, and stands where its setting's control stands.
pub proof fn law_controls_are_in_place(k: int)
    requires
        0 <= k < CONTROLS,
    ensures
        control_at(k).field.valid(),
        place_of(control_at(k).field) == k,
{
    if 23 <= k < 47 {
        let i = (k - 23) / 3;
        assert(0 <= i < 8);
        assert(i as usize == i);
    }
}

/// A position reads back on every control: the position for the value at a position is that
/// position, to a hundred-thousandth.
pub proof fn law_every_control_reads_back(
    k: int,
    p: Single,
    bend: Single,
    knee: Single,
    unbent: Single,
    scale: Single,
)
    requires
        0 <= k < CONTROLS,
        p.ge(num(0xbf80_0000)),  // -1
        p.le(num(0x3f80_0000)),
        is_moderate(scale),
        control_at(k).curve != CurveKind::Linear ==> unbent == bend_at(
            control_at(k).curve,
            scale,
            p,
        ),
    ensures
        ({
            let c = control_at(k);
            are_close(
                raw_to_slider(
                    c.curve,
                    c.center,
                    c.half,
                    slider_to_raw(c.curve, c.center, c.half, p, bend, knee),
                    unbent,
                    scale,
                ),
                p,
            )
        }),
{
    let c = control_at(k);
    law_position_reads_back(c.curve, c.center, c.half, p, bend, knee, unbent, scale);
}

/// Every setting has a control, and no second one.
pub proof fn law_each_field_has_one_control(f: Field, k: int)
    requires
        f.valid(),
        0 <= k < CONTROLS,
    ensures
        0 <= place_of(f) < CONTROLS,
        control_at(k).field == f <==> k == place_of(f),
{
    law_controls_are_in_place(k);
    let p = place_of(f);
    if p == k {
        match f {
            Field::HslHue(i) => {
                assert((p - 23) / 3 == i && (p - 23) % 3 == 0);
            },
            Field::HslSat(i) => {
                assert((p - 23) / 3 == i && (p - 23) % 3 == 1);
            },
            Field::HslLight(i) => {
                assert((p - 23) / 3 == i && (p - 23) % 3 == 2);
            },
            _ => {},
        }
    }
}

} // verus!
