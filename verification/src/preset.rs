//! Presets: the settings in named sections, as they are kept in files.

use crate::advanced::{Advanced, FreqSepSkin, PyramidFusion};
use crate::detail::Detail;
use crate::geometry::Geometry;
use crate::params::with_eighth;
use crate::pipeline::{
    band_of, Adjustments, ColorGrade, DefakeColor, Grade, HslRegions, SkinTone, ToneMapMode,
    WhiteBalance, ZoneGrade,
};
use crate::single::{num, Single};
use vstd::prelude::*;

verus! {

/// How highlights are compressed, as it is written in a file.
#[derive(Clone, Copy, Debug, PartialEq, Eq, Structural)]
pub enum ToneMapPreset {
    /// No compression; written as `none`.
    Off,
    Agx,
    Filmic,
}

impl Default for ToneMapPreset {
    fn default() -> (r: ToneMapPreset)
        ensures
            r == ToneMapPreset::Off,
    {
        ToneMapPreset::Off
    }
}

pub open spec fn mode_of(t: ToneMapPreset) -> ToneMapMode {
    match t {
        ToneMapPreset::Off => ToneMapMode::Off,
        ToneMapPreset::Agx => ToneMapMode::Agx,
        ToneMapPreset::Filmic => ToneMapMode::Filmic,
    }
}

pub open spec fn preset_mode_of(t: ToneMapMode) -> ToneMapPreset {
    match t {
        ToneMapMode::Off => ToneMapPreset::Off,
        ToneMapMode::Agx => ToneMapPreset::Agx,
        ToneMapMode::Filmic => ToneMapPreset::Filmic,
    }
}

impl vstd::std_specs::convert::FromSpecImpl<ToneMapPreset> for ToneMapMode {
    open spec fn obeys_from_spec() -> bool {
        true
    }

    open spec fn from_spec(t: ToneMapPreset) -> ToneMapMode {
        mode_of(t)
    }
}

impl From<ToneMapPreset> for ToneMapMode {
    fn from(t: ToneMapPreset) -> (r: ToneMapMode) {
        match t {
            ToneMapPreset::Off => ToneMapMode::Off,
            ToneMapPreset::Agx => ToneMapMode::Agx,
            ToneMapPreset::Filmic => ToneMapMode::Filmic,
        }
    }
}

impl vstd::std_specs::convert::FromSpecImpl<ToneMapMode> for ToneMapPreset {
    open spec fn obeys_from_spec() -> bool {
        true
    }

    open spec fn from_spec(t: ToneMapMode) -> ToneMapPreset {
        preset_mode_of(t)
    }
}

impl From<ToneMapMode> for ToneMapPreset {
    fn from(t: ToneMapMode) -> (r: ToneMapPreset) {
        match t {
            ToneMapMode::Off => ToneMapPreset::Off,
            ToneMapMode::Agx => ToneMapPreset::Agx,
            ToneMapMode::Filmic => ToneMapPreset::Filmic,
        }
    }
}

/// Taming of implausible colour.
#[derive(Clone, Copy, Debug, PartialEq, Eq)]
pub struct DefakePreset {
    pub enabled: bool,
    pub chroma_decay: Single,
    pub fix_sky: bool,
    pub protect_skin: bool,
    pub gamut_softclip: bool,
}

impl DefakePreset {
    pub open spec fn spec_default() -> DefakePreset {
        DefakePreset {
            enabled: false,
            chroma_decay: num(0x3dcc_cccd),  // 0.1
            fix_sky: true,
            protect_skin: true,
            gamut_softclip: true,
        }
    }
}

impl Default for DefakePreset {
    fn default() -> (r: DefakePreset)
        ensures
            r == DefakePreset::spec_default(),
    {
        DefakePreset {
            enabled: false,
            chroma_decay: num(0x3dcc_cccd),  // 0.1
            fix_sky: true,
            protect_skin: true,
            gamut_softclip: true,
        }
    }
}

/// Changes of lightness.
#[derive(Clone, Copy, Debug, PartialEq, Eq)]
pub struct GradePreset {
    pub brightness_lift: Single,
    pub contrast: Single,
    pub dehaze: Single,
    pub shadow_lift: Single,
    pub deep_shadow_lift: Single,
    pub film_curve: Single,
    pub light_ratio: Single,
}

impl GradePreset {
    pub open spec fn spec_default() -> GradePreset {
        GradePreset {
            brightness_lift: num(0),
            contrast: num(0),
            dehaze: num(0),
            shadow_lift: num(0),
            deep_shadow_lift: num(0),
            film_curve: num(0),
            light_ratio: num(0),
        }
    }
}

impl Default for GradePreset {
    fn default() -> (r: GradePreset)
        ensures
            r == GradePreset::spec_default(),
    {
        GradePreset {
            brightness_lift: num(0),
            contrast: num(0),
            dehaze: num(0),
            shadow_lift: num(0),
            deep_shadow_lift: num(0),
            film_curve: num(0),
            light_ratio: num(0),
        }
    }
}

/// White balance.
#[derive(Clone, Copy, Debug, PartialEq, Eq)]
pub struct WhiteBalancePreset {
    pub temperature: Single,
    pub tint: Single,
}

impl WhiteBalancePreset {
    pub open spec fn spec_default() -> WhiteBalancePreset {
        WhiteBalancePreset {
            temperature: num(0),
            tint: num(0),
        }
    }
}

impl Default for WhiteBalancePreset {
    fn default() -> (r: WhiteBalancePreset)
        ensures
            r == WhiteBalancePreset::spec_default(),
    {
        WhiteBalancePreset {
            temperature: num(0),
            tint: num(0),
        }
    }
}

/// Changes of chroma and hue.
#[derive(Clone, Copy, Debug, PartialEq, Eq)]
pub struct ColorPreset {
    pub saturation: Single,
    pub vibrance: Single,
    pub hue_rotate: Single,
    pub split_shadow: Single,
    pub split_highlight: Single,
}

impl ColorPreset {
    pub open spec fn spec_default() -> ColorPreset {
        ColorPreset {
            saturation: num(0x3f80_0000),  // 1
            vibrance: num(0),
            hue_rotate: num(0),
            split_shadow: num(0),
            split_highlight: num(0),
        }
    }
}

impl Default for ColorPreset {
    fn default() -> (r: ColorPreset)
        ensures
            r == ColorPreset::spec_default(),
    {
        ColorPreset {
            saturation: num(0x3f80_0000),  // 1
            vibrance: num(0),
            hue_rotate: num(0),
            split_shadow: num(0),
            split_highlight: num(0),
        }
    }
}

/// Care of skin tones.
#[derive(Clone, Copy, Debug, PartialEq, Eq)]
pub struct SkinPreset {
    pub enabled: bool,
    pub strength: Single,
    pub hue_target: Single,
    pub chroma_target: Single,
    pub light_lift: Single,
    pub smoothness: Single,
    pub protect_non_skin: bool,
    pub yellow_reduce: Single,
    pub lighten: Single,
    pub redden: Single,
    pub pinken: Single,
}

impl SkinPreset {
    pub open spec fn spec_default() -> SkinPreset {
        SkinPreset {
            enabled: false,
            strength: num(0x3f00_0000),  // 0.5
            hue_target: num(0x41c8_0000),  // 25
            chroma_target: num(0x3dcc_cccd),  // 0.1
            light_lift: num(0x3c23_d70a),  // 0.01
            smoothness: num(0x4180_0000),  // 16
            protect_non_skin: true,
            yellow_reduce: num(0),
            lighten: num(0),
            redden: num(0),
            pinken: num(0),
        }
    }
}

impl Default for SkinPreset {
    fn default() -> (r: SkinPreset)
        ensures
            r == SkinPreset::spec_default(),
    {
        SkinPreset {
            enabled: false,
            strength: num(0x3f00_0000),  // 0.5
            hue_target: num(0x41c8_0000),  // 25
            chroma_target: num(0x3dcc_cccd),  // 0.1
            light_lift: num(0x3c23_d70a),  // 0.01
            smoothness: num(0x4180_0000),  // 16
            protect_non_skin: true,
            yellow_reduce: num(0),
            lighten: num(0),
            redden: num(0),
            pinken: num(0),
        }
    }
}

/// Lightness offsets of four zones.
#[derive(Clone, Copy, Debug, PartialEq, Eq)]
pub struct ZonePreset {
    pub shadows: Single,
    pub dark_mid: Single,
    pub light_mid: Single,
    pub highlights: Single,
}

impl ZonePreset {
    pub open spec fn spec_default() -> ZonePreset {
        ZonePreset {
            shadows: num(0),
            dark_mid: num(0),
            light_mid: num(0),
            highlights: num(0),
        }
    }
}

impl Default for ZonePreset {
    fn default() -> (r: ZonePreset)
        ensures
            r == ZonePreset::spec_default(),
    {
        ZonePreset {
            shadows: num(0),
            dark_mid: num(0),
            light_mid: num(0),
            highlights: num(0),
        }
    }
}

/// Hue, saturation and lightness of one band.
#[derive(Clone, Copy, Debug, PartialEq, Eq)]
pub struct HslBand {
    pub hue: Single,
    pub sat: Single,
    pub light: Single,
}

impl HslBand {
    pub open spec fn spec_default() -> HslBand {
        HslBand {
            hue: num(0),
            sat: num(0x3f80_0000),  // 1
            light: num(0x3f80_0000),  // 1
        }
    }
}

impl Default for HslBand {
    fn default() -> (r: HslBand)
        ensures
            r == HslBand::spec_default(),
    {
        HslBand {
            hue: num(0),
            sat: num(0x3f80_0000),  // 1
            light: num(0x3f80_0000),  // 1
        }
    }
}

/// Exposure in stops.
#[derive(Clone, Copy, Debug, PartialEq, Eq)]
pub struct ExposurePreset {
    pub ev: Single,
}

impl ExposurePreset {
    pub open spec fn spec_default() -> ExposurePreset {
        ExposurePreset {
            ev: num(0),
        }
    }
}

impl Default for ExposurePreset {
    fn default() -> (r: ExposurePreset)
        ensures
            r == ExposurePreset::spec_default(),
    {
        ExposurePreset {
            ev: num(0),
        }
    }
}

/// Compression of highlights.
#[derive(Clone, Copy, Debug, PartialEq, Eq)]
pub struct ToneMapSection {
    pub mode: ToneMapPreset,
}

impl ToneMapSection {
    pub open spec fn spec_default() -> ToneMapSection {
        ToneMapSection {
            mode: ToneMapPreset::Off,
        }
    }
}

impl Default for ToneMapSection {
    fn default() -> (r: ToneMapSection)
        ensures
            r == ToneMapSection::spec_default(),
    {
        ToneMapSection {
            mode: ToneMapPreset::Off,
        }
    }
}

/// Geometry.
#[derive(Clone, Copy, Debug, PartialEq, Eq)]
pub struct GeometryPreset {
    pub crop: Option<(Single, Single, Single, Single)>,
    pub quarter_turns: u8,
    pub rotate_deg: Single,
    pub flip_h: bool,
    pub flip_v: bool,
    pub perspective: Option<(Single, Single)>,
}

impl GeometryPreset {
    pub open spec fn spec_default() -> GeometryPreset {
        GeometryPreset {
            crop: None,
            quarter_turns: 0,
            rotate_deg: num(0),
            flip_h: false,
            flip_v: false,
            perspective: None,
        }
    }
}

impl Default for GeometryPreset {
    fn default() -> (r: GeometryPreset)
        ensures
            r == GeometryPreset::spec_default(),
    {
        GeometryPreset {
            crop: None,
            quarter_turns: 0,
            rotate_deg: num(0),
            flip_h: false,
            flip_v: false,
            perspective: None,
        }
    }
}

/// Finishing stages.
#[derive(Clone, Copy, Debug, PartialEq, Eq)]
pub struct DetailPreset {
    pub denoise: Single,
    pub sharpen: Single,
    pub diffuse: Single,
}

impl DetailPreset {
    pub open spec fn spec_default() -> DetailPreset {
        DetailPreset {
            denoise: num(0),
            sharpen: num(0),
            diffuse: num(0),
        }
    }
}

impl Default for DetailPreset {
    fn default() -> (r: DetailPreset)
        ensures
            r == DetailPreset::spec_default(),
    {
        DetailPreset {
            denoise: num(0),
            sharpen: num(0),
            diffuse: num(0),
        }
    }
}

/// Skin smoothing and fusion.
#[derive(Clone, Copy, Debug, PartialEq, Eq)]
pub struct AdvancedPreset {
    pub freqsep_enabled: bool,
    pub freqsep_strength: Single,
    pub freqsep_texture_keep: Single,
    pub freqsep_smoothness: Single,
    pub freqsep_mask_feather: Single,
    pub pyramid_enabled: bool,
    pub pyramid_strength: Single,
    pub pyramid_detail_scale: Single,
}

impl AdvancedPreset {
    pub open spec fn spec_default() -> AdvancedPreset {
        AdvancedPreset {
            freqsep_enabled: false,
            freqsep_strength: num(0x3f00_0000),  // 0.5
            freqsep_texture_keep: num(0x3f4c_cccd),  // 0.8
            freqsep_smoothness: num(0x3e99_999a),  // 0.3
            freqsep_mask_feather: num(0x3f00_0000),  // 0.5
            pyramid_enabled: false,
            pyramid_strength: num(0x3f00_0000),  // 0.5
            pyramid_detail_scale: num(0x3f80_0000),  // 1
        }
    }
}

impl Default for AdvancedPreset {
    fn default() -> (r: AdvancedPreset)
        ensures
            r == AdvancedPreset::spec_default(),
    {
        AdvancedPreset {
            freqsep_enabled: false,
            freqsep_strength: num(0x3f00_0000),  // 0.5
            freqsep_texture_keep: num(0x3f4c_cccd),  // 0.8
            freqsep_smoothness: num(0x3e99_999a),  // 0.3
            freqsep_mask_feather: num(0x3f00_0000),  // 0.5
            pyramid_enabled: false,
            pyramid_strength: num(0x3f00_0000),  // 0.5
            pyramid_detail_scale: num(0x3f80_0000),  // 1
        }
    }
}

/// What a factor is where a file leaves it out.
pub fn default_one() -> (r: Single)
    ensures
        r == num(0x3f80_0000),
{
    num(0x3f80_0000)  // 1
}

/// What the fading of chroma is where a file leaves it out.
pub fn default_chroma_decay() -> (r: Single)
    ensures
        r == num(0x3dcc_cccd),
{
    num(0x3dcc_cccd)  // 0.1
}

/// What a protecting switch is where a file leaves it out.
pub fn default_true() -> (r: bool)
    ensures
        r,
{
    true
}

/// What the mix is where a file leaves it out.
pub fn default_mix() -> (r: Single)
    ensures
        r == num(0x3f80_0000),
{
    num(0x3f80_0000)  // 1
}

/// All settings in sections.
#[derive(Debug)]
pub struct Preset {
    pub exposure: ExposurePreset,
    pub tone_map: ToneMapSection,
    pub defake: DefakePreset,
    pub grade: GradePreset,
    pub white_balance: WhiteBalancePreset,
    pub color: ColorPreset,
    pub skin: SkinPreset,
    pub zones: ZonePreset,
    pub geometry: GeometryPreset,
    pub detail: DetailPreset,
    pub advanced: AdvancedPreset,
    /// Bands by name. Of two entries for one band the later one holds.
    pub hsl: Vec<(String, HslBand)>,
    /// Share of the developed picture.
    pub mix: Single,
}

impl Default for Preset {
    fn default() -> (r: Preset)
        ensures
            r.exposure == ExposurePreset::spec_default(),
            r.tone_map == ToneMapSection::spec_default(),
            r.defake == DefakePreset::spec_default(),
            r.grade == GradePreset::spec_default(),
            r.white_balance == WhiteBalancePreset::spec_default(),
            r.color == ColorPreset::spec_default(),
            r.skin == SkinPreset::spec_default(),
            r.zones == ZonePreset::spec_default(),
            r.geometry == GeometryPreset::spec_default(),
            r.detail == DetailPreset::spec_default(),
            r.advanced == AdvancedPreset::spec_default(),
            r.hsl@.len() == 0,
            r.mix == num(0x3f80_0000),  // 1
    {
        Preset {
            exposure: ExposurePreset::default(),
            tone_map: ToneMapSection::default(),
            defake: DefakePreset::default(),
            grade: GradePreset::default(),
            white_balance: WhiteBalancePreset::default(),
            color: ColorPreset::default(),
            skin: SkinPreset::default(),
            zones: ZonePreset::default(),
            geometry: GeometryPreset::default(),
            detail: DetailPreset::default(),
            advanced: AdvancedPreset::default(),
            hsl: Vec::new(),
            mix: num(0x3f80_0000),  // 1
        }
    }
}

/// Bands, with each name as its characters.
pub open spec fn named_bands(v: Seq<(String, HslBand)>) -> Seq<(Seq<char>, HslBand)> {
    Seq::new(v.len(), |i: int| (v[i].0@, v[i].1))
}

/// The regions with one band set.
pub open spec fn with_band(h: HslRegions, i: int, b: HslBand) -> HslRegions {
    HslRegions {
        hue_shift: with_eighth(h.hue_shift, i, b.hue),
        sat_mult: with_eighth(h.sat_mult, i, b.sat),
        light_mult: with_eighth(h.light_mult, i, b.light),
    }
}

/// The regions that the first `k` entries set. An entry with an unknown name sets nothing.
pub open spec fn regions_of(v: Seq<(Seq<char>, HslBand)>, k: int) -> HslRegions
    decreases k,
{
    if k <= 0 {
        HslRegions::spec_default()
    } else {
        match band_of(v[k - 1].0) {
            Some(i) => with_band(regions_of(v, k - 1), i as int, v[k - 1].1),
            None => regions_of(v, k - 1),
        }
    }
}

impl Preset {
    /// The settings that the preset holds.
    pub open spec fn adjustments(self) -> Adjustments {
        Adjustments {
            exposure_ev: self.exposure.ev,
            tone_map: mode_of(self.tone_map.mode),
            defake: DefakeColor {
                enabled: self.defake.enabled,
                chroma_decay: self.defake.chroma_decay,
                fix_sky: self.defake.fix_sky,
                protect_skin: self.defake.protect_skin,
                gamut_softclip: self.defake.gamut_softclip,
            },
            grade: Grade {
                brightness_lift: self.grade.brightness_lift,
                contrast: self.grade.contrast,
                dehaze: self.grade.dehaze,
                shadow_lift: self.grade.shadow_lift,
                deep_shadow_lift: self.grade.deep_shadow_lift,
                film_curve: self.grade.film_curve,
                light_ratio: self.grade.light_ratio,
            },
            white_balance: WhiteBalance {
                temp: self.white_balance.temperature,
                tint: self.white_balance.tint,
            },
            color: ColorGrade {
                saturation: self.color.saturation,
                vibrance: self.color.vibrance,
                hue_rotate: self.color.hue_rotate,
                split_shadow: self.color.split_shadow,
                split_highlight: self.color.split_highlight,
            },
            hsl: regions_of(named_bands(self.hsl@), self.hsl@.len() as int),
            skin: SkinTone {
                enabled: self.skin.enabled,
                strength: self.skin.strength,
                hue_target: self.skin.hue_target,
                chroma_target: self.skin.chroma_target,
                light_lift: self.skin.light_lift,
                smoothness: self.skin.smoothness,
                protect_non_skin: self.skin.protect_non_skin,
                yellow_reduce: self.skin.yellow_reduce,
                lighten: self.skin.lighten,
                redden: self.skin.redden,
                pinken: self.skin.pinken,
            },
            zones: ZoneGrade {
                lift: [
                    self.zones.shadows,
                    self.zones.dark_mid,
                    self.zones.light_mid,
                    self.zones.highlights,
                ],
            },
            geometry: Geometry {
                crop: self.geometry.crop,
                quarter_turns: self.geometry.quarter_turns,
                rotate_deg: self.geometry.rotate_deg,
                flip_h: self.geometry.flip_h,
                flip_v: self.geometry.flip_v,
                perspective: self.geometry.perspective,
            },
            detail: Detail {
                denoise: self.detail.denoise,
                sharpen: self.detail.sharpen,
                diffuse: self.detail.diffuse,
            },
            advanced: Advanced {
                freqsep: FreqSepSkin {
                    enabled: self.advanced.freqsep_enabled,
                    strength: self.advanced.freqsep_strength,
                    texture_keep: self.advanced.freqsep_texture_keep,
                    smoothness: self.advanced.freqsep_smoothness,
                    mask_feather: self.advanced.freqsep_mask_feather,
                },
                pyramid: PyramidFusion {
                    enabled: self.advanced.pyramid_enabled,
                    strength: self.advanced.pyramid_strength,
                    detail_scale: self.advanced.pyramid_detail_scale,
                },
            },
            color_plan: None,
            mix: self.mix,
        }
    }

    /// The settings that the preset holds. Bands with unknown names are left out.
    pub fn to_adjustments(&self) -> (r: Adjustments)
        ensures
            r == self.adjustments(),
    {
        let mut hsl: HslRegions = HslRegions::default();
        let mut k: usize = 0;
        while k < self.hsl.len()
            invariant
                k <= self.hsl@.len(),
                hsl == regions_of(named_bands(self.hsl@), k as int),
            decreases self.hsl@.len() - k,
        {
            let ghost before = hsl;
            let b: HslBand = self.hsl[k].1;
            if let Some(i) = HslRegions::band_index(self.hsl[k].0.as_str()) {
                hsl.hue_shift[i] = b.hue;
                hsl.sat_mult[i] = b.sat;
                hsl.light_mult[i] = b.light;
                assert(hsl.hue_shift =~= with_eighth(before.hue_shift, i as int, b.hue));
                assert(hsl.sat_mult =~= with_eighth(before.sat_mult, i as int, b.sat));
                assert(hsl.light_mult =~= with_eighth(before.light_mult, i as int, b.light));
                assert(hsl == with_band(before, i as int, b));
            }
            k = k + 1;
        }
        Adjustments {
            exposure_ev: self.exposure.ev,
            tone_map: ToneMapMode::from(self.tone_map.mode),
            defake: DefakeColor {
                enabled: self.defake.enabled,
                chroma_decay: self.defake.chroma_decay,
                fix_sky: self.defake.fix_sky,
                protect_skin: self.defake.protect_skin,
                gamut_softclip: self.defake.gamut_softclip,
            },
            grade: Grade {
                brightness_lift: self.grade.brightness_lift,
                contrast: self.grade.contrast,
                dehaze: self.grade.dehaze,
                shadow_lift: self.grade.shadow_lift,
                deep_shadow_lift: self.grade.deep_shadow_lift,
                film_curve: self.grade.film_curve,
                light_ratio: self.grade.light_ratio,
            },
            white_balance: WhiteBalance {
                temp: self.white_balance.temperature,
                tint: self.white_balance.tint,
            },
            color: ColorGrade {
                saturation: self.color.saturation,
                vibrance: self.color.vibrance,
                hue_rotate: self.color.hue_rotate,
                split_shadow: self.color.split_shadow,
                split_highlight: self.color.split_highlight,
            },
            hsl: hsl,
            skin: SkinTone {
                enabled: self.skin.enabled,
                strength: self.skin.strength,
                hue_target: self.skin.hue_target,
                chroma_target: self.skin.chroma_target,
                light_lift: self.skin.light_lift,
                smoothness: self.skin.smoothness,
                protect_non_skin: self.skin.protect_non_skin,
                yellow_reduce: self.skin.yellow_reduce,
                lighten: self.skin.lighten,
                redden: self.skin.redden,
                pinken: self.skin.pinken,
            },
            zones: ZoneGrade {
                lift: [
                    self.zones.shadows,
                    self.zones.dark_mid,
                    self.zones.light_mid,
                    self.zones.highlights,
                ],
            },
            geometry: Geometry {
                crop: self.geometry.crop,
                quarter_turns: self.geometry.quarter_turns,
                rotate_deg: self.geometry.rotate_deg,
                flip_h: self.geometry.flip_h,
                flip_v: self.geometry.flip_v,
                perspective: self.geometry.perspective,
            },
            detail: Detail {
                denoise: self.detail.denoise,
                sharpen: self.detail.sharpen,
                diffuse: self.detail.diffuse,
            },
            advanced: Advanced {
                freqsep: FreqSepSkin {
                    enabled: self.advanced.freqsep_enabled,
                    strength: self.advanced.freqsep_strength,
                    texture_keep: self.advanced.freqsep_texture_keep,
                    smoothness: self.advanced.freqsep_smoothness,
                    mask_feather: self.advanced.freqsep_mask_feather,
                },
                pyramid: PyramidFusion {
                    enabled: self.advanced.pyramid_enabled,
                    strength: self.advanced.pyramid_strength,
                    detail_scale: self.advanced.pyramid_detail_scale,
                },
            },
            color_plan: None,
            mix: self.mix,
        }
    }

    /// The names that stand for no band, in their order.
    pub fn unknown_bands(&self) -> (r: Vec<String>)
        ensures
            names_of(r@) == unknown_names(named_bands(self.hsl@), self.hsl@.len() as int),
    {
        let mut r: Vec<String> = Vec::new();
        assert(names_of(r@) =~= unknown_names(named_bands(self.hsl@), 0));
        let mut k: usize = 0;
        while k < self.hsl.len()
            invariant
                k <= self.hsl@.len(),
                names_of(r@) == unknown_names(named_bands(self.hsl@), k as int),
            decreases self.hsl@.len() - k,
        {
            if HslRegions::band_index(self.hsl[k].0.as_str()).is_none() {
                let ghost before = r@;
                r.push(self.hsl[k].0.clone());
                assert(names_of(r@) =~= names_of(before).push(self.hsl@[k as int].0@));
            }
            k = k + 1;
        }
        r
    }
}

/// Names as their characters.
pub open spec fn names_of(v: Seq<String>) -> Seq<Seq<char>> {
    Seq::new(v.len(), |i: int| v[i]@)
}

/// The names among the first `k` entries that stand for no band.
pub open spec fn unknown_names(v: Seq<(Seq<char>, HslBand)>, k: int) -> Seq<Seq<char>>
    decreases k,
{
    if k <= 0 {
        Seq::empty()
    } else if band_of(v[k - 1].0) is None {
        unknown_names(v, k - 1).push(v[k - 1].0)
    } else {
        unknown_names(v, k - 1)
    }
}

/// The name under which a band is written.
pub open spec fn band_name(i: int) -> Seq<char> {
    if i == 0 {
        "red"@
    } else if i == 1 {
        "orange"@
    } else if i == 2 {
        "yellow"@
    } else if i == 3 {
        "green"@
    } else if i == 4 {
        "aqua"@
    } else if i == 5 {
        "blue"@
    } else if i == 6 {
        "purple"@
    } else {
        "magenta"@
    }
}

/// The band is not neutral.
pub open spec fn band_set(h: HslRegions, i: int) -> bool {
    !h.hue_shift[i].same(num(0)) || !h.sat_mult[i].same(num(0x3f80_0000)) || !h.light_mult[i].same(
        num(0x3f80_0000),
    )
}

/// The bands among the first `k` that are not neutral, by name.
pub open spec fn bands_set(h: HslRegions, k: int) -> Seq<(Seq<char>, HslBand)>
    decreases k,
{
    if k <= 0 {
        Seq::empty()
    } else if band_set(h, k - 1) {
        bands_set(h, k - 1).push(
            (
                band_name(k - 1),
                HslBand {
                    hue: h.hue_shift[k - 1],
                    sat: h.sat_mult[k - 1],
                    light: h.light_mult[k - 1],
                },
            ),
        )
    } else {
        bands_set(h, k - 1)
    }
}

fn band_text(i: usize) -> (r: &'static str)
    requires
        i < 8,
    ensures
        r@ == band_name(i as int),
{
    if i == 0 {
        "red"
    } else if i == 1 {
        "orange"
    } else if i == 2 {
        "yellow"
    } else if i == 3 {
        "green"
    } else if i == 4 {
        "aqua"
    } else if i == 5 {
        "blue"
    } else if i == 6 {
        "purple"
    } else {
        "magenta"
    }
}

/// The preset holds the settings: each section those of its name, and the bands that are not
/// neutral.
pub open spec fn preset_holds(p: Preset, a: Adjustments) -> bool {
    &&& p.exposure == (ExposurePreset { ev: a.exposure_ev })
    &&& p.tone_map == (ToneMapSection { mode: preset_mode_of(a.tone_map) })
    &&& p.defake == (DefakePreset {
        enabled: a.defake.enabled,
        chroma_decay: a.defake.chroma_decay,
        fix_sky: a.defake.fix_sky,
        protect_skin: a.defake.protect_skin,
        gamut_softclip: a.defake.gamut_softclip,
    })
    &&& p.grade == (GradePreset {
        brightness_lift: a.grade.brightness_lift,
        contrast: a.grade.contrast,
        dehaze: a.grade.dehaze,
        shadow_lift: a.grade.shadow_lift,
        deep_shadow_lift: a.grade.deep_shadow_lift,
        film_curve: a.grade.film_curve,
        light_ratio: a.grade.light_ratio,
    })
    &&& p.white_balance == (WhiteBalancePreset {
        temperature: a.white_balance.temp,
        tint: a.white_balance.tint,
    })
    &&& p.color == (ColorPreset {
        saturation: a.color.saturation,
        vibrance: a.color.vibrance,
        hue_rotate: a.color.hue_rotate,
        split_shadow: a.color.split_shadow,
        split_highlight: a.color.split_highlight,
    })
    &&& p.skin == (SkinPreset {
        enabled: a.skin.enabled,
        strength: a.skin.strength,
        hue_target: a.skin.hue_target,
        chroma_target: a.skin.chroma_target,
        light_lift: a.skin.light_lift,
        smoothness: a.skin.smoothness,
        protect_non_skin: a.skin.protect_non_skin,
        yellow_reduce: a.skin.yellow_reduce,
        lighten: a.skin.lighten,
        redden: a.skin.redden,
        pinken: a.skin.pinken,
    })
    &&& p.zones == (ZonePreset {
        shadows: a.zones.lift[0],
        dark_mid: a.zones.lift[1],
        light_mid: a.zones.lift[2],
        highlights: a.zones.lift[3],
    })
    &&& p.geometry == (GeometryPreset {
        crop: a.geometry.crop,
        quarter_turns: a.geometry.quarter_turns,
        rotate_deg: a.geometry.rotate_deg,
        flip_h: a.geometry.flip_h,
        flip_v: a.geometry.flip_v,
        perspective: a.geometry.perspective,
    })
    &&& p.detail == (DetailPreset {
        denoise: a.detail.denoise,
        sharpen: a.detail.sharpen,
        diffuse: a.detail.diffuse,
    })
    &&& p.advanced == (AdvancedPreset {
        freqsep_enabled: a.advanced.freqsep.enabled,
        freqsep_strength: a.advanced.freqsep.strength,
        freqsep_texture_keep: a.advanced.freqsep.texture_keep,
        freqsep_smoothness: a.advanced.freqsep.smoothness,
        freqsep_mask_feather: a.advanced.freqsep.mask_feather,
        pyramid_enabled: a.advanced.pyramid.enabled,
        pyramid_strength: a.advanced.pyramid.strength,
        pyramid_detail_scale: a.advanced.pyramid.detail_scale,
    })
    &&& named_bands(p.hsl@) == bands_set(a.hsl, 8)
    &&& p.mix == a.mix
}

impl Adjustments {
    /// The settings as a preset. A plan for colour correction is not kept.
    pub fn to_preset(&self) -> (r: Preset)
        ensures
            preset_holds(r, *self),
    {
        let mut hsl: Vec<(String, HslBand)> = Vec::new();
        assert(named_bands(hsl@) =~= bands_set(self.hsl, 0));
        let mut i: usize = 0;
        while i < 8
            invariant
                i <= 8,
                named_bands(hsl@) == bands_set(self.hsl, i as int),
            decreases 8 - i,
        {
            let b: HslBand = HslBand {
                hue: self.hsl.hue_shift[i],
                sat: self.hsl.sat_mult[i],
                light: self.hsl.light_mult[i],
            };
            if !b.hue.same(num(0)) || !b.sat.same(num(0x3f80_0000)) || !b.light.same(
                num(0x3f80_0000),
            ) {
                let ghost before = hsl@;
                hsl.push((band_text(i).to_string(), b));
                assert(named_bands(hsl@) =~= named_bands(before).push((band_name(i as int), b)));
            }
            i = i + 1;
        }
        Preset {
            exposure: ExposurePreset { ev: self.exposure_ev },
            tone_map: ToneMapSection { mode: ToneMapPreset::from(self.tone_map) },
            defake: DefakePreset {
                enabled: self.defake.enabled,
                chroma_decay: self.defake.chroma_decay,
                fix_sky: self.defake.fix_sky,
                protect_skin: self.defake.protect_skin,
                gamut_softclip: self.defake.gamut_softclip,
            },
            grade: GradePreset {
                brightness_lift: self.grade.brightness_lift,
                contrast: self.grade.contrast,
                dehaze: self.grade.dehaze,
                shadow_lift: self.grade.shadow_lift,
                deep_shadow_lift: self.grade.deep_shadow_lift,
                film_curve: self.grade.film_curve,
                light_ratio: self.grade.light_ratio,
            },
            white_balance: WhiteBalancePreset {
                temperature: self.white_balance.temp,
                tint: self.white_balance.tint,
            },
            color: ColorPreset {
                saturation: self.color.saturation,
                vibrance: self.color.vibrance,
                hue_rotate: self.color.hue_rotate,
                split_shadow: self.color.split_shadow,
                split_highlight: self.color.split_highlight,
            },
            skin: SkinPreset {
                enabled: self.skin.enabled,
                strength: self.skin.strength,
                hue_target: self.skin.hue_target,
                chroma_target: self.skin.chroma_target,
                light_lift: self.skin.light_lift,
                smoothness: self.skin.smoothness,
                protect_non_skin: self.skin.protect_non_skin,
                yellow_reduce: self.skin.yellow_reduce,
                lighten: self.skin.lighten,
                redden: self.skin.redden,
                pinken: self.skin.pinken,
            },
            zones: ZonePreset {
                shadows: self.zones.lift[0],
                dark_mid: self.zones.lift[1],
                light_mid: self.zones.lift[2],
                highlights: self.zones.lift[3],
            },
            geometry: GeometryPreset {
                crop: self.geometry.crop,
                quarter_turns: self.geometry.quarter_turns,
                rotate_deg: self.geometry.rotate_deg,
                flip_h: self.geometry.flip_h,
                flip_v: self.geometry.flip_v,
                perspective: self.geometry.perspective,
            },
            detail: DetailPreset {
                denoise: self.detail.denoise,
                sharpen: self.detail.sharpen,
                diffuse: self.detail.diffuse,
            },
            advanced: AdvancedPreset {
                freqsep_enabled: self.advanced.freqsep.enabled,
                freqsep_strength: self.advanced.freqsep.strength,
                freqsep_texture_keep: self.advanced.freqsep.texture_keep,
                freqsep_smoothness: self.advanced.freqsep.smoothness,
                freqsep_mask_feather: self.advanced.freqsep.mask_feather,
                pyramid_enabled: self.advanced.pyramid.enabled,
                pyramid_strength: self.advanced.pyramid.strength,
                pyramid_detail_scale: self.advanced.pyramid.detail_scale,
            },
            hsl,
            mix: self.mix,
        }
    }
}

proof fn lemma_band_names(i: int)
    requires
        0 <= i < 8,
    ensures
        band_of(band_name(i)) == Some(i as usize),
{
    reveal_strlit("red");
    reveal_strlit("orange");
    reveal_strlit("yellow");
    reveal_strlit("green");
    reveal_strlit("aqua");
    reveal_strlit("cyan");
    reveal_strlit("blue");
    reveal_strlit("purple");
    reveal_strlit("violet");
    reveal_strlit("magenta");
    assert("yellow"@[0] == 'y' && "orange"@[0] == 'o' && "purple"@[0] == 'p');
    assert("aqua"@[0] == 'a' && "cyan"@[0] == 'c' && "blue"@[0] == 'b');
    assert(band_name(i).len() > 0);
}

/// What is read back of the bands after the first `k` were written: a band that was set as it
/// was, and the others neutral.
proof fn lemma_bands_read_back(h: HslRegions, k: int, i: int)
    requires
        0 <= k <= 8,
        0 <= i < 8,
    ensures
        ({
            let v = bands_set(h, k);
            let r = regions_of(v, v.len() as int);
            if i < k && band_set(h, i) {
                r.hue_shift[i] == h.hue_shift[i] && r.sat_mult[i] == h.sat_mult[i]
                    && r.light_mult[i] == h.light_mult[i]
            } else {
                r.hue_shift[i] == num(0) && r.sat_mult[i] == num(0x3f80_0000) && r.light_mult[i]
                    == num(0x3f80_0000)
            }
        }),
    decreases k,
{
    if k > 0 {
        lemma_bands_read_back(h, k - 1, i);
        if band_set(h, k - 1) {
            let v = bands_set(h, k - 1);
            let w = bands_set(h, k);
            lemma_regions_prefix(v, w, v.len() as int);
            lemma_band_names(k - 1);
        }
    }
}

proof fn lemma_regions_prefix(v: Seq<(Seq<char>, HslBand)>, w: Seq<(Seq<char>, HslBand)>, n: int)
    requires
        0 <= n <= v.len() <= w.len(),
        forall|j: int| 0 <= j < n ==> v[j] == w[j],
    ensures
        regions_of(v, n) == regions_of(w, n),
    decreases n,
{
    if n > 0 {
        lemma_regions_prefix(v, w, n - 1);
    }
}

/// Settings that were written as a preset read back as they were. Two things differ: a plan for
/// colour correction is not kept, and a band whose numbers are those of a neutral band comes
/// back as the neutral band itself.
pub proof fn law_preset_reads_back(p: Preset, a: Adjustments)
    requires
        preset_holds(p, a),
    ensures
        ({
            let b = p.adjustments();
            &&& b == (Adjustments { hsl: b.hsl, color_plan: None, ..a })
            &&& forall|i: int|
                0 <= i < 8 ==> #[trigger] b.hsl.hue_shift[i].same(a.hsl.hue_shift[i])
                    || b.hsl.hue_shift[i] == a.hsl.hue_shift[i]
            &&& forall|i: int|
                0 <= i < 8 ==> #[trigger] b.hsl.sat_mult[i].same(a.hsl.sat_mult[i])
                    || b.hsl.sat_mult[i] == a.hsl.sat_mult[i]
            &&& forall|i: int|
                0 <= i < 8 ==> #[trigger] b.hsl.light_mult[i].same(a.hsl.light_mult[i])
                    || b.hsl.light_mult[i] == a.hsl.light_mult[i]
            &&& forall|i: int|
                0 <= i < 8 && band_set(a.hsl, i) ==> #[trigger] b.hsl.hue_shift[i]
                    == a.hsl.hue_shift[i] && b.hsl.sat_mult[i] == a.hsl.sat_mult[i]
                    && b.hsl.light_mult[i] == a.hsl.light_mult[i]
        }),
{
    let b = p.adjustments();
    assert(b.zones.lift =~= a.zones.lift);
    assert forall|i: int| 0 <= i < 8 implies #[trigger] b.hsl.hue_shift[i].same(a.hsl.hue_shift[i])
        || b.hsl.hue_shift[i] == a.hsl.hue_shift[i] by {
        lemma_bands_read_back(a.hsl, 8, i);
    }
    assert forall|i: int| 0 <= i < 8 implies #[trigger] b.hsl.sat_mult[i].same(a.hsl.sat_mult[i])
        || b.hsl.sat_mult[i] == a.hsl.sat_mult[i] by {
        lemma_bands_read_back(a.hsl, 8, i);
    }
    assert forall|i: int|
        0 <= i < 8 implies #[trigger] b.hsl.light_mult[i].same(a.hsl.light_mult[i])
        || b.hsl.light_mult[i] == a.hsl.light_mult[i] by {
        lemma_bands_read_back(a.hsl, 8, i);
    }
    assert forall|i: int| 0 <= i < 8 && band_set(a.hsl, i) implies #[trigger] b.hsl.hue_shift[i]
        == a.hsl.hue_shift[i] && b.hsl.sat_mult[i] == a.hsl.sat_mult[i] && b.hsl.light_mult[i]
        == a.hsl.light_mult[i] by {
        lemma_bands_read_back(a.hsl, 8, i);
    }
}

/// The neutral settings are written without any band, and read back as the neutral settings.
pub proof fn law_neutral_preset_is_neutral(p: Preset)
    requires
        preset_holds(p, Adjustments::spec_default()),
    ensures
        p.hsl@.len() == 0,
        p.adjustments() == Adjustments::spec_default(),
{
    let d = Adjustments::spec_default();
    lemma_neutral_bands(8);
    assert(named_bands(p.hsl@).len() == 0);
    assert(p.adjustments().zones.lift =~= d.zones.lift);
}

/// What a preset leaves out is identity: the preset without any section gives the neutral
/// settings, with healthy targets for the skin care that is off.
pub proof fn law_empty_preset_is_identity(p: Preset)
    requires
        p.exposure == ExposurePreset::spec_default(),
        p.tone_map == ToneMapSection::spec_default(),
        p.defake == DefakePreset::spec_default(),
        p.grade == GradePreset::spec_default(),
        p.white_balance == WhiteBalancePreset::spec_default(),
        p.color == ColorPreset::spec_default(),
        p.skin == SkinPreset::spec_default(),
        p.zones == ZonePreset::spec_default(),
        p.geometry == GeometryPreset::spec_default(),
        p.detail == DetailPreset::spec_default(),
        p.advanced == AdvancedPreset::spec_default(),
        p.hsl@.len() == 0,
        p.mix == num(0x3f80_0000),  // 1
    ensures
        p.adjustments() == (Adjustments {
            skin: SkinTone {
                hue_target: num(0x41c8_0000),  // 25
                chroma_target: num(0x3dcc_cccd),  // 0.1
                ..SkinTone::spec_default()
            },
            ..Adjustments::spec_default()
        }),
{
    let d = Adjustments::spec_default();
    assert(p.adjustments().zones.lift =~= d.zones.lift);
}

proof fn lemma_neutral_bands(k: int)
    requires
        0 <= k <= 8,
    ensures
        bands_set(HslRegions::spec_default(), k).len() == 0,
    decreases k,
{
    if k > 0 {
        lemma_neutral_bands(k - 1);
        assert(!band_set(HslRegions::spec_default(), k - 1));
    }
}

/// Converting a mode to its written form and back gives the mode.
pub proof fn law_modes_convert_back(t: ToneMapMode, p: ToneMapPreset)
    ensures
        mode_of(preset_mode_of(t)) == t,
        preset_mode_of(mode_of(p)) == p,
{
}

} // verus!
