//! The parameters of the development pipeline.

use crate::advanced::{Advanced, FreqSepSkin};
use crate::color_engine::ColorPlan;
use crate::detail::Detail;
use crate::geometry::Geometry;
use crate::text::{chars_of, reads_as, same_word};
use crate::single::{num, Single};
use vstd::prelude::*;

verus! {

/// How highlights are compressed behind the exposure.
#[derive(Clone, Copy, Debug, PartialEq, Eq, Structural)]
pub enum ToneMapMode {
    /// No compression.
    Off,
    Agx,
    Filmic,
}

impl Default for ToneMapMode {
    fn default() -> (r: ToneMapMode)
        ensures
            r == ToneMapMode::Off,
    {
        ToneMapMode::Off
    }
}

/// Taming of implausible colour. It lowers chroma only.
#[derive(Clone, Copy, Debug, PartialEq, Eq)]
pub struct DefakeColor {
    pub enabled: bool,
    /// How much chroma fades in highlights and deep shadows, 0 to 1.
    pub chroma_decay: Single,
    /// Limits chroma in the hues of the sky.
    pub fix_sky: bool,
    /// Limits chroma in the hues of skin.
    pub protect_skin: bool,
    /// Lowers chroma where a colour leaves the gamut.
    pub gamut_softclip: bool,
}

impl DefakeColor {
    pub open spec fn spec_default() -> DefakeColor {
        DefakeColor {
            enabled: false,
            chroma_decay: num(0x3dcc_cccd),  // 0.1
            fix_sky: true,
            protect_skin: true,
            gamut_softclip: true,
        }
    }
}

impl Default for DefakeColor {
    fn default() -> (r: DefakeColor)
        ensures
            r == DefakeColor::spec_default(),
    {
        DefakeColor {
            enabled: false,
            chroma_decay: num(0x3dcc_cccd),  // 0.1
            fix_sky: true,
            protect_skin: true,
            gamut_softclip: true,
        }
    }
}

impl DefakeColor {
    pub open spec fn spec_on() -> DefakeColor {
        DefakeColor {
            enabled: true,
            chroma_decay: num(0x3e99_999a),  // 0.3
            fix_sky: true,
            protect_skin: true,
            gamut_softclip: true,
        }
    }

    /// Switched on, at the strength of the standard look.
    #[verifier::when_used_as_spec(spec_on)]
    pub fn on() -> (r: DefakeColor)
        ensures
            r == DefakeColor::spec_on(),
    {
        DefakeColor {
            enabled: true,
            chroma_decay: num(0x3e99_999a),  // 0.3
            fix_sky: true,
            protect_skin: true,
            gamut_softclip: true,
        }
    }
}

/// Care of skin tones.
#[derive(Clone, Copy, Debug, PartialEq, Eq)]
pub struct SkinTone {
    pub enabled: bool,
    /// How far skin moves towards the target, 0 to 1.
    pub strength: Single,
    /// Hue of the target in degrees.
    pub hue_target: Single,
    /// Chroma of the target.
    pub chroma_target: Single,
    /// Lightness that skin gains.
    pub light_lift: Single,
    /// Spread of the hues taken for skin, in degrees.
    pub smoothness: Single,
    /// Leaves alone what is hardly skin.
    pub protect_non_skin: bool,
    /// Away from yellow, 0 to 1.
    pub yellow_reduce: Single,
    /// Brighter, 0 to 1.
    pub lighten: Single,
    /// More red, 0 to 1.
    pub redden: Single,
    /// Towards pink, 0 to 1.
    pub pinken: Single,
}

impl SkinTone {
    pub open spec fn spec_default() -> SkinTone {
        SkinTone {
            enabled: false,
            strength: num(0x3f00_0000),  // 0.5
            hue_target: num(0x41f0_0000),  // 30
            chroma_target: num(0x3d8f_5c29),  // 0.07
            light_lift: num(0x3c23_d70a),  // 0.01
            smoothness: num(0x4180_0000),  // 16
            protect_non_skin: true,
            yellow_reduce: num(0),  // 0
            lighten: num(0),  // 0
            redden: num(0),  // 0
            pinken: num(0),  // 0
        }
    }
}

impl Default for SkinTone {
    fn default() -> (r: SkinTone)
        ensures
            r == SkinTone::spec_default(),
    {
        SkinTone {
            enabled: false,
            strength: num(0x3f00_0000),  // 0.5
            hue_target: num(0x41f0_0000),  // 30
            chroma_target: num(0x3d8f_5c29),  // 0.07
            light_lift: num(0x3c23_d70a),  // 0.01
            smoothness: num(0x4180_0000),  // 16
            protect_non_skin: true,
            yellow_reduce: num(0),  // 0
            lighten: num(0),  // 0
            redden: num(0),  // 0
            pinken: num(0),  // 0
        }
    }
}

impl SkinTone {
    pub open spec fn spec_pink() -> SkinTone {
        SkinTone {
            enabled: true,
            strength: num(0x3f00_0000),  // 0.5
            hue_target: num(0x41f0_0000),  // 30
            chroma_target: num(0x3d99_999a),  // 0.075
            light_lift: num(0x3c75_c28f),  // 0.015
            smoothness: num(0x4180_0000),  // 16
            protect_non_skin: true,
            yellow_reduce: num(0),  // 0
            lighten: num(0),  // 0
            redden: num(0),  // 0
            pinken: num(0x3eb3_3333),  // 0.35
        }
    }

    /// A healthy pink.
    #[verifier::when_used_as_spec(spec_pink)]
    pub fn pink() -> (r: SkinTone)
        ensures
            r == SkinTone::spec_pink(),
    {
        SkinTone {
            enabled: true,
            strength: num(0x3f00_0000),  // 0.5
            hue_target: num(0x41f0_0000),  // 30
            chroma_target: num(0x3d99_999a),  // 0.075
            light_lift: num(0x3c75_c28f),  // 0.015
            smoothness: num(0x4180_0000),  // 16
            protect_non_skin: true,
            yellow_reduce: num(0),  // 0
            lighten: num(0),  // 0
            redden: num(0),  // 0
            pinken: num(0x3eb3_3333),  // 0.35
        }
    }
}

impl SkinTone {
    pub open spec fn spec_resolved_targets(self) -> (Single, Single, Single) {
        // 30, 6, 4
        let hue = num(0x41f0_0000).plus(self.pinken.times(num(0x40c0_0000))).minus(self.yellow_reduce.times(num(0x4080_0000)));
        let chroma = self.chroma_target.plus(self.redden.times(num(0x3ccc_cccd))).plus(  // 0.025
            self.pinken.times(num(0x3c75_c28f)),  // 0.015
        // 0.03, 0.09
        ).minus(self.yellow_reduce.times(num(0x3cf5_c28f))).clamp(num(0x3cf5_c28f), num(0x3db8_51ec));
        let lift = self.light_lift.plus(self.lighten.times(num(0x3d4c_cccd)));  // 0.05
        (hue.rem_euclid(num(0x43b4_0000)), chroma, lift)  // 360
    }

    /// The hue, chroma and lift that the controls together ask for: from a base hue of 30
    /// degrees, pink adds up to 6 and yellow takes up to 4; chroma stays from 0.03 to 0.09.
    #[verifier::when_used_as_spec(spec_resolved_targets)]
    pub fn resolved_targets(self) -> (r: (Single, Single, Single))
        ensures
            r == self.spec_resolved_targets(),
    {
        let hue: Single = num(0x41f0_0000).plus(self.pinken.times(num(0x40c0_0000))).minus(  // 30, 6
            self.yellow_reduce.times(num(0x4080_0000)),  // 4
        );
        // 0.025
        let chroma: Single = self.chroma_target.plus(self.redden.times(num(0x3ccc_cccd))).plus(
            self.pinken.times(num(0x3c75_c28f)),  // 0.015
        // 0.03, 0.09
        ).minus(self.yellow_reduce.times(num(0x3cf5_c28f))).clamp(num(0x3cf5_c28f), num(0x3db8_51ec));
        let lift: Single = self.light_lift.plus(self.lighten.times(num(0x3d4c_cccd)));  // 0.05
        (hue.rem_euclid(num(0x43b4_0000)), chroma, lift)  // 360
    }
}

/// Lightness offsets of four zones: deep shadows, shadows, midtones, highlights.
#[derive(Clone, Copy, Debug, PartialEq, Eq)]
pub struct ZoneGrade {
    pub lift: [Single; 4],
}

impl ZoneGrade {
    pub open spec fn spec_default() -> ZoneGrade {
        ZoneGrade {
            lift: [num(0), num(0), num(0), num(0)],
        }
    }
}

impl Default for ZoneGrade {
    fn default() -> (r: ZoneGrade)
        ensures
            r == ZoneGrade::spec_default(),
    {
        ZoneGrade {
            lift: [num(0), num(0), num(0), num(0)],
        }
    }
}

/// Changes of lightness; all zero changes nothing.
#[derive(Clone, Copy, Debug, PartialEq, Eq)]
pub struct Grade {
    /// Soft lift that keeps highlights.
    pub brightness_lift: Single,
    /// Contrast around the mean lightness.
    pub contrast: Single,
    /// Separation of the midtones.
    pub dehaze: Single,
    /// Lift of the shadows.
    pub shadow_lift: Single,
    /// Lift of the deepest shadows.
    pub deep_shadow_lift: Single,
    /// A film-like curve; below zero it flattens.
    pub film_curve: Single,
    /// Opens or closes the light ratio.
    pub light_ratio: Single,
}

impl Grade {
    pub open spec fn spec_default() -> Grade {
        Grade {
            brightness_lift: num(0),  // 0
            contrast: num(0),  // 0
            dehaze: num(0),  // 0
            shadow_lift: num(0),  // 0
            deep_shadow_lift: num(0),  // 0
            film_curve: num(0),  // 0
            light_ratio: num(0),  // 0
        }
    }
}

impl Default for Grade {
    fn default() -> (r: Grade)
        ensures
            r == Grade::spec_default(),
    {
        Grade {
            brightness_lift: num(0),  // 0
            contrast: num(0),  // 0
            dehaze: num(0),  // 0
            shadow_lift: num(0),  // 0
            deep_shadow_lift: num(0),  // 0
            film_curve: num(0),  // 0
            light_ratio: num(0),  // 0
        }
    }
}

/// White balance: warmer above zero, more magenta above zero.
#[derive(Clone, Copy, Debug, PartialEq, Eq)]
pub struct WhiteBalance {
    pub temp: Single,
    pub tint: Single,
}

impl WhiteBalance {
    pub open spec fn spec_default() -> WhiteBalance {
        WhiteBalance {
            temp: num(0),  // 0
            tint: num(0),  // 0
        }
    }
}

impl Default for WhiteBalance {
    fn default() -> (r: WhiteBalance)
        ensures
            r == WhiteBalance::spec_default(),
    {
        WhiteBalance {
            temp: num(0),  // 0
            tint: num(0),  // 0
        }
    }
}

/// Changes of chroma and hue.
#[derive(Clone, Copy, Debug, PartialEq, Eq)]
pub struct ColorGrade {
    /// Factor on chroma; 1 changes nothing.
    pub saturation: Single,
    /// Extra for dull colours.
    pub vibrance: Single,
    /// Degrees by which hues turn.
    pub hue_rotate: Single,
    /// Degrees by which hues turn in the shadows.
    pub split_shadow: Single,
    /// Degrees by which hues turn in the highlights.
    pub split_highlight: Single,
}

impl ColorGrade {
    pub open spec fn spec_default() -> ColorGrade {
        ColorGrade {
            saturation: num(0x3f80_0000),  // 1
            vibrance: num(0),  // 0
            hue_rotate: num(0),  // 0
            split_shadow: num(0),  // 0
            split_highlight: num(0),  // 0
        }
    }
}

impl Default for ColorGrade {
    fn default() -> (r: ColorGrade)
        ensures
            r == ColorGrade::spec_default(),
    {
        ColorGrade {
            saturation: num(0x3f80_0000),  // 1
            vibrance: num(0),  // 0
            hue_rotate: num(0),  // 0
            split_shadow: num(0),  // 0
            split_highlight: num(0),  // 0
        }
    }
}

/// Hue, saturation and lightness of eight bands of hue: red, orange, yellow, green, aqua, blue,
/// purple, magenta.
#[derive(Clone, Copy, Debug, PartialEq, Eq)]
pub struct HslRegions {
    /// Degrees added to the hue.
    pub hue_shift: [Single; 8],
    /// Factor on the chroma.
    pub sat_mult: [Single; 8],
    /// Factor on the lightness.
    pub light_mult: [Single; 8],
}

impl HslRegions {
    pub open spec fn spec_default() -> HslRegions {
        HslRegions {
            hue_shift: [num(0), num(0), num(0), num(0), num(0), num(0), num(0), num(0)],
            sat_mult: [
                num(0x3f80_0000),
                num(0x3f80_0000),
                num(0x3f80_0000),
                num(0x3f80_0000),
                num(0x3f80_0000),
                num(0x3f80_0000),
                num(0x3f80_0000),
                num(0x3f80_0000),
            ],
            light_mult: [
                num(0x3f80_0000),
                num(0x3f80_0000),
                num(0x3f80_0000),
                num(0x3f80_0000),
                num(0x3f80_0000),
                num(0x3f80_0000),
                num(0x3f80_0000),
                num(0x3f80_0000),
            ],
        }
    }
}

impl Default for HslRegions {
    fn default() -> (r: HslRegions)
        ensures
            r == HslRegions::spec_default(),
    {
        HslRegions {
            hue_shift: [num(0), num(0), num(0), num(0), num(0), num(0), num(0), num(0)],
            sat_mult: [
                num(0x3f80_0000),
                num(0x3f80_0000),
                num(0x3f80_0000),
                num(0x3f80_0000),
                num(0x3f80_0000),
                num(0x3f80_0000),
                num(0x3f80_0000),
                num(0x3f80_0000),
            ],
            light_mult: [
                num(0x3f80_0000),
                num(0x3f80_0000),
                num(0x3f80_0000),
                num(0x3f80_0000),
                num(0x3f80_0000),
                num(0x3f80_0000),
                num(0x3f80_0000),
                num(0x3f80_0000),
            ],
        }
    }
}

/// The band that a name stands for, in upper or lower case.
pub open spec fn band_of(name: Seq<char>) -> Option<usize> {
    if same_word(name, "red"@) {
        Some(0usize)
    } else if same_word(name, "orange"@) {
        Some(1usize)
    } else if same_word(name, "yellow"@) {
        Some(2usize)
    } else if same_word(name, "green"@) {
        Some(3usize)
    } else if same_word(name, "aqua"@) || same_word(name, "cyan"@) {
        Some(4usize)
    } else if same_word(name, "blue"@) {
        Some(5usize)
    } else if same_word(name, "purple"@) || same_word(name, "violet"@) {
        Some(6usize)
    } else if same_word(name, "magenta"@) {
        Some(7usize)
    } else {
        None
    }
}

/// The number of the band whose name some characters are.
pub fn band_number(name: &Vec<char>) -> (r: Option<usize>)
    ensures
        r == band_of(name@),
        r matches Some(i) ==> i < 8,
{
    if reads_as(name, "red") {
        Some(0)
    } else if reads_as(name, "orange") {
        Some(1)
    } else if reads_as(name, "yellow") {
        Some(2)
    } else if reads_as(name, "green") {
        Some(3)
    } else if reads_as(name, "aqua") || reads_as(name, "cyan") {
        Some(4)
    } else if reads_as(name, "blue") {
        Some(5)
    } else if reads_as(name, "purple") || reads_as(name, "violet") {
        Some(6)
    } else if reads_as(name, "magenta") {
        Some(7)
    } else {
        None
    }
}

impl HslRegions {
    /// The number of the band with the given name.
    pub fn band_index(name: &str) -> (r: Option<usize>)
        ensures
            r == band_of(name@),
    {
        band_number(&chars_of(name))
    }
}

/// All parameters of the development of one picture.
#[derive(Clone, Copy, Debug, PartialEq, Eq)]
pub struct Adjustments {
    /// Exposure in stops.
    pub exposure_ev: Single,
    pub tone_map: ToneMapMode,
    pub defake: DefakeColor,
    pub grade: Grade,
    pub white_balance: WhiteBalance,
    pub color: ColorGrade,
    pub hsl: HslRegions,
    pub skin: SkinTone,
    pub zones: ZoneGrade,
    pub geometry: Geometry,
    pub detail: Detail,
    pub advanced: Advanced,
    /// A plan for colour correction, where one was made.
    pub color_plan: Option<ColorPlan>,
    /// Share of the developed picture; the rest is the original.
    pub mix: Single,
}

impl Adjustments {
    pub open spec fn spec_default() -> Adjustments {
        Adjustments {
            exposure_ev: num(0),  // 0
            tone_map: ToneMapMode::Off,
            defake: DefakeColor::spec_default(),
            grade: Grade::spec_default(),
            white_balance: WhiteBalance::spec_default(),
            color: ColorGrade::spec_default(),
            hsl: HslRegions::spec_default(),
            skin: SkinTone::spec_default(),
            zones: ZoneGrade::spec_default(),
            geometry: Geometry::spec_default(),
            detail: Detail::spec_default(),
            advanced: Advanced::spec_default(),
            color_plan: None,
            mix: num(0x3f80_0000),  // 1
        }
    }
}

impl Default for Adjustments {
    fn default() -> (r: Adjustments)
        ensures
            r == Adjustments::spec_default(),
    {
        Adjustments {
            exposure_ev: num(0),  // 0
            tone_map: ToneMapMode::Off,
            defake: DefakeColor::default(),
            grade: Grade::default(),
            white_balance: WhiteBalance::default(),
            color: ColorGrade::default(),
            hsl: HslRegions::default(),
            skin: SkinTone::default(),
            zones: ZoneGrade::default(),
            geometry: Geometry::default(),
            detail: Detail::default(),
            advanced: Advanced::default(),
            color_plan: None,
            mix: num(0x3f80_0000),  // 1
        }
    }
}

impl Adjustments {
    pub open spec fn spec_photo_default() -> Adjustments {
        Adjustments {
            exposure_ev: num(0),  // 0
            tone_map: ToneMapMode::Off,
            defake: DefakeColor::spec_on(),
            grade: Grade {
                brightness_lift: num(0x3d75_c28f),  // 0.06
                contrast: num(0x3e19_999a),  // 0.15
                dehaze: num(0x3e80_0000),  // 0.25
                shadow_lift: num(0x3e19_999a),  // 0.15
                deep_shadow_lift: num(0x3e19_999a),  // 0.15
                film_curve: num(0),  // 0
                light_ratio: num(0),  // 0
            },
            white_balance: WhiteBalance::spec_default(),
            color: ColorGrade::spec_default(),
            hsl: HslRegions::spec_default(),
            skin: SkinTone::spec_default(),
            zones: ZoneGrade::spec_default(),
            geometry: Geometry::spec_default(),
            detail: Detail::spec_default(),
            advanced: Advanced::spec_default(),
            color_plan: None,
            mix: num(0x3f80_0000),  // 1
        }
    }

    /// Nothing is changed.
    pub fn identity() -> (r: Adjustments)
        ensures
            r == Adjustments::spec_default(),
    {
        Adjustments::default()
    }

    /// The standard look: colour taming and a gentle grade.
    pub fn photo_default() -> (r: Adjustments)
        ensures
            r == Adjustments::spec_photo_default(),
    {
        Adjustments {
            exposure_ev: num(0),  // 0
            tone_map: ToneMapMode::Off,
            defake: DefakeColor::on(),
            grade: Grade {
                brightness_lift: num(0x3d75_c28f),  // 0.06
                contrast: num(0x3e19_999a),  // 0.15
                dehaze: num(0x3e80_0000),  // 0.25
                shadow_lift: num(0x3e19_999a),  // 0.15
                deep_shadow_lift: num(0x3e19_999a),  // 0.15
                film_curve: num(0),  // 0
                light_ratio: num(0),  // 0
            },
            white_balance: WhiteBalance::default(),
            color: ColorGrade::default(),
            hsl: HslRegions::default(),
            skin: SkinTone::default(),
            zones: ZoneGrade::default(),
            geometry: Geometry::default(),
            detail: Detail::default(),
            advanced: Advanced::default(),
            color_plan: None,
            mix: num(0x3f80_0000),  // 1
        }
    }

    /// The parameters that a picture starts with: none for the first of an album, and the
    /// current ones for those after it.
    pub fn import_baseline_adj(album_empty: bool, current: &Adjustments) -> (r: Adjustments)
        ensures
            r == if album_empty {
                Adjustments::spec_default()
            } else {
                *current
            },
    {
        if album_empty {
            Adjustments::default()
        } else {
            *current
        }
    }
}

pub open spec fn spec_smart_beauty_preset() -> Adjustments {
    Adjustments {
        skin: SkinTone::spec_pink(),
        advanced: Advanced {
            freqsep: FreqSepSkin {
                enabled: true,
                strength: num(0x3e99_999a),  // 0.3
                texture_keep: num(0x3f4c_cccd),  // 0.8
                smoothness: num(0x3e99_999a),  // 0.3
                mask_feather: num(0x3f00_0000),  // 0.5
            },
            ..Advanced::spec_default()
        },
        ..Adjustments::spec_default()
    }
}

/// The beauty look: pink skin and gentle skin smoothing.
pub fn smart_beauty_preset() -> (r: Adjustments)
    ensures
        r == spec_smart_beauty_preset(),
{
    let mut a: Adjustments = Adjustments::default();
    a.skin = SkinTone::pink();
    a.advanced.freqsep = FreqSepSkin {
        enabled: true,
        strength: num(0x3e99_999a),  // 0.3
        texture_keep: num(0x3f4c_cccd),  // 0.8
        smoothness: num(0x3e99_999a),  // 0.3
        mask_feather: num(0x3f00_0000),  // 0.5
    };
    a
}

} // verus!
