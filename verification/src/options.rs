//! Settings from the command line: overrides on top of a preset, bands, a crop, and patches.

use crate::advanced::{Advanced, FreqSepSkin, PyramidFusion};
use crate::detail::Detail;
use crate::geometry::Geometry;
use crate::params::{keystone_h, keystone_v};
use crate::pipeline::{
    band_number, band_of, Adjustments, ColorGrade, DefakeColor, Grade, HslRegions, SkinTone,
    ToneMapMode, WhiteBalance, ZoneGrade,
};
use crate::preset::{with_band, HslBand};
use crate::params::with_eighth;
use crate::single::{num, Single};
use crate::text::{
    as_texts, chars_of, find_mark, first_place, parts_of, slice_of, split, trim, trimmed,
};
use vstd::prelude::*;

verus! {

/// What the command line sets. What it leaves out comes from the preset.
#[derive(Clone, Copy, Debug, PartialEq, Eq)]
pub struct Overrides {
    pub tone_map: Option<ToneMapMode>,
    /// Left, top, width and height as shares of the picture.
    pub crop: Option<(Single, Single, Single, Single)>,
    /// All bands, where any is set.
    pub hsl: Option<HslRegions>,
    pub defake: bool,
    pub skin: bool,
    pub skin_protect: bool,
    pub flip_h: bool,
    pub flip_v: bool,
    pub freqsep: bool,
    pub pyramid: bool,
    pub exposure: Option<Single>,
    pub chroma_decay: Option<Single>,
    pub brightness: Option<Single>,
    pub contrast: Option<Single>,
    pub dehaze: Option<Single>,
    pub shadow_lift: Option<Single>,
    pub deep_shadow_lift: Option<Single>,
    pub temp: Option<Single>,
    pub tint: Option<Single>,
    pub saturation: Option<Single>,
    pub vibrance: Option<Single>,
    pub hue_rotate: Option<Single>,
    pub split_shadow: Option<Single>,
    pub split_highlight: Option<Single>,
    pub film_curve: Option<Single>,
    pub light_ratio: Option<Single>,
    pub skin_strength: Option<Single>,
    pub skin_hue: Option<Single>,
    pub skin_chroma: Option<Single>,
    pub skin_light: Option<Single>,
    pub skin_smooth: Option<Single>,
    pub skin_yellow: Option<Single>,
    pub skin_lighten: Option<Single>,
    pub skin_redden: Option<Single>,
    pub skin_pinken: Option<Single>,
    pub zone_shadows: Option<Single>,
    pub zone_dark_mid: Option<Single>,
    pub zone_light_mid: Option<Single>,
    pub zone_highlights: Option<Single>,
    pub rotate: Option<Single>,
    pub persp_v: Option<Single>,
    pub persp_h: Option<Single>,
    pub denoise: Option<Single>,
    pub sharpen: Option<Single>,
    pub diffuse: Option<Single>,
    pub freqsep_strength: Option<Single>,
    pub freqsep_texture: Option<Single>,
    pub freqsep_smooth: Option<Single>,
    pub freqsep_feather: Option<Single>,
    pub pyramid_strength: Option<Single>,
    pub pyramid_scale: Option<Single>,
}

pub open spec fn spec_or_else(v: Option<Single>, other: Single) -> Single {
    match v {
        Some(x) => x,
        None => other,
    }
}

/// A value, or another one where it is left out.
#[verifier::when_used_as_spec(spec_or_else)]
pub fn or_else(v: Option<Single>, other: Single) -> (r: Single)
    ensures
        r == spec_or_else(v, other),
{
    match v {
        Some(x) => x,
        None => other,
    }
}

pub open spec fn spec_resolved_tone_map(set: Option<ToneMapMode>, exposure: Single, base: ToneMapMode) -> ToneMapMode {
    match set {
        Some(m) => m,
        None => if exposure.gt(num(0x3c23_d70a)) {  // 0.01
            ToneMapMode::Agx
        } else {
            base
        },
    }
}

/// The tone map: the one that is set, the protecting one where exposure is raised without a
/// choice, and the preset's otherwise.
#[verifier::when_used_as_spec(spec_resolved_tone_map)]
pub fn resolved_tone_map(set: Option<ToneMapMode>, exposure: Single, base: ToneMapMode) -> (r: ToneMapMode)
    ensures
        r == spec_resolved_tone_map(set, exposure, base),
{
    match set {
        Some(m) => m,
        None => if exposure.gt(num(0x3c23_d70a)) {  // 0.01
            ToneMapMode::Agx
        } else {
            base
        },
    }
}

pub open spec fn spec_resolved_defake(o: &Overrides, base: &DefakeColor) -> DefakeColor {
    DefakeColor {
        enabled: o.defake || base.enabled,
        chroma_decay: or_else(o.chroma_decay, base.chroma_decay),
        fix_sky: base.fix_sky,
        protect_skin: base.protect_skin,
        gamut_softclip: base.gamut_softclip,
    }
}

/// Taming of colour: on where the command line or the preset has it on, and as the preset has
/// it where the command line is silent.
#[verifier::when_used_as_spec(spec_resolved_defake)]
pub fn resolved_defake(o: &Overrides, base: &DefakeColor) -> (r: DefakeColor)
    ensures
        r == spec_resolved_defake(o, base),
{
    DefakeColor {
        enabled: o.defake || base.enabled,
        chroma_decay: or_else(o.chroma_decay, base.chroma_decay),
        fix_sky: base.fix_sky,
        protect_skin: base.protect_skin,
        gamut_softclip: base.gamut_softclip,
    }
}

pub open spec fn spec_resolved_skin(o: &Overrides, base: &SkinTone) -> SkinTone {
    let b: SkinTone = if o.skin && !base.enabled {
        SkinTone::pink()
    } else {
        *base
    };
    SkinTone {
        enabled: o.skin || base.enabled,
        strength: or_else(o.skin_strength, b.strength),
        hue_target: or_else(o.skin_hue, b.hue_target),
        chroma_target: or_else(o.skin_chroma, b.chroma_target),
        light_lift: or_else(o.skin_light, b.light_lift),
        smoothness: or_else(o.skin_smooth, b.smoothness),
        protect_non_skin: b.protect_non_skin && o.skin_protect,
        yellow_reduce: or_else(o.skin_yellow, b.yellow_reduce),
        lighten: or_else(o.skin_lighten, b.lighten),
        redden: or_else(o.skin_redden, b.redden),
        pinken: or_else(o.skin_pinken, b.pinken),
    }
}

/// Skin care: on where the command line or the preset has it on. Where only the command line
/// has, it starts from the healthy pink.
#[verifier::when_used_as_spec(spec_resolved_skin)]
pub fn resolved_skin(o: &Overrides, base: &SkinTone) -> (r: SkinTone)
    ensures
        r == spec_resolved_skin(o, base),
{
    let b: SkinTone = if o.skin && !base.enabled {
        SkinTone::pink()
    } else {
        *base
    };
    SkinTone {
        enabled: o.skin || base.enabled,
        strength: or_else(o.skin_strength, b.strength),
        hue_target: or_else(o.skin_hue, b.hue_target),
        chroma_target: or_else(o.skin_chroma, b.chroma_target),
        light_lift: or_else(o.skin_light, b.light_lift),
        smoothness: or_else(o.skin_smooth, b.smoothness),
        protect_non_skin: b.protect_non_skin && o.skin_protect,
        yellow_reduce: or_else(o.skin_yellow, b.yellow_reduce),
        lighten: or_else(o.skin_lighten, b.lighten),
        redden: or_else(o.skin_redden, b.redden),
        pinken: or_else(o.skin_pinken, b.pinken),
    }
}

/// The keystones: none where both are zero.
pub open spec fn resolved_keystones(o: Overrides, base: Geometry) -> Option<(Single, Single)> {
    let v = or_else(o.persp_v, keystone_v(base.perspective));
    let h = or_else(o.persp_h, keystone_h(base.perspective));
    if v.same(num(0)) && h.same(num(0)) {
        None
    } else {
        Some((v, h))
    }
}

fn resolve_keystones(o: &Overrides, base: &Geometry) -> (r: Option<(Single, Single)>)
    ensures
        r == resolved_keystones(*o, *base),
{
    let (bv, bh) = match base.perspective {
        Some(q) => (q.0, q.1),
        None => (num(0), num(0)),
    };
    let v: Single = or_else(o.persp_v, bv);
    let h: Single = or_else(o.persp_h, bh);
    if v.same(num(0)) && h.same(num(0)) {
        None
    } else {
        Some((v, h))
    }
}

pub open spec fn spec_resolved_freqsep(o: &Overrides, base: &FreqSepSkin) -> FreqSepSkin {
    let b: FreqSepSkin = if o.freqsep && !base.enabled {
        FreqSepSkin::spec_default()
    } else {
        *base
    };
    FreqSepSkin {
        enabled: o.freqsep || base.enabled,
        strength: or_else(o.freqsep_strength, b.strength),
        texture_keep: or_else(o.freqsep_texture, b.texture_keep),
        smoothness: or_else(o.freqsep_smooth, b.smoothness),
        mask_feather: or_else(o.freqsep_feather, b.mask_feather),
    }
}

/// Skin smoothing: on where the command line or the preset has it on. Where only the command
/// line has, it starts from the standard.
#[verifier::when_used_as_spec(spec_resolved_freqsep)]
pub fn resolved_freqsep(o: &Overrides, base: &FreqSepSkin) -> (r: FreqSepSkin)
    ensures
        r == spec_resolved_freqsep(o, base),
{
    let b: FreqSepSkin = if o.freqsep && !base.enabled {
        FreqSepSkin::default()
    } else {
        *base
    };
    FreqSepSkin {
        enabled: o.freqsep || base.enabled,
        strength: or_else(o.freqsep_strength, b.strength),
        texture_keep: or_else(o.freqsep_texture, b.texture_keep),
        smoothness: or_else(o.freqsep_smooth, b.smoothness),
        mask_feather: or_else(o.freqsep_feather, b.mask_feather),
    }
}

pub open spec fn spec_resolved_pyramid(o: &Overrides, base: &PyramidFusion) -> PyramidFusion {
    let b: PyramidFusion = if o.pyramid && !base.enabled {
        PyramidFusion::spec_default()
    } else {
        *base
    };
    PyramidFusion {
        enabled: o.pyramid || base.enabled,
        strength: or_else(o.pyramid_strength, b.strength),
        detail_scale: or_else(o.pyramid_scale, b.detail_scale),
    }
}

/// Fusion: on where the command line or the preset has it on. Where only the command line has,
/// it starts from the standard.
#[verifier::when_used_as_spec(spec_resolved_pyramid)]
pub fn resolved_pyramid(o: &Overrides, base: &PyramidFusion) -> (r: PyramidFusion)
    ensures
        r == spec_resolved_pyramid(o, base),
{
    let b: PyramidFusion = if o.pyramid && !base.enabled {
        PyramidFusion::default()
    } else {
        *base
    };
    PyramidFusion {
        enabled: o.pyramid || base.enabled,
        strength: or_else(o.pyramid_strength, b.strength),
        detail_scale: or_else(o.pyramid_scale, b.detail_scale),
    }
}

/// The settings of a preset with the overrides of the command line.
pub open spec fn resolved(o: Overrides, base: Adjustments) -> Adjustments {
    let exposure: Single = or_else(o.exposure, base.exposure_ev);
    Adjustments {
        exposure_ev: exposure,
        tone_map: resolved_tone_map(o.tone_map, exposure, base.tone_map),
        defake: resolved_defake(&o, &base.defake),
        grade: Grade {
            brightness_lift: or_else(o.brightness, base.grade.brightness_lift),
            contrast: or_else(o.contrast, base.grade.contrast),
            dehaze: or_else(o.dehaze, base.grade.dehaze),
            shadow_lift: or_else(o.shadow_lift, base.grade.shadow_lift),
            deep_shadow_lift: or_else(o.deep_shadow_lift, base.grade.deep_shadow_lift),
            film_curve: or_else(o.film_curve, base.grade.film_curve),
            light_ratio: or_else(o.light_ratio, base.grade.light_ratio),
        },
        white_balance: WhiteBalance {
            temp: or_else(o.temp, base.white_balance.temp),
            tint: or_else(o.tint, base.white_balance.tint),
        },
        color: ColorGrade {
            saturation: or_else(o.saturation, base.color.saturation),
            vibrance: or_else(o.vibrance, base.color.vibrance),
            hue_rotate: or_else(o.hue_rotate, base.color.hue_rotate),
            split_shadow: or_else(o.split_shadow, base.color.split_shadow),
            split_highlight: or_else(o.split_highlight, base.color.split_highlight),
        },
        hsl: match o.hsl {
            Some(h) => h,
            None => base.hsl,
        },
        skin: resolved_skin(&o, &base.skin),
        zones: ZoneGrade {
            lift: [
                or_else(o.zone_shadows, base.zones.lift[0]),
                or_else(o.zone_dark_mid, base.zones.lift[1]),
                or_else(o.zone_light_mid, base.zones.lift[2]),
                or_else(o.zone_highlights, base.zones.lift[3]),
            ],
        },
        geometry: Geometry {
            crop: match o.crop {
                Some(c) => Some(c),
                None => base.geometry.crop,
            },
            quarter_turns: base.geometry.quarter_turns,
            rotate_deg: or_else(o.rotate, base.geometry.rotate_deg),
            flip_h: o.flip_h || base.geometry.flip_h,
            flip_v: o.flip_v || base.geometry.flip_v,
            perspective: resolved_keystones(o, base.geometry),
        },
        detail: Detail {
            denoise: or_else(o.denoise, base.detail.denoise),
            sharpen: or_else(o.sharpen, base.detail.sharpen),
            diffuse: or_else(o.diffuse, base.detail.diffuse),
        },
        advanced: Advanced {
            freqsep: resolved_freqsep(&o, &base.advanced.freqsep),
            pyramid: resolved_pyramid(&o, &base.advanced.pyramid),
        },
        color_plan: None,
        mix: base.mix,
    }
}

/// The settings that a preset and the command line give together.
pub fn resolve(o: &Overrides, base: &Adjustments) -> (r: Adjustments)
    ensures
        r == resolved(*o, *base),
{
    let exposure: Single = or_else(o.exposure, base.exposure_ev);
    Adjustments {
        exposure_ev: exposure,
        tone_map: resolved_tone_map(o.tone_map, exposure, base.tone_map),
        defake: resolved_defake(o, &base.defake),
        grade: Grade {
            brightness_lift: or_else(o.brightness, base.grade.brightness_lift),
            contrast: or_else(o.contrast, base.grade.contrast),
            dehaze: or_else(o.dehaze, base.grade.dehaze),
            shadow_lift: or_else(o.shadow_lift, base.grade.shadow_lift),
            deep_shadow_lift: or_else(o.deep_shadow_lift, base.grade.deep_shadow_lift),
            film_curve: or_else(o.film_curve, base.grade.film_curve),
            light_ratio: or_else(o.light_ratio, base.grade.light_ratio),
        },
        white_balance: WhiteBalance {
            temp: or_else(o.temp, base.white_balance.temp),
            tint: or_else(o.tint, base.white_balance.tint),
        },
        color: ColorGrade {
            saturation: or_else(o.saturation, base.color.saturation),
            vibrance: or_else(o.vibrance, base.color.vibrance),
            hue_rotate: or_else(o.hue_rotate, base.color.hue_rotate),
            split_shadow: or_else(o.split_shadow, base.color.split_shadow),
            split_highlight: or_else(o.split_highlight, base.color.split_highlight),
        },
        hsl: match o.hsl {
            Some(h) => h,
            None => base.hsl,
        },
        skin: resolved_skin(o, &base.skin),
        zones: ZoneGrade {
            lift: [
                or_else(o.zone_shadows, base.zones.lift[0]),
                or_else(o.zone_dark_mid, base.zones.lift[1]),
                or_else(o.zone_light_mid, base.zones.lift[2]),
                or_else(o.zone_highlights, base.zones.lift[3]),
            ],
        },
        geometry: Geometry {
            crop: match o.crop {
                Some(c) => Some(c),
                None => base.geometry.crop,
            },
            quarter_turns: base.geometry.quarter_turns,
            rotate_deg: or_else(o.rotate, base.geometry.rotate_deg),
            flip_h: o.flip_h || base.geometry.flip_h,
            flip_v: o.flip_v || base.geometry.flip_v,
            perspective: resolve_keystones(o, &base.geometry),
        },
        detail: Detail {
            denoise: or_else(o.denoise, base.detail.denoise),
            sharpen: or_else(o.sharpen, base.detail.sharpen),
            diffuse: or_else(o.diffuse, base.detail.diffuse),
        },
        advanced: Advanced {
            freqsep: resolved_freqsep(o, &base.advanced.freqsep),
            pyramid: resolved_pyramid(o, &base.advanced.pyramid),
        },
        color_plan: None,
        mix: base.mix,
    }
}

/// Nothing is set.
pub open spec fn no_overrides() -> Overrides {
    Overrides {
        tone_map: None,
        crop: None,
        hsl: None,
        defake: false,
        skin: false,
        skin_protect: true,
        flip_h: false,
        flip_v: false,
        freqsep: false,
        pyramid: false,
        exposure: None,
        chroma_decay: None,
        brightness: None,
        contrast: None,
        dehaze: None,
        shadow_lift: None,
        deep_shadow_lift: None,
        temp: None,
        tint: None,
        saturation: None,
        vibrance: None,
        hue_rotate: None,
        split_shadow: None,
        split_highlight: None,
        film_curve: None,
        light_ratio: None,
        skin_strength: None,
        skin_hue: None,
        skin_chroma: None,
        skin_light: None,
        skin_smooth: None,
        skin_yellow: None,
        skin_lighten: None,
        skin_redden: None,
        skin_pinken: None,
        zone_shadows: None,
        zone_dark_mid: None,
        zone_light_mid: None,
        zone_highlights: None,
        rotate: None,
        persp_v: None,
        persp_h: None,
        denoise: None,
        sharpen: None,
        diffuse: None,
        freqsep_strength: None,
        freqsep_texture: None,
        freqsep_smooth: None,
        freqsep_feather: None,
        pyramid_strength: None,
        pyramid_scale: None,
    }
}

impl Default for Overrides {
    fn default() -> (r: Overrides)
        ensures
            r == no_overrides(),
    {
        Overrides {
            tone_map: None,
            crop: None,
            hsl: None,
            defake: false,
            skin: false,
            skin_protect: true,
            flip_h: false,
            flip_v: false,
            freqsep: false,
            pyramid: false,
            exposure: None,
            chroma_decay: None,
            brightness: None,
            contrast: None,
            dehaze: None,
            shadow_lift: None,
            deep_shadow_lift: None,
            temp: None,
            tint: None,
            saturation: None,
            vibrance: None,
            hue_rotate: None,
            split_shadow: None,
            split_highlight: None,
            film_curve: None,
            light_ratio: None,
            skin_strength: None,
            skin_hue: None,
            skin_chroma: None,
            skin_light: None,
            skin_smooth: None,
            skin_yellow: None,
            skin_lighten: None,
            skin_redden: None,
            skin_pinken: None,
            zone_shadows: None,
            zone_dark_mid: None,
            zone_light_mid: None,
            zone_highlights: None,
            rotate: None,
            persp_v: None,
            persp_h: None,
            denoise: None,
            sharpen: None,
            diffuse: None,
            freqsep_strength: None,
            freqsep_texture: None,
            freqsep_smooth: None,
            freqsep_feather: None,
            pyramid_strength: None,
            pyramid_scale: None,
        }
    }
}

/// Without a preset and without overrides the settings are the neutral ones.
pub proof fn law_nothing_set_is_neutral()
    ensures
        resolved(no_overrides(), Adjustments::spec_default()) == Adjustments::spec_default(),
{
    let d = Adjustments::spec_default();
    assert(resolved(no_overrides(), d).zones.lift =~= d.zones.lift);
}

/// Raised exposure without a choice of tone map gets the one that protects highlights.
pub proof fn law_raised_exposure_is_protected(o: Overrides, base: Adjustments)
    requires
        o.tone_map is None,
        or_else(o.exposure, base.exposure_ev).gt(num(0x3c23_d70a)),  // 0.01
    ensures
        resolved(o, base).tone_map == ToneMapMode::Agx,
{
}

/// Where the command line is silent the preset holds, up to the tone map that protects raised
/// exposure and the plan of colours, which no preset has.
pub proof fn law_preset_is_the_base(base: Adjustments)
    requires
        !base.exposure_ev.gt(num(0x3c23_d70a)),  // 0.01
        base.color_plan is None,
        resolved_keystones(no_overrides(), base.geometry) == base.geometry.perspective,
    ensures
        resolved(no_overrides(), base) == base,
{
    assert(resolved(no_overrides(), base).zones.lift =~= base.zones.lift);
}

/// The share of the developed picture is the preset's.
pub proof fn law_mix_is_the_presets(o: Overrides, base: Adjustments)
    ensures
        resolved(o, base).mix == base.mix,
{
}

/// A number that the command line sets holds, whatever the preset says.
pub proof fn law_overrides_win(o: Overrides, base: Adjustments, v: Single)
    ensures
        o.exposure == Some(v) ==> resolved(o, base).exposure_ev == v,
        o.contrast == Some(v) ==> resolved(o, base).grade.contrast == v,
        o.temp == Some(v) ==> resolved(o, base).white_balance.temp == v,
        o.saturation == Some(v) ==> resolved(o, base).color.saturation == v,
        o.rotate == Some(v) ==> resolved(o, base).geometry.rotate_deg == v,
        o.sharpen == Some(v) ==> resolved(o, base).detail.sharpen == v,
        o.pyramid_scale == Some(v) ==> resolved(o, base).advanced.pyramid.detail_scale == v,
{
}

/// A band as the command line writes it, up to its numbers.
#[derive(Debug)]
pub enum BandSpec {
    /// The band, and the texts of its three numbers.
    Numbers(usize, Vec<Vec<char>>),
    /// There is no colon behind the band's name.
    NoColon,
    /// No band has that name.
    UnknownBand,
    /// There are not three numbers, but so many.
    Parts(usize),
}

/// Texts without the space at their ends.
pub open spec fn all_trimmed(v: Seq<Seq<char>>) -> Seq<Seq<char>> {
    Seq::new(v.len(), |i: int| trimmed(v[i]))
}

fn trim_all(v: &Vec<Vec<char>>) -> (r: Vec<Vec<char>>)
    ensures
        as_texts(r@) == all_trimmed(as_texts(v@)),
{
    let mut r: Vec<Vec<char>> = Vec::new();
    let mut i: usize = 0;
    while i < v.len()
        invariant
            i <= v@.len(),
            r@.len() == i,
            forall|j: int| 0 <= j < i ==> (#[trigger] r@[j])@ == trimmed(v@[j]@),
        decreases v@.len() - i,
    {
        r.push(trim(&v[i]));
        i = i + 1;
    }
    assert(as_texts(r@) =~= all_trimmed(as_texts(v@)));
    r
}

/// Takes a band apart: its name, a colon, and numbers with commas between them.
pub fn split_band(text: &str) -> (r: BandSpec)
    ensures
        match first_place(text@, ':') {
            None => r is NoColon,
            Some(k) => match band_of(trimmed(text@.subrange(0, k))) {
                None => r is UnknownBand,
                Some(i) => {
                    let parts = parts_of(text@.skip(k + 1), ',');
                    if parts.len() == 3 {
                        r matches BandSpec::Numbers(j, v) && i == j && as_texts(v@) == all_trimmed(
                            parts,
                        )
                    } else {
                        r matches BandSpec::Parts(n) && n == parts.len()
                    }
                },
            },
        },
{
    let v: Vec<char> = chars_of(text);
    match find_mark(&v, ':') {
        None => BandSpec::NoColon,
        Some(k) => {
            let name: Vec<char> = trim(&slice_of(&v, 0, k));
            match band_number(&name) {
                None => BandSpec::UnknownBand,
                Some(i) => {
                    let n: usize = v.len();
                    let rest: Vec<char> = slice_of(&v, k + 1, n);
                    assert(rest@ =~= text@.skip(k + 1));
                    let parts: Vec<Vec<char>> = split(&rest, ',');
                    assert(as_texts(parts@).len() == parts@.len());
                    if parts.len() == 3 {
                        BandSpec::Numbers(i, trim_all(&parts))
                    } else {
                        BandSpec::Parts(parts.len())
                    }
                },
            }
        },
    }
}

/// A band and its numbers; a text that is no number has none.
#[derive(Clone, Copy, Debug, PartialEq, Eq)]
pub struct BandEntry {
    pub band: usize,
    pub hue: Option<Single>,
    pub sat: Option<Single>,
    pub light: Option<Single>,
}

/// The bands that the first `k` entries set. An entry without all its numbers sets nothing.
pub open spec fn bands_from(v: Seq<BandEntry>, k: int) -> HslRegions
    decreases k,
{
    if k <= 0 {
        HslRegions::spec_default()
    } else {
        let e = v[k - 1];
        match (e.hue, e.sat, e.light) {
            (Some(hue), Some(sat), Some(light)) => with_band(
                bands_from(v, k - 1),
                e.band as int,
                HslBand { hue, sat, light },
            ),
            _ => bands_from(v, k - 1),
        }
    }
}

/// The bands that entries set; of two for one band the later one holds.
pub fn build_hsl_regions(v: &Vec<BandEntry>) -> (r: HslRegions)
    requires
        forall|i: int| 0 <= i < v@.len() ==> (#[trigger] v@[i]).band < 8,
    ensures
        r == bands_from(v@, v@.len() as int),
{
    let mut r: HslRegions = HslRegions::default();
    let mut k: usize = 0;
    while k < v.len()
        invariant
            k <= v@.len(),
            forall|i: int| 0 <= i < v@.len() ==> (#[trigger] v@[i]).band < 8,
            r == bands_from(v@, k as int),
        decreases v@.len() - k,
    {
        let ghost before = r;
        let e: BandEntry = v[k];
        assert(e.band < 8);
        if let (Some(hue), Some(sat), Some(light)) = (e.hue, e.sat, e.light) {
            r.hue_shift[e.band] = hue;
            r.sat_mult[e.band] = sat;
            r.light_mult[e.band] = light;
            assert(r.hue_shift =~= with_eighth(before.hue_shift, e.band as int, hue));
            assert(r.sat_mult =~= with_eighth(before.sat_mult, e.band as int, sat));
            assert(r.light_mult =~= with_eighth(before.light_mult, e.band as int, light));
            assert(r == with_band(before, e.band as int, HslBand { hue, sat, light }));
        }
        k = k + 1;
    }
    r
}

/// Takes a crop apart: four numbers with commas between them; nothing where there are not four.
pub fn split_crop(text: &str) -> (r: Option<Vec<Vec<char>>>)
    ensures
        match r {
            Some(v) => parts_of(text@, ',').len() == 4 && as_texts(v@) == all_trimmed(
                parts_of(text@, ','),
            ),
            None => parts_of(text@, ',').len() != 4,
        },
{
    let parts: Vec<Vec<char>> = split(&chars_of(text), ',');
    assert(as_texts(parts@).len() == parts@.len());
    if parts.len() == 4 {
        Some(trim_all(&parts))
    } else {
        None
    }
}

/// The crop that four texts give; nothing where one of them is no number.
pub fn parse_crop(x: Option<Single>, y: Option<Single>, w: Option<Single>, h: Option<Single>) -> (r:
    Option<(Single, Single, Single, Single)>)
    ensures
        r == match (x, y, w, h) {
            (Some(a), Some(b), Some(c), Some(d)) => Some((a, b, c, d)),
            _ => None,
        },
{
    match (x, y, w, h) {
        (Some(a), Some(b), Some(c), Some(d)) => Some((a, b, c, d)),
        _ => None,
    }
}

} // verus!
