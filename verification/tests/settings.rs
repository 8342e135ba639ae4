//! Settings: sliders, names, presets, overrides, patches and limits.

use retouch::analyze::{
    CastMetrics, ColorMetrics, ExposureMetrics, GamutMetrics, ImageMetrics, SkinMetrics,
    ToneMetrics,
};
use retouch::color_engine::ColorPlan;
use retouch::geometry::Geometry;
use retouch::fixed::fixed_text;
use retouch::guardrail::{
    artifact_text, band_score, check, clamp, edges_usable, goodness, reason_text, target_for, Damage,
};
use retouch::options::{
    build_hsl_regions, parse_crop, resolve, split_band, split_crop, BandEntry, BandSpec, Overrides,
};
use retouch::params::{registry, Edges, Field, CONTROLS};
use retouch::patch::{apply_entries, apply_params_patch, PatchOutcome};
use retouch::perceptual::{bend_at, unbend_at, CurveKind};
use retouch::pipeline::{
    smart_beauty_preset, Adjustments, HslRegions, SkinTone, ToneMapMode,
};
use retouch::preset::{
    AdvancedPreset, ColorPreset, DefakePreset, DetailPreset, ExposurePreset, GeometryPreset,
    GradePreset, HslBand, Preset, SkinPreset, ToneMapPreset, ToneMapSection, WhiteBalancePreset,
    ZonePreset,
};
use retouch::schema::param_schema;
use retouch::single::Single;
use retouch::tonemap::{classify_tonality, tonal_exposure, Key};

fn s(x: f32) -> Single {
    Single { bits: x.to_bits() }
}

fn f(x: Single) -> f32 {
    f32::from_bits(x.bits)
}


fn edges() -> Edges {
    Edges {
        knee: s(2.2f32.tanh()),
        third: s((-(3.0f32.ln())).exp()),
        triple: s(3.0f32.ln().exp()),
    }
}

fn slider_to_raw(curve: CurveKind, center: f32, half: f32, pos: f32) -> f32 {
    let at = f(bend_at(curve, s(half.ln()), s(pos)));
    let bend = match curve {
        CurveKind::Linear => at,
        CurveKind::SoftKnee => at.tanh(),
        CurveKind::LogSat => at.exp(),
    };
    f(retouch::perceptual::slider_to_raw(
        curve,
        s(center),
        s(half),
        s(pos),
        s(bend),
        s(2.2f32.tanh()),
    ))
}

fn raw_to_slider(curve: CurveKind, center: f32, half: f32, raw: f32) -> f32 {
    let at = f(unbend_at(curve, s(center), s(half), s(raw), s(2.2f32.tanh())));
    let unbent = match curve {
        CurveKind::Linear => at,
        CurveKind::SoftKnee => at.atanh(),
        CurveKind::LogSat => at.ln(),
    };
    f(retouch::perceptual::raw_to_slider(
        curve,
        s(center),
        s(half),
        s(raw),
        s(unbent),
        s(half.ln()),
    ))
}

/// Numbers are written as the standard library writes them.
#[test]
fn numbers_have_fixed_decimals() {
    let list = [
        0.0f32, -0.0, 1.0, -1.0, 0.5, 1.5, 2.5, 0.25, 0.125, 0.375, 0.0625, 0.05, 0.15, 0.005, 0.995,
        9.999, 99.96, -0.004, 123.456, 1e-20, 1e-45, 3.4e38, 16777216.0, 1e10, 0.1, -7.25, 255.5,
        1023.9995, f32::MAX, f32::MIN_POSITIVE,
    ];
    for x in list {
        assert_eq!(fixed_text(s(x), 1), format!("{:.1}", x));
        assert_eq!(fixed_text(s(x), 2), format!("{:.2}", x));
        assert_eq!(fixed_text(s(x), 3), format!("{:.3}", x));
    }
    for k in 0..2000u32 {
        let x = f32::from_bits(0x3a00_0000 + k * 0x4_3a51);
        assert_eq!(fixed_text(s(x), 2), format!("{:.2}", x));
        assert_eq!(fixed_text(s(-x), 3), format!("{:.3}", -x));
    }
    assert_eq!(fixed_text(s(41.6), 0), "42");
    assert_eq!(fixed_text(s(2.5), 0), "2");
    assert_eq!(fixed_text(s(f32::NAN), 2), "NaN");
    assert_eq!(fixed_text(s(f32::NEG_INFINITY), 2), "-inf");
    assert_eq!(fixed_text(s(f32::INFINITY), 2), "inf");
}

/// Every control reads back the position that it was set to.
#[test]
fn every_control_reads_back() {
    for c in registry() {
        for k in 0..=20 {
            let p = k as f32 / 10.0 - 1.0;
            let raw = slider_to_raw(c.curve, f(c.center), f(c.half), p);
            let back = raw_to_slider(c.curve, f(c.center), f(c.half), raw);
            assert!((back - p).abs() < 1e-3, "{:?} {} {}", c.field, p, back);
        }
    }
}

#[test]
fn linear_is_identity_through_center() {
    for p in [-1.0, -0.3, 0.0, 0.3, 1.0] {
        let r = slider_to_raw(CurveKind::Linear, 0.0, 3.0, p);
        assert!((r - 3.0 * p).abs() < 1e-5);
        let back = raw_to_slider(CurveKind::Linear, 0.0, 3.0, r);
        assert!((back - p).abs() < 1e-5);
    }
}

#[test]
fn softknee_is_neutral_at_center_and_eases_at_edges() {
    // center maps to center
    assert!(slider_to_raw(CurveKind::SoftKnee, 0.0, 1.0, 0.0).abs() < 1e-5);
    // symmetric
    let a = slider_to_raw(CurveKind::SoftKnee, 0.0, 1.0, 0.5);
    let b = slider_to_raw(CurveKind::SoftKnee, 0.0, 1.0, -0.5);
    assert!((a + b).abs() < 1e-5);
    // round-trip
    for p in [-1.0, -0.42, 0.0, 0.17, 0.9] {
        let r = slider_to_raw(CurveKind::SoftKnee, 0.0, 1.0, p);
        let back = raw_to_slider(CurveKind::SoftKnee, 0.0, 1.0, r);
        assert!((back - p).abs() < 1e-4, "softknee roundtrip {} -> {} -> {}", p, r, back);
    }
    // weighted decay: slope near center > slope near edge
    let slope_mid = slider_to_raw(CurveKind::SoftKnee, 0.0, 1.0, 0.1)
        - slider_to_raw(CurveKind::SoftKnee, 0.0, 1.0, 0.0);
    let slope_edge = slider_to_raw(CurveKind::SoftKnee, 0.0, 1.0, 1.0)
        - slider_to_raw(CurveKind::SoftKnee, 0.0, 1.0, 0.9);
    assert!(slope_mid > slope_edge, "soft-knee must decay at edges");
}

#[test]
fn logsat_centered_at_identity() {
    // pos 0 -> center (1.0), pos 1 -> half (3.0), pos -1 -> 1/half (1/3)
    assert!((slider_to_raw(CurveKind::LogSat, 1.0, 3.0, 0.0) - 1.0).abs() < 1e-5);
    assert!((slider_to_raw(CurveKind::LogSat, 1.0, 3.0, 1.0) - 3.0).abs() < 1e-4);
    assert!((slider_to_raw(CurveKind::LogSat, 1.0, 3.0, -1.0) - 1.0 / 3.0).abs() < 1e-4);
    // round-trip
    for p in [-1.0, -0.5, 0.0, 0.5, 1.0] {
        let r = slider_to_raw(CurveKind::LogSat, 1.0, 3.0, p);
        let back = raw_to_slider(CurveKind::LogSat, 1.0, 3.0, r);
        assert!((back - p).abs() < 1e-4);
    }
    // equal multiplicative step feels equal: 1->2 and 0.5->1 map to equal pos
    let dp1 = raw_to_slider(CurveKind::LogSat, 1.0, 3.0, 2.0)
        - raw_to_slider(CurveKind::LogSat, 1.0, 3.0, 1.0);
    let dp2 = raw_to_slider(CurveKind::LogSat, 1.0, 3.0, 1.0)
        - raw_to_slider(CurveKind::LogSat, 1.0, 3.0, 0.5);
    assert!((dp1 - dp2).abs() < 1e-4, "log-sat steps must be perceptually equal");
}

/// Beyond its ends a slider gives the value of the end.
#[test]
fn sliders_stop_at_their_ends() {
    assert_eq!(slider_to_raw(CurveKind::Linear, 1.0, 2.0, 7.0), 3.0);
    assert_eq!(slider_to_raw(CurveKind::Linear, 1.0, 2.0, -7.0), -1.0);
    assert_eq!(
        slider_to_raw(CurveKind::SoftKnee, 0.0, 1.0, 5.0),
        slider_to_raw(CurveKind::SoftKnee, 0.0, 1.0, 1.0)
    );
    assert_eq!(raw_to_slider(CurveKind::Linear, 0.0, 1.0, 9.0), 1.0);
    assert_eq!(slider_to_raw(CurveKind::LogSat, 0.0, 3.0, 0.5), 0.0);
    assert_eq!(raw_to_slider(CurveKind::LogSat, 0.0, 3.0, 0.5), 0.0);
}

#[test]
fn import_first_image_is_identity() {
    let cur = Adjustments::photo_default();
    let a = Adjustments::import_baseline_adj(true, &cur);
    assert_eq!(f(a.exposure_ev), 0.0, "首图曝光应=0");
    assert_eq!(f(a.grade.contrast), 0.0, "首图对比度应=0");
    assert_eq!(f(a.grade.dehaze), 0.0, "首图去雾应=0");
    assert_eq!(f(a.grade.shadow_lift), 0.0, "首图阴影应=0");
    assert_eq!(f(a.grade.deep_shadow_lift), 0.0, "首图黑色应=0");
    assert_eq!(f(a.mix), 1.0, "首图 mix 应=1(全效果=原图)");
    assert_eq!(
        a.grade.contrast,
        Adjustments::default().grade.contrast
    );
}

#[test]
fn import_subsequent_keeps_current() {
    let cur = Adjustments::photo_default();
    let a = Adjustments::import_baseline_adj(false, &cur);
    assert_eq!(f(a.grade.contrast), 0.15, "后续图应沿用当前对比度");
    assert_eq!(f(a.grade.dehaze), 0.25, "后续图应沿用当前去雾");
}

#[test]
fn photo_default_is_not_identity() {
    let d = Adjustments::default();
    let p = Adjustments::photo_default();
    assert_ne!(d.grade.contrast, p.grade.contrast, "photo_default 必须带对比度调味");
    assert_ne!(d.grade.dehaze, p.grade.dehaze, "photo_default 必须带去雾调味");
}

#[test]
fn preset_roundtrip_lossless() {
    let pre = Preset {
        exposure: ExposurePreset { ev: s(0.2) },
        tone_map: ToneMapSection {
            mode: ToneMapPreset::Agx,
        },
        defake: DefakePreset {
            enabled: true,
            chroma_decay: s(0.42),
            fix_sky: true,
            protect_skin: false,
            gamut_softclip: true,
        },
        grade: GradePreset {
            brightness_lift: s(0.06),
            contrast: s(0.15),
            dehaze: s(0.25),
            shadow_lift: s(0.1),
            deep_shadow_lift: s(0.1),
            film_curve: s(0.0),
            light_ratio: s(0.0),
        },
        white_balance: WhiteBalancePreset {
            temperature: s(0.3),
            tint: s(-0.1),
        },
        color: ColorPreset {
            saturation: s(1.2),
            vibrance: s(0.3),
            hue_rotate: s(10.0),
            split_shadow: s(20.0),
            split_highlight: s(-10.0),
        },
        skin: SkinPreset::default(),
        zones: ZonePreset::default(),
        geometry: GeometryPreset {
            crop: Some((s(0.1), s(0.1), s(0.8), s(0.8))),
            quarter_turns: 1,
            rotate_deg: s(90.0),
            flip_h: true,
            flip_v: false,
            perspective: Some((s(0.2), s(-0.1))),
        },
        detail: DetailPreset {
            denoise: s(0.4),
            sharpen: s(0.5),
            diffuse: s(0.3),
        },
        advanced: AdvancedPreset {
            freqsep_enabled: true,
            freqsep_strength: s(0.6),
            freqsep_texture_keep: s(0.7),
            freqsep_smoothness: s(0.4),
            freqsep_mask_feather: s(0.5),
            pyramid_enabled: true,
            pyramid_strength: s(0.5),
            pyramid_detail_scale: s(1.2),
        },
        hsl: vec![
            (
                "blue".to_string(),
                HslBand {
                    hue: s(0.0),
                    sat: s(1.4),
                    light: s(1.0),
                },
            ),
            (
                "red".to_string(),
                HslBand {
                    hue: s(12.0),
                    sat: s(1.1),
                    light: s(0.95),
                },
            ),
        ],
        mix: s(1.0),
    };
    let adj = pre.to_adjustments();
    let back = adj.to_preset();
    // Re-derive adjustments and compare field-by-field.
    let adj2 = back.to_adjustments();
    assert!((f(adj.exposure_ev) - f(adj2.exposure_ev)).abs() < 1e-6);
    assert_eq!(adj.tone_map, adj2.tone_map);
    assert_eq!(adj.defake, adj2.defake);
    assert!((f(adj.grade.contrast) - f(adj2.grade.contrast)).abs() < 1e-6);
    assert!((f(adj.white_balance.temp) - f(adj2.white_balance.temp)).abs() < 1e-6);
    assert!((f(adj.color.saturation) - f(adj2.color.saturation)).abs() < 1e-6);
    assert!((f(adj.color.hue_rotate) - f(adj2.color.hue_rotate)).abs() < 1e-6);
    // HSL bands preserved.
    assert!((f(adj.hsl.hue_shift[5]) - 0.0).abs() < 1e-6); // blue hue
    assert!((f(adj.hsl.sat_mult[5]) - 1.4).abs() < 1e-6); // blue sat
    assert!((f(adj.hsl.hue_shift[0]) - 12.0).abs() < 1e-6); // red hue
    assert!((f(adj.hsl.light_mult[0]) - 0.95).abs() < 1e-6); // red light
    // geometry / detail / advanced preserved through the round-trip.
    assert_eq!(f(adj.geometry.rotate_deg), 90.0);
    assert_eq!(adj.geometry.quarter_turns, 1);
    assert!(adj.geometry.flip_h);
    assert_eq!(adj.geometry.crop, Some((s(0.1), s(0.1), s(0.8), s(0.8))));
    assert_eq!(adj.geometry.perspective, Some((s(0.2), s(-0.1))));
    assert!((f(adj.detail.denoise) - 0.4).abs() < 1e-6);
    assert!((f(adj.detail.diffuse) - 0.3).abs() < 1e-6);
    assert!(adj.advanced.freqsep.enabled);
    assert!((f(adj.advanced.freqsep.strength) - 0.6).abs() < 1e-6);
    assert!((f(adj.advanced.freqsep.texture_keep) - 0.7).abs() < 1e-6);
    assert!(adj.advanced.pyramid.enabled);
    assert!((f(adj.advanced.pyramid.strength) - 0.5).abs() < 1e-6);
    assert!((f(adj.advanced.pyramid.detail_scale) - 1.2).abs() < 1e-6);
    assert_eq!(adj, adj2);
}

#[test]
fn default_preset_is_identity() {
    let pre = Adjustments::default().to_preset();
    assert_eq!(f(pre.exposure.ev), 0.0);
    assert_eq!(pre.tone_map.mode, ToneMapPreset::Off);
    assert!(!pre.defake.enabled);
    assert!(pre.hsl.is_empty());
    let adj = pre.to_adjustments();
    assert_eq!(adj, Adjustments::default());
}

/// A band that has no such name is named, and sets nothing.
#[test]
fn unknown_bands_are_reported() {
    let mut pre = Adjustments::default().to_preset();
    let band = HslBand { hue: s(3.0), sat: s(2.0), light: s(0.5) };
    pre.hsl = vec![("teal".to_string(), band), ("green".to_string(), band)];
    assert_eq!(pre.unknown_bands(), vec!["teal".to_string()]);
    let a = pre.to_adjustments();
    assert_eq!(f(a.hsl.hue_shift[3]), 3.0);
    assert_eq!(f(a.hsl.sat_mult[3]), 2.0);
    assert_eq!(f(a.hsl.light_mult[3]), 0.5);
    assert_eq!(f(a.hsl.sat_mult[4]), 1.0);
}

/// A plan for colour correction is not written; everything else is.
#[test]
fn preset_drops_only_the_plan() {
    let mut a = smart_beauty_preset();
    a.color_plan = Some(ColorPlan::default());
    let back = a.to_preset().to_adjustments();
    assert_eq!(back.color_plan, None);
    a.color_plan = None;
    assert_eq!(back, a);
}

#[test]
fn modes_convert_back() {
    for m in [ToneMapMode::Off, ToneMapMode::Agx, ToneMapMode::Filmic] {
        assert_eq!(ToneMapMode::from(ToneMapPreset::from(m)), m);
    }
    assert_eq!(ToneMapPreset::default(), ToneMapPreset::Off);
}

#[test]
fn bands_have_names() {
    let names = ["red", "orange", "yellow", "green", "aqua", "blue", "purple", "magenta"];
    for (i, n) in names.iter().enumerate() {
        assert_eq!(HslRegions::band_index(n), Some(i));
    }
    assert_eq!(HslRegions::band_index("cyan"), Some(4));
    assert_eq!(HslRegions::band_index("teal"), None);
    assert_eq!(HslRegions::band_index(""), None);
}

#[test]
fn skin_targets_resolve() {
    let plain = SkinTone::default();
    let (h, c, l) = plain.resolved_targets();
    assert_eq!((f(h), f(c)), (f(plain.hue_target), f(plain.chroma_target)));
    assert_eq!(f(l), f(plain.light_lift));
    let strong = SkinTone { yellow_reduce: s(1.0), lighten: s(1.0), ..plain };
    let (h2, _, l2) = strong.resolved_targets();
    assert!(f(h2) < f(h));
    assert!(f(l2) > f(l));
}

fn all_fields() -> Vec<Field> {
    registry().iter().map(|r| r.field).collect()
}

#[test]
fn written_values_read_back() {
    let fields = all_fields();
    assert_eq!(fields.len(), CONTROLS);
    let mut a = Adjustments::default();
    for (i, x) in fields.iter().enumerate() {
        x.set(&mut a, s(i as f32 + 0.5));
    }
    for (i, x) in fields.iter().enumerate() {
        assert_eq!(f(x.get(&a)), i as f32 + 0.5, "{}", x.id());
    }
}

#[test]
fn names_find_their_fields() {
    let fields = all_fields();
    for x in &fields {
        assert_eq!(Field::from_id(&x.id()), Some(*x));
        assert!(x.is_valid());
    }
    assert_eq!(Field::ExposureEv.id(), "exposure_ev");
    assert_eq!(Field::from_id("no_such_setting"), None);
    assert!(!Field::HslHue(8).is_valid());
    assert!(!Field::Zone(4).is_valid());
}

#[test]
fn controls_have_limits() {
    let e = edges();
    let list = registry();
    let exposure = &list[0];
    assert_eq!(exposure.field, Field::ExposureEv);
    assert_eq!(exposure.label, "曝光");
    let (lo, hi) = exposure.limits(&e);
    assert!(f(lo) < 0.0 && f(hi) > 0.0);
    assert_eq!(f(lo), -f(hi));
    assert_eq!(f(exposure.neutral(&e)), 0.0);
    for c in &list {
        let (lo, hi) = c.limits(&e);
        assert!(f(lo) < f(hi), "{}", c.label);
        let twice = c.clone();
        assert_eq!(twice.label, c.label);
        assert_eq!(twice.field, c.field);
    }
}

/// A position and back.
#[test]
fn controls_map_positions() {
    let list = registry();
    let c = list.iter().find(|c| c.curve == CurveKind::Linear).unwrap();
    let raw = c.to_raw(s(0.25), s(0.25), s(1.0));
    assert_eq!(f(raw), f(c.center) + f(c.half) * 0.25);
    let pos = f(c.to_pos(raw, raw, s(1.0)));
    assert!((pos - 0.25).abs() < 1e-5);
}

#[test]
fn schema_describes_every_control() {
    let list = param_schema(&edges());
    assert_eq!(list.len(), CONTROLS);
    assert_eq!(list[0].id, "exposure_ev");
    assert_eq!(list[0].group, "exposure");
    assert_eq!(list[0].curve, "linear");
    let mut ids: Vec<&str> = list.iter().map(|e| e.id.as_str()).collect();
    ids.sort();
    ids.dedup();
    assert_eq!(ids.len(), CONTROLS);
    let sat = list.iter().find(|e| e.id == "saturation").unwrap();
    assert_eq!(sat.group, "color");
    assert_eq!(sat.curve, "log_sat");
    assert!((f(sat.max) - 3.0).abs() < 1e-4);
    assert!((f(sat.min) - 1.0 / 3.0).abs() < 1e-4);
    assert_eq!(f(sat.default), 1.0);
}

#[test]
fn clamping_keeps_reachable_settings() {
    let e = edges();
    assert!(edges_usable(&e));
    let nan = Edges { knee: s(f32::NAN), ..e };
    assert!(!edges_usable(&nan));
    let mut a = Adjustments::photo_default();
    a.exposure_ev = s(0.5);
    let before = a;
    clamp(&mut a, &e);
    assert_eq!(a.grade, before.grade);
    assert_eq!(a.exposure_ev, before.exposure_ev);
    assert_eq!(a.defake, before.defake);
    a.exposure_ev = s(99.0);
    a.grade.contrast = s(-99.0);
    a.defake.enabled = true;
    clamp(&mut a, &e);
    let list = registry();
    for c in &list {
        let (lo, hi) = c.limits(&e);
        let x = f(c.field.get(&a));
        assert!(f(lo) <= x && x <= f(hi), "{}", c.label);
    }
    assert!(a.defake.enabled);
    assert_eq!(f(a.exposure_ev), f(list[0].limits(&e).1));
}

#[test]
fn patches_apply() {
    let e = edges();
    let mut a = Adjustments::default();
    let r = apply_params_patch(
        &mut a,
        "{\"exposure_ev\": 0.5, \"contrast\": 99, \"nonsense\": 1, \"wb_tint\": \"x\"}",
        &e,
    );
    assert_eq!(r, PatchOutcome::Applied);
    assert_eq!(f(a.exposure_ev), 0.5);
    assert_eq!(a.white_balance.tint, s(0.0));
    let mut short = Adjustments::default();
    assert_eq!(apply_params_patch(&mut short, "{\"exposure\":0.3}", &e), PatchOutcome::Applied);
    assert_eq!(f(short.exposure_ev), 0.3);
    let top = registry().iter().find(|c| c.field == Field::Contrast).unwrap().limits(&e).1;
    assert_eq!(a.grade.contrast, top);
}

#[test]
fn patches_that_are_no_object_change_nothing() {
    let e = edges();
    let mut a = Adjustments::photo_default();
    let before = a;
    assert_eq!(apply_params_patch(&mut a, "[1, 2]", &e), PatchOutcome::NotAnObject);
    assert_eq!(apply_params_patch(&mut a, "{\"a\":", &e), PatchOutcome::NotAnObject);
    assert_eq!(a, before);
    assert_eq!(apply_params_patch(&mut a, "{}", &e), PatchOutcome::Applied);
    assert_eq!(a, before);
}

#[test]
fn patches_pass_over_what_does_not_exist() {
    let e = edges();
    let mut a = Adjustments::default();
    let name = Field::HslSat(9).id();
    let text = format!("{{\"exposure_ev\": 1.0, \"{}\": 2.0}}", name);
    assert_eq!(apply_params_patch(&mut a, &text, &e), PatchOutcome::Applied);
    assert_eq!(f(a.exposure_ev), 1.0);
    assert_eq!(a.hsl, Adjustments::default().hsl);
}

/// Entries are applied in order, and doubles become singles.
#[test]
fn entries_apply_in_order() {
    let e = edges();
    let mut a = Adjustments::default();
    let v = vec![
        ("exposure_ev".to_string(), Some(0.25f64.to_bits())),
        ("exposure_ev".to_string(), Some(0.1f64.to_bits())),
        ("contrast".to_string(), None),
    ];
    apply_entries(&mut a, &v, &e);
    assert_eq!(f(a.exposure_ev), 0.1f32);
    assert_eq!(f(a.grade.contrast), 0.0);
}

#[test]
fn overrides_win_over_presets() {
    let mut base = Adjustments::photo_default();
    base.exposure_ev = s(-0.5);
    let none = Overrides { skin_protect: true, ..Overrides::default() };
    assert_eq!(resolve(&none, &Adjustments::default()), Adjustments::default());
    let o = Overrides { contrast: Some(s(0.3)), temp: Some(s(-0.2)), ..none };
    let a = resolve(&o, &base);
    assert_eq!(f(a.grade.contrast), 0.3);
    assert_eq!(f(a.white_balance.temp), -0.2);
    assert_eq!(a.grade.dehaze, base.grade.dehaze);
    assert_eq!(a.exposure_ev, base.exposure_ev);
    assert_eq!(f(a.mix), 1.0);
    assert_eq!(a.color_plan, None);
    base.mix = s(0.5);
    base.defake.fix_sky = false;
    base.skin.enabled = true;
    base.skin.protect_non_skin = false;
    assert_eq!(resolve(&none, &base), base);
}

#[test]
fn raised_exposure_is_protected() {
    let base = Adjustments::default();
    let up = Overrides { exposure: Some(s(0.5)), ..Overrides::default() };
    assert_eq!(resolve(&up, &base).tone_map, ToneMapMode::Agx);
    let chosen = Overrides { tone_map: Some(ToneMapMode::Filmic), ..up };
    assert_eq!(resolve(&chosen, &base).tone_map, ToneMapMode::Filmic);
    let down = Overrides { exposure: Some(s(-0.5)), ..Overrides::default() };
    assert_eq!(resolve(&down, &base).tone_map, ToneMapMode::Off);
}

/// Switches turn whole modules on, with their own defaults.
#[test]
fn switches_bring_defaults() {
    let base = Adjustments::default();
    let o = Overrides {
        skin: true,
        skin_protect: true,
        defake: true,
        freqsep: true,
        pyramid: true,
        skin_hue: Some(s(30.0)),
        persp_v: Some(s(0.2)),
        crop: Some((s(0.0), s(0.0), s(0.5), s(0.5))),
        ..Overrides::default()
    };
    let a = resolve(&o, &base);
    assert!(a.skin.enabled && a.defake.enabled);
    assert!(a.advanced.freqsep.enabled && a.advanced.pyramid.enabled);
    assert_eq!(a.skin.strength, SkinTone::pink().strength);
    assert_eq!(f(a.skin.hue_target), 30.0);
    assert_eq!(a.geometry.perspective, Some((s(0.2), s(0.0))));
    assert_eq!(a.geometry.crop, o.crop);
    assert_eq!(resolve(&Overrides::default(), &base).geometry, Geometry::default());
}

/// What a preset leaves out is identity.
#[test]
fn empty_presets_are_identity() {
    let a = Preset::default().to_adjustments();
    let mut d = Adjustments::default();
    d.skin.hue_target = s(25.0);
    d.skin.chroma_target = s(0.1);
    assert_eq!(a, d);
    assert_eq!(f(ColorPreset::default().saturation), 1.0);
    assert_eq!(f(AdvancedPreset::default().pyramid_detail_scale), 1.0);
}

/// The default of every control lies between its ends.
#[test]
fn defaults_lie_between_the_ends() {
    for x in param_schema(&edges()) {
        assert!(f(x.min) < f(x.default) && f(x.default) < f(x.max), "{}", x.id);
    }
}

/// A second clamping changes nothing.
#[test]
fn clamping_twice_is_clamping_once() {
    let e = edges();
    let mut a = Adjustments::photo_default();
    a.exposure_ev = s(40.0);
    a.color.saturation = s(-3.0);
    clamp(&mut a, &e);
    let once = a;
    clamp(&mut a, &e);
    assert_eq!(a, once);
}

fn text(v: &[char]) -> String {
    v.iter().collect()
}

#[test]
fn band_flags_are_split() {
    match split_band(" blue :0, 1.4 ,1.0") {
        BandSpec::Numbers(band, v) => {
            assert_eq!(band, 5);
            let parts: Vec<String> = v.iter().map(|t| text(t)).collect();
            assert_eq!(parts, vec!["0", "1.4", "1.0"]);
        }
        _ => panic!("three numbers"),
    }
    assert!(matches!(split_band("blue"), BandSpec::NoColon));
    assert!(matches!(split_band("teal:1,2,3"), BandSpec::UnknownBand));
    assert!(matches!(split_band("red:1,2"), BandSpec::Parts(2)));
    assert!(matches!(split_band("red:"), BandSpec::Parts(1)));
}

#[test]
fn band_flags_build_regions() {
    let good = BandEntry { band: 5, hue: Some(s(0.0)), sat: Some(s(1.4)), light: Some(s(1.0)) };
    let bad = BandEntry { band: 2, hue: None, sat: Some(s(9.0)), light: Some(s(9.0)) };
    let r = build_hsl_regions(&vec![good, bad]);
    assert_eq!(f(r.sat_mult[5]), 1.4);
    assert_eq!(f(r.sat_mult[2]), 1.0);
    assert_eq!(build_hsl_regions(&Vec::new()), HslRegions::default());
}

#[test]
fn crop_flags_are_split() {
    let v = split_crop("0.1, 0.2,0.3 ,0.4").unwrap();
    let parts: Vec<String> = v.iter().map(|t| text(t)).collect();
    assert_eq!(parts, vec!["0.1", "0.2", "0.3", "0.4"]);
    assert!(split_crop("0.1,0.2,0.3").is_none());
    assert_eq!(
        parse_crop(Some(s(1.0)), Some(s(2.0)), Some(s(3.0)), Some(s(4.0))),
        Some((s(1.0), s(2.0), s(3.0), s(4.0)))
    );
    assert_eq!(parse_crop(Some(s(1.0)), None, Some(s(3.0)), Some(s(4.0))), None);
}

fn mk_metrics(
    bright_pct: f32,
    dark_pct: f32,
    shadow_dead: f32,
    hi_dead: f32,
    median: f32,
) -> ImageMetrics {
    ImageMetrics {
        width: 100,
        height: 100,
        tone: ToneMetrics {
            mean_l: s(median),
            std_l: s(0.2),
            min_l: s(0.0),
            max_l: s(1.0),
            median_l: s(median),
            p25_l: s(0.2),
            p75_l: s(0.7),
            bright_area_pct: s(bright_pct),
            dark_area_pct: s(dark_pct),
        },
        color: ColorMetrics {
            mean_c: s(0.1),
            mean_h_deg: s(0.0),
            hue_peakiness: s(0.0),
            per_hue_chroma: [s(0.0); 8],
        },
        skin: SkinMetrics {
            ratio: s(0.0),
            mean_c: s(0.0),
            mean_h_deg: s(0.0),
            mean_l: s(0.5),
        },
        exposure: ExposureMetrics {
            highlight_clip_pct: s(hi_dead),
            shadow_clip_pct: s(shadow_dead),
        },
        gamut: GamutMetrics {
            clip_pct: s(0.0),
            max_c: s(0.0),
        },
        cast: CastMetrics {
            hue_deg: s(0.0),
            chroma: s(0.0),
        },
        dynamic_range: s(0.8),
    }
}

#[test]
fn high_key_by_bright_area_ratio() {
    let m = mk_metrics(80.0, 2.0, 1.0, 1.0, 0.60);
    assert_eq!(classify_tonality(&m).key, Key::High);
}

#[test]
fn low_key_by_dark_area_ratio() {
    let m = mk_metrics(10.0, 45.0, 1.0, 1.0, 0.30);
    assert_eq!(classify_tonality(&m).key, Key::Low);
}

#[test]
fn mid_key_when_balanced() {
    let m = mk_metrics(40.0, 15.0, 1.0, 1.0, 0.50);
    assert_eq!(classify_tonality(&m).key, Key::Mid);
}

#[test]
fn high_key_not_misclassified_mid_by_median() {
    let m = mk_metrics(70.0, 5.0, 2.0, 1.0, 0.52);
    assert_eq!(classify_tonality(&m).key, Key::High);
}

/// Whatever the key and the median, a picture is not darkened.
#[test]
fn exposure_is_never_negative() {
    for key in [Key::Low, Key::Mid, Key::High] {
        for median in [0.0, 0.05, 0.2, 0.5, 0.9, 1.0] {
            let ev = f(tonal_exposure(key, s(median)));
            assert!((0.0..=2.0).contains(&ev), "{:?} {} {}", key, median, ev);
        }
    }
}

/// Each damage on its own.
#[test]
fn each_damage_is_found() {
    let base = mk_metrics(40.0, 15.0, 1.0, 1.0, 0.50);
    let r = check(&base, &base);
    assert!(r.passed);
    assert!(r.reasons.is_empty());
    let mut m = base;
    m.tone.mean_l = s(0.95);
    let r = check(&m, &base);
    assert!(!r.passed);
    assert_eq!(r.reasons, vec![Damage::TooBright]);
    let mut m = base;
    m.exposure.highlight_clip_pct = s(60.0);
    assert_eq!(check(&m, &base).reasons, vec![Damage::Highlights]);
    let mut m = base;
    m.exposure.shadow_clip_pct = s(60.0);
    assert_eq!(check(&m, &base).reasons, vec![Damage::Shadows]);
    let mut m = base;
    m.cast.chroma = s(1.5);
    assert!(check(&m, &base).passed);
    m.cast.chroma = s(2.5);
    assert_eq!(check(&m, &base).reasons, vec![Damage::Cast]);
    let mut m = base;
    m.color.mean_c = s(9.0);
    assert_eq!(check(&m, &base).reasons, vec![Damage::Saturation]);
    let mut face = base;
    face.skin.ratio = s(0.3);
    let mut m = face;
    m.skin.mean_c = s(8.0);
    assert_eq!(check(&m, &face).reasons, vec![Damage::SkinVivid]);
    let mut m = face;
    m.skin.mean_c = s(-8.0);
    assert_eq!(check(&m, &face).reasons, vec![Damage::SkinPale]);
    let mut tan = face;
    tan.skin.mean_c = s(10.0);
    let mut m = tan;
    m.skin.mean_c = s(3.5);
    assert!(check(&m, &tan).passed);
    let mut m = face;
    m.skin.mean_l = s(0.99);
    assert_eq!(check(&m, &face).reasons, vec![Damage::SkinBright]);
}

/// Damages in words, with the measurements that show them.
#[test]
fn damages_have_words() {
    let mut base = mk_metrics(40.0, 15.0, 1.0, 1.0, 0.50);
    base.skin.mean_c = s(1.0);
    base.cast.chroma = s(0.25);
    base.color.mean_c = s(0.125);
    let mut m = base;
    m.tone.mean_l = s(0.9504);
    m.skin.mean_c = s(8.5);
    m.skin.mean_l = s(0.9);
    m.cast.chroma = s(2.5);
    m.color.mean_c = s(0.2);
    m.exposure.highlight_clip_pct = s(60.04);
    m.exposure.shadow_clip_pct = s(7.0);
    let text = |d: Damage| reason_text(d, &m, &base);
    assert_eq!(text(Damage::TooBright), "整体亮度过高/发白 mean_l 0.950 > 0.62");
    assert_eq!(text(Damage::SkinVivid), "肤色过饱和 mean_c 8.50 > 基线 1.00+7");
    assert_eq!(text(Damage::SkinPale), "肤色洗白 mean_c 8.50 < 基线 1.00-7");
    assert_eq!(text(Damage::SkinBright), "肤色过亮/洗白 mean_l 0.900 > 0.82");
    assert_eq!(text(Damage::Cast), "偏色增长 chroma 2.500 > 基线 0.250+2");
    assert_eq!(text(Damage::Saturation), "全局饱和度增长 mean_c 0.200 > 基线 0.125+0.03");
    assert_eq!(text(Damage::Highlights), "新增过曝 60.0%");
    assert_eq!(text(Damage::Shadows), "新增死黑 7.0%");
    let r = check(&m, &base);
    assert_eq!(r.texts(&m, &base).len(), r.reasons.len());
    assert_eq!(r.texts(&m, &base)[0], text(Damage::TooBright));
    assert_eq!(artifact_text(Damage::Cast, &m, &base), "新增偏色 chroma 2.500");
    assert_eq!(artifact_text(Damage::SkinBright, &m, &base), "肤色过亮/洗白");
    assert_eq!(artifact_text(Damage::SkinVivid, &m, &base), "肤色过饱和");
    assert_eq!(artifact_text(Damage::Highlights, &m, &base), "新增过曝 60.0%");
}

/// Inside a band the mark is full, outside it falls.
#[test]
fn bands_score_full() {
    assert_eq!(f(band_score(s(0.5), s(0.4), s(0.6))), 1.0);
    assert!(f(band_score(s(0.9), s(0.4), s(0.6))) < 1.0);
    let m = mk_metrics(40.0, 15.0, 1.0, 1.0, 0.50);
    let t = target_for(&classify_tonality(&m));
    let mut good = m;
    good.tone.median_l = t.med_lo;
    good.tone.std_l = t.std_lo;
    good.color.mean_c = t.c_lo;
    let mut worse = good;
    worse.tone.median_l = s(0.99);
    assert!(f(goodness(&good, &t)) > f(goodness(&worse, &t)));
}
