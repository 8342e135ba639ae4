//! Automatic correction, rules by scene, and the stages on one colour.

use retouch::analyze::{
    add_up, hue_eighth, is_skin, step_l, tally, CastMetrics, ColorMetrics, ExposureMetrics,
    GamutMetrics, ImageMetrics, Reading, SkinMetrics, ToneMetrics,
};
use retouch::auto::{
    applied_params, auto_correct, begin_search, blend_rgb, is_safe, judge_round, next_round,
    proxy, proxy_limit, proxy_size, refine_correction, round_count, safe_neutral, zone_blend,
    MixChoice, Search,
};
use retouch::auto_color::{
    auto_neutral_balance, balance_of, balance_plan, cast_balance, choose_samples, film_presets,
    mean_cast, sampling_step, AutoBalance, LabSample, SAMPLES, SAMPLES_AGAIN,
};
use retouch::color_engine::{
    add_colors, analyze_color, apply_color_correction, classify_scene, color_plan, count_colors,
    scene_rules, ColorPlan, SceneType,
};
use retouch::develop::{
    advance, apply_color_grade, apply_defake, apply_grade, apply_skin_tone, apply_white_balance,
    apply_zones, ask, ask_light, begin_color, begin_light, finish_color, finish_light, first_stage,
    gamut_softclip, guard_chroma, hsl_band_weights, mix_byte, next_stage, roll_off, scale_light,
    span_middle, Ask, Light, LightAsk, PictureStage, Span, Stage,
};
use retouch::guardrail::{goodness, target_for};
use retouch::lch::{positive_degrees, smoothstep, Lch};
use retouch::params::{Edges, Field};
use retouch::pipeline::{
    Adjustments, ColorGrade, DefakeColor, Grade, SkinTone, ToneMapMode, WhiteBalance, ZoneGrade,
};
use retouch::raster::RgbImage;
use retouch::reference::{
    begin_match, dominant_hue_band, hue_shortest_diff, matched, ref_score, ref_step,
};
use retouch::single::Single;
use retouch::tonemap::{classify_tonality, Hardness, Key};
use retouch::transfer::{light_base, linear_to_srgb, needs_root, srgb_to_linear};

fn s(x: f32) -> Single {
    Single { bits: x.to_bits() }
}

fn f(x: Single) -> f32 {
    f32::from_bits(x.bits)
}


fn mk_metrics(
    bright_pct: f32,
    dark_pct: f32,
    shadow_dead: f32,
    hi_dead: f32,
    median: f32,
) -> ImageMetrics {
    ImageMetrics {
        width: 100,
        height: 100,
        tone: ToneMetrics {
            mean_l: s(median),
            std_l: s(0.2),
            min_l: s(0.0),
            max_l: s(1.0),
            median_l: s(median),
            p25_l: s(0.2),
            p75_l: s(0.7),
            bright_area_pct: s(bright_pct),
            dark_area_pct: s(dark_pct),
        },
        color: ColorMetrics {
            mean_c: s(0.1),
            mean_h_deg: s(0.0),
            hue_peakiness: s(0.0),
            per_hue_chroma: [s(0.0); 8],
        },
        skin: SkinMetrics {
            ratio: s(0.0),
            mean_c: s(0.0),
            mean_h_deg: s(0.0),
            mean_l: s(0.5),
        },
        exposure: ExposureMetrics {
            highlight_clip_pct: s(hi_dead),
            shadow_clip_pct: s(shadow_dead),
        },
        gamut: GamutMetrics {
            clip_pct: s(0.0),
            max_c: s(0.0),
        },
        cast: CastMetrics {
            hue_deg: s(0.0),
            chroma: s(0.0),
        },
        dynamic_range: s(0.8),
    }
}


fn edges() -> Edges {
    Edges {
        knee: s(2.2f32.tanh()),
        third: s((-(3.0f32.ln())).exp()),
        triple: s(3.0f32.ln().exp()),
    }
}

fn lch(l: f32, c: f32, h: f32) -> Lch {
    Lch { l: s(l), c: s(c), h: s(h) }
}

fn reading(l: f32, c: f32, hue: f32, skin_hue: f32) -> Reading {
    let r = hue.to_radians();
    Reading {
        l: s(l),
        c: s(c),
        hue: s(hue),
        cos: s(r.cos()),
        sin: s(r.sin()),
        skin_hue: s(skin_hue),
        inside: true,
    }
}

/// Two pixels, one of them skin.
#[test]
fn pictures_are_measured() {
    let img = RgbImage { width: 2, height: 1, data: vec![0, 10, 20, 255, 200, 180] };
    let v = vec![reading(0.25, 0.1, 100.0, 0.0), reading(0.75, 0.1, 30.0, 1.0)];
    assert!(!is_skin(&v[0]) && is_skin(&v[1]));
    let t = tally(&img, &v);
    assert_eq!((t.n, t.bright, t.dark, t.skin), (2, 1, 0, 1));
    assert_eq!((t.hi_clip, t.lo_clip, t.gamut_clip), (1, 1, 0));
    assert_eq!(t.levels.iter().sum::<u64>(), 2);
    let sums = add_up(&v);
    assert_eq!(f64::from_bits(sums.l.bits), 1.0);
    assert_eq!(f64::from_bits(sums.l2.bits), 0.625);
    assert_eq!(f64::from_bits(sums.skin_l.bits), 0.75);
    let m = retouch::analyze::analyze(&img, &v, s(65.0), s(30.0));
    assert_eq!((m.width, m.height), (2, 1));
    assert_eq!((f(m.tone.mean_l), f(m.tone.std_l)), (0.5, 0.25));
    assert_eq!((f(m.tone.min_l), f(m.tone.max_l), f(m.dynamic_range)), (0.25, 0.75, 0.5));
    assert_eq!((f(m.tone.bright_area_pct), f(m.tone.dark_area_pct)), (50.0, 0.0));
    assert_eq!(m.tone.p25_l, step_l(63));
    assert_eq!(m.tone.median_l, step_l(63));
    assert_eq!(m.tone.p75_l, step_l(191));
    assert_eq!((f(m.color.mean_h_deg), f(m.skin.mean_h_deg)), (65.0, 30.0));
    assert_eq!((f(m.skin.ratio), f(m.skin.mean_l)), (0.5, 0.75));
    assert_eq!(f(m.color.per_hue_chroma[0]), 0.1);
    assert_eq!(f(m.color.per_hue_chroma[3]), 0.0);
    assert_eq!((f(m.exposure.highlight_clip_pct), f(m.exposure.shadow_clip_pct)), (50.0, 50.0));
    assert!((f(m.color.hue_peakiness) - 35f32.to_radians().cos()).abs() < 1e-5);
}

#[test]
fn empty_pictures_are_measured() {
    let img = RgbImage { width: 0, height: 0, data: Vec::new() };
    let m = retouch::analyze::analyze(&img, &Vec::new(), s(9.0), s(9.0));
    assert!(m.tone.mean_l.is_nan() && m.skin.ratio.is_nan());
    assert_eq!(f(m.tone.median_l), 0.0);
    assert_eq!((f(m.color.mean_h_deg), f(m.skin.mean_h_deg)), (0.0, 0.0));
    assert_eq!((f(m.tone.min_l), f(m.tone.max_l)), (1.0, 0.0));
}

#[test]
fn hues_fall_on_eighths() {
    assert_eq!(hue_eighth(s(0.0)), 0);
    assert_eq!(hue_eighth(s(44.9)), 0);
    assert_eq!(hue_eighth(s(45.0)), 1);
    assert_eq!(hue_eighth(s(359.0)), 7);
    assert_eq!(hue_eighth(s(360.0)), 7);
}

#[test]
fn rules_give_first_settings() {
    let m = mk_metrics(40.0, 15.0, 0.0, 0.0, 0.50);
    assert!(auto_correct(&m).is_empty());
    let mut dark = m;
    dark.tone.mean_l = s(0.40);
    dark.tone.std_l = s(0.05);
    dark.color.mean_c = s(0.02);
    dark.cast.chroma = s(0.2);
    dark.cast.hue_deg = s(200.0);
    dark.skin.ratio = s(0.1);
    dark.skin.mean_c = s(0.05);
    dark.exposure.shadow_clip_pct = s(2.0);
    let v = auto_correct(&dark);
    let fields: Vec<Field> = v.iter().map(|x| x.0).collect();
    assert_eq!(
        fields,
        vec![
            Field::ExposureEv,
            Field::Contrast,
            Field::Dehaze,
            Field::Vibrance,
            Field::WBTemp,
            Field::SkinStrength,
            Field::SkinPinken,
            Field::DeepShadowLift,
        ]
    );
    assert_eq!(f(v[0].1), ((0.52f32 - 0.40) * 1.4).min(0.5));
    assert_eq!(f(v[4].1), 0.10);
    let mut bright = m;
    bright.tone.mean_l = s(0.9);
    assert_eq!(auto_correct(&bright)[0].1, s(-((0.9f32 - 0.52) * 1.1).min(0.5)));
}

/// A round never makes the best worse.
#[test]
fn searches_keep_the_best() {
    let base = mk_metrics(40.0, 15.0, 0.0, 0.0, 0.50);
    let t = classify_tonality(&base);
    let target = target_for(&t);
    let first = Adjustments::photo_default();
    let start: Search = begin_search(&first, &base, &base, &t, &target);
    assert_eq!(start.best_score, goodness(&base, &target));
    let low = judge_round(&start, &base, &base, &t, s(-100.0));
    assert_eq!((low.best_adj, low.best_score), (start.best_adj, start.best_score));
    let other = next_round(&start, &Adjustments::default(), &edges());
    let high = judge_round(&other, &base, &base, &t, s(1000.0));
    assert_eq!(high.best_score, s(1000.0));
    assert_eq!(high.best_adj, other.adj);
    let mut white = base;
    white.tone.mean_l = s(0.99);
    white.exposure.highlight_clip_pct = s(99.0);
    let spoilt = judge_round(&other, &white, &base, &t, s(2000.0));
    assert_eq!(spoilt.best_adj, other.best_adj);
}

#[test]
fn refinement_stays_in_its_limits() {
    let base = mk_metrics(40.0, 15.0, 0.0, 0.0, 0.50);
    let t = classify_tonality(&base);
    let target = target_for(&t);
    let mut a = Adjustments::default();
    let mut dark = base;
    dark.tone.median_l = s(0.01);
    for _ in 0..40 {
        a = refine_correction(&dark, &a, &target, &t, s(1.8));
    }
    assert!(f(a.exposure_ev) <= 2.0 && f(a.exposure_ev) > 0.0);
}

#[test]
fn proxies_keep_proportions() {
    assert_eq!(proxy_size(4000, 3000, 1024), Some((1024, 768)));
    assert_eq!(proxy_size(800, 600, 1024), None);
    assert_eq!((proxy_limit(0), proxy_limit(640)), (1024, 640));
    assert_eq!((round_count(0), round_count(7)), (4, 7));
    let img = RgbImage { width: 40, height: 20, data: vec![90; 2400] };
    let small = proxy(&img, 10);
    assert_eq!((small.width, small.height, small.data.len()), (10, 5, 150));
    assert_eq!(proxy(&img, 100).data, img.data);
}

#[test]
fn changed_settings_are_listed() {
    let e = edges();
    assert!(applied_params(&Adjustments::default(), &e).iter().all(|x| x.0 != "exposure_ev"));
    let mut a = Adjustments::default();
    a.exposure_ev = s(0.75);
    let v = applied_params(&a, &e);
    assert!(v.contains(&("exposure_ev".to_string(), s(0.75))));
}

/// The share goes down by sixteenths until the picture is safe, and at last to nothing.
#[test]
fn unsafe_shares_are_lowered() {
    assert_eq!(safe_neutral(s(0.8), 0, true), MixChoice::Keep);
    let first = s(0.8f32 * (1.0 - 1.0 / 16.0));
    assert_eq!(safe_neutral(s(0.8), 0, false), MixChoice::Try(first));
    assert_eq!(safe_neutral(s(0.8), 1, true), MixChoice::Use(first));
    assert_eq!(safe_neutral(s(0.8), 16, false), MixChoice::Use(s(0.0)));
    let base = mk_metrics(40.0, 15.0, 0.0, 0.0, 0.50);
    assert!(is_safe(&base, &base));
    let mut m = base;
    m.tone.mean_l = s(0.59);
    assert!(!is_safe(&m, &base));
    let mut m = base;
    m.exposure.highlight_clip_pct = s(0.09);
    assert!(!is_safe(&m, &base));
    let mut m = base;
    m.tone.std_l = s(0.11);
    assert!(!is_safe(&m, &base));
}

#[test]
fn pictures_are_blended() {
    let a = RgbImage { width: 1, height: 1, data: vec![200, 100, 0] };
    let b = RgbImage { width: 1, height: 1, data: vec![100, 100, 100] };
    assert_eq!(blend_rgb(&a, &b, s(1.0)).data, a.data);
    assert_eq!(blend_rgb(&a, &b, s(0.0)).data, b.data);
    assert_eq!(blend_rgb(&a, &b, s(0.5)).data, vec![150, 100, 50]);
    assert_eq!(mix_byte(s(0.5), 200, 100), 150);
    assert_eq!(mix_byte(s(1.0), 200, 100), 200);
    let mid = RgbImage { width: 1, height: 1, data: vec![128, 128, 128] };
    assert_eq!(zone_blend(&a, &b, &b, &mid).data, a.data);
    let black = RgbImage { width: 1, height: 1, data: vec![0, 0, 0] };
    assert_eq!(zone_blend(&a, &b, &b, &black).data, a.data);
    let white = RgbImage { width: 1, height: 1, data: vec![255, 255, 255] };
    assert_eq!(zone_blend(&a, &b, &b, &white).data, b.data);
}

fn sample(l: f32, a: f32, b: f32) -> LabSample {
    LabSample {
        l: s(l),
        a: s(a),
        b: s(b),
        c: s(a.hypot(b)),
        hue: s(a.atan2(b).to_degrees().rem_euclid(360.0)),
    }
}

#[test]
fn casts_are_balanced() {
    let v = vec![sample(0.5, 0.02, 0.05); 100];
    let take = choose_samples(&v);
    assert!(take.iter().all(|t| *t));
    let (a, b) = mean_cast(&v, &take);
    assert_eq!(a, s((v.iter().map(|p| f(p.a) as f64).sum::<f64>() / 100.0) as f32));
    assert_eq!(b, s((v.iter().map(|p| f(p.b) as f64).sum::<f64>() / 100.0) as f32));
    let wb = cast_balance(&v);
    assert_eq!(wb, balance_of(a, b));
    assert!(f(wb.temp) < 0.0 && f(wb.tint) < 0.0);
    let far = balance_of(s(-9.0), s(9.0));
    assert_eq!((f(far.temp), f(far.tint)), (-0.55, 0.45));
    let r = auto_neutral_balance(&v, &v, true, ColorPlan::default());
    assert_eq!(r.wb, wb);
    assert_eq!(f(r.mix), 0.8);
    assert_eq!(f(r.comp_color.vibrance), 0.06);
    let off = auto_neutral_balance(&v, &v, false, ColorPlan::default());
    assert_eq!(off.comp_color, ColorGrade::default());
    assert_eq!(
        auto_neutral_balance(&Vec::new(), &Vec::new(), true, ColorPlan::default()),
        AutoBalance::default()
    );
    assert_eq!(sampling_step(1024, 100, SAMPLES), 2);
    assert_eq!(sampling_step(100, 100, SAMPLES), 1);
    assert_eq!(sampling_step(1024, 100, SAMPLES_AGAIN), 4);
}

/// A balance turns into settings; of the original a fifth stays.
#[test]
fn balances_become_settings() {
    let v = vec![sample(0.5, 0.02, 0.05); 100];
    let a = auto_neutral_balance(&v, &v, true, ColorPlan::default()).to_adjustments();
    assert_eq!(f(a.mix), 0.8);
    assert_eq!(a.white_balance, cast_balance(&v));
    assert_eq!(a.color.saturation, s(1.0));
    assert_eq!(a.color.vibrance, s(0.06));
    let mut sorted: Vec<f32> = a.hsl.sat_mult.iter().map(|x| f(*x)).collect();
    sorted.sort_by(|x, y| x.total_cmp(y));
    assert_eq!(sorted, vec![1.0, 1.0, 1.0, 1.0, 1.0, 1.0, 1.0, 1.0 + 0.03]);
    let mut b = auto_neutral_balance(&v, &v, true, ColorPlan::default());
    b.comp_color.saturation = s(1.1);
    assert_eq!(b.to_adjustments().color.saturation, s(1.1));
    b.smart_compensation = false;
    assert_eq!(b.to_adjustments().color.saturation, s(1.0));
}

/// A balance has a summary; an empty picture has none.
#[test]
fn balances_have_a_summary() {
    let v = vec![sample(0.5, 0.02, 0.05); 100];
    let mut b = auto_neutral_balance(&v, &v, true, ColorPlan::default());
    b.wb = WhiteBalance { temp: s(-0.2), tint: s(0.084) };
    assert_eq!(
        b.summary(&v),
        format!(
            "自动中性化：色温 -0.20 / 色调 0.08，忽略第 {} 号主导色相(100%像素)，保留 20% 原图{}",
            (f(v[0].hue) / 45.0) as usize,
            "，智能补偿启用（基于中性化后重测）"
        )
    );
    b.smart_compensation = false;
    let mut mixed = Vec::new();
    for k in 0..8 {
        let mut p = sample(0.5, 0.02, 0.05);
        p.hue = s(45.0 * k as f32 + 10.0);
        mixed.push(p);
    }
    assert_eq!(b.summary(&mixed), "自动中性化：色温 -0.20 / 色调 0.08，保留 20% 原图，智能补偿关闭");
    assert_eq!(b.summary(&Vec::new()), "");
}

/// Of all rounds the first of the highest scores without an artefact is kept.
#[test]
fn the_first_highest_score_is_kept() {
    let base = mk_metrics(40.0, 15.0, 0.0, 0.0, 0.50);
    let t = classify_tonality(&base);
    let mut white = base;
    white.tone.mean_l = s(0.99);
    white.exposure.highlight_clip_pct = s(99.0);
    let first = Adjustments::photo_default();
    let mut search: Search = begin_search(&first, &base, &base, &t, &target_for(&t));
    let rounds = [(base, 500.0), (base, 900.0), (white, 9000.0), (base, 900.0), (base, 700.0)];
    for (k, (m, score)) in rounds.iter().enumerate() {
        search = judge_round(&search, m, &base, &t, s(*score));
        let mut next = first;
        next.exposure_ev = s(0.1 * (k + 1) as f32);
        search = next_round(&search, &next, &edges());
    }
    assert_eq!(search.best_score, s(900.0));
    assert_eq!(search.best_adj.exposure_ev, s(0.1));
}

/// The largest safe share is taken, and shares fall from step to step.
#[test]
fn the_largest_safe_share_is_taken() {
    for safe_from in 0..=17u32 {
        let mut i = 0;
        let mut tried: Vec<f32> = Vec::new();
        let end = loop {
            match safe_neutral(s(0.8), i, i >= safe_from) {
                MixChoice::Try(m) => {
                    tried.push(f(m));
                    i += 1;
                }
                other => break other,
            }
        };
        assert!(tried.windows(2).all(|w| w[1] < w[0]));
        let expected = match safe_from {
            0 => MixChoice::Keep,
            17 => MixChoice::Use(s(0.0)),
            k => MixChoice::Use(s(0.8 * (1.0 - k as f32 / 16.0))),
        };
        assert_eq!(end, expected);
    }
}

/// A mix of nothing is the original, and a mix of all the development.
#[test]
fn ends_of_the_mix_are_exact() {
    for a in 0..=255u8 {
        for b in [0u8, 1, 17, 128, 254, 255] {
            assert_eq!(mix_byte(s(0.0), a, b), b);
            assert_eq!(mix_byte(s(1.0), a, b), a);
            assert_eq!(mix_byte(s(-2.0), a, b), b);
            assert_eq!(mix_byte(s(7.0), a, b), a);
        }
    }
}

/// Neutral settings give a colour back.
#[test]
fn neutral_settings_keep_colors() {
    let adj = Adjustments::default();
    let z = s(0.0);
    for p in [lch(0.0, 0.0, 0.0), lch(0.3, 0.12, 250.5), lch(1.0, 0.2, 359.0), lch(0.6, 0.0, -40.0)] {
        let mut state = begin_color(p, &adj);
        loop {
            match ask(&state, &adj) {
                Ask::Done => break,
                Ask::Power(x) => {
                    let taper = s(f(x).powf(1.5));
                    state = advance(&state, &adj, s(0.5), s(1.0), [taper, z, z, z]);
                }
                other => panic!("a neutral setting asked for {:?}", other),
            }
        }
        assert_eq!(finish_color(&state), p);
    }
    let turned = begin_color(lch(0.5, 0.1, -40.0), &adj);
    let end = advance(&turned, &adj, s(0.5), s(1.0), [z, z, z, z]);
    assert_eq!(finish_color(&end), lch(0.5, 0.1, 320.0));
}

/// Exposure comes first, white balance second, the tone last.
#[test]
fn light_is_developed_in_order() {
    let p = Light { r: s(0.4), g: s(0.5), b: s(0.6) };
    let mut adj = Adjustments::default();
    assert_eq!(begin_light(p, s(1.0), &adj), p);
    assert_eq!(ask_light(p, s(1.0), &adj), LightAsk::Done);
    adj.white_balance.temp = s(0.5);
    let q = begin_light(p, s(2.0), &adj);
    assert_eq!(q, apply_white_balance(scale_light(p, s(2.0)), &adj.white_balance));
    assert_eq!(q.r, s(0.8 * (1.0 + 0.5 * 0.2)));
    match ask_light(q, s(2.0), &adj) {
        LightAsk::Tanh(x) => {
            let t = s(f(x).tanh());
            let a = Light { r: t, g: t, b: t };
            assert_eq!(finish_light(q, &LightAsk::Tanh(x), a), roll_off(q, t));
        }
        other => panic!("{:?}", other),
    }
    assert_eq!(ask_light(p, s(0.5), &adj), LightAsk::Done);
    assert_eq!(finish_light(q, &LightAsk::Done, p), q);
    adj.tone_map = ToneMapMode::Filmic;
    assert_eq!(ask_light(q, s(2.0), &adj), LightAsk::Curve(ToneMapMode::Filmic));
    assert_eq!(finish_light(q, &LightAsk::Curve(ToneMapMode::Filmic), p), p);
}

/// Stages of a picture that do nothing are left out, and the others keep their order.
#[test]
fn stages_of_a_picture_come_in_order() {
    let list = |adj: &Adjustments| {
        let mut v = vec![first_stage(adj)];
        while v[v.len() - 1] != PictureStage::End {
            let next = next_stage(v[v.len() - 1], adj);
            v.push(next);
        }
        v
    };
    let mut adj = Adjustments::default();
    assert_eq!(list(&adj), vec![PictureStage::Develop, PictureStage::Mix, PictureStage::End]);
    adj.geometry.rotate_deg = s(3.0);
    adj.detail.sharpen = s(0.5);
    adj.advanced.pyramid.enabled = true;
    adj.advanced.pyramid.strength = s(0.5);
    assert_eq!(
        list(&adj),
        vec![
            PictureStage::Geometry,
            PictureStage::Develop,
            PictureStage::Detail,
            PictureStage::Advanced,
            PictureStage::Mix,
            PictureStage::End,
        ]
    );
    adj.detail.sharpen = s(0.0);
    assert_eq!(next_stage(PictureStage::Develop, &adj), PictureStage::Advanced);
}

/// The plan of a balance has a strength of 0.8.
#[test]
fn balances_plan_at_four_fifths() {
    let v = vec![lch(0.5, 0.03, 40.0); 4];
    let turns = vec![(s(0.5), s(0.5)); 4];
    let m = mk_metrics(40.0, 15.0, 0.0, 0.0, 0.50);
    let cm = analyze_color(&m, &v, &turns, s(10.0), s(20.0));
    assert_eq!(balance_plan(&cm), color_plan(&cm, &scene_rules(cm.scene), s(0.8)));
}

#[test]
fn film_looks_have_names() {
    let v = film_presets();
    let ids: Vec<&str> = v.iter().map(|p| p.id).collect();
    assert_eq!(
        ids,
        vec!["neutral_warm", "neutral_cool", "fuji", "portra", "kodak_gold", "morandi"]
    );
    assert_eq!(v[0].name, "中性胶片·暖");
    assert!(v.iter().all(|p| p.adj != Adjustments::default()));
}

#[test]
fn scenes_are_told_apart() {
    let mut m = mk_metrics(40.0, 15.0, 0.0, 0.0, 0.50);
    m.dynamic_range = s(0.5);
    let scene = |m: &ImageMetrics, c: f32, hue: f32, cast: f32, sky: f32| {
        classify_scene(m, s(c), s(hue), s(cast), s(sky), s(0.0))
    };
    assert_eq!(scene(&m, 0.12, 0.0, 0.0, 0.0), SceneType::NormalMid);
    assert_eq!(scene(&m, 0.12, 40.0, 0.05, 0.0), SceneType::GoldenHour);
    assert_eq!(scene(&m, 0.12, 200.0, 0.05, 0.0), SceneType::Overcast);
    assert_eq!(scene(&m, 0.20, 0.0, 0.0, 0.0), SceneType::Vivid);
    let mut flat = m;
    flat.tone.std_l = s(0.10);
    assert_eq!(scene(&flat, 0.065, 0.0, 0.0, 0.0), SceneType::FlatLowContrast);
    assert_eq!(scene(&flat, 0.09, 0.0, 0.0, 0.0), SceneType::NormalMid);
    let mut night = m;
    night.tone.median_l = s(0.30);
    assert_eq!(scene(&night, 0.12, 0.0, 0.05, 0.0), SceneType::Night);
    let mut far = m;
    far.dynamic_range = s(0.61);
    assert_eq!(scene(&far, 0.12, 40.0, 0.05, 0.0), SceneType::Extreme);
    assert_eq!(scene_rules(SceneType::NormalMid).guard_level, 1);
}

#[test]
fn colors_are_counted() {
    let v = vec![lch(0.6, 0.08, 230.0), lch(0.5, 0.1, 120.0), lch(0.1, 0.01, 0.0)];
    let turns: Vec<(Single, Single)> = v
        .iter()
        .map(|p| (s(f(p.h).to_radians().cos()), s(f(p.h).to_radians().sin())))
        .collect();
    let t = count_colors(&v);
    assert_eq!((t.count, t.shadow, t.dull, t.sky, t.green), (3, 1, 1, 1, 1));
    let sums = add_colors(&v, &turns);
    assert_eq!(f64::from_bits(sums.sky_h.bits), 230.0);
    assert_eq!(f64::from_bits(sums.shadow_c.bits), 0.01f32 as f64);
    let m = mk_metrics(40.0, 15.0, 0.0, 0.0, 0.50);
    let cm = analyze_color(&m, &v, &turns, s(180.0), s(150.0));
    assert_eq!(f(cm.mean_h), 150.0);
    assert_eq!(f(cm.shadow_c), 0.01);
    assert_eq!(f(cm.sky_ratio), 1.0 / 3.0);
    assert_eq!(f(cm.cast_hue), 180.0);
    assert_eq!(f(cm.digital_blue_delta), 2.5);
    let plan = color_plan(&cm, &scene_rules(cm.scene), s(0.0));
    assert_eq!(f(plan.strength), 0.0);
}

/// A plan without any boost leaves all but dark colours alone.
#[test]
fn empty_plans_keep_colors() {
    let p = lch(0.6, 0.1, 230.0);
    let q = apply_color_correction(p, &ColorPlan::default(), s(1.0), s(1.0));
    assert_eq!((q.l, q.c, q.h), (p.l, p.c, p.h));
}

#[test]
fn neutral_balance_keeps_light() {
    let p = Light { r: s(0.2), g: s(0.4), b: s(0.6) };
    let q = apply_white_balance(p, &WhiteBalance::default());
    assert_eq!((q.r, q.g, q.b), (p.r, p.g, p.b));
    let warm = apply_white_balance(p, &WhiteBalance { temp: s(0.5), tint: s(0.0) });
    assert_eq!(f(warm.r), 0.2 * (1.0 + 0.5 * 0.2));
    assert_eq!(f(warm.b), 0.6 * (1.0 - 0.5 * 0.2));
    assert_eq!(f(warm.g), 0.4);
}

/// Each stage leaves alone what is not its own.
#[test]
fn stages_keep_to_their_own() {
    let p = lch(0.7, 0.2, 225.0);
    let tamed = apply_defake(p, &DefakeColor::on());
    assert_eq!((tamed.l, tamed.h), (p.l, p.h));
    assert!(f(tamed.c) < 0.2);
    let graded = apply_color_grade(
        p,
        &ColorGrade { saturation: s(1.5), hue_rotate: s(10.0), ..ColorGrade::default() },
        s(1.0),
    );
    assert_eq!(graded.l, p.l);
    let light = apply_grade(
        p,
        &Grade { contrast: s(0.3), shadow_lift: s(0.2), ..Grade::default() },
        s(0.5),
        s(1.0),
    );
    assert_eq!((light.c, light.h), (p.c, p.h));
    assert!((0.0..=1.0).contains(&f(light.l)));
    let plain = apply_grade(p, &Grade::default(), s(0.5), s(1.0));
    assert_eq!((plain.l, plain.c, plain.h), (p.l, p.c, p.h));
    let zoned = apply_zones(
        p,
        &ZoneGrade { lift: [s(0.1), s(0.0), s(0.0), s(0.0)] },
        [s(1.0), s(0.0), s(0.0), s(0.0)],
    );
    assert_eq!((zoned.c, zoned.h), (p.c, p.h));
    assert_eq!(f(zoned.l), 0.7 + 0.1);
    let off = apply_skin_tone(p, &SkinTone::default(), &p, s(1.0));
    assert_eq!((off.l, off.c, off.h), (p.l, p.c, p.h));
}

/// Chroma that rises is held; chroma that does not is kept.
#[test]
fn rising_chroma_is_held() {
    assert_eq!(f(guard_chroma(s(0.1), s(0.2))), 0.1);
    assert!(f(guard_chroma(s(5.0), s(0.2))) <= 0.3);
}

#[test]
fn bands_share_a_hue() {
    let (i, w1, j, w2) = hsl_band_weights(s(264.0));
    assert!(i < 8 && j < 8 && i != j);
    assert!((f(w1) + f(w2) - 1.0).abs() < 1e-6);
    assert!(f(w1) >= f(w2));
}

/// Neutral settings ask for one power and are done.
#[test]
fn neutral_development_is_short() {
    let adj = Adjustments::identity();
    let p = lch(0.5, 0.1, 200.0);
    let mut d = begin_color(p, &adj);
    let mut asked = 0;
    loop {
        match ask(&d, &adj) {
            Ask::Done => break,
            _ => {
                d = advance(&d, &adj, s(0.5), s(1.0), [s(1.0); 4]);
                asked += 1;
            }
        }
        assert!(asked <= 6);
    }
    assert!(asked <= 1);
    assert_eq!(d.stage, Stage::End);
    let q = finish_color(&d);
    assert_eq!((q.l, q.c, q.h), (p.l, p.c, p.h));
}

#[test]
fn spans_are_halved() {
    let span = Span { lo: s(0.0), hi: s(0.4) };
    assert_eq!(f(span_middle(&span)), 0.2);
    let up = gamut_softclip(&span, true);
    assert_eq!((f(up.lo), f(up.hi)), (0.2, 0.4));
    let down = gamut_softclip(&span, false);
    assert_eq!((f(down.lo), f(down.hi)), (0.0, 0.2));
}

#[test]
fn references_draw_settings() {
    let m = mk_metrics(40.0, 15.0, 0.0, 0.0, 0.50);
    let zero = (s(0.0), s(0.0));
    let mut bright = m;
    bright.tone.mean_l = s(0.7);
    assert!(f(ref_score(&m, &m, zero, zero)) > f(ref_score(&m, &bright, zero, zero)));
    let a = Adjustments::default();
    let next = ref_step(&a, &m, &bright, zero, zero);
    assert!(f(next.exposure_ev) > 0.0);
    assert_eq!(next.skin, a.skin);
    assert_eq!(next.geometry, a.geometry);
    assert_eq!(f(hue_shortest_diff(s(10.0), s(350.0))), 20.0);
    assert_eq!(f(hue_shortest_diff(s(350.0), s(10.0))), -20.0);
    let mut green = m;
    green.color.per_hue_chroma[3] = s(0.4);
    assert_eq!(dominant_hue_band(&green), 3);
    let begun = begin_match(&a);
    assert_eq!(begun.best_adj, a);
    assert_eq!(f(begun.best_score), f32::NEG_INFINITY);
    assert_eq!(matched(&a, s(1.0)).exposure_ev, a.exposure_ev);
}

#[test]
fn tonalities_have_labels() {
    let mut m = mk_metrics(40.0, 15.0, 0.0, 0.0, 0.50);
    m.dynamic_range = s(0.5);
    let t = classify_tonality(&m);
    assert_eq!(t.label, "中中调");
    assert_eq!((t.key, t.hard), (Key::Mid, Hardness::Soft));
    assert!(!t.silhouette && !t.is_extreme());
    let mut hard = m;
    hard.exposure.highlight_clip_pct = s(2.0);
    hard.exposure.shadow_clip_pct = s(2.0);
    assert_eq!(classify_tonality(&hard).hard, Hardness::Hard);
    let mut outline = m;
    outline.exposure.shadow_clip_pct = s(7.0);
    let t = classify_tonality(&outline);
    assert!(t.silhouette);
    assert_eq!(t.label, "剪影");
}

/// Bytes become light and light becomes bytes again.
#[test]
fn light_reads_back() {
    for b in 0..=255u8 {
        let base = light_base(b);
        let power = base.map_or(0.0, |x| f(x).powf(2.4));
        let l = srgb_to_linear(b, s(power));
        let root = if needs_root(l) { f(l).powf(1.0 / 2.4) } else { 0.0 };
        assert_eq!(linear_to_srgb(l, s(root)), b);
        assert_eq!(base.is_none(), b <= 10);
    }
    assert_eq!(srgb_to_linear(5, s(77.0)), srgb_to_linear(5, s(0.0)));
}

#[test]
fn degrees_wrap() {
    assert_eq!(f(positive_degrees(s(-90.0))), 270.0);
    assert_eq!(f(positive_degrees(s(90.0))), 90.0);
    assert_eq!(f(smoothstep(s(0.0), s(1.0), s(0.5))), 0.5);
    assert_eq!(f(smoothstep(s(0.0), s(1.0), s(2.0))), 1.0);
}
