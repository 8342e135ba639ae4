//! The development of pictures: the library's stages between the outside conversions of colour.

use image::{DynamicImage, Rgb};
use palette::{IntoColor, LinSrgb, Oklab, OklabHue, Oklch, Srgb};
use rayon::prelude::{IndexedParallelIterator, IntoParallelRefIterator, IntoParallelRefMutIterator, ParallelIterator, ParallelSlice, ParallelSliceMut};
use retouch::advanced::{Advanced, apply_advanced, pyramid_radii, skin_radius_of};
use retouch::analyze::{ImageMetrics, Reading, add_up, in_gamut};
use retouch::auto::{Search, applied_params, begin_search, highlight_version, judge_round, next_round, proxy, proxy_limit, proxy_size, refine_correction, round_count, shadow_version, with_plan, zone_blend};
use retouch::auto_color::{AutoBalance, LabSample, SAMPLES, SAMPLES_AGAIN, auto_neutral_balance, balance_plan, cast_balance, sampling_step};
use retouch::color_engine::{ColorMetrics, add_colors, analyze_color, cast_means, color_plan, count_colors, scene_rules};
use retouch::detail::{Detail, Finish, GLOW_RADIUS, denoise_pixel, detail_steps, glow, place_exponent_of, range_factor, range_points};
use retouch::develop::{Ask, HALVINGS, Light, LightAsk, PictureStage, Span, advance, apply_white_balance, ask, ask_light, begin_color, begin_light, finish_color, finish_light, first_stage, gamut_softclip, mix_byte, needs_pivot, next_stage, span_middle};
use retouch::double::Double;
use retouch::export::can_resample;
use retouch::freqsep::normalise;
use retouch::geometry::{Geometry, apply_geometry, fits_geometry};
use retouch::guardrail::{Damage, artifact_text, check, clamp, edges_usable, goodness, is_artifact, target_for};
use retouch::lch::Lch;
use retouch::params::Edges;
use retouch::pipeline::{Adjustments, ColorGrade, DefakeColor, HslRegions, SkinTone, ToneMapMode, WhiteBalance};
use retouch::raster::RgbImage;
use retouch::reference::{begin_match, cast_vec, matched, ref_score, ref_step};
use retouch::sharpen::{SceneKind, Tint, adaptive_sharpen, classify_scene, sharpen_planes, soft_point};
use retouch::single::Single;
use retouch::spatial::blur_exponent_of;
use retouch::tonemap::{classify_tonality, tonal_adjustments};
use retouch::transfer::{light_base, linear_to_srgb, needs_root, srgb_to_linear};
use zentone::{AgxLook, ToneMap, ToneMapCurve};

/// A float as the library's number.
fn s(x: f32) -> Single {
    Single { bits: x.to_bits() }
}

/// The library's number as a float.
fn f(x: Single) -> f32 {
    f32::from_bits(x.bits)
}

/// A double, narrowed.
fn d(x: f64) -> Single {
    s(x as f32)
}

/// A decoded picture as the library's.
fn from_image(img: &image::DynamicImage) -> RgbImage {
    let rgb = img.to_rgb8();
    RgbImage { width: rgb.width(), height: rgb.height(), data: rgb.into_raw() }
}

/// The library's picture for encoding.
fn to_image(img: RgbImage) -> image::RgbImage {
    image::RgbImage::from_raw(img.width, img.height, img.data).expect("three bytes for each pixel")
}

/// One pixel.
fn get(img: &RgbImage, x: u32, y: u32) -> [u8; 3] {
    let i = (y as usize * img.width as usize + x as usize) * 3;
    [img.data[i], img.data[i + 1], img.data[i + 2]]
}

/// The tone curve of a mode.
fn curve(mode: ToneMapMode) -> Option<ToneMapCurve> {
    match mode {
        ToneMapMode::Off => None,
        ToneMapMode::Agx => Some(ToneMapCurve::Agx(AgxLook::Default)),
        ToneMapMode::Filmic => Some(ToneMapCurve::HableFilmic),
    }
}

/// The light of a byte.
fn light(b: u8) -> Single {
    let power = match light_base(b) {
        Some(x) => f(x).powf(2.4),
        None => 0.0,
    };
    srgb_to_linear(b, s(power))
}

/// The byte of an amount of light.
fn byte(l: f32) -> u8 {
    let root = if needs_root(s(l)) { l.powf(1.0 / 2.4) } else { 0.0 };
    linear_to_srgb(s(l), s(root))
}

/// A pixel in the colour space of the stages. The conversion works on floats.
fn oklch_of(p: [u8; 3]) -> Oklch<f32> {
    LinSrgb::new(f(light(p[0])), f(light(p[1])), f(light(p[2]))).into_color()
}

fn to_lch(c: Oklch<f32>) -> Lch {
    Lch { l: s(c.l), c: s(c.chroma), h: s(c.hue.into_raw_degrees()) }
}

fn to_light(p: &Lch) -> LinSrgb<f32> {
    Oklch::new(f(p.l), f(p.c), OklabHue::from_degrees(f(p.h))).into_color()
}

fn inside(lin: LinSrgb<f32>) -> bool {
    in_gamut(s(lin.red), s(lin.green), s(lin.blue))
}

/// The light of a colour, with its chroma lowered until it can be shown.
fn shown(p: &Lch) -> LinSrgb<f32> {
    let lin = to_light(p);
    if inside(lin) {
        return lin;
    }
    let mut span = Span { lo: s(0.0), hi: p.c };
    for _ in 0..HALVINGS {
        let middle = Lch { l: p.l, c: span_middle(&span), h: p.h };
        span = gamut_softclip(&span, inside(to_light(&middle)));
    }
    to_light(&Lch { l: p.l, c: span.lo, h: p.h })
}

/// What a stage of the development asked for.
fn answer(a: &Ask) -> [Single; 4] {
    let z = s(0.0);
    match a {
        Ask::Power(x) => [s(f(*x).powf(1.5)), z, z, z],
        Ask::Bands(b) => {
            let sat = (f(b.w1) * f(b.s1).ln() + f(b.w2) * f(b.s2).ln()).exp();
            let light = (f(b.w1) * f(b.l1).ln() + f(b.w2) * f(b.l2).ln()).exp();
            [s(sat), s(light), z, z]
        }
        Ask::Exp(x) => [s(f(*x).exp()), z, z, z],
        Ask::ExpPair(x, y) => [s(f(*x).exp()), s(f(*y).exp()), z, z],
        Ask::ExpFour(v) => [
            s(f(v[0]).exp()),
            s(f(v[1]).exp()),
            s(f(v[2]).exp()),
            s(f(v[3]).exp()),
        ],
        Ask::Done => [z, z, z, z],
    }
}

/// What the tone of a pixel's light asked for. The curves work on floats.
fn tone(p: &Light, a: &LightAsk) -> Light {
    match a {
        LightAsk::Curve(mode) => match curve(*mode) {
            Some(c) => {
                let m = c.map_rgb([f(p.r), f(p.g), f(p.b)]);
                Light { r: s(m[0]), g: s(m[1]), b: s(m[2]) }
            }
            None => *p,
        },
        LightAsk::Tanh(x) => {
            let t = s(f(*x).tanh());
            Light { r: t, g: t, b: t }
        }
        LightAsk::Done => *p,
    }
}

/// What is the same for all pixels of a picture.
struct Setting {
    exposure: Single,
    pivot: Single,
    lift: Single,
}

fn develop(inp: &[u8], adj: &Adjustments, set: &Setting) -> [u8; 3] {
    let p = Light { r: light(inp[0]), g: light(inp[1]), b: light(inp[2]) };
    let p = begin_light(p, set.exposure, adj);
    let a = ask_light(p, set.exposure, adj);
    let p = finish_light(p, &a, tone(&p, &a));
    let colour: Oklch<f32> = LinSrgb::new(f(p.r), f(p.g), f(p.b)).into_color();
    let mut state = begin_color(to_lch(colour), adj);
    loop {
        match ask(&state, adj) {
            Ask::Done => break,
            a => state = advance(&state, adj, set.pivot, set.lift, answer(&a)),
        }
    }
    let lin = shown(&finish_color(&state));
    [byte(lin.red), byte(lin.green), byte(lin.blue)]
}

/// The mean lightness of a picture, summed in double width.
fn mean_lightness(data: &[u8]) -> f32 {
    let sum: f64 = data.par_chunks(3).map(|p| oklch_of([p[0], p[1], p[2]]).l as f64).sum();
    (sum / (data.len() / 3) as f64) as f32
}

/// Develops all pixels of a picture.
fn develop_all(img: &RgbImage, adj: &Adjustments) -> RgbImage {
    let pivot = if needs_pivot(&adj.grade) { mean_lightness(&img.data) } else { 0.5 };
    let set = Setting {
        exposure: s(2.0f32.powf(f(adj.exposure_ev))),
        pivot: s(pivot),
        lift: s(2.0f32.powf(-f(adj.grade.brightness_lift))),
    };
    let mut data = vec![0u8; img.data.len()];
    data.par_chunks_mut(3).zip(img.data.par_chunks(3)).for_each(|(out, inp)| {
        out.copy_from_slice(&develop(inp, adj, &set));
    });
    RgbImage { width: img.width, height: img.height, data }
}

/// Develops a picture, and blends it with the original by its share.
fn develop_picture(img: &RgbImage, adj: &Adjustments) -> RgbImage {
    let mut before = img.clone();
    let mut out = img.clone();
    let mut stage = first_stage(adj);
    while stage != PictureStage::End {
        match stage {
            PictureStage::Geometry => before = transform(&before, &adj.geometry),
            PictureStage::Develop => out = develop_all(&before, adj),
            PictureStage::Detail => out = apply_detail(out, &adj.detail),
            PictureStage::Advanced => out = retouch(out, &adj.advanced),
            _ => out.data.par_iter_mut().zip(before.data.par_iter()).for_each(|(new, old)| {
                *new = mix_byte(adj.mix, *new, *old);
            }),
        }
        stage = next_stage(stage, adj);
    }
    out
}

/// Applies a geometry to a picture. The cosine and the sine are taken here: they are floats.
fn transform(img: &RgbImage, g: &Geometry) -> RgbImage {
    let rad = f(g.rotate_deg).to_radians();
    let (cos, sin) = (s(rad.cos()), s(rad.sin()));
    if !fits_geometry(img.width, img.height, g, cos, sin) {
        panic!("the geometry does not fit a picture of {}x{}", img.width, img.height);
    }
    apply_geometry(img.clone(), g, cos, sin)
}

/// The weights of a smoothing.
fn weights(radius: u32) -> Vec<Single> {
    if radius == 0 {
        return Vec::new();
    }
    let r = radius as i32;
    (-r..=r).map(|d| s(f(blur_exponent_of(d, radius)).exp())).collect()
}

fn bilateral_denoise(img: &RgbImage, strength: Single) -> RgbImage {
    let raw: Vec<Single> = (0..25).map(|t| s(f(place_exponent_of(t)).exp())).collect();
    let places = normalise(&raw);
    let factor = range_factor(strength);
    let w = img.width;
    let mut data = vec![0u8; img.data.len()];
    data.par_chunks_mut(3).enumerate().for_each(|(i, out)| {
        let (x, y) = (i as u32 % w, i as u32 / w);
        let ranges: Vec<Single> =
            range_points(img, x, y, factor).iter().map(|p| s(f(*p).exp())).collect();
        let (r, g, b) = denoise_pixel(img, x, y, &places, &ranges);
        out.copy_from_slice(&[r, g, b]);
    });
    RgbImage { width: img.width, height: img.height, data }
}

/// A pixel in the colour space of the sharpening. The conversion works on floats.
fn oklab_of(p: &[u8]) -> Oklab<f32> {
    LinSrgb::new(f(light(p[0])), f(light(p[1])), f(light(p[2]))).into_color()
}

fn scene_of(img: &RgbImage) -> SceneKind {
    let step = sampling_step(img.width, img.height, SAMPLES);
    let mut v = Vec::new();
    for y in (0..img.height).step_by(step as usize) {
        for x in (0..img.width).step_by(step as usize) {
            let ok = oklab_of(&get(img, x, y));
            v.push(Tint {
                l: s(ok.l),
                c: s(ok.a.hypot(ok.b)),
                angle: s(ok.a.atan2(ok.b)),
            });
        }
    }
    let w = (img.width as u64).div_ceil(step as u64) as usize;
    if v.is_empty() {
        panic!("an empty picture has no scene");
    }
    let h = v.len() / w;
    classify_scene(&v, w, h).kind
}

/// Sharpens the lightness of a picture that has `scale` of its former size.
fn sharpen(img: &RgbImage, scale: Single, strength: Single) -> RgbImage {
    let recipe = scene_of(img).recipe();
    let (w, h) = (img.width as usize, img.height as usize);
    let labs: Vec<Oklab<f32>> = img.data.par_chunks(3).map(oklab_of).collect();
    let tints: Vec<Tint> = labs
        .iter()
        .map(|ok| Tint {
            l: s(ok.l),
            c: s((ok.a * ok.a + ok.b * ok.b).sqrt()),
            angle: s(ok.a.atan2(ok.b)),
        })
        .collect();
    let planes = sharpen_planes(
        &tints,
        w,
        h,
        &recipe,
        scale,
        &weights(recipe.radius_small),
        &weights(recipe.radius_large),
    );
    let tanh: Vec<Single> = planes
        .detail
        .iter()
        .zip(planes.boost.iter())
        .map(|(a, b)| s(f(soft_point(*a, *b)).tanh()))
        .collect();
    let l = adaptive_sharpen(&tints, &planes, &tanh, &recipe, strength);
    let mut data = vec![0u8; img.data.len()];
    data.par_chunks_mut(3).enumerate().for_each(|(i, out)| {
        let lin: LinSrgb<f32> = Oklab::new(f(l[i]), labs[i].a, labs[i].b).into_color();
        out.copy_from_slice(&[byte(lin.red), byte(lin.green), byte(lin.blue)]);
    });
    RgbImage { width: img.width, height: img.height, data }
}

/// The finishing stages that are set, one after the other.
fn apply_detail(img: RgbImage, d: &Detail) -> RgbImage {
    let mut out = img;
    for step in detail_steps(d) {
        out = match step {
            Finish::Denoise => bilateral_denoise(&out, d.denoise),
            Finish::Sharpen => sharpen(&out, s(1.0), d.sharpen),
            Finish::Glow => glow(&out, d.diffuse, &weights(GLOW_RADIUS)),
        };
    }
    out
}

/// Both advanced stages.
fn retouch(img: RgbImage, a: &Advanced) -> RgbImage {
    let likeness: Vec<Single> = img
        .data
        .par_chunks(3)
        .map(|p| {
            let e = retouch::advanced::skin_exponent(
                s(p[0] as f32),
                s(p[1] as f32),
                s(p[2] as f32),
                a.freqsep.mask_feather,
            );
            s(f(e).exp())
        })
        .collect();
    let [a1, a2, a3, a4] = pyramid_radii();
    apply_advanced(
        img,
        a,
        &weights(skin_radius_of(a.freqsep.smoothness)),
        &likeness,
        &weights(a1),
        &weights(a2),
        &weights(a3),
        &weights(a4),
    )
}

/// A pixel for the measurements. The conversion works on floats.
fn ok_of(p: &[u8]) -> Oklch<f32> {
    Srgb::new(p[0] as f32 / 255.0, p[1] as f32 / 255.0, p[2] as f32 / 255.0)
        .into_linear()
        .into_color()
}

fn reading(p: &[u8]) -> Reading {
    let ok = ok_of(p);
    let lin: LinSrgb<f32> = ok.into_color();
    let hue = ok.hue.into_degrees();
    Reading {
        l: s(ok.l),
        c: s(ok.chroma),
        hue: s(hue.rem_euclid(360.0)),
        cos: s(hue.rem_euclid(360.0).to_radians().cos()),
        sin: s(hue.rem_euclid(360.0).to_radians().sin()),
        skin_hue: s(f(retouch::analyze::skin_exponent(s(hue))).exp()),
        inside: in_gamut(s(lin.red), s(lin.green), s(lin.blue)),
    }
}

/// The angle of a point of the plane in degrees, 0 to 360.
fn angle(sin: Double, cos: Double) -> f64 {
    let (y, x) = (f64::from_bits(sin.bits), f64::from_bits(cos.bits));
    (y.atan2(x) * 180.0 / std::f64::consts::PI).rem_euclid(360.0)
}

/// Measures a picture.
fn measured(img: &RgbImage) -> ImageMetrics {
    let v: Vec<Reading> = img.data.chunks_exact(3).map(reading).collect();
    if v.len() > 0x20_0000_0000_0000 {
        panic!("too many pixels to count");
    }
    let sums = add_up(&v);
    let whole = d(angle(sums.sin, sums.cos));
    let skin = d(angle(sums.skin_sin, sums.skin_cos));
    retouch::analyze::analyze(img, &v, whole, skin)
}

/// Measures the colours of a picture.
fn colors_of(img: &RgbImage, m: &ImageMetrics) -> ColorMetrics {
    let mut v = Vec::new();
    let mut turns = Vec::new();
    for p in img.data.chunks_exact(3) {
        let ok = oklch_of([p[0], p[1], p[2]]);
        let h = ok.hue.into_positive_degrees();
        v.push(Lch { l: s(ok.l), c: s(ok.chroma), h: s(h) });
        turns.push((s(h.to_radians().cos()), s(h.to_radians().sin())));
    }
    let t = count_colors(&v);
    let sums = add_colors(&v, &turns);
    let (a, b) = cast_means(&t, &sums);
    let cast = (-f(b)).atan2(-f(a)).to_degrees().rem_euclid(360.0);
    let mean = f64::from_bits(sums.sin.bits).atan2(f64::from_bits(sums.cos.bits));
    analyze_color(m, &v, &turns, s(cast), d(mean.to_degrees().rem_euclid(360.0)))
}

/// Samples of a picture in a grid, under a white balance where one is given. The conversion
/// works on floats.
fn samples(img: &RgbImage, limit: u32, wb: Option<&WhiteBalance>) -> Vec<LabSample> {
    let step = sampling_step(img.width, img.height, limit) as usize;
    let mut v = Vec::new();
    for y in (0..img.height).step_by(step) {
        for x in (0..img.width).step_by(step) {
            let p = get(img, x, y);
            let ok: Oklab<f32> = match wb {
                None => Srgb::new(
                    p[0] as f32 / 255.0,
                    p[1] as f32 / 255.0,
                    p[2] as f32 / 255.0,
                )
                .into_linear()
                .into_color(),
                Some(wb) => {
                    let q = Light { r: light(p[0]), g: light(p[1]), b: light(p[2]) };
                    let q = apply_white_balance(q, wb);
                    LinSrgb::new(f(q.r), f(q.g), f(q.b)).into_color()
                }
            };
            v.push(LabSample {
                l: s(ok.l),
                a: s(ok.a),
                b: s(ok.b),
                c: s(ok.a.hypot(ok.b)),
                hue: s(ok.a.atan2(ok.b).to_degrees().rem_euclid(360.0)),
            });
        }
    }
    v
}

/// Measures a picture for its neutral balance.
fn neutral_balance(img: &RgbImage, smart: bool) -> AutoBalance {
    if img.width == 0 || img.height == 0 {
        return AutoBalance::default();
    }
    let v = samples(img, SAMPLES, None);
    let again = samples(img, SAMPLES_AGAIN, Some(&cast_balance(&v)));
    let cm = colors_of(img, &measured(img));
    auto_neutral_balance(&v, &again, smart, balance_plan(&cm))
}

/// The first settings for a picture, by its tonality.
fn tonal(img: &RgbImage, smart: bool, strength: f32) -> Adjustments {
    tonal_adjustments(&measured(img), &neutral_balance(img, smart), smart, s(strength))
}

/// What an automatic development did.
struct AutoResult {
    metrics_before: ImageMetrics,
    metrics_after: ImageMetrics,
    guardrail_passed: bool,
    log: Vec<String>,
    applied_params: Vec<(String, Single)>,
    rounds: usize,
    ref_metrics: Option<ImageMetrics>,
    adjustments: Adjustments,
}

/// Where the bent sliders end.
fn edges() -> Edges {
    let e = Edges {
        knee: s(2.2f32.tanh()),
        third: s((-(3.0f32.ln())).exp()),
        triple: s(3.0f32.ln().exp()),
    };
    if !edges_usable(&e) {
        panic!("the sliders have no range");
    }
    e
}

fn verdict(a: &Option<Damage>, m: &ImageMetrics, base: &ImageMetrics) -> String {
    match a {
        Some(d) => format!("伪影: {}", artifact_text(*d, m, base)),
        None => "通过".to_string(),
    }
}

/// The picture at the size at which rounds are rendered.
fn small_copy(img: &RgbImage, limit: u32) -> RgbImage {
    let (w, h) = (img.width, img.height);
    if w == 0 || h == 0 || limit as u64 * h as u64 > u32::MAX as u64 {
        panic!("the picture cannot be made smaller");
    }
    if let Some((bw, bh)) = proxy_size(w, h, limit) {
        if !can_resample(w, h, bw, bh) {
            panic!("the picture cannot be made smaller");
        }
    }
    proxy(img, limit)
}

/// Develops a picture in rounds; `decide` gives the settings to try from the measurements.
fn run_auto_loop<F>(
    img: &RgbImage,
    proxy_max: u32,
    rounds: usize,
    mut decide: F,
) -> (RgbImage, AutoResult)
where
    F: FnMut(&ImageMetrics, &Adjustments, usize, &str) -> Adjustments,
{
    let e = edges();
    let base = measured(img);
    let small = small_copy(img, proxy_max);
    let mut first = decide(&base, &Adjustments::photo_default(), 0, "initial");
    clamp(&mut first, &e);
    let t = classify_tonality(&base);
    let target = target_for(&t);
    let first_m = measured(&develop_picture(&small, &first));
    let mut search: Search = begin_search(&first, &first_m, &base, &t, &target);
    let mut log = Vec::new();
    for r in 0..rounds {
        let m = measured(&develop_picture(&small, &search.adj));
        let score = goodness(&m, &target);
        log.push(format!(
            "[轮{}] goodness={:.2} {} | median_l={:.3} std_l={:.3} mean_c={:.3}",
            r,
            f(score),
            verdict(&is_artifact(&m, &base, &t), &m, &base),
            f(m.tone.median_l),
            f(m.tone.std_l),
            f(m.color.mean_c)
        ));
        search = judge_round(&search, &m, &base, &t, score);
        let next = decide(&m, &search.adj, r, "refine");
        search = next_round(&search, &next, &e);
    }
    let adjustments = search.best_adj;
    let out = develop_picture(img, &adjustments);
    let after = measured(&out);
    let result = AutoResult {
        metrics_before: base,
        metrics_after: after,
        guardrail_passed: check(&after, &base).passed,
        log,
        applied_params: applied_params(&adjustments, &e),
        rounds,
        ref_metrics: None,
        adjustments,
    };
    (out, result)
}

/// The picture blended from three developments, by the lightness of the original.
fn zones(img: &RgbImage, a: &Adjustments, strength: Single) -> RgbImage {
    let plain = develop_picture(img, a);
    let dark = develop_picture(img, &shadow_version(a, strength));
    let bright = develop_picture(img, &highlight_version(a, strength));
    if plain.data.len() != img.data.len() {
        panic!("a blend needs pictures of one size");
    }
    zone_blend(&plain, &dark, &bright, img)
}

/// Develops a picture on its own.
fn run_auto(
    img: &RgbImage,
    proxy_max: u32,
    rounds: usize,
    strength: f32,
) -> (RgbImage, AutoResult) {
    let base = measured(img);
    let t = classify_tonality(&base);
    let target = target_for(&t);
    let cm = colors_of(img, &base);
    let plan = color_plan(&cm, &scene_rules(cm.scene), s(strength));
    let limit = proxy_limit(proxy_max);
    let count = round_count(rounds);
    let (_, mut result) = run_auto_loop(img, limit, count, |m, prev, _, stage| {
        if stage == "initial" {
            tonal(img, true, strength)
        } else {
            refine_correction(m, prev, &target, &t, s(strength))
        }
    });
    let planned = with_plan(&result.adjustments, &plan);
    let before = Adjustments { advanced: result.adjustments.advanced, ..planned };
    let out = zones(img, &before, s(strength));
    result.adjustments = planned;
    result.metrics_after = measured(&out);
    result.guardrail_passed = is_artifact(&result.metrics_after, &base, &t).is_none();
    result.log.insert(
        0,
        format!(
            "一键中性·影调引擎({}) + 色彩引擎({:?}) + 闭环{}轮 + 分区融合：色温 {:.2}/色调 {:.2}/曝光 {:.2}/tone_map {:?}",
            t.label,
            cm.scene,
            count,
            f(planned.white_balance.temp),
            f(planned.white_balance.tint),
            f(planned.exposure_ev),
            planned.tone_map
        ),
    );
    (out, result)
}

/// The cast of a picture as a point of the plane.
fn cast_of(m: &ImageMetrics) -> (Single, Single) {
    let r = f(m.cast.hue_deg).to_radians();
    cast_vec(m, s(r.cos()), s(r.sin()))
}

/// Develops a picture towards the measurements of another.
fn run_reference_match(
    img: &RgbImage,
    ref_m: &ImageMetrics,
    proxy_max: u32,
    rounds: usize,
    strength: f32,
) -> (RgbImage, AutoResult) {
    let e = edges();
    let base = measured(img);
    let t = classify_tonality(&base);
    let mut first = tonal(img, true, 1.0);
    clamp(&mut first, &e);
    let mut search = begin_match(&first);
    let small = small_copy(img, proxy_max);
    let mut log = Vec::new();
    let mut passed = true;
    for r in 0..rounds {
        let m = measured(&develop_picture(&small, &search.adj));
        let damage = is_artifact(&m, &base, &t);
        let score = ref_score(&m, ref_m, cast_of(&m), cast_of(ref_m));
        passed = damage.is_none();
        log.push(format!(
            "[轮{}] 距离分={:.2} 护栏={} | mean_l={:.3} std_l={:.3} mean_c={:.3} hue={:.1}°",
            r,
            f(score),
            verdict(&damage, &m, &base),
            f(m.tone.mean_l),
            f(m.tone.std_l),
            f(m.color.mean_c),
            f(m.color.mean_h_deg)
        ));
        search = judge_round(&search, &m, &base, &t, score);
        let next = ref_step(&search.adj, &m, ref_m, cast_of(&m), cast_of(ref_m));
        search = next_round(&search, &next, &e);
    }
    let adjustments = matched(&search.best_adj, s(strength));
    let out = develop_picture(img, &adjustments);
    let after = measured(&out);
    let result = AutoResult {
        metrics_before: base,
        metrics_after: after,
        guardrail_passed: passed,
        log,
        applied_params: applied_params(&adjustments, &e),
        rounds,
        ref_metrics: Some(*ref_m),
        adjustments,
    };
    (out, result)
}

fn render(img: &DynamicImage, adj: &Adjustments) -> image::RgbImage {
    to_image(develop_picture(&from_image(img), adj))
}

/// OKLCH round-trip must not introduce perceivable color shift when no
/// adjustments are applied.
#[test]
fn oklch_roundtrip_no_color_shift() {
    let mut img = image::RgbImage::new(128, 128);
    for (x, y, px) in img.enumerate_pixels_mut() {
        let v = ((x * 7 + y * 13) % 256) as u8;
        *px = Rgb([v, v.wrapping_mul(3), v.wrapping_mul(5)]);
    }
    let dyn_img = DynamicImage::ImageRgb8(img.clone());
    let out = render(&dyn_img, &Adjustments::identity());

    let mut max_diff = 0i32;
    for (p, q) in img.pixels().zip(out.pixels()) {
        for i in 0..3 {
            let d = (p.0[i] as i32 - q.0[i] as i32).abs();
            if d > max_diff {
                max_diff = d;
            }
        }
    }
    assert!(
        max_diff <= 2,
        "OKLCH roundtrip max diff too high: {}",
        max_diff
    );
}

/// Identity adjustments keep every byte.
#[test]
fn m1_identity_matches_m0() {
    let mut img = image::RgbImage::new(64, 64);
    for (x, y, px) in img.enumerate_pixels_mut() {
        let v = ((x * 11 + y * 17) % 256) as u8;
        *px = Rgb([v, (v / 2), (255 - v)]);
    }
    let dyn_img = DynamicImage::ImageRgb8(img.clone());
    let out = render(&dyn_img, &Adjustments::identity());
    for (p, q) in img.pixels().zip(out.pixels()) {
        for i in 0..3 {
            assert_eq!(p.0[i], q.0[i], "identity path changed pixel");
        }
    }
}

#[test]
fn render_identity_is_original_image() {
    // 端到端确认：用 identity 渲染的结果，与原图逐像素一致（与 import 零修改呼应）。
    let mut img = image::RgbImage::new(96, 96);
    for (x, y, px) in img.enumerate_pixels_mut() {
        let v = ((x * 5 + y * 19) % 256) as u8;
        *px = Rgb([v, v.wrapping_mul(2), v.wrapping_mul(7)]);
    }
    let dyn_img = DynamicImage::ImageRgb8(img.clone());
    let out = render(&dyn_img, &Adjustments::import_baseline_adj(true, &Adjustments::photo_default()));
    let mut max_diff = 0i32;
    for (p, q) in img.pixels().zip(out.pixels()) {
        for i in 0..3 {
            let d = (p.0[i] as i32 - q.0[i] as i32).abs();
            if d > max_diff {
                max_diff = d;
            }
        }
    }
    assert!(max_diff <= 2, "首图导入(identity)渲染与原图差异过大: {}", max_diff);
}

/// Exposure must brighten the image.
#[test]
fn exposure_brightens() {
    let img = DynamicImage::ImageRgb8(image::RgbImage::from_pixel(8, 8, Rgb([100u8, 100, 100])));
    let id = render(&img, &Adjustments::identity());
    let lit = render(
        &img,
        &Adjustments {
            exposure_ev: s(2.0),
            ..Default::default()
        },
    );
    let id_y = id.get_pixel(0, 0).0[0] as f32;
    let lit_y = lit.get_pixel(0, 0).0[0] as f32;
    assert!(
        lit_y > id_y + 50.0,
        "exposure +2EV should brighten a lot ({} vs {})",
        lit_y,
        id_y
    );
}

/// Tone map must compress highlights (anti fake-color).
#[test]
fn tone_map_compresses_highlights() {
    let shoulder = curve(ToneMapMode::Agx).expect("Agx curve");
    let over = shoulder.map_rgb([8.0, 8.0, 8.0]);
    for c in over {
        assert!(c.is_finite(), "tone map produced non-finite value");
        assert!(c >= 0.0, "tone map produced negative value: {}", c);
        assert!(c <= 1.0 + 1e-4, "tone map exceeded SDR range: {}", c);
    }
    let red = DynamicImage::ImageRgb8(image::RgbImage::from_pixel(4, 4, Rgb([255u8, 40, 40])));
    let no_tm = render(&red, &Adjustments::identity());
    let agx = render(
        &red,
        &Adjustments {
            exposure_ev: s(2.0),
            tone_map: ToneMapMode::Agx,
            ..Default::default()
        },
    );
    let nt = no_tm.get_pixel(0, 0).0;
    let ax = agx.get_pixel(0, 0).0;
    let nt_sat = (nt[0] as i32 - nt[1] as i32).abs() + (nt[0] as i32 - nt[2] as i32).abs();
    let ax_sat = (ax[0] as i32 - ax[1] as i32).abs() + (ax[0] as i32 - ax[2] as i32).abs();
    assert!(
        ax_sat <= nt_sat,
        "AgX should not increase highlight saturation ({} vs {})",
        ax_sat,
        nt_sat
    );
}

/// Filmic mode must also produce finite, in-range SDR output.
#[test]
fn filmic_mode_valid() {
    let shoulder = curve(ToneMapMode::Filmic).expect("Filmic curve");
    let out = shoulder.map_rgb([4.0, 1.0, 0.25]);
    for c in out {
        assert!(
            c.is_finite() && c >= 0.0 && c <= 1.0 + 1e-4,
            "filmic out of range: {}",
            c
        );
    }
}

/// De-fake-color OFF must be bit-for-bit identity (product safety).
#[test]
fn defake_off_is_identity() {
    let mut img = image::RgbImage::new(32, 32);
    for (x, y, px) in img.enumerate_pixels_mut() {
        let v = ((x * 5 + y * 9) % 256) as u8;
        *px = Rgb([v, 255 - v, v / 2]);
    }
    let dyn_img = DynamicImage::ImageRgb8(img.clone());
    let out = render(&dyn_img, &Adjustments::identity());
    for (p, q) in img.pixels().zip(out.pixels()) {
        for i in 0..3 {
            assert_eq!(p.0[i], q.0[i], "defake-off changed pixel");
        }
    }
}

/// Chroma decay must desaturate a bright saturated pixel, never invert or
/// shift its hue toward another color (the fake-color failure mode).
#[test]
fn chroma_decay_desaturates_highlight_no_hue_shift() {
    // A bright, saturated blue-ish highlight.
    let px = Rgb([180u8, 200, 250]);
    let img = DynamicImage::ImageRgb8(image::RgbImage::from_pixel(4, 4, px));
    let mut adj = Adjustments::identity();
    adj.defake = DefakeColor {
        enabled: true,
        chroma_decay: s(0.5),
        fix_sky: false,
        protect_skin: false,
        gamut_softclip: true,
    };
    let out = render(&img, &adj);
    let o = out.get_pixel(0, 0).0;

    // Measure chroma via OKLCH on both.
    let c_in = {
        let lin = LinSrgb::new(
            f(light(px.0[0])),
            f(light(px.0[1])),
            f(light(px.0[2])),
        );
        let ok: Oklch<f32> = lin.into_color();
        ok.chroma
    };
    let (c_out, h_in, h_out) = {
        let lin_out = LinSrgb::new(
            f(light(o[0])),
            f(light(o[1])),
            f(light(o[2])),
        );
        let ok_out: Oklch<f32> = lin_out.into_color();
        let lin_in = LinSrgb::new(
            f(light(px.0[0])),
            f(light(px.0[1])),
            f(light(px.0[2])),
        );
        let ok_in: Oklch<f32> = lin_in.into_color();
        (
            ok_out.chroma,
            ok_in.hue.into_positive_degrees(),
            ok_out.hue.into_positive_degrees(),
        )
    };
    assert!(
        c_out < c_in,
        "chroma decay should reduce chroma ({} -> {})",
        c_in,
        c_out
    );
    // Hue must be essentially unchanged (no fake color). Allow small
    // quantization wobble (< 5 deg).
    let dh = (h_in - h_out).abs().min(360.0 - (h_in - h_out).abs());
    assert!(
        dh < 5.0,
        "hue must not drift under chroma decay ({} vs {})",
        h_in,
        h_out
    );
}

/// Gamut soft-clip must always land inside sRGB and keep hue stable.
#[test]
fn gamut_softclip_stays_in_gamut() {
    // Construct an OKLCH color that is deliberately out of sRGB gamut
    // (very high chroma at mid lightness).
    let oob = Lch { l: s(0.7), c: s(0.4), h: s(150.0) };
    let lin = shown(&oob);
    assert!(inside(lin), "soft-clip result must be in sRGB gamut");
    // Round-trip its hue: it should stay near 150 deg (green-ish).
    let back: Oklch<f32> = lin.into_color();
    let h = back.hue.into_positive_degrees();
    let dh = (h - 150.0).abs().min(360.0 - (h - 150.0).abs());
    assert!(dh < 8.0, "soft-clip should preserve hue (~150), got {}", h);
}

/// White balance warm (temp>0) must raise R and lower B on a neutral pixel,
/// i.e. produce a warmer cast, without touching G or shifting lightness much.
#[test]
fn white_balance_warm_raises_r_lowers_b() {
    // Neutral mid-gray so the only asymmetry comes from the temp gain.
    let px = Rgb([128u8, 128, 128]);
    let img = DynamicImage::ImageRgb8(image::RgbImage::from_pixel(4, 4, px));
    let adj = Adjustments {
        white_balance: WhiteBalance {
            temp: s(0.5),
            tint: s(0.0),
        },
        ..Default::default()
    };
    let out = render(&img, &adj).get_pixel(0, 0).0;
    // temp>0 => R up, B down. So out R must exceed out B.
    assert!(
        out[0] > out[2],
        "warm WB should make R > B (got R={}, B={})",
        out[0],
        out[2]
    );
}

/// White balance cool (temp<0) must do the opposite (R down, B up).
#[test]
fn white_balance_cool_raises_b_lowers_r() {
    let px = Rgb([128u8, 128, 128]);
    let img = DynamicImage::ImageRgb8(image::RgbImage::from_pixel(4, 4, px));
    let adj = Adjustments {
        white_balance: WhiteBalance {
            temp: s(-0.5),
            tint: s(0.0),
        },
        ..Default::default()
    };
    let out = render(&img, &adj).get_pixel(0, 0).0;
    assert!(
        out[2] > out[0],
        "cool WB should make B > R (got R={}, B={})",
        out[0],
        out[2]
    );
}

/// Saturation > 1 must increase chroma WITHOUT shifting hue (no fake color),
/// and the color-grade default must be a strict identity.
#[test]
fn saturation_boosts_chroma_no_hue_shift() {
    let px = Rgb([120u8, 160, 200]); // mild blue, well within sRGB
    let img = DynamicImage::ImageRgb8(image::RgbImage::from_pixel(4, 4, px));

    // identity color grade
    let id = render(&img, &Adjustments::default()).get_pixel(0, 0).0;

    // saturation x2
    let adj = Adjustments {
        color: ColorGrade {
            saturation: s(2.0),
            ..Default::default()
        },
        ..Default::default()
    };
    let out = render(&img, &adj).get_pixel(0, 0).0;

    let c_in = oklch_chroma(px.0);
    let (c_id, c_out, h_id, h_out) = {
        let ci = oklch_chroma(id);
        let co = oklch_chroma(out);
        let hi = oklch_hue(px.0);
        let ho = oklch_hue(out);
        (ci, co, hi, ho)
    };
    // identity color grade leaves chroma unchanged (within quant noise)
    assert!(
        (c_id - c_in).abs() < 0.004,
        "color-grade default should be identity (C {} -> {})",
        c_in,
        c_id
    );
    // saturation x2 boosts chroma
    assert!(
        c_out > c_in + 0.004,
        "saturation x2 should boost chroma ({} -> {})",
        c_in,
        c_out
    );
    // hue must be stable
    let dh = (h_id - h_out).abs().min(360.0 - (h_id - h_out).abs());
    assert!(
        dh < 5.0,
        "saturation must not shift hue ({} vs {})",
        h_id,
        h_out
    );
}

/// Split-tone must shift shadow hue toward split_shadow, but leave the
/// highlight essentially untouched. We assert the *relative* behavior
/// (shadow moves clearly more than highlight) rather than an exact angle,
/// because the shadow weight `1 - smoothstep(0,0.5,l)` intentionally tapers
/// with lightness and the exact value is a tuning detail.
#[test]
fn split_tone_shifts_shadows_only() {
    // Dark pixel (shadow) and a bright pixel (highlight), same hue family.
    let dark = Rgb([40u8, 10, 80]);
    let bright = Rgb([220u8, 220, 240]);
    let adj = Adjustments {
        color: ColorGrade {
            split_shadow: s(40.0),
            split_highlight: s(0.0),
            ..Default::default()
        },
        ..Default::default()
    };
    let d_out = render(
        &DynamicImage::ImageRgb8(image::RgbImage::from_pixel(4, 4, dark)),
        &adj,
    )
    .get_pixel(0, 0)
    .0;
    let b_out = render(
        &DynamicImage::ImageRgb8(image::RgbImage::from_pixel(4, 4, bright)),
        &adj,
    )
    .get_pixel(0, 0)
    .0;
    let h_d = oklch_hue(d_out);
    let h_b = oklch_hue(b_out);
    let h_din = oklch_hue(dark.0);
    // dark pixel hue should move toward split_shadow (positive, clearly > 0)
    let dh_d = (h_d - h_din).rem_euclid(360.0);
    let dh_d_signed = if dh_d > 180.0 { dh_d - 360.0 } else { dh_d };
    assert!(
        dh_d_signed > 8.0,
        "shadow hue should clearly shift toward split_shadow (got {})",
        dh_d_signed
    );
    // bright pixel (highlight) hue should be essentially untouched
    let h_bin = oklch_hue(bright.0);
    let dh_b = (h_b - h_bin).abs().min(360.0 - (h_b - h_bin).abs());
    assert!(
        dh_b < 8.0,
        "highlight hue should be untouched by shadow split (got {})",
        dh_b
    );
    // and shadows must shift MORE than highlights
    assert!(
        dh_d_signed > dh_b + 5.0,
        "shadow should shift more than highlight ({} vs {})",
        dh_d_signed,
        dh_b
    );
}

fn oklch_chroma(px: [u8; 3]) -> f32 {
    let lin = LinSrgb::new(
        f(light(px[0])),
        f(light(px[1])),
        f(light(px[2])),
    );
    let ok: Oklch<f32> = lin.into_color();
    ok.chroma
}
fn oklch_hue(px: [u8; 3]) -> f32 {
    let lin = LinSrgb::new(
        f(light(px[0])),
        f(light(px[1])),
        f(light(px[2])),
    );
    let ok: Oklch<f32> = lin.into_color();
    ok.hue.into_positive_degrees()
}

/// Blue-band saturation boost must increase the chroma of a blue pixel and
/// keep its hue stable (no fake color). Default HSL must be strict identity.
#[test]
fn hsl_blue_band_boosts_sky_saturation() {
    let px = Rgb([150u8, 185, 230]); // light blue, has gamut headroom
    let img = DynamicImage::ImageRgb8(image::RgbImage::from_pixel(4, 4, px));

    // default (identity) HSL leaves chroma untouched within quant noise
    let id = render(&img, &Adjustments::default()).get_pixel(0, 0).0;
    let c_in = oklch_chroma(px.0);
    assert!(
        (oklch_chroma(id) - c_in).abs() < 0.004,
        "HSL default must be identity (C {} -> {})",
        c_in,
        oklch_chroma(id)
    );

    // blue band (index 5) saturation x1.4
    let mut hsl = HslRegions::default();
    hsl.sat_mult[5] = s(1.4);
    let adj = Adjustments {
        hsl,
        ..Default::default()
    };
    let out = render(&img, &adj).get_pixel(0, 0).0;

    let c_out = oklch_chroma(out);
    assert!(
        c_out > c_in + 0.004,
        "blue-band sat x1.4 should boost chroma ({} -> {})",
        c_in,
        c_out
    );
    // hue must be stable
    let h_in = oklch_hue(px.0);
    let h_out = oklch_hue(out);
    let dh = (h_in - h_out).abs().min(360.0 - (h_in - h_out).abs());
    assert!(
        dh < 5.0,
        "blue-band sat must not shift hue ({} vs {})",
        h_in,
        h_out
    );
}

/// Red-band hue rotation must rotate a RED pixel's hue but leave a GREEN
/// pixel untouched — proving the per-band blend isolates hues (seamless,
/// no spill into other bands).
#[test]
fn hsl_red_band_rotates_red_only() {
    // Bright, light red (high L) so rotating toward orange stays in-gamut
    // and the output hue is measurable (a dark red would get gamut-crushed
    // to near-gray and its re-read hue would be noise).
    let red_px = Rgb([255u8, 110, 110]);
    let green_px = Rgb([40u8, 200, 60]);
    let mut hsl = HslRegions::default();
    hsl.hue_shift[0] = s(30.0); // red band rotates +30 deg
    let adj = Adjustments {
        hsl,
        ..Default::default()
    };

    let r_out = render(
        &DynamicImage::ImageRgb8(image::RgbImage::from_pixel(4, 4, red_px)),
        &adj,
    )
    .get_pixel(0, 0)
    .0;
    let g_out = render(
        &DynamicImage::ImageRgb8(image::RgbImage::from_pixel(4, 4, green_px)),
        &adj,
    )
    .get_pixel(0, 0)
    .0;

    // red pixel should rotate clearly toward orange (+30 within the band)
    let h_rin = oklch_hue(red_px.0);
    let h_rout = oklch_hue(r_out);
    let dh_r = (h_rout - h_rin).rem_euclid(360.0);
    let dh_r_s = if dh_r > 180.0 { dh_r - 360.0 } else { dh_r };
    assert!(
        dh_r_s > 10.0 && dh_r_s < 50.0,
        "red-band +30 should rotate red clearly (got {})",
        dh_r_s
    );

    // green pixel (band 3) must be essentially untouched
    let h_gin = oklch_hue(green_px.0);
    let h_gout = oklch_hue(g_out);
    let dh_g = (h_gin - h_gout).abs().min(360.0 - (h_gin - h_gout).abs());
    assert!(
        dh_g < 6.0,
        "green hue must be untouched by red-band ({} vs {})",
        h_gin,
        h_gout
    );
    // and red must rotate MORE than green
    assert!(
        dh_r_s > dh_g + 8.0,
        "red should rotate more than green ({} vs {})",
        dh_r_s,
        dh_g
    );
}

/// Identity HSL must not change the image at all.
#[test]
fn hsl_identity_is_noop() {
    let mut img = image::RgbImage::new(48, 48);
    for (x, y, px) in img.enumerate_pixels_mut() {
        let v = ((x * 13 + y * 7) % 256) as u8;
        *px = Rgb([v, v.wrapping_mul(3), v.wrapping_mul(5)]);
    }
    let dyn_img = DynamicImage::ImageRgb8(img.clone());
    let out = render(&dyn_img, &Adjustments::default());
    for (p, q) in img.pixels().zip(out.pixels()) {
        for i in 0..3 {
            assert_eq!(p.0[i], q.0[i], "HSL identity changed pixel");
        }
    }
}

/// A skin-toned pixel must move its hue TOWARD the 粉嫩 target (25°) and its
/// chroma toward the healthy target, while a clearly non-skin (blue) pixel
/// must be left essentially untouched (protect_non_skin).
#[test]
fn skin_tone_pinkifies_skin_leaves_blue() {
    let skin_px = Rgb([205u8, 150, 120]); // warm light skin
    let blue_px = Rgb([150u8, 185, 230]); // clearly non-skin blue
    let st = SkinTone::pink();
    let adj = Adjustments {
        skin: st,
        ..Default::default()
    };
    let s_out = render(
        &DynamicImage::ImageRgb8(image::RgbImage::from_pixel(4, 4, skin_px)),
        &adj,
    )
    .get_pixel(0, 0)
    .0;
    let b_out = render(
        &DynamicImage::ImageRgb8(image::RgbImage::from_pixel(4, 4, blue_px)),
        &adj,
    )
    .get_pixel(0, 0)
    .0;

    let h_sin = oklch_hue(skin_px.0);
    let h_sout = oklch_hue(s_out);
    let d_in = (h_sin - 25.0).abs().min(360.0 - (h_sin - 25.0).abs());
    let d_out = (h_sout - 25.0).abs().min(360.0 - (h_sout - 25.0).abs());
    assert!(
        d_out < d_in,
        "skin hue should move toward 粉嫩 target 25° ({} -> {})",
        h_sin,
        h_sout
    );

    // blue must be essentially untouched
    let h_bin = oklch_hue(blue_px.0);
    let h_bout = oklch_hue(b_out);
    let dh = (h_bin - h_bout).abs().min(360.0 - (h_bin - h_bout).abs());
    assert!(
        dh < 5.0,
        "non-skin blue hue must be untouched ({} vs {})",
        h_bin,
        h_bout
    );
    assert!(
        (oklch_chroma(blue_px.0) - oklch_chroma(b_out)).abs() < 0.01,
        "non-skin blue chroma must be untouched"
    );
}

/// Off skin module must be a strict identity for the pixel (no-op).
#[test]
fn skin_off_is_identity() {
    let px = Rgb([205u8, 150, 120]);
    let adj = Adjustments {
        skin: SkinTone::default(), // enabled = false
        ..Default::default()
    };
    let out = render(
        &DynamicImage::ImageRgb8(image::RgbImage::from_pixel(4, 4, px)),
        &adj,
    )
    .get_pixel(0, 0)
    .0;
    assert_eq!(px.0, out, "disabled skin module must not change the pixel");
}

/// A deep-shadow pixel (low L) must brighten when the shadow zone is lifted,
/// and an all-zero zone grade must be a strict identity.
#[test]
fn zone_lift_brightens_shadows() {
    let dark = Rgb([25u8, 20, 30]);
    let mut adj = Adjustments::default();
    adj.zones.lift[0] = s(0.3); // lift 暗部
    let out = render(
        &DynamicImage::ImageRgb8(image::RgbImage::from_pixel(4, 4, dark)),
        &adj,
    )
    .get_pixel(0, 0)
    .0;
    assert!(
        out[0] as u32 + out[1] as u32 + out[2] as u32
            > dark.0[0] as u32 + dark.0[1] as u32 + dark.0[2] as u32,
        "shadow-zone lift should brighten a dark pixel"
    );

    // identity zone grade
    let id = render(
        &DynamicImage::ImageRgb8(image::RgbImage::from_pixel(8, 8, dark)),
        &Adjustments::default(),
    )
    .get_pixel(0, 0)
    .0;
    assert_eq!(dark.0, id, "zero zone grade must be identity");
}

/// 多分区融合必须平滑过渡：输入一条线性灰阶，施加分区提亮/压暗后，输出
/// 亮度曲线仍应是 C¹ 连续（离散二阶差分有界），不出现硬边/台阶。这是
/// "边界羽化更自然" 的质量门槛。
#[test]
fn zones_fusion_is_smooth() {
    let w = 128u32;
    let h = 4u32;
    let mut img = image::RgbImage::new(w, h);
    for x in 0..w {
        let v = (x as f32 / (w - 1) as f32 * 255.0).round() as u8;
        for y in 0..h {
            *img.get_pixel_mut(x, y) = Rgb([v, v, v]);
        }
    }
    let mut adj = Adjustments::default();
    adj.zones.lift = [s(0.2), s(0.0), s(0.0), s(-0.2)]; // 暗部提亮、高光压暗：制造分区差异
    let out = render(&DynamicImage::ImageRgb8(img), &adj);

    // 每列平均亮度，检查沿 x 方向的平滑性（离散拉普拉斯峰值有界）。
    let mut brightness = vec![0.0f32; w as usize];
    for x in 0..w {
        let mut s = 0.0f32;
        for y in 0..h {
            let p = out.get_pixel(x, y).0;
            s += (p[0] as f32 + p[1] as f32 + p[2] as f32) / 3.0;
        }
        brightness[x as usize] = s / h as f32;
    }
    let mut max_lap = 0.0f32;
    for x in 1..(w as usize - 1) {
        let lap = (brightness[x + 1] - 2.0 * brightness[x] + brightness[x - 1]).abs();
        max_lap = max_lap.max(lap);
    }
    assert!(
        max_lap < 15.0,
        "zone fusion produced a hard seam (laplacian peak {:.2} > 15)",
        max_lap
    );
}

/// 胶片感 S-curve: a mid-shadow pixel darkens and a mid-highlight brightens
/// under a positive film_curve (more film contrast), while the midpoint and
/// the overall identity (film_curve=0) is preserved.
#[test]
fn film_curve_adds_contrast() {
    let lo = Rgb([90u8, 90, 90]); // ~0.35 L
    let hi = Rgb([190u8, 190, 190]); // ~0.72 L
    let mut adj = Adjustments::default();
    adj.grade.film_curve = s(0.25);
    let lo_out = render(
        &DynamicImage::ImageRgb8(image::RgbImage::from_pixel(4, 4, lo)),
        &adj,
    )
    .get_pixel(0, 0)
    .0;
    let hi_out = render(
        &DynamicImage::ImageRgb8(image::RgbImage::from_pixel(4, 4, hi)),
        &adj,
    )
    .get_pixel(0, 0)
    .0;
    // low pixel (below 0.5) should get darker, high pixel brighter
    assert!(
        (lo_out[0] as i32) < (lo.0[0] as i32),
        "film S-curve should darken shadows ({} -> {})",
        lo.0[0],
        lo_out[0]
    );
    assert!(
        (hi_out[0] as i32) > (hi.0[0] as i32),
        "film S-curve should brighten highlights ({} -> {})",
        hi.0[0],
        hi_out[0]
    );

    // identity: film_curve = 0 must be no-op
    let id = Adjustments::default();
    let lo_id = render(
        &DynamicImage::ImageRgb8(image::RgbImage::from_pixel(4, 4, lo)),
        &id,
    )
    .get_pixel(0, 0)
    .0;
    assert_eq!(lo.0, lo_id, "film_curve=0 must be identity");
}

/// 光比融合 (light_ratio) must open the light ratio: a shadow pixel darkens
/// and a highlight brightens under positive light_ratio, pivot-preserving.
#[test]
fn light_ratio_fusion_works() {
    let lo = Rgb([80u8, 80, 80]);
    let hi = Rgb([200u8, 200, 200]);
    let mut adj = Adjustments::default();
    adj.grade.light_ratio = s(0.5);
    let lo_out = render(
        &DynamicImage::ImageRgb8(image::RgbImage::from_pixel(4, 4, lo)),
        &adj,
    )
    .get_pixel(0, 0)
    .0;
    let hi_out = render(
        &DynamicImage::ImageRgb8(image::RgbImage::from_pixel(4, 4, hi)),
        &adj,
    )
    .get_pixel(0, 0)
    .0;
    assert!(
        (lo_out[0] as i32) < (lo.0[0] as i32),
        "light_ratio should deepen shadows"
    );
    assert!(
        (hi_out[0] as i32) > (hi.0[0] as i32),
        "light_ratio should lift highlights"
    );
    let id = Adjustments::default();
    let lo_id = render(
        &DynamicImage::ImageRgb8(image::RgbImage::from_pixel(4, 4, lo)),
        &id,
    )
    .get_pixel(0, 0)
    .0;
    assert_eq!(lo.0, lo_id, "light_ratio=0 must be identity");
}

/// 90° 旋转必须正常产出、不崩溃（特别在 release panic=abort 模式）。
#[test]
fn quarter_turns_render_succeeds() {
    let img = DynamicImage::ImageRgb8(image::RgbImage::from_pixel(100, 200, Rgb([128u8; 3])));
    for q in [0u8, 1, 2, 3] {
        let mut adj = Adjustments::default();
        adj.geometry.quarter_turns = q;
        let out = render(&img, &adj);
        if q % 2 == 0 {
            assert_eq!(out.dimensions(), (100, 200));
        } else {
            assert_eq!(out.dimensions(), (200, 100));
        }
    }
}
fn solid(w: u8, h: u8, v: u8) -> DynamicImage {
    DynamicImage::ImageRgb8(image::RgbImage::from_pixel(w as u32, h as u32, Rgb([v, v, v])))
}

#[test]
fn neutral_lifts_dark_without_over_exposing() {
    // 暗灰图：一键中性应把它提亮到健康区间，但绝不惨白过曝。
    let dark = solid(64, 64, 30);
    let base_m = measured(&from_image(&dark));
    assert!(f(base_m.tone.mean_l) < 0.3, "前提：原图确实偏暗");
    let (img, res) = run_auto(&from_image(&dark), 128, 3, 1.0);
    let m = measured(&img);
    assert!(f(m.tone.mean_l) > f(base_m.tone.mean_l), "应被提亮");
    assert!(f(m.tone.mean_l) <= 0.62, "绝不过曝/惨白（护栏生效）");
    // 护栏应判定为安全（暗图提亮到中性是改进而非损坏）。
    assert!(res.guardrail_passed, "中性校正应通过护栏");
}

#[test]
fn reference_match_moves_toward_ref_without_over_exposing() {
    // 源=暗灰，参考=亮灰：匹配应把源往亮的方向靠，但受护栏钳制不过曝。
    let src = solid(64, 64, 40);
    let ref_img = solid(64, 64, 210);
    let ref_m = measured(&from_image(&ref_img));
    assert!(f(ref_m.tone.mean_l) > 0.7, "前提：参考图确实偏亮");
    let (img, res) = run_reference_match(&from_image(&src), &ref_m, 128, 4, 1.0);
    let m = measured(&img);
    let src_m = measured(&from_image(&src));
    assert!(
        f(m.tone.mean_l) > f(src_m.tone.mean_l),
        "匹配应让源图朝参考变亮 mean_l={} > {}",
        f(m.tone.mean_l),
        f(src_m.tone.mean_l)
    );
    assert!(f(m.tone.mean_l) <= 0.62, "匹配也不许过曝/惨白");
    assert!(res.rounds >= 1);
}
#[test]
fn high_key_image_exposure_never_negative() {
    // 回归：白墙人像（高调）点「自动中性化」不应被压暗（exposure_ev >= 0）。
    let mut img = image::RgbImage::new(100, 100);
    for (x, _y, p) in img.enumerate_pixels_mut() {
        if x < 82 {
            *p = image::Rgb([242u8, 242, 242]); // 亮（白墙）
        } else {
            *p = image::Rgb([150u8, 125, 110]); // 中等肤色
        }
    }
    let adj = tonal(&from_image(&DynamicImage::ImageRgb8(img)), true, 1.0);
    assert!(
        f(adj.exposure_ev) >= 0.0,
        "高调图 exposure_ev 应为非负，实际 {}",
        f(adj.exposure_ev)
    );
}
