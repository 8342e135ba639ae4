//! The stages that run on finished bytes, and the geometry.

use palette::{IntoColor, LinSrgb, Oklab};
use retouch::advanced::{
    apply_advanced, pyramid_fusion, pyramid_radii, scale_gain, skin_exponent, skin_prob, skin_radius_of, Advanced,
    FreqSepSkin, PyramidFusion,
};
use retouch::auto_color::{sampling_step, SAMPLES};
use retouch::detail::{
    denoise_pixel, detail_steps, glow, glow_share, place_exponent_of, range_factor, range_points,
    Detail, Finish, GLOW_RADIUS,
};
use retouch::freqsep::normalise;
use retouch::geometry::{
    apply_geometry, fits_geometry, largest_inscribed_rect, sample_bilinear, warp, Geometry,
};
use retouch::raster::RgbImage;
use retouch::double::Double;
use retouch::perspective::{mat3_inv, sent, solve_homography, warp_perspective, Matrix};
use retouch::sharpen::{
    adaptive_sharpen, boost_of, classify_scene, local_std_dev, sharpen_gain, sharpen_planes,
    soft_point, SceneKind, SharpenRecipe, Tint,
};
use retouch::single::Single;
use retouch::spatial::{
    blend2, blur_exponent_of, gaussian_blur, gaussian_blur_f32, limit_to_byte, luma, round_to_byte,
};
use retouch::transfer::{light_base, linear_to_srgb, needs_root, srgb_to_linear};

fn s(x: f32) -> Single {
    Single { bits: x.to_bits() }
}

fn f(x: Single) -> f32 {
    f32::from_bits(x.bits)
}

fn solid(w: u32, h: u32, c: [u8; 3]) -> RgbImage {
    RgbImage { width: w, height: h, data: c.repeat((w * h) as usize) }
}

fn get(img: &RgbImage, x: u32, y: u32) -> [u8; 3] {
    let i = ((y * img.width + x) * 3) as usize;
    [img.data[i], img.data[i + 1], img.data[i + 2]]
}

fn put(img: &mut RgbImage, x: u32, y: u32, c: [u8; 3]) {
    let i = ((y * img.width + x) * 3) as usize;
    img.data[i..i + 3].copy_from_slice(&c);
}

fn weights(radius: u32) -> Vec<Single> {
    let r = radius as i32;
    (-r..=r).map(|d| s(f(blur_exponent_of(d, radius)).exp())).collect()
}

fn bilateral(img: &RgbImage, strength: f32) -> RgbImage {
    let raw: Vec<Single> = (0..25).map(|t| s(f(place_exponent_of(t)).exp())).collect();
    let places = normalise(&raw);
    let factor = range_factor(s(strength));
    let mut out = img.clone();
    for y in 0..img.height {
        for x in 0..img.width {
            let ranges: Vec<Single> =
                range_points(img, x, y, factor).iter().map(|p| s(f(*p).exp())).collect();
            let (r, g, b) = denoise_pixel(img, x, y, &places, &ranges);
            put(&mut out, x, y, [r, g, b]);
        }
    }
    out
}

fn light(b: u8) -> f32 {
    let power = match light_base(b) {
        Some(x) => f(x).powf(2.4),
        None => 0.0,
    };
    f(srgb_to_linear(b, s(power)))
}

fn byte(l: f32) -> u8 {
    let root = if needs_root(s(l)) { l.powf(1.0 / 2.4) } else { 0.0 };
    linear_to_srgb(s(l), s(root))
}

fn oklab(p: [u8; 3]) -> Oklab<f32> {
    LinSrgb::new(light(p[0]), light(p[1]), light(p[2])).into_color()
}

fn tint(p: [u8; 3], by_hypot: bool) -> Tint {
    let ok = oklab(p);
    let c = if by_hypot { ok.a.hypot(ok.b) } else { (ok.a * ok.a + ok.b * ok.b).sqrt() };
    Tint { l: s(ok.l), c: s(c), angle: s(ok.a.atan2(ok.b)) }
}

fn kind_of(img: &RgbImage) -> SceneKind {
    let step = sampling_step(img.width, img.height, SAMPLES);
    let mut v = Vec::new();
    for y in (0..img.height).step_by(step as usize) {
        for x in (0..img.width).step_by(step as usize) {
            v.push(tint(get(img, x, y), true));
        }
    }
    let w = (img.width + step - 1) / step;
    classify_scene(&v, w as usize, v.len() / w as usize).kind
}

fn sharpen(img: &RgbImage, scale: f32, strength: f32) -> RgbImage {
    let recipe: SharpenRecipe = kind_of(img).recipe();
    let (w, h) = (img.width as usize, img.height as usize);
    let labs: Vec<Oklab<f32>> =
        img.data.chunks(3).map(|p| oklab([p[0], p[1], p[2]])).collect();
    let tints: Vec<Tint> =
        img.data.chunks(3).map(|p| tint([p[0], p[1], p[2]], false)).collect();
    let planes = sharpen_planes(
        &tints,
        w,
        h,
        &recipe,
        s(scale),
        &weights(recipe.radius_small),
        &weights(recipe.radius_large),
    );
    let tanh: Vec<Single> = (0..tints.len())
        .map(|i| s(f(soft_point(planes.detail[i], planes.boost[i])).tanh()))
        .collect();
    let l = adaptive_sharpen(&tints, &planes, &tanh, &recipe, s(strength));
    let mut data = Vec::new();
    for i in 0..labs.len() {
        let lin: LinSrgb<f32> = Oklab::new(f(l[i]), labs[i].a, labs[i].b).into_color();
        data.push(byte(lin.red));
        data.push(byte(lin.green));
        data.push(byte(lin.blue));
    }
    RgbImage { width: img.width, height: img.height, data }
}

fn detail(img: RgbImage, d: &Detail) -> RgbImage {
    let mut out = img;
    for step in detail_steps(d) {
        out = match step {
            Finish::Denoise => bilateral(&out, f(d.denoise)),
            Finish::Sharpen => sharpen(&out, 1.0, f(d.sharpen)),
            Finish::Glow => glow(&out, d.diffuse, &weights(GLOW_RADIUS)),
        };
    }
    out
}

fn advanced(img: &RgbImage, a: &Advanced) -> RgbImage {
    let likeness: Vec<Single> = img
        .data
        .chunks(3)
        .map(|p| {
            let e = skin_exponent(
                s(p[0] as f32),
                s(p[1] as f32),
                s(p[2] as f32),
                a.freqsep.mask_feather,
            );
            s(f(e).exp())
        })
        .collect();
    let [a1, a2, a3, a4] = pyramid_radii();
    apply_advanced(
        img.clone(),
        a,
        &weights(skin_radius_of(a.freqsep.smoothness)),
        &likeness,
        &weights(a1),
        &weights(a2),
        &weights(a3),
        &weights(a4),
    )
}

fn transform(img: &RgbImage, g: &Geometry) -> RgbImage {
    let rad = f(g.rotate_deg).to_radians();
    let (cos, sin) = (s(rad.cos()), s(rad.sin()));
    assert!(fits_geometry(img.width, img.height, g, cos, sin));
    apply_geometry(img.clone(), g, cos, sin)
}

fn mk(w: u32, h: u32, p: impl Fn(u32, u32) -> [u8; 3]) -> RgbImage {
    let mut img = solid(w, h, [0, 0, 0]);
    for y in 0..h {
        for x in 0..w {
            put(&mut img, x, y, p(x, y));
        }
    }
    img
}

fn size(img: &RgbImage) -> (u32, u32) {
    (img.width, img.height)
}

#[test]
fn identity_is_noop() {
    let img = solid(8, 8, [120, 90, 200]);
    let d = Detail::default();
    assert!(d.is_identity());
    let out = detail(img, &d);
    assert_eq!(get(&out, 0, 0), [120, 90, 200]);
}

fn noise_img(w: u32, h: u32, seed: u32) -> RgbImage {
    mk(w, h, |x, y| {
        let i = y * w + x;
        let v = ((i.wrapping_mul(2654435761) ^ seed) % 256) as u8;
        let n = if v > 200 { 30 } else { 0 };
        let c = 120u8.saturating_add(n);
        [c, c, c]
    })
}

#[test]
fn denoise_reduces_noise_energy() {
    let img = noise_img(40, 40, 7);
    let mut d = Detail::default();
    d.denoise = s(0.6);
    let out = detail(img.clone(), &d);
    let var = |im: &RgbImage| {
        let mut sum = 0.0f64;
        let mut sum2 = 0.0f64;
        let n = 20u32;
        for y in 0..n {
            for x in 0..n {
                let p = get(im, x, y);
                let v = (p[0] as f64 + p[1] as f64 + p[2] as f64) / 3.0;
                sum += v;
                sum2 += v * v;
            }
        }
        let m = sum / (n * n) as f64;
        sum2 / (n * n) as f64 - m * m
    };
    let v_in = var(&img);
    let v_out = var(&out);
    assert!(v_out < v_in, "denoise should reduce local variance ({} -> {})", v_in, v_out);
}

#[test]
fn sharpen_increases_edge_contrast() {
    let img = mk(40, 40, |x, _| if x < 20 { [180, 180, 180] } else { [60, 60, 60] });
    let mut d = Detail::default();
    d.sharpen = s(0.8);
    let out = detail(img.clone(), &d);
    let grad = |im: &RgbImage| {
        let a = get(im, 19, 20)[0] as i32;
        let b = get(im, 20, 20)[0] as i32;
        let c = get(im, 21, 20)[0] as i32;
        (b - a).abs() + (c - b).abs()
    };
    let grad_in = grad(&img);
    let grad_out = grad(&out);
    assert!(
        grad_out > grad_in,
        "sharpen should steepen the edge gradient ({} -> {})",
        grad_in,
        grad_out
    );
}

#[test]
fn glow_only_softens_highlights_keeps_darks() {
    let img = mk(32, 32, |x, _| {
        let v = if x < 16 { 20u8 } else { 200u8.saturating_add(((x - 16) * 3) as u8) };
        [v, v, v]
    });
    let mut d = Detail::default();
    d.diffuse = s(0.8);
    let out = detail(img.clone(), &d);
    let dark_in = get(&img, 4, 4)[0] as i32;
    let dark_out = get(&out, 4, 4)[0] as i32;
    assert!(
        (dark_out - dark_in).abs() <= 2,
        "glow must not soften darks ({} -> {})",
        dark_in,
        dark_out
    );
    let hi_in = get(&img, 31, 4)[0] as i32;
    let hi_out = get(&out, 31, 4)[0] as i32;
    assert!(
        hi_out < hi_in,
        "glow should pull the brightest pixel toward its blur ({} -> {})",
        hi_in,
        hi_out
    );
}

#[test]
fn stages_of_detail_come_in_their_order() {
    let d = Detail { denoise: s(0.1), sharpen: s(0.2), diffuse: s(0.3) };
    assert_eq!(detail_steps(&d), vec![Finish::Denoise, Finish::Sharpen, Finish::Glow]);
    let d = Detail { denoise: s(0.0), sharpen: s(-1.0), diffuse: s(0.3) };
    assert_eq!(detail_steps(&d), vec![Finish::Glow]);
    assert_eq!(detail_steps(&Detail::default()), vec![]);
}

#[test]
fn dark_pixels_do_not_glow() {
    assert_eq!(glow_share(s(1.0), 20, 20, 20), s(0.0));
    assert_eq!(glow_share(s(1.0), 255, 255, 255), s(1.0));
    let img = mk(9, 3, |x, y| [(x * 9) as u8, (y * 11) as u8, 40]);
    let out = glow(&img, s(1.0), &weights(GLOW_RADIUS));
    assert_eq!(out.data, img.data);
}

#[test]
fn advanced_identity_is_noop() {
    let img = solid(8, 8, [120, 90, 200]);
    let a = Advanced::default();
    assert!(a.is_identity());
    let out = advanced(&img, &a);
    assert_eq!(get(&out, 0, 0), [120, 90, 200]);
    assert_eq!(out.data, img.data);
}

#[test]
fn freqsep_smooths_skin_pixels() {
    let mut img = solid(40, 40, [200, 150, 120]);
    put(&mut img, 20, 20, [235, 180, 145]);
    let mut fs = FreqSepSkin::default();
    fs.enabled = true;
    fs.strength = s(0.8);
    fs.texture_keep = s(0.5);
    let a = Advanced { freqsep: fs, pyramid: PyramidFusion::default() };
    let out = advanced(&img, &a);
    let dist = |p: [u8; 3], q: [i32; 3]| {
        ((p[0] as i32 - q[0]).pow(2) + (p[1] as i32 - q[1]).pow(2) + (p[2] as i32 - q[2]).pow(2))
            as f32
    };
    let d_in = dist(get(&img, 20, 20), [200, 150, 120]);
    let d_out = dist(get(&out, 20, 20), [200, 150, 120]);
    assert!(
        d_out < d_in,
        "blemish should move toward skin base (d {} -> {})",
        d_in,
        d_out
    );
}

#[test]
fn pyramid_zero_is_identity() {
    let img = mk(32, 32, |x, y| {
        let v = ((x * 7 + y * 13) % 256) as u8;
        [v, v.wrapping_mul(3), v.wrapping_mul(5)]
    });
    let mut pf = PyramidFusion::default();
    pf.enabled = true;
    pf.strength = s(0.0);
    let a = Advanced { freqsep: FreqSepSkin::default(), pyramid: pf };
    let out = advanced(&img, &a);
    assert_eq!(img.data, out.data, "pyramid strength=0 must be identity");
}

/// Without strength the scales add up to the picture, whatever the scale of the detail is.
#[test]
fn fusion_without_strength_keeps_the_picture() {
    let img = mk(24, 24, |x, y| [((x * 37 + y * 101) % 256) as u8, (y * 9) as u8, (x * 5) as u8]);
    for scale in [1.0f32, -3.0, f32::INFINITY] {
        let p = PyramidFusion { enabled: true, strength: s(0.0), detail_scale: s(scale) };
        let [a, b, c, d] = pyramid_radii();
        let out = pyramid_fusion(&img, &p, &weights(a), &weights(b), &weights(c), &weights(d));
        assert_eq!(out.data, img.data);
    }
}

#[test]
fn pyramid_changes_image_when_strength_nonzero() {
    let img = mk(48, 48, |x, y| {
        let v = ((x * 5 + y * 9) % 256) as u8;
        [v, 255 - v, v / 2]
    });
    let mut pf = PyramidFusion::default();
    pf.enabled = true;
    pf.strength = s(0.5);
    let a = Advanced { freqsep: FreqSepSkin::default(), pyramid: pf };
    let out = advanced(&img, &a);
    assert!(img.data != out.data, "pyramid with strength should modify the image");
}

#[test]
fn gains_and_radii_of_the_advanced_stages() {
    let p = PyramidFusion { enabled: true, strength: s(0.5), detail_scale: s(2.0) };
    assert_eq!(scale_gain(&p, s(0.8)), s(1.8));
    assert_eq!(skin_radius_of(s(0.3)), 11);
    assert_eq!(skin_radius_of(s(-9.0)), 2);
    assert_eq!(skin_radius_of(s(9.0)), 28);
    assert_eq!(pyramid_radii(), [2, 4, 8, 16]);
    assert_eq!(skin_prob(s(10.0), s(10.0), s(10.0), s(1.0)), s(0.0));
    assert_eq!(skin_prob(s(150.0), s(150.0), s(150.0), s(1.0)), s(1.0));
}

#[test]
fn identity_for_no_downscale() {
    let img = solid(400, 40, [120, 120, 120]);
    let out = sharpen(&img, 1.0, 1.0);
    let diff = get(&out, 0, 0)[0] as i32 - get(&img, 0, 0)[0] as i32;
    assert!(diff.abs() <= 2, "flat image should stay flat, diff={}", diff);
}

#[test]
fn edge_gets_sharper() {
    let img = mk(400, 200, |x, y| {
        let base = if x < 200 { 80u8 } else { 200u8 };
        let noise = if x < 170 || x > 230 { ((x * 7 + y * 13) % 25) as u8 } else { 0 };
        let v = base.saturating_add(noise).min(230);
        [v, v, v]
    });
    let out = sharpen(&img, 0.5, 1.0);
    let grad = |im: &RgbImage| {
        let a = get(im, 199, 100)[0] as i32;
        let b = get(im, 200, 100)[0] as i32;
        let c = get(im, 201, 100)[0] as i32;
        (b - a).abs() + (c - b).abs()
    };
    let grad_in = grad(&img);
    let g = grad(&out);
    assert!(
        g > grad_in * 115 / 100,
        "edge should be steeper after sharpening ({} -> {})",
        grad_in,
        g
    );
}

#[test]
fn sharpening_of_strength_zero_keeps_lightness() {
    let img = mk(12, 9, |x, y| [(x * 20) as u8, (y * 25) as u8, 77]);
    let tints: Vec<Tint> =
        img.data.chunks(3).map(|p| tint([p[0], p[1], p[2]], false)).collect();
    let recipe = SceneKind::Portrait.recipe();
    let planes = sharpen_planes(&tints, 12, 9, &recipe, s(0.5), &weights(1), &weights(3));
    let tanh = vec![s(0.25); tints.len()];
    let l = adaptive_sharpen(&tints, &planes, &tanh, &recipe, s(0.0));
    for (a, b) in l.iter().zip(tints.iter()) {
        assert!(a.same(b.l));
    }
}

#[test]
fn kinds_of_scenes() {
    assert_eq!(kind_of(&solid(60, 60, [120, 120, 120])), SceneKind::Clean);
    let noisy = mk(60, 60, |x, y| {
        let v = ((x * 37 + y * 91) % 200) as u8;
        [v, v, v]
    });
    assert_eq!(kind_of(&noisy), SceneKind::General);
    let p = |l: f32, c: f32, deg: f32| Tint { l: s(l), c: s(c), angle: s(deg.to_radians()) };
    let skin = classify_scene(&vec![p(0.6, 0.1, 40.0); 9], 3, 3);
    assert_eq!(skin.kind, SceneKind::Portrait);
    assert_eq!(skin.skin_ratio, s(1.0));
    assert_eq!(skin.flat_ratio, s(1.0));
    let sky = classify_scene(&vec![p(0.6, 0.1, 200.0); 9], 3, 3);
    assert_eq!((sky.kind, sky.sky_ratio), (SceneKind::Landscape, s(1.0)));
    let green = classify_scene(&vec![p(0.6, 0.1, 120.0); 9], 3, 3);
    assert_eq!((green.kind, green.green_ratio), (SceneKind::Landscape, s(1.0)));
}

#[test]
fn gains_of_sharpening() {
    let r = SceneKind::Landscape.recipe();
    assert_eq!(sharpen_gain(&r, s(1.0)), s(0.75));
    assert_eq!(sharpen_gain(&r, s(0.0)), s(1.25));
    assert_eq!(boost_of(&r, s(1.0), s(1.0)), s(0.95));
    assert_eq!(boost_of(&r, s(1.0), s(0.0)), s(0.2));
}

#[test]
fn spreads_of_planes() {
    let flat = local_std_dev(&vec![s(0.5); 12], 4, 3);
    assert!(flat.iter().all(|v| v.same(s(0.0))));
    let mut v = vec![s(0.0); 9];
    v[4] = s(3.0);
    let d = local_std_dev(&v, 3, 3);
    let mean = 3.0f32 / 9.0;
    assert_eq!(f(d[4]), (9.0f32 / 9.0 - mean * mean).max(0.0).sqrt());
}

#[test]
fn smoothing_keeps_flat_pictures_and_sizes() {
    let img = solid(7, 5, [10, 200, 255]);
    let out = gaussian_blur(&img, &weights(3));
    assert_eq!(size(&out), (7, 5));
    assert_eq!(out.data, img.data);
    let img = mk(7, 5, |x, y| [(x * 30) as u8, (y * 40) as u8, 9]);
    assert_eq!(gaussian_blur(&img, &Vec::new()).data, img.data);
    assert_eq!(gaussian_blur(&img, &vec![s(5.0)]).data, img.data);
    let out = gaussian_blur(&img, &weights(2));
    assert!(get(&out, 0, 0)[0] > 0 && get(&out, 6, 0)[0] < 180);
    assert_eq!(get(&out, 3, 2)[0], 90);
    let empty = RgbImage { width: 0, height: 5, data: Vec::new() };
    assert_eq!(gaussian_blur(&empty, &weights(2)).data.len(), 0);
    let plane: Vec<Single> = (0..12).map(|k| s(k as f32)).collect();
    assert_eq!(gaussian_blur_f32(&plane, 4, 3, &Vec::new()), plane);
    let one = gaussian_blur_f32(&vec![s(0.25); 12], 4, 3, &weights(1));
    assert!(one.iter().all(|v| (f(*v) - 0.25).abs() < 1e-6));
}

#[test]
fn blends_are_made_byte_by_byte() {
    let a = mk(3, 2, |x, y| [(x * 60) as u8, (y * 100) as u8, 250]);
    let b = solid(3, 2, [10, 20, 30]);
    let sum = blend2(&a, &b, |x: Single, y: Single| x.plus(y));
    assert_eq!(get(&sum, 1, 1), [70, 120, 255]);
    let less = blend2(&b, &a, |x: Single, y: Single| x.minus(y));
    assert_eq!(get(&less, 2, 1), [0, 0, 0]);
    assert_eq!(get(&less, 0, 0), [10, 20, 0]);
}

#[test]
fn bytes_from_numbers() {
    assert_eq!(round_to_byte(s(254.5)), 255);
    assert_eq!(round_to_byte(s(-3.0)), 0);
    assert_eq!(limit_to_byte(s(300.0)), 255);
    assert_eq!(limit_to_byte(s(1.49)), 1);
    for b in 0..=255u8 {
        assert_eq!(round_to_byte(s(b as f32)), b);
        assert_eq!(limit_to_byte(s(b as f32)), b);
    }
    assert_eq!(f(luma(255, 255, 255)), 0.2126 * 255.0 + 0.7152 * 255.0 + 0.0722 * 255.0);
}

#[test]
fn light_and_bytes() {
    for b in 0..=255u8 {
        let c = b as f32 / 255.0;
        let want = if c <= 0.04045 { c / 12.92 } else { ((c + 0.055) / 1.055).powf(2.4) };
        assert_eq!(light(b), want);
        assert_eq!(byte(light(b)), b);
    }
    assert_eq!(light_base(0), None);
    assert_eq!(byte(-1.0), 0);
    assert_eq!(byte(9.0), 255);
}

#[test]
fn identity_returns_same_image() {
    let img = mk(20, 16, |x, y| [(x * 10) as u8, (y * 12) as u8, 100]);
    let g = Geometry::default();
    assert!(g.is_identity());
    let out = transform(&img, &g);
    assert_eq!(size(&img), size(&out));
    assert_eq!(img.data, out.data);
}

#[test]
fn crop_reduces_size_and_keeps_content() {
    let img = mk(40, 30, |x, y| [(x * 5) as u8, (y * 5) as u8, 128]);
    let mut g = Geometry::default();
    g.crop = Some((s(0.25), s(0.25), s(0.5), s(0.5)));
    let out = transform(&img, &g);
    assert_eq!(size(&out), (20, 15));
    assert_eq!(get(&img, 10, 7), get(&out, 0, 0));
}

#[test]
fn rotate90_is_exact_and_flips_axes() {
    let img = mk(10, 20, |_x, y| [0, (y * 12) as u8, 0]);
    let mut g = Geometry::default();
    g.rotate_deg = s(90.0);
    let out = transform(&img, &g);
    assert_eq!(size(&out), (20, 10));
    let gx0 = get(&out, 0, 0)[1];
    let gx5 = get(&out, 5, 0)[1];
    assert_ne!(gx0, gx5, "green should vary along output x after 90 degrees");
    let gy0 = get(&out, 0, 5)[1];
    assert_eq!(gx0, gy0, "green should be constant along output y");
    assert_eq!(gx0, get(&img, 0, 0)[1]);
}

#[test]
fn perspective_zero_is_identity_size() {
    let img = mk(24, 18, |x, y| [(x * 8) as u8, (y * 10) as u8, 200]);
    let mut g = Geometry::default();
    g.perspective = Some((s(0.0), s(0.0)));
    let out = transform(&img, &g);
    assert_eq!(size(&out), size(&img));
    assert_eq!(out.data, img.data);
}

#[test]
fn flip_h_mirrors_x() {
    let img = mk(8, 4, |x, _y| [(x * 30) as u8, 0, 0]);
    let mut g = Geometry::default();
    g.flip_h = true;
    let out = transform(&img, &g);
    assert_eq!(size(&out), size(&img));
    assert_eq!(get(&out, 0, 0), get(&img, 7, 0));
    assert_eq!(get(&out, 7, 0), get(&img, 0, 0));
}

#[test]
fn combined_geometry_all_active_no_panic() {
    let img = mk(37, 53, |x, y| [(x * 6) as u8, (y * 4) as u8, ((x + y) * 3) as u8]);
    let mut g = Geometry::default();
    g.quarter_turns = 1;
    g.rotate_deg = s(12.0);
    g.perspective = Some((s(0.3), s(-0.2)));
    g.flip_h = true;
    g.flip_v = true;
    g.crop = Some((s(0.1), s(0.15), s(0.7), s(0.6)));
    let out = transform(&img, &g);
    assert!(out.width > 0 && out.height > 0, "{}x{}", out.width, out.height);
    assert_eq!(out.data.len(), (out.width * out.height * 3) as usize);
    for c in &out.data {
        assert!((*c as i32) <= 255 && (*c as i32) >= 0, "像素越界: {}", c);
    }
}

fn wide_of(x: f64) -> Double {
    Double { bits: x.to_bits() }
}

fn narrow(x: Double) -> f64 {
    f64::from_bits(x.bits)
}

/// The matrix takes each of the four points to its image.
#[test]
fn four_points_fix_a_matrix() {
    let src = [(3.0, 4.0), (20.0, 5.0), (18.0, 22.0), (2.0, 19.0)];
    let dst = [(0.0, 0.0), (10.0, 0.0), (10.0, 12.0), (0.0, 12.0)];
    let as_points = |v: [(f64, f64); 4]| v.map(|p| (wide_of(p.0), wide_of(p.1)));
    let m = solve_homography(&as_points(src), &as_points(dst)).unwrap();
    let back = mat3_inv(m).unwrap();
    for (p, q) in src.iter().zip(dst.iter()) {
        let (x, y) = sent(m, wide_of(p.0), wide_of(p.1)).unwrap();
        assert!((f(x) as f64 - q.0).abs() < 1e-4 && (f(y) as f64 - q.1).abs() < 1e-4);
        let (x, y) = sent(back, wide_of(q.0), wide_of(q.1)).unwrap();
        assert!((f(x) as f64 - p.0).abs() < 1e-4 && (f(y) as f64 - p.1).abs() < 1e-4);
    }
    let one = [(1.0, 1.0); 4];
    assert!(solve_homography(&as_points(one), &as_points(dst)).is_none());
    let flat = Matrix { a: m.d, b: m.e, c: m.f, ..m };
    assert!(mat3_inv(flat).is_none());
}

/// A vertical keystone scales the upper edge about its middle and keeps the lower one; a
/// horizontal keystone does so with the left and the right edge.
#[test]
fn keystones_scale_one_edge() {
    let img = mk(33, 21, |x, y| [(x * 7) as u8, (y * 11) as u8, 60]);
    let same = warp_perspective(&img, s(0.0), s(0.0));
    assert_eq!(same.data, img.data);
    let out = warp_perspective(&img, s(0.5), s(0.0));
    assert_eq!(size(&out), size(&img));
    assert_eq!(get(&out, 0, 20), get(&img, 0, 20));
    assert_eq!(get(&out, 32, 20), get(&img, 32, 20));
    assert_eq!(get(&out, 0, 0), get(&img, 8, 0));
    assert_eq!(get(&out, 32, 0), get(&img, 24, 0));
    let side = warp_perspective(&img, s(0.0), s(0.5));
    assert_eq!(get(&side, 32, 0), get(&img, 32, 0));
    assert_eq!(get(&side, 32, 20), get(&img, 32, 20));
    assert_eq!(get(&side, 0, 0), get(&img, 0, 5));
    assert_eq!(get(&side, 0, 20), get(&img, 0, 15));
    assert_eq!(narrow(wide_of(0.5)), 0.5);
}

/// The fine rotation turns counter-clockwise, exactly and in between.
#[test]
fn fine_rotation_is_counter_clockwise() {
    let img = mk(5, 3, |x, y| [(x * 40) as u8, (y * 70) as u8, (x + y) as u8]);
    let mut g = Geometry::default();
    g.rotate_deg = s(90.0);
    let out = transform(&img, &g);
    assert_eq!(size(&out), (3, 5));
    for y in 0..5 {
        for x in 0..3 {
            assert_eq!(get(&out, x, y), get(&img, 4 - y, x));
        }
    }
    let mut dot = solid(41, 41, [0, 0, 0]);
    for y in 18..23 {
        for x in 28..33 {
            put(&mut dot, x, y, [255, 255, 255]);
        }
    }
    g.rotate_deg = s(30.0);
    let out = transform(&dot, &g);
    let (w, h) = size(&out);
    let (mut up, mut down) = (0u32, 0u32);
    for y in 0..h {
        for x in 0..w {
            if y < h / 2 {
                up += get(&out, x, y)[0] as u32;
            } else {
                down += get(&out, x, y)[0] as u32;
            }
        }
    }
    assert!(up > down);
}

#[test]
fn quarter_turn_then_fine_rotate() {
    let img = mk(60, 30, |x, y| [(x * 4) as u8, (y * 8) as u8, 77]);
    for qt in [0u8, 1, 2, 3] {
        let mut g = Geometry::default();
        g.quarter_turns = qt;
        g.rotate_deg = s(20.0);
        let out = transform(&img, &g);
        assert!(out.width > 0 && out.height > 0, "qt={}", qt);
    }
}

#[test]
fn crop_out_of_bounds_is_clamped() {
    let img = mk(40, 40, |x, y| [x as u8, y as u8, 128]);
    let mut g = Geometry::default();
    g.crop = Some((s(0.9), s(0.9), s(0.9), s(0.9)));
    let out = transform(&img, &g);
    assert!(out.width > 0 && out.height > 0, "{}x{}", out.width, out.height);
    assert!(out.width <= 40 && out.height <= 40);
    assert_eq!(size(&out), (4, 4));
}

#[test]
fn quarter_turns_add_up_on_a_picture() {
    let img = mk(5, 3, |x, y| [(x * 40) as u8, (y * 70) as u8, (x + y) as u8]);
    let turn = |im: &RgbImage, k: u8| {
        let mut g = Geometry::default();
        g.quarter_turns = k;
        transform(im, &g)
    };
    for a in 0..4u8 {
        for b in 0..4u8 {
            let twice = turn(&turn(&img, a), b);
            let once = turn(&img, a + b);
            assert_eq!(size(&twice), size(&once));
            assert_eq!(twice.data, once.data);
        }
    }
    assert_eq!(get(&turn(&img, 1), 2, 0), get(&img, 0, 0));
    assert_eq!(get(&turn(&img, 2), 4, 2), get(&img, 0, 0));
    assert_eq!(get(&turn(&img, 3), 0, 4), get(&img, 0, 0));
}

#[test]
fn flips_undo_themselves_on_a_picture() {
    let img = mk(5, 3, |x, y| [(x * 40) as u8, (y * 70) as u8, (x + y) as u8]);
    let flip = |im: &RgbImage, h: bool, v: bool| {
        let mut g = Geometry::default();
        g.flip_h = h;
        g.flip_v = v;
        transform(im, &g)
    };
    assert_eq!(flip(&flip(&img, true, false), true, false).data, img.data);
    assert_eq!(flip(&flip(&img, false, true), false, true).data, img.data);
    assert_eq!(get(&flip(&img, false, true), 1, 0), get(&img, 1, 2));
    let mut g = Geometry::default();
    g.quarter_turns = 2;
    assert_eq!(flip(&img, true, true).data, transform(&img, &g).data);
}

#[test]
fn crops_that_end_before_they_begin_leave_the_picture_whole() {
    let img = mk(40, 40, |x, y| [x as u8, y as u8, 128]);
    let mut g = Geometry::default();
    for size in [-0.2f32, f32::NAN, f32::NEG_INFINITY] {
        g.crop = Some((s(0.5), s(0.0), s(size), s(1.0)));
        assert_eq!(transform(&img, &g).data, img.data);
    }
    g.crop = Some((s(0.5), s(0.0), s(0.25), s(1.0)));
    g.perspective = Some((s(0.1), s(0.0)));
    assert!(fits_geometry(40, 40, &g, s(1.0), s(0.0)));
    assert!(!fits_geometry(40, 0x100_0001, &g, s(1.0), s(0.0)));
}

#[test]
fn points_between_pixels() {
    let img = mk(3, 2, |x, y| [(x * 100) as u8, (y * 50) as u8, 7]);
    assert_eq!(sample_bilinear(&img, s(1.0), s(1.0)), [100, 50, 7]);
    assert_eq!(sample_bilinear(&img, s(0.5), s(0.5)), [50, 25, 7]);
    assert_eq!(sample_bilinear(&img, s(-4.0), s(9.0)), [0, 50, 7]);
    let empty = RgbImage { width: 0, height: 0, data: Vec::new() };
    assert_eq!(sample_bilinear(&empty, s(0.0), s(0.0)), [0, 0, 0]);
    let out = warp(&img, 2, 1, &vec![None, Some((s(2.0), s(0.0)))]);
    assert_eq!(out.data, vec![0, 0, 0, 200, 0, 7]);
}

#[test]
fn the_largest_upright_rectangle() {
    let (w, h) = largest_inscribed_rect(s(100.0), s(50.0), s(0.0), s(1.0));
    assert_eq!((f(w), f(h)), (100.0, 50.0));
    let r = std::f32::consts::FRAC_PI_2;
    let (w, h) = largest_inscribed_rect(s(100.0), s(50.0), s(r.sin().abs()), s(r.cos().abs()));
    assert!((f(w) - 50.0).abs() < 0.01 && (f(h) - 100.0).abs() < 0.01);
    let q = 45f32.to_radians();
    let (w, h) = largest_inscribed_rect(s(100.0), s(50.0), s(q.sin()), s(q.cos()));
    assert!((f(w) - 35.355).abs() < 0.01 && (f(h) - 35.355).abs() < 0.01);
}
