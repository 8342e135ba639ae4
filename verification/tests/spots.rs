//! Detection and healing of spots.

use retouch::detect_spots::{detect_spots, detect_spots_from_rgb, DetectParams};
use retouch::freqsep::{kernel_radius, rim_angle_of, smoothing_exponent_of, smoothing_width};
use retouch::heal::{find_step, heal_image, resolve, square_plan, StrokeAid};
use retouch::inpaint_fill::{
    inpaint_rgb, inpaint_rgb_feathered, render_with_spot, soft_angle_of, soft_edges,
};
use retouch::median::median_filter_rgb;
use retouch::raster::{GrayImage, RgbImage};
use retouch::single::Single;
use retouch::source_search::{
    edge_feat, patchmatch_source_center, ring_angle_of, ring_place_of, ring_plan,
};
use retouch::spot::{HealMode, SpotFix, SpotStroke};

fn s(x: f32) -> Single {
    Single { bits: x.to_bits() }
}

fn f(x: Single) -> f32 {
    f32::from_bits(x.bits)
}

fn solid(w: u32, h: u32, c: [u8; 3]) -> RgbImage {
    RgbImage { width: w, height: h, data: c.repeat((w * h) as usize) }
}

fn get(img: &RgbImage, x: u32, y: u32) -> [u8; 3] {
    let i = ((y * img.width + x) * 3) as usize;
    [img.data[i], img.data[i + 1], img.data[i + 2]]
}

fn put(img: &mut RgbImage, x: u32, y: u32, c: [u8; 3]) {
    let i = ((y * img.width + x) * 3) as usize;
    img.data[i..i + 3].copy_from_slice(&c);
}

/// The places around a spot at which a source is looked for.
fn ring(w: u32, h: u32, r: i32, step: i32) -> Vec<(i32, i32)> {
    let mut v = Vec::new();
    for (rad, n) in ring_plan(w, h, r, step) {
        for k in 0..n {
            let a = f(ring_angle_of(k, n));
            v.push(ring_place_of(rad, s(a.cos()), s(a.sin())));
        }
    }
    v
}

fn aid_for(stroke: &SpotStroke, w: u32, h: u32, preview: bool) -> StrokeAid {
    let (_, _, r) = resolve(stroke, w, h);
    let width = smoothing_width(r as u32);
    let reach = kernel_radius(width) as i32;
    let weights =
        (-reach..=reach).map(|d| s(f(smoothing_exponent_of(d, width)).exp())).collect();
    let side = r as u64;
    let fade = (0..=2 * side * side).map(|q| s(f(rim_angle_of(q, r as u32)).cos())).collect();
    StrokeAid { ring: ring(w, h, r, find_step(r, preview)), weights, fade }
}

/// The cosine of a soft edge by squared distance.
fn fade_for(stroke: &SpotStroke, w: u32, h: u32) -> Vec<Single> {
    let (inner, outer) = soft_edges(stroke, w, h);
    let far = f(outer).ceil() as u64 + 2;
    (0..=far * far).map(|q| s(f(soft_angle_of(q, inner, outer)).cos())).collect()
}

fn fades_for(spot: &SpotFix, w: u32, h: u32) -> Vec<Vec<Single>> {
    spot.strokes.iter().map(|t| fade_for(t, w, h)).collect()
}

fn heal(img: &RgbImage, spot: &SpotFix, preview: bool) -> RgbImage {
    let aids: Vec<StrokeAid> =
        spot.strokes.iter().map(|t| aid_for(t, img.width, img.height, preview)).collect();
    heal_image(img, spot, preview, &aids, &fades_for(spot, img.width, img.height))
}

fn dist(p: [u8; 3], q: [i32; 3]) -> f32 {
    ((p[0] as i32 - q[0]).abs() + (p[1] as i32 - q[1]).abs() + (p[2] as i32 - q[2]).abs()) as f32
}

fn add(spot: &mut SpotFix, cx: f32, cy: f32, r: f32) {
    spot.add_stroke(s(cx), s(cy), s(r));
}

#[test]
fn detects_isolated_dust_spots() {
    let mut img = solid(128, 128, [180, 178, 176]);
    let dust = [(20i32, 30i32), (80, 60), (100, 110)];
    for (x, y) in dust {
        for dy in -1..=1 {
            for dx in -1..=1 {
                put(&mut img, (x + dx) as u32, (y + dy) as u32, [8, 8, 8]);
            }
        }
    }
    let spots = detect_spots(&img, &DetectParams::default());
    assert!(!spots.is_empty(), "at least one spot is found, not {}", spots.len());
    assert!(spots.len() <= dust.len(), "no more than there are: {}", spots.len());
    for t in &spots {
        assert!(f(t.cx) >= 0.0 && f(t.cx) <= 1.0 && f(t.cy) >= 0.0 && f(t.cy) <= 1.0);
        assert!(f(t.r_norm) > 0.0 && f(t.r_norm) < 0.2);
    }
}

#[test]
fn detects_full_size_range_without_false_positives() {
    let (w, h) = (600u32, 400u32);
    let mut img = solid(w, h, [0, 0, 0]);
    for y in 0..h {
        for x in 0..w {
            let v = 150.0 + (y as f32 / h as f32) * 60.0;
            put(&mut img, x, y, [v as u8, (v + 6.0) as u8, (v + 18.0) as u8]);
        }
    }
    let mut truth = Vec::new();
    for (i, r) in [1i32, 2, 3, 4, 5, 6].iter().enumerate() {
        let cx = w * (i as u32 + 1) / 7;
        let cy = h / 2;
        for dy in -r..=*r {
            for dx in -r..=*r {
                if dx * dx + dy * dy <= r * r {
                    put(
                        &mut img,
                        (cx as i32 + dx) as u32,
                        (cy as i32 + dy) as u32,
                        [30, 30, 32],
                    );
                }
            }
        }
        truth.push((cx as f32, cy as f32, *r as f32));
    }
    let spots = detect_spots(&img, &DetectParams::default());
    let mut hit = 0;
    for (tx, ty, tr) in &truth {
        if spots.iter().any(|t| {
            let dx = f(t.cx) * w as f32 - tx;
            let dy = f(t.cy) * h as f32 - ty;
            (dx * dx + dy * dy).sqrt() <= tr + 5.0
        }) {
            hit += 1;
        }
    }
    assert_eq!(hit, truth.len(), "all 6 sizes are found, not {}", hit);
    assert!(spots.len() <= truth.len(), "{} found, {} there", spots.len(), truth.len());
}

#[test]
fn does_not_flag_clean_sky() {
    let mut img = solid(128, 128, [0, 0, 0]);
    for y in 0..128u32 {
        for x in 0..128u32 {
            let v = (y as f32 / 127.0 * 255.0) as u8;
            put(&mut img, x, y, [v, v, v]);
        }
    }
    let spots = detect_spots(&img, &DetectParams::default());
    assert!(spots.is_empty(), "a gradient has no spots, not {}", spots.len());
}

#[test]
fn does_not_flood_on_texture() {
    let mut img = solid(128, 128, [0, 0, 0]);
    let mut seed = 0x12345678u32;
    for y in 0..128u32 {
        for x in 0..128u32 {
            seed = seed.wrapping_mul(1664525).wrapping_add(1013904223);
            let v = (seed >> 24) as u8;
            put(&mut img, x, y, [v, v, v]);
        }
    }
    let spots = detect_spots(&img, &DetectParams::default());
    assert!(spots.len() <= 5, "texture is not full of spots: {}", spots.len());
}

/// The median by sorting.
fn median_naive(img: &RgbImage, ksize: u32) -> Vec<[u8; 3]> {
    let (w, h) = (img.width, img.height);
    let (wu, hu) = (w as usize, h as usize);
    let k = (ksize / 2) as i32;
    let mut out = vec![[0u8; 3]; wu * hu];
    for y in 0..hu {
        for x in 0..wu {
            let mut c: [Vec<u8>; 3] = [Vec::new(), Vec::new(), Vec::new()];
            for dy in -k..=k {
                for dx in -k..=k {
                    let nx = (x as i32 + dx).clamp(0, w as i32 - 1) as u32;
                    let ny = (y as i32 + dy).clamp(0, h as i32 - 1) as u32;
                    let p = get(img, nx, ny);
                    for (ci, item) in c.iter_mut().enumerate() {
                        item.push(p[ci]);
                    }
                }
            }
            let m = c[0].len() / 2;
            for item in c.iter_mut() {
                item.sort_unstable();
            }
            out[y * wu + x] = [c[0][m], c[1][m], c[2][m]];
        }
    }
    out
}

#[test]
fn huang_median_matches_naive() {
    let mut img = solid(37, 23, [0, 0, 0]);
    let mut seed = 0xDEADBEEFu32;
    for y in 0..23u32 {
        for x in 0..37u32 {
            seed = seed.wrapping_mul(1664525).wrapping_add(1013904223);
            put(&mut img, x, y, [(seed >> 24) as u8, (seed >> 16) as u8, (seed >> 8) as u8]);
        }
    }
    for ks in [3u32, 5, 9, 13] {
        let fast = median_filter_rgb(&img, ks);
        let slow = median_naive(&img, ks);
        assert_eq!(fast.len(), slow.len());
        for (i, (a, b)) in fast.iter().zip(slow.iter()).enumerate() {
            assert_eq!(a, b, "ksize={} pixel {}: {:?} and {:?}", ks, i, a, b);
        }
    }
}

#[test]
fn rejects_mismatched_buffer_length() {
    let buf = vec![0u8; 10];
    let spots = detect_spots_from_rgb(&buf, 64, 64, &DetectParams::default());
    assert!(spots.is_empty());
}

/// The points at which circles, weights and edges are taken.
#[test]
fn points_of_circles_and_edges() {
    let pi = std::f32::consts::PI;
    assert_eq!(ring_angle_of(3, 8), s(2.0 * pi * 3.0 / 8.0));
    assert_eq!(ring_place_of(10, s(0.0), s(1.0)), (0, 10));
    assert_eq!(ring_place_of(7, s(-0.5), s(0.25)), (-4, 2));
    assert_eq!(smoothing_exponent_of(3, s(2.0)), s(-1.125));
    assert_eq!(smoothing_exponent_of(-3, s(2.0)), s(-1.125));
    assert_eq!(rim_angle_of(100, 10), s(pi * (1.0 - 0.85) / 0.15));
    assert_eq!(rim_angle_of(81, 10), s(pi * (0.9 - 0.85) / 0.15));
    let t = SpotStroke { cx: s(0.5), cy: s(0.5), r_norm: s(0.1) };
    let (inner, outer) = soft_edges(&t, 100, 80);
    assert_eq!((inner, outer), (s(4.0), s(12.0)));
    assert_eq!(soft_angle_of(16, inner, outer), s(0.0));
    assert_eq!(soft_angle_of(64, inner, outer), s(pi * 4.0 / 8.0));
    let (inner, outer) = soft_edges(&SpotStroke { r_norm: s(0.0), ..t }, 100, 80);
    assert_eq!((inner, outer), (s(0.0), s(1.5)));
}

/// A spot near the edge keeps its centre in the square that is filled.
#[test]
fn squares_near_the_edge_keep_the_centre() {
    let (x, y, mask, radius) = square_plan(40, 40, 1, 20, 4);
    assert_eq!((x, y, radius), (0, 15, 5));
    assert_eq!((mask.width, mask.height), (11, 11));
    let at = |px: usize, py: usize| mask.data[py * 11 + px];
    assert_eq!((at(1, 5), at(0, 5), at(4, 5)), (255, 255, 255));
    assert_eq!((at(6, 5), at(10, 5), at(1, 0)), (0, 0, 0));
    let (x, y, mask, _) = square_plan(40, 40, 20, 20, 4);
    assert_eq!((x, y), (15, 15));
    assert_eq!(mask.data[5 * 11 + 5], 255);
}

/// A smaller limit gives the beginning of the list, and no two strokes share a place.
#[test]
fn smaller_limits_give_the_beginning() {
    let mut img = solid(128, 128, [180, 178, 176]);
    for (n, (cx, cy)) in [(20u32, 20u32), (60, 30), (100, 90), (30, 100)].iter().enumerate() {
        for y in 0..5 {
            for x in 0..5 {
                put(&mut img, cx + x, cy + y, [20 + 30 * n as u8, 20, 20]);
            }
        }
    }
    let mut p = DetectParams::default();
    let all = detect_spots(&img, &p);
    assert_eq!(all.len(), 4);
    for k in 0..4 {
        p.max_spots = k;
        let some = detect_spots(&img, &p);
        assert_eq!(some.len(), k);
        for (a, b) in some.iter().zip(all.iter()) {
            assert_eq!((a.cx, a.cy, a.r_norm), (b.cx, b.cy, b.r_norm));
        }
    }
    for (i, a) in all.iter().enumerate() {
        assert!((0.0..=1.0).contains(&f(a.cx)) && (0.0..=1.0).contains(&f(a.cy)));
        for b in all.iter().skip(i + 1) {
            let d = (f(a.cx) - f(b.cx)).hypot(f(a.cy) - f(b.cy));
            assert!(d > f(a.r_norm).max(f(b.r_norm)));
        }
    }
}

/// A picture too small for a spot stays as it is.
#[test]
fn small_pictures_are_left_alone() {
    for mode in [HealMode::FreqSep, HealMode::Poisson] {
        let img = solid(6, 6, [90, 80, 70]);
        let mut spot = SpotFix::new();
        spot.mode = mode;
        add(&mut spot, 0.5, 0.5, 0.5);
        assert_eq!(heal(&img, &spot, false).data, img.data);
    }
}

#[test]
fn bytes_and_pictures_give_the_same_spots() {
    let mut img = solid(64, 64, [180, 178, 176]);
    for dy in 0..3 {
        for dx in 0..3 {
            put(&mut img, 30 + dx, 20 + dy, [8, 8, 8]);
        }
    }
    let p = DetectParams::default();
    let a = detect_spots(&img, &p);
    let b = detect_spots_from_rgb(&img.data, 64, 64, &p);
    assert_eq!(a, b);
    assert_eq!(a.len(), 1);
    let (cx, cy) = (f(a[0].cx) * 64.0, f(a[0].cy) * 64.0);
    assert!((cx - 31.0).abs() < 1.0 && (cy - 21.0).abs() < 1.0, "{} {}", cx, cy);
}

/// The middle of a textured picture with a defect there, healed in a mode: how far it is from
/// the background.
fn heal_center_distance(mode: HealMode) -> f32 {
    let mut img = solid(96, 96, [200, 180, 160]);
    for y in 0..96 {
        for x in 0..96 {
            let n = ((x * 13 + y * 7) % 17) as i32;
            let v = get(&img, x, y);
            put(
                &mut img,
                x,
                y,
                [
                    (v[0] as i32 + n - 8).clamp(0, 255) as u8,
                    (v[1] as i32 + n - 8).clamp(0, 255) as u8,
                    (v[2] as i32 + n - 8).clamp(0, 255) as u8,
                ],
            );
        }
    }
    for y in 44..52 {
        for x in 44..52 {
            put(&mut img, x, y, [20, 20, 20]);
        }
    }
    let mut spot = SpotFix::new();
    spot.mode = mode;
    add(&mut spot, 0.5, 0.5, 0.07);
    let out = heal(&img, &spot, false);
    dist(get(&out, 48, 48), [200, 180, 160])
}

#[test]
fn freqsep_heals_defect_natural() {
    let d = heal_center_distance(HealMode::FreqSep);
    assert!(d < 60.0, "not healed to the background: {}", d);
    let mut img = solid(96, 96, [200, 180, 160]);
    for y in 44..52 {
        for x in 44..52 {
            put(&mut img, x, y, [20, 20, 20]);
        }
    }
    let mut spot = SpotFix::new();
    spot.mode = HealMode::FreqSep;
    add(&mut spot, 0.5, 0.5, 0.07);
    let out = heal(&img, &spot, false);
    assert_eq!(get(&out, 2, 2), [200, 180, 160], "the corner changed");
}

#[test]
fn poisson_heals_defect_seamless() {
    let d = heal_center_distance(HealMode::Poisson);
    assert!(d < 60.0, "not healed to the background: {}", d);
}

#[test]
fn poisson_no_panic_on_small_image() {
    let img = solid(16, 16, [120, 90, 200]);
    let mut spot = SpotFix::new();
    spot.mode = HealMode::Poisson;
    add(&mut spot, 0.5, 0.5, 0.2);
    let out = heal(&img, &spot, false);
    assert_eq!((out.width, out.height), (16, 16));
}

#[test]
fn patchmatch_selects_nearby_source_not_remote() {
    let w = 160i32;
    let h = 96i32;
    let mut img = solid(w as u32, h as u32, [0, 0, 0]);
    for y in 0..h as u32 {
        for x in 0..w as u32 {
            let v = if (x as i32) < w / 2 {
                if x % 4 < 2 { 230u8 } else { 50u8 }
            } else {
                if y % 16 < 8 { 230u8 } else { 50u8 }
            };
            put(&mut img, x, y, [v, v, v]);
        }
    }
    let cx = 30i32;
    let cy = h / 2;
    let r = 10i32;
    let step = (r / 3).max(2);
    let chosen = patchmatch_source_center(&img, cx, cy, r, step, &ring(w as u32, h as u32, r, step))
        .expect("there is a source");
    assert!(chosen.0 < cx + 5 * r, "the source is near: {} < {}", chosen.0, cx + 5 * r);
}

#[test]
fn patchmatch_edge_aware_matches_texture_energy() {
    let w = 160i32;
    let h = 96i32;
    let mut img = solid(w as u32, h as u32, [0, 0, 0]);
    for y in 0..h as u32 {
        for x in 0..w as u32 {
            let v = if x % 4 < 2 { 220u8 } else { 40u8 };
            put(&mut img, x, y, [v, v, v]);
        }
    }
    let cx = w / 2;
    let cy = h / 2;
    let r = 10i32;
    let step = (r / 3).max(2);
    let chosen = patchmatch_source_center(&img, cx, cy, r, step, &ring(w as u32, h as u32, r, step))
        .expect("there is a source");
    let energy = |ccx: i32, ccy: i32| -> f32 {
        let c = (r / 2).max(2);
        let mut sum = 0.0;
        let mut n = 0;
        for yy in (ccy - (r + c)..=ccy + (r + c)).step_by(2) {
            for xx in (ccx - (r + c)..=ccx + (r + c)).step_by(2) {
                let dx = xx - ccx;
                let dy = yy - ccy;
                let d = ((dx * dx + dy * dy) as f32).sqrt();
                if d >= r as f32 && d <= (r + c) as f32 {
                    let e = edge_feat(&img, xx as i64, yy as i64);
                    sum += f(e[1]).abs() + f(e[2]).abs();
                    n += 1;
                }
            }
        }
        if n > 0 {
            sum / n as f32
        } else {
            0.0
        }
    };
    let e_hole = energy(cx, cy);
    let e_src = energy(chosen.0, chosen.1);
    let ratio = if e_hole > 1e-3 { e_src / e_hole } else { 1.0 };
    assert!(ratio > 0.5 && ratio < 2.0, "the texture of the source is like that: {}", ratio);
}

#[test]
fn patchmatch_heals_defect_seamless() {
    let d = heal_center_distance(HealMode::PatchMatch);
    assert!(d < 60.0, "not healed to the background: {}", d);
}

#[test]
fn patchmatch_no_panic_on_small_image() {
    let img = solid(16, 16, [120, 90, 200]);
    let mut spot = SpotFix::new();
    spot.mode = HealMode::PatchMatch;
    add(&mut spot, 0.5, 0.5, 0.2);
    let out = heal(&img, &spot, false);
    assert_eq!((out.width, out.height), (16, 16));
}

#[test]
fn patchmatch_fills_a_thin_line() {
    let mut img = solid(64, 64, [200, 180, 160]);
    for y in 0..64u32 {
        for x in 30..32u32 {
            put(&mut img, x, y, [20, 20, 20]);
        }
    }
    let mut spot = SpotFix::new();
    spot.mode = HealMode::PatchMatch;
    for y in 0..64 {
        add(&mut spot, 0.5, y as f32 / 64.0, 0.04);
    }
    let out = heal(&img, &spot, false);
    let d = dist(get(&out, 31, 32), [200, 180, 160]);
    assert!(d < 45.0, "the line is not filled: {}", d);
    assert_eq!(get(&out, 2, 2), [200, 180, 160], "the corner changed");
}

#[test]
fn no_strokes_heal_nothing() {
    let img = solid(20, 10, [1, 2, 3]);
    for mode in [HealMode::Telea, HealMode::FreqSep, HealMode::Poisson, HealMode::PatchMatch] {
        let mut spot = SpotFix::default();
        spot.mode = mode;
        let out = spot.heal(&img, true, &Vec::new(), &Vec::new());
        assert_eq!(out.data, img.data);
    }
}

#[test]
fn healing_stays_near_the_strokes() {
    for mode in [HealMode::Telea, HealMode::FreqSep, HealMode::Poisson, HealMode::PatchMatch] {
        let mut img = solid(64, 64, [100, 110, 120]);
        for y in 0..64 {
            for x in 0..64 {
                put(&mut img, x, y, [100 + (x % 5) as u8, 110 + (y % 3) as u8, 120]);
            }
        }
        for y in 30..34 {
            for x in 30..34 {
                put(&mut img, x, y, [240, 20, 20]);
            }
        }
        let mut spot = SpotFix::new();
        spot.mode = mode;
        add(&mut spot, 0.5, 0.5, 0.08);
        let out = heal(&img, &spot, true);
        for y in 0..64u32 {
            for x in 0..64u32 {
                if x < 22 || x > 42 || y < 22 || y > 42 {
                    assert_eq!(get(&out, x, y), get(&img, x, y));
                }
            }
        }
        assert!(get(&out, 32, 32)[0] < 200);
    }
}

#[test]
fn removal_stays_under_the_strokes() {
    let mut img = solid(48, 48, [90, 120, 60]);
    for y in 0..48 {
        for x in 0..48 {
            put(&mut img, x, y, [90 + (x % 7) as u8, 120 + (y % 5) as u8, 60]);
        }
    }
    for y in 22..26 {
        for x in 22..26 {
            put(&mut img, x, y, [250, 10, 10]);
        }
    }
    let mut spot = SpotFix::new();
    spot.mode = HealMode::PatchMatch;
    add(&mut spot, 0.5, 0.5, 0.1);
    let (cx, cy, r) = resolve(&spot.strokes[0], 48, 48);
    assert_eq!((cx, cy, r), (24, 24, 5));
    let out = heal(&img, &spot, true);
    for y in 0..48i32 {
        for x in 0..48i32 {
            if (x - cx) * (x - cx) + (y - cy) * (y - cy) > r * r {
                assert_eq!(get(&out, x as u32, y as u32), get(&img, x as u32, y as u32));
            }
        }
    }
    assert!(get(&out, 24, 24)[0] < 120);
}

#[test]
fn spot_empty_is_identity() {
    let img = solid(32, 32, [120, 90, 200]);
    let out = render_with_spot(&img, None);
    assert_eq!(get(&out, 0, 0), [120, 90, 200]);
    let out = render_with_spot(&img, Some(&SpotFix::new()));
    assert_eq!(out.data, img.data);
}

#[test]
fn spot_fills_a_small_defect() {
    let mut img = solid(64, 64, [200, 180, 160]);
    for y in 30..34 {
        for x in 30..34 {
            put(&mut img, x, y, [10, 10, 10]);
        }
    }
    let mut spot = SpotFix::new();
    add(&mut spot, 0.5, 0.5, 0.06);
    let (mask, radius) = spot.build_mask(64, 64);
    let out = inpaint_rgb(&img, &mask, radius);
    let d = dist(get(&out, 32, 32), [200, 180, 160]);
    assert!(d < 40.0, "not filled with the background: {}", d);
    assert_eq!(get(&out, 2, 2), [200, 180, 160]);
    let again = render_with_spot(&img, Some(&spot));
    assert_eq!(again.data, out.data);
}

#[test]
fn build_mask_radius_scales_with_size() {
    let mut spot = SpotFix::new();
    add(&mut spot, 0.5, 0.5, 0.05);
    let (_m64, r64) = spot.build_mask(64, 64);
    let (_m256, r256) = spot.build_mask(256, 256);
    assert!(r256 > r64, "the radius grows with the picture");
    assert_eq!((r64, r256), (5, 19));
}

#[test]
fn feathered_spots_fill_and_stay_soft() {
    let mut img = solid(64, 64, [200, 180, 160]);
    for y in 28..36 {
        for x in 28..36 {
            put(&mut img, x, y, [10, 10, 10]);
        }
    }
    let mut spot = SpotFix::new();
    add(&mut spot, 0.5, 0.5, 0.10);
    let out = inpaint_rgb_feathered(&img, &spot, &fades_for(&spot, 64, 64));
    let d = dist(get(&out, 32, 32), [200, 180, 160]);
    assert!(d < 40.0, "the middle is not filled: {}", d);
    assert_eq!(get(&out, 2, 2), [200, 180, 160]);
    let edge = dist(get(&out, 40, 32), [200, 180, 160]);
    assert!(edge <= 40.0, "the soft edge is off: {}", edge);
}

#[test]
fn masks_mark_disks() {
    let mut spot = SpotFix::new();
    add(&mut spot, 0.5, 0.5, 0.1);
    let (mask, _) = spot.build_mask(20, 20);
    assert_eq!((mask.width, mask.height), (20, 20));
    assert_eq!(mask.data[10 * 20 + 10], 255);
    assert_eq!(mask.data[10 * 20 + 12], 255);
    assert_eq!(mask.data[10 * 20 + 13], 0);
    assert_eq!(mask.data.iter().filter(|v| **v == 255).count(), 13);
}

#[test]
fn filling_without_a_radius_does_nothing() {
    let img = solid(8, 8, [5, 6, 7]);
    let mask = GrayImage { width: 8, height: 8, data: vec![255; 64] };
    assert_eq!(inpaint_rgb(&img, &mask, 0).data, img.data);
    assert_eq!(inpaint_rgb(&img, &mask, -3).data, img.data);
}

#[test]
fn strokes_are_moved_into_the_picture() {
    let t = SpotStroke::new(s(-1.0), s(2.0), s(-0.5));
    assert_eq!((f(t.cx), f(t.cy), f(t.r_norm)), (0.0, 1.0, 0.0));
    let mut spot = SpotFix::new();
    assert!(spot.is_empty());
    assert_eq!(spot.mode, HealMode::Poisson);
    add(&mut spot, 0.25, 0.75, 0.01);
    assert!(!spot.is_empty());
    spot.mode = HealMode::Telea;
    spot.clear();
    assert!(spot.is_empty());
    assert_eq!(spot.mode, HealMode::Telea);
}
