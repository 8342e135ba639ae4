//! The search for a source patch: where in the picture the surroundings look most like those
//! of a spot, in brightness and in edges.

use crate::poisson::{box_inside, held};
use crate::raster::{lemma_pixel_in_range, lemma_pixel_place, RgbImage};
use crate::single::{num, Single};
use vstd::prelude::*;

verus! {

/// The brightness of a pixel held inside the image.
pub open spec fn lum(img: RgbImage, x: int, y: int) -> Single {
    let hx = held(x, img.width as int);
    let hy = held(y, img.height as int);
    num(0x3e99_1687).times(Single::spec_from_int(img.at(hx, hy, 0) as int)).plus(  // 0.299
        num(0x3f16_45a2).times(Single::spec_from_int(img.at(hx, hy, 1) as int)),  // 0.587
    ).plus(num(0x3de9_78d5).times(Single::spec_from_int(img.at(hx, hy, 2) as int)))  // 0.114
}

/// What is compared of a pixel: its brightness and the differences across it.
pub open spec fn feature(img: RgbImage, x: int, y: int) -> (Single, Single, Single) {
    let hx = held(x, img.width as int);
    let hy = held(y, img.height as int);
    (
        lum(img, hx, hy),
        lum(img, hx + 1, hy).minus(lum(img, hx - 1, hy)),
        lum(img, hx, hy + 1).minus(lum(img, hx, hy - 1)),
    )
}

/// One compared pixel of a spot's surroundings: its place and its feature.
pub struct Sample {
    pub x: i64,
    pub y: i64,
    pub feature: (Single, Single, Single),
}

/// A sample's part in the difference: the squared differences, weighted up at edges.
pub open spec fn sample_term(
    acc: Single,
    s: Sample,
    f: (Single, Single, Single),
    edge_w: Single,
) -> Single {
    let h = s.feature;
    let w = num(0x3f80_0000).plus(edge_w.times(h.1.abs().plus(h.2.abs())));
    let d0 = h.0.minus(f.0);
    let d1 = h.1.minus(f.1);
    let d2 = h.2.minus(f.2);
    acc.plus(w.times(d0).times(d0)).plus(w.times(d1).times(d1)).plus(w.times(d2).times(d2))
}

/// How much the surroundings of a place moved by `(dx, dy)` differ from the samples.
pub open spec fn difference(
    img: RgbImage,
    samples: Seq<Sample>,
    dx: int,
    dy: int,
    edge_w: Single,
) -> Single
    decreases samples.len(),
{
    if samples.len() == 0 {
        num(0)
    } else {
        let s = samples.last();
        sample_term(
            difference(img, samples.drop_last(), dx, dy, edge_w),
            s,
            feature(img, s.x + dx, s.y + dy),
            edge_w,
        )
    }
}

/// The width of the band of surroundings that is compared.
pub open spec fn band(r: int) -> int {
    if r / 2 < 2 {
        2
    } else {
        r / 2
    }
}

/// The step from one compared pixel to the next.
pub open spec fn stride(r: int) -> int {
    if r / 4 < 1 {
        1
    } else {
        r / 4
    }
}

/// How many steps a side of the compared square has.
pub open spec fn steps(r: int) -> int {
    (2 * (r + band(r))) / stride(r) + 1
}

/// Candidate `t` for a sample: its offset from the centre.
pub open spec fn offset_of(r: int, t: int) -> (int, int) {
    let m = steps(r);
    (
        -(r + band(r)) + (t % m) * stride(r),
        -(r + band(r)) + (t / m) * stride(r),
    )
}

/// The offset lies in the band around the disk.
pub open spec fn in_band(r: int, dx: int, dy: int) -> bool {
    let dist = Single::spec_from_int(dx * dx + dy * dy).sqrt();
    dist.ge(Single::spec_from_int(r)) && dist.le(Single::spec_from_int(r + band(r)))
}

/// The compared pixels among the first `t` candidates.
pub open spec fn samples_of(img: RgbImage, cx: int, cy: int, r: int, t: int) -> Seq<Sample>
    decreases t,
{
    if t <= 0 {
        Seq::empty()
    } else {
        let before = samples_of(img, cx, cy, r, t - 1);
        let (dx, dy) = offset_of(r, t - 1);
        if in_band(r, dx, dy) {
            before.push(
                Sample {
                    x: (cx + dx) as i64,
                    y: (cy + dy) as i64,
                    feature: feature(img, cx + dx, cy + dy),
                },
            )
        } else {
            before
        }
    }
}

/// All compared pixels around a spot.
pub open spec fn surroundings(img: RgbImage, cx: int, cy: int, r: int) -> Seq<Sample> {
    samples_of(img, cx, cy, r, steps(r) * steps(r))
}

/// A patch around `(sx, sy)` lies in the image and does not overlap the spot.
pub open spec fn is_legal(w: int, h: int, cx: int, cy: int, r: int, sx: int, sy: int) -> bool {
    let reach = num(0x4000_0000).times(Single::spec_from_int(r));
    &&& r <= sx && r <= sy && sx + r < w && sy + r < h
    &&& Single::spec_from_int((sx - cx) * (sx - cx) + (sy - cy) * (sy - cy)).gt(
        reach.times(reach),
    )
}

/// The better of the best place so far and a new one.
pub open spec fn better(
    best: Option<(i64, i64, Single)>,
    x: i64,
    y: i64,
    score: Single,
) -> Option<(i64, i64, Single)> {
    match best {
        Some(b) => if score.lt(b.2) {
            Some((x, y, score))
        } else {
            best
        },
        None => Some((x, y, score)),
    }
}

/// The best legal place among the first `k` on the ring.
pub open spec fn best_on_ring(
    img: RgbImage,
    samples: Seq<Sample>,
    cx: int,
    cy: int,
    r: int,
    ring: Seq<(i32, i32)>,
    k: int,
) -> Option<(i64, i64, Single)>
    decreases k,
{
    if k <= 0 {
        None
    } else {
        let best = best_on_ring(img, samples, cx, cy, r, ring, k - 1);
        let sx = cx + ring[k - 1].0;
        let sy = cy + ring[k - 1].1;
        if is_legal(img.width as int, img.height as int, cx, cy, r, sx, sy) {
            better(
                best,
                sx as i64,
                sy as i64,
                difference(img, samples, sx - cx, sy - cy, num(0x3dcc_cccd)),  // 0.1
            )
        } else {
            best
        }
    }
}

/// How many places a grid of the given step has along a side.
pub open spec fn grid_side(n: int, r: int, step: int) -> int {
    if n <= 2 * r {
        0
    } else {
        (n - 2 * r - 1) / step + 1
    }
}

/// The difference at a place of the grid, with a charge for its distance from the spot.
pub open spec fn charged(
    img: RgbImage,
    samples: Seq<Sample>,
    cx: int,
    cy: int,
    r: int,
    sx: int,
    sy: int,
) -> Single {
    let dx = Single::spec_from_int(sx - cx);
    let dy = Single::spec_from_int(sy - cy);
    let dist = dx.times(dx).plus(dy.times(dy)).sqrt();
    let off = dist.minus(num(0x4020_0000).times(Single::spec_from_int(r)));  // 2.5
    difference(img, samples, sx - cx, sy - cy, num(0x3dcc_cccd)).plus(  // 0.1
        num(0x3c23_d70a).times(off.times(off)),  // 0.01
    )
}

/// The best legal place among the first `k` on the grid, column by column.
pub open spec fn best_on_grid(
    img: RgbImage,
    samples: Seq<Sample>,
    cx: int,
    cy: int,
    r: int,
    step: int,
    k: int,
) -> Option<(i64, i64, Single)>
    decreases k,
{
    if k <= 0 {
        None
    } else {
        let best = best_on_grid(img, samples, cx, cy, r, step, k - 1);
        let ny = grid_side(img.height as int, r, step);
        let sx = r + ((k - 1) / ny) * step;
        let sy = r + ((k - 1) % ny) * step;
        if is_legal(img.width as int, img.height as int, cx, cy, r, sx, sy) {
            better(best, sx as i64, sy as i64, charged(img, samples, cx, cy, r, sx, sy))
        } else {
            best
        }
    }
}

/// The source for a spot.
pub open spec fn source_for(
    img: RgbImage,
    cx: int,
    cy: int,
    r: int,
    step: int,
    ring: Seq<(i32, i32)>,
) -> Option<(i32, i32)> {
    let w = img.width as int;
    let h = img.height as int;
    let samples = surroundings(img, cx, cy, r);
    if !box_inside(w, h, cx, cy, r) || samples.len() == 0 {
        None
    } else {
        match best_on_ring(img, samples, cx, cy, r, ring, ring.len() as int) {
            Some(b) => Some((b.0 as i32, b.1 as i32)),
            None => match best_on_grid(
                img,
                samples,
                cx,
                cy,
                r,
                step,
                grid_side(w, r, step) * grid_side(h, r, step),
            ) {
                Some(b) => Some((b.0 as i32, b.1 as i32)),
                None => None,
            },
        }
    }
}

fn hold(i: i64, n: u32) -> (r: u32)
    requires
        0 < n,
    ensures
        r == held(i as int, n as int),
        r < n,
{
    if i < 0 {
        0
    } else if i >= n as i64 {
        n - 1
    } else {
        i as u32
    }
}

fn read_lum(img: &RgbImage, x: i64, y: i64) -> (v: Single)
    requires
        img.wf(),
        0 < img.width,
        0 < img.height,
    ensures
        v == lum(*img, x as int, y as int),
{
    let o: usize = img.offset(hold(x, img.width), hold(y, img.height));
    num(0x3e99_1687).times(Single::from_int(img.data[o] as i128)).plus(  // 0.299
        num(0x3f16_45a2).times(Single::from_int(img.data[o + 1] as i128)),  // 0.587
    ).plus(num(0x3de9_78d5).times(Single::from_int(img.data[o + 2] as i128)))  // 0.114
}

/// The feature of a pixel: brightness, and the differences across it.
pub fn edge_feat(img: &RgbImage, x: i64, y: i64) -> (f: [Single; 3])
    requires
        img.wf(),
        0 < img.width,
        0 < img.height,
    ensures
        (f@[0], f@[1], f@[2]) == feature(*img, x as int, y as int),
{
    let hx: i64 = hold(x, img.width) as i64;
    let hy: i64 = hold(y, img.height) as i64;
    let l: Single = read_lum(img, hx, hy);
    let gx: Single = read_lum(img, hx + 1, hy).minus(read_lum(img, hx - 1, hy));
    let gy: Single = read_lum(img, hx, hy + 1).minus(read_lum(img, hx, hy - 1));
    [l, gx, gy]
}

/// The difference between the samples and a place moved by `(dx, dy)`.
fn context_ssd(img: &RgbImage, samples: &Vec<Sample>, dx: i64, dy: i64, edge_w: Single) -> (v:
    Single)
    requires
        img.wf(),
        0 < img.width,
        0 < img.height,
        -0x4_0000_0000 <= dx <= 0x4_0000_0000,
        -0x4_0000_0000 <= dy <= 0x4_0000_0000,
        forall|i: int|
            0 <= i < samples@.len() ==> -0x4_0000_0000 <= (#[trigger] samples@[i]).x
                <= 0x4_0000_0000 && -0x4_0000_0000 <= samples@[i].y <= 0x4_0000_0000,
    ensures
        v == difference(*img, samples@, dx as int, dy as int, edge_w),
{
    let mut sum: Single = num(0);
    let mut i: usize = 0;
    assert(samples@.subrange(0, 0) =~= Seq::empty());
    while i < samples.len()
        invariant
            img.wf(),
            0 < img.width,
            0 < img.height,
            -0x4_0000_0000 <= dx <= 0x4_0000_0000,
            -0x4_0000_0000 <= dy <= 0x4_0000_0000,
            forall|j: int|
                0 <= j < samples@.len() ==> -0x4_0000_0000 <= (#[trigger] samples@[j]).x
                    <= 0x4_0000_0000 && -0x4_0000_0000 <= samples@[j].y <= 0x4_0000_0000,
            i <= samples@.len(),
            sum == difference(
                *img,
                samples@.subrange(0, i as int),
                dx as int,
                dy as int,
                edge_w,
            ),
        decreases samples@.len() - i,
    {
        let s: &Sample = &samples[i];
        let h: (Single, Single, Single) = s.feature;
        let f: [Single; 3] = edge_feat(img, s.x + dx, s.y + dy);
        let w: Single = num(0x3f80_0000).plus(edge_w.times(h.1.abs().plus(h.2.abs())));
        let d0: Single = h.0.minus(f[0]);
        let d1: Single = h.1.minus(f[1]);
        let d2: Single = h.2.minus(f[2]);
        sum = sum.plus(w.times(d0).times(d0)).plus(w.times(d1).times(d1)).plus(
            w.times(d2).times(d2),
        );
        proof {
            let next = samples@.subrange(0, i + 1);
            assert(next.drop_last() =~= samples@.subrange(0, i as int));
            assert(next.last() == samples@[i as int]);
        }
        i = i + 1;
    }
    assert(samples@.subrange(0, i as int) =~= samples@);
    sum
}

/// The compared pixels around a spot.
fn gather(img: &RgbImage, cx: i64, cy: i64, r: i64) -> (samples: Vec<Sample>)
    requires
        img.wf(),
        0 < img.width,
        0 < img.height,
        1 <= r <= 0x7fff_ffff,
        0 <= cx <= 0xffff_ffff,
        0 <= cy <= 0xffff_ffff,
    ensures
        samples@ == surroundings(*img, cx as int, cy as int, r as int),
        forall|i: int|
            0 <= i < samples@.len() ==> -0x4_0000_0000 <= (#[trigger] samples@[i]).x
                <= 0x4_0000_0000 && -0x4_0000_0000 <= samples@[i].y <= 0x4_0000_0000,
{
    let b: i64 = if r / 2 < 2 { 2 } else { r / 2 };
    let s: i64 = if r / 4 < 1 { 1 } else { r / 4 };
    let m: i64 = (2 * (r + b)) / s + 1;
    let low: Single = Single::from_int(r as i128);
    let high: Single = Single::from_int((r + b) as i128);
    let ghost gr = r as int;
    proof {
        assert(1 <= m <= 100) by {
            assert(2 * (r + b) <= 12 * s + 24) by (nonlinear_arith)
                requires
                    r >= 1,
                    b == if r / 2 < 2 { 2 } else { r / 2 },
                    s == if r / 4 < 1 { 1 } else { r / 4 },
            ;
            assert(1 <= m <= 100) by (nonlinear_arith)
                requires
                    m == (2 * (r + b)) / (s as int) + 1,
                    0 <= 2 * (r + b) <= 12 * s + 24,
                    s >= 1,
            ;
        }
        assert(m * m <= 10000) by (nonlinear_arith)
            requires
                0 <= m <= 100,
        ;
    }
    let n: i64 = m * m;
    let mut samples: Vec<Sample> = Vec::new();
    let mut t: i64 = 0;
    while t < n
        invariant
            img.wf(),
            0 < img.width,
            0 < img.height,
            gr == r,
            1 <= r <= 0x7fff_ffff,
            0 <= cx <= 0xffff_ffff,
            0 <= cy <= 0xffff_ffff,
            b == band(gr),
            s == stride(gr),
            m == steps(gr),
            1 <= m <= 100,
            n == m * m,
            low == Single::spec_from_int(gr),
            high == Single::spec_from_int(gr + band(gr)),
            0 <= t <= n,
            samples@ == samples_of(*img, cx as int, cy as int, gr, t as int),
            forall|i: int|
                0 <= i < samples@.len() ==> -0x4_0000_0000 <= (#[trigger] samples@[i]).x
                    <= 0x4_0000_0000 && -0x4_0000_0000 <= samples@[i].y <= 0x4_0000_0000,
        decreases n - t,
    {
        proof {
            lemma_pixel_place(m as int, m as int, t as int);
            assert(0 <= (t % m) * s <= 2 * (r + b) && 0 <= (t / m) * s <= 2 * (r + b))
                by (nonlinear_arith)
                requires
                    0 <= t % m < m,
                    0 <= t / m < m,
                    m == (2 * (r + b)) / (s as int) + 1,
                    s >= 1,
                    r + b >= 0,
            ;
        }
        let dx: i64 = -(r + b) + (t % m) * s;
        let dy: i64 = -(r + b) + (t / m) * s;
        assert(0 <= dx * dx <= 0x1_0000_0000 * 0x1_0000_0000 && 0 <= dy * dy <= 0x1_0000_0000
            * 0x1_0000_0000) by (nonlinear_arith)
            requires
                -0x1_0000_0000 <= dx <= 0x1_0000_0000,
                -0x1_0000_0000 <= dy <= 0x1_0000_0000,
        ;
        let sq: i128 = (dx as i128) * (dx as i128) + (dy as i128) * (dy as i128);
        let dist: Single = Single::from_int(sq).sqrt();
        if dist.ge(low) && dist.le(high) {
            let f: [Single; 3] = edge_feat(img, cx + dx, cy + dy);
            samples.push(Sample { x: cx + dx, y: cy + dy, feature: (f[0], f[1], f[2]) });
        }
        t = t + 1;
    }
    samples
}

fn legal(w: u32, h: u32, cx: i64, cy: i64, r: i64, sx: i64, sy: i64) -> (b: bool)
    requires
        1 <= r <= 0x7fff_ffff,
        0 <= cx <= 0xffff_ffff,
        0 <= cy <= 0xffff_ffff,
        -0x1_0000_0000 <= sx <= 0x2_0000_0000,
        -0x1_0000_0000 <= sy <= 0x2_0000_0000,
    ensures
        b == is_legal(w as int, h as int, cx as int, cy as int, r as int, sx as int, sy as int),
{
    if sx < r || sy < r || sx + r >= w as i64 || sy + r >= h as i64 {
        return false;
    }
    let dx: i128 = sx as i128 - cx as i128;
    let dy: i128 = sy as i128 - cy as i128;
    assert(0 <= dx * dx <= 0x4_0000_0000 * 0x4_0000_0000 && 0 <= dy * dy <= 0x4_0000_0000
        * 0x4_0000_0000) by (nonlinear_arith)
        requires
            -0x4_0000_0000 <= dx <= 0x4_0000_0000,
            -0x4_0000_0000 <= dy <= 0x4_0000_0000,
    ;
    let reach: Single = num(0x4000_0000).times(Single::from_int(r as i128));  // 2
    Single::from_int(dx * dx + dy * dy).gt(reach.times(reach))
}

fn pick(best: Option<(i64, i64, Single)>, x: i64, y: i64, score: Single) -> (r: Option<
    (i64, i64, Single),
>)
    ensures
        r == better(best, x, y, score),
{
    match best {
        Some(b) => if score.lt(b.2) {
            Some((x, y, score))
        } else {
            best
        },
        None => Some((x, y, score)),
    }
}

/// What a best place is: inside the image.
spec fn best_inside(best: Option<(i64, i64, Single)>, w: int, h: int) -> bool {
    best matches Some(b) ==> 0 <= b.0 < w && 0 <= b.1 < h
}

fn search_ring(
    img: &RgbImage,
    samples: &Vec<Sample>,
    cx: i64,
    cy: i64,
    r: i64,
    ring: &Vec<(i32, i32)>,
) -> (best: Option<(i64, i64, Single)>)
    requires
        img.wf(),
        0 < img.width,
        0 < img.height,
        1 <= r <= 0x7fff_ffff,
        0 <= cx <= 0xffff_ffff,
        0 <= cy <= 0xffff_ffff,
        forall|i: int|
            0 <= i < samples@.len() ==> -0x4_0000_0000 <= (#[trigger] samples@[i]).x
                <= 0x4_0000_0000 && -0x4_0000_0000 <= samples@[i].y <= 0x4_0000_0000,
    ensures
        best == best_on_ring(
            *img,
            samples@,
            cx as int,
            cy as int,
            r as int,
            ring@,
            ring@.len() as int,
        ),
        best_inside(best, img.width as int, img.height as int),
{
    let mut best: Option<(i64, i64, Single)> = None;
    let mut k: usize = 0;
    while k < ring.len()
        invariant
            img.wf(),
            0 < img.width,
            0 < img.height,
            1 <= r <= 0x7fff_ffff,
            0 <= cx <= 0xffff_ffff,
            0 <= cy <= 0xffff_ffff,
            forall|i: int|
                0 <= i < samples@.len() ==> -0x4_0000_0000 <= (#[trigger] samples@[i]).x
                    <= 0x4_0000_0000 && -0x4_0000_0000 <= samples@[i].y <= 0x4_0000_0000,
            k <= ring@.len(),
            best == best_on_ring(
                *img,
                samples@,
                cx as int,
                cy as int,
                r as int,
                ring@,
                k as int,
            ),
            best_inside(best, img.width as int, img.height as int),
        decreases ring@.len() - k,
    {
        let (ox, oy) = ring[k];
        let sx: i64 = cx + ox as i64;
        let sy: i64 = cy + oy as i64;
        if legal(img.width, img.height, cx, cy, r, sx, sy) {
            let s: Single = context_ssd(img, samples, sx - cx, sy - cy, num(0x3dcc_cccd));  // 0.1
            best = pick(best, sx, sy, s);
        }
        k = k + 1;
    }
    best
}

fn side_of_grid(n: u32, r: i64, step: i64) -> (m: i64)
    requires
        1 <= r <= 0x7fff_ffff,
        1 <= step <= 0x7fff_ffff,
    ensures
        m == grid_side(n as int, r as int, step as int),
        0 <= m <= 0xffff_ffff,
        m > 0 ==> r + (m - 1) * step + r < n,
{
    if n as i64 <= 2 * r {
        return 0;
    }
    let m: i64 = (n as i64 - 2 * r - 1) / step + 1;
    proof {
        let a = n - 2 * r - 1;
        assert(0 <= (m - 1) * step <= a && m <= a + 1) by (nonlinear_arith)
            requires
                m == a / (step as int) + 1,
                a >= 0,
                step >= 1,
        ;
    }
    m
}

fn search_grid(
    img: &RgbImage,
    samples: &Vec<Sample>,
    cx: i64,
    cy: i64,
    r: i64,
    step: i64,
) -> (best: Option<(i64, i64, Single)>)
    requires
        img.wf(),
        0 < img.width,
        0 < img.height,
        1 <= r <= 0x7fff_ffff,
        1 <= step <= 0x7fff_ffff,
        0 <= cx <= 0xffff_ffff,
        0 <= cy <= 0xffff_ffff,
        forall|i: int|
            0 <= i < samples@.len() ==> -0x4_0000_0000 <= (#[trigger] samples@[i]).x
                <= 0x4_0000_0000 && -0x4_0000_0000 <= samples@[i].y <= 0x4_0000_0000,
    ensures
        best == best_on_grid(
            *img,
            samples@,
            cx as int,
            cy as int,
            r as int,
            step as int,
            grid_side(img.width as int, r as int, step as int) * grid_side(
                img.height as int,
                r as int,
                step as int,
            ),
        ),
        best_inside(best, img.width as int, img.height as int),
{
    let nx: i64 = side_of_grid(img.width, r, step);
    let ny: i64 = side_of_grid(img.height, r, step);
    let mut best: Option<(i64, i64, Single)> = None;
    let mut i: i64 = 0;
    let ghost (gx, gy, gr, gs) = (cx as int, cy as int, r as int, step as int);
    assert(0 * ny == 0);
    while i < nx
        invariant
            img.wf(),
            0 < img.width,
            0 < img.height,
            gx == cx,
            gy == cy,
            gr == r,
            gs == step,
            1 <= r <= 0x7fff_ffff,
            1 <= step <= 0x7fff_ffff,
            0 <= cx <= 0xffff_ffff,
            0 <= cy <= 0xffff_ffff,
            forall|j: int|
                0 <= j < samples@.len() ==> -0x4_0000_0000 <= (#[trigger] samples@[j]).x
                    <= 0x4_0000_0000 && -0x4_0000_0000 <= samples@[j].y <= 0x4_0000_0000,
            nx == grid_side(img.width as int, gr, gs),
            ny == grid_side(img.height as int, gr, gs),
            0 <= nx <= 0xffff_ffff,
            0 <= ny <= 0xffff_ffff,
            nx > 0 ==> r + (nx - 1) * step + r < img.width,
            ny > 0 ==> r + (ny - 1) * step + r < img.height,
            0 <= i <= nx,
            best == best_on_grid(*img, samples@, gx, gy, gr, gs, i * ny),
            best_inside(best, img.width as int, img.height as int),
        decreases nx - i,
    {
        let mut j: i64 = 0;
        while j < ny
            invariant
                img.wf(),
                0 < img.width,
                0 < img.height,
                gx == cx,
                gy == cy,
                gr == r,
                gs == step,
                1 <= r <= 0x7fff_ffff,
                1 <= step <= 0x7fff_ffff,
                0 <= cx <= 0xffff_ffff,
                0 <= cy <= 0xffff_ffff,
                forall|k: int|
                    0 <= k < samples@.len() ==> -0x4_0000_0000 <= (#[trigger] samples@[k]).x
                        <= 0x4_0000_0000 && -0x4_0000_0000 <= samples@[k].y <= 0x4_0000_0000,
                nx == grid_side(img.width as int, gr, gs),
                ny == grid_side(img.height as int, gr, gs),
                nx > 0 ==> r + (nx - 1) * step + r < img.width,
                ny > 0 ==> r + (ny - 1) * step + r < img.height,
                0 <= i < nx,
                0 <= j <= ny,
                best == best_on_grid(*img, samples@, gx, gy, gr, gs, i * ny + j),
                best_inside(best, img.width as int, img.height as int),
            decreases ny - j,
        {
            proof {
                lemma_pixel_in_range(ny as int, nx as int, j as int, i as int);
                assert(0 <= i * step <= (nx - 1) * step) by (nonlinear_arith)
                    requires
                        0 <= i <= nx - 1,
                        step >= 1,
                ;
                assert(0 <= j * step <= (ny - 1) * step) by (nonlinear_arith)
                    requires
                        0 <= j <= ny - 1,
                        step >= 1,
                ;
            }
            let sx: i64 = r + i * step;
            let sy: i64 = r + j * step;
            if legal(img.width, img.height, cx, cy, r, sx, sy) {
                // 0.1
                let s: Single = context_ssd(img, samples, sx - cx, sy - cy, num(0x3dcc_cccd));
                let dx: Single = Single::from_int((sx - cx) as i128);
                let dy: Single = Single::from_int((sy - cy) as i128);
                let dist: Single = dx.times(dx).plus(dy.times(dy)).sqrt();
                // 2.5
                let off: Single = dist.minus(num(0x4020_0000).times(Single::from_int(r as i128)));
                let score: Single = s.plus(num(0x3c23_d70a).times(off.times(off)));  // 0.01
                best = pick(best, sx, sy, score);
            }
            j = j + 1;
        }
        assert((i + 1) * ny == i * ny + ny) by (nonlinear_arith);
        i = i + 1;
    }
    best
}

/// The place whose surroundings look most like those of the spot: the best on the ring, or
/// else the best on a grid over the whole picture, or none. `ring` holds offsets from the
/// spot's centre, in the order in which they are tried.
pub fn patchmatch_source_center(
    img: &RgbImage,
    cx: i32,
    cy: i32,
    r: i32,
    step: i32,
    ring: &Vec<(i32, i32)>,
) -> (source: Option<(i32, i32)>)
    requires
        img.wf(),
        img.width <= i32::MAX,
        img.height <= i32::MAX,
        1 <= r,
        1 <= step,
    ensures
        source == source_for(*img, cx as int, cy as int, r as int, step as int, ring@),
{
    let (gx, gy, rad): (i64, i64, i64) = (cx as i64, cy as i64, r as i64);
    if gx - rad < 0 || gy - rad < 0 || gx + rad >= img.width as i64 || gy + rad
        >= img.height as i64 {
        return None;
    }
    let samples: Vec<Sample> = gather(img, gx, gy, rad);
    if samples.len() == 0 {
        return None;
    }
    match search_ring(img, &samples, gx, gy, rad, ring) {
        Some(b) => {
            return Some((b.0 as i32, b.1 as i32));
        },
        None => {},
    }
    match search_grid(img, &samples, gx, gy, rad, step as i64) {
        Some(b) => Some((b.0 as i32, b.1 as i32)),
        None => None,
    }
}

/// The radii of the rings on which a source is looked for first.
pub open spec fn ring_span(w: int, h: int, r: int) -> (int, int) {
    let short = if w < h { w } else { h };
    let inner = r + band(r);
    let five = Single::spec_from_int(r).times(num(0x40a0_0000)).truncated(  // 5
        i32::MIN as int,
        i32::MAX as int,
    );
    let outer = if short / 2 - r < five { short / 2 - r } else { five };
    (inner, if outer < inner + 1 { inner + 1 } else { outer })
}

/// How many places are tried on the ring of radius `rad`: one for every `step` along it, six at
/// least.
pub open spec fn ring_places(rad: int, step: int) -> int {
    num(0x40c9_0fdb).times(Single::spec_from_int(rad)).over(Single::spec_from_int(step)).max(
        num(0x40c0_0000),
    ).truncated(i32::MIN as int, i32::MAX as int)
}

/// The angle of place `k` of `n` on a ring.
pub open spec fn ring_angle(k: int, n: int) -> Single {
    // two pi
    num(0x40c9_0fdb).times(Single::spec_from_int(k)).over(Single::spec_from_int(n))
}

/// Where a place on a ring is taken: cos and sin of this.
pub fn ring_angle_of(k: i32, n: i32) -> (a: Single)
    ensures
        a == ring_angle(k as int, n as int),
{
    // two pi
    num(0x40c9_0fdb).times(Single::from_int(k as i128)).over(Single::from_int(n as i128))
}

/// The offset of a place on a ring of radius `rad`, from the cosine and sine of its angle.
pub open spec fn ring_place(rad: int, cos: Single, sin: Single) -> (int, int) {
    let r = Single::spec_from_int(rad);
    (
        r.times(cos).round().truncated(i32::MIN as int, i32::MAX as int),
        r.times(sin).round().truncated(i32::MIN as int, i32::MAX as int),
    )
}

/// Gives the offset of a place on a ring.
pub fn ring_place_of(rad: i32, cos: Single, sin: Single) -> (p: (i32, i32))
    ensures
        (p.0 as int, p.1 as int) == ring_place(rad as int, cos, sin),
{
    let r: Single = Single::from_int(rad as i128);
    (r.times(cos).round().to_i32(), r.times(sin).round().to_i32())
}

/// The rings that are tried around a spot: the radius of each and how many places it has,
/// evenly spaced from the right.
pub fn ring_plan(w: u32, h: u32, r: i32, step: i32) -> (plan: Vec<(i32, i32)>)
    requires
        w <= i32::MAX,
        h <= i32::MAX,
        1 <= r <= 0x0fff_ffff,
        1 <= step,
    ensures
        ({
            let gap = if step < 2 { 2int } else { step as int };
            let (inner, outer) = ring_span(w as int, h as int, r as int);
            &&& plan@.len() == (outer - inner) / gap + 1
            &&& forall|k: int|
                0 <= k < plan@.len() ==> (#[trigger] plan@[k]).0 == inner + k * gap && plan@[k].1
                    == ring_places(inner + k * gap, gap)
        }),
{
    let gap: i64 = if step < 2 { 2 } else { step as i64 };
    let b: i64 = if r / 2 < 2 { 2 } else { (r / 2) as i64 };
    let inner: i64 = r as i64 + b;
    let short: i64 = if w < h { w as i64 } else { h as i64 };
    let five: i64 = Single::from_int(r as i128).times(num(0x40a0_0000)).to_i32() as i64;  // 5
    let room: i64 = short / 2 - r as i64;
    let wide: i64 = if room < five { room } else { five };
    let outer: i64 = if wide < inner + 1 { inner + 1 } else { wide };
    let width: Single = Single::from_int(gap as i128);
    let mut plan: Vec<(i32, i32)> = Vec::new();
    let mut rad: i64 = inner;
    assert(0 * gap == 0);
    while rad <= outer
        invariant
            2 <= gap <= i32::MAX,
            inner <= rad,
            1 <= inner < outer <= i32::MAX,
            width == Single::spec_from_int(gap as int),
            rad == inner + plan@.len() * gap,
            rad <= outer + gap,
            forall|k: int|
                0 <= k < plan@.len() ==> (#[trigger] plan@[k]).0 == inner + k * gap && plan@[k].1
                    == ring_places(inner + k * gap, gap as int),
        decreases outer + gap - rad,
    {
        // 6.2831855
        let n: i32 = num(0x40c9_0fdb).times(Single::from_int(rad as i128)).over(width).max(
            num(0x40c0_0000),  // 6
        ).to_i32();
        assert((plan@.len() + 1) * gap == plan@.len() * gap + gap) by (nonlinear_arith);
        plan.push((rad as i32, n));
        rad = rad + gap;
    }
    proof {
        let m = plan@.len() as int;
        assert(m == (outer - inner) / (gap as int) + 1) by (nonlinear_arith)
            requires
                inner + m * gap > outer,
                inner + m * gap <= outer + gap,
                gap >= 2,
        ;
    }
    plan
}

} // verus!
