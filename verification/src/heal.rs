//! Healing of spots: every stroke is resolved to pixels and healed by the chosen mode.

use crate::freqsep::{freqsep_at, freqsep_heal};
use crate::inpaint_fill::{
    coverage, coverage_of, fades_suffice, feathered, hard_mask, inpaint_rgb,
    inpaint_rgb_feathered, is_blended, may_fill, soft_span, soft_stroke,
};
use crate::patchmatch::{finished, patched, patchmatch_fill};
use crate::poisson::{box_inside, lemma_other_pixel, poisson_at, poisson_heal};
use crate::raster::{lemma_pixel_in_range, lemma_pixel_place, GrayImage, RgbImage};
use crate::single::{num, within, Single};
use crate::source_search::{
    best_on_grid, best_on_ring, grid_side, in_band, is_legal, offset_of,
    patchmatch_source_center, samples_of, source_for, steps, surroundings,
};
use crate::spot::{in_disk, HealMode, SpotFix, SpotStroke};
use vstd::prelude::*;

verus! {

/// A stroke in pixels: centre column, centre row and radius, which is at most 60.
pub open spec fn heal_pixels(s: SpotStroke, w: int, h: int) -> (int, int, int) {
    let short = if w < h { w } else { h };
    (
        s.cx.times(Single::spec_from_int(w)).round().clamp(
            num(0),
            Single::spec_from_int(w - 1),
        ).truncated(i32::MIN as int, i32::MAX as int),
        s.cy.times(Single::spec_from_int(h)).round().clamp(
            num(0),
            Single::spec_from_int(h - 1),
        ).truncated(i32::MIN as int, i32::MAX as int),
        s.r_norm.times(Single::spec_from_int(short)).clamp(
            num(0x3f80_0000),
            num(0x4270_0000),  // 60
        ).round().truncated(i32::MIN as int, i32::MAX as int),
    )
}

/// Resolves a stroke to pixels.
pub fn resolve(s: &SpotStroke, w: u32, h: u32) -> (r: (i32, i32, i32))
    requires
        0 < w,
        0 < h,
    ensures
        (r.0 as int, r.1 as int, r.2 as int) == heal_pixels(*s, w as int, h as int),
{
    let short: u32 = if w < h { w } else { h };
    (
        s.cx.times(Single::from_int(w as i128)).round().clamp(
            num(0),
            Single::from_int(w as i128 - 1),
        ).to_i32(),
        s.cy.times(Single::from_int(h as i128)).round().clamp(
            num(0),
            Single::from_int(h as i128 - 1),
        ).to_i32(),
        s.r_norm.times(Single::from_int(short as i128)).clamp(
            num(0x3f80_0000),
            num(0x4270_0000),  // 60
        ).round().to_i32(),
    )
}

/// What healing a stroke takes from elsewhere: the ring of places at which a source is looked
/// for, the weights of the smoothing, and the fading towards the rim.
pub struct StrokeAid {
    pub ring: Vec<(i32, i32)>,
    pub weights: Vec<Single>,
    pub fade: Vec<Single>,
}

/// How finely a source is looked for: coarser in a preview.
pub open spec fn search_step(r: int, preview: bool) -> int {
    if preview {
        if r / 2 < 3 { 3 } else { r / 2 }
    } else {
        if r / 3 < 2 { 2 } else { r / 3 }
    }
}

/// How finely a source is looked for: coarser in a preview.
pub fn find_step(r: i32, preview: bool) -> (step: i32)
    requires
        0 <= r,
    ensures
        step == search_step(r as int, preview),
{
    if preview {
        if r / 2 < 3 { 3 } else { r / 2 }
    } else {
        if r / 3 < 2 { 2 } else { r / 3 }
    }
}

/// The corner of the square of side `2 * r + 3` around a spot, moved into the image.
pub open spec fn roi_corner(c: int, r: int, n: int) -> int {
    within(c - r - 1, 0, n - (2 * r + 3))
}

/// The bytes of a box of `bw` by `bh` pixels with its corner at `(bx, by)`.
pub open spec fn box_bytes(img: RgbImage, bx: int, by: int, bw: int, bh: int) -> Seq<u8> {
    Seq::new(
        (bw * bh * 3) as nat,
        |k: int| img.at(bx + (k / 3) % bw, by + (k / 3) / bw, k % 3),
    )
}

/// The mask of the disk around `(cx, cy)` in the square of side `2 * r + 3`.
pub open spec fn disk_mask(cx: int, cy: int, r: int) -> Seq<u8> {
    let d = 2 * r + 3;
    Seq::new(
        (d * d) as nat,
        |p: int| if in_disk(cx, cy, r, p % d, p / d) { 255u8 } else { 0u8 },
    )
}

/// `filled` is the square around a spot with nothing changed but the spot's disk.
pub open spec fn fills_square(img: RgbImage, cx: int, cy: int, r: int, filled: Seq<u8>) -> bool {
    let d = 2 * r + 3;
    let bx = roi_corner(cx, r, img.width as int);
    let by = roi_corner(cy, r, img.height as int);
    may_fill(box_bytes(img, bx, by, d, d), disk_mask(cx - bx, cy - by, r), filled)
}

/// The image's channel `c` at `(x, y)` once the square around a spot is `filled`. An image that is
/// too small for the square stays as it is.
pub open spec fn diffused_at(
    img: RgbImage,
    cx: int,
    cy: int,
    r: int,
    filled: Seq<u8>,
    x: int,
    y: int,
    c: int,
) -> u8 {
    let d = 2 * r + 3;
    let bx = roi_corner(cx, r, img.width as int);
    let by = roi_corner(cy, r, img.height as int);
    if d <= img.width && d <= img.height && bx <= x < bx + d && by <= y < by + d {
        filled[((y - by) * d + (x - bx)) * 3 + c]
    } else {
        img.at(x, y, c)
    }
}

/// The image's channel `c` at `(x, y)` after one stroke has been healed. Where no source is
/// found, `filled` is the square around the spot, filled by diffusion.
pub open spec fn stroke_at(
    img: RgbImage,
    s: SpotStroke,
    aid: StrokeAid,
    poisson: bool,
    preview: bool,
    filled: Seq<u8>,
    x: int,
    y: int,
    c: int,
) -> u8 {
    let (cx, cy, r) = heal_pixels(s, img.width as int, img.height as int);
    if r < 1 {
        img.at(x, y, c)
    } else {
        match source_for(img, cx, cy, r, search_step(r, preview), aid.ring@) {
            Some(p) => if poisson {
                poisson_at(
                    img,
                    cx,
                    cy,
                    r,
                    p.0 as int,
                    p.1 as int,
                    if preview { 80 } else { 250 },
                    x,
                    y,
                    c,
                )
            } else {
                freqsep_at(
                    img,
                    cx,
                    cy,
                    r,
                    p.0 as int,
                    p.1 as int,
                    aid.weights@,
                    aid.fade@,
                    x,
                    y,
                    c,
                )
            },
            None => diffused_at(img, cx, cy, r, filled, x, y, c),
        }
    }
}

/// `after` is `before` with one stroke healed.
pub open spec fn is_healed_by(
    before: RgbImage,
    s: SpotStroke,
    aid: StrokeAid,
    poisson: bool,
    preview: bool,
    after: RgbImage,
) -> bool {
    let p = heal_pixels(s, before.width as int, before.height as int);
    &&& after.wf()
    &&& after.width == before.width
    &&& after.height == before.height
    &&& exists|filled: Seq<u8>|
        {
            &&& #[trigger] fills_square(before, p.0, p.1, p.2, filled)
            &&& forall|x: int, y: int, c: int|
                0 <= x < before.width && 0 <= y < before.height && 0 <= c < 3
                    ==> #[trigger] after.at(x, y, c) == stroke_at(
                    before,
                    s,
                    aid,
                    poisson,
                    preview,
                    filled,
                    x,
                    y,
                    c,
                )
        }
}

/// A source for a spot can be found: whether it can does not depend on what the image shows.
pub open spec fn has_source(
    w: int,
    h: int,
    cx: int,
    cy: int,
    r: int,
    step: int,
    ring: Seq<(i32, i32)>,
) -> bool {
    &&& box_inside(w, h, cx, cy, r)
    &&& exists|t: int|
        0 <= t < steps(r) * steps(r) && in_band(
            r,
            (#[trigger] offset_of(r, t)).0,
            offset_of(r, t).1,
        )
    &&& ((exists|i: int|
        0 <= i < ring.len() && is_legal(
            w,
            h,
            cx,
            cy,
            r,
            cx + (#[trigger] ring[i]).0,
            cy + ring[i].1,
        )) || grid_has_source(w, h, cx, cy, r, step, grid_side(w, r, step) * grid_side(h, r, step)))
}

/// One of the first `k` places of the grid is legal.
pub open spec fn grid_has_source(
    w: int,
    h: int,
    cx: int,
    cy: int,
    r: int,
    step: int,
    k: int,
) -> bool
    decreases k,
{
    if k <= 0 {
        false
    } else {
        let ny = grid_side(h, r, step);
        grid_has_source(w, h, cx, cy, r, step, k - 1) || is_legal(
            w,
            h,
            cx,
            cy,
            r,
            r + ((k - 1) / ny) * step,
            r + ((k - 1) % ny) * step,
        )
    }
}

proof fn lemma_samples_found(img: RgbImage, cx: int, cy: int, r: int, t: int)
    ensures
        samples_of(img, cx, cy, r, t).len() > 0 <==> exists|i: int|
            0 <= i < t && in_band(r, (#[trigger] offset_of(r, i)).0, offset_of(r, i).1),
    decreases t,
{
    if t > 0 {
        lemma_samples_found(img, cx, cy, r, t - 1);
        if in_band(r, offset_of(r, t - 1).0, offset_of(r, t - 1).1) {
            assert(samples_of(img, cx, cy, r, t).len() > 0);
        } else if exists|i: int|
            0 <= i < t && in_band(r, (#[trigger] offset_of(r, i)).0, offset_of(r, i).1) {
            let i = choose|i: int|
                0 <= i < t && in_band(r, (#[trigger] offset_of(r, i)).0, offset_of(r, i).1);
            assert(i < t - 1);
        }
    }
}

proof fn lemma_ring_found(
    img: RgbImage,
    samples: Seq<crate::source_search::Sample>,
    cx: int,
    cy: int,
    r: int,
    ring: Seq<(i32, i32)>,
    k: int,
)
    requires
        k <= ring.len(),
    ensures
        best_on_ring(img, samples, cx, cy, r, ring, k) is Some <==> exists|i: int|
            0 <= i < k && is_legal(
                img.width as int,
                img.height as int,
                cx,
                cy,
                r,
                cx + (#[trigger] ring[i]).0,
                cy + ring[i].1,
            ),
    decreases k,
{
    if k > 0 {
        lemma_ring_found(img, samples, cx, cy, r, ring, k - 1);
        let w = img.width as int;
        let h = img.height as int;
        if !is_legal(w, h, cx, cy, r, cx + ring[k - 1].0, cy + ring[k - 1].1) {
            if exists|i: int|
                0 <= i < k && is_legal(w, h, cx, cy, r, cx + (#[trigger] ring[i]).0, cy + ring[i].1) {
                let i = choose|i: int|
                    0 <= i < k && is_legal(
                        w,
                        h,
                        cx,
                        cy,
                        r,
                        cx + (#[trigger] ring[i]).0,
                        cy + ring[i].1,
                    );
                assert(i < k - 1);
            }
        }
    }
}

proof fn lemma_grid_found(
    img: RgbImage,
    samples: Seq<crate::source_search::Sample>,
    cx: int,
    cy: int,
    r: int,
    step: int,
    k: int,
)
    ensures
        best_on_grid(img, samples, cx, cy, r, step, k) is Some <==> grid_has_source(
            img.width as int,
            img.height as int,
            cx,
            cy,
            r,
            step,
            k,
        ),
    decreases k,
{
    if k > 0 {
        lemma_grid_found(img, samples, cx, cy, r, step, k - 1);
    }
}

/// Whether a source is found depends on sizes and places, not on what the image shows.
pub proof fn law_source_is_found(
    img: RgbImage,
    cx: int,
    cy: int,
    r: int,
    step: int,
    ring: Seq<(i32, i32)>,
)
    ensures
        source_for(img, cx, cy, r, step, ring) is Some <==> has_source(
            img.width as int,
            img.height as int,
            cx,
            cy,
            r,
            step,
            ring,
        ),
{
    let samples = surroundings(img, cx, cy, r);
    lemma_samples_found(img, cx, cy, r, steps(r) * steps(r));
    lemma_ring_found(img, samples, cx, cy, r, ring, ring.len() as int);
    lemma_grid_found(
        img,
        samples,
        cx,
        cy,
        r,
        step,
        grid_side(img.width as int, r, step) * grid_side(img.height as int, r, step),
    );
}

/// What a stroke's aid must hold for frequency separation.
pub open spec fn aid_suffices(w: int, h: int, s: SpotStroke, aid: StrokeAid) -> bool {
    let r = heal_pixels(s, w, h).2;
    aid.weights@.len() <= 0xffff_ffff && 2 * (r * r) < aid.fade@.len()
}

/// Copies a box out of an image.
fn copy_box(img: &RgbImage, bx: u32, by: u32, bw: u32, bh: u32) -> (sub: RgbImage)
    requires
        img.wf(),
        0 < bw,
        bx + bw <= img.width,
        by + bh <= img.height,
    ensures
        sub.wf(),
        sub.width == bw,
        sub.height == bh,
        sub.data@ == box_bytes(*img, bx as int, by as int, bw as int, bh as int),
{
    let size: usize = img.data.len();
    proof {
        assert(bw * bh * 3 <= img.width * img.height * 3) by (nonlinear_arith)
            requires
                0 <= bw <= img.width,
                0 <= bh <= img.height,
        ;
        assert(0 <= bw * bh) by (nonlinear_arith);
    }
    let n: usize = bw as usize * bh as usize;
    let mut data: Vec<u8> = Vec::new();
    let mut p: usize = 0;
    let ghost expected = box_bytes(*img, bx as int, by as int, bw as int, bh as int);
    while p < n
        invariant
            img.wf(),
            0 < bw,
            bx + bw <= img.width,
            by + bh <= img.height,
            n == bw * bh,
            p <= n,
            n * 3 <= size,
            data@.len() == 3 * p,
            expected == box_bytes(*img, bx as int, by as int, bw as int, bh as int),
            forall|k: int| 0 <= k < 3 * p ==> #[trigger] data@[k] == expected[k],
        decreases n - p,
    {
        proof {
            lemma_pixel_place(bw as int, bh as int, p as int);
        }
        let ghost before = data@;
        let o: usize = img.offset(
            bx + (p % bw as usize) as u32,
            by + (p / bw as usize) as u32,
        );
        data.push(img.data[o]);
        data.push(img.data[o + 1]);
        data.push(img.data[o + 2]);
        proof {
            assert forall|k: int| 0 <= k < 3 * (p + 1) implies #[trigger] data@[k] == expected[k] by {
                if k < 3 * p {
                    assert(data@[k] == before[k]);
                } else {
                    assert(k / 3 == p && k % 3 == k - 3 * p);
                }
            }
        }
        p = p + 1;
    }
    assert(data@ =~= expected);
    RgbImage { width: bw, height: bh, data }
}

/// Writes the marked pixels of a box back into the image.
fn paste_box(img: &mut RgbImage, sub: &RgbImage, mask: &Vec<u8>, bx: u32, by: u32)
    requires
        old(img).wf(),
        sub.wf(),
        0 < sub.width,
        mask@.len() == sub.width * sub.height,
        bx + sub.width <= old(img).width,
        by + sub.height <= old(img).height,
    ensures
        final(img).wf(),
        final(img).width == old(img).width,
        final(img).height == old(img).height,
        forall|x: int, y: int, c: int|
            0 <= x < old(img).width && 0 <= y < old(img).height && 0 <= c < 3
                ==> #[trigger] final(img).at(x, y, c) == ({
                let p = (y - by) * sub.width + (x - bx);
                if bx <= x < bx + sub.width && by <= y < by + sub.height && mask@[p] > 0 {
                    sub.data@[p * 3 + c]
                } else {
                    old(img).at(x, y, c)
                }
            }),
{
    let ghost first = *img;
    let n: usize = mask.len();
    let size: usize = sub.data.len();
    let bw: u32 = sub.width;
    let ghost (gx, gy, gw) = (bx as int, by as int, bw as int);
    proof {
        assert forall|x: int, y: int|
            gx <= x < gx + sub.width && gy <= y < gy + sub.height implies 0 <= #[trigger] ((y - gy)
            * gw + (x - gx)) by {
            lemma_pixel_in_range(gw, sub.height as int, x - gx, y - gy);
        }
    }
    let mut p: usize = 0;
    while p < n
        invariant
            img.wf(),
            img.width == first.width,
            img.height == first.height,
            first.wf(),
            sub.wf(),
            size == 3 * n,
            sub.data@.len() == size,
            bw == sub.width,
            gx == bx,
            gy == by,
            gw == bw,
            0 < bw,
            n == sub.width * sub.height,
            mask@.len() == n,
            bx + bw <= first.width,
            by + sub.height <= first.height,
            p <= n,
            forall|x: int, y: int, c: int|
                0 <= x < first.width && 0 <= y < first.height && 0 <= c < 3 ==> #[trigger] img.at(
                    x,
                    y,
                    c,
                ) == ({
                    let q = (y - gy) * gw + (x - gx);
                    if gx <= x < gx + gw && gy <= y < gy + sub.height && q < p && mask@[q] > 0 {
                        sub.data@[q * 3 + c]
                    } else {
                        first.at(x, y, c)
                    }
                }),
        decreases n - p,
    {
        proof {
            lemma_pixel_place(gw, sub.height as int, p as int);
        }
        let ghost now = *img;
        let px: u32 = bx + (p % bw as usize) as u32;
        let py: u32 = by + (p / bw as usize) as u32;
        if mask[p] > 0 {
            let o: usize = img.offset(px, py);
            img.data.set(o, sub.data[p * 3]);
            img.data.set(o + 1, sub.data[p * 3 + 1]);
            img.data.set(o + 2, sub.data[p * 3 + 2]);
        }
        proof {
            let (ux, uy) = (px as int, py as int);
            assert forall|x: int, y: int, c: int|
                0 <= x < first.width && 0 <= y < first.height && 0 <= c < 3 implies #[trigger] img.at(
                x,
                y,
                c,
            ) == ({
                let q = (y - gy) * gw + (x - gx);
                if gx <= x < gx + gw && gy <= y < gy + sub.height && q < p + 1 && mask@[q] > 0 {
                    sub.data@[q * 3 + c]
                } else {
                    first.at(x, y, c)
                }
            }) by {
                let q = (y - gy) * gw + (x - gx);
                assert(now.at(x, y, c) == if gx <= x < gx + gw && gy <= y < gy + sub.height && q < p
                    && mask@[q] > 0 {
                    sub.data@[q * 3 + c]
                } else {
                    first.at(x, y, c)
                });
                if x == ux && y == uy {
                    assert(q == p);
                } else {
                    lemma_other_pixel(first.width as int, first.height as int, x, y, c, ux, uy);
                    if gx <= x < gx + gw && gy <= y < gy + sub.height {
                        lemma_pixel_in_range(gw, sub.height as int, x - gx, y - gy);
                        assert(q != p);
                    }
                }
            }
        }
        p = p + 1;
    }
    proof {
        assert forall|x: int, y: int, c: int|
            0 <= x < first.width && 0 <= y < first.height && 0 <= c < 3 implies #[trigger] img.at(
            x,
            y,
            c,
        ) == ({
            let q = (y - by) * sub.width + (x - bx);
            if bx <= x < bx + sub.width && by <= y < by + sub.height && mask@[q] > 0 {
                sub.data@[q * 3 + c]
            } else {
                first.at(x, y, c)
            }
        }) by {
            if bx <= x < bx + sub.width && by <= y < by + sub.height {
                lemma_pixel_in_range(gw, sub.height as int, x - gx, y - gy);
            }
        }
    }
}

/// What is filled by diffusion around a spot: the square's corner, the mask of the spot in it, and
/// how far the rim is looked at.
pub fn square_plan(w: u32, h: u32, cx: i32, cy: i32, r: i32) -> (plan: (u32, u32, GrayImage, i32))
    requires
        1 <= r <= 10000,
        2 * r + 3 <= w <= i32::MAX,
        2 * r + 3 <= h <= i32::MAX,
    ensures
        plan.0 == roi_corner(cx as int, r as int, w as int),
        plan.1 == roi_corner(cy as int, r as int, h as int),
        plan.2.wf(),
        plan.2.width == 2 * r + 3,
        plan.2.height == 2 * r + 3,
        plan.2.data@ == disk_mask(cx - plan.0, cy - plan.1, r as int),
        plan.3 == within(r + 1, 1, 60),
{
    let d: u32 = 2 * r as u32 + 3;
    let gr: i64 = r as i64;
    let x0: i64 = cx as i64 - gr - 1;
    let y0: i64 = cy as i64 - gr - 1;
    let xm: i64 = w as i64 - d as i64;
    let ym: i64 = h as i64 - d as i64;
    let bx: u32 = (if x0 < 0 {
        0
    } else if x0 > xm {
        xm
    } else {
        x0
    }) as u32;
    let by: u32 = (if y0 < 0 {
        0
    } else if y0 > ym {
        ym
    } else {
        y0
    }) as u32;
    let mx: i128 = cx as i128 - bx as i128;
    let my: i128 = cy as i128 - by as i128;
    proof {
        assert(d * d <= 500_000_000) by (nonlinear_arith)
            requires
                0 <= d <= 20003,
        ;
    }
    let n: usize = d as usize * d as usize;
    let ghost gd = d as int;
    let ghost want = disk_mask(cx - bx, cy - by, r as int);
    let mut marks: Vec<u8> = Vec::new();
    let mut p: usize = 0;
    while p < n
        invariant
            1 <= r <= 10000,
            gr == r,
            gd == d,
            d == 2 * r + 3,
            n == d * d,
            p <= n,
            -0x2_0000_0000 <= mx <= 0x2_0000_0000,
            -0x2_0000_0000 <= my <= 0x2_0000_0000,
            want == disk_mask(mx as int, my as int, r as int),
            marks@.len() == p,
            forall|j: int| 0 <= j < p ==> #[trigger] marks@[j] == want[j],
        decreases n - p,
    {
        proof {
            lemma_pixel_place(gd, gd, p as int);
        }
        let dx: i128 = (p % d as usize) as i128 - mx;
        let dy: i128 = (p / d as usize) as i128 - my;
        proof {
            assert(0 <= dx * dx <= 0x10_0000_0000_0000_0000 && 0 <= dy * dy
                <= 0x10_0000_0000_0000_0000 && 0 <= gr * gr <= 100_000_000) by (nonlinear_arith)
                requires
                    -0x4_0000_0000 <= dx <= 0x4_0000_0000,
                    -0x4_0000_0000 <= dy <= 0x4_0000_0000,
                    1 <= gr <= 10000,
            ;
        }
        if dx * dx + dy * dy <= (gr * gr) as i128 {
            marks.push(255);
        } else {
            marks.push(0);
        }
        p = p + 1;
    }
    assert(marks@ =~= want);
    let reach: i32 = if r + 1 > 60 { 60 } else { r + 1 };
    (bx, by, GrayImage { width: d, height: d, data: marks }, reach)
}

/// Puts a filled square in its place.
pub fn place_square(img: &mut RgbImage, cx: i32, cy: i32, r: i32, filled: &RgbImage)
    requires
        old(img).wf(),
        1 <= r <= 10000,
        2 * r + 3 <= old(img).width <= i32::MAX,
        2 * r + 3 <= old(img).height <= i32::MAX,
        filled.wf(),
        filled.width == 2 * r + 3,
        filled.height == 2 * r + 3,
    ensures
        final(img).wf(),
        final(img).width == old(img).width,
        final(img).height == old(img).height,
        forall|x: int, y: int, c: int|
            0 <= x < old(img).width && 0 <= y < old(img).height && 0 <= c < 3
                ==> #[trigger] final(img).at(x, y, c) == diffused_at(
                *old(img),
                cx as int,
                cy as int,
                r as int,
                filled.data@,
                x,
                y,
                c,
            ),
{
    let ghost first = *img;
    let (bx, by, mask, reach) = square_plan(img.width, img.height, cx, cy, r);
    let n: usize = mask.data.len();
    let mut all: Vec<u8> = Vec::new();
    let mut p: usize = 0;
    while p < n
        invariant
            p <= n,
            all@.len() == p,
            forall|j: int| 0 <= j < p ==> #[trigger] all@[j] == 1,
        decreases n - p,
    {
        all.push(1);
        p = p + 1;
    }
    paste_box(img, filled, &all, bx, by);
    proof {
        let gd = 2 * r + 3;
        assert forall|x: int, y: int, c: int|
            0 <= x < first.width && 0 <= y < first.height && 0 <= c < 3 implies #[trigger] img.at(
            x,
            y,
            c,
        ) == diffused_at(first, cx as int, cy as int, r as int, filled.data@, x, y, c) by {
            if bx <= x < bx + gd && by <= y < by + gd {
                lemma_pixel_in_range(gd, gd, x - bx, y - by);
            }
        }
    }
}

/// Fills a spot by diffusion in the square around it.
fn telea_single(img: &mut RgbImage, cx: i32, cy: i32, r: i32)
    requires
        old(img).wf(),
        1 <= r <= 10000,
        2 * r + 3 <= old(img).width <= i32::MAX,
        2 * r + 3 <= old(img).height <= i32::MAX,
    ensures
        final(img).wf(),
        final(img).width == old(img).width,
        final(img).height == old(img).height,
        exists|filled: Seq<u8>|
            #[trigger] fills_square(*old(img), cx as int, cy as int, r as int, filled) && forall|
                x: int,
                y: int,
                c: int,
            |
                0 <= x < old(img).width && 0 <= y < old(img).height && 0 <= c < 3
                    ==> #[trigger] final(img).at(x, y, c) == diffused_at(
                    *old(img),
                    cx as int,
                    cy as int,
                    r as int,
                    filled,
                    x,
                    y,
                    c,
                ),
{
    let (bx, by, mask, reach) = square_plan(img.width, img.height, cx, cy, r);
    let sub: RgbImage = copy_box(img, bx, by, mask.width, mask.height);
    let filled: RgbImage = inpaint_rgb(&sub, &mask, reach);
    assert(fills_square(*old(img), cx as int, cy as int, r as int, filled.data@));
    place_square(img, cx, cy, r, &filled);
}

/// Heals one stroke after the other; a later one may take its source from what an earlier one
/// has healed.
fn heal_strokes(
    img: &RgbImage,
    spot: &SpotFix,
    poisson: bool,
    preview: bool,
    aids: &Vec<StrokeAid>,
) -> (out: RgbImage)
    requires
        img.wf(),
        0 < img.width <= i32::MAX,
        0 < img.height <= i32::MAX,
        aids@.len() == spot.strokes@.len(),
        forall|i: int|
            0 <= i < aids@.len() ==> (!poisson ==> aid_suffices(
                img.width as int,
                img.height as int,
                #[trigger] spot.strokes@[i],
                aids@[i],
            )),
    ensures
        are_healed(*img, spot.strokes@, aids@, poisson, preview, out),
{
    let mut out: RgbImage = img.clone();
    let ghost mut chain: Seq<RgbImage> = seq![out];
    let mut k: usize = 0;
    while k < spot.strokes.len()
        invariant
            img.wf(),
            out.wf(),
            out.width == img.width,
            out.height == img.height,
            0 < img.width <= i32::MAX,
            0 < img.height <= i32::MAX,
            aids@.len() == spot.strokes@.len(),
            forall|i: int|
                0 <= i < aids@.len() ==> (!poisson ==> aid_suffices(
                    img.width as int,
                    img.height as int,
                    #[trigger] spot.strokes@[i],
                    aids@[i],
                )),
            k <= spot.strokes@.len(),
            chain.len() == k + 1,
            chain[0].width == img.width,
            chain[0].height == img.height,
            chain[0].data@ == img.data@,
            chain[k as int] == out,
            forall|i: int|
                0 <= i < k ==> is_healed_by(
                    #[trigger] chain[i],
                    spot.strokes@[i],
                    aids@[i],
                    poisson,
                    preview,
                    chain[i + 1],
                ),
        decreases spot.strokes@.len() - k,
    {
        let ghost before = out;
        heal_stroke(&mut out, &spot.strokes[k], &aids[k], poisson, preview);
        proof {
            let old_chain = chain;
            chain = chain.push(out);
            assert forall|i: int| 0 <= i < k + 1 implies is_healed_by(
                #[trigger] chain[i],
                spot.strokes@[i],
                aids@[i],
                poisson,
                preview,
                chain[i + 1],
            ) by {
                if i < k {
                    assert(chain[i] == old_chain[i] && chain[i + 1] == old_chain[i + 1]);
                } else {
                    assert(chain[i] == before);
                }
            }
        }
        k = k + 1;
    }
    out
}

/// `out` is the image with all strokes healed in their order.
pub open spec fn are_healed(
    img: RgbImage,
    strokes: Seq<SpotStroke>,
    aids: Seq<StrokeAid>,
    poisson: bool,
    preview: bool,
    out: RgbImage,
) -> bool {
    exists|chain: Seq<RgbImage>|
        {
            &&& chain.len() == strokes.len() + 1
            &&& (#[trigger] chain[0]).width == img.width
            &&& chain[0].height == img.height
            &&& chain[0].data@ == img.data@
            &&& chain[strokes.len() as int] == out
            &&& forall|i: int|
                0 <= i < strokes.len() ==> is_healed_by(
                    #[trigger] chain[i],
                    strokes[i],
                    aids[i],
                    poisson,
                    preview,
                    chain[i + 1],
                )
        }
}

/// The square around a spot as the image shows it.
spec fn square_bytes(img: RgbImage, cx: int, cy: int, r: int) -> Seq<u8> {
    box_bytes(
        img,
        roi_corner(cx, r, img.width as int),
        roi_corner(cy, r, img.height as int),
        2 * r + 3,
        2 * r + 3,
    )
}

proof fn lemma_square_as_it_is(img: RgbImage, cx: int, cy: int, r: int)
    ensures
        fills_square(img, cx, cy, r, square_bytes(img, cx, cy, r)),
        forall|x: int, y: int, c: int|
            2 * r + 3 > img.width || 2 * r + 3 > img.height
                ==> #[trigger] diffused_at(
                img,
                cx,
                cy,
                r,
                square_bytes(img, cx, cy, r),
                x,
                y,
                c,
            ) == img.at(x, y, c),
{
}

/// Heals one stroke.
fn heal_stroke(img: &mut RgbImage, s: &SpotStroke, aid: &StrokeAid, poisson: bool, preview: bool)
    requires
        old(img).wf(),
        0 < old(img).width <= i32::MAX,
        0 < old(img).height <= i32::MAX,
        !poisson ==> aid_suffices(old(img).width as int, old(img).height as int, *s, *aid),
    ensures
        is_healed_by(*old(img), *s, *aid, poisson, preview, *final(img)),
{
    let (cx, cy, r) = resolve(s, img.width, img.height);
    proof {
        lemma_square_as_it_is(*img, cx as int, cy as int, r as int);
    }
    if r < 1 {
        return;
    }
    proof {
        lemma_radius_bound(*s, img.width as int, img.height as int);
    }
    let step: i32 = find_step(r, preview);
    match patchmatch_source_center(img, cx, cy, r, step, &aid.ring) {
        Some(p) => {
            if poisson {
                poisson_heal(img, cx, cy, r, p.0, p.1, if preview { 80 } else { 250 });
            } else {
                freqsep_heal(img, cx, cy, r, p.0, p.1, &aid.weights, &aid.fade);
            }
        },
        None => {
            let side: u32 = (2 * r + 3) as u32;
            if side <= img.width && side <= img.height {
                telea_single(img, cx, cy, r);
            }
        },
    }
}

/// Radii are at most 60 pixels.
proof fn lemma_radius_bound(s: SpotStroke, w: int, h: int)
    ensures
        heal_pixels(s, w, h).2 <= 60,
{
    let short = if w < h { w } else { h };
    // 1, 60
    let v = s.r_norm.times(Single::spec_from_int(short)).clamp(num(0x3f80_0000), num(0x4270_0000));
    crate::single::lemma_sixty_is_whole(v);
}

/// The strokes in pixels, those without a radius left out.
pub open spec fn holes_of(strokes: Seq<SpotStroke>, w: int, h: int) -> Seq<(int, int, int)>
    decreases strokes.len(),
{
    if strokes.len() == 0 {
        Seq::empty()
    } else {
        let before = holes_of(strokes.drop_last(), w, h);
        let s = heal_pixels(strokes.last(), w, h);
        if s.2 < 1 {
            before
        } else {
            before.push(s)
        }
    }
}

/// The pixel at `(x, y)` lies in one of the disks.
pub open spec fn in_holes(l: Seq<(int, int, int)>, x: int, y: int) -> bool {
    exists|i: int| 0 <= i < l.len() && in_disk((#[trigger] l[i]).0, l[i].1, l[i].2, x, y)
}

/// The box around all disks, its least and greatest columns and rows, and the largest radius.
pub open spec fn extent(l: Seq<(int, int, int)>, w: int, h: int) -> (int, int, int, int, int)
    decreases l.len(),
{
    if l.len() == 0 {
        (w, h, 0, 0, 1)
    } else {
        let (x0, y0, x1, y1, r) = extent(l.drop_last(), w, h);
        let (cx, cy, cr) = l.last();
        (
            if cx - cr < x0 { cx - cr } else { x0 },
            if cy - cr < y0 { cy - cr } else { y0 },
            if x1 < cx + cr { cx + cr } else { x1 },
            if y1 < cy + cr { cy + cr } else { y1 },
            if r < cr { cr } else { r },
        )
    }
}

/// The box in which holes are filled: its corner and its size. It reaches three of the largest
/// radii beyond the holes, from 24 to 96 pixels, as far as the image goes.
pub open spec fn fill_box(l: Seq<(int, int, int)>, w: int, h: int) -> (int, int, int, int) {
    let (x0, y0, x1, y1, r) = extent(l, w, h);
    let pad = within(r * 3, 24, 96);
    let bx = within(x0 - pad, 0, w - 1);
    let by = within(y0 - pad, 0, h - 1);
    let bw = within(x1 + pad, 0, w - 1) - bx + 1;
    let bh = within(y1 + pad, 0, h - 1) - by + 1;
    (bx, by, if bw < 1 { 1 } else { bw }, if bh < 1 { 1 } else { bh })
}

/// The mask of the holes in their box.
pub open spec fn holes_mask(l: Seq<(int, int, int)>, b: (int, int, int, int)) -> Seq<u8> {
    Seq::new(
        (b.2 * b.3) as nat,
        |p: int| if in_holes(l, b.0 + p % b.2, b.1 + p / b.2) { 255u8 } else { 0u8 },
    )
}

/// How far patches reach: a share of the box, from 3 to 8 pixels.
pub open spec fn patch_reach(bw: int, bh: int) -> int {
    within(
        Single::spec_from_int(if bw < bh { bh } else { bw }).over(
            num(0x4200_0000),  // 32
        ).round().truncated(i32::MIN as int, i32::MAX as int),
        3,
        8,
    )
}

/// The bytes of the box after filling by patches.
pub open spec fn patched_box(
    img: RgbImage,
    l: Seq<(int, int, int)>,
    b: (int, int, int, int),
    preview: bool,
) -> Seq<u8> {
    patched(
        b.2,
        b.3,
        box_bytes(img, b.0, b.1, b.2, b.3),
        holes_mask(l, b),
        patch_reach(b.2, b.3),
        if preview { 2int } else { 3int },
    )
}

/// `filled` are the bytes of the box after filling: by patches, and where those leave something,
/// by diffusion under the same mask.
pub open spec fn fills_box(
    img: RgbImage,
    l: Seq<(int, int, int)>,
    b: (int, int, int, int),
    preview: bool,
    filled: Seq<u8>,
) -> bool {
    let done = finished(
        b.2,
        b.3,
        box_bytes(img, b.0, b.1, b.2, b.3),
        holes_mask(l, b),
        patch_reach(b.2, b.3),
        if preview { 2int } else { 3int },
    ).all_known();
    if done {
        filled == patched_box(img, l, b, preview)
    } else {
        may_fill(patched_box(img, l, b, preview), holes_mask(l, b), filled)
    }
}

/// The image's channel `c` at `(x, y)` once the strokes' disks, taken together, are filled as in
/// the box of bytes `filled`.
pub open spec fn removed_at(
    img: RgbImage,
    strokes: Seq<SpotStroke>,
    filled: Seq<u8>,
    x: int,
    y: int,
    c: int,
) -> u8 {
    let w = img.width as int;
    let h = img.height as int;
    let l = holes_of(strokes, w, h);
    let b = fill_box(l, w, h);
    if in_holes(l, x, y) && b.0 <= x < b.0 + b.2 && b.1 <= y < b.1 + b.3 {
        filled[((y - b.1) * b.2 + (x - b.0)) * 3 + c]
    } else {
        img.at(x, y, c)
    }
}

/// `out` is the image with the strokes' disks, taken together, filled.
pub open spec fn is_removed(
    img: RgbImage,
    strokes: Seq<SpotStroke>,
    preview: bool,
    out: RgbImage,
) -> bool {
    let w = img.width as int;
    let h = img.height as int;
    let l = holes_of(strokes, w, h);
    exists|filled: Seq<u8>|
        #[trigger] fills_box(img, l, fill_box(l, w, h), preview, filled) && forall|
            x: int,
            y: int,
            c: int,
        |
            0 <= x < w && 0 <= y < h && 0 <= c < 3 ==> #[trigger] out.at(x, y, c) == removed_at(
                img,
                strokes,
                filled,
                x,
                y,
                c,
            )
}

/// The strokes in pixels, as numbers of the machine.
spec fn as_ints(v: Seq<(i32, i32, i32)>) -> Seq<(int, int, int)> {
    Seq::new(v.len(), |i: int| (v[i].0 as int, v[i].1 as int, v[i].2 as int))
}

fn resolve_all(strokes: &Vec<SpotStroke>, w: u32, h: u32) -> (v: Vec<(i32, i32, i32)>)
    requires
        0 < w,
        0 < h,
    ensures
        as_ints(v@) == holes_of(strokes@, w as int, h as int),
        forall|i: int| 0 <= i < v@.len() ==> 1 <= (#[trigger] v@[i]).2 <= 60,
{
    let mut v: Vec<(i32, i32, i32)> = Vec::new();
    let mut k: usize = 0;
    assert(strokes@.subrange(0, 0) =~= Seq::empty());
    assert(as_ints(v@) =~= holes_of(Seq::empty(), w as int, h as int));
    while k < strokes.len()
        invariant
            0 < w,
            0 < h,
            k <= strokes@.len(),
            as_ints(v@) == holes_of(strokes@.subrange(0, k as int), w as int, h as int),
            forall|i: int| 0 <= i < v@.len() ==> 1 <= (#[trigger] v@[i]).2 <= 60,
        decreases strokes@.len() - k,
    {
        let p: (i32, i32, i32) = resolve(&strokes[k], w, h);
        let ghost before = v@;
        proof {
            lemma_radius_bound(strokes@[k as int], w as int, h as int);
            let next = strokes@.subrange(0, k + 1);
            assert(next.drop_last() =~= strokes@.subrange(0, k as int));
            assert(next.last() == strokes@[k as int]);
        }
        if p.2 >= 1 {
            v.push(p);
            assert(as_ints(v@) =~= as_ints(before).push(
                (p.0 as int, p.1 as int, p.2 as int),
            ));
        }
        k = k + 1;
    }
    assert(strokes@.subrange(0, k as int) =~= strokes@);
    v
}

fn limit(v: i64, lo: i64, hi: i64) -> (r: i64)
    ensures
        r == within(v as int, lo as int, hi as int),
{
    if v < lo {
        lo
    } else if v > hi {
        hi
    } else {
        v
    }
}

fn box_around(v: &Vec<(i32, i32, i32)>, w: u32, h: u32) -> (b: (u32, u32, u32, u32))
    requires
        0 < w <= i32::MAX,
        0 < h <= i32::MAX,
        forall|i: int| 0 <= i < v@.len() ==> 1 <= (#[trigger] v@[i]).2 <= 60,
        v@.len() > 0,
    ensures
        (b.0 as int, b.1 as int, b.2 as int, b.3 as int) == fill_box(
            as_ints(v@),
            w as int,
            h as int,
        ),
        0 < b.2,
        0 < b.3,
        b.0 + b.2 <= w,
        b.1 + b.3 <= h,
{
    let mut x0: i64 = w as i64;
    let mut y0: i64 = h as i64;
    let mut x1: i64 = 0;
    let mut y1: i64 = 0;
    let mut r: i64 = 1;
    let mut k: usize = 0;
    assert(as_ints(v@).subrange(0, 0) =~= Seq::empty());
    while k < v.len()
        invariant
            0 < w <= i32::MAX,
            0 < h <= i32::MAX,
            forall|i: int| 0 <= i < v@.len() ==> 1 <= (#[trigger] v@[i]).2 <= 60,
            k <= v@.len(),
            (x0 as int, y0 as int, x1 as int, y1 as int, r as int) == extent(
                as_ints(v@).subrange(0, k as int),
                w as int,
                h as int,
            ),
            -0x1_0000_0000 <= x0 <= i32::MAX,
            -0x1_0000_0000 <= y0 <= i32::MAX,
            0 <= x1 <= 0x1_0000_0000,
            0 <= y1 <= 0x1_0000_0000,
            1 <= r <= 60,
            k > 0 ==> x0 < x1 + 121 && y0 < y1 + 121,
        decreases v@.len() - k,
    {
        let (cx, cy, cr) = v[k];
        proof {
            let l = as_ints(v@);
            let next = l.subrange(0, k + 1);
            assert(next.drop_last() =~= l.subrange(0, k as int));
            assert(next.last() == (cx as int, cy as int, cr as int));
        }
        let (gx, gy, gr): (i64, i64, i64) = (cx as i64, cy as i64, cr as i64);
        if gx - gr < x0 {
            x0 = gx - gr;
        }
        if gy - gr < y0 {
            y0 = gy - gr;
        }
        if x1 < gx + gr {
            x1 = gx + gr;
        }
        if y1 < gy + gr {
            y1 = gy + gr;
        }
        if r < gr {
            r = gr;
        }
        k = k + 1;
    }
    assert(as_ints(v@).subrange(0, k as int) =~= as_ints(v@));
    let pad: i64 = limit(r * 3, 24, 96);
    let bx: i64 = limit(x0 - pad, 0, w as i64 - 1);
    let by: i64 = limit(y0 - pad, 0, h as i64 - 1);
    let bw: i64 = limit(x1 + pad, 0, w as i64 - 1) - bx + 1;
    let bh: i64 = limit(y1 + pad, 0, h as i64 - 1) - by + 1;
    (
        bx as u32,
        by as u32,
        if bw < 1 { 1 } else { bw as u32 },
        if bh < 1 { 1 } else { bh as u32 },
    )
}

fn is_in_holes(v: &Vec<(i32, i32, i32)>, x: i64, y: i64) -> (b: bool)
    requires
        forall|i: int| 0 <= i < v@.len() ==> 1 <= (#[trigger] v@[i]).2 <= 60,
        0 <= x <= 0xffff_ffff,
        0 <= y <= 0xffff_ffff,
    ensures
        b == in_holes(as_ints(v@), x as int, y as int),
{
    let mut k: usize = 0;
    let ghost l = as_ints(v@);
    while k < v.len()
        invariant
            l == as_ints(v@),
            forall|i: int| 0 <= i < v@.len() ==> 1 <= (#[trigger] v@[i]).2 <= 60,
            0 <= x <= 0xffff_ffff,
            0 <= y <= 0xffff_ffff,
            k <= v@.len(),
            forall|i: int|
                0 <= i < k ==> !in_disk(
                    (#[trigger] l[i]).0,
                    l[i].1,
                    l[i].2,
                    x as int,
                    y as int,
                ),
        decreases v@.len() - k,
    {
        let (cx, cy, r) = v[k];
        let dx: i128 = x as i128 - cx as i128;
        let dy: i128 = y as i128 - cy as i128;
        proof {
            assert(l[k as int] == (cx as int, cy as int, r as int));
            assert(0 <= dx * dx <= 0x4_0000_0000 * 0x4_0000_0000 && 0 <= dy * dy <= 0x4_0000_0000
                * 0x4_0000_0000 && 0 <= r * r <= 3600) by (nonlinear_arith)
                requires
                    -0x4_0000_0000 <= dx <= 0x4_0000_0000,
                    -0x4_0000_0000 <= dy <= 0x4_0000_0000,
                    1 <= r <= 60,
            ;
        }
        if dx * dx + dy * dy <= (r as i128) * (r as i128) {
            return true;
        }
        k = k + 1;
    }
    false
}

fn mask_of_holes(v: &Vec<(i32, i32, i32)>, b: (u32, u32, u32, u32)) -> (mask: GrayImage)
    requires
        forall|i: int| 0 <= i < v@.len() ==> 1 <= (#[trigger] v@[i]).2 <= 60,
        0 < b.2,
        b.0 + b.2 <= u32::MAX,
        b.1 + b.3 <= u32::MAX,
        b.2 * b.3 <= i32::MAX,
    ensures
        mask.wf(),
        mask.width == b.2,
        mask.height == b.3,
        mask.data@ == holes_mask(
            as_ints(v@),
            (b.0 as int, b.1 as int, b.2 as int, b.3 as int),
        ),
{
    let ghost l = as_ints(v@);
    let ghost gb = (b.0 as int, b.1 as int, b.2 as int, b.3 as int);
    assert(0 <= b.2 * b.3) by (nonlinear_arith);
    let n: usize = b.2 as usize * b.3 as usize;
    let mut data: Vec<u8> = Vec::new();
    let mut p: usize = 0;
    while p < n
        invariant
            l == as_ints(v@),
            gb == (b.0 as int, b.1 as int, b.2 as int, b.3 as int),
            forall|i: int| 0 <= i < v@.len() ==> 1 <= (#[trigger] v@[i]).2 <= 60,
            0 < b.2,
            b.0 + b.2 <= u32::MAX,
            b.1 + b.3 <= u32::MAX,
            n == b.2 * b.3,
            p <= n,
            data@.len() == p,
            forall|j: int| 0 <= j < p ==> #[trigger] data@[j] == holes_mask(l, gb)[j],
        decreases n - p,
    {
        proof {
            lemma_pixel_place(b.2 as int, b.3 as int, p as int);
        }
        let x: i64 = b.0 as i64 + (p % b.2 as usize) as i64;
        let y: i64 = b.1 as i64 + (p / b.2 as usize) as i64;
        if is_in_holes(v, x, y) {
            data.push(255);
        } else {
            data.push(0);
        }
        p = p + 1;
    }
    assert(data@ =~= holes_mask(l, gb));
    GrayImage { width: b.2, height: b.3, data }
}

/// Removes what the strokes cover: their disks are filled together, from one box around them.
pub fn heal_patchmatch(img: &RgbImage, spot: &SpotFix, preview: bool) -> (out: RgbImage)
    requires
        img.wf(),
        spot.strokes@.len() > 0 ==> 0 < img.width && img.width + 60 < i32::MAX && 0 < img.height
            && img.height + 60 < i32::MAX,
        ({
            let b = fill_box(
                holes_of(spot.strokes@, img.width as int, img.height as int),
                img.width as int,
                img.height as int,
            );
            b.2 * b.3 <= i32::MAX
        }),
    ensures
        out.wf(),
        out.width == img.width,
        out.height == img.height,
        is_removed(*img, spot.strokes@, preview, out),
{
    let mut out: RgbImage = img.clone();
    proof {
        let l = holes_of(spot.strokes@, img.width as int, img.height as int);
        let b = fill_box(l, img.width as int, img.height as int);
        assert(fills_box(*img, l, b, preview, patched_box(*img, l, b, preview)));
    }
    if spot.is_empty() {
        return out;
    }
    let v: Vec<(i32, i32, i32)> = resolve_all(&spot.strokes, img.width, img.height);
    let ghost l = as_ints(v@);
    if v.len() == 0 {
        return out;
    }
    let b: (u32, u32, u32, u32) = box_around(&v, img.width, img.height);
    let ghost gb = (b.0 as int, b.1 as int, b.2 as int, b.3 as int);
    let mut sub: RgbImage = copy_box(img, b.0, b.1, b.2, b.3);
    let mask: GrayImage = mask_of_holes(&v, b);
    let longer: u32 = if b.2 < b.3 { b.3 } else { b.2 };
    let share: i32 = Single::from_int(longer as i128).over(num(0x4200_0000)).round().to_i32();  // 32
    let reach: u32 = limit(share as i64, 3, 8) as u32;
    let inner: u32 = if preview { 2 } else { 3 };
    let all: bool = patchmatch_fill(&mut sub, &mask, reach, inner);
    if !all {
        sub = inpaint_rgb(&sub, &mask, reach as i32 + 1);
    }
    assert(fills_box(*img, l, gb, preview, sub.data@));
    paste_box(&mut out, &sub, &mask.data, b.0, b.1);
    proof {
        assert forall|x: int, y: int, c: int|
            0 <= x < img.width && 0 <= y < img.height && 0 <= c < 3 implies #[trigger] out.at(
            x,
            y,
            c,
        ) == removed_at(*img, spot.strokes@, sub.data@, x, y, c) by {
            if b.0 <= x < b.0 + b.2 && b.1 <= y < b.1 + b.3 {
                lemma_pixel_in_range(b.2 as int, b.3 as int, x - b.0, y - b.1);
            }
        }
    }
    out
}

/// Removal changes nothing outside the strokes' disks.
pub proof fn law_removal_stays_under_strokes(
    img: RgbImage,
    strokes: Seq<SpotStroke>,
    preview: bool,
    out: RgbImage,
    x: int,
    y: int,
    c: int,
)
    requires
        is_removed(img, strokes, preview, out),
        !in_holes(holes_of(strokes, img.width as int, img.height as int), x, y),
        0 <= x < img.width,
        0 <= y < img.height,
        0 <= c < 3,
    ensures
        out.at(x, y, c) == img.at(x, y, c),
{
}

/// `out` is the image with the strokes filled with soft edges.
pub open spec fn is_feathered(
    img: RgbImage,
    strokes: Seq<SpotStroke>,
    fades: Seq<Vec<Single>>,
    out: RgbImage,
) -> bool {
    let w = img.width as int;
    let h = img.height as int;
    if w == 0 || h == 0 || strokes.len() == 0 {
        out.data@ == img.data@
    } else {
        is_blended(img.data@, coverage_of(strokes, fades, w, h), out.data@)
    }
}

/// The strokes can be healed in the chosen mode with what is given for it.
pub open spec fn healable(
    img: RgbImage,
    spot: SpotFix,
    preview: bool,
    aids: Seq<StrokeAid>,
    fades: Seq<Vec<Single>>,
) -> bool {
    let w = img.width as int;
    let h = img.height as int;
    let strokes = spot.strokes@;
    &&& w + 60 < i32::MAX
    &&& h + 60 < i32::MAX
    &&& match spot.mode {
        HealMode::Telea => fades_suffice(strokes, fades, w, h),
        HealMode::FreqSep => {
            &&& 0 < w
            &&& 0 < h
            &&& aids.len() == strokes.len()
            &&& forall|i: int|
                0 <= i < aids.len() ==> aid_suffices(w, h, #[trigger] strokes[i], aids[i])
        },
        HealMode::Poisson => {
            &&& 0 < w
            &&& 0 < h
            &&& aids.len() == strokes.len()
        },
        HealMode::PatchMatch => {
            let b = fill_box(holes_of(strokes, w, h), w, h);
            0 < w && 0 < h && b.2 * b.3 <= i32::MAX
        },
    }
}

/// An image with its spots healed in the chosen mode.
pub open spec fn is_healed(
    img: RgbImage,
    spot: SpotFix,
    preview: bool,
    aids: Seq<StrokeAid>,
    fades: Seq<Vec<Single>>,
    out: RgbImage,
) -> bool {
    &&& out.wf()
    &&& out.width == img.width
    &&& out.height == img.height
    &&& spot.strokes@.len() == 0 ==> out.data@ == img.data@
    &&& spot.strokes@.len() > 0 ==> match spot.mode {
        HealMode::Telea => is_feathered(img, spot.strokes@, fades, out),
        HealMode::FreqSep => are_healed(img, spot.strokes@, aids, false, preview, out),
        HealMode::Poisson => are_healed(img, spot.strokes@, aids, true, preview, out),
        HealMode::PatchMatch => is_removed(img, spot.strokes@, preview, out),
    }
}

/// Heals the spots of an image in the chosen mode. Without strokes the image stays as it is. A
/// preview takes fewer iterations. `aids` and `fades` hold, for each stroke, what the modes need
/// of circles, weights and fading.
pub fn heal_image(
    img: &RgbImage,
    spot: &SpotFix,
    preview: bool,
    aids: &Vec<StrokeAid>,
    fades: &Vec<Vec<Single>>,
) -> (out: RgbImage)
    requires
        img.wf(),
        spot.strokes@.len() > 0 ==> healable(*img, *spot, preview, aids@, fades@),
    ensures
        is_healed(*img, *spot, preview, aids@, fades@, out),
{
    if spot.is_empty() {
        return img.clone();
    }
    match spot.mode {
        HealMode::Telea => inpaint_rgb_feathered(img, spot, fades),
        HealMode::FreqSep => {
            let out: RgbImage = heal_strokes(img, spot, false, preview, aids);
            proof {
                lemma_chain_keeps_size(*img, spot.strokes@, aids@, false, preview, out);
            }
            out
        },
        HealMode::Poisson => {
            let out: RgbImage = heal_strokes(img, spot, true, preview, aids);
            proof {
                lemma_chain_keeps_size(*img, spot.strokes@, aids@, true, preview, out);
            }
            out
        },
        HealMode::PatchMatch => heal_patchmatch(img, spot, preview),
    }
}

/// The stroke can change the pixel at `(x, y)` when a source is copied or diffused: it lies in the
/// square around the spot.
pub open spec fn copies_to(s: SpotStroke, w: int, h: int, x: int, y: int) -> bool {
    let (cx, cy, r) = heal_pixels(s, w, h);
    cx - r <= x <= cx + r && cy - r <= y <= cy + r
}

/// The stroke can change the pixel at `(x, y)` when it is filled with a soft edge.
pub open spec fn fades_to(s: SpotStroke, w: int, h: int, x: int, y: int) -> bool {
    let (cx, cy, inner, outer) = soft_stroke(s, w, h);
    let span = soft_span(outer);
    cx - span <= x <= cx + span && cy - span <= y <= cy + span
}

/// Healing can change the pixel at `(x, y)`.
pub open spec fn within_reach(spot: SpotFix, w: int, h: int, x: int, y: int) -> bool {
    match spot.mode {
        HealMode::Telea => exists|i: int|
            0 <= i < spot.strokes@.len() && fades_to(#[trigger] spot.strokes@[i], w, h, x, y),
        HealMode::PatchMatch => in_holes(holes_of(spot.strokes@, w, h), x, y),
        _ => exists|i: int|
            0 <= i < spot.strokes@.len() && copies_to(#[trigger] spot.strokes@[i], w, h, x, y),
    }
}

proof fn lemma_copying_stays_near(
    img: RgbImage,
    strokes: Seq<SpotStroke>,
    aids: Seq<StrokeAid>,
    poisson: bool,
    preview: bool,
    chain: Seq<RgbImage>,
    k: int,
    x: int,
    y: int,
    c: int,
)
    requires
        0 <= k <= strokes.len(),
        chain.len() == strokes.len() + 1,
        chain[0].width == img.width,
        chain[0].height == img.height,
        chain[0].data@ == img.data@,
        forall|i: int|
            0 <= i < strokes.len() ==> is_healed_by(
                #[trigger] chain[i],
                strokes[i],
                aids[i],
                poisson,
                preview,
                chain[i + 1],
            ),
        forall|i: int|
            0 <= i < strokes.len() ==> !copies_to(
                #[trigger] strokes[i],
                img.width as int,
                img.height as int,
                x,
                y,
            ),
        0 <= x < img.width,
        0 <= y < img.height,
        0 <= c < 3,
    ensures
        chain[k].width == img.width,
        chain[k].height == img.height,
        chain[k].at(x, y, c) == img.at(x, y, c),
    decreases k,
{
    if k > 0 {
        lemma_copying_stays_near(img, strokes, aids, poisson, preview, chain, k - 1, x, y, c);
        let before = chain[k - 1];
        let s = strokes[k - 1];
        assert(is_healed_by(before, s, aids[k - 1], poisson, preview, chain[k - 1 + 1]));
        assert(!copies_to(s, img.width as int, img.height as int, x, y));
        let (cx, cy, r) = heal_pixels(s, img.width as int, img.height as int);
        if r >= 1 && in_disk(cx, cy, r, x, y) {
            assert(-r <= x - cx <= r && -r <= y - cy <= r) by (nonlinear_arith)
                requires
                    (x - cx) * (x - cx) + (y - cy) * (y - cy) <= r * r,
                    r >= 1,
            ;
        }
        let filled = choose|filled: Seq<u8>|
            {
                &&& #[trigger] fills_square(before, cx, cy, r, filled)
                &&& forall|x: int, y: int, c: int|
                    0 <= x < before.width && 0 <= y < before.height && 0 <= c < 3
                        ==> #[trigger] chain[k].at(x, y, c) == stroke_at(
                        before,
                        s,
                        aids[k - 1],
                        poisson,
                        preview,
                        filled,
                        x,
                        y,
                        c,
                    )
            };
        assert(chain[k].at(x, y, c) == stroke_at(
            before,
            s,
            aids[k - 1],
            poisson,
            preview,
            filled,
            x,
            y,
            c,
        ));
        if r >= 1 {
            lemma_square_keeps_rest(before, cx, cy, r, filled, x, y, c);
        }
    }
}

/// A filled square differs from the image only in the spot's disk.
proof fn lemma_square_keeps_rest(
    img: RgbImage,
    cx: int,
    cy: int,
    r: int,
    filled: Seq<u8>,
    x: int,
    y: int,
    c: int,
)
    requires
        1 <= r,
        fills_square(img, cx, cy, r, filled),
        !in_disk(cx, cy, r, x, y),
        0 <= c < 3,
    ensures
        diffused_at(img, cx, cy, r, filled, x, y, c) == img.at(x, y, c),
{
    let d = 2 * r + 3;
    let bx = roi_corner(cx, r, img.width as int);
    let by = roi_corner(cy, r, img.height as int);
    if d <= img.width && d <= img.height && bx <= x < bx + d && by <= y < by + d {
        let q = (y - by) * d + (x - bx);
        lemma_pixel_in_range(d, d, x - bx, y - by);
        let k = q * 3 + c;
        assert(k / 3 == q);
        assert(k % 3 == c);
        assert((x - bx) - (cx - bx) == x - cx);
        assert((y - by) - (cy - by) == y - cy);
        assert(disk_mask(cx - bx, cy - by, r)[q] == 0);
        assert(k < d * d * 3);
    }
}

proof fn lemma_nothing_covered(
    strokes: Seq<SpotStroke>,
    fades: Seq<Vec<Single>>,
    w: int,
    h: int,
    x: int,
    y: int,
)
    requires
        forall|i: int|
            0 <= i < strokes.len() ==> !fades_to(#[trigger] strokes[i], w, h, x, y),
    ensures
        coverage(strokes, fades, w, h, x, y) == num(0),
    decreases strokes.len(),
{
    if strokes.len() > 0 {
        let rest = strokes.drop_last();
        assert forall|i: int| 0 <= i < rest.len() implies !fades_to(
            #[trigger] rest[i],
            w,
            h,
            x,
            y,
        ) by {
            assert(rest[i] == strokes[i]);
        }
        lemma_nothing_covered(rest, fades, w, h, x, y);
        assert(!fades_to(strokes[strokes.len() - 1], w, h, x, y));
    }
}

/// Healing changes nothing beyond its strokes' reach, whatever the mode.
pub proof fn law_healing_stays_near_strokes(
    img: RgbImage,
    spot: SpotFix,
    preview: bool,
    aids: Seq<StrokeAid>,
    fades: Seq<Vec<Single>>,
    out: RgbImage,
    x: int,
    y: int,
    c: int,
)
    requires
        img.wf(),
        is_healed(img, spot, preview, aids, fades, out),
        !within_reach(spot, img.width as int, img.height as int, x, y),
        0 <= x < img.width,
        0 <= y < img.height,
        0 <= c < 3,
    ensures
        out.at(x, y, c) == img.at(x, y, c),
{
    let w = img.width as int;
    let h = img.height as int;
    let strokes = spot.strokes@;
    if strokes.len() > 0 {
        match spot.mode {
            HealMode::Telea => {
                lemma_nothing_covered(strokes, fades, w, h, x, y);
                let alpha = coverage_of(strokes, fades, w, h);
                let filled = choose|filled: Seq<u8>|
                    #[trigger] may_fill(img.data@, hard_mask(alpha), filled) && out.data@
                        == feathered(img.data@, alpha, filled);
                lemma_pixel_in_range(w, h, x, y);
                assert(alpha[y * w + x] == num(0));
                let k = (y * w + x) * 3 + c;
                assert(k / 3 == y * w + x);
            },
            HealMode::PatchMatch => {
                law_removal_stays_under_strokes(img, strokes, preview, out, x, y, c);
            },
            _ => {
                let poisson = spot.mode == HealMode::Poisson;
                assert(are_healed(img, strokes, aids, poisson, preview, out));
                let chain = choose|chain: Seq<RgbImage>|
                    {
                        &&& chain.len() == strokes.len() + 1
                        &&& (#[trigger] chain[0]).width == img.width
                        &&& chain[0].height == img.height
                        &&& chain[0].data@ == img.data@
                        &&& chain[strokes.len() as int] == out
                        &&& forall|i: int|
                            0 <= i < strokes.len() ==> is_healed_by(
                                #[trigger] chain[i],
                                strokes[i],
                                aids[i],
                                poisson,
                                preview,
                                chain[i + 1],
                            )
                    };
                lemma_copying_stays_near(
                    img,
                    strokes,
                    aids,
                    poisson,
                    preview,
                    chain,
                    strokes.len() as int,
                    x,
                    y,
                    c,
                );
            },
        }
    }
}

impl SpotFix {
    /// Heals these spots of an image, in their mode.
    pub fn heal(
        &self,
        img: &RgbImage,
        preview: bool,
        aids: &Vec<StrokeAid>,
        fades: &Vec<Vec<Single>>,
    ) -> (out: RgbImage)
        requires
            img.wf(),
            self.strokes@.len() > 0 ==> healable(*img, *self, preview, aids@, fades@),
        ensures
            is_healed(*img, *self, preview, aids@, fades@, out),
    {
        heal_image(img, self, preview, aids, fades)
    }
}

proof fn lemma_chain_keeps_size(
    img: RgbImage,
    strokes: Seq<SpotStroke>,
    aids: Seq<StrokeAid>,
    poisson: bool,
    preview: bool,
    out: RgbImage,
)
    requires
        img.wf(),
        strokes.len() > 0,
        are_healed(img, strokes, aids, poisson, preview, out),
    ensures
        out.wf(),
        out.width == img.width,
        out.height == img.height,
{
    let chain = choose|chain: Seq<RgbImage>|
        {
            &&& chain.len() == strokes.len() + 1
            &&& (#[trigger] chain[0]).width == img.width
            &&& chain[0].height == img.height
            &&& chain[0].data@ == img.data@
            &&& chain[strokes.len() as int] == out
            &&& forall|i: int|
                0 <= i < strokes.len() ==> is_healed_by(
                    #[trigger] chain[i],
                    strokes[i],
                    aids[i],
                    poisson,
                    preview,
                    chain[i + 1],
                )
        };
    lemma_chain_size_upto(img, chain, strokes, aids, poisson, preview, strokes.len() as int);
    assert(is_healed_by(
        chain[strokes.len() - 1],
        strokes[strokes.len() - 1],
        aids[strokes.len() - 1],
        poisson,
        preview,
        chain[strokes.len() - 1 + 1],
    ));
}

proof fn lemma_chain_size_upto(
    img: RgbImage,
    chain: Seq<RgbImage>,
    strokes: Seq<SpotStroke>,
    aids: Seq<StrokeAid>,
    poisson: bool,
    preview: bool,
    k: int,
)
    requires
        0 <= k <= strokes.len(),
        chain.len() == strokes.len() + 1,
        chain[0].width == img.width,
        chain[0].height == img.height,
        forall|i: int|
            0 <= i < strokes.len() ==> is_healed_by(
                #[trigger] chain[i],
                strokes[i],
                aids[i],
                poisson,
                preview,
                chain[i + 1],
            ),
    ensures
        chain[k].width == img.width,
        chain[k].height == img.height,
    decreases k,
{
    if k > 0 {
        lemma_chain_size_upto(img, chain, strokes, aids, poisson, preview, k - 1);
        assert(is_healed_by(
            chain[k - 1],
            strokes[k - 1],
            aids[k - 1],
            poisson,
            preview,
            chain[k - 1 + 1],
        ));
    }
}

} // verus!
