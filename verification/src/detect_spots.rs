//! Automatic detection of isolated small spots.
//!
//! A median filter estimates the background. Where a pixel differs from it by more than a
//! threshold it is marked, and the connected regions of marked pixels are the candidates. A
//! candidate becomes a stroke if its size is in range, its contrast is high enough and the
//! ring around it is calm: in texture everything differs from the background, and a false
//! detection would be healed and damage the picture.

use crate::components::{are_regions, find_regions, orders_of, regions_of};
use crate::median::{
    column_count, is_inverted, is_median, law_every_window_has_a_median, law_inverted_median,
    lemma_median_is_unique, median_at, median_filter_rgb, nearest_index, window_count, MAX_KSIZE,
};
use crate::order::{
    is_finite, law_adding_raises, law_dividing_keeps_order, law_whole_numbers_are_exact,
};
use crate::raster::{lemma_pixel_in_range, lemma_pixel_place, offset3, RgbImage};
use crate::single::{
    law_opposite_differences_square_alike, law_order_is_numeric, law_sums_keep_order,
    lemma_exact_ratio, lemma_quotient_is_a_number, lemma_round_ratio, lemma_rounding_keeps_order,
    num, ulps, Single,
};
use crate::spot::SpotStroke;
use vstd::prelude::*;

verus! {

/// The settings of the detection.
#[derive(Clone, Debug)]
pub struct DetectParams {
    /// Side of the median window. Only what is smaller than half of it can be found.
    pub median_ksize: u32,
    /// Difference from the background, 0 to 255, above which a pixel is marked.
    pub contrast_thr: Single,
    /// Smallest radius in pixels.
    pub min_radius_px: Single,
    /// Largest radius in pixels.
    pub max_radius_px: Single,
    /// Smallest number of pixels.
    pub min_area: u32,
    /// The mean difference in the ring must stay below `contrast_thr` times this.
    pub isolation_ratio: Single,
    /// How much larger than the spot the stroke is.
    pub radius_scale: Single,
    /// Most strokes returned, those of highest contrast.
    pub max_spots: usize,
    /// Factors by which the image is reduced for further passes.
    pub scales: Vec<u32>,
}

impl Default for DetectParams {
    fn default() -> (r: DetectParams)
        ensures
            r.median_ksize == 13,
            r.contrast_thr == num(0x41c8_0000),  // 25
            r.min_radius_px == num(0x3f80_0000),
            r.max_radius_px == num(0x4220_0000),  // 40
            r.min_area == 4,
            r.isolation_ratio == num(0x3eb3_3333),  // 0.35
            r.radius_scale == num(0x3f93_3333),  // 1.15
            r.max_spots == 200,
            r.scales@ == seq![1u32],
    {
        let mut scales: Vec<u32> = Vec::new();
        scales.push(1);
        DetectParams {
            median_ksize: 13,
            contrast_thr: num(0x41c8_0000),  // 25
            min_radius_px: num(0x3f80_0000),  // 1
            max_radius_px: num(0x4220_0000),  // 40
            min_area: 4,
            isolation_ratio: num(0x3eb3_3333),  // 0.35
            radius_scale: num(0x3f93_3333),  // 1.15
            max_spots: 200,
            scales,
        }
    }
}

/// What is known of a region of marked pixels.
#[derive(Clone, Copy, Debug, PartialEq, Eq, Structural)]
pub struct Candidate {
    pub cx_px: Single,
    pub cy_px: Single,
    pub minx: u32,
    pub maxx: u32,
    pub miny: u32,
    pub maxy: u32,
    pub mean_res: Single,
    pub area: u64,
}

/// The difference of two bytes.
pub open spec fn apart(a: u8, b: u8) -> int {
    if a < b {
        b - a
    } else {
        a - b
    }
}

pub open spec fn larger(a: int, b: int) -> int {
    if a < b {
        b
    } else {
        a
    }
}

pub open spec fn smaller(a: int, b: int) -> int {
    if b < a {
        b
    } else {
        a
    }
}

/// By how much a pixel differs from its background: the largest difference over its channels.
pub open spec fn residual_at(img: RgbImage, r: int, i: int) -> int {
    let x = i % img.width as int;
    let y = i / img.width as int;
    larger(
        larger(
            apart(img.at(x, y, 0), median_at(img, 0, x, y, r)),
            apart(img.at(x, y, 1), median_at(img, 1, x, y, r)),
        ),
        apart(img.at(x, y, 2), median_at(img, 2, x, y, r)),
    )
}

/// The differences of all pixels.
pub open spec fn residuals_of(img: RgbImage, r: int) -> Seq<u8> {
    Seq::new((img.width * img.height) as nat, |i: int| residual_at(img, r, i) as u8)
}

/// The pixels whose difference exceeds the threshold.
pub open spec fn marked_of(res: Seq<u8>, thr: Single) -> Seq<bool> {
    Seq::new(res.len(), |i: int| Single::spec_from_int(res[i] as int).gt(thr))
}

pub open spec fn sum_of_columns(order: Seq<usize>, w: int) -> int
    decreases order.len(),
{
    if order.len() == 0 {
        0
    } else {
        sum_of_columns(order.drop_last(), w) + order.last() as int % w
    }
}

pub open spec fn sum_of_rows(order: Seq<usize>, w: int) -> int
    decreases order.len(),
{
    if order.len() == 0 {
        0
    } else {
        sum_of_rows(order.drop_last(), w) + order.last() as int / w
    }
}

/// The differences of the listed pixels, added up one after the other.
pub open spec fn sum_of_residuals(order: Seq<usize>, res: Seq<u8>) -> Single
    decreases order.len(),
{
    if order.len() == 0 {
        num(0)
    } else {
        sum_of_residuals(order.drop_last(), res).plus(
            Single::spec_from_int(res[order.last() as int] as int),
        )
    }
}

pub open spec fn least_column(order: Seq<usize>, w: int) -> int
    decreases order.len(),
{
    if order.len() == 0 {
        w
    } else {
        smaller(least_column(order.drop_last(), w), order.last() as int % w)
    }
}

pub open spec fn greatest_column(order: Seq<usize>, w: int) -> int
    decreases order.len(),
{
    if order.len() == 0 {
        0
    } else {
        larger(greatest_column(order.drop_last(), w), order.last() as int % w)
    }
}

pub open spec fn least_row(order: Seq<usize>, w: int, h: int) -> int
    decreases order.len(),
{
    if order.len() == 0 {
        h
    } else {
        smaller(least_row(order.drop_last(), w, h), order.last() as int / w)
    }
}

pub open spec fn greatest_row(order: Seq<usize>, w: int) -> int
    decreases order.len(),
{
    if order.len() == 0 {
        0
    } else {
        larger(greatest_row(order.drop_last(), w), order.last() as int / w)
    }
}

/// The candidate that the listed pixels make.
pub open spec fn candidate_of(order: Seq<usize>, res: Seq<u8>, w: int, h: int) -> Candidate {
    let n = Single::spec_from_int(order.len() as int);
    Candidate {
        cx_px: Single::spec_from_int(sum_of_columns(order, w)).over(n),
        cy_px: Single::spec_from_int(sum_of_rows(order, w)).over(n),
        minx: least_column(order, w) as u32,
        maxx: greatest_column(order, w) as u32,
        miny: least_row(order, w, h) as u32,
        maxy: greatest_row(order, w) as u32,
        mean_res: sum_of_residuals(order, res).over(n),
        area: order.len() as u64,
    }
}

/// Adds the pixel at `(x, y)` to a running total and count, unless it lies in the box.
pub open spec fn ring_step(
    acc: (Single, int),
    res: Seq<u8>,
    w: int,
    c: Candidate,
    x: int,
    y: int,
) -> (Single, int) {
    if c.minx <= x <= c.maxx && c.miny <= y <= c.maxy {
        acc
    } else {
        (acc.0.plus(Single::spec_from_int(res[y * w + x] as int)), acc.1 + 1)
    }
}

/// The running total and count over the pixels of row `y` from column `x0` up to before `x1`.
pub open spec fn ring_row(
    acc: (Single, int),
    res: Seq<u8>,
    w: int,
    c: Candidate,
    y: int,
    x0: int,
    x1: int,
) -> (Single, int)
    decreases x1 - x0,
{
    if x1 <= x0 {
        acc
    } else {
        ring_step(ring_row(acc, res, w, c, y, x0, x1 - 1), res, w, c, x1 - 1, y)
    }
}

/// The running total and count over the rows from `y0` up to before `y1`.
pub open spec fn ring_rows(
    res: Seq<u8>,
    w: int,
    c: Candidate,
    x0: int,
    x1: int,
    y0: int,
    y1: int,
) -> (Single, int)
    decreases y1 - y0,
{
    if y1 <= y0 {
        (num(0), 0)
    } else {
        ring_row(ring_rows(res, w, c, x0, x1, y0, y1 - 1), res, w, c, y1 - 1, x0, x1)
    }
}

/// The ring of width `pad` around the candidate's box, as far as it lies in the image, has
/// pixels, and their mean difference is at most `limit`.
pub open spec fn isolated(
    res: Seq<u8>,
    w: int,
    h: int,
    c: Candidate,
    pad: int,
    limit: Single,
) -> bool {
    let (total, count) = ring_rows(
        res,
        w,
        c,
        larger(c.minx - pad, 0),
        smaller(c.maxx + pad, w - 1) + 1,
        larger(c.miny - pad, 0),
        smaller(c.maxy + pad, h - 1) + 1,
    );
    count > 0 && total.over(Single::spec_from_int(count)).le(limit)
}

/// The radius of the disk that has a candidate's area, at least one pixel.
pub open spec fn radius_of(c: Candidate) -> Single {
    Single::spec_from_int(c.area as int).over(num(0x4049_0fdb)).sqrt().max(num(0x3f80_0000))
}

/// The stroke that a candidate makes, with its contrast; nothing where it is refused.
pub open spec fn stroke_of(
    c: Candidate,
    res: Seq<u8>,
    w: int,
    h: int,
    p: DetectParams,
    max_radius: Single,
) -> Option<(Single, SpotStroke)> {
    let short = Single::spec_from_int(smaller(w, h));
    let radius = radius_of(c);
    let r_norm = radius.over(short);
    if r_norm.lt(p.min_radius_px.over(short)) || r_norm.gt(max_radius.over(short)) {
        None
    } else if c.mean_res.le(p.contrast_thr) {
        None
    } else if !isolated(
        res,
        w,
        h,
        c,
        larger(radius.rounded(0, u32::MAX as int), 3),
        p.contrast_thr.times(p.isolation_ratio),
    ) {
        None
    } else {
        Some(
            (
                c.mean_res,
                SpotStroke::new(
                    c.cx_px.over(Single::spec_from_int(w)),
                    c.cy_px.over(Single::spec_from_int(h)),
                    r_norm.times(p.radius_scale),
                ),
            ),
        )
    }
}

/// The strokes of all regions that are large enough, in their order.
pub open spec fn strokes_of(
    regions: Seq<Seq<usize>>,
    res: Seq<u8>,
    w: int,
    h: int,
    p: DetectParams,
    max_radius: Single,
) -> Seq<(Single, SpotStroke)>
    decreases regions.len(),
{
    if regions.len() == 0 {
        Seq::empty()
    } else {
        let before = strokes_of(regions.drop_last(), res, w, h, p, max_radius);
        let order = regions.last();
        if order.len() < p.min_area {
            before
        } else {
            match stroke_of(candidate_of(order, res, w, h), res, w, h, p, max_radius) {
                Some(s) => before.push(s),
                None => before,
            }
        }
    }
}

/// The strokes found in an image at its own scale: those of the regions of its marked pixels, in
/// the order of the regions.
pub open spec fn strokes_at_scale(
    img: RgbImage,
    p: DetectParams,
    max_radius: Single,
) -> Seq<(Single, SpotStroke)> {
    let w = img.width as int;
    let h = img.height as int;
    let res = residuals_of(img, (p.median_ksize / 2) as int);
    if w == 0 || h == 0 {
        Seq::empty()
    } else {
        strokes_of(regions_of(marked_of(res, p.contrast_thr), w, h), res, w, h, p, max_radius)
    }
}

fn differ(a: u8, b: u8) -> (r: u8)
    ensures
        r == apart(a, b),
{
    if a < b {
        b - a
    } else {
        a - b
    }
}

/// The differences of all pixels from their background.
fn residuals(img: &RgbImage, ksize: u32) -> (res: Vec<u8>)
    requires
        img.wf(),
        0 < img.width,
        0 < img.height,
        ksize <= MAX_KSIZE,
    ensures
        res@ == residuals_of(*img, (ksize / 2) as int),
{
    let med: Vec<[u8; 3]> = median_filter_rgb(img, ksize);
    let n: usize = med.len();
    let ghost w = img.width as int;
    let ghost r = (ksize / 2) as int;
    let mut res: Vec<u8> = Vec::new();
    let mut i: usize = 0;
    while i < n
        invariant
            img.wf(),
            w == img.width,
            r == ksize / 2,
            0 < w,
            n == img.width * img.height,
            med@.len() == n,
            i <= n,
            res@.len() == i,
            forall|x: int, y: int, c: int|
                0 <= x < img.width && 0 <= y < img.height && 0 <= c < 3 ==> is_median(
                    *img,
                    c,
                    x,
                    y,
                    r,
                    #[trigger] med@[y * img.width + x]@[c],
                ),
            forall|j: int| 0 <= j < i ==> #[trigger] res@[j] == residual_at(*img, r, j),
        decreases n - i,
    {
        let m: [u8; 3] = med[i];
        proof {
            let x = i as int % w;
            let y = i as int / w;
            lemma_pixel_place(w, img.height as int, i as int);
            assert(is_median(*img, 0, x, y, r, med@[y * img.width + x]@[0]));
            assert(is_median(*img, 1, x, y, r, med@[y * img.width + x]@[1]));
            assert(is_median(*img, 2, x, y, r, med@[y * img.width + x]@[2]));
            lemma_median_is_unique(*img, 0, x, y, r, m@[0]);
            lemma_median_is_unique(*img, 1, x, y, r, m@[1]);
            lemma_median_is_unique(*img, 2, x, y, r, m@[2]);
        }
        let a: u8 = differ(img.data[i * 3], m[0]);
        let b: u8 = differ(img.data[i * 3 + 1], m[1]);
        let c: u8 = differ(img.data[i * 3 + 2], m[2]);
        let ab: u8 = if a < b { b } else { a };
        res.push(if ab < c { c } else { ab });
        i = i + 1;
    }
    assert(res@ =~= residuals_of(*img, r));
    res
}

/// Measures a region.
fn measure(order: &Vec<usize>, res: &Vec<u8>, w: u32, h: u32) -> (c: Candidate)
    requires
        0 < w,
        0 < h,
        res@.len() == w * h,
        0 < order@.len(),
        forall|i: int| 0 <= i < order@.len() ==> #[trigger] order@[i] < res@.len(),
    ensures
        c == candidate_of(order@, res@, w as int, h as int),
        c.minx < w,
        c.maxx < w,
        c.miny < h,
        c.maxy < h,
{
    let n: usize = order.len();
    let ghost gw = w as int;
    let ghost gh = h as int;
    let mut sx: u128 = 0;
    let mut sy: u128 = 0;
    let mut sres: Single = num(0);
    let mut minx: u32 = w;
    let mut miny: u32 = h;
    let mut maxx: u32 = 0;
    let mut maxy: u32 = 0;
    let mut i: usize = 0;
    assert(order@.subrange(0, 0) =~= Seq::empty());
    while i < n
        invariant
            gw == w,
            gh == h,
            0 < w,
            0 < h,
            res@.len() == w * h,
            n == order@.len(),
            i <= n,
            forall|j: int| 0 <= j < order@.len() ==> #[trigger] order@[j] < res@.len(),
            sx <= i * 0xffff_ffff,
            sy <= i * 0xffff_ffff,
            ({
                let done = order@.subrange(0, i as int);
                &&& sx == sum_of_columns(done, gw)
                &&& sy == sum_of_rows(done, gw)
                &&& sres == sum_of_residuals(done, res@)
                &&& minx == least_column(done, gw)
                &&& maxx == greatest_column(done, gw)
                &&& miny == least_row(done, gw, gh)
                &&& maxy == greatest_row(done, gw)
            }),
            i > 0 ==> minx < w && miny < h,
            maxx < w,
            maxy < h,
        decreases n - i,
    {
        let px: usize = order[i];
        proof {
            lemma_pixel_place(gw, gh, px as int);
            let next = order@.subrange(0, i + 1);
            assert(next.drop_last() =~= order@.subrange(0, i as int));
            assert(next.last() == px);
        }
        let x: u32 = (px % w as usize) as u32;
        let y: u32 = (px / w as usize) as u32;
        sx = sx + x as u128;
        sy = sy + y as u128;
        sres = sres.plus(Single::from_int(res[px] as i128));
        if x < minx {
            minx = x;
        }
        if y < miny {
            miny = y;
        }
        if x > maxx {
            maxx = x;
        }
        if y > maxy {
            maxy = y;
        }
        i = i + 1;
    }
    assert(order@.subrange(0, n as int) =~= order@);
    let count: Single = Single::from_int(n as i128);
    Candidate {
        cx_px: Single::from_int(sx as i128).over(count),
        cy_px: Single::from_int(sy as i128).over(count),
        minx,
        maxx,
        miny,
        maxy,
        mean_res: sres.over(count),
        area: n as u64,
    }
}

/// Whether the ring around a candidate is calm.
fn is_isolated(res: &Vec<u8>, w: u32, h: u32, c: &Candidate, pad: u32, limit: Single) -> (r: bool)
    requires
        res@.len() == w * h,
        c.minx < w,
        c.maxx < w,
        c.miny < h,
        c.maxy < h,
    ensures
        r == isolated(res@, w as int, h as int, *c, pad as int, limit),
{
    let x0: u32 = if c.minx > pad { c.minx - pad } else { 0 };
    let y0: u32 = if c.miny > pad { c.miny - pad } else { 0 };
    let x1: u64 = if c.maxx as u64 + (pad as u64) < w as u64 - 1 {
        c.maxx as u64 + pad as u64 + 1
    } else {
        w as u64
    };
    let y1: u64 = if c.maxy as u64 + (pad as u64) < h as u64 - 1 {
        c.maxy as u64 + pad as u64 + 1
    } else {
        h as u64
    };
    let cells: usize = res.len();
    let mut total: Single = num(0);
    let mut count: u64 = 0;
    let mut y: u64 = y0 as u64;
    if y0 as u64 > y1 || x0 as u64 > x1 {
        // boxes have their least corner first; a box that has not holds no ring
        proof {
            lemma_empty_rows(res@, w as int, *c, x0 as int, x1 as int, y0 as int, y1 as int);
        }
        return false;
    }
    assert(ring_rows(res@, w as int, *c, x0 as int, x1 as int, y0 as int, y0 as int) == (num(0), 0int));
    assert(0 * (x1 - x0) == 0) by (nonlinear_arith);
    while y < y1
        invariant
            res@.len() == w * h,
            cells == res@.len(),
            y0 <= y <= y1 <= h,
            x0 <= x1 <= w,
            count <= (y - y0) * (x1 - x0),
            (total, count as int) == ring_rows(
                res@,
                w as int,
                *c,
                x0 as int,
                x1 as int,
                y0 as int,
                y as int,
            ),
        decreases y1 - y,
    {
        let ghost start = (total, count as int);
        let mut x: u64 = x0 as u64;
        while x < x1
            invariant
                res@.len() == w * h,
                cells == res@.len(),
                y0 <= y < y1 <= h,
                x0 <= x <= x1 <= w,
                count <= (y - y0) * (x1 - x0) + (x - x0),
                (total, count as int) == ring_row(
                    start,
                    res@,
                    w as int,
                    *c,
                    y as int,
                    x0 as int,
                    x as int,
                ),
            decreases x1 - x,
        {
            if !(x >= c.minx as u64 && x <= c.maxx as u64 && y >= c.miny as u64 && y
                <= c.maxy as u64) {
                proof {
                    lemma_pixel_in_range(w as int, h as int, x as int, y as int);
                    assert(0 <= y * w) by (nonlinear_arith);
                    assert((y - y0) * (x1 - x0) + (x - x0) < 0xffff_ffff * 0xffff_ffff)
                        by (nonlinear_arith)
                        requires
                            0 <= y0 <= y < y1 <= 0xffff_ffff,
                            0 <= x0 <= x < x1 <= 0xffff_ffff,
                    ;
                }
                let v: u8 = res[y as usize * w as usize + x as usize];
                total = total.plus(Single::from_int(v as i128));
                count = count + 1;
            }
            x = x + 1;
        }
        assert((y + 1 - y0) * (x1 - x0) == (y - y0) * (x1 - x0) + (x1 - x0)) by (nonlinear_arith);
        y = y + 1;
    }
    if count == 0 {
        return false;
    }
    total.over(Single::from_int(count as i128)).le(limit)
}

proof fn lemma_empty_rows(res: Seq<u8>, w: int, c: Candidate, x0: int, x1: int, y0: int, y1: int)
    requires
        x1 < x0 || y1 < y0,
    ensures
        ring_rows(res, w, c, x0, x1, y0, y1).1 == 0,
    decreases y1 - y0,
{
    if y1 > y0 {
        lemma_empty_rows(res, w, c, x0, x1, y0, y1 - 1);
    }
}

/// Decides on a candidate.
fn judge(c: &Candidate, res: &Vec<u8>, w: u32, h: u32, p: &DetectParams, max_radius: Single) -> (r:
    Option<(Single, SpotStroke)>)
    requires
        res@.len() == w * h,
        c.minx < w,
        c.maxx < w,
        c.miny < h,
        c.maxy < h,
    ensures
        r == stroke_of(*c, res@, w as int, h as int, *p, max_radius),
{
    let short: Single = Single::from_int((if w < h { w } else { h }) as i128);
    // 3.1415927
    let radius: Single = Single::from_int(c.area as i128).over(num(0x4049_0fdb)).sqrt().max(
        num(0x3f80_0000),
    );
    let r_norm: Single = radius.over(short);
    if r_norm.lt(p.min_radius_px.over(short)) || r_norm.gt(max_radius.over(short)) {
        return None;
    }
    if c.mean_res.le(p.contrast_thr) {
        return None;
    }
    let near: u32 = radius.round_u32();
    let pad: u32 = if near < 3 { 3 } else { near };
    if !is_isolated(res, w, h, c, pad, p.contrast_thr.times(p.isolation_ratio)) {
        return None;
    }
    Some(
        (
            c.mean_res,
            SpotStroke::new(
                c.cx_px.over(Single::from_int(w as i128)),
                c.cy_px.over(Single::from_int(h as i128)),
                r_norm.times(p.radius_scale),
            ),
        ),
    )
}

/// The strokes found in an image at its own scale, each with its contrast.
pub fn detect_single_scale(img: &RgbImage, p: &DetectParams, max_radius: Single) -> (out: Vec<
    (Single, SpotStroke),
>)
    requires
        img.wf(),
        p.median_ksize <= MAX_KSIZE,
    ensures
        out@ == strokes_at_scale(*img, *p, max_radius),
{
    let w: u32 = img.width;
    let h: u32 = img.height;
    let mut out: Vec<(Single, SpotStroke)> = Vec::new();
    if w == 0 || h == 0 {
        assert(out@ =~= Seq::empty());
        return out;
    }
    let res: Vec<u8> = residuals(img, p.median_ksize);
    let n: usize = res.len();
    let mut marked: Vec<bool> = Vec::new();
    let mut i: usize = 0;
    while i < n
        invariant
            i <= n,
            n == res@.len(),
            marked@.len() == i,
            forall|j: int|
                0 <= j < i ==> #[trigger] marked@[j] == marked_of(res@, p.contrast_thr)[j],
        decreases n - i,
    {
        marked.push(Single::from_int(res[i] as i128).gt(p.contrast_thr));
        i = i + 1;
    }
    assert(marked@ =~= marked_of(res@, p.contrast_thr));
    let (starts, regions) = find_regions(&marked, w as usize, h as usize);
    let mut k: usize = 0;
    let ghost orders = orders_of(regions@);
    assert(orders.subrange(0, 0) =~= Seq::empty());
    while k < regions.len()
        invariant
            0 < w,
            0 < h,
            res@.len() == w * h,
            k <= regions@.len(),
            marked@.len() == res@.len(),
            are_regions(marked@, w as int, starts@, regions@, marked@.len() as int),
            orders == orders_of(regions@),
            out@ == strokes_of(
                orders.subrange(0, k as int),
                res@,
                w as int,
                h as int,
                *p,
                max_radius,
            ),
        decreases regions@.len() - k,
    {
        let order: &Vec<usize> = &regions[k];
        proof {
            let next = orders.subrange(0, k + 1);
            assert(next.drop_last() =~= orders.subrange(0, k as int));
            assert(next.last() == regions@[k as int]@);
            assert(starts@[k as int] == starts@[k as int]);
            crate::components::lemma_region_is_not_empty(
                marked@,
                w as int,
                starts@[k as int] as int,
                order@,
            );
        }
        if order.len() as u64 >= p.min_area as u64 {
            let c: Candidate = measure(order, &res, w, h);
            match judge(&c, &res, w, h, p, max_radius) {
                Some(s) => {
                    out.push(s);
                },
                None => {},
            }
        }
        k = k + 1;
    }
    assert(orders.subrange(0, k as int) =~= orders);
    out
}

/// The sum of one channel over the first `k` pixels of a row that starts at `(x, y)`.
pub open spec fn row_sum(img: RgbImage, c: int, x: int, y: int, k: int) -> int
    decreases k,
{
    if k <= 0 {
        0
    } else {
        row_sum(img, c, x, y, k - 1) + img.at(x + k - 1, y, c)
    }
}

/// The sum of one channel over a block of `bw` by `l` pixels with its corner at `(x, y)`.
pub open spec fn block_sum(img: RgbImage, c: int, x: int, y: int, bw: int, l: int) -> int
    decreases l,
{
    if l <= 0 {
        0
    } else {
        block_sum(img, c, x, y, bw, l - 1) + row_sum(img, c, x, y + l - 1, bw)
    }
}

/// The mean, rounded down, over a block of `f` by `f` pixels; a side on which the image is
/// shorter than that is taken whole.
pub open spec fn block_mean(img: RgbImage, c: int, x: int, y: int, f: int) -> int {
    let bw = smaller(f, img.width as int);
    let bh = smaller(f, img.height as int);
    block_sum(img, c, x * f, y * f, bw, bh) / (bw * bh)
}

/// `out` is `img` reduced by the factor `f`.
pub open spec fn is_reduced(img: RgbImage, f: int, out: RgbImage) -> bool {
    &&& out.wf()
    &&& out.width == larger(img.width as int / f, 1)
    &&& out.height == larger(img.height as int / f, 1)
    &&& forall|x: int, y: int, c: int|
        0 <= x < out.width && 0 <= y < out.height && 0 <= c < 3 ==> #[trigger] out.at(x, y, c)
            == block_mean(img, c, x, y, f)
}

proof fn lemma_row_sum_bound(img: RgbImage, c: int, x: int, y: int, k: int)
    requires
        0 <= k,
    ensures
        0 <= row_sum(img, c, x, y, k) <= 255 * k,
    decreases k,
{
    if k > 0 {
        lemma_row_sum_bound(img, c, x, y, k - 1);
    }
}

proof fn lemma_block_sum_bound(img: RgbImage, c: int, x: int, y: int, bw: int, l: int)
    requires
        0 <= bw,
        0 <= l,
    ensures
        0 <= block_sum(img, c, x, y, bw, l) <= 255 * (bw * l),
    decreases l,
{
    if l > 0 {
        lemma_block_sum_bound(img, c, x, y, bw, l - 1);
        lemma_row_sum_bound(img, c, x, y + l - 1, bw);
        assert(bw * l == bw * (l - 1) + bw) by (nonlinear_arith);
    } else {
        assert(bw * 0 == 0);
    }
}

/// The mean of one channel over a block.
fn mean_of_block(img: &RgbImage, c: usize, x: u32, y: u32, bw: u32, bh: u32) -> (m: u8)
    requires
        img.wf(),
        c < 3,
        0 < bw,
        0 < bh,
        x + bw <= img.width,
        y + bh <= img.height,
    ensures
        m == block_sum(*img, c as int, x as int, y as int, bw as int, bh as int) / (bw * bh),
{
    let mut sum: u128 = 0;
    let ghost (gc, gx, gy, gw) = (c as int, x as int, y as int, bw as int);
    let mut j: u32 = 0;
    assert(gw * 0 == 0);
    while j < bh
        invariant
            img.wf(),
            c < 3,
            gc == c,
            gx == x,
            gy == y,
            gw == bw,
            0 < bw,
            x + bw <= img.width,
            y + bh <= img.height,
            j <= bh,
            sum == block_sum(*img, gc, gx, gy, gw, j as int),
        decreases bh - j,
    {
        let ghost before = sum;
        let mut i: u32 = 0;
        while i < bw
            invariant
                img.wf(),
                c < 3,
                gc == c,
                gx == x,
                gy == y,
                gw == bw,
                x + bw <= img.width,
                y + bh <= img.height,
                i <= bw,
                j < bh,
                before == block_sum(*img, gc, gx, gy, gw, j as int),
                sum == before + row_sum(*img, gc, gx, gy + j, i as int),
            decreases bw - i,
        {
            proof {
                lemma_block_sum_bound(*img, gc, gx, gy, gw, j as int);
                lemma_row_sum_bound(*img, gc, gx, gy + j, i as int);
                assert(gw * j <= 0xffff_ffff * 0xffff_ffff) by (nonlinear_arith)
                    requires
                        0 <= gw <= 0xffff_ffff,
                        0 <= j <= 0xffff_ffff,
                ;
            }
            let o: usize = img.offset(x + i, y + j);
            sum = sum + img.data[o + c] as u128;
            i = i + 1;
        }
        j = j + 1;
    }
    proof {
        lemma_block_sum_bound(*img, gc, gx, gy, gw, bh as int);
        assert(0 < bw * bh <= 0xffff_ffff * 0xffff_ffff) by (nonlinear_arith)
            requires
                0 < bw <= 0xffff_ffff,
                0 < bh <= 0xffff_ffff,
        ;
        assert(0 <= sum as int / (bw * bh) <= 255) by (nonlinear_arith)
            requires
                0 <= sum <= 255 * (bw * bh),
                0 < bw * bh,
        ;
    }
    let area: u128 = bw as u128 * bh as u128;
    (sum / area) as u8
}

/// The image reduced by a whole factor: each pixel is the mean of a block.
pub fn downsample_box(img: &RgbImage, f: u32) -> (out: RgbImage)
    requires
        img.wf(),
        0 < img.width,
        0 < img.height,
        0 < f,
    ensures
        is_reduced(*img, f as int, out),
{
    let nw: u32 = if img.width / f < 1 { 1 } else { img.width / f };
    let nh: u32 = if img.height / f < 1 { 1 } else { img.height / f };
    let bw: u32 = if img.width < f { img.width } else { f };
    let bh: u32 = if img.height < f { img.height } else { f };
    let cells: usize = img.data.len();
    proof {
        assert(nw <= img.width && (nw - 1) * f + bw <= img.width) by (nonlinear_arith)
            requires
                0 < f,
                0 < img.width,
                nw == if img.width / f < 1 { 1u32 } else { img.width / f },
                bw == if img.width < f { img.width } else { f },
        ;
        assert(nh <= img.height && (nh - 1) * f + bh <= img.height) by (nonlinear_arith)
            requires
                0 < f,
                0 < img.height,
                nh == if img.height / f < 1 { 1u32 } else { img.height / f },
                bh == if img.height < f { img.height } else { f },
        ;
        assert(nw * nh <= img.width * img.height) by (nonlinear_arith)
            requires
                0 <= nw <= img.width,
                0 <= nh <= img.height,
        ;
    }
    let mut data: Vec<u8> = Vec::new();
    let mut y: u32 = 0;
    assert(0 * nw * 3 == 0) by (nonlinear_arith);
    while y < nh
        invariant
            img.wf(),
            0 < f,
            0 < bw,
            0 < bh,
            bw == smaller(f as int, img.width as int),
            bh == smaller(f as int, img.height as int),
            (nw - 1) * f + bw <= img.width,
            (nh - 1) * f + bh <= img.height,
            nw * nh <= img.width * img.height,
            cells == img.width * img.height * 3,
            0 < nw,
            y <= nh,
            data@.len() == y * nw * 3,
            forall|i: int, j: int, c: int|
                0 <= i < nw && 0 <= j < y && 0 <= c < 3 ==> #[trigger] data@[(j * nw + i) * 3 + c]
                    == block_mean(*img, c, i, j, f as int),
        decreases nh - y,
    {
        let ghost before = data@;
        let mut x: u32 = 0;
        while x < nw
            invariant
                img.wf(),
                0 < f,
                0 < bw,
                0 < bh,
                bw == smaller(f as int, img.width as int),
                bh == smaller(f as int, img.height as int),
                (nw - 1) * f + bw <= img.width,
                (nh - 1) * f + bh <= img.height,
                y < nh,
                x <= nw,
                before.len() == y * nw * 3,
                data@.len() == (y * nw + x) * 3,
                forall|i: int| 0 <= i < before.len() ==> data@[i] == before[i],
                forall|i: int, c: int|
                    0 <= i < x && 0 <= c < 3 ==> #[trigger] data@[(y * nw + i) * 3 + c]
                        == block_mean(*img, c, i, y as int, f as int),
            decreases nw - x,
        {
            proof {
                assert(x * f + bw <= img.width && 0 <= x * f) by (nonlinear_arith)
                    requires
                        0 <= x <= nw - 1,
                        (nw - 1) * f + bw <= img.width,
                        0 < f,
                ;
                assert(y * f + bh <= img.height && 0 <= y * f) by (nonlinear_arith)
                    requires
                        0 <= y <= nh - 1,
                        (nh - 1) * f + bh <= img.height,
                        0 < f,
                ;
            }
            let red: u8 = mean_of_block(img, 0, x * f, y * f, bw, bh);
            let green: u8 = mean_of_block(img, 1, x * f, y * f, bw, bh);
            let blue: u8 = mean_of_block(img, 2, x * f, y * f, bw, bh);
            data.push(red);
            data.push(green);
            data.push(blue);
            x = x + 1;
        }
        proof {
            assert((y + 1) * nw == y * nw + nw) by (nonlinear_arith);
            assert forall|i: int, j: int, c: int|
                0 <= i < nw && 0 <= j < y + 1 && 0 <= c < 3 implies #[trigger] data@[(j * nw + i)
                * 3 + c] == block_mean(*img, c, i, j, f as int) by {
                if j < y {
                    lemma_pixel_in_range(nw as int, y as int, i, j);
                    assert(nw * y == y * nw) by (nonlinear_arith);
                    assert(before[(j * nw + i) * 3 + c] == data@[(j * nw + i) * 3 + c]);
                }
            }
        }
        y = y + 1;
    }
    let out: RgbImage = RgbImage { width: nw, height: nh, data };
    proof {
        assert(nh * nw == nw * nh) by (nonlinear_arith);
        assert forall|x: int, y: int, c: int|
            0 <= x < out.width && 0 <= y < out.height && 0 <= c < 3 implies #[trigger] out.at(x, y, c)
            == block_mean(*img, c, x, y, f as int) by {
            assert(out.at(x, y, c) == data@[(y * nw + x) * 3 + c]);
        }
    }
    out
}

/// What a list of strokes is ordered by: the radius, or else the contrast.
pub open spec fn rank_of(e: (Single, SpotStroke), by_radius: bool) -> Single {
    if by_radius {
        e.1.r_norm
    } else {
        e.0
    }
}

/// Where a new entry goes into an ordered list: before the first entry that ranks lower.
pub open spec fn place_for(s: Seq<(Single, SpotStroke)>, e: (Single, SpotStroke), by_radius: bool) -> int
    decreases s.len(),
{
    if s.len() == 0 {
        0
    } else if rank_of(s[0], by_radius).lt(rank_of(e, by_radius)) {
        0
    } else {
        1 + place_for(s.subrange(1, s.len() as int), e, by_radius)
    }
}

/// The list in falling order. Entries of equal rank keep their order.
pub open spec fn falling(s: Seq<(Single, SpotStroke)>, by_radius: bool) -> Seq<(Single, SpotStroke)>
    decreases s.len(),
{
    if s.len() == 0 {
        Seq::empty()
    } else {
        let before = falling(s.drop_last(), by_radius);
        before.insert(place_for(before, s.last(), by_radius), s.last())
    }
}

/// Two strokes mark the same place: their centres are no farther apart than the larger radius.
pub open spec fn same_place(k: SpotStroke, s: SpotStroke) -> bool {
    let dx = k.cx.minus(s.cx);
    let dy = k.cy.minus(s.cy);
    dx.times(dx).plus(dy.times(dy)).sqrt().le(k.r_norm.max(s.r_norm))
}

/// The entries that are kept: those at no place of an entry kept before.
pub open spec fn without_repeats(s: Seq<(Single, SpotStroke)>) -> Seq<(Single, SpotStroke)>
    decreases s.len(),
{
    if s.len() == 0 {
        Seq::empty()
    } else {
        let kept = without_repeats(s.drop_last());
        if exists|i: int| 0 <= i < kept.len() && same_place((#[trigger] kept[i]).1, s.last().1) {
            kept
        } else {
            kept.push(s.last())
        }
    }
}

/// The strokes that are returned out of all that were found.
pub open spec fn selection(all: Seq<(Single, SpotStroke)>, max_spots: int) -> Seq<SpotStroke> {
    let kept = falling(without_repeats(falling(all, true)), false);
    Seq::new(smaller(kept.len() as int, max_spots) as nat, |i: int| kept[i].1)
}

/// `part` is what is found at one of the scales: nothing where the factor is zero or leaves
/// too small an image.
pub open spec fn found_at(
    img: RgbImage,
    p: DetectParams,
    f: u32,
    part: Seq<(Single, SpotStroke)>,
) -> bool {
    let max_radius = p.max_radius_px.over(Single::spec_from_int(f as int));
    if f == 0 {
        part.len() == 0
    } else if f == 1 {
        part == strokes_at_scale(img, p, max_radius)
    } else if img.width / f < p.median_ksize * 4 || img.height / f < p.median_ksize * 4 {
        part.len() == 0
    } else {
        exists|small: RgbImage|
            #[trigger] is_reduced(img, f as int, small) && part == strokes_at_scale(
                small,
                p,
                max_radius,
            )
    }
}

/// The parts one behind the other.
pub open spec fn joined(parts: Seq<Seq<(Single, SpotStroke)>>) -> Seq<(Single, SpotStroke)>
    decreases parts.len(),
{
    if parts.len() == 0 {
        Seq::empty()
    } else {
        joined(parts.drop_last()) + parts.last()
    }
}

/// `out` are the strokes found in an image over all scales.
pub open spec fn detected(img: RgbImage, p: DetectParams, out: Seq<SpotStroke>) -> bool {
    let scales = if p.scales@.len() == 0 {
        seq![1u32]
    } else {
        p.scales@
    };
    if img.width == 0 || img.height == 0 {
        out.len() == 0
    } else {
        exists|parts: Seq<Seq<(Single, SpotStroke)>>|
            {
                &&& parts.len() == scales.len()
                &&& forall|i: int|
                    0 <= i < parts.len() ==> found_at(img, p, scales[i], #[trigger] parts[i])
                &&& out == selection(#[trigger] joined(parts), p.max_spots as int)
            }
    }
}

fn rank(e: &(Single, SpotStroke), by_radius: bool) -> (r: Single)
    ensures
        r == rank_of(*e, by_radius),
{
    if by_radius {
        e.1.r_norm
    } else {
        e.0
    }
}

proof fn lemma_place(s: Seq<(Single, SpotStroke)>, e: (Single, SpotStroke), by_radius: bool, k: int)
    requires
        0 <= k <= s.len(),
        forall|i: int|
            0 <= i < k ==> !rank_of(#[trigger] s[i], by_radius).lt(rank_of(e, by_radius)),
        k < s.len() ==> rank_of(s[k], by_radius).lt(rank_of(e, by_radius)),
    ensures
        place_for(s, e, by_radius) == k,
    decreases s.len(),
{
    if s.len() > 0 && k > 0 {
        let t = s.subrange(1, s.len() as int);
        assert forall|i: int| 0 <= i < k - 1 implies !rank_of(#[trigger] t[i], by_radius).lt(
            rank_of(e, by_radius),
        ) by {
            assert(t[i] == s[i + 1]);
        }
        assert(!rank_of(s[0], by_radius).lt(rank_of(e, by_radius)));
        lemma_place(t, e, by_radius, k - 1);
    }
}

/// The list in falling order.
fn sort_falling(all: &Vec<(Single, SpotStroke)>, by_radius: bool) -> (out: Vec<(Single, SpotStroke)>)
    ensures
        out@ == falling(all@, by_radius),
        out@.len() == all@.len(),
{
    let mut out: Vec<(Single, SpotStroke)> = Vec::new();
    let mut n: usize = 0;
    assert(all@.subrange(0, 0) =~= Seq::empty());
    while n < all.len()
        invariant
            n <= all@.len(),
            out@.len() == n,
            out@ == falling(all@.subrange(0, n as int), by_radius),
        decreases all@.len() - n,
    {
        let e: (Single, SpotStroke) = all[n];
        let mut k: usize = 0;
        while k < out.len() && !rank(&out[k], by_radius).lt(rank(&e, by_radius))
            invariant
                k <= out@.len(),
                forall|i: int|
                    0 <= i < k ==> !rank_of(#[trigger] out@[i], by_radius).lt(
                        rank_of(e, by_radius),
                    ),
            decreases out@.len() - k,
        {
            k = k + 1;
        }
        proof {
            lemma_place(out@, e, by_radius, k as int);
            let next = all@.subrange(0, n + 1);
            assert(next.drop_last() =~= all@.subrange(0, n as int));
            assert(next.last() == e);
        }
        out.insert(k, e);
        n = n + 1;
    }
    assert(all@.subrange(0, n as int) =~= all@);
    out
}

fn is_same_place(k: &SpotStroke, s: &SpotStroke) -> (r: bool)
    ensures
        r == same_place(*k, *s),
{
    let dx: Single = k.cx.minus(s.cx);
    let dy: Single = k.cy.minus(s.cy);
    dx.times(dx).plus(dy.times(dy)).sqrt().le(k.r_norm.max(s.r_norm))
}

/// Drops the entries at the place of an entry before them.
fn drop_repeats(all: &Vec<(Single, SpotStroke)>) -> (kept: Vec<(Single, SpotStroke)>)
    ensures
        kept@ == without_repeats(all@),
{
    let mut kept: Vec<(Single, SpotStroke)> = Vec::new();
    let mut n: usize = 0;
    assert(all@.subrange(0, 0) =~= Seq::empty());
    while n < all.len()
        invariant
            n <= all@.len(),
            kept@ == without_repeats(all@.subrange(0, n as int)),
        decreases all@.len() - n,
    {
        let e: (Single, SpotStroke) = all[n];
        let mut repeated: bool = false;
        let mut k: usize = 0;
        while k < kept.len()
            invariant
                k <= kept@.len(),
                repeated == exists|i: int| 0 <= i < k && same_place((#[trigger] kept@[i]).1, e.1),
            decreases kept@.len() - k,
        {
            if is_same_place(&kept[k].1, &e.1) {
                repeated = true;
                assert(same_place(kept@[k as int].1, e.1));
            }
            k = k + 1;
        }
        proof {
            let next = all@.subrange(0, n + 1);
            assert(next.drop_last() =~= all@.subrange(0, n as int));
            assert(next.last() == e);
        }
        if !repeated {
            kept.push(e);
        }
        n = n + 1;
    }
    assert(all@.subrange(0, n as int) =~= all@);
    kept
}

/// Isolated small spots in an image, as strokes: those of all scales without repeats, by
/// falling contrast.
pub fn detect_spots(img: &RgbImage, params: &DetectParams) -> (out: Vec<SpotStroke>)
    requires
        img.wf(),
        params.median_ksize <= MAX_KSIZE,
    ensures
        detected(*img, *params, out@),
{
    let mut out: Vec<SpotStroke> = Vec::new();
    if img.width == 0 || img.height == 0 {
        return out;
    }
    let mut all: Vec<(Single, SpotStroke)> = Vec::new();
    let ghost mut parts: Seq<Seq<(Single, SpotStroke)>> = Seq::empty();
    let ghost scales = if params.scales@.len() == 0 {
        seq![1u32]
    } else {
        params.scales@
    };
    let count: usize = if params.scales.len() == 0 {
        1
    } else {
        params.scales.len()
    };
    let mut i: usize = 0;
    while i < count
        invariant
            img.wf(),
            0 < img.width,
            0 < img.height,
            params.median_ksize <= MAX_KSIZE,
            i <= count,
            count == scales.len(),
            scales == if params.scales@.len() == 0 {
                seq![1u32]
            } else {
                params.scales@
            },
            parts.len() == i,
            forall|j: int|
                0 <= j < i ==> found_at(*img, *params, scales[j], #[trigger] parts[j]),
            all@ == joined(parts),
        decreases count - i,
    {
        let f: u32 = if params.scales.len() == 0 {
            1
        } else {
            params.scales[i]
        };
        let mut part: Vec<(Single, SpotStroke)> = Vec::new();
        if f > 0 {
            let max_radius: Single = params.max_radius_px.over(Single::from_int(f as i128));
            if f == 1 {
                part = detect_single_scale(img, params, max_radius);
            } else if img.width / f >= params.median_ksize * 4 && img.height / f
                >= params.median_ksize * 4 {
                let small: RgbImage = downsample_box(img, f);
                part = detect_single_scale(&small, params, max_radius);
            }
        }
        proof {
            assert(found_at(*img, *params, scales[i as int], part@));
            let before = parts;
            parts = parts.push(part@);
            assert(parts.drop_last() =~= before);
        }
        let ghost before = all@;
        let mut k: usize = 0;
        while k < part.len()
            invariant
                k <= part@.len(),
                all@ =~= before + part@.subrange(0, k as int),
            decreases part@.len() - k,
        {
            all.push(part[k]);
            k = k + 1;
        }
        assert(part@.subrange(0, k as int) =~= part@);
        i = i + 1;
    }
    let by_radius: Vec<(Single, SpotStroke)> = sort_falling(&all, true);
    let kept: Vec<(Single, SpotStroke)> = drop_repeats(&by_radius);
    let by_contrast: Vec<(Single, SpotStroke)> = sort_falling(&kept, false);
    let mut k: usize = 0;
    while k < by_contrast.len() && k < params.max_spots
        invariant
            k <= by_contrast@.len(),
            k <= params.max_spots,
            out@.len() == k,
            forall|j: int| 0 <= j < k ==> #[trigger] out@[j] == by_contrast@[j].1,
        decreases by_contrast@.len() - k,
    {
        out.push(by_contrast[k].1);
        k = k + 1;
    }
    assert(out@ =~= selection(joined(parts), params.max_spots as int));
    out
}

/// Spots in an image given by its bytes; none where their number does not fit the size.
pub fn detect_spots_from_rgb(rgb: &[u8], w: u32, h: u32, params: &DetectParams) -> (out: Vec<
    SpotStroke,
>)
    requires
        params.median_ksize <= MAX_KSIZE,
    ensures
        rgb@.len() != w * h * 3 ==> out@.len() == 0,
        rgb@.len() == w * h * 3 ==> exists|img: RgbImage|
            #![trigger detected(img, *params, out@)]
            img.width == w && img.height == h && img.data@ == rgb@ && detected(
                img,
                *params,
                out@,
            ),
{
    let mut data: Vec<u8> = Vec::new();
    let mut i: usize = 0;
    while i < rgb.len()
        invariant
            i <= rgb@.len(),
            data@ =~= rgb@.subrange(0, i as int),
        decreases rgb@.len() - i,
    {
        data.push(rgb[i]);
        i = i + 1;
    }
    assert(rgb@.subrange(0, i as int) =~= rgb@);
    match RgbImage::from_raw(w, h, data) {
        Some(img) => detect_spots(&img, params),
        None => Vec::new(),
    }
}

/// Two searches differ at most in how many strokes they ask for.
pub open spec fn same_search(p: DetectParams, q: DetectParams) -> bool {
    &&& p.median_ksize == q.median_ksize
    &&& p.contrast_thr == q.contrast_thr
    &&& p.min_radius_px == q.min_radius_px
    &&& p.max_radius_px == q.max_radius_px
    &&& p.min_area == q.min_area
    &&& p.isolation_ratio == q.isolation_ratio
    &&& p.radius_scale == q.radius_scale
    &&& p.scales@ == q.scales@
}

proof fn lemma_same_strokes(
    regions: Seq<Seq<usize>>,
    res: Seq<u8>,
    w: int,
    h: int,
    p: DetectParams,
    q: DetectParams,
    max_radius: Single,
)
    requires
        same_search(p, q),
    ensures
        strokes_of(regions, res, w, h, p, max_radius) == strokes_of(
            regions,
            res,
            w,
            h,
            q,
            max_radius,
        ),
    decreases regions.len(),
{
    if regions.len() > 0 {
        lemma_same_strokes(regions.drop_last(), res, w, h, p, q, max_radius);
    }
}

/// Two images show the same.
spec fn alike(a: RgbImage, b: RgbImage) -> bool {
    &&& a.width == b.width
    &&& a.height == b.height
    &&& a.data@ == b.data@
}

proof fn lemma_alike_columns(
    a: RgbImage,
    b: RgbImage,
    c: int,
    x: int,
    y: int,
    r: int,
    k: int,
    lo: int,
    hi: int,
)
    requires
        alike(a, b),
    ensures
        column_count(a, c, x, y, r, k, lo, hi) == column_count(b, c, x, y, r, k, lo, hi),
    decreases k,
{
    if k > 0 {
        lemma_alike_columns(a, b, c, x, y, r, k - 1, lo, hi);
    }
}

proof fn lemma_alike_windows(
    a: RgbImage,
    b: RgbImage,
    c: int,
    x: int,
    y: int,
    r: int,
    k: int,
    lo: int,
    hi: int,
)
    requires
        alike(a, b),
    ensures
        window_count(a, c, x, y, r, k, lo, hi) == window_count(b, c, x, y, r, k, lo, hi),
    decreases k,
{
    if k > 0 {
        lemma_alike_windows(a, b, c, x, y, r, k - 1, lo, hi);
        lemma_alike_columns(
            a,
            b,
            c,
            nearest_index(x - r + k - 1, a.width as int),
            y,
            r,
            2 * r + 1,
            lo,
            hi,
        );
    }
}

proof fn lemma_alike_medians(a: RgbImage, b: RgbImage, c: int, x: int, y: int, r: int)
    requires
        alike(a, b),
        0 <= r,
    ensures
        median_at(a, c, x, y, r) == median_at(b, c, x, y, r),
{
    let v = median_at(a, c, x, y, r);
    law_every_window_has_a_median(a, c, x, y, r);
    lemma_alike_windows(a, b, c, x, y, r, 2 * r + 1, 0, v as int);
    lemma_alike_windows(a, b, c, x, y, r, 2 * r + 1, 0, v + 1);
    assert(is_median(b, c, x, y, r, v));
    lemma_median_is_unique(b, c, x, y, r, v);
}

proof fn lemma_alike_strokes(a: RgbImage, b: RgbImage, p: DetectParams, max_radius: Single)
    requires
        alike(a, b),
    ensures
        strokes_at_scale(a, p, max_radius) == strokes_at_scale(b, p, max_radius),
{
    let r = (p.median_ksize / 2) as int;
    let ra = residuals_of(a, r);
    let rb = residuals_of(b, r);
    assert forall|i: int| 0 <= i < ra.len() implies #[trigger] ra[i] == rb[i] by {
        let x = i % a.width as int;
        let y = i / a.width as int;
        lemma_alike_medians(a, b, 0, x, y, r);
        lemma_alike_medians(a, b, 1, x, y, r);
        lemma_alike_medians(a, b, 2, x, y, r);
    }
    assert(ra =~= rb);
}

proof fn lemma_reduced_alike(img: RgbImage, f: int, a: RgbImage, b: RgbImage)
    requires
        is_reduced(img, f, a),
        is_reduced(img, f, b),
    ensures
        alike(a, b),
{
    let w = a.width as int;
    let h = a.height as int;
    assert forall|k: int| 0 <= k < a.data@.len() implies #[trigger] a.data@[k] == b.data@[k] by {
        let q = k / 3;
        assert(0 <= q < w * h);
        lemma_pixel_place(w, h, q);
        assert(a.at(q % w, q / w, k % 3) == b.at(q % w, q / w, k % 3));
        assert(offset3(w, q % w, q / w, k % 3) == k);
    }
    assert(a.data@ =~= b.data@);
}

proof fn lemma_same_part(
    img: RgbImage,
    p: DetectParams,
    q: DetectParams,
    f: u32,
    a: Seq<(Single, SpotStroke)>,
    b: Seq<(Single, SpotStroke)>,
)
    requires
        same_search(p, q),
        found_at(img, p, f, a),
        found_at(img, q, f, b),
    ensures
        a == b,
{
    let max_radius = p.max_radius_px.over(Single::spec_from_int(f as int));
    if f == 0 {
        assert(a =~= b);
    } else if f == 1 {
        lemma_same_scale(img, p, q, max_radius);
    } else if img.width / f < p.median_ksize * 4 || img.height / f < p.median_ksize * 4 {
        assert(a =~= b);
    } else {
        let sa = choose|small: RgbImage|
            #[trigger] is_reduced(img, f as int, small) && a == strokes_at_scale(
                small,
                p,
                max_radius,
            );
        let sb = choose|small: RgbImage|
            #[trigger] is_reduced(img, f as int, small) && b == strokes_at_scale(
                small,
                q,
                max_radius,
            );
        lemma_reduced_alike(img, f as int, sa, sb);
        lemma_alike_strokes(sa, sb, p, max_radius);
        lemma_same_scale(sb, p, q, max_radius);
    }
}

proof fn lemma_same_scale(img: RgbImage, p: DetectParams, q: DetectParams, max_radius: Single)
    requires
        same_search(p, q),
    ensures
        strokes_at_scale(img, p, max_radius) == strokes_at_scale(img, q, max_radius),
{
    let w = img.width as int;
    let h = img.height as int;
    let res = residuals_of(img, (p.median_ksize / 2) as int);
    lemma_same_strokes(
        regions_of(marked_of(res, p.contrast_thr), w, h),
        res,
        w,
        h,
        p,
        q,
        max_radius,
    );
}

/// A smaller limit gives the beginning of the list: what a search returns are the first strokes
/// of what the same search returns with a larger limit.
pub proof fn law_smaller_limit_gives_beginning(
    img: RgbImage,
    p: DetectParams,
    q: DetectParams,
    some: Seq<SpotStroke>,
    all: Seq<SpotStroke>,
)
    requires
        same_search(p, q),
        p.max_spots <= q.max_spots,
        detected(img, p, some),
        detected(img, q, all),
    ensures
        some == all.take(smaller(all.len() as int, p.max_spots as int)),
{
    let scales = if p.scales@.len() == 0 {
        seq![1u32]
    } else {
        p.scales@
    };
    let begin = all.take(smaller(all.len() as int, p.max_spots as int));
    if img.width == 0 || img.height == 0 {
        assert(some =~= begin);
    } else {
        let a = choose|parts: Seq<Seq<(Single, SpotStroke)>>|
            {
                &&& parts.len() == scales.len()
                &&& forall|i: int|
                    0 <= i < parts.len() ==> found_at(img, p, scales[i], #[trigger] parts[i])
                &&& some == selection(#[trigger] joined(parts), p.max_spots as int)
            };
        let b = choose|parts: Seq<Seq<(Single, SpotStroke)>>|
            {
                &&& parts.len() == scales.len()
                &&& forall|i: int|
                    0 <= i < parts.len() ==> found_at(img, q, scales[i], #[trigger] parts[i])
                &&& all == selection(#[trigger] joined(parts), q.max_spots as int)
            };
        assert forall|i: int| 0 <= i < a.len() implies #[trigger] a[i] == b[i] by {
            lemma_same_part(img, p, q, scales[i], a[i], b[i]);
        }
        assert(a =~= b);
        assert(some =~= begin);
    }
}

/// The same image and the same settings give the same strokes.
pub proof fn law_detection_is_determined(
    img: RgbImage,
    p: DetectParams,
    a: Seq<SpotStroke>,
    b: Seq<SpotStroke>,
)
    requires
        detected(img, p, a),
        detected(img, p, b),
    ensures
        a == b,
{
    law_at_most_max_spots(img, p, b);
    law_smaller_limit_gives_beginning(img, p, p, a, b);
    assert(b.take(b.len() as int) =~= b);
}

/// The residual of a pixel is its largest distance from the median of its surroundings over the
/// channels, above it or below it alike.
pub proof fn law_residual_is_the_largest_distance(img: RgbImage, r: int, x: int, y: int)
    requires
        0 <= x < img.width,
        0 <= y < img.height,
    ensures
        ({
            let d = residual_at(img, r, y * img.width + x);
            let above = |c: int| img.at(x, y, c) - median_at(img, c, x, y, r);
            &&& forall|c: int| 0 <= c < 3 ==> d >= #[trigger] above(c) && d >= -above(c)
            &&& exists|c: int| 0 <= c < 3 && (d == #[trigger] above(c) || d == -above(c))
        }),
{
    let w = img.width as int;
    vstd::arithmetic::div_mod::lemma_fundamental_div_mod_converse(y * w + x, w, y, x);
    let d = residual_at(img, r, y * w + x);
    let above = |c: int| img.at(x, y, c) - median_at(img, c, x, y, r);
    let (a, b, c) = (above(0), above(1), above(2));
    assert(d == a || d == -a || d == b || d == -b || d == c || d == -c);
    assert forall|k: int| 0 <= k < 3 implies d >= #[trigger] above(k) && d >= -above(k) by {
        assert(k == 0 || k == 1 || k == 2);
    }
}

/// An inverted picture has the same residuals: what is brighter than its surroundings by some
/// amount and what is darker by as much differ alike.
pub proof fn law_inverted_picture_has_the_same_residuals(img: RgbImage, other: RgbImage, r: int)
    requires
        is_inverted(img, other),
        0 <= r,
    ensures
        residuals_of(other, r) == residuals_of(img, r),
{
    let w = img.width as int;
    let h = img.height as int;
    assert forall|i: int| 0 <= i < w * h implies residual_at(other, r, i) == residual_at(img, r, i) by {
        assert(0 < w && 0 < h) by (nonlinear_arith)
            requires
                0 <= i < w * h,
                w >= 0,
                h >= 0,
        ;
        lemma_pixel_place(w, h, i);
        let x = i % w;
        let y = i / w;
        law_inverted_median(img, other, 0, x, y, r);
        law_inverted_median(img, other, 1, x, y, r);
        law_inverted_median(img, other, 2, x, y, r);
        assert(other.at(x, y, 0) == 255 - img.at(x, y, 0));
        assert(other.at(x, y, 1) == 255 - img.at(x, y, 1));
        assert(other.at(x, y, 2) == 255 - img.at(x, y, 2));
    }
    assert(residuals_of(other, r) =~= residuals_of(img, r));
}

/// Bright specks are found as dark ones are: an inverted picture has the same spots, at its own
/// scale.
pub proof fn law_inverted_picture_has_the_same_spots(
    img: RgbImage,
    other: RgbImage,
    p: DetectParams,
    a: Seq<SpotStroke>,
    b: Seq<SpotStroke>,
)
    requires
        is_inverted(img, other),
        forall|i: int| 0 <= i < p.scales@.len() ==> #[trigger] p.scales@[i] <= 1,
        detected(img, p, a),
        detected(other, p, b),
    ensures
        a == b,
{
    let scales = if p.scales@.len() == 0 {
        seq![1u32]
    } else {
        p.scales@
    };
    if img.width == 0 || img.height == 0 {
        assert(a =~= b);
    } else {
        law_inverted_picture_has_the_same_residuals(img, other, (p.median_ksize / 2) as int);
        let parts = choose|parts: Seq<Seq<(Single, SpotStroke)>>|
            {
                &&& parts.len() == scales.len()
                &&& forall|i: int|
                    0 <= i < parts.len() ==> found_at(img, p, scales[i], #[trigger] parts[i])
                &&& a == selection(#[trigger] joined(parts), p.max_spots as int)
            };
        assert forall|i: int| 0 <= i < parts.len() implies found_at(
            other,
            p,
            scales[i],
            #[trigger] parts[i],
        ) by {
            assert(found_at(img, p, scales[i], parts[i]));
            assert(scales[i] <= 1);
        }
        assert(detected(other, p, a));
        law_detection_is_determined(other, p, a, b);
    }
}

/// A pixel is marked where its residual is above the threshold: more residual never unmarks it,
/// and a higher threshold never marks it.
pub proof fn law_marks_grow_with_the_residual(
    res: Seq<u8>,
    more: Seq<u8>,
    thr: Single,
    lower: Single,
    i: int,
)
    requires
        0 <= i < res.len(),
        more.len() == res.len(),
        res[i] <= more[i],
        lower.le(thr),
        marked_of(res, thr)[i],
    ensures
        marked_of(more, lower)[i],
{
    law_whole_numbers_are_exact(res[i] as int);
    law_whole_numbers_are_exact(more[i] as int);
    let (x, y) = (res[i] as int, more[i] as int);
    let p = vstd::arithmetic::power2::pow2(149) as int;
    vstd::arithmetic::power2::lemma_pow2_pos(149);
    assert(x * p <= y * p) by (nonlinear_arith)
        requires
            x <= y,
            p > 0,
    ;
    law_order_is_numeric(Single::spec_from_int(x), Single::spec_from_int(y));
}

/// A stroke comes from a region that stands out: its mean residual is above the threshold, and
/// that of the ring around it is not above the share that is allowed.
pub proof fn law_strokes_stand_out(
    c: Candidate,
    res: Seq<u8>,
    w: int,
    h: int,
    p: DetectParams,
    max_radius: Single,
)
    requires
        stroke_of(c, res, w, h, p, max_radius) is Some,
        !c.mean_res.is_nan(),
        !p.contrast_thr.is_nan(),
    ensures
        c.mean_res.gt(p.contrast_thr),
        stroke_of(c, res, w, h, p, max_radius) matches Some(s) ==> s.0 == c.mean_res,
        exists|pad: int|
            pad >= 3 && #[trigger] isolated(
                res,
                w,
                h,
                c,
                pad,
                p.contrast_thr.times(p.isolation_ratio),
            ),
{
    let pad = larger(radius_of(c).rounded(0, u32::MAX as int), 3);
    assert(isolated(res, w, h, c, pad, p.contrast_thr.times(p.isolation_ratio)));
}

proof fn lemma_ring_row_grows(
    a: (Single, int),
    b: (Single, int),
    res: Seq<u8>,
    more: Seq<u8>,
    w: int,
    c: Candidate,
    y: int,
    x0: int,
    x1: int,
)
    requires
        res.len() == more.len(),
        forall|i: int| res[i] <= #[trigger] more[i],
        a.1 == b.1,
        0 <= a.1,
        a.0.le(b.0),
        num(0).le(a.0),
    ensures
        ({
            let s = ring_row(a, res, w, c, y, x0, x1);
            let t = ring_row(b, more, w, c, y, x0, x1);
            &&& s.1 == t.1
            &&& a.1 <= s.1
            &&& s.0.le(t.0)
            &&& num(0).le(s.0)
        }),
    decreases x1 - x0,
{
    if x1 > x0 {
        lemma_ring_row_grows(a, b, res, more, w, c, y, x0, x1 - 1);
        let s = ring_row(a, res, w, c, y, x0, x1 - 1);
        let t = ring_row(b, more, w, c, y, x0, x1 - 1);
        let i = y * w + x1 - 1;
        assert(res[i] <= more[i]);
        lemma_totals_grow(s.0, t.0, res[i], more[i]);
    }
}

/// Adding more to more gives more.
proof fn lemma_totals_grow(s: Single, t: Single, a: u8, b: u8)
    requires
        num(0).le(s),
        s.le(t),
        a <= b,
    ensures
        s.plus(Single::spec_from_int(a as int)).le(t.plus(Single::spec_from_int(b as int))),
        num(0).le(s.plus(Single::spec_from_int(a as int))),
{
    let (x, y) = (Single::spec_from_int(a as int), Single::spec_from_int(b as int));
    law_whole_numbers_are_exact(a as int);
    law_whole_numbers_are_exact(b as int);
    let p = vstd::arithmetic::power2::pow2(149) as int;
    vstd::arithmetic::power2::lemma_pow2_pos(149);
    assert(0 <= a * p <= b * p) by (nonlinear_arith)
        requires
            a <= b,
            p > 0,
    ;
    law_order_is_numeric(x, y);
    law_order_is_numeric(num(0), x);
    law_order_is_numeric(num(0), y);
    if is_finite(t) {
        law_sums_keep_order(s, t, x);
        law_sums_keep_order(x, y, t);
        law_adding_raises(s, x);
    } else {
        reveal(Single::spec_plus);
        if is_finite(s) {
            law_adding_raises(s, x);
        }
    }
}

proof fn lemma_ring_rows_grow(
    res: Seq<u8>,
    more: Seq<u8>,
    w: int,
    c: Candidate,
    x0: int,
    x1: int,
    y0: int,
    y1: int,
)
    requires
        res.len() == more.len(),
        forall|i: int| res[i] <= #[trigger] more[i],
    ensures
        ({
            let s = ring_rows(res, w, c, x0, x1, y0, y1);
            let t = ring_rows(more, w, c, x0, x1, y0, y1);
            &&& s.1 == t.1
            &&& 0 <= s.1
            &&& s.0.le(t.0)
            &&& num(0).le(s.0)
        }),
    decreases y1 - y0,
{
    if y1 > y0 {
        lemma_ring_rows_grow(res, more, w, c, x0, x1, y0, y1 - 1);
        lemma_ring_row_grows(
            ring_rows(res, w, c, x0, x1, y0, y1 - 1),
            ring_rows(more, w, c, x0, x1, y0, y1 - 1),
            res,
            more,
            w,
            c,
            y1 - 1,
            x0,
            x1,
        );
    }
}

/// Texture is not isolated: where all residuals are at least as high, a candidate whose
/// surroundings were too busy still is not isolated.
pub proof fn law_busy_surroundings_stay_busy(
    res: Seq<u8>,
    more: Seq<u8>,
    w: int,
    h: int,
    c: Candidate,
    pad: int,
    limit: Single,
)
    requires
        res.len() == more.len(),
        forall|i: int| res[i] <= #[trigger] more[i],
        isolated(more, w, h, c, pad, limit),
    ensures
        isolated(res, w, h, c, pad, limit),
{
    let (x0, x1) = (larger(c.minx - pad, 0), smaller(c.maxx + pad, w - 1) + 1);
    let (y0, y1) = (larger(c.miny - pad, 0), smaller(c.maxy + pad, h - 1) + 1);
    lemma_ring_rows_grow(res, more, w, c, x0, x1, y0, y1);
    let s = ring_rows(res, w, c, x0, x1, y0, y1);
    let t = ring_rows(more, w, c, x0, x1, y0, y1);
    let n = Single::spec_from_int(t.1);
    lemma_count_is_positive(t.1);
    if is_finite(n) && is_finite(t.0) {
        law_dividing_keeps_order(s.0, t.0, n);
    } else {
        reveal(Single::spec_over);
        if is_finite(n) && is_finite(s.0) {
            lemma_quotient_is_a_number(s.0, n);
        }
    }
}

proof fn lemma_count_is_positive(n: int)
    requires
        0 < n,
    ensures
        num(0).lt(Single::spec_from_int(n)),
{
    reveal(Single::spec_from_int);
    let p = vstd::arithmetic::power2::pow2(149) as int;
    vstd::arithmetic::power2::lemma_pow2_pos(149);
    assert(n * p >= 1) by (nonlinear_arith)
        requires
            n >= 1,
            p >= 1,
    ;
    lemma_rounding_keeps_order(1, n * p, 1);
    lemma_exact_ratio(1, 1);
    assert(ulps(1) == 1);
    lemma_round_ratio(1, 1, 1);
}

/// No two strokes mark the same place.
pub open spec fn are_apart(s: Seq<(Single, SpotStroke)>) -> bool {
    forall|i: int, j: int|
        0 <= i < s.len() && 0 <= j < s.len() && i != j ==> !same_place(
            (#[trigger] s[i]).1,
            (#[trigger] s[j]).1,
        )
}

proof fn lemma_same_place_both_ways(a: SpotStroke, b: SpotStroke)
    ensures
        same_place(a, b) == same_place(b, a),
{
    law_opposite_differences_square_alike(a.cx, b.cx);
    law_opposite_differences_square_alike(a.cy, b.cy);
}

proof fn lemma_no_repeats(s: Seq<(Single, SpotStroke)>)
    ensures
        are_apart(without_repeats(s)),
    decreases s.len(),
{
    if s.len() > 0 {
        lemma_no_repeats(s.drop_last());
        let kept = without_repeats(s.drop_last());
        let all = without_repeats(s);
        assert forall|i: int, j: int| 0 <= i < all.len() && 0 <= j < all.len() && i != j implies
            !same_place((#[trigger] all[i]).1, (#[trigger] all[j]).1) by {
            lemma_same_place_both_ways(all[i].1, all[j].1);
            if i < kept.len() {
                assert(all[i] == kept[i]);
            }
            if j < kept.len() {
                assert(all[j] == kept[j]);
            }
        }
    }
}

proof fn lemma_place_inside(s: Seq<(Single, SpotStroke)>, e: (Single, SpotStroke), by_radius: bool)
    ensures
        0 <= place_for(s, e, by_radius) <= s.len(),
    decreases s.len(),
{
    if s.len() > 0 {
        lemma_place_inside(s.subrange(1, s.len() as int), e, by_radius);
    }
}

proof fn lemma_order_keeps_entries(s: Seq<(Single, SpotStroke)>, by_radius: bool)
    requires
        are_apart(s),
    ensures
        are_apart(falling(s, by_radius)),
        falling(s, by_radius).len() == s.len(),
        forall|i: int|
            0 <= i < s.len() ==> exists|j: int|
                0 <= j < s.len() && (#[trigger] falling(s, by_radius)[i]) == #[trigger] s[j],
    decreases s.len(),
{
    if s.len() > 0 {
        let t = s.drop_last();
        let e = s.last();
        assert(are_apart(t));
        lemma_order_keeps_entries(t, by_radius);
        let before = falling(t, by_radius);
        let k = place_for(before, e, by_radius);
        lemma_place_inside(before, e, by_radius);
        let all = falling(s, by_radius);
        assert forall|i: int| 0 <= i < before.len() implies exists|j: int|
            0 <= j < t.len() && (#[trigger] before[i]) == #[trigger] s[j] by {
            let j = choose|j: int| 0 <= j < t.len() && before[i] == #[trigger] t[j];
            assert(before[i] == s[j]);
        }
        assert forall|i: int| 0 <= i < all.len() implies exists|j: int|
            0 <= j < s.len() && (#[trigger] all[i]) == #[trigger] s[j] by {
            if i == k {
                assert(all[i] == s[s.len() - 1]);
            } else if i < k {
                assert(all[i] == before[i]);
            } else {
                assert(all[i] == before[i - 1]);
            }
        }
        assert forall|i: int, j: int|
            0 <= i < all.len() && 0 <= j < all.len() && i != j implies !same_place(
            (#[trigger] all[i]).1,
            (#[trigger] all[j]).1,
        ) by {
            let a = if i < k { i } else { i - 1 };
            let b = if j < k { j } else { j - 1 };
            if i != k && j != k {
                assert(all[i] == before[a] && all[j] == before[b]);
            } else if i == k {
                assert(all[j] == before[b]);
                let n = choose|n: int| 0 <= n < t.len() && before[b] == #[trigger] s[n];
                assert(all[i] == s[s.len() - 1] && all[j] == s[n]);
            } else {
                assert(all[i] == before[a]);
                let n = choose|n: int| 0 <= n < t.len() && before[a] == #[trigger] s[n];
                assert(all[j] == s[s.len() - 1] && all[i] == s[n]);
            }
        }
    }
}

/// No two strokes mark the same place: their centres are farther apart than the larger radius.
pub proof fn law_strokes_are_apart(
    img: RgbImage,
    p: DetectParams,
    out: Seq<SpotStroke>,
    i: int,
    j: int,
)
    requires
        detected(img, p, out),
        0 <= i < out.len(),
        0 <= j < out.len(),
        i != j,
    ensures
        !same_place(out[i], out[j]),
{
    let scales = if p.scales@.len() == 0 {
        seq![1u32]
    } else {
        p.scales@
    };
    let parts = choose|parts: Seq<Seq<(Single, SpotStroke)>>|
        {
            &&& parts.len() == scales.len()
            &&& forall|i: int|
                0 <= i < parts.len() ==> found_at(img, p, scales[i], #[trigger] parts[i])
            &&& out == selection(#[trigger] joined(parts), p.max_spots as int)
        };
    let kept = without_repeats(falling(joined(parts), true));
    lemma_no_repeats(falling(joined(parts), true));
    lemma_order_keeps_entries(kept, false);
    let all = falling(kept, false);
    assert(out[i] == all[i].1 && out[j] == all[j].1);
}

/// A stroke's centre does not lie outside the image.
pub open spec fn is_centred(t: SpotStroke) -> bool {
    &&& !t.cx.lt(num(0))
    &&& !t.cx.gt(num(0x3f80_0000))
    &&& !t.cy.lt(num(0))
    &&& !t.cy.gt(num(0x3f80_0000))
}

spec fn all_centred(s: Seq<(Single, SpotStroke)>) -> bool {
    forall|i: int| 0 <= i < s.len() ==> is_centred((#[trigger] s[i]).1)
}

proof fn lemma_strokes_are_centred(
    regions: Seq<Seq<usize>>,
    res: Seq<u8>,
    w: int,
    h: int,
    p: DetectParams,
    max_radius: Single,
)
    ensures
        all_centred(strokes_of(regions, res, w, h, p, max_radius)),
    decreases regions.len(),
{
    if regions.len() > 0 {
        lemma_strokes_are_centred(regions.drop_last(), res, w, h, p, max_radius);
    }
}

proof fn lemma_joined_are_centred(parts: Seq<Seq<(Single, SpotStroke)>>)
    requires
        forall|i: int| 0 <= i < parts.len() ==> all_centred(#[trigger] parts[i]),
    ensures
        all_centred(joined(parts)),
    decreases parts.len(),
{
    if parts.len() > 0 {
        assert forall|i: int| 0 <= i < parts.drop_last().len() implies all_centred(
            #[trigger] parts.drop_last()[i],
        ) by {
            assert(all_centred(parts[i]));
        }
        lemma_joined_are_centred(parts.drop_last());
        assert(all_centred(parts[parts.len() - 1]));
    }
}

proof fn lemma_falling_are_centred(s: Seq<(Single, SpotStroke)>, by_radius: bool)
    requires
        all_centred(s),
    ensures
        all_centred(falling(s, by_radius)),
    decreases s.len(),
{
    if s.len() > 0 {
        let t = s.drop_last();
        let e = s.last();
        assert(all_centred(t)) by {
            assert forall|i: int| 0 <= i < t.len() implies is_centred((#[trigger] t[i]).1) by {
                assert(is_centred(s[i].1));
            }
        }
        lemma_falling_are_centred(t, by_radius);
        let before = falling(t, by_radius);
        let k = place_for(before, e, by_radius);
        lemma_place_inside(before, e, by_radius);
        let all = falling(s, by_radius);
        assert(is_centred(s[s.len() - 1].1));
        assert forall|i: int| 0 <= i < all.len() implies is_centred((#[trigger] all[i]).1) by {
            if i < k {
                assert(all[i] == before[i]);
            } else if i > k {
                assert(all[i] == before[i - 1]);
            }
        }
    }
}

proof fn lemma_kept_are_centred(s: Seq<(Single, SpotStroke)>)
    requires
        all_centred(s),
    ensures
        all_centred(without_repeats(s)),
    decreases s.len(),
{
    if s.len() > 0 {
        let t = s.drop_last();
        assert forall|i: int| 0 <= i < t.len() implies is_centred((#[trigger] t[i]).1) by {
            assert(is_centred(s[i].1));
        }
        lemma_kept_are_centred(t);
        assert(is_centred(s[s.len() - 1].1));
    }
}

/// No stroke has its centre outside the image.
pub proof fn law_centres_lie_inside(
    img: RgbImage,
    p: DetectParams,
    out: Seq<SpotStroke>,
    k: int,
)
    requires
        detected(img, p, out),
        0 <= k < out.len(),
    ensures
        is_centred(out[k]),
{
    let scales = if p.scales@.len() == 0 {
        seq![1u32]
    } else {
        p.scales@
    };
    let parts = choose|parts: Seq<Seq<(Single, SpotStroke)>>|
        {
            &&& parts.len() == scales.len()
            &&& forall|i: int|
                0 <= i < parts.len() ==> found_at(img, p, scales[i], #[trigger] parts[i])
            &&& out == selection(#[trigger] joined(parts), p.max_spots as int)
        };
    assert forall|i: int| 0 <= i < parts.len() implies all_centred(#[trigger] parts[i]) by {
        let f = scales[i];
        let max_radius = p.max_radius_px.over(Single::spec_from_int(f as int));
        assert(found_at(img, p, f, parts[i]));
        if f == 1 {
            lemma_scale_is_centred(img, p, max_radius);
        } else if f != 0 && !(img.width / f < p.median_ksize * 4 || img.height / f < p.median_ksize
            * 4) {
            let small = choose|small: RgbImage|
                #[trigger] is_reduced(img, f as int, small) && parts[i] == strokes_at_scale(
                    small,
                    p,
                    max_radius,
                );
            lemma_scale_is_centred(small, p, max_radius);
        }
    }
    lemma_joined_are_centred(parts);
    lemma_falling_are_centred(joined(parts), true);
    lemma_kept_are_centred(falling(joined(parts), true));
    let kept = without_repeats(falling(joined(parts), true));
    lemma_falling_are_centred(kept, false);
    assert(out[k] == falling(kept, false)[k].1);
}

proof fn lemma_scale_is_centred(img: RgbImage, p: DetectParams, max_radius: Single)
    ensures
        all_centred(strokes_at_scale(img, p, max_radius)),
{
    let w = img.width as int;
    let h = img.height as int;
    let res = residuals_of(img, (p.median_ksize / 2) as int);
    lemma_strokes_are_centred(
        regions_of(marked_of(res, p.contrast_thr), w, h),
        res,
        w,
        h,
        p,
        max_radius,
    );
}

/// No more strokes are returned than were asked for.
pub proof fn law_at_most_max_spots(img: RgbImage, p: DetectParams, out: Seq<SpotStroke>)
    requires
        detected(img, p, out),
    ensures
        out.len() <= p.max_spots,
{
}

} // verus!
