//! Geometry: perspective, quarter turns, rotation, flips and crop, in this order.

use crate::lch::{floor, law_floor_keeps_whole_part, of_byte};
use crate::perspective::{in_perspective, warp_perspective};
use crate::raster::{
    lemma_area_fits, lemma_painted, lemma_pixel_place, lemma_same_picture, painted, Picture,
    RgbImage,
};
use crate::single::{
    law_one_is_neutral, law_order_is_numeric, law_products_keep_order,
    law_small_differences_are_exact, law_small_integers_are_exact, law_small_integers_are_whole,
    law_sums_keep_order, law_whole_parts_keep_order, law_zero_becomes_zero, law_zero_is_neutral,
    lemma_one, num, Single, INFINITY,
};
use vstd::prelude::*;

verus! {

/// Settings of the geometry.
#[derive(Clone, Copy, Debug, PartialEq, Eq)]
pub struct Geometry {
    /// Left, top, width and height as shares of the picture.
    pub crop: Option<(Single, Single, Single, Single)>,
    /// Turns by 90 degrees, clockwise.
    pub quarter_turns: u8,
    /// Fine rotation in degrees, counter-clockwise.
    pub rotate_deg: Single,
    pub flip_h: bool,
    pub flip_v: bool,
    /// Vertical and horizontal keystone, -1 to 1.
    pub perspective: Option<(Single, Single)>,
}

impl Geometry {
    pub open spec fn spec_default() -> Geometry {
        Geometry {
            crop: None,
            quarter_turns: 0,
            rotate_deg: num(0),
            flip_h: false,
            flip_v: false,
            perspective: None,
        }
    }
}

impl Default for Geometry {
    fn default() -> (r: Geometry)
        ensures
            r == Geometry::spec_default(),
    {
        Geometry {
            crop: None,
            quarter_turns: 0,
            rotate_deg: num(0),
            flip_h: false,
            flip_v: false,
            perspective: None,
        }
    }
}

impl Geometry {
    pub open spec fn spec_is_identity(self) -> bool {
        &&& self.crop is None
        &&& self.quarter_turns % 4 == 0
        &&& self.rotate_deg.same(num(0))
        &&& !self.flip_h
        &&& !self.flip_v
        &&& match self.perspective {
            Some(p) => p.0.same(num(0)) && p.1.same(num(0)),
            None => true,
        }
    }

    /// No transformation is set.
    pub fn is_identity(&self) -> (r: bool)
        ensures
            r == self.spec_is_identity(),
    {
        let straight: bool = match self.perspective {
            Some(p) => p.0.same(num(0)) && p.1.same(num(0)),
            None => true,
        };
        self.crop.is_none() && self.quarter_turns % 4 == 0 && self.rotate_deg.same(num(0))
            && !self.flip_h && !self.flip_v && straight
    }
}

/// A picture turned a quarter clockwise.
pub open spec fn turned_right(p: Picture) -> Picture {
    painted(p.height, p.width, |x: int, y: int, c: int| p.at(y, p.height - 1 - x, c))
}

/// A picture turned by half.
pub open spec fn turned_half(p: Picture) -> Picture {
    painted(p.width, p.height, |x: int, y: int, c: int| p.at(p.width - 1 - x, p.height - 1 - y, c))
}

/// A picture turned a quarter counter-clockwise.
pub open spec fn turned_left(p: Picture) -> Picture {
    painted(p.height, p.width, |x: int, y: int, c: int| p.at(p.width - 1 - y, x, c))
}

/// A picture with left and right exchanged.
pub open spec fn mirrored(p: Picture) -> Picture {
    painted(p.width, p.height, |x: int, y: int, c: int| p.at(p.width - 1 - x, y, c))
}

/// A picture with top and bottom exchanged.
pub open spec fn upended(p: Picture) -> Picture {
    painted(p.width, p.height, |x: int, y: int, c: int| p.at(x, p.height - 1 - y, c))
}

/// The smaller of two numbers.
pub open spec fn smaller(a: int, b: int) -> int {
    if a < b {
        a
    } else {
        b
    }
}

/// A part of a picture, as far as the picture goes.
pub open spec fn cut(p: Picture, left: int, top: int, width: int, height: int) -> Picture {
    let x0 = smaller(left, p.width);
    let y0 = smaller(top, p.height);
    painted(
        smaller(width, p.width - x0),
        smaller(height, p.height - y0),
        |x: int, y: int, c: int| p.at(x0 + x, y0 + y, c),
    )
}

/// Turns a picture a quarter clockwise: `image::imageops::rotate90`. The contract claims that
/// the pixel at column `x` and row `y` goes to column `height - 1 - y` and row `x`.
#[verifier::external_body]
fn rotate90(img: &RgbImage) -> (r: RgbImage)
    requires
        img.wf(),
    ensures
        r.wf(),
        r@ == turned_right(img@),
{
    let src = image::RgbImage::from_raw(img.width, img.height, img.data.clone()).unwrap();
    let out = image::imageops::rotate90(&src);
    RgbImage { width: out.width(), height: out.height(), data: out.into_raw() }
}

/// Turns a picture by half: `image::imageops::rotate180`. The contract claims that the pixel at
/// column `x` and row `y` goes to column `width - 1 - x` and row `height - 1 - y`.
#[verifier::external_body]
fn rotate180(img: &RgbImage) -> (r: RgbImage)
    requires
        img.wf(),
    ensures
        r.wf(),
        r@ == turned_half(img@),
{
    let src = image::RgbImage::from_raw(img.width, img.height, img.data.clone()).unwrap();
    let out = image::imageops::rotate180(&src);
    RgbImage { width: out.width(), height: out.height(), data: out.into_raw() }
}

/// Turns a picture a quarter counter-clockwise: `image::imageops::rotate270`. The contract
/// claims that the pixel at column `x` and row `y` goes to column `y` and row `width - 1 - x`.
#[verifier::external_body]
fn rotate270(img: &RgbImage) -> (r: RgbImage)
    requires
        img.wf(),
    ensures
        r.wf(),
        r@ == turned_left(img@),
{
    let src = image::RgbImage::from_raw(img.width, img.height, img.data.clone()).unwrap();
    let out = image::imageops::rotate270(&src);
    RgbImage { width: out.width(), height: out.height(), data: out.into_raw() }
}

/// Exchanges left and right: `image::imageops::flip_horizontal`. The contract claims that the
/// pixel at column `x` goes to column `width - 1 - x` of its row.
#[verifier::external_body]
fn flip_horizontal(img: &RgbImage) -> (r: RgbImage)
    requires
        img.wf(),
    ensures
        r.wf(),
        r@ == mirrored(img@),
{
    let src = image::RgbImage::from_raw(img.width, img.height, img.data.clone()).unwrap();
    let out = image::imageops::flip_horizontal(&src);
    RgbImage { width: out.width(), height: out.height(), data: out.into_raw() }
}

/// Exchanges top and bottom: `image::imageops::flip_vertical`. The contract claims that the
/// pixel at row `y` goes to row `height - 1 - y` of its column.
#[verifier::external_body]
fn flip_vertical(img: &RgbImage) -> (r: RgbImage)
    requires
        img.wf(),
    ensures
        r.wf(),
        r@ == upended(img@),
{
    let src = image::RgbImage::from_raw(img.width, img.height, img.data.clone()).unwrap();
    let out = image::imageops::flip_vertical(&src);
    RgbImage { width: out.width(), height: out.height(), data: out.into_raw() }
}

/// Cuts out a part of a picture: `image::imageops::crop_imm` and its `to_image`. The contract
/// claims that the corner and then the size are limited to the picture, and that the pixels of
/// that part are kept.
#[verifier::external_body]
fn crop_part(img: &RgbImage, left: u32, top: u32, width: u32, height: u32) -> (r: RgbImage)
    requires
        img.wf(),
    ensures
        r.wf(),
        r@ == cut(img@, left as int, top as int, width as int, height as int),
{
    let src = image::RgbImage::from_raw(img.width, img.height, img.data.clone()).unwrap();
    let out = image::imageops::crop_imm(&src, left, top, width, height).to_image();
    RgbImage { width: out.width(), height: out.height(), data: out.into_raw() }
}

/// A picture after a number of quarter turns clockwise.
pub open spec fn turned(p: Picture, k: int) -> Picture {
    if k == 1 {
        turned_right(p)
    } else if k == 2 {
        turned_half(p)
    } else if k == 3 {
        turned_left(p)
    } else {
        p
    }
}

fn turn(img: RgbImage, k: u8) -> (r: RgbImage)
    requires
        img.wf(),
    ensures
        r.wf(),
        r@ == turned(img@, k as int),
{
    if k == 1 {
        rotate90(&img)
    } else if k == 2 {
        rotate180(&img)
    } else if k == 3 {
        rotate270(&img)
    } else {
        img
    }
}

/// The number of quarter turns, counter-clockwise, that a rotation comes to, where it is within
/// half a degree of one.
pub open spec fn exact_turns(deg: Single) -> Option<int> {
    // 360, 360, 360
    let r = deg.rem(num(0x43b4_0000)).plus(num(0x43b4_0000)).rem(num(0x43b4_0000));
    let step = r.over(num(0x42b4_0000)).round();  // 90
    if r.minus(step.times(num(0x42b4_0000))).abs().lt(num(0x3f00_0000)) {  // 90, 0.5
        let t = step.truncated(i32::MIN as int, i32::MAX as int);
        Some(
            if t >= 0 {
                t % 4
            } else {
                0
            },
        )
    } else {
        None
    }
}

fn whole_turns(deg: Single) -> (r: Option<u8>)
    ensures
        match r {
            Some(k) => exact_turns(deg) == Some(k as int) && k < 4,
            None => exact_turns(deg) is None,
        },
{
    // 360, 360, 360
    let r: Single = deg.rem(num(0x43b4_0000)).plus(num(0x43b4_0000)).rem(num(0x43b4_0000));
    let step: Single = r.over(num(0x42b4_0000)).round();  // 90
    if r.minus(step.times(num(0x42b4_0000))).abs().lt(num(0x3f00_0000)) {  // 90, 0.5
        let t: i32 = step.to_i32();
        if t >= 0 {
            Some((t % 4) as u8)
        } else {
            Some(0)
        }
    } else {
        None
    }
}

/// A coordinate held inside a side of `n` pixels.
pub open spec fn on_side(v: Single, n: int) -> Single {
    v.clamp(num(0), Single::spec_from_int(n).minus(num(0x3f80_0000)))  // 1
}

/// The pixel at or before a coordinate.
pub open spec fn pixel_before(v: Single, n: int) -> int {
    let t = floor(on_side(v, n)).truncated(i32::MIN as int, i32::MAX as int);
    if t < 0 {
        0
    } else {
        t
    }
}

/// The pixel after a coordinate.
pub open spec fn pixel_after(v: Single, n: int) -> int {
    let t = floor(on_side(v, n)).truncated(i32::MIN as int, i32::MAX as int);
    smaller(t + 1, n - 1)
}

/// How far a coordinate is between its two pixels.
pub open spec fn way_between(v: Single, n: int) -> Single {
    on_side(v, n).minus(
        Single::spec_from_int(
            floor(on_side(v, n)).truncated(i32::MIN as int, i32::MAX as int),
        ),
    )
}

/// A byte between two others.
pub open spec fn between(a: u8, b: u8, t: Single) -> u8 {
    of_byte(a).plus(of_byte(b).minus(of_byte(a)).times(t)).round().truncated(0, 255) as u8
}

fn byte_between(a: u8, b: u8, t: Single) -> (r: u8)
    ensures
        r == between(a, b, t),
{
    of_byte(a).plus(of_byte(b).minus(of_byte(a)).times(t)).round().to_u8()
}

/// One channel of a picture at a point between its pixels: mixed from the four around it.
pub open spec fn sampled(p: Picture, x: Single, y: Single, c: int) -> u8 {
    if p.width == 0 || p.height == 0 {
        0
    } else {
        let x0 = pixel_before(x, p.width);
        let x1 = pixel_after(x, p.width);
        let y0 = pixel_before(y, p.height);
        let y1 = pixel_after(y, p.height);
        let tx = way_between(x, p.width);
        between(
            between(p.at(x0, y0, c), p.at(x1, y0, c), tx),
            between(p.at(x0, y1, c), p.at(x1, y1, c), tx),
            way_between(y, p.height),
        )
    }
}

/// The longest side whose coordinates are exact. Beyond it the last coordinate of a side can round
/// up to one that lies outside the picture.
pub const MAX_SIDE: u32 = 0x100_0000;

struct Between {
    before: u32,
    after: u32,
    way: Single,
}

fn find_between(v: Single, n: u32) -> (r: Between)
    requires
        0 < n <= MAX_SIDE,
    ensures
        r.before == pixel_before(v, n as int),
        r.after == pixel_after(v, n as int),
        r.way == way_between(v, n as int),
        r.before < n,
        r.after < n,
{
    let last: Single = Single::from_int(n as i128).minus(num(0x3f80_0000));  // 1
    let fv: Single = v.clamp(num(0), last);
    let t: i32 = floor(fv).to_i32();
    proof {
        let lo = i32::MIN as int;
        let hi = i32::MAX as int;
        lemma_one();
        law_small_differences_are_exact(n as int, 1);
        law_small_integers_are_whole(n - 1, lo, hi);
        law_zero_becomes_zero(num(0));
        lemma_zero_is_least(n - 1);
        law_floor_keeps_whole_part(fv, lo, hi);
        if fv.is_nan() {
            reveal(Single::truncated);
        } else {
            law_whole_parts_keep_order(num(0), fv, lo, hi);
            law_whole_parts_keep_order(fv, last, lo, hi);
        }
        assert(0 <= t <= n - 1);
    }
    let way: Single = fv.minus(Single::from_int(t as i128));
    let before: u32 = t as u32;
    let after: u32 = if before + 1 < n - 1 {
        before + 1
    } else {
        n - 1
    };
    Between { before, after, way }
}

proof fn lemma_zero_is_least(n: int)
    requires
        0 <= n <= 0x100_0000,
    ensures
        num(0).le(Single::spec_from_int(n)),
{
    law_small_integers_are_exact(n);
    law_order_is_numeric(num(0), Single::spec_from_int(n));
    assert(n * vstd::arithmetic::power2::pow2(149) >= 0) by (nonlinear_arith)
        requires
            n >= 0,
    ;
}

fn mix_four(img: &RgbImage, x: &Between, y: &Between, c: usize) -> (r: u8)
    requires
        img.wf(),
        x.before < img.width,
        x.after < img.width,
        y.before < img.height,
        y.after < img.height,
        c < 3,
    ensures
        r == between(
            between(
                img@.at(x.before as int, y.before as int, c as int),
                img@.at(x.after as int, y.before as int, c as int),
                x.way,
            ),
            between(
                img@.at(x.before as int, y.after as int, c as int),
                img@.at(x.after as int, y.after as int, c as int),
                x.way,
            ),
            y.way,
        ),
{
    let a: usize = img.offset(x.before, y.before);
    let b: usize = img.offset(x.after, y.before);
    let d: usize = img.offset(x.before, y.after);
    let e: usize = img.offset(x.after, y.after);
    byte_between(
        byte_between(img.data[a + c], img.data[b + c], x.way),
        byte_between(img.data[d + c], img.data[e + c], x.way),
        y.way,
    )
}

/// A picture at a point between its pixels.
pub fn sample_bilinear(img: &RgbImage, x: Single, y: Single) -> (r: [u8; 3])
    requires
        img.wf(),
        img.width <= MAX_SIDE,
        img.height <= MAX_SIDE,
    ensures
        forall|c: int| 0 <= c < 3 ==> #[trigger] r@[c] == sampled(img@, x, y, c),
{
    if img.width == 0 || img.height == 0 {
        return [0, 0, 0];
    }
    let across: Between = find_between(x, img.width);
    let down: Between = find_between(y, img.height);
    [
        mix_four(img, &across, &down, 0),
        mix_four(img, &across, &down, 1),
        mix_four(img, &across, &down, 2),
    ]
}

/// A picture painted from points of another: each pixel shows what is at its point, and is black
/// where it has none.
pub open spec fn warped(
    p: Picture,
    width: int,
    height: int,
    points: Seq<Option<(Single, Single)>>,
) -> Picture {
    painted(
        width,
        height,
        |x: int, y: int, c: int|
            match points[y * width + x] {
                Some(q) => sampled(p, q.0, q.1, c),
                None => 0u8,
            },
    )
}

/// Paints a picture from points of another.
pub fn warp(img: &RgbImage, width: u32, height: u32, points: &Vec<Option<(Single, Single)>>) -> (r:
    RgbImage)
    requires
        img.wf(),
        img.width <= MAX_SIDE,
        img.height <= MAX_SIDE,
        points@.len() == width * height,
        width * height * 3 <= usize::MAX,
    ensures
        r.wf(),
        r@ == warped(img@, width as int, height as int, points@),
{
    let n: usize = points.len();
    let ghost want = warped(img@, width as int, height as int, points@);
    let mut data: Vec<u8> = Vec::new();
    let mut k: usize = 0;
    while k < n
        invariant
            k <= n,
            n == points@.len(),
            n == width * height,
            3 * n <= usize::MAX,
            img.wf(),
            img.width <= MAX_SIDE,
            img.height <= MAX_SIDE,
            want == warped(img@, width as int, height as int, points@),
            data@.len() == 3 * k,
            forall|i: int| 0 <= i < 3 * k ==> #[trigger] data@[i] == want.data[i],
        decreases n - k,
    {
        let px: [u8; 3] = match points[k] {
            Some(q) => sample_bilinear(img, q.0, q.1),
            None => [0, 0, 0],
        };
        let ghost before = data@;
        data.push(px[0]);
        data.push(px[1]);
        data.push(px[2]);
        proof {
            assert(width > 0) by (nonlinear_arith)
                requires
                    k < width * height,
                    0 <= k,
                    0 <= width,
            ;
            lemma_pixel_place(width as int, height as int, k as int);
            assert forall|i: int| 0 <= i < 3 * k + 3 implies #[trigger] data@[i] == want.data[i] by {
                if i < 3 * k {
                    assert(data@[i] == before[i]);
                } else {
                    assert(i / 3 == k);
                    assert(data@[i] == px@[i % 3]);
                    assert(width * height * 3 == 3 * n);
                }
            }
        }
        k = k + 1;
    }
    proof {
        assert(width * height * 3 == 3 * n);
        assert(data@ =~= want.data);
    }
    RgbImage { width, height, data }
}

/// The middle of a side of `n` pixels.
pub open spec fn middle(n: int) -> Single {
    Single::spec_from_int(n - 1).over(num(0x4000_0000))  // 2
}

pub fn middle_of(n: u32) -> (r: Single)
    requires
        0 < n,
    ensures
        r == middle(n as int),
{
    Single::from_int(n as i128 - 1).over(num(0x4000_0000))  // 2
}

pub open spec fn spec_rotated_across(x: Single, y: Single, cos: Single, sin: Single) -> Single {
    x.times(cos).plus(y.times(sin))
}

/// Where a point around the middle goes across when it is rotated counter-clockwise.
#[verifier::when_used_as_spec(spec_rotated_across)]
pub fn rotated_across(x: Single, y: Single, cos: Single, sin: Single) -> (r: Single)
    ensures
        r == spec_rotated_across(x, y, cos, sin),
{
    x.times(cos).plus(y.times(sin))
}

pub open spec fn spec_rotated_down(x: Single, y: Single, cos: Single, sin: Single) -> Single {
    y.times(cos).minus(x.times(sin))
}

/// Where a point around the middle goes down when it is rotated counter-clockwise.
#[verifier::when_used_as_spec(spec_rotated_down)]
pub fn rotated_down(x: Single, y: Single, cos: Single, sin: Single) -> (r: Single)
    ensures
        r == spec_rotated_down(x, y, cos, sin),
{
    y.times(cos).minus(x.times(sin))
}

pub open spec fn spec_extent(a: Single, b: Single, c: Single, d: Single) -> Single {
    let least: Single = num(0x7f7f_ffff).min(a).min(b).min(c).min(d);  // 3.4028235e+38
    let most: Single = num(0xff7f_ffff).max(a).max(b).max(c).max(d);  // -3.4028235e+38
    most.minus(least)
}

/// The distance from the least to the greatest of four numbers.
#[verifier::when_used_as_spec(spec_extent)]
pub fn extent(a: Single, b: Single, c: Single, d: Single) -> (r: Single)
    ensures
        r == spec_extent(a, b, c, d),
{
    let least: Single = num(0x7f7f_ffff).min(a).min(b).min(c).min(d);  // 3.4028235e+38
    let most: Single = num(0xff7f_ffff).max(a).max(b).max(c).max(d);  // -3.4028235e+38
    most.minus(least)
}

pub open spec fn spec_rotated_extents(cx: Single, cy: Single, ex: Single, ey: Single, cos: Single, sin: Single) -> (Single, Single) {
    let nx: Single = cx.negated();
    let ny: Single = cy.negated();
    (
        extent(
            rotated_across(nx, ny, cos, sin),
            rotated_across(ex, ny, cos, sin),
            rotated_across(ex, ey, cos, sin),
            rotated_across(nx, ey, cos, sin),
        ),
        extent(
            rotated_down(nx, ny, cos, sin),
            rotated_down(ex, ny, cos, sin),
            rotated_down(ex, ey, cos, sin),
            rotated_down(nx, ey, cos, sin),
        ),
    )
}

/// How wide and how high a rotated picture is. `cx` and `cy` are its middle, `ex` and `ey` its
/// far corner seen from there.
#[verifier::when_used_as_spec(spec_rotated_extents)]
pub fn rotated_extents(cx: Single, cy: Single, ex: Single, ey: Single, cos: Single, sin: Single) -> (r: (Single, Single))
    ensures
        r == spec_rotated_extents(cx, cy, ex, ey, cos, sin),
{
    let nx: Single = cx.negated();
    let ny: Single = cy.negated();
    (
        extent(
            rotated_across(nx, ny, cos, sin),
            rotated_across(ex, ny, cos, sin),
            rotated_across(ex, ey, cos, sin),
            rotated_across(nx, ey, cos, sin),
        ),
        extent(
            rotated_down(nx, ny, cos, sin),
            rotated_down(ex, ny, cos, sin),
            rotated_down(ex, ey, cos, sin),
            rotated_down(nx, ey, cos, sin),
        ),
    )
}

/// The far end of a side of `n` pixels, seen from its middle.
pub open spec fn far_end(n: int) -> Single {
    Single::spec_from_int(n).minus(num(0x3f80_0000)).minus(middle(n))  // 1
}

fn far_end_of(n: u32) -> (r: Single)
    requires
        0 < n,
    ensures
        r == far_end(n as int),
{
    Single::from_int(n as i128).minus(num(0x3f80_0000)).minus(middle_of(n))  // 1
}

/// The size of a picture of `w` by `h` pixels after a rotation, with its corners.
pub open spec fn rotated_size(w: int, h: int, cos: Single, sin: Single) -> (int, int) {
    let e = spec_rotated_extents(middle(w), middle(h), far_end(w), far_end(h), cos, sin);
    (e.0.raised(0, u32::MAX as int) + 1, e.1.raised(0, u32::MAX as int) + 1)
}

pub open spec fn spec_largest_inscribed_rect(w: Single, h: Single, sin_a: Single, cos_a: Single) -> (Single, Single) {
    if w.le(num(0)) || h.le(num(0)) {
        (w, h)
    } else {
        let wide: bool = w.ge(h);
        let long: Single = if wide {
            w
        } else {
            h
        };
        let short: Single = if wide {
            h
        } else {
            w
        };
        // 2, 1e-10
        if short.le(num(0x4000_0000).times(sin_a).times(cos_a).times(long))
            || sin_a.minus(cos_a).abs().lt(num(0x2edb_e6ff)) {
            let x: Single = num(0x3f00_0000).times(short);  // 0.5
            let by_sin: Single = x.over(sin_a);
            let by_cos: Single = x.over(cos_a);
            if wide {
                (by_sin, by_cos)
            } else {
                (by_cos, by_sin)
            }
        } else {
            let cos_2a: Single = cos_a.times(cos_a).minus(sin_a.times(sin_a));
            let wr: Single = w.times(cos_a).minus(h.times(sin_a)).over(cos_2a);
            let hr: Single = h.times(cos_a).minus(w.times(sin_a)).over(cos_2a);
            (wr, hr)
        }
    }
}

/// The largest upright rectangle in a rectangle of `w` by `h` that was rotated by an angle whose
/// sine and cosine have the sizes given.
#[verifier::when_used_as_spec(spec_largest_inscribed_rect)]
pub fn largest_inscribed_rect(w: Single, h: Single, sin_a: Single, cos_a: Single) -> (r: (Single, Single))
    ensures
        r == spec_largest_inscribed_rect(w, h, sin_a, cos_a),
{
    if w.le(num(0)) || h.le(num(0)) {
        (w, h)
    } else {
        let wide: bool = w.ge(h);
        let long: Single = if wide {
            w
        } else {
            h
        };
        let short: Single = if wide {
            h
        } else {
            w
        };
        // 2, 1e-10
        if short.le(num(0x4000_0000).times(sin_a).times(cos_a).times(long))
            || sin_a.minus(cos_a).abs().lt(num(0x2edb_e6ff)) {
            let x: Single = num(0x3f00_0000).times(short);  // 0.5
            let by_sin: Single = x.over(sin_a);
            let by_cos: Single = x.over(cos_a);
            if wide {
                (by_sin, by_cos)
            } else {
                (by_cos, by_sin)
            }
        } else {
            let cos_2a: Single = cos_a.times(cos_a).minus(sin_a.times(sin_a));
            let wr: Single = w.times(cos_a).minus(h.times(sin_a)).over(cos_2a);
            let hr: Single = h.times(cos_a).minus(w.times(sin_a)).over(cos_2a);
            (wr, hr)
        }
    }
}

/// The size of the part of a rotated picture that has no empty corners.
pub open spec fn inner_size(w: int, h: int, cos: Single, sin: Single) -> (int, int) {
    let r = spec_largest_inscribed_rect(
        Single::spec_from_int(w),
        Single::spec_from_int(h),
        sin.abs(),
        cos.abs(),
    );
    (
        floor(r.0).max(num(0x3f80_0000)).truncated(0, u32::MAX as int),  // 1
        floor(r.1).max(num(0x3f80_0000)).truncated(0, u32::MAX as int),  // 1
    )
}

/// Where the pixels of a rotated picture come from.
pub open spec fn rotation_points(w: int, h: int, cos: Single, sin: Single) -> Seq<
    Option<(Single, Single)>,
> {
    let size = rotated_size(w, h, cos, sin);
    Seq::new(
        (size.0 * size.1) as nat,
        |i: int|
            Some(
                source_point(
                    Single::spec_from_int(i % size.0).minus(middle(size.0)),
                    Single::spec_from_int(i / size.0).minus(middle(size.1)),
                    cos,
                    sin,
                    middle(w),
                    middle(h),
                ),
            ),
    )
}

pub open spec fn spec_source_point(rx: Single, ry: Single, cos: Single, sin: Single, cx: Single, cy: Single) -> (Single, Single) {
    (rx.times(cos).minus(ry.times(sin)).plus(cx), rx.times(sin).plus(ry.times(cos)).plus(cy))
}

/// The point that a pixel comes from, by its place around the middle.
#[verifier::when_used_as_spec(spec_source_point)]
pub fn source_point(rx: Single, ry: Single, cos: Single, sin: Single, cx: Single, cy: Single) -> (r: (Single, Single))
    ensures
        r == spec_source_point(rx, ry, cos, sin, cx, cy),
{
    (rx.times(cos).minus(ry.times(sin)).plus(cx), rx.times(sin).plus(ry.times(cos)).plus(cy))
}

/// A picture rotated counter-clockwise by an angle of this cosine and sine: without its empty
/// corners where the part without them is smaller both ways.
pub open spec fn rotated(p: Picture, cos: Single, sin: Single) -> Picture {
    if p.width == 0 || p.height == 0 {
        p
    } else {
        let size = rotated_size(p.width, p.height, cos, sin);
        let inner = inner_size(p.width, p.height, cos, sin);
        let whole = warped(p, size.0, size.1, rotation_points(p.width, p.height, cos, sin));
        if inner.0 < size.0 && inner.1 < size.1 {
            cut(whole, (size.0 - inner.0) / 2, (size.1 - inner.1) / 2, inner.0, inner.1)
        } else {
            whole
        }
    }
}

/// A rotated picture can be addressed and counted.
pub open spec fn rotation_fits(w: int, h: int, cos: Single, sin: Single) -> bool {
    let size = rotated_size(w, h, cos, sin);
    &&& w <= MAX_SIDE
    &&& h <= MAX_SIDE
    &&& size.0 <= u32::MAX
    &&& size.1 <= u32::MAX
    &&& size.0 * size.1 * 3 <= usize::MAX
}

fn find_rotation_points(w: u32, h: u32, cos: Single, sin: Single, ow: u32, oh: u32) -> (r: Vec<
    Option<(Single, Single)>,
>)
    requires
        0 < w,
        0 < h,
        0 < ow,
        0 < oh,
        rotated_size(w as int, h as int, cos, sin) == (ow as int, oh as int),
        ow * oh * 3 <= usize::MAX,
    ensures
        r@ == rotation_points(w as int, h as int, cos, sin),
{
    let cx: Single = middle_of(w);
    let cy: Single = middle_of(h);
    let ncx: Single = middle_of(ow);
    let ncy: Single = middle_of(oh);
    proof {
        assert(0 <= ow * oh <= ow * oh * 3) by (nonlinear_arith)
            requires
                0 <= ow,
                0 <= oh,
        ;
    }
    let n: usize = ow as usize * oh as usize;
    let ghost want = rotation_points(w as int, h as int, cos, sin);
    let mut r: Vec<Option<(Single, Single)>> = Vec::new();
    let mut i: usize = 0;
    while i < n
        invariant
            i <= n,
            n == ow * oh,
            0 < ow,
            rotated_size(w as int, h as int, cos, sin) == (ow as int, oh as int),
            want == rotation_points(w as int, h as int, cos, sin),
            cx == middle(w as int),
            cy == middle(h as int),
            ncx == middle(ow as int),
            ncy == middle(oh as int),
            r@.len() == i,
            forall|j: int| 0 <= j < i ==> #[trigger] r@[j] == want[j],
        decreases n - i,
    {
        let rx: Single = Single::from_int((i % ow as usize) as i128).minus(ncx);
        let ry: Single = Single::from_int((i / ow as usize) as i128).minus(ncy);
        r.push(Some(source_point(rx, ry, cos, sin, cx, cy)));
        i = i + 1;
    }
    assert(r@ =~= want);
    r
}

fn find_rotated_size(w: u32, h: u32, cos: Single, sin: Single) -> (r: (u64, u64))
    requires
        0 < w,
        0 < h,
    ensures
        (r.0 as int, r.1 as int) == rotated_size(w as int, h as int, cos, sin),
        0 < r.0 <= 0x1_0000_0000,
        0 < r.1 <= 0x1_0000_0000,
{
    let e: (Single, Single) = rotated_extents(
        middle_of(w),
        middle_of(h),
        far_end_of(w),
        far_end_of(h),
        cos,
        sin,
    );
    (e.0.ceil_u32() as u64 + 1, e.1.ceil_u32() as u64 + 1)
}

fn find_inner_size(w: u32, h: u32, cos: Single, sin: Single) -> (r: (u32, u32))
    ensures
        (r.0 as int, r.1 as int) == inner_size(w as int, h as int, cos, sin),
{
    let r: (Single, Single) = largest_inscribed_rect(
        Single::from_int(w as i128),
        Single::from_int(h as i128),
        sin.abs(),
        cos.abs(),
    );
    // 1, 1
    (floor(r.0).max(num(0x3f80_0000)).to_u32(), floor(r.1).max(num(0x3f80_0000)).to_u32())
}

/// Rotates a picture counter-clockwise by an angle, given its cosine and sine.
pub fn warp_rotate(img: &RgbImage, cos: Single, sin: Single) -> (r: RgbImage)
    requires
        img.wf(),
        img.width == 0 || img.height == 0 || rotation_fits(
            img.width as int,
            img.height as int,
            cos,
            sin,
        ),
    ensures
        r.wf(),
        r@ == rotated(img@, cos, sin),
{
    if img.width == 0 || img.height == 0 {
        return img.clone();
    }
    let size: (u64, u64) = find_rotated_size(img.width, img.height, cos, sin);
    let ow: u32 = size.0 as u32;
    let oh: u32 = size.1 as u32;
    let points: Vec<Option<(Single, Single)>> = find_rotation_points(
        img.width,
        img.height,
        cos,
        sin,
        ow,
        oh,
    );
    proof {
        assert(0 <= ow * oh) by (nonlinear_arith)
            requires
                0 <= ow,
                0 <= oh,
        ;
    }
    let whole: RgbImage = warp(img, ow, oh, &points);
    let inner: (u32, u32) = find_inner_size(img.width, img.height, cos, sin);
    if inner.0 < ow && inner.1 < oh {
        crop_part(&whole, (ow - inner.0) / 2, (oh - inner.1) / 2, inner.0, inner.1)
    } else {
        whole
    }
}

/// The perspective is set.
pub open spec fn has_perspective(g: Geometry) -> bool {
    match g.perspective {
        Some(q) => !q.0.same(num(0)) || !q.1.same(num(0)),
        None => false,
    }
}

fn wants_perspective(g: &Geometry) -> (r: bool)
    ensures
        r == has_perspective(*g),
{
    match g.perspective {
        Some(q) => !q.0.same(num(0)) || !q.1.same(num(0)),
        None => false,
    }
}

/// A picture after the fine rotation.
pub open spec fn straightened(p: Picture, deg: Single, cos: Single, sin: Single) -> Picture {
    if deg.same(num(0)) {
        p
    } else {
        match exact_turns(deg) {
            Some(k) => turned(p, (4 - k) % 4),
            None => rotated(p, cos, sin),
        }
    }
}

/// The pixels at which a part from `at` on, `size` long, begins and ends, both as shares of a
/// side of `n` pixels.
pub open spec fn crop_span(at: Single, size: Single, n: int) -> (int, int) {
    let side = Single::spec_from_int(n);
    (
        at.clamp(num(0), num(0x3f80_0000)).times(side).truncated(0, u32::MAX as int),  // 1
        // 1
        at.plus(size).clamp(num(0), num(0x3f80_0000)).times(side).truncated(0, u32::MAX as int),
    )
}

fn find_crop_span(at: Single, size: Single, n: u32) -> (r: (u32, u32))
    ensures
        (r.0 as int, r.1 as int) == crop_span(at, size, n as int),
{
    let side: Single = Single::from_int(n as i128);
    // 1, 1
    (at.clamp(num(0), num(0x3f80_0000)).times(side).to_u32(), at.plus(size).clamp(num(0), num(0x3f80_0000)).times(side).to_u32())
}

/// A picture after the crop. A part without pixels leaves it whole.
pub open spec fn cropped(p: Picture, crop: Option<(Single, Single, Single, Single)>) -> Picture {
    match crop {
        Some(q) => {
            let across = crop_span(q.0, q.2, p.width);
            let down = crop_span(q.1, q.3, p.height);
            if across.1 > across.0 && down.1 > down.0 {
                cut(p, across.0, down.0, across.1 - across.0, down.1 - down.0)
            } else {
                p
            }
        },
        None => p,
    }
}

/// A picture after the perspective.
pub open spec fn squared(p: Picture, g: Geometry) -> Picture {
    match g.perspective {
        Some(q) => if has_perspective(g) {
            in_perspective(p, q.0, q.1)
        } else {
            p
        },
        None => p,
    }
}

/// A picture after perspective, quarter turns and fine rotation.
pub open spec fn levelled(
    p: Picture,
    g: Geometry,
    cos: Single,
    sin: Single,
) -> Picture {
    straightened(
        turned(squared(p, g), g.quarter_turns as int % 4),
        g.rotate_deg,
        cos,
        sin,
    )
}

/// A picture after the whole geometry: perspective, quarter turns, fine rotation, flips, crop.
pub open spec fn transformed(
    p: Picture,
    g: Geometry,
    cos: Single,
    sin: Single,
) -> Picture {
    let a = levelled(p, g, cos, sin);
    let b = if g.flip_h {
        mirrored(a)
    } else {
        a
    };
    let c = if g.flip_v {
        upended(b)
    } else {
        b
    };
    cropped(c, g.crop)
}

/// The size of a picture after a number of quarter turns.
pub open spec fn turned_size(w: int, h: int, k: int) -> (int, int) {
    if k == 1 || k == 3 {
        (h, w)
    } else {
        (w, h)
    }
}

/// The fine rotation moves pixels between places.
pub open spec fn rotation_warps(deg: Single) -> bool {
    !deg.same(num(0)) && exact_turns(deg) is None
}

/// The geometry can be applied to a picture of `w` by `h` pixels.
pub open spec fn geometry_fits(
    w: int,
    h: int,
    g: Geometry,
    cos: Single,
    sin: Single,
) -> bool {
    let t = turned_size(w, h, g.quarter_turns as int % 4);
    &&& has_perspective(g) && w > 0 && h > 0 ==> w <= MAX_SIDE && h <= MAX_SIDE
    &&& rotation_warps(g.rotate_deg) && t.0 > 0 && t.1 > 0 ==> rotation_fits(t.0, t.1, cos, sin)
}

/// Applies the geometry to a picture. `cos` and `sin` are those of the fine rotation.
pub fn apply_geometry(
    img: RgbImage,
    g: &Geometry,
    cos: Single,
    sin: Single,
) -> (r: RgbImage)
    requires
        img.wf(),
        geometry_fits(img.width as int, img.height as int, *g, cos, sin),
    ensures
        r.wf(),
        r@ == transformed(img@, *g, cos, sin),
{
    if g.is_identity() {
        return img;
    }
    let mut cur: RgbImage = img.clone();
    if wants_perspective(g) {
        if let Some(q) = g.perspective {
            if img.width > 0 && img.height > 0 {
                cur = warp_perspective(&img, q.0, q.1);
            }
        }
    }
    proof {
        assert(cur@ == squared(img@, *g));
    }
    cur = turn(cur, g.quarter_turns % 4);
    if !g.rotate_deg.same(num(0)) {
        match whole_turns(g.rotate_deg) {
            Some(k) => {
                cur = turn(cur, (4 - k) % 4);
            },
            None => {
                cur = warp_rotate(&cur, cos, sin);
            },
        }
    }
    proof {
        assert(cur@ == levelled(img@, *g, cos, sin));
    }
    if g.flip_h {
        cur = flip_horizontal(&cur);
    }
    if g.flip_v {
        cur = flip_vertical(&cur);
    }
    match g.crop {
        Some(q) => {
            let across: (u32, u32) = find_crop_span(q.0, q.2, cur.width);
            let down: (u32, u32) = find_crop_span(q.1, q.3, cur.height);
            if across.1 > across.0 && down.1 > down.0 {
                cur = crop_part(
                    &cur,
                    across.0,
                    down.0,
                    across.1 - across.0,
                    down.1 - down.0,
                );
            }
        },
        None => {},
    }
    cur
}

/// Whether the geometry can be applied to a picture of `w` by `h` pixels: where pixels move
/// between places, it must not be too large.
pub fn fits_geometry(w: u32, h: u32, g: &Geometry, cos: Single, sin: Single) -> (r: bool)
    ensures
        r == geometry_fits(w as int, h as int, *g, cos, sin),
{
    if wants_perspective(g) && w > 0 && h > 0 {
        if w > MAX_SIDE || h > MAX_SIDE {
            return false;
        }
    }
    let k: u8 = g.quarter_turns % 4;
    let tw: u32 = if k == 1 || k == 3 {
        h
    } else {
        w
    };
    let th: u32 = if k == 1 || k == 3 {
        w
    } else {
        h
    };
    if g.rotate_deg.same(num(0)) {
        return true;
    }
    match whole_turns(g.rotate_deg) {
        Some(_) => true,
        None => {
            if tw == 0 || th == 0 {
                return true;
            }
            let size: (u64, u64) = find_rotated_size(tw, th, cos, sin);
            if tw > MAX_SIDE || th > MAX_SIDE || size.0 > 0xffff_ffff || size.1 > 0xffff_ffff {
                return false;
            }
            proof {
                lemma_area_fits(size.0 as u32, size.1 as u32);
            }
            size.0 as u128 * size.1 as u128 * 3 <= usize::MAX as u128
        },
    }
}

/// The pixel that a turned picture shows at a place.
pub open spec fn turned_from(p: Picture, k: int, x: int, y: int) -> (int, int) {
    if k == 1 {
        (y, p.height - 1 - x)
    } else if k == 2 {
        (p.width - 1 - x, p.height - 1 - y)
    } else if k == 3 {
        (p.width - 1 - y, x)
    } else {
        (x, y)
    }
}

proof fn lemma_turned_at(p: Picture, k: int, x: int, y: int, c: int)
    requires
        0 <= x < turned(p, k).width,
        0 <= y < turned(p, k).height,
        0 <= c < 3,
    ensures
        turned(p, k).at(x, y, c) == p.at(turned_from(p, k, x, y).0, turned_from(p, k, x, y).1, c),
        0 <= turned_from(p, k, x, y).0 < p.width,
        0 <= turned_from(p, k, x, y).1 < p.height,
{
    if k == 1 {
        lemma_painted(
            p.height,
            p.width,
            |x: int, y: int, c: int| p.at(y, p.height - 1 - x, c),
            x,
            y,
            c,
        );
    } else if k == 2 {
        lemma_painted(
            p.width,
            p.height,
            |x: int, y: int, c: int| p.at(p.width - 1 - x, p.height - 1 - y, c),
            x,
            y,
            c,
        );
    } else if k == 3 {
        lemma_painted(
            p.height,
            p.width,
            |x: int, y: int, c: int| p.at(p.width - 1 - y, x, c),
            x,
            y,
            c,
        );
    }
}

proof fn lemma_turned_wf(p: Picture, k: int)
    requires
        p.wf(),
    ensures
        turned(p, k).wf(),
        (turned(p, k).width, turned(p, k).height) == turned_size(p.width, p.height, k),
{
    assert(p.width * p.height * 3 >= 0) by (nonlinear_arith)
        requires
            p.width >= 0,
            p.height >= 0,
    ;
    assert(p.height * p.width * 3 >= 0) by (nonlinear_arith)
        requires
            p.width >= 0,
            p.height >= 0,
    ;
}

/// Quarter turns add up: so four of them, in whatever steps, lose nothing.
pub proof fn law_quarter_turns_add_up(p: Picture, a: int, b: int)
    requires
        p.wf(),
        0 <= a < 4,
        0 <= b < 4,
    ensures
        turned(turned(p, a), b) == turned(p, (a + b) % 4),
{
    let q = turned(p, a);
    let s = turned(q, b);
    let t = turned(p, (a + b) % 4);
    lemma_turned_wf(p, a);
    lemma_turned_wf(q, b);
    lemma_turned_wf(p, (a + b) % 4);
    assert forall|x: int, y: int, c: int|
        0 <= x < s.width && 0 <= y < s.height && 0 <= c < 3 implies #[trigger] s.at(x, y, c) == t.at(
        x,
        y,
        c,
    ) by {
        lemma_turned_at(q, b, x, y, c);
        let f = turned_from(q, b, x, y);
        lemma_turned_at(p, a, f.0, f.1, c);
        lemma_turned_at(p, (a + b) % 4, x, y, c);
    }
    lemma_same_picture(s, t);
}

proof fn lemma_flipped_at(p: Picture, x: int, y: int, c: int)
    requires
        0 <= x < p.width,
        0 <= y < p.height,
        0 <= c < 3,
    ensures
        mirrored(p).at(x, y, c) == p.at(p.width - 1 - x, y, c),
        upended(p).at(x, y, c) == p.at(x, p.height - 1 - y, c),
{
    lemma_painted(
        p.width,
        p.height,
        |x: int, y: int, c: int| p.at(p.width - 1 - x, y, c),
        x,
        y,
        c,
    );
    lemma_painted(
        p.width,
        p.height,
        |x: int, y: int, c: int| p.at(x, p.height - 1 - y, c),
        x,
        y,
        c,
    );
}

/// A second flip undoes the first, and both flips make half a turn.
pub proof fn law_flips_undo_themselves(p: Picture)
    requires
        p.wf(),
    ensures
        mirrored(mirrored(p)) == p,
        upended(upended(p)) == p,
        upended(mirrored(p)) == turned_half(p),
{
    assert(p.width * p.height * 3 >= 0) by (nonlinear_arith)
        requires
            p.width >= 0,
            p.height >= 0,
    ;
    let m = mirrored(p);
    let u = upended(p);
    let h = turned_half(p);
    lemma_turned_wf(p, 2);
    assert forall|x: int, y: int, c: int|
        0 <= x < p.width && 0 <= y < p.height && 0 <= c < 3 implies #[trigger] mirrored(m).at(x, y, c)
        == p.at(x, y, c) by {
        lemma_flipped_at(m, x, y, c);
        lemma_flipped_at(p, p.width - 1 - x, y, c);
    }
    lemma_same_picture(mirrored(m), p);
    assert forall|x: int, y: int, c: int|
        0 <= x < p.width && 0 <= y < p.height && 0 <= c < 3 implies #[trigger] upended(u).at(x, y, c)
        == p.at(x, y, c) by {
        lemma_flipped_at(u, x, y, c);
        lemma_flipped_at(p, x, p.height - 1 - y, c);
    }
    lemma_same_picture(upended(u), p);
    assert forall|x: int, y: int, c: int|
        0 <= x < p.width && 0 <= y < p.height && 0 <= c < 3 implies #[trigger] upended(m).at(x, y, c)
        == h.at(x, y, c) by {
        lemma_flipped_at(m, x, y, c);
        lemma_flipped_at(p, x, p.height - 1 - y, c);
        lemma_turned_at(p, 2, x, y, c);
    }
    lemma_same_picture(upended(m), h);
}

/// A geometry that sets nothing leaves a picture as it is.
pub proof fn law_identity_keeps_picture(
    p: Picture,
    g: Geometry,
    cos: Single,
    sin: Single,
)
    requires
        g.spec_is_identity(),
    ensures
        transformed(p, g, cos, sin) == p,
{
}

/// A crop whose shares are finite and whose size is not negative ends no sooner than it begins,
/// and inside the picture.
pub proof fn law_crop_stays_inside(at: Single, size: Single, n: int)
    requires
        at.magnitude() < INFINITY,
        num(0).le(size),
        size.magnitude() < INFINITY,
        0 <= n <= MAX_SIDE,
    ensures
        0 <= crop_span(at, size, n).0 <= crop_span(at, size, n).1 <= n,
{
    let one = num(0x3f80_0000);
    let side = Single::spec_from_int(n);
    let a = at.clamp(num(0), one);
    let b = at.plus(size).clamp(num(0), one);
    let hi = u32::MAX as int;
    law_sums_keep_order(num(0), size, at);
    law_zero_is_neutral(at, num(0));
    lemma_zero_is_least(n);
    law_small_integers_are_exact(n);
    law_products_keep_order(a, b, side);
    law_products_keep_order(b, one, side);
    law_one_is_neutral(side);
    law_whole_parts_keep_order(num(0), a.times(side), 0, hi);
    law_whole_parts_keep_order(a.times(side), b.times(side), 0, hi);
    law_whole_parts_keep_order(b.times(side), side, 0, hi);
    law_zero_becomes_zero(num(0));
    law_small_integers_are_whole(n, 0, hi);
}

/// A crop of any shares begins and ends no later than the picture.
proof fn lemma_span_ends_inside(at: Single, size: Single, n: int)
    requires
        0 <= n <= MAX_SIDE,
    ensures
        0 <= crop_span(at, size, n).0 <= n,
        0 <= crop_span(at, size, n).1 <= n,
{
    lemma_share_is_inside(at, n);
    lemma_share_is_inside(at.plus(size), n);
}

proof fn lemma_share_is_inside(v: Single, n: int)
    requires
        0 <= n <= MAX_SIDE,
    ensures
        0 <= v.clamp(num(0), num(0x3f80_0000)).times(Single::spec_from_int(n)).truncated(
            0,
            u32::MAX as int,
        ) <= n,
{
    let one = num(0x3f80_0000);
    let side = Single::spec_from_int(n);
    let b = v.clamp(num(0), one);
    let hi = u32::MAX as int;
    if v.is_nan() {
        reveal(Single::truncated);
        reveal(Single::spec_times);
    } else {
        lemma_zero_is_least(n);
        law_small_integers_are_exact(n);
        law_products_keep_order(b, one, side);
        law_one_is_neutral(side);
        law_whole_parts_keep_order(num(0), b.times(side), 0, hi);
        law_whole_parts_keep_order(b.times(side), side, 0, hi);
        law_zero_becomes_zero(num(0));
        law_small_integers_are_whole(n, 0, hi);
    }
}

/// A crop never makes a picture larger, and leaves something of one that has pixels, whatever
/// its shares are.
pub proof fn law_crop_keeps_pixels(p: Picture, crop: (Single, Single, Single, Single))
    requires
        0 < p.width <= MAX_SIDE,
        0 < p.height <= MAX_SIDE,
    ensures
        0 < cropped(p, Some(crop)).width <= p.width,
        0 < cropped(p, Some(crop)).height <= p.height,
{
    lemma_span_ends_inside(crop.0, crop.2, p.width);
    lemma_span_ends_inside(crop.1, crop.3, p.height);
}

/// One exact quarter turn of the fine rotation is counter-clockwise.
pub proof fn law_fine_turn_is_counter_clockwise(
    p: Picture,
    deg: Single,
    cos: Single,
    sin: Single,
    x: int,
    y: int,
    c: int,
)
    requires
        p.wf(),
        !deg.same(num(0)),
        exact_turns(deg) == Some(1int),
        0 <= x < p.height,
        0 <= y < p.width,
        0 <= c < 3,
    ensures
        straightened(p, deg, cos, sin).width == p.height,
        straightened(p, deg, cos, sin).height == p.width,
        straightened(p, deg, cos, sin).at(x, y, c) == p.at(p.width - 1 - y, x, c),
{
    lemma_turned_wf(p, 3);
    lemma_turned_at(p, 3, x, y, c);
}

} // verus!
