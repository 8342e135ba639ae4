//! Filling by diffusion from the rim, with an outside implementation of Telea's method.

use crate::raster::{lemma_pixel_in_range, lemma_pixel_place, GrayImage, RgbImage};
use crate::single::{num, within, Single};
use crate::spot::{under_any, SpotFix, SpotStroke};
use vstd::prelude::*;

verus! {

/// `filled` is an image of the bytes `rgb` with nothing changed but pixels that the mask marks.
pub open spec fn may_fill(rgb: Seq<u8>, mask: Seq<u8>, filled: Seq<u8>) -> bool {
    &&& filled.len() == rgb.len()
    &&& forall|k: int|
        0 <= k < rgb.len() && mask[k / 3] == 0 ==> #[trigger] filled[k] == rgb[k]
}

/// Calls `inpaint::telea_inpaint` on the bytes of an image and of a mask. It is claimed that the
/// result has as many bytes as the image, and that the bytes of pixels whose mask is 0 come back
/// unchanged: the function writes only pixels that the mask marks, and a byte goes through its
/// number and back without loss. What the marked pixels become is not claimed: distances are
/// squared with `powi`, whose precision is left open from platform to platform and run to run.
#[verifier::external_body]
fn telea(rgb: &Vec<u8>, mask: &Vec<u8>, w: u32, h: u32, radius: i32) -> (r: Option<Vec<u8>>)
    requires
        rgb@.len() == w * h * 3,
        mask@.len() == w * h,
        0 < radius,
        w + radius < i32::MAX,
        h + radius < i32::MAX,
    ensures
        r matches Some(v) ==> may_fill(rgb@, mask@, v@),
{
    let (wu, hu) = (w as usize, h as usize);
    let mut image = ndarray::Array3::from_shape_vec((hu, wu, 3), rgb.clone()).ok()?;
    let marks = ndarray::Array2::from_shape_vec((hu, wu), mask.clone()).ok()?;
    match inpaint::telea_inpaint(&mut image.view_mut(), &marks.view(), radius) {
        Ok(()) => Some(image.into_iter().collect()),
        Err(_) => None,
    }
}

/// The image with the pixels under the mask filled by diffusion; the image itself where that
/// fails.
pub fn inpaint_rgb(img: &RgbImage, mask: &GrayImage, radius: i32) -> (out: RgbImage)
    requires
        img.wf(),
        mask.wf(),
        mask.width == img.width,
        mask.height == img.height,
        radius > 0 ==> img.width + radius < i32::MAX && img.height + radius < i32::MAX,
    ensures
        out.wf(),
        out.width == img.width,
        out.height == img.height,
        radius <= 0 || img.width == 0 ==> out.data@ == img.data@,
        may_fill(img.data@, mask.data@, out.data@),
{
    if radius <= 0 || img.width == 0 {
        return img.clone();
    }
    settle(img, telea(&img.data, &mask.data, img.width, img.height, radius))
}

/// The image that comes of what filling gave: the filled bytes, or else the image itself.
pub fn settle(img: &RgbImage, filled: Option<Vec<u8>>) -> (out: RgbImage)
    requires
        img.wf(),
        filled matches Some(v) ==> v@.len() == img.data@.len(),
    ensures
        out.wf(),
        out.width == img.width,
        out.height == img.height,
        out.data@ == match filled {
            Some(v) => v@,
            None => img.data@,
        },
{
    match filled {
        Some(data) => RgbImage { width: img.width, height: img.height, data },
        None => img.clone(),
    }
}

/// A stroke with a soft edge: its centre, the radius up to which it covers fully and the
/// radius from which it covers nothing.
pub open spec fn soft_stroke(s: SpotStroke, w: int, h: int) -> (int, int, Single, Single) {
    let short = if w < h { w } else { h };
    let pr = s.r_norm.times(Single::spec_from_int(short)).max(num(0x3f00_0000));
    let feather = pr.times(num(0x3f00_0000)).max(num(0x3f80_0000));  // 0.5, 1
    (
        s.cx.times(Single::spec_from_int(w)).truncated(i32::MIN as int, i32::MAX as int),
        s.cy.times(Single::spec_from_int(h)).truncated(i32::MIN as int, i32::MAX as int),
        pr.minus(feather).max(num(0)),
        pr.plus(feather),
    )
}

/// The radii of a soft stroke: covered fully up to the first, not at all from the second on.
pub fn soft_edges(s: &SpotStroke, w: u32, h: u32) -> (r: (Single, Single))
    ensures
        r.0 == soft_stroke(*s, w as int, h as int).2,
        r.1 == soft_stroke(*s, w as int, h as int).3,
{
    let short: u32 = if w < h {
        w
    } else {
        h
    };
    let pr: Single = s.r_norm.times(Single::from_int(short as i128)).max(num(0x3f00_0000));  // 0.5
    let feather: Single = pr.times(num(0x3f00_0000)).max(num(0x3f80_0000));  // 0.5, 1
    (pr.minus(feather).max(num(0)), pr.plus(feather))
}

/// The angle that a soft edge follows at the squared distance `q`: nothing at the inner radius,
/// half a turn at the outer.
pub open spec fn soft_angle(q: int, inner: Single, outer: Single) -> Single {
    let d = Single::spec_from_int(q).sqrt();
    num(0x4049_0fdb).times(d.minus(inner)).over(outer.minus(inner))  // pi
}

/// Where a soft edge is taken: cos of this.
pub fn soft_angle_of(q: u64, inner: Single, outer: Single) -> (a: Single)
    ensures
        a == soft_angle(q as int, inner, outer),
{
    let d: Single = Single::from_int(q as i128).sqrt();
    num(0x4049_0fdb).times(d.minus(inner)).over(outer.minus(inner))  // pi
}

/// How many pixels from its centre a soft stroke is looked for.
pub open spec fn soft_span(outer: Single) -> int {
    outer.raised(0, u32::MAX as int) + 1
}

/// The distance of the offset `(dx, dy)`.
pub open spec fn length(dx: int, dy: int) -> Single {
    let x = Single::spec_from_int(dx);
    let y = Single::spec_from_int(dy);
    x.times(x).plus(y.times(y)).sqrt()
}

/// How much a soft stroke covers at the offset `(dx, dy)` from its centre. `fade` holds, by
/// squared distance, the cosine that the edge follows.
pub open spec fn cover(inner: Single, outer: Single, dx: int, dy: int, fade: Seq<Single>) -> Single {
    let d = length(dx, dy);
    if d.le(inner) {
        num(0x3f80_0000)
    } else if d.lt(outer) {
        num(0x3f00_0000).plus(num(0x3f00_0000).times(fade[dx * dx + dy * dy]))  // 0.5
    } else {
        num(0)
    }
}

/// How much the strokes cover the pixel at `(x, y)`: as much as the one that covers most.
pub open spec fn coverage(
    strokes: Seq<SpotStroke>,
    fades: Seq<Vec<Single>>,
    w: int,
    h: int,
    x: int,
    y: int,
) -> Single
    decreases strokes.len(),
{
    if strokes.len() == 0 {
        num(0)
    } else {
        let before = coverage(strokes.drop_last(), fades, w, h, x, y);
        let (cx, cy, inner, outer) = soft_stroke(strokes.last(), w, h);
        let (dx, dy) = (x - cx, y - cy);
        let span = soft_span(outer);
        if -span <= dx <= span && -span <= dy <= span {
            let a = cover(inner, outer, dx, dy, fades[strokes.len() - 1]@);
            if a.gt(num(0)) && a.gt(before) {
                a
            } else {
                before
            }
        } else {
            before
        }
    }
}

/// How far filling under soft strokes samples.
pub open spec fn soft_reach(strokes: Seq<SpotStroke>, w: int, h: int) -> int
    decreases strokes.len(),
{
    if strokes.len() == 0 {
        1
    } else {
        let before = soft_reach(strokes.drop_last(), w, h);
        let reach = soft_stroke(strokes.last(), w, h).3.times(num(0x3fc0_0000)).truncated(  // 1.5
            i32::MIN as int,
            i32::MAX as int,
        ) + 1;
        if before < reach {
            reach
        } else {
            before
        }
    }
}

/// The fading of every stroke is known wherever its edge is met.
pub open spec fn fades_suffice(strokes: Seq<SpotStroke>, fades: Seq<Vec<Single>>, w: int, h: int) -> bool {
    &&& fades.len() == strokes.len()
    &&& forall|i: int, x: int, y: int|
        #![trigger strokes[i], length(x, y)]
        0 <= i < strokes.len() && !length(x, y).le(soft_stroke(strokes[i], w, h).2) && length(
            x,
            y,
        ).lt(soft_stroke(strokes[i], w, h).3) ==> x * x + y * y < fades[i]@.len()
}

impl SpotFix {
    /// The coverage of all pixels and how far filling samples, from 1 to 60 pixels.
    pub fn build_soft_alpha(&self, w: u32, h: u32, fades: &Vec<Vec<Single>>) -> (r: (
        Vec<Single>,
        i32,
    ))
        requires
            w * h <= usize::MAX,
            fades_suffice(self.strokes@, fades@, w as int, h as int),
        ensures
            r.0@.len() == w * h,
            forall|x: int, y: int|
                0 <= x < w && 0 <= y < h ==> #[trigger] r.0@[y * w + x] == coverage(
                    self.strokes@,
                    fades@,
                    w as int,
                    h as int,
                    x,
                    y,
                ),
            r.1 == within(soft_reach(self.strokes@, w as int, h as int), 1, 60),
    {
        let n: usize = w as usize * h as usize;
        let mut alpha: Vec<Single> = Vec::new();
        let mut i: usize = 0;
        while i < n
            invariant
                i <= n,
                n == w * h,
                alpha@.len() == i,
                forall|j: int| 0 <= j < i ==> #[trigger] alpha@[j] == num(0),
            decreases n - i,
        {
            alpha.push(num(0));
            i = i + 1;
        }
        let short: u32 = if w < h { w } else { h };
        let mut reach: i64 = 1;
        let mut k: usize = 0;
        assert(self.strokes@.subrange(0, 0) =~= Seq::empty());
        proof {
            assert forall|x: int, y: int| 0 <= x < w && 0 <= y < h implies #[trigger] alpha@[y * w + x]
                == num(0) by {
                lemma_pixel_in_range(w as int, h as int, x, y);
            }
        }
        while k < self.strokes.len()
            invariant
                n == w * h,
                alpha@.len() == n,
                short == if w < h { w } else { h },
                k <= self.strokes@.len(),
                fades_suffice(self.strokes@, fades@, w as int, h as int),
                1 <= reach <= 0x8000_0000,
                reach == soft_reach(self.strokes@.subrange(0, k as int), w as int, h as int),
                forall|x: int, y: int|
                    0 <= x < w && 0 <= y < h ==> #[trigger] alpha@[y * w + x] == coverage(
                        self.strokes@.subrange(0, k as int),
                        fades@,
                        w as int,
                        h as int,
                        x,
                        y,
                    ),
            decreases self.strokes@.len() - k,
        {
            let s: SpotStroke = self.strokes[k];
            let (inner, outer): (Single, Single) = soft_edges(&s, w, h);
            let cx: i64 = s.cx.times(Single::from_int(w as i128)).to_i32() as i64;
            let cy: i64 = s.cy.times(Single::from_int(h as i128)).to_i32() as i64;
            let far: i64 = outer.times(num(0x3fc0_0000)).to_i32() as i64 + 1;  // 1.5
            let span: i64 = outer.ceil_u32() as i64 + 1;
            let ghost done = self.strokes@.subrange(0, k as int);
            let ghost next = self.strokes@.subrange(0, k + 1);
            let ghost before = alpha@;
            let fade: &Vec<Single> = &fades[k];
            proof {
                assert(next.drop_last() =~= done);
                assert(next.last() == s);
                assert(soft_stroke(s, w as int, h as int) == (cx as int, cy as int, inner, outer));
                assert(span == soft_span(outer));
            }
            let mut i: usize = 0;
            while i < n
                invariant
                    n == w * h,
                    alpha@.len() == n,
                    before.len() == n,
                    i <= n,
                    k < self.strokes@.len(),
                    s == self.strokes@[k as int],
                    *fade == fades@[k as int],
                    fades_suffice(self.strokes@, fades@, w as int, h as int),
                    soft_stroke(s, w as int, h as int) == (cx as int, cy as int, inner, outer),
                    span == soft_span(outer),
                    0 <= span <= 0x1_0000_0000,
                    i32::MIN <= cx <= i32::MAX,
                    i32::MIN <= cy <= i32::MAX,
                    next.len() == k + 1,
                    next.drop_last() == done,
                    next.last() == s,
                    forall|x: int, y: int|
                        0 <= x < w && 0 <= y < h ==> #[trigger] before[y * w + x] == coverage(
                            done,
                            fades@,
                            w as int,
                            h as int,
                            x,
                            y,
                        ),
                    forall|x: int, y: int|
                        0 <= x < w && 0 <= y < h ==> #[trigger] alpha@[y * w + x] == coverage(
                            if y * w + x < i { next } else { done },
                            fades@,
                            w as int,
                            h as int,
                            x,
                            y,
                        ),
                decreases n - i,
            {
                proof {
                    assert(w > 0) by {
                        if w == 0 {
                            assert(w * h == 0) by (nonlinear_arith)
                                requires
                                    w == 0,
                            ;
                        }
                    }
                    lemma_pixel_place(w as int, h as int, i as int);
                }
                let x: i64 = (i % w as usize) as i64;
                let y: i64 = (i / w as usize) as i64;
                let dx: i64 = x - cx;
                let dy: i64 = y - cy;
                let ghost now = alpha@;
                assert(now[y * w + x] == coverage(done, fades@, w as int, h as int, x as int, y as int));
                if -span <= dx && dx <= span && -span <= dy && dy <= span {
                    let a: Single = cover_at(inner, outer, dx, dy, fade);
                    if a.gt(num(0)) && a.gt(alpha[i]) {
                        alpha.set(i, a);
                    }
                }
                proof {
                    assert(alpha@[i as int] == coverage(next, fades@, w as int, h as int, x as int, y as int));
                    assert forall|u: int, v: int| 0 <= u < w && 0 <= v < h implies #[trigger] alpha@[v
                        * w + u] == coverage(
                        if v * w + u < i + 1 { next } else { done },
                        fades@,
                        w as int,
                        h as int,
                        u,
                        v,
                    ) by {
                        lemma_pixel_in_range(w as int, h as int, u, v);
                        assert(now[v * w + u] == coverage(
                            if v * w + u < i { next } else { done },
                            fades@,
                            w as int,
                            h as int,
                            u,
                            v,
                        ));
                        if v * w + u == i {
                            assert(u == x && v == y);
                        }
                    }
                }
                i = i + 1;
            }
            proof {
                assert forall|x: int, y: int| 0 <= x < w && 0 <= y < h implies #[trigger] alpha@[y * w
                    + x] == coverage(next, fades@, w as int, h as int, x, y) by {
                    lemma_pixel_in_range(w as int, h as int, x, y);
                }
            }
            if reach < far {
                reach = far;
            }
            k = k + 1;
        }
        assert(self.strokes@.subrange(0, k as int) =~= self.strokes@);
        let radius: i32 = if reach > 60 { 60 } else { reach as i32 };
        (alpha, radius)
    }
}

fn cover_at(inner: Single, outer: Single, dx: i64, dy: i64, fade: &Vec<Single>) -> (a: Single)
    requires
        -0x2_0000_0000 <= dx <= 0x2_0000_0000,
        -0x2_0000_0000 <= dy <= 0x2_0000_0000,
        !length(dx as int, dy as int).le(inner) && length(dx as int, dy as int).lt(outer) ==> dx
            * dx + dy * dy < fade@.len(),
    ensures
        a == cover(inner, outer, dx as int, dy as int, fade@),
{
    let x: Single = Single::from_int(dx as i128);
    let y: Single = Single::from_int(dy as i128);
    let d: Single = x.times(x).plus(y.times(y)).sqrt();
    if d.le(inner) {
        num(0x3f80_0000)
    } else if d.lt(outer) {
        let count: usize = fade.len();
        proof {
            assert(0 <= dx * dx && 0 <= dy * dy) by (nonlinear_arith);
            assert(dx * dx <= 0x2_0000_0000 * 0x2_0000_0000 && dy * dy <= 0x2_0000_0000
                * 0x2_0000_0000) by (nonlinear_arith)
                requires
                    -0x2_0000_0000 <= dx <= 0x2_0000_0000,
                    -0x2_0000_0000 <= dy <= 0x2_0000_0000,
            ;
        }
        let sq: i128 = (dx as i128) * (dx as i128) + (dy as i128) * (dy as i128);
        num(0x3f00_0000).plus(num(0x3f00_0000).times(fade[sq as usize]))  // 0.5
    } else {
        num(0)
    }
}

/// Two bytes mixed, the second with the share `a`.
pub open spec fn mixed_byte(o: u8, n: u8, a: Single) -> u8 {
    if a.le(num(0)) {
        o
    } else if a.ge(num(0x3f80_0000)) {
        n
    } else {
        Single::spec_from_int(o as int).times(num(0x3f80_0000).minus(a)).plus(
            Single::spec_from_int(n as int).times(a),
        ).truncated(0, 255) as u8
    }
}

/// The mask of the pixels that are covered by more than a thousandth.
pub open spec fn hard_mask(alpha: Seq<Single>) -> Seq<u8> {
    Seq::new(
        alpha.len(),
        |i: int| if alpha[i].gt(num(0x3a83_126f)) { 255u8 } else { 0u8 },  // 0.001
    )
}

/// The bytes of an image mixed with those of a filled one as far as they are covered. Where
/// nothing is covered the image stays as it is.
pub open spec fn feathered(data: Seq<u8>, alpha: Seq<Single>, filled: Seq<u8>) -> Seq<u8> {
    if forall|i: int| 0 <= i < alpha.len() ==> !(#[trigger] alpha[i]).gt(num(0x3a83_126f)) {
        data
    } else {
        Seq::new(data.len(), |k: int| mixed_byte(data[k], filled[k], alpha[k / 3]))
    }
}

/// The mask of the pixels that are covered by more than a thousandth; nothing where there are
/// none.
pub fn mark_covered(alpha: &Vec<Single>) -> (r: Option<Vec<u8>>)
    ensures
        match r {
            Some(m) => m@ == hard_mask(alpha@) && exists|i: int|
                0 <= i < alpha@.len() && (#[trigger] alpha@[i]).gt(num(0x3a83_126f)),  // 0.001
            None => forall|i: int|
                0 <= i < alpha@.len() ==> !(#[trigger] alpha@[i]).gt(num(0x3a83_126f)),  // 0.001
        },
{
    let n: usize = alpha.len();
    let mut any: bool = false;
    let mut hard: Vec<u8> = Vec::new();
    let mut i: usize = 0;
    while i < n
        invariant
            i <= n,
            n == alpha@.len(),
            hard@.len() == i,
            forall|j: int| 0 <= j < i ==> #[trigger] hard@[j] == hard_mask(alpha@)[j],
            // 0.001
            any == exists|j: int| 0 <= j < i && (#[trigger] alpha@[j]).gt(num(0x3a83_126f)),
        decreases n - i,
    {
        if alpha[i].gt(num(0x3a83_126f)) {  // 0.001
            hard.push(255);
            any = true;
            assert(alpha@[i as int].gt(num(0x3a83_126f)));  // 0.001
        } else {
            hard.push(0);
        }
        i = i + 1;
    }
    assert(hard@ =~= hard_mask(alpha@));
    if any {
        Some(hard)
    } else {
        None
    }
}

/// Mixes an image with a filled one as far as it is covered.
pub fn mix_filled(img: &RgbImage, alpha: &Vec<Single>, filled: &RgbImage) -> (out: RgbImage)
    requires
        img.wf(),
        filled.wf(),
        filled.width == img.width,
        filled.height == img.height,
        alpha@.len() == img.width * img.height,
        exists|i: int| 0 <= i < alpha@.len() && (#[trigger] alpha@[i]).gt(num(0x3a83_126f)),  // 0.001
    ensures
        out.wf(),
        out.width == img.width,
        out.height == img.height,
        out.data@ == feathered(img.data@, alpha@, filled.data@),
{
    let n: usize = alpha.len();
    let m: usize = img.data.len();
    let mut data: Vec<u8> = Vec::new();
    let mut k: usize = 0;
    while k < m
        invariant
            k <= m,
            m == img.data@.len(),
            m == 3 * n,
            alpha@.len() == n,
            filled.data@.len() == m,
            data@.len() == k,
            forall|j: int|
                0 <= j < k ==> #[trigger] data@[j] == mixed_byte(
                    img.data@[j],
                    filled.data@[j],
                    alpha@[j / 3],
                ),
        decreases m - k,
    {
        let a: Single = alpha[k / 3];
        let o: u8 = img.data[k];
        let f: u8 = filled.data[k];
        let v: u8 = if a.le(num(0)) {
            o
        } else if a.ge(num(0x3f80_0000)) {
            f
        } else {
            Single::from_int(o as i128).times(num(0x3f80_0000).minus(a)).plus(
                Single::from_int(f as i128).times(a),
            ).to_u8()
        };
        data.push(v);
        k = k + 1;
    }
    assert(data@ =~= feathered(img.data@, alpha@, filled.data@));
    RgbImage { width: img.width, height: img.height, data }
}

/// `out` is the image with what the coverage marks filled, and mixed with the image as far as it
/// is covered.
pub open spec fn is_blended(data: Seq<u8>, alpha: Seq<Single>, out: Seq<u8>) -> bool {
    exists|filled: Seq<u8>|
        #[trigger] may_fill(data, hard_mask(alpha), filled) && out == feathered(data, alpha, filled)
}

/// Fills what the coverage marks and mixes it with the image as far as it is covered.
pub fn blend_filled(img: &RgbImage, alpha: &Vec<Single>, radius: i32) -> (out: RgbImage)
    requires
        img.wf(),
        alpha@.len() == img.width * img.height,
        1 <= radius <= 60,
        img.width + 60 < i32::MAX,
        img.height + 60 < i32::MAX,
    ensures
        out.wf(),
        out.width == img.width,
        out.height == img.height,
        is_blended(img.data@, alpha@, out.data@),
{
    match mark_covered(alpha) {
        None => {
            assert(may_fill(img.data@, hard_mask(alpha@), img.data@));
            assert(feathered(img.data@, alpha@, img.data@) == img.data@);
            img.clone()
        },
        Some(hard) => {
            let mask: GrayImage = GrayImage { width: img.width, height: img.height, data: hard };
            let filled: RgbImage = inpaint_rgb(img, &mask, radius);
            assert(may_fill(img.data@, hard_mask(alpha@), filled.data@));
            mix_filled(img, alpha, &filled)
        },
    }
}

/// How much the strokes cover of each pixel, row by row.
pub open spec fn coverage_of(
    strokes: Seq<SpotStroke>,
    fades: Seq<Vec<Single>>,
    w: int,
    h: int,
) -> Seq<Single> {
    Seq::new((w * h) as nat, |i: int| coverage(strokes, fades, w, h, i % w, i / w))
}

/// Filling with soft edges: what the strokes cover is filled by diffusion and mixed with the
/// image as far as it is covered.
pub fn inpaint_rgb_feathered(img: &RgbImage, spot: &SpotFix, fades: &Vec<Vec<Single>>) -> (out:
    RgbImage)
    requires
        img.wf(),
        img.width + 60 < i32::MAX,
        img.height + 60 < i32::MAX,
        fades_suffice(spot.strokes@, fades@, img.width as int, img.height as int),
    ensures
        out.wf(),
        out.width == img.width,
        out.height == img.height,
        if img.width == 0 || img.height == 0 || spot.strokes@.len() == 0 {
            out.data@ == img.data@
        } else {
            is_blended(
                img.data@,
                coverage_of(spot.strokes@, fades@, img.width as int, img.height as int),
                out.data@,
            )
        },
{
    if img.width == 0 || img.height == 0 || spot.is_empty() {
        return img.clone();
    }
    let count: usize = img.data.len();
    let (alpha, radius) = spot.build_soft_alpha(img.width, img.height, fades);
    proof {
        let w = img.width as int;
        let h = img.height as int;
        let want = coverage_of(spot.strokes@, fades@, w, h);
        assert forall|i: int| 0 <= i < alpha@.len() implies #[trigger] alpha@[i] == want[i] by {
            lemma_pixel_place(w, h, i);
            assert(alpha@[(i / w) * w + i % w] == coverage(
                spot.strokes@,
                fades@,
                w,
                h,
                i % w,
                i / w,
            ));
        }
        assert(alpha@ =~= want);
    }
    blend_filled(img, &alpha, radius)
}

/// The strokes can be filled in an image of this size.
pub open spec fn fillable(w: int, h: int) -> bool {
    w + 60 < i32::MAX && h + 60 < i32::MAX
}

/// A developed picture with its spots filled by diffusion under the mask of the strokes. Without
/// strokes the picture stays as it is.
pub fn render_with_spot(developed: &RgbImage, spot: Option<&SpotFix>) -> (out: RgbImage)
    requires
        developed.wf(),
        spot is Some && spot->0.strokes@.len() > 0 ==> fillable(
            developed.width as int,
            developed.height as int,
        ),
    ensures
        out.wf(),
        out.width == developed.width,
        out.height == developed.height,
        match spot {
            Some(s) => if s.strokes@.len() == 0 {
                out.data@ == developed.data@
            } else {
                may_fill(
                    developed.data@,
                    mask_of(s.strokes@, developed.width as int, developed.height as int),
                    out.data@,
                )
            },
            None => out.data@ == developed.data@,
        },
{
    match spot {
        Some(s) => {
            if s.is_empty() {
                return developed.clone();
            }
            let w: u32 = developed.width;
            let h: u32 = developed.height;
            proof {
                assert(w * h <= w * h * 3) by (nonlinear_arith)
                    requires
                        0 <= w,
                        0 <= h,
                ;
            }
            let size: usize = developed.data.len();
            let (mask, radius) = s.build_mask(w, h);
            proof {
                let want = mask_of(s.strokes@, w as int, h as int);
                assert forall|i: int| 0 <= i < mask.data@.len() implies mask.data@[i] == want[i] by {
                    assert(w > 0) by (nonlinear_arith)
                        requires
                            0 <= i < w * h,
                            0 <= w,
                    ;
                    lemma_pixel_place(w as int, h as int, i);
                    assert(mask.at(i % w as int, i / w as int) == mask.data@[i]);
                }
                assert(mask.data@ =~= want);
            }
            inpaint_rgb(developed, &mask, radius)
        },
        None => developed.clone(),
    }
}

/// The mask of strokes, byte by byte: 255 under a stroke, 0 elsewhere.
pub open spec fn mask_of(strokes: Seq<SpotStroke>, w: int, h: int) -> Seq<u8> {
    Seq::new(
        (w * h) as nat,
        |i: int|
            if under_any(strokes, w, h, i % w, i / w) {
                255u8
            } else {
                0u8
            },
    )
}

} // verus!
