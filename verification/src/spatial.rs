//! Smoothing and blending of whole pictures.

use crate::freqsep::{line_sum, normalise, normalised, smooth_line, smoothed};
use crate::lch::of_byte;
use crate::raster::{lemma_pixel_in_range, lemma_pixel_place, RgbImage};
use crate::single::{
    law_bytes_are_in_range, law_order_is_numeric, law_small_integers_are_exact,
    law_small_integers_are_whole, law_zero_becomes_zero, num, Single,
};
use vstd::arithmetic::power2::pow2;
use vstd::prelude::*;

verus! {

pub open spec fn spec_luma(red: u8, green: u8, blue: u8) -> Single {
    // 0.2126, 0.7152, 0.0722
    num(0x3e59_b3d0).times(of_byte(red)).plus(num(0x3f37_1759).times(of_byte(green))).plus(num(0x3d93_dd98).times(of_byte(blue)))
}

/// Brightness of a pixel, 0 to 255.
#[verifier::when_used_as_spec(spec_luma)]
pub fn luma(red: u8, green: u8, blue: u8) -> (r: Single)
    ensures
        r == spec_luma(red, green, blue),
{
    // 0.2126, 0.7152, 0.0722
    num(0x3e59_b3d0).times(of_byte(red)).plus(num(0x3f37_1759).times(of_byte(green))).plus(num(0x3d93_dd98).times(of_byte(blue)))
}

/// A sum as a byte: rounded, then limited.
pub open spec fn rounded_byte(v: Single) -> int {
    v.round().clamp(num(0), num(0x437f_0000)).truncated(0, 255)  // 255
}

/// A value as a byte: limited, then rounded.
pub open spec fn limited_byte(v: Single) -> int {
    v.clamp(num(0), num(0x437f_0000)).round().truncated(0, 255)  // 255
}

/// A sum as a byte: rounded, then limited.
pub fn round_to_byte(v: Single) -> (r: u8)
    ensures
        r == rounded_byte(v),
{
    v.round().clamp(num(0), num(0x437f_0000)).to_u8()  // 255
}

/// A value as a byte: limited, then rounded.
pub fn limit_to_byte(v: Single) -> (r: u8)
    ensures
        r == limited_byte(v),
{
    v.clamp(num(0), num(0x437f_0000)).round().to_u8()  // 255
}

/// A number that stands for a byte becomes that byte.
pub proof fn law_byte_reads_back(v: Single, b: u8)
    requires
        v.same(of_byte(b)),
    ensures
        limited_byte(v) == b,
        rounded_byte(v) == b,
{
    law_small_integers_are_exact(b as int);
    law_small_integers_are_exact(0);
    law_small_integers_are_whole(b as int, 0, 255);
    law_bytes_are_in_range(b as int);
    law_order_is_numeric(v, of_byte(b));
    law_order_is_numeric(v, num(0));
    if b == 0 {
        law_zero_becomes_zero(v);
    } else {
        law_order_is_numeric(of_byte(b), num(0));
        vstd::arithmetic::power2::lemma_pow2_pos(149);
        assert(b * pow2(149) > 0) by (nonlinear_arith)
            requires
                b > 0,
                pow2(149) > 0,
        ;
        assert(v == of_byte(b));
    }
}

/// One channel of a picture as numbers.
pub open spec fn plane_of(data: Seq<u8>, c: int) -> Seq<Single> {
    Seq::new(data.len() / 3, |p: int| of_byte(data[3 * p + c]))
}

/// A plane smoothed along its rows, in bytes.
pub open spec fn row_bytes(plane: Seq<Single>, kernel: Seq<Single>, w: int, h: int) -> Seq<Single> {
    Seq::new(
        (w * h) as nat,
        |p: int|
            of_byte(
                rounded_byte(
                    line_sum(plane, kernel, (p / w) * w, 1, w, p % w, kernel.len() as int),
                ) as u8,
            ),
    )
}

/// One byte of a plane smoothed along its columns.
pub open spec fn column_byte(plane: Seq<Single>, kernel: Seq<Single>, w: int, h: int, p: int) -> int {
    rounded_byte(line_sum(plane, kernel, p % w, w, h, p / w, kernel.len() as int))
}

/// One channel of one pixel of a smoothed picture: along rows first, then along columns, each
/// in bytes.
pub open spec fn blurred_byte(data: Seq<u8>, weights: Seq<Single>, w: int, h: int, p: int, c: int) -> int {
    let kernel = normalised(weights);
    column_byte(row_bytes(plane_of(data, c), kernel, w, h), kernel, w, h, p)
}

fn read_plane(img: &RgbImage, c: usize) -> (r: Vec<Single>)
    requires
        img.wf(),
        c < 3,
    ensures
        r@ == plane_of(img.data@, c as int),
        r@.len() == img.width * img.height,
{
    let n: usize = img.data.len() / 3;
    proof {
        assert(img.data@.len() == 3 * (img.width * img.height)) by (nonlinear_arith)
            requires
                img.data@.len() == img.width * img.height * 3,
        ;
    }
    let mut r: Vec<Single> = Vec::new();
    let mut p: usize = 0;
    while p < n
        invariant
            p <= n,
            c < 3,
            img.data@.len() == 3 * n,
            r@.len() == p,
            forall|j: int| 0 <= j < p ==> #[trigger] r@[j] == plane_of(img.data@, c as int)[j],
        decreases n - p,
    {
        let size: usize = img.data.len();
        r.push(of_byte(img.data[3 * p + c]));
        p = p + 1;
    }
    assert(r@ =~= plane_of(img.data@, c as int));
    r
}

fn blur_rows(plane: &Vec<Single>, kernel: &Vec<Single>, w: usize, h: usize) -> (r: Vec<Single>)
    requires
        0 < w <= 0xffff_ffff,
        0 < h <= 0xffff_ffff,
        plane@.len() == w * h,
        kernel@.len() <= 0xffff_ffff,
    ensures
        r@ == row_bytes(plane@, kernel@, w as int, h as int),
        r@.len() == w * h,
{
    let n: usize = plane.len();
    let mut r: Vec<Single> = Vec::new();
    let mut p: usize = 0;
    while p < n
        invariant
            0 < w <= 0xffff_ffff,
            0 < h <= 0xffff_ffff,
            n == w * h,
            plane@.len() == n,
            kernel@.len() <= 0xffff_ffff,
            p <= n,
            r@.len() == p,
            forall|j: int|
                0 <= j < p ==> #[trigger] r@[j] == row_bytes(plane@, kernel@, w as int, h as int)[j],
        decreases n - p,
    {
        proof {
            lemma_pixel_place(w as int, h as int, p as int);
            lemma_pixel_in_range(w as int, h as int, w - 1, p as int / w as int);
            assert((p as int / w as int) * w >= 0) by (nonlinear_arith)
                requires
                    p as int / w as int >= 0,
                    w > 0,
            ;
        }
        let base: usize = (p / w) * w;
        let b: u8 = round_to_byte(smooth_line(plane, kernel, base, 1, w, p % w));
        r.push(of_byte(b));
        p = p + 1;
    }
    assert(r@ =~= row_bytes(plane@, kernel@, w as int, h as int));
    r
}

fn blur_columns(plane: &Vec<Single>, kernel: &Vec<Single>, w: usize, h: usize) -> (r: Vec<u8>)
    requires
        0 < w <= 0xffff_ffff,
        0 < h <= 0xffff_ffff,
        plane@.len() == w * h,
        kernel@.len() <= 0xffff_ffff,
    ensures
        r@.len() == w * h,
        forall|p: int|
            0 <= p < w * h ==> #[trigger] r@[p] == column_byte(
                plane@,
                kernel@,
                w as int,
                h as int,
                p,
            ),
{
    let n: usize = plane.len();
    let mut r: Vec<u8> = Vec::new();
    let mut p: usize = 0;
    while p < n
        invariant
            0 < w <= 0xffff_ffff,
            0 < h <= 0xffff_ffff,
            n == w * h,
            plane@.len() == n,
            kernel@.len() <= 0xffff_ffff,
            p <= n,
            r@.len() == p,
            forall|j: int|
                0 <= j < p ==> #[trigger] r@[j] == column_byte(
                    plane@,
                    kernel@,
                    w as int,
                    h as int,
                    j,
                ),
        decreases n - p,
    {
        proof {
            lemma_pixel_place(w as int, h as int, p as int);
            lemma_pixel_in_range(w as int, h as int, p as int % w as int, h - 1);
            assert(w * (h - 1) == (h - 1) * w) by (nonlinear_arith);
        }
        r.push(round_to_byte(smooth_line(plane, kernel, p % w, w, h, p / w)));
        p = p + 1;
    }
    r
}

/// Three channels woven into pixels.
fn weave(a: &Vec<u8>, b: &Vec<u8>, c: &Vec<u8>) -> (r: Vec<u8>)
    requires
        a@.len() == b@.len(),
        a@.len() == c@.len(),
        3 * a@.len() <= usize::MAX,
    ensures
        r@.len() == 3 * a@.len(),
        forall|p: int| 0 <= p < a@.len() ==> r@[3 * p] == #[trigger] a@[p],
        forall|p: int| 0 <= p < a@.len() ==> r@[3 * p + 1] == #[trigger] b@[p],
        forall|p: int| 0 <= p < a@.len() ==> r@[3 * p + 2] == #[trigger] c@[p],
{
    let mut r: Vec<u8> = Vec::new();
    let mut p: usize = 0;
    while p < a.len()
        invariant
            p <= a@.len(),
            a@.len() == b@.len(),
            a@.len() == c@.len(),
            r@.len() == 3 * p,
            forall|j: int| 0 <= j < p ==> r@[3 * j] == #[trigger] a@[j],
            forall|j: int| 0 <= j < p ==> r@[3 * j + 1] == #[trigger] b@[j],
            forall|j: int| 0 <= j < p ==> r@[3 * j + 2] == #[trigger] c@[j],
        decreases a@.len() - p,
    {
        r.push(a[p]);
        r.push(b[p]);
        r.push(c[p]);
        p = p + 1;
    }
    r
}

/// The bytes of a smoothed picture. Without weights they stay as they are.
pub open spec fn blurred(data: Seq<u8>, weights: Seq<Single>, w: int, h: int) -> Seq<u8> {
    if weights.len() == 0 {
        data
    } else {
        Seq::new(data.len(), |i: int| blurred_byte(data, weights, w, h, i / 3, i % 3) as u8)
    }
}

/// Smooths a picture with weights around the middle one. Without weights it stays as it is.
pub fn gaussian_blur(img: &RgbImage, weights: &Vec<Single>) -> (r: RgbImage)
    requires
        img.wf(),
        weights@.len() <= 0xffff_ffff,
    ensures
        r.wf(),
        r.width == img.width,
        r.height == img.height,
        r.data@ == blurred(img.data@, weights@, img.width as int, img.height as int),
{
    if weights.len() == 0 || img.width == 0 || img.height == 0 {
        proof {
            if img.width == 0 || img.height == 0 {
                assert(img.width * img.height * 3 == 0) by (nonlinear_arith)
                    requires
                        img.width == 0 || img.height == 0,
                ;
                assert(blurred(img.data@, weights@, img.width as int, img.height as int)
                    =~= img.data@);
            }
        }
        return img.clone();
    }
    let w: usize = img.width as usize;
    let h: usize = img.height as usize;
    let kernel: Vec<Single> = normalise(weights);
    let a: Vec<u8> = blur_columns(&blur_rows(&read_plane(img, 0), &kernel, w, h), &kernel, w, h);
    let b: Vec<u8> = blur_columns(&blur_rows(&read_plane(img, 1), &kernel, w, h), &kernel, w, h);
    let c: Vec<u8> = blur_columns(&blur_rows(&read_plane(img, 2), &kernel, w, h), &kernel, w, h);
    proof {
        assert(img.data@.len() == 3 * (img.width * img.height)) by (nonlinear_arith)
            requires
                img.data@.len() == img.width * img.height * 3,
        ;
    }
    let size: usize = img.data.len();
    let data: Vec<u8> = weave(&a, &b, &c);
    let r: RgbImage = RgbImage { width: img.width, height: img.height, data };
    proof {
        assert forall|i: int| 0 <= i < r.data@.len() implies #[trigger] r.data@[i] == blurred_byte(
            img.data@,
            weights@,
            img.width as int,
            img.height as int,
            i / 3,
            i % 3,
        ) by {
            let p = i / 3;
            assert(0 <= p < a@.len());
            assert(a@[p] == column_byte(
                row_bytes(plane_of(img.data@, 0), kernel@, w as int, h as int),
                kernel@,
                w as int,
                h as int,
                p,
            ));
            assert(b@[p] == column_byte(
                row_bytes(plane_of(img.data@, 1), kernel@, w as int, h as int),
                kernel@,
                w as int,
                h as int,
                p,
            ));
            assert(c@[p] == column_byte(
                row_bytes(plane_of(img.data@, 2), kernel@, w as int, h as int),
                kernel@,
                w as int,
                h as int,
                p,
            ));
            assert(r.data@[3 * p] == a@[p]);
            assert(r.data@[3 * p + 1] == b@[p]);
            assert(r.data@[3 * p + 2] == c@[p]);
            assert(i == 3 * p + i % 3);
        }
        assert(r.data@ =~= blurred(img.data@, weights@, img.width as int, img.height as int));
    }
    r
}

/// A plane of numbers smoothed with weights. Without weights it stays as it is.
pub open spec fn plane_blurred(buf: Seq<Single>, weights: Seq<Single>, w: int, h: int) -> Seq<Single> {
    if weights.len() == 0 {
        buf
    } else {
        smoothed(buf, weights, w, h)
    }
}

/// Smooths a plane of `w` by `h` numbers.
pub fn gaussian_blur_f32(buf: &Vec<Single>, w: usize, h: usize, weights: &Vec<Single>) -> (r: Vec<Single>)
    requires
        0 < w <= 0xffff_ffff,
        0 < h <= 0xffff_ffff,
        buf@.len() == w * h,
        weights@.len() <= 0xffff_ffff,
    ensures
        r@ == plane_blurred(buf@, weights@, w as int, h as int),
        r@.len() == buf@.len(),
{
    if weights.len() == 0 {
        let r: Vec<Single> = buf.clone();
        assert(r@ =~= buf@);
        r
    } else {
        crate::freqsep::gaussian_blur(buf, w, h, weights)
    }
}

/// Where the weight of a place beside the middle of a smoothing is taken: exp of this. `d` is
/// its distance, `radius` the radius of the smoothing.
pub open spec fn blur_exponent(d: int, radius: int) -> Single {
    // 2, 0.5
    let sigma = Single::spec_from_int(radius).over(num(0x4000_0000)).plus(num(0x3f00_0000));
    let x = Single::spec_from_int(d).over(sigma);
    num(0xbf00_0000).times(x.times(x))  // -0.5
}

/// Where the weight of a place beside the middle of a smoothing is taken: exp of this.
pub fn blur_exponent_of(d: i32, radius: u32) -> (r: Single)
    ensures
        r == blur_exponent(d as int, radius as int),
{
    // 2, 0.5
    let sigma: Single = Single::from_int(radius as i128).over(num(0x4000_0000)).plus(num(0x3f00_0000));
    let x: Single = Single::from_int(d as i128).over(sigma);
    num(0xbf00_0000).times(x.times(x))  // -0.5
}

/// A byte is what a blend makes of two numbers.
pub open spec fn blended_to<F: Fn(Single, Single) -> Single>(f: F, x: Single, y: Single, b: u8) -> bool {
    exists|v: Single| #[trigger] f.ensures((x, y), v) && b == limited_byte(v)
}

/// Blends two pictures of one size byte by byte.
pub fn blend2<F: Fn(Single, Single) -> Single>(a: &RgbImage, b: &RgbImage, f: F) -> (r: RgbImage)
    requires
        a.wf(),
        b.wf(),
        a.width == b.width,
        a.height == b.height,
        forall|x: Single, y: Single| #[trigger] f.requires((x, y)),
    ensures
        r.wf(),
        r.width == a.width,
        r.height == a.height,
        forall|i: int|
            0 <= i < r.data@.len() ==> blended_to(
                f,
                of_byte(a.data@[i]),
                of_byte(b.data@[i]),
                #[trigger] r.data@[i],
            ),
{
    let n: usize = a.data.len();
    let mut data: Vec<u8> = Vec::new();
    let mut i: usize = 0;
    while i < n
        invariant
            i <= n,
            a.data@.len() == n,
            b.data@.len() == n,
            data@.len() == i,
            forall|x: Single, y: Single| #[trigger] f.requires((x, y)),
            forall|j: int|
                0 <= j < i ==> blended_to(
                    f,
                    of_byte(a.data@[j]),
                    of_byte(b.data@[j]),
                    #[trigger] data@[j],
                ),
        decreases n - i,
    {
        let v: Single = f(of_byte(a.data[i]), of_byte(b.data[i]));
        data.push(limit_to_byte(v));
        i = i + 1;
    }
    RgbImage { width: a.width, height: a.height, data }
}

} // verus!
