//! The finishing stages: denoising, sharpening and glow.

use crate::lch::{of_byte, smoothstep};
use crate::raster::RgbImage;
use crate::single::{
    law_small_differences_are_finite, law_small_integers_are_exact, law_zero_is_neutral,
    law_zero_times_is_zero, num, Single,
};
use crate::spatial::{
    blurred, gaussian_blur, law_byte_reads_back, limit_to_byte, limited_byte, luma, round_to_byte,
    rounded_byte,
};
use vstd::prelude::*;

verus! {

/// Strengths of the finishing stages, 0 to 1; 0 is off.
#[derive(Clone, Copy, Debug, PartialEq, Eq)]
pub struct Detail {
    pub denoise: Single,
    pub sharpen: Single,
    pub diffuse: Single,
}

impl Detail {
    pub open spec fn spec_default() -> Detail {
        Detail {
            denoise: num(0),  // 0
            sharpen: num(0),  // 0
            diffuse: num(0),  // 0
        }
    }
}

impl Default for Detail {
    fn default() -> (r: Detail)
        ensures
            r == Detail::spec_default(),
    {
        Detail {
            denoise: num(0),  // 0
            sharpen: num(0),  // 0
            diffuse: num(0),  // 0
        }
    }
}

impl Detail {
    pub open spec fn spec_is_identity(self) -> bool {
        self.denoise.le(num(0)) && self.sharpen.le(num(0)) && self.diffuse.le(num(0))
    }

    /// The stage changes nothing.
    pub fn is_identity(&self) -> (r: bool)
        ensures
            r == self.spec_is_identity(),
    {
        self.denoise.le(num(0)) && self.sharpen.le(num(0)) && self.diffuse.le(num(0))
    }
}

pub open spec fn spec_range_factor(strength: Single) -> Single {
    let sigma: Single = num(0x40c0_0000).plus(strength.times(num(0x4248_0000)));  // 6, 50
    num(0x3f80_0000).over(num(0x4000_0000).times(sigma).times(sigma))  // 1, 2
}

/// The factor on squared differences in brightness that denoising evens out.
#[verifier::when_used_as_spec(spec_range_factor)]
pub fn range_factor(strength: Single) -> (r: Single)
    ensures
        r == spec_range_factor(strength),
{
    let sigma: Single = num(0x40c0_0000).plus(strength.times(num(0x4248_0000)));  // 6, 50
    num(0x3f80_0000).over(num(0x4000_0000).times(sigma).times(sigma))  // 1, 2
}

pub open spec fn spec_range_exponent(there: Single, here: Single, factor: Single) -> Single {
    let d: Single = there.minus(here);
    d.times(d).negated().times(factor)
}

/// Where the weight of a difference in brightness is taken: exp of this.
#[verifier::when_used_as_spec(spec_range_exponent)]
pub fn range_exponent(there: Single, here: Single, factor: Single) -> (r: Single)
    ensures
        r == spec_range_exponent(there, here, factor),
{
    let d: Single = there.minus(here);
    d.times(d).negated().times(factor)
}

/// Where the weight of a place beside a pixel is taken: exp of this. Places are numbered row by
/// row, five by five around the pixel.
pub open spec fn place_exponent(t: int) -> Single {
    let dx = t % 5 - 2;
    let dy = t / 5 - 2;
    // -0.5, 2, 2
    num(0xbf00_0000).times(Single::spec_from_int(dx * dx + dy * dy)).over(num(0x4000_0000).times(num(0x4000_0000)))
}

/// Where the weight of a place beside a pixel is taken: exp of this.
pub fn place_exponent_of(t: usize) -> (r: Single)
    requires
        t < 25,
    ensures
        r == place_exponent(t as int),
{
    let dx: i128 = (t % 5) as i128 - 2;
    let dy: i128 = (t / 5) as i128 - 2;
    assert(-2 <= dx <= 2 && -2 <= dy <= 2);
    assert(dx * dx <= 4) by (nonlinear_arith)
        requires
            -2 <= dx <= 2,
    ;
    assert(dy * dy <= 4) by (nonlinear_arith)
        requires
            -2 <= dy <= 2,
    ;
    assert(dx * dx >= 0 && dy * dy >= 0) by (nonlinear_arith);
    // -0.5, 2, 2
    num(0xbf00_0000).times(Single::from_int(dx * dx + dy * dy)).over(num(0x4000_0000).times(num(0x4000_0000)))
}

/// A place beside a pixel lies in the picture.
pub open spec fn place_inside(w: int, h: int, x: int, y: int, t: int) -> bool {
    0 <= x + t % 5 - 2 < w && 0 <= y + t / 5 - 2 < h
}

/// The weights of the first `k` places, added up.
pub open spec fn place_weights(
    w: int,
    h: int,
    x: int,
    y: int,
    places: Seq<Single>,
    ranges: Seq<Single>,
    k: int,
) -> Single
    decreases k,
{
    if k <= 0 {
        num(0)
    } else {
        let before = place_weights(w, h, x, y, places, ranges, k - 1);
        if place_inside(w, h, x, y, k - 1) {
            before.plus(places[k - 1].times(ranges[k - 1]))
        } else {
            before
        }
    }
}

/// One channel at the first `k` places, weighted and added up.
pub open spec fn place_sum(
    img: RgbImage,
    x: int,
    y: int,
    c: int,
    places: Seq<Single>,
    ranges: Seq<Single>,
    k: int,
) -> Single
    decreases k,
{
    if k <= 0 {
        num(0)
    } else {
        let before = place_sum(img, x, y, c, places, ranges, k - 1);
        let t = k - 1;
        if place_inside(img.width as int, img.height as int, x, y, t) {
            before.plus(
                of_byte(img.at(x + t % 5 - 2, y + t / 5 - 2, c)).times(
                    places[t].times(ranges[t]),
                ),
            )
        } else {
            before
        }
    }
}

/// One channel of a denoised pixel: the weighted mean of its surroundings.
pub open spec fn denoised(
    img: RgbImage,
    x: int,
    y: int,
    c: int,
    places: Seq<Single>,
    ranges: Seq<Single>,
) -> int {
    let sum = place_weights(img.width as int, img.height as int, x, y, places, ranges, 25);
    if sum.gt(num(0)) {
        rounded_byte(place_sum(img, x, y, c, places, ranges, 25).over(sum))
    } else {
        img.at(x, y, c) as int
    }
}

fn denoise_channel(
    img: &RgbImage,
    x: u32,
    y: u32,
    c: usize,
    places: &Vec<Single>,
    ranges: &Vec<Single>,
) -> (r: u8)
    requires
        img.wf(),
        x < img.width,
        y < img.height,
        c < 3,
        places@.len() == 25,
        ranges@.len() == 25,
    ensures
        r == denoised(*img, x as int, y as int, c as int, places@, ranges@),
{
    let mut acc: Single = num(0);
    let mut sum: Single = num(0);
    let mut t: usize = 0;
    while t < 25
        invariant
            t <= 25,
            img.wf(),
            x < img.width,
            y < img.height,
            c < 3,
            places@.len() == 25,
            ranges@.len() == 25,
            sum == place_weights(
                img.width as int,
                img.height as int,
                x as int,
                y as int,
                places@,
                ranges@,
                t as int,
            ),
            acc == place_sum(*img, x as int, y as int, c as int, places@, ranges@, t as int),
        decreases 25 - t,
    {
        let nx: i64 = x as i64 + (t % 5) as i64 - 2;
        let ny: i64 = y as i64 + (t / 5) as i64 - 2;
        if 0 <= nx && nx < img.width as i64 && 0 <= ny && ny < img.height as i64 {
            let i: usize = img.offset(nx as u32, ny as u32);
            let w: Single = places[t].times(ranges[t]);
            acc = acc.plus(of_byte(img.data[i + c]).times(w));
            sum = sum.plus(w);
        }
        t = t + 1;
    }
    if sum.gt(num(0)) {
        round_to_byte(acc.over(sum))
    } else {
        let i: usize = img.offset(x, y);
        img.data[i + c]
    }
}

/// Denoises one pixel. `places` are the weights of the places beside it, divided by their sum;
/// `ranges` are the weights of their differences in brightness.
pub fn denoise_pixel(img: &RgbImage, x: u32, y: u32, places: &Vec<Single>, ranges: &Vec<Single>) -> (r:
    (u8, u8, u8))
    requires
        img.wf(),
        x < img.width,
        y < img.height,
        places@.len() == 25,
        ranges@.len() == 25,
    ensures
        r.0 == denoised(*img, x as int, y as int, 0, places@, ranges@),
        r.1 == denoised(*img, x as int, y as int, 1, places@, ranges@),
        r.2 == denoised(*img, x as int, y as int, 2, places@, ranges@),
{
    (
        denoise_channel(img, x, y, 0, places, ranges),
        denoise_channel(img, x, y, 1, places, ranges),
        denoise_channel(img, x, y, 2, places, ranges),
    )
}

/// Where the weight of the brightness at a place beside a pixel is taken, with a factor for the
/// spread: exp of this. Outside the picture it is zero, and the weight is not used.
pub open spec fn range_point(img: RgbImage, x: int, y: int, factor: Single, t: int) -> Single {
    if place_inside(img.width as int, img.height as int, x, y, t) {
        let u = x + t % 5 - 2;
        let v = y + t / 5 - 2;
        range_exponent(
            luma(img.at(u, v, 0), img.at(u, v, 1), img.at(u, v, 2)),
            luma(img.at(x, y, 0), img.at(x, y, 1), img.at(x, y, 2)),
            factor,
        )
    } else {
        num(0)
    }
}

/// Where the weights of the brightness around a pixel are taken.
pub fn range_points(img: &RgbImage, x: u32, y: u32, factor: Single) -> (r: Vec<Single>)
    requires
        img.wf(),
        x < img.width,
        y < img.height,
    ensures
        r@.len() == 25,
        forall|t: int|
            0 <= t < 25 ==> #[trigger] r@[t] == range_point(*img, x as int, y as int, factor, t),
{
    let here: usize = img.offset(x, y);
    let lc: Single = luma(img.data[here], img.data[here + 1], img.data[here + 2]);
    let mut r: Vec<Single> = Vec::new();
    let mut t: usize = 0;
    while t < 25
        invariant
            t <= 25,
            img.wf(),
            x < img.width,
            y < img.height,
            lc == luma(
                img.at(x as int, y as int, 0),
                img.at(x as int, y as int, 1),
                img.at(x as int, y as int, 2),
            ),
            r@.len() == t,
            forall|j: int|
                0 <= j < t ==> #[trigger] r@[j] == range_point(*img, x as int, y as int, factor, j),
        decreases 25 - t,
    {
        let nx: i64 = x as i64 + (t % 5) as i64 - 2;
        let ny: i64 = y as i64 + (t / 5) as i64 - 2;
        if 0 <= nx && nx < img.width as i64 && 0 <= ny && ny < img.height as i64 {
            let i: usize = img.offset(nx as u32, ny as u32);
            let there: Single = luma(img.data[i], img.data[i + 1], img.data[i + 2]);
            r.push(range_exponent(there, lc, factor));
        } else {
            r.push(num(0));
        }
        t = t + 1;
    }
    r
}

pub open spec fn spec_glow_share(amount: Single, red: u8, green: u8, blue: u8) -> Single {
    // 0.45, 0.95, 255
    amount.times(smoothstep(num(0x3ee6_6666), num(0x3f73_3333), luma(red, green, blue).over(num(0x437f_0000))))
}

/// How much a pixel glows: bright ones only.
#[verifier::when_used_as_spec(spec_glow_share)]
pub fn glow_share(amount: Single, red: u8, green: u8, blue: u8) -> (r: Single)
    ensures
        r == spec_glow_share(amount, red, green, blue),
{
    // 0.45, 0.95, 255
    amount.times(smoothstep(num(0x3ee6_6666), num(0x3f73_3333), luma(red, green, blue).over(num(0x437f_0000))))
}

/// One byte of a glowing picture: drawn towards the smoothed one.
pub open spec fn glowing(share: Single, s: u8, b: u8) -> int {
    limited_byte(of_byte(s).plus(share.times(of_byte(b).minus(of_byte(s)))))
}

/// The radius of the smoothing that a glow is drawn towards.
pub const GLOW_RADIUS: u32 = 6;

/// Makes the bright parts of a picture glow. `weights` are those of the smoothing, whose radius
/// is `GLOW_RADIUS`.
pub fn glow(img: &RgbImage, amount: Single, weights: &Vec<Single>) -> (r: RgbImage)
    requires
        img.wf(),
        weights@.len() == 2 * GLOW_RADIUS + 1,
    ensures
        r.wf(),
        r.width == img.width,
        r.height == img.height,
        forall|i: int|
            0 <= i < r.data@.len() ==> #[trigger] r.data@[i] == glowing(
                spec_glow_share(
                    amount,
                    img.data@[i / 3 * 3],
                    img.data@[i / 3 * 3 + 1],
                    img.data@[i / 3 * 3 + 2],
                ),
                img.data@[i],
                blurred(img.data@, weights@, img.width as int, img.height as int)[i],
            ),
{
    let blur: RgbImage = gaussian_blur(img, weights);
    let n: usize = img.data.len() / 3;
    proof {
        assert(img.data@.len() == 3 * (img.width * img.height)) by (nonlinear_arith)
            requires
                img.data@.len() == img.width * img.height * 3,
        ;
    }
    let mut data: Vec<u8> = Vec::new();
    let mut k: usize = 0;
    while k < n
        invariant
            k <= n,
            img.data@.len() == 3 * n,
            blur.data@.len() == 3 * n,
            data@.len() == 3 * k,
            forall|i: int|
                0 <= i < 3 * k ==> #[trigger] data@[i] == glowing(
                    spec_glow_share(
                        amount,
                        img.data@[i / 3 * 3],
                        img.data@[i / 3 * 3 + 1],
                        img.data@[i / 3 * 3 + 2],
                    ),
                    img.data@[i],
                    blur.data@[i],
                ),
        decreases n - k,
    {
        let size: usize = img.data.len();
        let i: usize = 3 * k;
        let g: Single = glow_share(amount, img.data[i], img.data[i + 1], img.data[i + 2]);
        let mut c: usize = 0;
        while c < 3
            invariant
                c <= 3,
                k < n,
                i == 3 * k,
                img.data@.len() == 3 * n,
                3 * n <= usize::MAX,
                blur.data@.len() == 3 * n,
                g == spec_glow_share(
                    amount,
                    img.data@[i as int],
                    img.data@[i + 1],
                    img.data@[i + 2],
                ),
                data@.len() == i + c,
                forall|j: int|
                    0 <= j < i + c ==> #[trigger] data@[j] == glowing(
                        spec_glow_share(
                            amount,
                            img.data@[j / 3 * 3],
                            img.data@[j / 3 * 3 + 1],
                            img.data@[j / 3 * 3 + 2],
                        ),
                        img.data@[j],
                        blur.data@[j],
                    ),
            decreases 3 - c,
        {
            let s: Single = of_byte(img.data[i + c]);
            let b: Single = of_byte(blur.data[i + c]);
            data.push(limit_to_byte(s.plus(g.times(b.minus(s)))));
            assert((i + c) as int / 3 * 3 == i);
            c = c + 1;
        }
        k = k + 1;
    }
    RgbImage { width: img.width, height: img.height, data }
}

/// One of the finishing stages.
#[derive(Clone, Copy, Debug, PartialEq, Eq, Structural)]
pub enum Finish {
    Denoise,
    Sharpen,
    Glow,
}

/// The finishing stages that are set, in their order.
pub open spec fn steps_of(d: Detail) -> Seq<Finish> {
    let a = if d.denoise.gt(num(0)) {
        seq![Finish::Denoise]
    } else {
        seq![]
    };
    let b = if d.sharpen.gt(num(0)) {
        a.push(Finish::Sharpen)
    } else {
        a
    };
    if d.diffuse.gt(num(0)) {
        b.push(Finish::Glow)
    } else {
        b
    }
}

/// The finishing stages that are set: denoising, then sharpening, then glow.
pub fn detail_steps(d: &Detail) -> (r: Vec<Finish>)
    ensures
        r@ == steps_of(*d),
{
    let mut r: Vec<Finish> = Vec::new();
    if d.denoise.gt(num(0)) {
        r.push(Finish::Denoise);
    }
    if d.sharpen.gt(num(0)) {
        r.push(Finish::Sharpen);
    }
    if d.diffuse.gt(num(0)) {
        r.push(Finish::Glow);
    }
    assert(r@ =~= steps_of(*d));
    r
}

/// Settings that change nothing set no stage, and, where none is undefined, only those do.
pub proof fn law_identity_finishes_nothing(d: Detail)
    ensures
        d.spec_is_identity() ==> steps_of(d).len() == 0,
        steps_of(d).len() == 0 && !d.denoise.is_nan() && !d.sharpen.is_nan() && !d.diffuse.is_nan()
            ==> d.spec_is_identity(),
{
}

/// Where there is no glow, no byte changes.
pub proof fn law_no_share_keeps_byte(s: u8, b: u8)
    ensures
        glowing(num(0), s, b) == s,
{
    law_small_differences_are_finite(b as int, s as int);
    law_zero_times_is_zero(of_byte(b).minus(of_byte(s)));
    law_small_integers_are_exact(s as int);
    let z = num(0).times(of_byte(b).minus(of_byte(s)));
    law_zero_is_neutral(of_byte(s), z);
    law_byte_reads_back(of_byte(s).plus(z), s);
}

} // verus!
