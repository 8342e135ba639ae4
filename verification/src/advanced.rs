//! The advanced retouching stages, which run on the finished bytes: skin smoothing and detail by
//! scales.

use crate::lch::{of_byte, smoothstep};
use crate::raster::RgbImage;
use crate::single::{
    law_negation_is_opposite, law_one_is_neutral, law_order_is_numeric,
    law_small_integers_are_exact, law_whole_sums_are_exact, law_zero_is_neutral,
    law_zero_times_is_zero, num, Single, INFINITY,
};
use crate::spatial::{
    blurred, gaussian_blur, law_byte_reads_back, limit_to_byte, limited_byte, round_to_byte,
    rounded_byte,
};
use vstd::arithmetic::power2::pow2;
use vstd::prelude::*;

verus! {

/// Skin smoothing by frequency separation: the coarse layer is smoothed, of the fine one a part
/// is kept, and only skin is touched.
#[derive(Clone, Copy, Debug, PartialEq, Eq)]
pub struct FreqSepSkin {
    pub enabled: bool,
    /// Amount inside the skin, 0 to 1.
    pub strength: Single,
    /// Share of the fine texture that is kept, 0 to 1.
    pub texture_keep: Single,
    /// Width of the smoothing.
    pub smoothness: Single,
    /// Softness of the skin's edge.
    pub mask_feather: Single,
}

impl FreqSepSkin {
    pub open spec fn spec_default() -> FreqSepSkin {
        FreqSepSkin {
            enabled: false,
            strength: num(0x3f00_0000),  // 0.5
            texture_keep: num(0x3f4c_cccd),  // 0.8
            smoothness: num(0x3e99_999a),  // 0.3
            mask_feather: num(0x3f00_0000),  // 0.5
        }
    }
}

impl Default for FreqSepSkin {
    fn default() -> (r: FreqSepSkin)
        ensures
            r == FreqSepSkin::spec_default(),
    {
        FreqSepSkin {
            enabled: false,
            strength: num(0x3f00_0000),  // 0.5
            texture_keep: num(0x3f4c_cccd),  // 0.8
            smoothness: num(0x3e99_999a),  // 0.3
            mask_feather: num(0x3f00_0000),  // 0.5
        }
    }
}

impl FreqSepSkin {
    pub open spec fn spec_is_identity(self) -> bool {
        !self.enabled || self.strength.le(num(0))
    }

    /// The stage changes nothing.
    pub fn is_identity(&self) -> (r: bool)
        ensures
            r == self.spec_is_identity(),
    {
        !self.enabled || self.strength.le(num(0))
    }
}

/// Detail by scales: the differences between ever smoother copies, each with its own gain.
#[derive(Clone, Copy, Debug, PartialEq, Eq)]
pub struct PyramidFusion {
    pub enabled: bool,
    /// Strength, 0 to 1.
    pub strength: Single,
    /// Factor on the gains.
    pub detail_scale: Single,
}

impl PyramidFusion {
    pub open spec fn spec_default() -> PyramidFusion {
        PyramidFusion {
            enabled: false,
            strength: num(0x3f00_0000),  // 0.5
            detail_scale: num(0x3f80_0000),  // 1
        }
    }
}

impl Default for PyramidFusion {
    fn default() -> (r: PyramidFusion)
        ensures
            r == PyramidFusion::spec_default(),
    {
        PyramidFusion {
            enabled: false,
            strength: num(0x3f00_0000),  // 0.5
            detail_scale: num(0x3f80_0000),  // 1
        }
    }
}

impl PyramidFusion {
    pub open spec fn spec_is_identity(self) -> bool {
        !self.enabled || self.strength.le(num(0))
    }

    /// The stage changes nothing.
    pub fn is_identity(&self) -> (r: bool)
        ensures
            r == self.spec_is_identity(),
    {
        !self.enabled || self.strength.le(num(0))
    }
}

/// Both advanced stages.
#[derive(Clone, Copy, Debug, PartialEq, Eq)]
pub struct Advanced {
    pub freqsep: FreqSepSkin,
    pub pyramid: PyramidFusion,
}

impl Advanced {
    pub open spec fn spec_default() -> Advanced {
        Advanced {
            freqsep: FreqSepSkin::spec_default(),
            pyramid: PyramidFusion::spec_default(),
        }
    }
}

impl Default for Advanced {
    fn default() -> (r: Advanced)
        ensures
            r == Advanced::spec_default(),
    {
        Advanced {
            freqsep: FreqSepSkin::default(),
            pyramid: PyramidFusion::default(),
        }
    }
}

impl Advanced {
    pub open spec fn spec_is_identity(self) -> bool {
        self.freqsep.spec_is_identity() && self.pyramid.spec_is_identity()
    }

    /// The stage changes nothing.
    pub fn is_identity(&self) -> (r: bool)
        ensures
            r == self.spec_is_identity(),
    {
        self.freqsep.is_identity() && self.pyramid.is_identity()
    }
}

pub open spec fn spec_skin_exponent(red: Single, green: Single, blue: Single, feather: Single) -> Single {
    // 128, 0.168736, 0.331264, 0.5
    let cb: Single = num(0x4300_0000).minus(num(0x3e2c_c921).times(red)).minus(num(0x3ea9_9b6f).times(green)).plus(num(0x3f00_0000).times(blue));
    // 128, 0.5, 0.418688, 0.081312
    let cr: Single = num(0x4300_0000).plus(num(0x3f00_0000).times(red)).minus(num(0x3ed6_5e46).times(green)).minus(num(0x3da6_86e8).times(blue));
    let width: Single = num(0x4160_0000).plus(feather.times(num(0x41b0_0000)));  // 14, 22
    let dcb: Single = cb.minus(num(0x42cc_0000)).over(width);  // 102
    let dcr: Single = cr.minus(num(0x4319_0000)).over(width);  // 153
    num(0xbf00_0000).times(dcb.times(dcb).plus(dcr.times(dcr)))  // -0.5
}

/// Where the likeness of a colour to skin is taken: exp of this.
#[verifier::when_used_as_spec(spec_skin_exponent)]
pub fn skin_exponent(red: Single, green: Single, blue: Single, feather: Single) -> (r: Single)
    ensures
        r == spec_skin_exponent(red, green, blue, feather),
{
    // 128, 0.168736, 0.331264, 0.5
    let cb: Single = num(0x4300_0000).minus(num(0x3e2c_c921).times(red)).minus(num(0x3ea9_9b6f).times(green)).plus(num(0x3f00_0000).times(blue));
    // 128, 0.5, 0.418688, 0.081312
    let cr: Single = num(0x4300_0000).plus(num(0x3f00_0000).times(red)).minus(num(0x3ed6_5e46).times(green)).minus(num(0x3da6_86e8).times(blue));
    let width: Single = num(0x4160_0000).plus(feather.times(num(0x41b0_0000)));  // 14, 22
    let dcb: Single = cb.minus(num(0x42cc_0000)).over(width);  // 102
    let dcr: Single = cr.minus(num(0x4319_0000)).over(width);  // 153
    num(0xbf00_0000).times(dcb.times(dcb).plus(dcr.times(dcr)))  // -0.5
}

pub open spec fn spec_skin_prob(red: Single, green: Single, blue: Single, w: Single) -> Single {
    // 0.299, 0.587, 0.114
    let y: Single = num(0x3e99_1687).times(red).plus(num(0x3f16_45a2).times(green)).plus(num(0x3de9_78d5).times(blue));
    // 25, 65, 1, 205, 235
    let ly: Single = smoothstep(num(0x41c8_0000), num(0x4282_0000), y).times(num(0x3f80_0000).minus(smoothstep(num(0x434d_0000), num(0x436b_0000), y)));
    w.times(ly).clamp(num(0), num(0x3f80_0000))  // 1
}

/// How much a pixel counts as skin, 0 to 1: by its colour, `w`, and not too dark or bright.
#[verifier::when_used_as_spec(spec_skin_prob)]
pub fn skin_prob(red: Single, green: Single, blue: Single, w: Single) -> (r: Single)
    ensures
        r == spec_skin_prob(red, green, blue, w),
{
    // 0.299, 0.587, 0.114
    let y: Single = num(0x3e99_1687).times(red).plus(num(0x3f16_45a2).times(green)).plus(num(0x3de9_78d5).times(blue));
    // 25, 65, 1, 205, 235
    let ly: Single = smoothstep(num(0x41c8_0000), num(0x4282_0000), y).times(num(0x3f80_0000).minus(smoothstep(num(0x434d_0000), num(0x436b_0000), y)));
    w.times(ly).clamp(num(0), num(0x3f80_0000))  // 1
}

/// Radius of the smoothing of skin, in pixels.
pub open spec fn skin_radius(smoothness: Single) -> int {
    // 6, 18, 2, 28
    num(0x40c0_0000).plus(smoothness.times(num(0x4190_0000))).round().clamp(num(0x4000_0000), num(0x41e0_0000)).truncated(0, u32::MAX as int)
}

/// Radius of the smoothing of skin, in pixels.
pub fn skin_radius_of(smoothness: Single) -> (r: u32)
    ensures
        r == skin_radius(smoothness),
{
    // 6, 18, 2, 28
    num(0x40c0_0000).plus(smoothness.times(num(0x4190_0000))).round().clamp(num(0x4000_0000), num(0x41e0_0000)).to_u32()
}

pub open spec fn spec_smoothed_skin(s: Single, b: Single, m: Single, keep: Single) -> Single {
    let tex: Single = s.minus(b);
    let smooth: Single = b.plus(tex.times(keep));
    s.times(num(0x3f80_0000).minus(m)).plus(smooth.times(m))  // 1
}

/// A byte of a skin pixel: `s` as it is, `b` smoothed, `m` the share of the smoothed layer.
#[verifier::when_used_as_spec(spec_smoothed_skin)]
pub fn smoothed_skin(s: Single, b: Single, m: Single, keep: Single) -> (r: Single)
    ensures
        r == spec_smoothed_skin(s, b, m, keep),
{
    let tex: Single = s.minus(b);
    let smooth: Single = b.plus(tex.times(keep));
    s.times(num(0x3f80_0000).minus(m)).plus(smooth.times(m))  // 1
}

/// The share of the smoothed layer in pixel `k`.
pub open spec fn skin_share(data: Seq<u8>, k: int, p: FreqSepSkin, w: Single) -> Single {
    p.strength.times(
        skin_prob(of_byte(data[3 * k]), of_byte(data[3 * k + 1]), of_byte(data[3 * k + 2]), w),
    ).clamp(num(0), num(0x3f80_0000))  // 1
}

/// One byte of a picture with smoothed skin.
pub open spec fn skin_byte(
    data: Seq<u8>,
    base: Seq<u8>,
    i: int,
    p: FreqSepSkin,
    w: Single,
) -> int {
    rounded_byte(
        smoothed_skin(
            of_byte(data[i]),
            of_byte(base[i]),
            skin_share(data, i / 3, p, w),
            p.texture_keep,
        ),
    )
}

/// Smooths skin: `weights` are those of the smoothing, `likeness` holds for each pixel exp of
/// its skin exponent.
pub fn freq_sep_skin(
    img: &RgbImage,
    p: &FreqSepSkin,
    weights: &Vec<Single>,
    likeness: &Vec<Single>,
) -> (r: RgbImage)
    requires
        img.wf(),
        weights@.len() <= 0xffff_ffff,
        likeness@.len() == img.width * img.height,
    ensures
        r.wf(),
        r.width == img.width,
        r.height == img.height,
        forall|i: int|
            0 <= i < r.data@.len() ==> #[trigger] r.data@[i] == skin_byte(
                img.data@,
                blurred(img.data@, weights@, img.width as int, img.height as int),
                i,
                *p,
                likeness@[i / 3],
            ),
{
    let base: RgbImage = gaussian_blur(img, weights);
    let n: usize = likeness.len();
    proof {
        assert(img.data@.len() == 3 * (img.width * img.height)) by (nonlinear_arith)
            requires
                img.data@.len() == img.width * img.height * 3,
        ;
    }
    let mut data: Vec<u8> = Vec::new();
    let mut k: usize = 0;
    while k < n
        invariant
            k <= n,
            n == likeness@.len(),
            img.data@.len() == 3 * n,
            base.data@.len() == 3 * n,
            data@.len() == 3 * k,
            forall|i: int|
                0 <= i < 3 * k ==> #[trigger] data@[i] == skin_byte(
                    img.data@,
                    base.data@,
                    i,
                    *p,
                    likeness@[i / 3],
                ),
        decreases n - k,
    {
        let size: usize = img.data.len();
        let i: usize = 3 * k;
        // 1
        let m: Single = p.strength.times(skin_prob(of_byte(img.data[i]), of_byte(img.data[i + 1]), of_byte(img.data[i + 2]), likeness[k])).clamp(num(0), num(0x3f80_0000));
        let mut c: usize = 0;
        while c < 3
            invariant
                c <= 3,
                k < n,
                i == 3 * k,
                n == likeness@.len(),
                img.data@.len() == 3 * n,
                3 * n <= usize::MAX,
                base.data@.len() == 3 * n,
                m == skin_share(img.data@, k as int, *p, likeness@[k as int]),
                data@.len() == i + c,
                forall|j: int|
                    0 <= j < i + c ==> #[trigger] data@[j] == skin_byte(
                        img.data@,
                        base.data@,
                        j,
                        *p,
                        likeness@[j / 3],
                    ),
            decreases 3 - c,
        {
            let s: Single = of_byte(img.data[i + c]);
            let b: Single = of_byte(base.data[i + c]);
            data.push(round_to_byte(smoothed_skin(s, b, m, p.texture_keep)));
            assert((i + c) as int / 3 == k);
            c = c + 1;
        }
        k = k + 1;
    }
    RgbImage { width: img.width, height: img.height, data }
}

pub open spec fn spec_scale_gain(p: &PyramidFusion, part: Single) -> Single {
    if p.strength.same(num(0)) {
        num(0x3f80_0000)  // 1
    } else {
        num(0x3f80_0000).plus(p.strength.times(p.detail_scale).times(part))  // 1
    }
}

/// The gain of a scale: one where there is no strength.
#[verifier::when_used_as_spec(spec_scale_gain)]
pub fn scale_gain(p: &PyramidFusion, part: Single) -> (r: Single)
    ensures
        r == spec_scale_gain(p, part),
{
    if p.strength.same(num(0)) {
        num(0x3f80_0000)  // 1
    } else {
        num(0x3f80_0000).plus(p.strength.times(p.detail_scale).times(part))  // 1
    }
}

/// A value from five scales: the smoothest, and to it the detail of the first `k` scales with
/// their gains, finest first. The detail of a scale is what it has over the next, and may be
/// negative.
pub open spec fn fused_value(lows: Seq<Seq<u8>>, gains: Seq<Single>, i: int, k: int) -> Single
    decreases k,
{
    if k <= 0 {
        of_byte(lows[4][i])
    } else {
        fused_value(lows, gains, i, k - 1).plus(
            gains[k - 1].times(of_byte(lows[k - 1][i]).minus(of_byte(lows[k][i]))),
        )
    }
}

/// A picture from its five scales.
pub open spec fn fused(lows: Seq<Seq<u8>>, gains: Seq<Single>) -> Seq<u8> {
    Seq::new(lows[0].len(), |i: int| limited_byte(fused_value(lows, gains, i, 4)) as u8)
}

/// A picture and four ever smoother ones, each made from the one before.
pub open spec fn scales(data: Seq<u8>, kernels: Seq<Seq<Single>>, w: int, h: int) -> Seq<Seq<u8>> {
    let one = blurred(data, kernels[0], w, h);
    let two = blurred(one, kernels[1], w, h);
    let three = blurred(two, kernels[2], w, h);
    let four = blurred(three, kernels[3], w, h);
    seq![data, one, two, three, four]
}

/// The gains of the four scales: the middle ones most, the finest and coarsest less.
pub open spec fn scale_gains(p: PyramidFusion) -> Seq<Single> {
    seq![
        scale_gain(&p, num(0x3f00_0000)),  // 0.5
        scale_gain(&p, num(0x3f80_0000)),  // 1
        scale_gain(&p, num(0x3f4c_cccd)),  // 0.8
        scale_gain(&p, num(0x3e99_999a)),  // 0.3
    ]
}

fn scale_detail(g: Single, a: u8, b: u8) -> (r: Single)
    ensures
        r == g.times(of_byte(a).minus(of_byte(b))),
{
    g.times(of_byte(a).minus(of_byte(b)))
}

/// The radii of the four smoothings.
pub open spec fn scale_radii() -> Seq<u32> {
    seq![2, 4, 8, 16]
}

/// The radii of the four smoothings.
pub fn pyramid_radii() -> (r: [u32; 4])
    ensures
        r@ == scale_radii(),
{
    let r: [u32; 4] = [2, 4, 8, 16];
    assert(r@ =~= scale_radii());
    r
}

/// Enhances detail by scales. The four lists are the weights of the smoothings.
pub fn pyramid_fusion(
    img: &RgbImage,
    p: &PyramidFusion,
    k1: &Vec<Single>,
    k2: &Vec<Single>,
    k3: &Vec<Single>,
    k4: &Vec<Single>,
) -> (r: RgbImage)
    requires
        img.wf(),
        k1@.len() <= 0xffff_ffff,
        k2@.len() <= 0xffff_ffff,
        k3@.len() <= 0xffff_ffff,
        k4@.len() <= 0xffff_ffff,
    ensures
        r.wf(),
        r.width == img.width,
        r.height == img.height,
        r.data@ == fused(
            scales(
                img.data@,
                seq![k1@, k2@, k3@, k4@],
                img.width as int,
                img.height as int,
            ),
            scale_gains(*p),
        ),
        p.strength.same(num(0)) ==> r.data@ == img.data@,
{
    let a: RgbImage = gaussian_blur(img, k1);
    let b: RgbImage = gaussian_blur(&a, k2);
    let c: RgbImage = gaussian_blur(&b, k3);
    let d: RgbImage = gaussian_blur(&c, k4);
    let g1: Single = scale_gain(p, num(0x3f00_0000));  // 0.5
    let g2: Single = scale_gain(p, num(0x3f80_0000));  // 1
    let g3: Single = scale_gain(p, num(0x3f4c_cccd));  // 0.8
    let g4: Single = scale_gain(p, num(0x3e99_999a));  // 0.3
    let ghost lows = scales(
        img.data@,
        seq![k1@, k2@, k3@, k4@],
        img.width as int,
        img.height as int,
    );
    let ghost gains = scale_gains(*p);
    let n: usize = img.data.len();
    let mut data: Vec<u8> = Vec::new();
    let mut i: usize = 0;
    while i < n
        invariant
            i <= n,
            n == img.data@.len(),
            a.data@.len() == n,
            b.data@.len() == n,
            c.data@.len() == n,
            d.data@.len() == n,
            lows == seq![img.data@, a.data@, b.data@, c.data@, d.data@],
            gains == seq![g1, g2, g3, g4],
            data@.len() == i,
            forall|j: int|
                0 <= j < i ==> #[trigger] data@[j] == limited_byte(fused_value(lows, gains, j, 4)),
        decreases n - i,
    {
        let v1: Single = of_byte(d.data[i]).plus(scale_detail(g1, img.data[i], a.data[i]));
        let v2: Single = v1.plus(scale_detail(g2, a.data[i], b.data[i]));
        let v3: Single = v2.plus(scale_detail(g3, b.data[i], c.data[i]));
        let v4: Single = v3.plus(scale_detail(g4, c.data[i], d.data[i]));
        proof {
            reveal_with_fuel(fused_value, 5);
            assert(v4 == fused_value(lows, gains, i as int, 4));
        }
        data.push(limit_to_byte(v4));
        i = i + 1;
    }
    proof {
        assert(data@ =~= fused(lows, gains));
        if p.strength.same(num(0)) {
            law_no_strength_keeps_picture(lows, *p);
        }
    }
    RgbImage { width: img.width, height: img.height, data }
}

/// Without strength every gain is one, and the scales add up to the picture that they were made
/// from.
pub proof fn law_no_strength_keeps_picture(lows: Seq<Seq<u8>>, p: PyramidFusion)
    requires
        p.strength.same(num(0)),
        lows.len() == 5,
    ensures
        fused(lows, scale_gains(p)) == lows[0],
{
    let gains = scale_gains(p);
    assert forall|i: int| 0 <= i < lows[0].len() implies #[trigger] fused(lows, gains)[i]
        == lows[0][i] by {
        let a = lows[0][i];
        let b = lows[1][i];
        let c = lows[2][i];
        let d = lows[3][i];
        let e = lows[4][i];
        let one = num(0x3f80_0000);
        let x = lemma_detail_of_one(a, b);
        let y = lemma_detail_of_one(b, c);
        let z = lemma_detail_of_one(c, d);
        let t = lemma_detail_of_one(d, e);
        law_small_integers_are_exact(e as int);
        law_whole_sums_are_exact(of_byte(e), x, e as int, a - b);
        let v1 = of_byte(e).plus(x);
        law_whole_sums_are_exact(v1, y, e + a - b, b - c);
        let v2 = v1.plus(y);
        law_whole_sums_are_exact(v2, z, e + a - c, c - d);
        let v3 = v2.plus(z);
        law_whole_sums_are_exact(v3, t, e + a - d, d - e);
        let v4 = v3.plus(t);
        reveal_with_fuel(fused_value, 5);
        assert(v4 == fused_value(lows, gains, i, 4));
        law_small_integers_are_exact(a as int);
        law_order_is_numeric(v4, of_byte(a));
        law_byte_reads_back(v4, a);
    }
    assert(fused(lows, gains) =~= lows[0]);
}

proof fn lemma_detail_of_one(a: u8, b: u8) -> (r: Single)
    ensures
        r == num(0x3f80_0000).times(of_byte(a).minus(of_byte(b))),
        r.value() == (a - b) * pow2(149),
        r.magnitude() < INFINITY,
{
    let x = of_byte(a);
    let y = of_byte(b);
    law_small_integers_are_exact(a as int);
    law_small_integers_are_exact(b as int);
    law_negation_is_opposite(y);
    assert(-(b * pow2(149)) == (-b) * pow2(149)) by (nonlinear_arith);
    law_whole_sums_are_exact(x, y.negated(), a as int, -b);
    law_one_is_neutral(x.minus(y));
    x.minus(y)
}

/// The bytes of a picture with smoothed skin.
pub open spec fn skin_bytes(
    data: Seq<u8>,
    p: FreqSepSkin,
    weights: Seq<Single>,
    likeness: Seq<Single>,
    w: int,
    h: int,
) -> Seq<u8> {
    Seq::new(
        data.len(),
        |i: int| skin_byte(data, blurred(data, weights, w, h), i, p, likeness[i / 3]) as u8,
    )
}

/// The bytes of a picture after both advanced stages, skin first, each only where it is set.
pub open spec fn advanced_bytes(
    data: Seq<u8>,
    a: Advanced,
    weights: Seq<Single>,
    likeness: Seq<Single>,
    kernels: Seq<Seq<Single>>,
    w: int,
    h: int,
) -> Seq<u8> {
    let one = if a.freqsep.spec_is_identity() {
        data
    } else {
        skin_bytes(data, a.freqsep, weights, likeness, w, h)
    };
    if a.pyramid.spec_is_identity() {
        one
    } else {
        fused(scales(one, kernels, w, h), scale_gains(a.pyramid))
    }
}

/// Runs both advanced stages. `weights` and `likeness` are for the smoothing of skin, the four
/// lists after them are the weights of the scales.
pub fn apply_advanced(
    img: RgbImage,
    a: &Advanced,
    weights: &Vec<Single>,
    likeness: &Vec<Single>,
    k1: &Vec<Single>,
    k2: &Vec<Single>,
    k3: &Vec<Single>,
    k4: &Vec<Single>,
) -> (r: RgbImage)
    requires
        img.wf(),
        weights@.len() <= 0xffff_ffff,
        a.freqsep.spec_is_identity() || likeness@.len() == img.width * img.height,
        k1@.len() <= 0xffff_ffff,
        k2@.len() <= 0xffff_ffff,
        k3@.len() <= 0xffff_ffff,
        k4@.len() <= 0xffff_ffff,
    ensures
        r.wf(),
        r.width == img.width,
        r.height == img.height,
        r.data@ == advanced_bytes(
            img.data@,
            *a,
            weights@,
            likeness@,
            seq![k1@, k2@, k3@, k4@],
            img.width as int,
            img.height as int,
        ),
{
    let mut out: RgbImage = img.clone();
    if !a.freqsep.is_identity() {
        out = freq_sep_skin(&img, &a.freqsep, weights, likeness);
        assert(out.data@ =~= skin_bytes(
            img.data@,
            a.freqsep,
            weights@,
            likeness@,
            img.width as int,
            img.height as int,
        ));
    }
    if !a.pyramid.is_identity() {
        out = pyramid_fusion(&out, &a.pyramid, k1, k2, k3, k4);
    }
    out
}

/// Settings that change nothing change no byte.
pub proof fn law_identity_keeps_bytes(
    data: Seq<u8>,
    a: Advanced,
    weights: Seq<Single>,
    likeness: Seq<Single>,
    kernels: Seq<Seq<Single>>,
    w: int,
    h: int,
)
    requires
        a.spec_is_identity(),
    ensures
        advanced_bytes(data, a, weights, likeness, kernels, w, h) == data,
{
}

/// What is not skin stays as it is: where the share of the smoothed layer is zero and the layer
/// is finite, the byte does not change.
pub proof fn law_no_share_keeps_byte(s: u8, b: u8, keep: Single)
    requires
        of_byte(b).plus(of_byte(s).minus(of_byte(b)).times(keep)).magnitude() < INFINITY,
    ensures
        rounded_byte(smoothed_skin(of_byte(s), of_byte(b), num(0), keep)) == s,
{
    let x = of_byte(s);
    let smooth = of_byte(b).plus(x.minus(of_byte(b)).times(keep));
    law_small_integers_are_exact(s as int);
    law_zero_is_neutral(num(0x3f80_0000), num(0).negated());
    law_one_is_neutral(x);
    law_zero_times_is_zero(smooth);
    law_zero_is_neutral(x, smooth.times(num(0)));
    law_byte_reads_back(x.plus(smooth.times(num(0))), s);
}

} // verus!
