//! Measurements of a picture: lightness, chroma, hue, skin, clipping.
//!
//! A caller reads each pixel's lightness, chroma and hue. Counting, percentiles, sums and the
//! rules on which pixel counts stand here; sines, cosines and angles are handed in.

use crate::double::{mean_of, percent_of, sum_of_all, sum_where, wide, Double};
use crate::raster::RgbImage;
use crate::single::{num, Single};
use vstd::prelude::*;

verus! {

/// Lightness of a picture, 0 black to 1 white.
#[derive(Clone, Copy, Debug, PartialEq, Eq, Structural)]
pub struct ToneMetrics {
    pub mean_l: Single,
    pub std_l: Single,
    pub min_l: Single,
    pub max_l: Single,
    pub median_l: Single,
    /// A quarter of the pixels is darker.
    pub p25_l: Single,
    /// A quarter of the pixels is brighter.
    pub p75_l: Single,
    /// Percentage of pixels brighter than 0.6.
    pub bright_area_pct: Single,
    /// Percentage of pixels darker than 0.2.
    pub dark_area_pct: Single,
}

/// Chroma and hue of a picture.
#[derive(Clone, Copy, Debug, PartialEq, Eq)]
pub struct ColorMetrics {
    pub mean_c: Single,
    /// Mean hue in degrees, weighted by chroma.
    pub mean_h_deg: Single,
    /// How much one hue prevails, 0 to 1.
    pub hue_peakiness: Single,
    /// Mean chroma of each eighth of the hue circle.
    pub per_hue_chroma: [Single; 8],
}

/// The pixels that look like skin.
#[derive(Clone, Copy, Debug, PartialEq, Eq, Structural)]
pub struct SkinMetrics {
    /// Share of the picture, 0 to 1.
    pub ratio: Single,
    pub mean_c: Single,
    pub mean_h_deg: Single,
    pub mean_l: Single,
}

/// Clipped pixels, in percent.
#[derive(Clone, Copy, Debug, PartialEq, Eq, Structural)]
pub struct ExposureMetrics {
    /// A channel is at 255.
    pub highlight_clip_pct: Single,
    /// A channel is at 0.
    pub shadow_clip_pct: Single,
}

/// Colours that leave the gamut.
#[derive(Clone, Copy, Debug, PartialEq, Eq, Structural)]
pub struct GamutMetrics {
    /// Percentage of pixels.
    pub clip_pct: Single,
    pub max_c: Single,
}

/// The cast over the whole picture.
#[derive(Clone, Copy, Debug, PartialEq, Eq, Structural)]
pub struct CastMetrics {
    pub hue_deg: Single,
    pub chroma: Single,
}

/// All measurements of one picture.
#[derive(Clone, Copy, Debug, PartialEq, Eq)]
pub struct ImageMetrics {
    pub width: u32,
    pub height: u32,
    pub tone: ToneMetrics,
    pub color: ColorMetrics,
    pub skin: SkinMetrics,
    pub exposure: ExposureMetrics,
    pub gamut: GamutMetrics,
    pub cast: CastMetrics,
    /// Largest lightness less smallest.
    pub dynamic_range: Single,
}

/// What is read of one pixel.
#[derive(Clone, Copy, Debug, PartialEq, Eq, Structural)]
pub struct Reading {
    pub l: Single,
    pub c: Single,
    /// Hue in degrees, 0 to 360.
    pub hue: Single,
    /// Cosine of the hue.
    pub cos: Single,
    /// Sine of the hue.
    pub sin: Single,
    /// How close the hue is to that of skin: exp of `skin_exponent`.
    pub skin_hue: Single,
    /// The colour lies in the gamut.
    pub inside: bool,
}

pub open spec fn spec_skin_exponent(hue: Single) -> Single {
    let h: Single = hue.rem_euclid(num(0x43b4_0000));  // 360
    // 30, 360, 30
    let dh: Single = h.minus(num(0x41f0_0000)).abs().min(num(0x43b4_0000).minus(h.minus(num(0x41f0_0000)).abs()));
    // 2, 18, 18
    dh.times(dh).negated().over(num(0x4000_0000).times(num(0x4190_0000)).times(num(0x4190_0000)))
}

/// Where the closeness of a hue to skin is taken: exp of this.
#[verifier::when_used_as_spec(spec_skin_exponent)]
pub fn skin_exponent(hue: Single) -> (r: Single)
    ensures
        r == spec_skin_exponent(hue),
{
    let h: Single = hue.rem_euclid(num(0x43b4_0000));  // 360
    // 30, 360, 30
    let dh: Single = h.minus(num(0x41f0_0000)).abs().min(num(0x43b4_0000).minus(h.minus(num(0x41f0_0000)).abs()));
    // 2, 18, 18
    dh.times(dh).negated().over(num(0x4000_0000).times(num(0x4190_0000)).times(num(0x4190_0000)))
}

pub open spec fn spec_skin_prob(p: &Reading) -> Single {
    let a: Single = if p.l.lt(num(0x3e38_51ec)) || p.l.gt(num(0x3f59_999a)) {  // 0.18, 0.85
        p.skin_hue.times(num(0x3e4c_cccd))  // 0.2
    } else {
        p.skin_hue
    };
    if p.c.lt(num(0x3ca3_d70a)) || p.c.gt(num(0x3e4c_cccd)) {  // 0.02, 0.2
        a.times(num(0x3e99_999a))  // 0.3
    } else {
        a
    }
}

/// How much a pixel looks like skin: less so where it is dark or bright, and where it is dull
/// or vivid.
#[verifier::when_used_as_spec(spec_skin_prob)]
pub fn skin_prob(p: &Reading) -> (r: Single)
    ensures
        r == spec_skin_prob(p),
{
    let a: Single = if p.l.lt(num(0x3e38_51ec)) || p.l.gt(num(0x3f59_999a)) {  // 0.18, 0.85
        p.skin_hue.times(num(0x3e4c_cccd))  // 0.2
    } else {
        p.skin_hue
    };
    if p.c.lt(num(0x3ca3_d70a)) || p.c.gt(num(0x3e4c_cccd)) {  // 0.02, 0.2
        a.times(num(0x3e99_999a))  // 0.3
    } else {
        a
    }
}

pub open spec fn spec_in_gamut(red: Single, green: Single, blue: Single) -> bool {
    // -0.0001, 1, 0.0001, -0.0001, 1, 0.0001, -0.0001, 1, 0.0001
    red.ge(num(0xb8d1_b717)) && red.le(num(0x3f80_0000).plus(num(0x38d1_b717)))
        && green.ge(num(0xb8d1_b717)) && green.le(num(0x3f80_0000).plus(num(0x38d1_b717)))
        && blue.ge(num(0xb8d1_b717)) && blue.le(num(0x3f80_0000).plus(num(0x38d1_b717)))
}

/// A colour lies in the gamut: each linear channel is from 0 to 1, up to a ten-thousandth.
#[verifier::when_used_as_spec(spec_in_gamut)]
pub fn in_gamut(red: Single, green: Single, blue: Single) -> (r: bool)
    ensures
        r == spec_in_gamut(red, green, blue),
{
    // -0.0001, 1, 0.0001, -0.0001, 1, 0.0001, -0.0001, 1, 0.0001
    red.ge(num(0xb8d1_b717)) && red.le(num(0x3f80_0000).plus(num(0x38d1_b717)))
        && green.ge(num(0xb8d1_b717)) && green.le(num(0x3f80_0000).plus(num(0x38d1_b717)))
        && blue.ge(num(0xb8d1_b717)) && blue.le(num(0x3f80_0000).plus(num(0x38d1_b717)))
}

/// The step of the histogram that a lightness falls on, 0 to 255.
pub open spec fn level_of(l: Single) -> int {
    l.times(num(0x437f_0000)).clamp(num(0), num(0x437f_0000)).truncated(0, 255)  // 255, 255
}

/// The eighth of the hue circle that a hue falls on, 0 to 7.
pub open spec fn eighth_of(hue: Single) -> int {
    let e = hue.over(num(0x4234_0000)).truncated(0, u32::MAX as int);  // 45
    if e < 7 {
        e
    } else {
        7
    }
}

/// How many of the first `n` numbers pass a test.
pub open spec fn how_many(test: spec_fn(int) -> bool, n: int) -> nat
    decreases n,
{
    if n <= 0 {
        0
    } else {
        how_many(test, n - 1) + if test(n - 1) {
            1nat
        } else {
            0nat
        }
    }
}

pub open spec fn spec_is_skin(p: &Reading) -> bool {
    skin_prob(p).gt(num(0x3f00_0000))  // 0.5
}

/// The pixel counts as skin.
#[verifier::when_used_as_spec(spec_is_skin)]
pub fn is_skin(p: &Reading) -> (r: bool)
    ensures
        r == spec_is_skin(p),
{
    skin_prob(p).gt(num(0x3f00_0000))  // 0.5
}

/// The smallest lightness among the first `n` readings, at most 1.
pub open spec fn darkest(v: Seq<Reading>, n: int) -> Single
    decreases n,
{
    if n <= 0 {
        num(0x3f80_0000)  // 1
    } else {
        let m = darkest(v, n - 1);
        if v[n - 1].l.lt(m) {
            v[n - 1].l
        } else {
            m
        }
    }
}

/// The largest lightness among the first `n` readings, at least 0.
pub open spec fn brightest(v: Seq<Reading>, n: int) -> Single
    decreases n,
{
    if n <= 0 {
        num(0)
    } else {
        let m = brightest(v, n - 1);
        if v[n - 1].l.gt(m) {
            v[n - 1].l
        } else {
            m
        }
    }
}

/// The largest chroma among the first `n` readings, at least 0.
pub open spec fn most_vivid(v: Seq<Reading>, n: int) -> Single
    decreases n,
{
    if n <= 0 {
        num(0)
    } else {
        let m = most_vivid(v, n - 1);
        if v[n - 1].c.gt(m) {
            v[n - 1].c
        } else {
            m
        }
    }
}

/// A channel of the pixel is at 255.
pub open spec fn blown(data: Seq<u8>, i: int) -> bool {
    data[3 * i] == 255 || data[3 * i + 1] == 255 || data[3 * i + 2] == 255
}

/// A channel of the pixel is at 0.
pub open spec fn crushed(data: Seq<u8>, i: int) -> bool {
    data[3 * i] == 0 || data[3 * i + 1] == 0 || data[3 * i + 2] == 0
}

/// What is counted over a picture.
#[derive(Debug)]
pub struct Tally {
    /// Pixels.
    pub n: u64,
    /// Pixels on each of 256 steps of lightness.
    pub levels: Vec<u64>,
    /// Pixels brighter than 0.6.
    pub bright: u64,
    /// Pixels darker than 0.2.
    pub dark: u64,
    pub min_l: Single,
    pub max_l: Single,
    pub max_c: Single,
    /// Pixels on each eighth of the hue circle.
    pub eighths: Vec<u64>,
    /// Pixels that count as skin.
    pub skin: u64,
    /// Pixels with a channel at 255.
    pub hi_clip: u64,
    /// Pixels with a channel at 0.
    pub lo_clip: u64,
    /// Pixels outside the gamut.
    pub gamut_clip: u64,
}

/// The tally counts bright, dark and skin pixels among the first `n`, and holds their extremes.
#[verifier::opaque]
pub open spec fn tones_of(t: Tally, v: Seq<Reading>, n: int) -> bool {
    &&& t.bright == how_many(|i: int| v[i].l.gt(num(0x3f19_999a)), n)  // 0.6
    &&& t.dark == how_many(|i: int| v[i].l.lt(num(0x3e4c_cccd)), n)  // 0.2
    &&& t.skin == how_many(|i: int| spec_is_skin(&v[i]), n)
    &&& t.min_l == darkest(v, n)
    &&& t.max_l == brightest(v, n)
    &&& t.max_c == most_vivid(v, n)
}

/// The tally counts clipped pixels among the first `n`.
#[verifier::opaque]
pub open spec fn clips_of(t: Tally, data: Seq<u8>, v: Seq<Reading>, n: int) -> bool {
    &&& t.n == n
    &&& t.hi_clip == how_many(|i: int| blown(data, i), n)
    &&& t.lo_clip == how_many(|i: int| crushed(data, i), n)
    &&& t.gamut_clip == how_many(|i: int| !v[i].inside, n)
}

/// Each step of the histogram counts its pixels.
#[verifier::opaque]
pub open spec fn levels_of(levels: Seq<u64>, v: Seq<Reading>, n: int) -> bool {
    &&& levels.len() == 256
    &&& forall|b: int|
        0 <= b < 256 ==> #[trigger] levels[b] == how_many(|i: int| level_of(v[i].l) == b, n)
}

/// Each eighth of the hue circle counts its pixels.
#[verifier::opaque]
pub open spec fn eighths_of(eighths: Seq<u64>, v: Seq<Reading>, n: int) -> bool {
    &&& eighths.len() == 8
    &&& forall|b: int|
        0 <= b < 8 ==> #[trigger] eighths[b] == how_many(|i: int| eighth_of(v[i].hue) == b, n)
}

proof fn lemma_count_bound(test: spec_fn(int) -> bool, n: int)
    requires
        0 <= n,
    ensures
        how_many(test, n) <= n,
    decreases n,
{
    if n > 0 {
        lemma_count_bound(test, n - 1);
    }
}

fn zeros(n: usize) -> (r: Vec<u64>)
    ensures
        r@.len() == n,
        forall|i: int| 0 <= i < n ==> r@[i] == 0,
{
    let mut v: Vec<u64> = Vec::new();
    let mut i: usize = 0;
    while i < n
        invariant
            i <= n,
            v@.len() == i,
            forall|j: int| 0 <= j < i ==> v@[j] == 0,
        decreases n - i,
    {
        v.push(0);
        i = i + 1;
    }
    v
}

fn count_level(levels: &mut Vec<u64>, v: &Vec<Reading>, k: usize)
    requires
        k < v@.len(),
        levels_of(old(levels)@, v@, k as int),
    ensures
        levels_of(final(levels)@, v@, k + 1),
{
    proof {
        reveal(levels_of);
    }
    let count: usize = v.len();
    let b: u8 = v[k].l.times(num(0x437f_0000)).clamp(num(0), num(0x437f_0000)).to_u8();  // 255, 255
    assert(b == level_of(v@[k as int].l));
    proof {
        let step = b as int;
        lemma_count_bound(|i: int| level_of(v@[i].l) == step, k as int);
        assert(levels@[step] == how_many(|i: int| level_of(v@[i].l) == step, k as int));
    }
    let was: u64 = levels[b as usize];
    levels[b as usize] = was + 1;
}

fn count_eighth(eighths: &mut Vec<u64>, v: &Vec<Reading>, k: usize)
    requires
        k < v@.len(),
        eighths_of(old(eighths)@, v@, k as int),
    ensures
        eighths_of(final(eighths)@, v@, k + 1),
{
    proof {
        reveal(eighths_of);
    }
    let count: usize = v.len();
    let e: usize = hue_eighth(v[k].hue);
    proof {
        let part = e as int;
        lemma_count_bound(|i: int| eighth_of(v@[i].hue) == part, k as int);
        assert(eighths@[part] == how_many(|i: int| eighth_of(v@[i].hue) == part, k as int));
    }
    let was: u64 = eighths[e];
    eighths[e] = was + 1;
}

/// The eighth of the hue circle that a hue falls on.
pub fn hue_eighth(hue: Single) -> (r: usize)
    ensures
        r == eighth_of(hue),
        r < 8,
{
    proof {
        reveal(Single::truncated);
    }
    let e: u32 = hue.over(num(0x4234_0000)).to_u32();  // 45
    if e < 7 {
        e as usize
    } else {
        7
    }
}

fn count_tones(t: &mut Tally, v: &Vec<Reading>, k: usize)
    requires
        k < v@.len(),
        tones_of(*old(t), v@, k as int),
    ensures
        tones_of(*final(t), v@, k + 1),
        final(t).n == old(t).n,
        final(t).hi_clip == old(t).hi_clip,
        final(t).lo_clip == old(t).lo_clip,
        final(t).gamut_clip == old(t).gamut_clip,
        final(t).levels@ == old(t).levels@,
        final(t).eighths@ == old(t).eighths@,
{
    proof {
        reveal(tones_of);
        lemma_count_bound(|i: int| v@[i].l.gt(num(0x3f19_999a)), k as int);  // 0.6
        lemma_count_bound(|i: int| v@[i].l.lt(num(0x3e4c_cccd)), k as int);  // 0.2
        lemma_count_bound(|i: int| spec_is_skin(&v@[i]), k as int);
    }
    let count: usize = v.len();
    let p: Reading = v[k];
    if p.l.gt(num(0x3f19_999a)) {  // 0.6
        t.bright = t.bright + 1;
    }
    if p.l.lt(num(0x3e4c_cccd)) {  // 0.2
        t.dark = t.dark + 1;
    }
    if p.l.lt(t.min_l) {
        t.min_l = p.l;
    }
    if p.l.gt(t.max_l) {
        t.max_l = p.l;
    }
    if p.c.gt(t.max_c) {
        t.max_c = p.c;
    }
    if is_skin(&p) {
        t.skin = t.skin + 1;
    }
}

fn count_clips(t: &mut Tally, img: &RgbImage, v: &Vec<Reading>, k: usize)
    requires
        k < v@.len(),
        img.data@.len() == 3 * v@.len(),
        clips_of(*old(t), img.data@, v@, k as int),
    ensures
        clips_of(*final(t), img.data@, v@, k + 1),
        forall|n: int| #[trigger] tones_of(*old(t), v@, n) ==> tones_of(*final(t), v@, n),
        final(t).levels@ == old(t).levels@,
        final(t).eighths@ == old(t).eighths@,
{
    proof {
        reveal(clips_of);
        lemma_count_bound(|i: int| blown(img.data@, i), k as int);
        lemma_count_bound(|i: int| crushed(img.data@, i), k as int);
        lemma_count_bound(|i: int| !v@[i].inside, k as int);
    }
    let size: usize = img.data.len();
    let (r, g, b): (u8, u8, u8) = (img.data[3 * k], img.data[3 * k + 1], img.data[3 * k + 2]);
    t.n = t.n + 1;
    if r == 255 || g == 255 || b == 255 {
        t.hi_clip = t.hi_clip + 1;
    }
    if r == 0 || g == 0 || b == 0 {
        t.lo_clip = t.lo_clip + 1;
    }
    if !v[k].inside {
        t.gamut_clip = t.gamut_clip + 1;
    }
    proof {
        reveal(tones_of);
    }
}

/// Counts a picture, one reading for each pixel.
pub fn tally(img: &RgbImage, v: &Vec<Reading>) -> (t: Tally)
    requires
        img.data@.len() == 3 * v@.len(),
    ensures
        tones_of(t, v@, v@.len() as int),
        clips_of(t, img.data@, v@, v@.len() as int),
        levels_of(t.levels@, v@, v@.len() as int),
        eighths_of(t.eighths@, v@, v@.len() as int),
{
    let mut t: Tally = Tally {
        n: 0,
        levels: Vec::new(),
        bright: 0,
        dark: 0,
        min_l: num(0x3f80_0000),  // 1
        max_l: num(0),
        max_c: num(0),
        eighths: Vec::new(),
        skin: 0,
        hi_clip: 0,
        lo_clip: 0,
        gamut_clip: 0,
    };
    let mut levels: Vec<u64> = zeros(256);
    let mut eighths: Vec<u64> = zeros(8);
    proof {
        reveal(tones_of);
        reveal(clips_of);
        reveal(levels_of);
        reveal(eighths_of);
    }
    let mut k: usize = 0;
    while k < v.len()
        invariant
            k <= v@.len(),
            img.data@.len() == 3 * v@.len(),
            tones_of(t, v@, k as int),
            clips_of(t, img.data@, v@, k as int),
            levels_of(levels@, v@, k as int),
            eighths_of(eighths@, v@, k as int),
        decreases v@.len() - k,
    {
        count_level(&mut levels, v, k);
        count_eighth(&mut eighths, v, k);
        count_tones(&mut t, v, k);
        proof {
            assert(clips_of(t, img.data@, v@, k as int)) by {
                reveal(clips_of);
            }
        }
        count_clips(&mut t, img, v, k);
        k = k + 1;
    }
    let full: Tally = Tally { levels, eighths, ..t };
    proof {
        reveal(tones_of);
        reveal(clips_of);
    }
    full
}

/// The number of pixels below a step of the histogram.
pub open spec fn below(levels: Seq<u64>, b: int) -> int
    decreases b,
{
    if b <= 0 {
        0
    } else {
        below(levels, b - 1) + levels[b - 1]
    }
}

/// `b` is the first step at which at least `quarters` quarters of the pixels are reached.
pub open spec fn first_step(levels: Seq<u64>, n: int, quarters: int, b: int) -> bool {
    &&& 0 <= b < 256
    &&& 4 * below(levels, b + 1) >= quarters * n
    &&& forall|a: int| 0 <= a < b ==> 4 * #[trigger] below(levels, a + 1) < quarters * n
}

/// The middle of a step of the histogram as a lightness.
pub fn step_l(b: u32) -> (r: Single)
    ensures
        r == spec_step_l(b),
{
    Single::from_int(b as i128).plus(num(0x3f00_0000)).over(num(0x4380_0000))  // 0.5, 256
}

pub open spec fn spec_step_l(b: u32) -> Single {
    Single::spec_from_int(b as int).plus(num(0x3f00_0000)).over(num(0x4380_0000))  // 0.5, 256
}

/// `l` is the lightness that `quarters` quarters of the pixels reach; 0 where there are none.
pub open spec fn quartile(levels: Seq<u64>, n: int, quarters: int, l: Single) -> bool {
    if n == 0 {
        l == num(0)
    } else {
        exists|b: u32| #[trigger] first_step(levels, n, quarters, b as int) && l == spec_step_l(b)
    }
}

proof fn lemma_below_grows(levels: Seq<u64>, a: int, b: int)
    requires
        0 <= a <= b <= levels.len(),
    ensures
        0 <= below(levels, a) <= below(levels, b),
    decreases b,
{
    if b > 0 {
        if a < b {
            lemma_below_grows(levels, a, b - 1);
        } else {
            lemma_below_grows(levels, a - 1, b - 1);
        }
    }
}

/// The lightness that a number of quarters of the pixels reach, from a histogram of `n` pixels.
pub fn find_quartile(levels: &Vec<u64>, n: u64, quarters: u64) -> (l: Single)
    requires
        levels@.len() == 256,
        below(levels@, 256) == n,
        n <= 0x20_0000_0000_0000,
        1 <= quarters <= 3,
    ensures
        quartile(levels@, n as int, quarters as int, l),
{
    if n == 0 {
        return num(0);
    }
    let goal: u64 = if quarters == 1 {
        n
    } else if quarters == 2 {
        2 * n
    } else {
        3 * n
    };
    assert(goal == quarters * n) by (nonlinear_arith)
        requires
            quarters == 1 && goal == n || quarters == 2 && goal == 2 * n || quarters == 3 && goal
                == 3 * n,
    ;
    assert(goal <= 3 * n);
    let mut sum: u64 = 0;
    let mut b: u32 = 0;
    while b < 256
        invariant
            b <= 256,
            levels@.len() == 256,
            0 < n <= 0x20_0000_0000_0000,
            goal == quarters * n,
            goal <= 3 * n,
            below(levels@, 256) == n,
            sum == below(levels@, b as int),
            sum <= n,
            forall|a: int| 0 <= a < b ==> 4 * #[trigger] below(levels@, a + 1) < quarters * n,
        decreases 256 - b,
    {
        proof {
            lemma_below_grows(levels@, b + 1, 256);
        }
        sum = sum + levels[b as usize];
        if 4 * sum >= goal {
            assert(first_step(levels@, n as int, quarters as int, b as int));
            return step_l(b);
        }
        b = b + 1;
    }
    proof {
        let a: int = 255;
        assert(4 * below(levels@, a + 1) < quarters * n);
        assert(below(levels@, 256) == n);
    }
    num(0)
}

/// What is added up over a picture.
#[derive(Debug)]
pub struct Sums {
    /// Lightness.
    pub l: Double,
    /// Squares of lightness.
    pub l2: Double,
    /// Chroma.
    pub c: Double,
    /// Chroma times the cosine of the hue.
    pub cos: Double,
    /// Chroma times the sine of the hue.
    pub sin: Double,
    /// Chroma on each eighth of the hue circle.
    pub eighths: Vec<Double>,
    /// Lightness of skin.
    pub skin_l: Double,
    /// Chroma of skin.
    pub skin_c: Double,
    /// Chroma of skin times the cosine of the hue.
    pub skin_cos: Double,
    /// Chroma of skin times the sine of the hue.
    pub skin_sin: Double,
}

pub open spec fn spec_lightness(p: &Reading) -> Double {
    Double::from_single(p.l)
}

#[verifier::when_used_as_spec(spec_lightness)]
pub fn lightness(p: &Reading) -> (r: Double)
    ensures
        r == spec_lightness(p),
{
    Double::from_single(p.l)
}

pub open spec fn spec_lightness_squared(p: &Reading) -> Double {
    Double::from_single(p.l).times(Double::from_single(p.l))
}

#[verifier::when_used_as_spec(spec_lightness_squared)]
pub fn lightness_squared(p: &Reading) -> (r: Double)
    ensures
        r == spec_lightness_squared(p),
{
    Double::from_single(p.l).times(Double::from_single(p.l))
}

pub open spec fn spec_vividness(p: &Reading) -> Double {
    Double::from_single(p.c)
}

#[verifier::when_used_as_spec(spec_vividness)]
pub fn vividness(p: &Reading) -> (r: Double)
    ensures
        r == spec_vividness(p),
{
    Double::from_single(p.c)
}

pub open spec fn spec_across(p: &Reading) -> Double {
    Double::from_single(p.c).times(Double::from_single(p.cos))
}

#[verifier::when_used_as_spec(spec_across)]
pub fn across(p: &Reading) -> (r: Double)
    ensures
        r == spec_across(p),
{
    Double::from_single(p.c).times(Double::from_single(p.cos))
}

pub open spec fn spec_upwards(p: &Reading) -> Double {
    Double::from_single(p.c).times(Double::from_single(p.sin))
}

#[verifier::when_used_as_spec(spec_upwards)]
pub fn upwards(p: &Reading) -> (r: Double)
    ensures
        r == spec_upwards(p),
{
    Double::from_single(p.c).times(Double::from_single(p.sin))
}

/// The sums over all of the first `n` readings.
#[verifier::opaque]
pub open spec fn whole_sums(s: Sums, v: Seq<Reading>, n: int) -> bool {
    &&& s.l == sum_of_all(|i: int| spec_lightness(&v[i]), n)
    &&& s.l2 == sum_of_all(|i: int| spec_lightness_squared(&v[i]), n)
    &&& s.c == sum_of_all(|i: int| spec_vividness(&v[i]), n)
    &&& s.cos == sum_of_all(|i: int| spec_across(&v[i]), n)
    &&& s.sin == sum_of_all(|i: int| spec_upwards(&v[i]), n)
}

/// The sums over skin among the first `n` readings.
#[verifier::opaque]
pub open spec fn skin_sums(s: Sums, v: Seq<Reading>, n: int) -> bool {
    &&& s.skin_l == sum_where(|i: int| spec_is_skin(&v[i]), |i: int| spec_lightness(&v[i]), n)
    &&& s.skin_c == sum_where(|i: int| spec_is_skin(&v[i]), |i: int| spec_vividness(&v[i]), n)
    &&& s.skin_cos == sum_where(|i: int| spec_is_skin(&v[i]), |i: int| spec_across(&v[i]), n)
    &&& s.skin_sin == sum_where(|i: int| spec_is_skin(&v[i]), |i: int| spec_upwards(&v[i]), n)
}

/// The sums over each eighth of the hue circle among the first `n` readings.
#[verifier::opaque]
pub open spec fn eighth_sums(eighths: Seq<Double>, v: Seq<Reading>, n: int) -> bool {
    &&& eighths.len() == 8
    &&& forall|b: int|
        0 <= b < 8 ==> #[trigger] eighths[b] == sum_where(
            |i: int| eighth_of(v[i].hue) == b,
            |i: int| spec_vividness(&v[i]),
            n,
        )
}

fn add_eighth(eighths: &mut Vec<Double>, v: &Vec<Reading>, k: usize)
    requires
        k < v@.len(),
        eighth_sums(old(eighths)@, v@, k as int),
    ensures
        eighth_sums(final(eighths)@, v@, k + 1),
{
    proof {
        reveal(eighth_sums);
    }
    let e: usize = hue_eighth(v[k].hue);
    let sum: Double = eighths[e].plus(vividness(&v[k]));
    eighths[e] = sum;
}

fn add_whole(s: &mut Sums, v: &Vec<Reading>, k: usize)
    requires
        k < v@.len(),
        whole_sums(*old(s), v@, k as int),
    ensures
        whole_sums(*final(s), v@, k + 1),
        final(s).skin_l == old(s).skin_l,
        final(s).skin_c == old(s).skin_c,
        final(s).skin_cos == old(s).skin_cos,
        final(s).skin_sin == old(s).skin_sin,
{
    proof {
        reveal(whole_sums);
    }
    let p: Reading = v[k];
    s.l = s.l.plus(lightness(&p));
    s.l2 = s.l2.plus(lightness_squared(&p));
    s.c = s.c.plus(vividness(&p));
    s.cos = s.cos.plus(across(&p));
    s.sin = s.sin.plus(upwards(&p));
}

fn add_skin(s: &mut Sums, v: &Vec<Reading>, k: usize)
    requires
        k < v@.len(),
        skin_sums(*old(s), v@, k as int),
    ensures
        skin_sums(*final(s), v@, k + 1),
        final(s).l == old(s).l,
        final(s).l2 == old(s).l2,
        final(s).c == old(s).c,
        final(s).cos == old(s).cos,
        final(s).sin == old(s).sin,
{
    proof {
        reveal(skin_sums);
    }
    let p: Reading = v[k];
    if is_skin(&p) {
        s.skin_l = s.skin_l.plus(lightness(&p));
        s.skin_c = s.skin_c.plus(vividness(&p));
        s.skin_cos = s.skin_cos.plus(across(&p));
        s.skin_sin = s.skin_sin.plus(upwards(&p));
    }
}

/// Adds up a picture, one reading for each pixel.
pub fn add_up(v: &Vec<Reading>) -> (s: Sums)
    ensures
        whole_sums(s, v@, v@.len() as int),
        skin_sums(s, v@, v@.len() as int),
        eighth_sums(s.eighths@, v@, v@.len() as int),
{
    let zero: Double = wide(0);
    let mut s: Sums = Sums {
        l: zero,
        l2: zero,
        c: zero,
        cos: zero,
        sin: zero,
        eighths: Vec::new(),
        skin_l: zero,
        skin_c: zero,
        skin_cos: zero,
        skin_sin: zero,
    };
    let mut eighths: Vec<Double> = vec![zero, zero, zero, zero, zero, zero, zero, zero];
    proof {
        reveal(whole_sums);
        reveal(skin_sums);
        reveal(eighth_sums);
    }
    let mut k: usize = 0;
    while k < v.len()
        invariant
            k <= v@.len(),
            whole_sums(s, v@, k as int),
            skin_sums(s, v@, k as int),
            eighth_sums(eighths@, v@, k as int),
        decreases v@.len() - k,
    {
        add_eighth(&mut eighths, v, k);
        add_whole(&mut s, v, k);
        proof {
            assert(skin_sums(s, v@, k as int)) by {
                reveal(skin_sums);
            }
        }
        add_skin(&mut s, v, k);
        proof {
            assert(whole_sums(s, v@, k + 1)) by {
                reveal(whole_sums);
            }
        }
        k = k + 1;
    }
    let full: Sums = Sums { eighths, ..s };
    proof {
        reveal(whole_sums);
        reveal(skin_sums);
    }
    full
}

pub open spec fn spec_mean_or_zero(sum: Double, count: u64) -> Single {
    if count > 0 {
        mean_of(sum, count)
    } else {
        num(0)
    }
}

/// A mean where there is something to take it of, and 0 where there is nothing.
#[verifier::when_used_as_spec(spec_mean_or_zero)]
pub fn mean_or_zero(sum: Double, count: u64) -> (r: Single)
    ensures
        r == spec_mean_or_zero(sum, count),
{
    if count > 0 {
        mean_of(sum, count)
    } else {
        num(0)
    }
}

pub open spec fn spec_spread_of(l: Double, l2: Double, n: u64) -> Single {
    let nf: Double = Double::from_count(n);
    let mean: Double = l.over(nf);
    l2.over(nf).minus(mean.times(mean)).max(wide(0)).sqrt().narrowed()
}

/// The spread of a lightness: the root of its variance, which is not taken below 0.
#[verifier::when_used_as_spec(spec_spread_of)]
pub fn spread_of(l: Double, l2: Double, n: u64) -> (r: Single)
    ensures
        r == spec_spread_of(l, l2, n),
{
    let nf: Double = Double::from_count(n);
    let mean: Double = l.over(nf);
    l2.over(nf).minus(mean.times(mean)).max(wide(0)).sqrt().narrowed()
}

pub open spec fn spec_peakiness_of(cos: Double, sin: Double, c: Double) -> Single {
    // 1e-9
    cos.times(cos).plus(sin.times(sin)).sqrt().over(c.max(wide(0x3e11_2e0b_e826_d695))).narrowed()
}

/// How much one hue prevails: how far the weighted mean lies from the middle of the circle.
#[verifier::when_used_as_spec(spec_peakiness_of)]
pub fn peakiness_of(cos: Double, sin: Double, c: Double) -> (r: Single)
    ensures
        r == spec_peakiness_of(cos, sin, c),
{
    // 1e-9
    cos.times(cos).plus(sin.times(sin)).sqrt().over(c.max(wide(0x3e11_2e0b_e826_d695))).narrowed()
}

pub open spec fn spec_direction_of(cos: Double, sin: Double, angle: Single) -> Single {
    if cos.same(wide(0)) && sin.same(wide(0)) {
        num(0)
    } else {
        angle
    }
}

/// The direction of a sum over the hue circle, which has the given angle; 0 from its middle.
#[verifier::when_used_as_spec(spec_direction_of)]
pub fn direction_of(cos: Double, sin: Double, angle: Single) -> (r: Single)
    ensures
        r == spec_direction_of(cos, sin, angle),
{
    if cos.same(wide(0)) && sin.same(wide(0)) {
        num(0)
    } else {
        angle
    }
}

/// The measurements that a tally and the sums give. `angle` and `skin_angle` are the angles of
/// the sums over all pixels and over skin, in degrees.
pub open spec fn measured(
    m: ImageMetrics,
    width: u32,
    height: u32,
    t: Tally,
    s: Sums,
    angle: Single,
    skin_angle: Single,
) -> bool {
    &&& m.width == width
    &&& m.height == height
    &&& m.tone.mean_l == mean_of(s.l, t.n)
    &&& m.tone.std_l == spread_of(s.l, s.l2, t.n)
    &&& m.tone.min_l == t.min_l
    &&& m.tone.max_l == t.max_l
    &&& quartile(t.levels@, t.n as int, 1, m.tone.p25_l)
    &&& quartile(t.levels@, t.n as int, 2, m.tone.median_l)
    &&& quartile(t.levels@, t.n as int, 3, m.tone.p75_l)
    &&& m.tone.bright_area_pct == percent_of(t.bright, t.n)
    &&& m.tone.dark_area_pct == percent_of(t.dark, t.n)
    &&& m.color.mean_c == mean_of(s.c, t.n)
    &&& m.color.mean_h_deg == direction_of(s.cos, s.sin, angle)
    &&& m.color.hue_peakiness == peakiness_of(s.cos, s.sin, s.c)
    &&& forall|i: int|
        0 <= i < 8 ==> #[trigger] m.color.per_hue_chroma[i] == spec_mean_or_zero(
            s.eighths@[i],
            t.eighths@[i],
        )
    &&& m.skin == (SkinMetrics {
        ratio: Single::spec_from_int(t.skin as int).over(Single::spec_from_int(t.n as int)),
        mean_c: spec_mean_or_zero(s.skin_c, t.skin),
        mean_h_deg: if t.skin > 0 {
            spec_direction_of(s.skin_cos, s.skin_sin, skin_angle)
        } else {
            num(0)
        },
        mean_l: spec_mean_or_zero(s.skin_l, t.skin),
    })
    &&& m.exposure == (ExposureMetrics {
        highlight_clip_pct: percent_of(t.hi_clip, t.n),
        shadow_clip_pct: percent_of(t.lo_clip, t.n),
    })
    &&& m.gamut == (GamutMetrics { clip_pct: percent_of(t.gamut_clip, t.n), max_c: t.max_c })
    &&& m.cast == (CastMetrics { hue_deg: m.color.mean_h_deg, chroma: m.color.mean_c })
    &&& m.dynamic_range == t.max_l.minus(t.min_l)
}

/// Puts the measurements of a picture together.
pub fn measure(
    width: u32,
    height: u32,
    t: &Tally,
    s: &Sums,
    angle: Single,
    skin_angle: Single,
) -> (m: ImageMetrics)
    requires
        t.levels@.len() == 256,
        t.eighths@.len() == 8,
        s.eighths@.len() == 8,
        below(t.levels@, 256) == t.n,
        t.n <= 0x20_0000_0000_0000,
    ensures
        measured(m, width, height, *t, *s, angle, skin_angle),
{
    let p25: Single = find_quartile(&t.levels, t.n, 1);
    let median: Single = find_quartile(&t.levels, t.n, 2);
    let p75: Single = find_quartile(&t.levels, t.n, 3);
    let h: [Single; 8] = [
        mean_or_zero(s.eighths[0], t.eighths[0]),
        mean_or_zero(s.eighths[1], t.eighths[1]),
        mean_or_zero(s.eighths[2], t.eighths[2]),
        mean_or_zero(s.eighths[3], t.eighths[3]),
        mean_or_zero(s.eighths[4], t.eighths[4]),
        mean_or_zero(s.eighths[5], t.eighths[5]),
        mean_or_zero(s.eighths[6], t.eighths[6]),
        mean_or_zero(s.eighths[7], t.eighths[7]),
    ];
    let mean_c: Single = mean_of(s.c, t.n);
    let mean_h: Single = direction_of(s.cos, s.sin, angle);
    let skin_h: Single = if t.skin > 0 {
        direction_of(s.skin_cos, s.skin_sin, skin_angle)
    } else {
        num(0)
    };
    ImageMetrics {
        width,
        height,
        tone: ToneMetrics {
            mean_l: mean_of(s.l, t.n),
            std_l: spread_of(s.l, s.l2, t.n),
            min_l: t.min_l,
            max_l: t.max_l,
            median_l: median,
            p25_l: p25,
            p75_l: p75,
            bright_area_pct: percent_of(t.bright, t.n),
            dark_area_pct: percent_of(t.dark, t.n),
        },
        color: ColorMetrics {
            mean_c,
            mean_h_deg: mean_h,
            hue_peakiness: peakiness_of(s.cos, s.sin, s.c),
            per_hue_chroma: h,
        },
        skin: SkinMetrics {
            ratio: Single::from_int(t.skin as i128).over(Single::from_int(t.n as i128)),
            mean_c: mean_or_zero(s.skin_c, t.skin),
            mean_h_deg: skin_h,
            mean_l: mean_or_zero(s.skin_l, t.skin),
        },
        exposure: ExposureMetrics {
            highlight_clip_pct: percent_of(t.hi_clip, t.n),
            shadow_clip_pct: percent_of(t.lo_clip, t.n),
        },
        gamut: GamutMetrics { clip_pct: percent_of(t.gamut_clip, t.n), max_c: t.max_c },
        cast: CastMetrics { hue_deg: mean_h, chroma: mean_c },
        dynamic_range: t.max_l.minus(t.min_l),
    }
}

/// The steps of the histogram count every pixel once.
pub proof fn law_histogram_counts_every_pixel(levels: Seq<u64>, v: Seq<Reading>, n: int)
    requires
        0 <= n <= v.len(),
        levels_of(levels, v, n),
    ensures
        below(levels, 256) == n,
{
    reveal(levels_of);
    lemma_below_is_count(levels, v, n, 256);
    assert forall|i: int| 0 <= i < n implies 0 <= level_of(#[trigger] v[i].l) < 256 by {
        reveal(Single::truncated);
    }
    lemma_all_counted(v, n);
}

/// Measures a picture, of which each pixel was read. `angle` and `skin_angle` are the angles of
/// the sums that `add_up` gives of the readings, over all pixels and over skin, in degrees.
pub fn analyze(img: &RgbImage, v: &Vec<Reading>, angle: Single, skin_angle: Single) -> (m:
    ImageMetrics)
    requires
        img.data@.len() == 3 * v@.len(),
        v@.len() <= 0x20_0000_0000_0000,
    ensures
        exists|t: Tally, s: Sums| #[trigger]
            tones_of(t, v@, v@.len() as int) && clips_of(t, img.data@, v@, v@.len() as int)
                && levels_of(t.levels@, v@, v@.len() as int) && eighths_of(
                t.eighths@,
                v@,
                v@.len() as int,
            ) && #[trigger] whole_sums(s, v@, v@.len() as int) && skin_sums(
                s,
                v@,
                v@.len() as int,
            ) && eighth_sums(s.eighths@, v@, v@.len() as int) && measured(
                m,
                img.width,
                img.height,
                t,
                s,
                angle,
                skin_angle,
            ),
{
    let t: Tally = tally(img, v);
    let s: Sums = add_up(v);
    proof {
        law_histogram_counts_every_pixel(t.levels@, v@, v@.len() as int);
        reveal(clips_of);
        reveal(levels_of);
        reveal(eighths_of);
        reveal(eighth_sums);
    }
    let m: ImageMetrics = measure(img.width, img.height, &t, &s, angle, skin_angle);
    assert(tones_of(t, v@, v@.len() as int) && whole_sums(s, v@, v@.len() as int));
    m
}

proof fn lemma_below_is_count(levels: Seq<u64>, v: Seq<Reading>, n: int, b: int)
    requires
        0 <= b <= 256,
        0 <= n,
        levels_of(levels, v, n),
    ensures
        below(levels, b) == how_many(|i: int| 0 <= level_of(v[i].l) < b, n),
    decreases b,
{
    reveal(levels_of);
    if b == 0 {
        lemma_none_counted(v, n);
    } else {
        lemma_below_is_count(levels, v, n, b - 1);
        lemma_one_more_step(v, n, b - 1);
    }
}

proof fn lemma_none_counted(v: Seq<Reading>, n: int)
    ensures
        how_many(|i: int| 0 <= level_of(v[i].l) < 0, n) == 0,
    decreases n,
{
    if n > 0 {
        lemma_none_counted(v, n - 1);
    }
}

proof fn lemma_one_more_step(v: Seq<Reading>, n: int, b: int)
    requires
        0 <= b,
    ensures
        how_many(|i: int| 0 <= level_of(v[i].l) < b + 1, n) == how_many(
            |i: int| 0 <= level_of(v[i].l) < b,
            n,
        ) + how_many(|i: int| level_of(v[i].l) == b, n),
    decreases n,
{
    if n > 0 {
        lemma_one_more_step(v, n - 1, b);
    }
}

proof fn lemma_all_counted(v: Seq<Reading>, n: int)
    requires
        0 <= n,
        forall|i: int| 0 <= i < n ==> 0 <= level_of(#[trigger] v[i].l) < 256,
    ensures
        how_many(|i: int| 0 <= level_of(v[i].l) < 256, n) == n,
    decreases n,
{
    if n > 0 {
        lemma_all_counted(v, n - 1);
        assert(0 <= level_of(v[n - 1].l) < 256);
    }
}

} // verus!
