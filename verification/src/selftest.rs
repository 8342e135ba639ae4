//! A short self-test: pictures to render, and what is expected of the results.

use crate::raster::{lemma_pixel_in_range, offset3, RgbImage};
use crate::single::{num, Single};
use vstd::prelude::*;

verus! {

/// The distance of two bytes.
pub open spec fn apart(a: u8, b: u8) -> int {
    if a > b {
        a - b
    } else {
        b - a
    }
}

/// The largest distance of the first `n` bytes.
pub open spec fn most_apart(a: Seq<u8>, b: Seq<u8>, n: int) -> int
    decreases n,
{
    if n <= 0 {
        0
    } else {
        let m = most_apart(a, b, n - 1);
        let d = apart(a[n - 1], b[n - 1]);
        if d > m {
            d
        } else {
            m
        }
    }
}

/// The sum of the distances of the first `n` bytes.
pub open spec fn sum_apart(a: Seq<u8>, b: Seq<u8>, n: int) -> int
    decreases n,
{
    if n <= 0 {
        0
    } else {
        sum_apart(a, b, n - 1) + apart(a[n - 1], b[n - 1])
    }
}

/// The largest distance and the sum of the distances of two pictures' bytes.
pub fn differences(a: &RgbImage, b: &RgbImage) -> (r: (u8, u64))
    requires
        a.data@.len() == b.data@.len(),
        a.data@.len() <= 0x100_0000_0000,
    ensures
        r.0 == most_apart(a.data@, b.data@, a.data@.len() as int),
        r.1 == sum_apart(a.data@, b.data@, a.data@.len() as int),
{
    let mut most: u8 = 0;
    let mut sum: u64 = 0;
    let mut i: usize = 0;
    while i < a.data.len()
        invariant
            i <= a.data@.len(),
            a.data@.len() == b.data@.len(),
            a.data@.len() <= 0x100_0000_0000,
            most == most_apart(a.data@, b.data@, i as int),
            sum == sum_apart(a.data@, b.data@, i as int),
            sum <= 255 * i,
        decreases a.data@.len() - i,
    {
        let x: u8 = a.data[i];
        let y: u8 = b.data[i];
        let d: u8 = if x > y {
            x - y
        } else {
            y - x
        };
        if d > most {
            most = d;
        }
        sum = sum + d as u64;
        i = i + 1;
    }
    (most, sum)
}

/// The test picture: red grows to the right, green downwards, blue both ways.
pub open spec fn gradient_at(x: int, y: int, c: int) -> int {
    if c == 0 {
        x
    } else if c == 1 {
        y
    } else {
        (x + y) / 2
    }
}

/// Paints the test picture, 256 pixels each way.
pub fn gradient() -> (r: RgbImage)
    ensures
        r.wf(),
        r.width == 256,
        r.height == 256,
        forall|x: int, y: int, c: int|
            0 <= x < 256 && 0 <= y < 256 && 0 <= c < 3 ==> #[trigger] r.at(x, y, c) == gradient_at(
                x,
                y,
                c,
            ),
{
    let mut data: Vec<u8> = Vec::new();
    let mut k: usize = 0;
    while k < 65536
        invariant
            k <= 65536,
            data@.len() == 3 * k,
            forall|i: int|
                0 <= i < 3 * k ==> #[trigger] data@[i] == gradient_at(
                    (i / 3) % 256,
                    (i / 3) / 256,
                    i % 3,
                ),
        decreases 65536 - k,
    {
        let x: usize = k % 256;
        let y: usize = k / 256;
        data.push(x as u8);
        data.push(y as u8);
        data.push(((x + y) / 2) as u8);
        k = k + 1;
    }
    let r: RgbImage = RgbImage { width: 256, height: 256, data };
    proof {
        assert forall|x: int, y: int, c: int|
            0 <= x < 256 && 0 <= y < 256 && 0 <= c < 3 implies #[trigger] r.at(x, y, c)
            == gradient_at(x, y, c) by {
            lemma_pixel_in_range(256, 256, x, y);
            let i = offset3(256, x, y, c);
            assert(i / 3 == y * 256 + x);
            assert(i % 3 == c);
        }
    }
    r
}

/// How far red stands apart from green and blue.
pub open spec fn spread(r: u8, g: u8, b: u8) -> int {
    apart(r, g) + apart(r, b)
}

fn gap(a: u8, b: u8) -> (r: u16)
    ensures
        r == apart(a, b),
        r <= 255,
{
    if a > b {
        (a - b) as u16
    } else {
        (b - a) as u16
    }
}

/// The distance of two hues on the circle, in degrees.
pub open spec fn spec_hue_drift(a: Single, b: Single) -> Single {
    let d = a.minus(b).abs();
    d.min(num(0x43b4_0000).minus(d))  // 360
}

/// The distance of two hues on the circle, in degrees.
#[verifier::when_used_as_spec(spec_hue_drift)]
pub fn hue_drift(a: Single, b: Single) -> (r: Single)
    ensures
        r == spec_hue_drift(a, b),
{
    let d: Single = a.minus(b).abs();
    d.min(num(0x43b4_0000).minus(d))  // 360
}

/// The results that the self-test looks at.
#[derive(Clone, Copy, Debug, PartialEq, Eq, Structural)]
pub struct Verdict {
    /// The test picture rendered without settings stays as it is, up to 8.
    pub round_trip: bool,
    /// Two stops of exposure make a middle grey bright.
    pub exposure: bool,
    /// The tone map does not make an overexposed red more saturated.
    pub tone_map: bool,
    /// Taming of colour lowers chroma and turns the hue by less than 5 degrees.
    pub taming: bool,
}

/// Judges the results: the test picture rendered, a grey that was raised, a red without and with
/// the tone map, and the chroma and hue of a tamed colour, before and after.
pub fn judge(
    before: &RgbImage,
    after: &RgbImage,
    raised: u8,
    plain: (u8, u8, u8),
    mapped: (u8, u8, u8),
    chroma: (Single, Single),
    hue: (Single, Single),
) -> (r: Verdict)
    requires
        before.data@.len() == after.data@.len(),
        before.data@.len() <= 0x100_0000_0000,
    ensures
        r == (Verdict {
            round_trip: most_apart(before.data@, after.data@, before.data@.len() as int) <= 8,
            exposure: raised > 150,
            tone_map: spread(mapped.0, mapped.1, mapped.2) <= spread(plain.0, plain.1, plain.2),
            taming: chroma.1.lt(chroma.0) && hue_drift(hue.0, hue.1).lt(num(0x40a0_0000)),  // 5
        }),
{
    let (most, _) = differences(before, after);
    let a: u16 = gap(plain.0, plain.1) + gap(plain.0, plain.2);
    let b: u16 = gap(mapped.0, mapped.1) + gap(mapped.0, mapped.2);
    Verdict {
        round_trip: most <= 8,
        exposure: raised > 150,
        tone_map: b <= a,
        taming: chroma.1.lt(chroma.0) && hue_drift(hue.0, hue.1).lt(num(0x40a0_0000)),  // 5
    }
}

/// All parts of the self-test hold.
pub fn all_pass(v: &Verdict) -> (r: bool)
    ensures
        r == (v.round_trip && v.exposure && v.tone_map && v.taming),
{
    v.round_trip && v.exposure && v.tone_map && v.taming
}

proof fn lemma_most_apart(a: Seq<u8>, b: Seq<u8>, n: int, i: int)
    requires
        0 <= i < n,
    ensures
        apart(a[i], b[i]) <= most_apart(a, b, n),
    decreases n,
{
    if i < n - 1 {
        lemma_most_apart(a, b, n - 1, i);
    }
}

/// No byte is farther apart than the largest distance.
pub proof fn law_no_byte_is_farther(a: Seq<u8>, b: Seq<u8>, i: int)
    requires
        0 <= i < a.len(),
        a.len() == b.len(),
    ensures
        apart(a[i], b[i]) <= most_apart(a, b, a.len() as int),
{
    lemma_most_apart(a, b, a.len() as int, i);
}

} // verus!
