//! Healing by frequency separation: the fine texture of a source patch on the light of the
//! surroundings.

use crate::poisson::{box_inside, held, lemma_other_pixel, patch, read_patch};
use crate::raster::{lemma_pixel_in_range, lemma_pixel_place, RgbImage};
use crate::single::{num, Single};
use vstd::prelude::*;

verus! {

/// The sum of the first `k` weights.
pub open spec fn weight_sum(weights: Seq<Single>, k: int) -> Single
    decreases k,
{
    if k <= 0 {
        num(0)
    } else {
        weight_sum(weights, k - 1).plus(weights[k - 1])
    }
}

/// The weights divided by their sum.
pub open spec fn normalised(weights: Seq<Single>) -> Seq<Single> {
    Seq::new(
        weights.len(),
        |i: int| weights[i].over(weight_sum(weights, weights.len() as int)),
    )
}

/// The first `k` terms of a weighted sum along a line of `n` values: at each term `i` the value
/// `at + i - radius` places along, held inside the line. `base` and `gap` say where the line is.
pub open spec fn line_sum(
    buf: Seq<Single>,
    kernel: Seq<Single>,
    base: int,
    gap: int,
    n: int,
    at: int,
    k: int,
) -> Single
    decreases k,
{
    if k <= 0 {
        num(0)
    } else {
        let i = k - 1;
        let radius = kernel.len() as int / 2;
        line_sum(buf, kernel, base, gap, n, at, k - 1).plus(
            buf[base + gap * held(at + i - radius, n)].times(kernel[i]),
        )
    }
}

/// Every row smoothed.
pub open spec fn rows_smoothed(buf: Seq<Single>, kernel: Seq<Single>, w: int, h: int) -> Seq<Single> {
    Seq::new(
        (w * h) as nat,
        |p: int| line_sum(buf, kernel, (p / w) * w, 1, w, p % w, kernel.len() as int),
    )
}

/// Every column smoothed.
pub open spec fn columns_smoothed(buf: Seq<Single>, kernel: Seq<Single>, w: int, h: int) -> Seq<
    Single,
> {
    Seq::new(
        (w * h) as nat,
        |p: int| line_sum(buf, kernel, p % w, w, h, p / w, kernel.len() as int),
    )
}

/// A plane smoothed with the weights along rows and then along columns.
#[verifier::opaque]
pub open spec fn smoothed(buf: Seq<Single>, weights: Seq<Single>, w: int, h: int) -> Seq<Single> {
    let kernel = normalised(weights);
    columns_smoothed(rows_smoothed(buf, kernel, w, h), kernel, w, h)
}

pub(crate) fn smooth_line(
    buf: &Vec<Single>,
    kernel: &Vec<Single>,
    base: usize,
    gap: usize,
    n: usize,
    at: usize,
) -> (v: Single)
    requires
        0 < n,
        at < n,
        n <= 0xffff_ffff,
        kernel@.len() <= 0xffff_ffff,
        base + gap * (n - 1) < buf@.len(),
    ensures
        v == line_sum(
            buf@,
            kernel@,
            base as int,
            gap as int,
            n as int,
            at as int,
            kernel@.len() as int,
        ),
{
    let m: usize = kernel.len();
    let radius: i64 = (m / 2) as i64;
    let count: usize = buf.len();
    let mut acc: Single = num(0);
    let mut i: usize = 0;
    while i < m
        invariant
            0 < n,
            at < n,
            n <= 0xffff_ffff,
            m == kernel@.len(),
            m <= 0xffff_ffff,
            radius == m as int / 2,
            count == buf@.len(),
            base + gap * (n - 1) < count,
            i <= m,
            acc == line_sum(
                buf@,
                kernel@,
                base as int,
                gap as int,
                n as int,
                at as int,
                i as int,
            ),
        decreases m - i,
    {
        let j: i64 = at as i64 + i as i64 - radius;
        let k: usize = if j < 0 {
            0
        } else if j >= n as i64 {
            n - 1
        } else {
            j as usize
        };
        assert(0 <= gap * k <= gap * (n - 1)) by (nonlinear_arith)
            requires
                0 <= k <= n - 1,
                0 <= gap,
        ;
        acc = acc.plus(buf[base + gap * k].times(kernel[i]));
        i = i + 1;
    }
    acc
}

/// The weights divided by their sum.
pub fn normalise(weights: &Vec<Single>) -> (r: Vec<Single>)
    ensures
        r@ == normalised(weights@),
{
    let m: usize = weights.len();
    let mut sum: Single = num(0);
    let mut i: usize = 0;
    while i < m
        invariant
            i <= m,
            m == weights@.len(),
            sum == weight_sum(weights@, i as int),
        decreases m - i,
    {
        sum = sum.plus(weights[i]);
        i = i + 1;
    }
    let mut r: Vec<Single> = Vec::new();
    let mut i: usize = 0;
    while i < m
        invariant
            i <= m,
            m == weights@.len(),
            sum == weight_sum(weights@, m as int),
            r@.len() == i,
            forall|j: int| 0 <= j < i ==> #[trigger] r@[j] == normalised(weights@)[j],
        decreases m - i,
    {
        r.push(weights[i].over(sum));
        i = i + 1;
    }
    assert(r@ =~= normalised(weights@));
    r
}

/// A plane of `w` by `h` values smoothed along rows and columns. The weights, an odd number of
/// them around the middle one, are first divided by their sum.
pub fn gaussian_blur(buf: &Vec<Single>, w: usize, h: usize, weights: &Vec<Single>) -> (out: Vec<Single>)
    requires
        0 < w <= 0xffff_ffff,
        0 < h <= 0xffff_ffff,
        buf@.len() == w * h,
        weights@.len() <= 0xffff_ffff,
    ensures
        out@ == smoothed(buf@, weights@, w as int, h as int),
        out@.len() == w * h,
{
    proof {
        reveal(smoothed);
    }
    let n: usize = buf.len();
    let kernel: Vec<Single> = normalise(weights);
    let mut tmp: Vec<Single> = Vec::new();
    let mut p: usize = 0;
    while p < n
        invariant
            0 < w <= 0xffff_ffff,
            0 < h <= 0xffff_ffff,
            n == w * h,
            buf@.len() == n,
            kernel@.len() <= 0xffff_ffff,
            p <= n,
            tmp@.len() == p,
            forall|j: int|
                0 <= j < p ==> #[trigger] tmp@[j] == rows_smoothed(
                    buf@,
                    kernel@,
                    w as int,
                    h as int,
                )[j],
        decreases n - p,
    {
        proof {
            lemma_pixel_place(w as int, h as int, p as int);
            lemma_pixel_in_range(w as int, h as int, w - 1, p as int / w as int);
            assert((p as int / w as int) * w >= 0) by (nonlinear_arith)
                requires
                    p as int / w as int >= 0,
                    w > 0,
            ;
        }
        let base: usize = (p / w) * w;
        tmp.push(smooth_line(buf, &kernel, base, 1, w, p % w));
        p = p + 1;
    }
    assert(tmp@ =~= rows_smoothed(buf@, kernel@, w as int, h as int));
    let mut out: Vec<Single> = Vec::new();
    let mut p: usize = 0;
    while p < n
        invariant
            0 < w <= 0xffff_ffff,
            0 < h <= 0xffff_ffff,
            n == w * h,
            tmp@.len() == n,
            kernel@.len() <= 0xffff_ffff,
            p <= n,
            out@.len() == p,
            forall|j: int|
                0 <= j < p ==> #[trigger] out@[j] == columns_smoothed(
                    tmp@,
                    kernel@,
                    w as int,
                    h as int,
                )[j],
        decreases n - p,
    {
        proof {
            lemma_pixel_place(w as int, h as int, p as int);
            lemma_pixel_in_range(w as int, h as int, p as int % w as int, h - 1);
            assert(w * (h - 1) == (h - 1) * w) by (nonlinear_arith);
        }
        out.push(smooth_line(&tmp, &kernel, p % w, w, h, p / w));
        p = p + 1;
    }
    assert(out@ =~= columns_smoothed(tmp@, kernel@, w as int, h as int));
    out
}

/// The squared distance of a cell from the middle of its box.
pub open spec fn square_of(p: int, r: int) -> int {
    let d = 2 * r + 1;
    (p % d - r) * (p % d - r) + (p / d - r) * (p / d - r)
}

/// The distance of a cell from the middle of its box.
pub open spec fn distance(p: int, r: int) -> Single {
    Single::spec_from_int(square_of(p, r)).sqrt()
}

/// The cell lies within a pixel of the disk's rim.
pub open spec fn on_rim(p: int, r: int) -> bool {
    let one = num(0x3f80_0000);
    distance(p, r).ge(Single::spec_from_int(r).minus(one)) && distance(p, r).le(
        Single::spec_from_int(r).plus(one),
    )
}

/// The cell lies in the disk.
pub open spec fn near(p: int, r: int) -> bool {
    distance(p, r).le(Single::spec_from_int(r))
}

/// The sum of a channel over the rim among the first `k` cells.
pub open spec fn rim_sum(tgt: Seq<Single>, r: int, c: int, k: int) -> Single
    decreases k,
{
    if k <= 0 {
        num(0)
    } else if on_rim(k - 1, r) {
        rim_sum(tgt, r, c, k - 1).plus(tgt[(k - 1) * 3 + c])
    } else {
        rim_sum(tgt, r, c, k - 1)
    }
}

/// How many of the first `k` cells lie on the rim.
pub open spec fn rim_count(r: int, k: int) -> int
    decreases k,
{
    if k <= 0 {
        0
    } else if on_rim(k - 1, r) {
        rim_count(r, k - 1) + 1
    } else {
        rim_count(r, k - 1)
    }
}

/// The box with its disk filled by the mean of the rim.
#[verifier::opaque]
pub open spec fn levelled(tgt: Seq<Single>, r: int) -> Seq<Single> {
    let n = (2 * r + 1) * (2 * r + 1);
    let count = rim_count(r, n);
    Seq::new(
        tgt.len(),
        |k: int|
            if count > 0 && near(k / 3, r) {
                rim_sum(tgt, r, k % 3, n).over(Single::spec_from_int(count))
            } else {
                tgt[k]
            },
    )
}

/// One channel of a box.
pub open spec fn channel(buf: Seq<Single>, n: int, c: int) -> Seq<Single> {
    Seq::new(n as nat, |p: int| buf[p * 3 + c])
}

/// How much of the healed value a cell takes: all of it inside, less towards the rim. `fade`
/// holds, by squared distance, the cosine that the fading follows.
#[verifier::opaque]
pub open spec fn share(p: int, r: int, fade: Seq<Single>) -> Single {
    let one = num(0x3f80_0000);
    if distance(p, r).over(Single::spec_from_int(r)).lt(num(0x3f59_999a)) {  // 0.85
        one
    } else {
        num(0x3f00_0000).times(one.plus(fade[square_of(p, r)]))  // 0.5
    }
}

/// The healed value of channel `k % 3` of cell `k / 3`.
pub open spec fn blended(
    tgt: Seq<Single>,
    src: Seq<Single>,
    r: int,
    weights: Seq<Single>,
    fade: Seq<Single>,
    k: int,
) -> u8 {
    let d = 2 * r + 1;
    let n = d * d;
    let (p, c) = (k / 3, k % 3);
    let level = levelled(tgt, r);
    let low = smoothed(channel(level, n, c), weights, d, d)[p];
    let high = src[k].minus(smoothed(channel(src, n, c), weights, d, d)[p]);
    let a = share(p, r, fade);
    mixed(level[k], low.plus(high), a)
}

/// Two values mixed, the second with the share `a`, as a byte.
#[verifier::opaque]
pub open spec fn mixed(v: Single, healed: Single, a: Single) -> u8 {
    v.times(num(0x3f80_0000).minus(a)).plus(
        healed.clamp(num(0), num(0x437f_0000)).times(a),  // 255
    ).truncated(0, 255) as u8
}

/// The healed image's channel `c` at `(x, y)`.
pub open spec fn freqsep_at(
    img: RgbImage,
    cx: int,
    cy: int,
    r: int,
    sx: int,
    sy: int,
    weights: Seq<Single>,
    fade: Seq<Single>,
    x: int,
    y: int,
    c: int,
) -> u8 {
    let d = 2 * r + 1;
    let p = (y - cy + r) * d + (x - cx + r);
    if box_inside(img.width as int, img.height as int, cx, cy, r) && cx - r <= x <= cx + r && cy - r
        <= y <= cy + r && near(p, r) {
        blended(
            patch(img, cx - r, cy - r, d, 0, 0),
            patch(img, cx - r, cy - r, d, sx - cx, sy - cy),
            r,
            weights,
            fade,
            p * 3 + c,
        )
    } else {
        img.at(x, y, c)
    }
}

/// The exponent of the weight at `d` pixels from the middle of a smoothing; `width` is its width.
pub open spec fn smoothing_exponent(d: int, width: Single) -> Single {
    let x = Single::spec_from_int(d).over(width);
    num(0xbf00_0000).times(x.times(x))  // -0.5
}

/// Where the weight of a smoothing is taken: exp of this.
pub fn smoothing_exponent_of(d: i32, width: Single) -> (r: Single)
    ensures
        r == smoothing_exponent(d as int, width),
{
    let x: Single = Single::from_int(d as i128).over(width);
    num(0xbf00_0000).times(x.times(x))  // -0.5
}

/// The angle that the rim of a spot of radius `r` follows at the squared distance `q`: nothing
/// at 0.85 of the radius, half a turn at the radius.
pub open spec fn rim_angle(q: int, r: int) -> Single {
    let t = Single::spec_from_int(q).sqrt().over(Single::spec_from_int(r));
    // pi, 0.85, 0.15
    num(0x4049_0fdb).times(t.minus(num(0x3f59_999a))).over(num(0x3e19_999a))
}

/// Where the rim of a spot is taken: cos of this.
pub fn rim_angle_of(q: u64, r: u32) -> (a: Single)
    ensures
        a == rim_angle(q as int, r as int),
{
    let t: Single = Single::from_int(q as i128).sqrt().over(Single::from_int(r as i128));
    // pi, 0.85, 0.15
    num(0x4049_0fdb).times(t.minus(num(0x3f59_999a))).over(num(0x3e19_999a))
}

/// How wide the smoothing for a spot of radius `r` is.
pub open spec fn spread(r: int) -> Single {
    Single::spec_from_int(r).times(num(0x3ecc_cccd)).max(num(0x3f80_0000))
}

/// The width of the smoothing for a spot of radius `r`.
pub fn smoothing_width(r: u32) -> (v: Single)
    ensures
        v == spread(r as int),
{
    Single::from_int(r as i128).times(num(0x3ecc_cccd)).max(num(0x3f80_0000))  // 0.4, 1
}

/// How many weights there are on each side of the middle one.
pub fn kernel_radius(sigma: Single) -> (n: u32)
    ensures
        n == (if num(0x4040_0000).times(sigma).raised(0, u32::MAX as int) < 1 {
            1
        } else {
            num(0x4040_0000).times(sigma).raised(0, u32::MAX as int)  // 3
        }),
{
    let n: u32 = num(0x4040_0000).times(sigma).ceil_u32();  // 3
    if n < 1 {
        1
    } else {
        n
    }
}

fn square(p: usize, r: usize) -> (s: i64)
    requires
        r <= 0x3fff_ffff,
        p < (2 * r + 1) * (2 * r + 1),
    ensures
        s == square_of(p as int, r as int),
        0 <= s <= 2 * (r * r),
{
    let d: usize = 2 * r + 1;
    proof {
        lemma_pixel_place(d as int, d as int, p as int);
    }
    let dx: i64 = (p % d) as i64 - r as i64;
    let dy: i64 = (p / d) as i64 - r as i64;
    proof {
        assert(0 <= dx * dx <= r * r && 0 <= dy * dy <= r * r) by (nonlinear_arith)
            requires
                -r <= dx <= r,
                -r <= dy <= r,
        ;
        assert(r * r <= 0x3fff_ffff * 0x3fff_ffff) by (nonlinear_arith)
            requires
                0 <= r <= 0x3fff_ffff,
        ;
    }
    dx * dx + dy * dy
}

/// Fills the disk of a box with the mean of its rim.
fn level_disk(tgt: &Vec<Single>, r: usize) -> (out: Vec<Single>)
    requires
        r <= 0x3fff_ffff,
        tgt@.len() == (2 * r + 1) * (2 * r + 1) * 3,
    ensures
        out@ == levelled(tgt@, r as int),
        out@.len() == tgt@.len(),
{
    proof {
        reveal(levelled);
    }
    let total: usize = tgt.len();
    let n: usize = total / 3;
    let ghost gr = r as int;
    let one: Single = num(0x3f80_0000);
    let rad: Single = Single::from_int(r as i128);
    let inner: Single = rad.minus(one);
    let outer: Single = rad.plus(one);
    let mut s0: Single = num(0);
    let mut s1: Single = num(0);
    let mut s2: Single = num(0);
    let mut count: usize = 0;
    let mut p: usize = 0;
    while p < n
        invariant
            r <= 0x3fff_ffff,
            gr == r,
            one == num(0x3f80_0000),
            rad == Single::spec_from_int(gr),
            inner == rad.minus(one),
            outer == rad.plus(one),
            n == (2 * r + 1) * (2 * r + 1),
            total == 3 * n,
            tgt@.len() == total,
            p <= n,
            count <= p,
            count == rim_count(gr, p as int),
            s0 == rim_sum(tgt@, gr, 0, p as int),
            s1 == rim_sum(tgt@, gr, 1, p as int),
            s2 == rim_sum(tgt@, gr, 2, p as int),
        decreases n - p,
    {
        let dist: Single = Single::from_int(square(p, r) as i128).sqrt();
        if dist.ge(inner) && dist.le(outer) {
            s0 = s0.plus(tgt[p * 3]);
            s1 = s1.plus(tgt[p * 3 + 1]);
            s2 = s2.plus(tgt[p * 3 + 2]);
            count = count + 1;
        }
        p = p + 1;
    }
    let many: Single = Single::from_int(count as i128);
    let m0: Single = s0.over(many);
    let m1: Single = s1.over(many);
    let m2: Single = s2.over(many);
    let mut out: Vec<Single> = Vec::new();
    let mut p: usize = 0;
    while p < n
        invariant
            r <= 0x3fff_ffff,
            gr == r,
            rad == Single::spec_from_int(gr),
            n == (2 * r + 1) * (2 * r + 1),
            total == 3 * n,
            tgt@.len() == total,
            p <= n,
            count == rim_count(gr, n as int),
            m0 == rim_sum(tgt@, gr, 0, n as int).over(Single::spec_from_int(count as int)),
            m1 == rim_sum(tgt@, gr, 1, n as int).over(Single::spec_from_int(count as int)),
            m2 == rim_sum(tgt@, gr, 2, n as int).over(Single::spec_from_int(count as int)),
            out@.len() == 3 * p,
            forall|k: int| 0 <= k < 3 * p ==> #[trigger] out@[k] == levelled(tgt@, gr)[k],
        decreases n - p,
    {
        let ghost before = out@;
        let dist: Single = Single::from_int(square(p, r) as i128).sqrt();
        if count > 0 && dist.le(rad) {
            out.push(m0);
            out.push(m1);
            out.push(m2);
        } else {
            out.push(tgt[p * 3]);
            out.push(tgt[p * 3 + 1]);
            out.push(tgt[p * 3 + 2]);
        }
        proof {
            reveal(levelled);
            assert forall|k: int| 0 <= k < 3 * (p + 1) implies #[trigger] out@[k] == levelled(
                tgt@,
                gr,
            )[k] by {
                if k < 3 * p {
                    assert(out@[k] == before[k]);
                } else {
                    assert(k / 3 == p && k % 3 == k - 3 * p);
                }
            }
        }
        p = p + 1;
    }
    assert(out@ =~= levelled(tgt@, gr));
    out
}

fn take_channel(buf: &Vec<Single>, n: usize, c: usize) -> (out: Vec<Single>)
    requires
        c < 3,
        buf@.len() == 3 * n,
    ensures
        out@ == channel(buf@, n as int, c as int),
{
    let total: usize = buf.len();
    let mut out: Vec<Single> = Vec::new();
    let mut p: usize = 0;
    while p < n
        invariant
            c < 3,
            buf@.len() == 3 * n,
            buf@.len() == total,
            p <= n,
            out@.len() == p,
            forall|j: int| 0 <= j < p ==> #[trigger] out@[j] == buf@[j * 3 + c],
        decreases n - p,
    {
        out.push(buf[p * 3 + c]);
        p = p + 1;
    }
    assert(out@ =~= channel(buf@, n as int, c as int));
    out
}

fn mix(v: Single, healed: Single, a: Single) -> (b: u8)
    ensures
        b == mixed(v, healed, a),
{
    proof {
        reveal(mixed);
    }
    v.times(num(0x3f80_0000).minus(a)).plus(
        healed.clamp(num(0), num(0x437f_0000)).times(a),  // 255
    ).to_u8()
}

/// One channel of the healed box.
fn blend_channel(
    level: &Vec<Single>,
    src: &Vec<Single>,
    r: usize,
    weights: &Vec<Single>,
    fade: &Vec<Single>,
    c: usize,
    Ghost(tgt): Ghost<Seq<Single>>,
) -> (out: Vec<u8>)
    requires
        r <= 0x3fff_ffff,
        c < 3,
        tgt.len() == (2 * r + 1) * (2 * r + 1) * 3,
        level@ == levelled(tgt, r as int),
        level@.len() == tgt.len(),
        src@.len() == tgt.len(),
        weights@.len() <= 0xffff_ffff,
        2 * (r * r) < fade@.len(),
    ensures
        out@.len() == (2 * r + 1) * (2 * r + 1),
        forall|p: int|
            0 <= p < out@.len() ==> #[trigger] out@[p] == blended(
                tgt,
                src@,
                r as int,
                weights@,
                fade@,
                p * 3 + c,
            ),
{
    let d: usize = 2 * r + 1;
    let total: usize = level.len();
    let n: usize = total / 3;
    assert(n == d * d);
    let low: Vec<Single> = gaussian_blur(&take_channel(level, n, c), d, d, weights);
    let soft: Vec<Single> = gaussian_blur(&take_channel(src, n, c), d, d, weights);
    let mut out: Vec<u8> = Vec::new();
    let mut p: usize = 0;
    while p < n
        invariant
            r <= 0x3fff_ffff,
            c < 3,
            d == 2 * r + 1,
            n == d * d,
            total == 3 * n,
            tgt.len() == total,
            level@ == levelled(tgt, r as int),
            level@.len() == total,
            src@.len() == total,
            low@.len() == n,
            soft@.len() == n,
            low@ == smoothed(
                channel(level@, n as int, c as int),
                weights@,
                d as int,
                d as int,
            ),
            soft@ == smoothed(channel(src@, n as int, c as int), weights@, d as int, d as int),
            2 * (r * r) < fade@.len(),
            p <= n,
            out@.len() == p,
            forall|j: int|
                0 <= j < p ==> #[trigger] out@[j] == blended(
                    tgt,
                    src@,
                    r as int,
                    weights@,
                    fade@,
                    j * 3 + c,
                ),
        decreases n - p,
    {
        let k: usize = p * 3 + c;
        let a: Single = share_of(p, r, fade);
        let v: u8 = mix(level[k], low[p].plus(src[k].minus(soft[p])), a);
        proof {
            assert(k as int / 3 == p && k as int % 3 == c);
        }
        out.push(v);
        p = p + 1;
    }
    out
}

fn share_of(p: usize, r: usize, fade: &Vec<Single>) -> (a: Single)
    requires
        r <= 0x3fff_ffff,
        p < (2 * r + 1) * (2 * r + 1),
        2 * (r * r) < fade@.len(),
    ensures
        a == share(p as int, r as int, fade@),
{
    proof {
        reveal(share);
    }
    let count: usize = fade.len();
    let sq: i64 = square(p, r);
    let one: Single = num(0x3f80_0000);
    let dist: Single = Single::from_int(sq as i128).sqrt();
    if dist.over(Single::from_int(r as i128)).lt(num(0x3f59_999a)) {  // 0.85
        one
    } else {
        num(0x3f00_0000).times(one.plus(fade[sq as usize]))  // 0.5
    }
}

/// Heals the disk of radius `r` around `(cx, cy)` with the texture around `(sx, sy)`. A disk
/// whose box leaves the image is left alone. `weights` are those of the smoothing and `fade`
/// holds, by squared distance from the centre, the cosine that the fading follows.
pub fn freqsep_heal(
    img: &mut RgbImage,
    cx: i32,
    cy: i32,
    r: i32,
    sx: i32,
    sy: i32,
    weights: &Vec<Single>,
    fade: &Vec<Single>,
)
    requires
        old(img).wf(),
        0 <= r <= 0x3fff_ffff,
        weights@.len() <= 0xffff_ffff,
        2 * (r * r) < fade@.len(),
    ensures
        final(img).wf(),
        final(img).width == old(img).width,
        final(img).height == old(img).height,
        forall|x: int, y: int, c: int|
            0 <= x < old(img).width && 0 <= y < old(img).height && 0 <= c < 3
                ==> #[trigger] final(img).at(x, y, c) == freqsep_at(
                *old(img),
                cx as int,
                cy as int,
                r as int,
                sx as int,
                sy as int,
                weights@,
                fade@,
                x,
                y,
                c,
            ),
{
    let ghost first = *img;
    let w: i64 = img.width as i64;
    let h: i64 = img.height as i64;
    let (gx, gy, rad): (i64, i64, i64) = (cx as i64, cy as i64, r as i64);
    if gx - rad < 0 || gy - rad < 0 || gx + rad >= w || gy + rad >= h {
        return;
    }
    let rr: usize = r as usize;
    let d: usize = 2 * rr + 1;
    let size: usize = img.data.len();
    proof {
        assert(d * d * 3 <= size) by (nonlinear_arith)
            requires
                0 < d <= first.width,
                0 < d <= first.height,
                size == first.width * first.height * 3,
        ;
    }
    let tgt: Vec<Single> = read_patch(img, gx - rad, gy - rad, d, 0, 0);
    let src: Vec<Single> = read_patch(
        img,
        gx - rad,
        gy - rad,
        d,
        sx as i64 - gx,
        sy as i64 - gy,
    );
    let level: Vec<Single> = level_disk(&tgt, rr);
    let red: Vec<u8> = blend_channel(&level, &src, rr, weights, fade, 0, Ghost(tgt@));
    let green: Vec<u8> = blend_channel(&level, &src, rr, weights, fade, 1, Ghost(tgt@));
    let blue: Vec<u8> = blend_channel(&level, &src, rr, weights, fade, 2, Ghost(tgt@));
    let n: usize = red.len();
    let limit: Single = Single::from_int(r as i128);
    let ghost gr = r as int;
    let ghost gd = d as int;
    let ghost bytes = |k: int| blended(tgt@, src@, gr, weights@, fade@, k);
    let mut p: usize = 0;
    while p < n
        invariant
            img.wf(),
            img.width == first.width,
            img.height == first.height,
            first.wf(),
            0 <= r <= 0x3fff_ffff,
            rr == r,
            gr == r,
            gd == d,
            d == 2 * rr + 1,
            n == d * d,
            red@.len() == n,
            green@.len() == n,
            blue@.len() == n,
            limit == Single::spec_from_int(gr),
            box_inside(first.width as int, first.height as int, cx as int, cy as int, gr),
            bytes == |k: int| blended(tgt@, src@, gr, weights@, fade@, k),
            forall|j: int| 0 <= j < n ==> #[trigger] red@[j] == bytes(j * 3 + 0),
            forall|j: int| 0 <= j < n ==> #[trigger] green@[j] == bytes(j * 3 + 1),
            forall|j: int| 0 <= j < n ==> #[trigger] blue@[j] == bytes(j * 3 + 2),
            p <= n,
            forall|x: int, y: int, c: int|
                0 <= x < first.width && 0 <= y < first.height && 0 <= c < 3 ==> #[trigger] img.at(
                    x,
                    y,
                    c,
                ) == ({
                    let q = (y - cy + gr) * gd + (x - cx + gr);
                    if cx - gr <= x <= cx + gr && cy - gr <= y <= cy + gr && near(q, gr) && q < p {
                        bytes(q * 3 + c)
                    } else {
                        first.at(x, y, c)
                    }
                }),
        decreases n - p,
    {
        proof {
            lemma_pixel_place(gd, gd, p as int);
        }
        let ghost now = *img;
        let px: u32 = (cx as i64 - r as i64 + (p % d) as i64) as u32;
        let py: u32 = (cy as i64 - r as i64 + (p / d) as i64) as u32;
        let dist: Single = Single::from_int(square(p, rr) as i128).sqrt();
        if dist.le(limit) {
            let o: usize = img.offset(px, py);
            img.data.set(o, red[p]);
            img.data.set(o + 1, green[p]);
            img.data.set(o + 2, blue[p]);
        }
        proof {
            let (ux, uy) = (px as int, py as int);
            assert forall|x: int, y: int, c: int|
                0 <= x < first.width && 0 <= y < first.height && 0 <= c < 3 implies #[trigger] img.at(
                x,
                y,
                c,
            ) == ({
                let q = (y - cy + gr) * gd + (x - cx + gr);
                if cx - gr <= x <= cx + gr && cy - gr <= y <= cy + gr && near(q, gr) && q < p + 1 {
                    bytes(q * 3 + c)
                } else {
                    first.at(x, y, c)
                }
            }) by {
                let q = (y - cy + gr) * gd + (x - cx + gr);
                assert(now.at(x, y, c) == if cx - gr <= x <= cx + gr && cy - gr <= y <= cy + gr
                    && near(q, gr) && q < p {
                    bytes(q * 3 + c)
                } else {
                    first.at(x, y, c)
                });
                if x == ux && y == uy {
                    assert(q == p);
                } else {
                    lemma_other_pixel(first.width as int, first.height as int, x, y, c, ux, uy);
                    if cx - gr <= x <= cx + gr && cy - gr <= y <= cy + gr {
                        lemma_pixel_in_range(gd, gd, x - cx + gr, y - cy + gr);
                        assert(q != p);
                    }
                }
            }
        }
        p = p + 1;
    }
    proof {
        assert forall|x: int, y: int, c: int|
            0 <= x < first.width && 0 <= y < first.height && 0 <= c < 3 implies #[trigger] img.at(
            x,
            y,
            c,
        ) == freqsep_at(
            first,
            cx as int,
            cy as int,
            gr,
            sx as int,
            sy as int,
            weights@,
            fade@,
            x,
            y,
            c,
        ) by {
            if cx - gr <= x <= cx + gr && cy - gr <= y <= cy + gr {
                lemma_pixel_in_range(gd, gd, x - cx + gr, y - cy + gr);
            }
        }
    }
}

} // verus!
