//! Seamless cloning in the gradient domain.
//!
//! The disk of a spot takes the gradients of a source patch and meets the picture at its rim.
//! The equations are relaxed in place, sweep by sweep.

use crate::order::{
    law_difference_lies_between, law_limits_keep_order, law_quarter_lies_between,
    law_sum_lies_between, law_whole_numbers_are_exact, lemma_top_byte, lies_between,
};
use crate::raster::{lemma_pixel_in_range, lemma_pixel_place, offset3, RgbImage};
use crate::single::{
    law_order_is_numeric, law_small_integers_are_whole,
    law_whole_parts_keep_order, lemma_no_integer, num, within, Single,
};
use crate::spot::in_disk;
use vstd::prelude::*;

verus! {

/// An index moved to the nearest one in `0..n`.
pub open spec fn held(i: int, n: int) -> int {
    if i < 0 {
        0
    } else if i >= n {
        n - 1
    } else {
        i
    }
}

/// The box of side `2 * r + 1` around `(cx, cy)` lies in an image of `w` by `h` pixels.
pub open spec fn box_inside(w: int, h: int, cx: int, cy: int, r: int) -> bool {
    0 <= cx - r && 0 <= cy - r && cx + r < w && cy + r < h
}

/// The channels of a box of side `d` with its corner at `(bx, by)`, moved by `(ox, oy)` and
/// held inside the image.
pub open spec fn patch(img: RgbImage, bx: int, by: int, d: int, ox: int, oy: int) -> Seq<Single> {
    Seq::new(
        (d * d * 3) as nat,
        |k: int|
            Single::spec_from_int(
                img.at(
                    held(bx + (k / 3) % d + ox, img.width as int),
                    held(by + (k / 3) / d + oy, img.height as int),
                    k % 3,
                ) as int,
            ),
    )
}

/// Cell `p` of a box of side `2 * r + 1` lies in its disk.
pub open spec fn cell_in_disk(p: int, r: int) -> bool {
    in_disk(r, r, r, p % (2 * r + 1), p / (2 * r + 1))
}

/// The steps to the four neighbours, in the order in which they are summed.
pub open spec fn step4(j: int) -> (int, int) {
    if j == 0 {
        (1, 0)
    } else if j == 1 {
        (-1, 0)
    } else if j == 2 {
        (0, 1)
    } else {
        (0, -1)
    }
}

/// The value at neighbour `j` of cell `p` and the source's gradient towards it. A cell at the
/// edge of the box stands in for a neighbour that the box does not have.
pub open spec fn side(
    f: Seq<Single>,
    tgt: Seq<Single>,
    src: Seq<Single>,
    r: int,
    p: int,
    c: int,
    j: int,
) -> (Single, Single) {
    let d = 2 * r + 1;
    let nx = p % d + step4(j).0;
    let ny = p / d + step4(j).1;
    if 0 <= nx < d && 0 <= ny < d {
        let q = ny * d + nx;
        (
            if cell_in_disk(q, r) { f[q * 3 + c] } else { tgt[q * 3 + c] },
            src[q * 3 + c].minus(src[p * 3 + c]),
        )
    } else {
        (tgt[p * 3 + c], src[p * 3 + c].minus(src[p * 3 + c]))
    }
}

/// The relaxed value of one channel of cell `p`: the mean of its neighbours less the source's
/// gradients.
pub open spec fn relaxed(
    f: Seq<Single>,
    tgt: Seq<Single>,
    src: Seq<Single>,
    r: int,
    p: int,
    c: int,
) -> Single {
    let s0 = side(f, tgt, src, r, p, c, 0);
    let s1 = side(f, tgt, src, r, p, c, 1);
    let s2 = side(f, tgt, src, r, p, c, 2);
    let s3 = side(f, tgt, src, r, p, c, 3);
    let values = num(0).plus(s0.0).plus(s1.0).plus(s2.0).plus(s3.0);
    let slope = num(0).plus(s0.1).plus(s1.1).plus(s2.1).plus(s3.1);
    values.minus(slope).times(num(0x3e80_0000))  // 0.25
}

/// The first `k` channel values of a sweep over the box relaxed, one after the other.
pub open spec fn sweep(
    f: Seq<Single>,
    tgt: Seq<Single>,
    src: Seq<Single>,
    r: int,
    k: int,
) -> Seq<Single>
    decreases k,
{
    if k <= 0 {
        f
    } else {
        let g = sweep(f, tgt, src, r, k - 1);
        let p = (k - 1) / 3;
        if cell_in_disk(p, r) {
            g.update(k - 1, relaxed(g, tgt, src, r, p, (k - 1) % 3))
        } else {
            g
        }
    }
}

/// `n` whole sweeps.
pub open spec fn sweeps(tgt: Seq<Single>, src: Seq<Single>, r: int, n: int) -> Seq<Single>
    decreases n,
{
    if n <= 0 {
        tgt
    } else {
        sweep(sweeps(tgt, src, r, n - 1), tgt, src, r, (2 * r + 1) * (2 * r + 1) * 3)
    }
}

/// A value as a byte: limited to the range of bytes and cut off.
pub open spec fn as_byte(v: Single) -> u8 {
    v.clamp(num(0), num(0x437f_0000)).truncated(0, 255) as u8
}

/// The healed image's channel `c` at `(x, y)`.
pub open spec fn poisson_at(
    img: RgbImage,
    cx: int,
    cy: int,
    r: int,
    sx: int,
    sy: int,
    iters: int,
    x: int,
    y: int,
    c: int,
) -> u8 {
    let d = 2 * r + 1;
    if box_inside(img.width as int, img.height as int, cx, cy, r) && in_disk(cx, cy, r, x, y) {
        let tgt = patch(img, cx - r, cy - r, d, 0, 0);
        let src = patch(img, cx - r, cy - r, d, sx - cx, sy - cy);
        as_byte(sweeps(tgt, src, r, iters)[((y - cy + r) * d + (x - cx + r)) * 3 + c])
    } else {
        img.at(x, y, c)
    }
}

pub fn to_byte(v: Single) -> (b: u8)
    ensures
        b == as_byte(v),
{
    v.clamp(num(0), num(0x437f_0000)).to_u8()  // 255
}

fn hold(i: i64, n: u32) -> (r: u32)
    requires
        0 < n,
    ensures
        r == held(i as int, n as int),
        r < n,
{
    if i < 0 {
        0
    } else if i >= n as i64 {
        n - 1
    } else {
        i as u32
    }
}

/// Reads a box of the image.
pub fn read_patch(img: &RgbImage, bx: i64, by: i64, d: usize, ox: i64, oy: i64) -> (v: Vec<Single>)
    requires
        img.wf(),
        0 < img.width,
        0 < img.height,
        0 < d,
        d * d * 3 <= usize::MAX,
        -0x1_0000_0000 <= bx <= 0x1_0000_0000,
        -0x1_0000_0000 <= by <= 0x1_0000_0000,
        -0x2_0000_0000 <= ox <= 0x2_0000_0000,
        -0x2_0000_0000 <= oy <= 0x2_0000_0000,
        d <= 0x1_0000_0000,
    ensures
        v@ == patch(*img, bx as int, by as int, d as int, ox as int, oy as int),
{
    let mut v: Vec<Single> = Vec::new();
    assert(d * d <= d * d * 3) by (nonlinear_arith);
    let n: usize = d * d;
    let mut p: usize = 0;
    while p < n
        invariant
            img.wf(),
            0 < img.width,
            0 < img.height,
            0 < d <= 0x1_0000_0000,
            n == d * d,
            -0x1_0000_0000 <= bx <= 0x1_0000_0000,
            -0x1_0000_0000 <= by <= 0x1_0000_0000,
            -0x2_0000_0000 <= ox <= 0x2_0000_0000,
            -0x2_0000_0000 <= oy <= 0x2_0000_0000,
            p <= n,
            v@.len() == 3 * p,
            n * 3 == d * d * 3,
            forall|k: int|
                0 <= k < 3 * p ==> #[trigger] v@[k] == patch(
                    *img,
                    bx as int,
                    by as int,
                    d as int,
                    ox as int,
                    oy as int,
                )[k],
        decreases n - p,
    {
        proof {
            lemma_pixel_place(d as int, d as int, p as int);
        }
        let x: u32 = hold(bx + (p % d) as i64 + ox, img.width);
        let y: u32 = hold(by + (p / d) as i64 + oy, img.height);
        let o: usize = img.offset(x, y);
        let ghost before = v@;
        v.push(Single::from_int(img.data[o] as i128));
        v.push(Single::from_int(img.data[o + 1] as i128));
        v.push(Single::from_int(img.data[o + 2] as i128));
        proof {
            assert forall|k: int| 0 <= k < 3 * (p + 1) implies #[trigger] v@[k] == patch(
                *img,
                bx as int,
                by as int,
                d as int,
                ox as int,
                oy as int,
            )[k] by {
                if k < 3 * p {
                    assert(v@[k] == before[k]);
                } else {
                    assert(k / 3 == p);
                    assert(k % 3 == k - 3 * p);
                }
            }
        }
        p = p + 1;
    }
    assert(v@ =~= patch(*img, bx as int, by as int, d as int, ox as int, oy as int));
    v
}

/// Whether a cell of the box lies in its disk.
pub fn is_in_disk(p: usize, r: usize) -> (b: bool)
    requires
        r <= 0x7fff_ffff,
        p < (2 * r + 1) * (2 * r + 1),
    ensures
        b == cell_in_disk(p as int, r as int),
{
    let d: usize = 2 * r + 1;
    proof {
        lemma_pixel_place(d as int, d as int, p as int);
    }
    let dx: i64 = (p % d) as i64 - r as i64;
    let dy: i64 = (p / d) as i64 - r as i64;
    proof {
        assert(0 <= dx * dx <= r * r && 0 <= dy * dy <= r * r) by (nonlinear_arith)
            requires
                -r <= dx <= r,
                -r <= dy <= r,
        ;
        assert(r * r <= 0x7fff_ffff * 0x7fff_ffff) by (nonlinear_arith)
            requires
                0 <= r <= 0x7fff_ffff,
        ;
    }
    dx * dx + dy * dy <= (r as i64) * (r as i64)
}

fn read_side(
    f: &Vec<Single>,
    tgt: &Vec<Single>,
    src: &Vec<Single>,
    r: usize,
    p: usize,
    c: usize,
    j: usize,
) -> (s: (Single, Single))
    requires
        r <= 0x7fff_ffff,
        p < (2 * r + 1) * (2 * r + 1),
        c < 3,
        j < 4,
        f@.len() == (2 * r + 1) * (2 * r + 1) * 3,
        tgt@.len() == f@.len(),
        src@.len() == f@.len(),
    ensures
        s == side(f@, tgt@, src@, r as int, p as int, c as int, j as int),
{
    let d: usize = 2 * r + 1;
    let count: usize = f.len();
    proof {
        lemma_pixel_place(d as int, d as int, p as int);
    }
    let x: usize = p % d;
    let y: usize = p / d;
    if (j == 0 && x + 1 < d) || (j == 1 && x > 0) || (j == 2 && y + 1 < d) || (j == 3 && y > 0) {
        let nx: usize = if j == 0 {
            x + 1
        } else if j == 1 {
            x - 1
        } else {
            x
        };
        let ny: usize = if j == 2 {
            y + 1
        } else if j == 3 {
            y - 1
        } else {
            y
        };
        proof {
            lemma_pixel_in_range(d as int, d as int, nx as int, ny as int);
            assert(0 <= ny * d) by (nonlinear_arith);
        }
        let q: usize = ny * d + nx;
        let v: Single = if is_in_disk(q, r) {
            f[q * 3 + c]
        } else {
            tgt[q * 3 + c]
        };
        (v, src[q * 3 + c].minus(src[p * 3 + c]))
    } else {
        (tgt[p * 3 + c], src[p * 3 + c].minus(src[p * 3 + c]))
    }
}

fn relax(
    f: &Vec<Single>,
    tgt: &Vec<Single>,
    src: &Vec<Single>,
    r: usize,
    p: usize,
    c: usize,
) -> (v: Single)
    requires
        r <= 0x7fff_ffff,
        p < (2 * r + 1) * (2 * r + 1),
        c < 3,
        f@.len() == (2 * r + 1) * (2 * r + 1) * 3,
        tgt@.len() == f@.len(),
        src@.len() == f@.len(),
    ensures
        v == relaxed(f@, tgt@, src@, r as int, p as int, c as int),
{
    let s0: (Single, Single) = read_side(f, tgt, src, r, p, c, 0);
    let s1: (Single, Single) = read_side(f, tgt, src, r, p, c, 1);
    let s2: (Single, Single) = read_side(f, tgt, src, r, p, c, 2);
    let s3: (Single, Single) = read_side(f, tgt, src, r, p, c, 3);
    let values: Single = num(0).plus(s0.0).plus(s1.0).plus(s2.0).plus(s3.0);
    let slope: Single = num(0).plus(s0.1).plus(s1.1).plus(s2.1).plus(s3.1);
    values.minus(slope).times(num(0x3e80_0000))  // 0.25
}

/// Relaxes the box `iters` times.
fn solve(tgt: &Vec<Single>, src: &Vec<Single>, r: usize, iters: u32) -> (f: Vec<Single>)
    requires
        r <= 0x7fff_ffff,
        tgt@.len() == (2 * r + 1) * (2 * r + 1) * 3,
        src@.len() == tgt@.len(),
    ensures
        f@ == sweeps(tgt@, src@, r as int, iters as int),
        f@.len() == tgt@.len(),
{
    let n: usize = tgt.len();
    let mut f: Vec<Single> = Vec::new();
    let mut i: usize = 0;
    while i < n
        invariant
            i <= n,
            n == tgt@.len(),
            f@ =~= tgt@.subrange(0, i as int),
        decreases n - i,
    {
        f.push(tgt[i]);
        i = i + 1;
    }
    assert(f@ =~= tgt@);
    let mut t: u32 = 0;
    while t < iters
        invariant
            r <= 0x7fff_ffff,
            n == (2 * r + 1) * (2 * r + 1) * 3,
            tgt@.len() == n,
            src@.len() == n,
            f@.len() == n,
            t <= iters,
            f@ == sweeps(tgt@, src@, r as int, t as int),
        decreases iters - t,
    {
        let ghost start = f@;
        let mut k: usize = 0;
        while k < n
            invariant
                r <= 0x7fff_ffff,
                n == (2 * r + 1) * (2 * r + 1) * 3,
                tgt@.len() == n,
                src@.len() == n,
                start.len() == n,
                f@.len() == n,
                k <= n,
                f@ == sweep(start, tgt@, src@, r as int, k as int),
            decreases n - k,
        {
            let p: usize = k / 3;
            if is_in_disk(p, r) {
                let v: Single = relax(&f, tgt, src, r, p, k % 3);
                f.set(k, v);
            }
            k = k + 1;
        }
        t = t + 1;
    }
    f
}

/// Fills the disk of radius `r` around `(cx, cy)` with the gradients of the disk around
/// `(sx, sy)`. A disk whose box leaves the image is left alone.
pub fn poisson_heal(img: &mut RgbImage, cx: i32, cy: i32, r: i32, sx: i32, sy: i32, iters: u32)
    requires
        old(img).wf(),
        0 <= r,
    ensures
        final(img).wf(),
        final(img).width == old(img).width,
        final(img).height == old(img).height,
        forall|x: int, y: int, c: int|
            0 <= x < old(img).width && 0 <= y < old(img).height && 0 <= c < 3 ==> #[trigger] final(img).at(x, y, c) == poisson_at(
                *old(img),
                cx as int,
                cy as int,
                r as int,
                sx as int,
                sy as int,
                iters as int,
                x,
                y,
                c,
            ),
{
    let ghost first = *img;
    let w: i64 = img.width as i64;
    let h: i64 = img.height as i64;
    let (gx, gy, rad): (i64, i64, i64) = (cx as i64, cy as i64, r as i64);
    if gx - rad < 0 || gy - rad < 0 || gx + rad >= w || gy + rad >= h {
        return;
    }
    let d: usize = 2 * r as usize + 1;
    let count: usize = img.data.len();
    proof {
        assert(d * d * 3 <= count) by (nonlinear_arith)
            requires
                0 < d <= first.width,
                0 < d <= first.height,
                count == first.width * first.height * 3,
        ;
    }
    let tgt: Vec<Single> = read_patch(img, gx - rad, gy - rad, d, 0, 0);
    let src: Vec<Single> = read_patch(
        img,
        gx - rad,
        gy - rad,
        d,
        sx as i64 - gx,
        sy as i64 - gy,
    );
    let f: Vec<Single> = solve(&tgt, &src, r as usize, iters);
    write_disk(img, cx, cy, r, &f);
    proof {
        let gr = r as int;
        assert forall|x: int, y: int, c: int|
            0 <= x < first.width && 0 <= y < first.height && 0 <= c < 3 implies #[trigger] img.at(
            x,
            y,
            c,
        ) == poisson_at(
            first,
            cx as int,
            cy as int,
            gr,
            sx as int,
            sy as int,
            iters as int,
            x,
            y,
            c,
        ) by {}
    }
}

/// Writes the values of a box's disk, as bytes, into the image.
pub fn write_disk(img: &mut RgbImage, cx: i32, cy: i32, r: i32, f: &Vec<Single>)
    requires
        old(img).wf(),
        0 <= r,
        box_inside(
            old(img).width as int,
            old(img).height as int,
            cx as int,
            cy as int,
            r as int,
        ),
        f@.len() == (2 * r + 1) * (2 * r + 1) * 3,
    ensures
        final(img).wf(),
        final(img).width == old(img).width,
        final(img).height == old(img).height,
        forall|x: int, y: int, c: int|
            0 <= x < old(img).width && 0 <= y < old(img).height && 0 <= c < 3 ==> #[trigger] final(img).at(x, y, c) == if in_disk(cx as int, cy as int, r as int, x, y) {
                as_byte(f@[((y - cy + r) * (2 * r + 1) + (x - cx + r)) * 3 + c])
            } else {
                old(img).at(x, y, c)
            },
{
    let ghost first = *img;
    let rr: usize = r as usize;
    let d: usize = 2 * rr + 1;
    let count: usize = f.len();
    let n: usize = count / 3;
    let ghost gr = r as int;
    assert(n == d * d);
    proof {
        assert forall|x: int, y: int|
            #![trigger in_disk(cx as int, cy as int, gr, x, y)]
            in_disk(cx as int, cy as int, gr, x, y) implies (y - cy + gr) * d + (x - cx + gr) >= 0 by {
            lemma_disk_in_box(cx as int, cy as int, gr, x, y);
            lemma_pixel_in_range(d as int, d as int, x - cx + gr, y - cy + gr);
        }
    }
    let mut p: usize = 0;
    while p < n
        invariant
            img.wf(),
            img.width == first.width,
            img.height == first.height,
            first.wf(),
            0 <= r,
            gr == r,
            rr == r,
            d == 2 * r + 1,
            n == d * d,
            p <= n,
            box_inside(first.width as int, first.height as int, cx as int, cy as int, gr),
            f@.len() == d * d * 3,
            count == f@.len(),
            n * 3 == count,
            forall|x: int, y: int, c: int|
                0 <= x < first.width && 0 <= y < first.height && 0 <= c < 3 ==> #[trigger] img.at(
                    x,
                    y,
                    c,
                ) == if in_disk(cx as int, cy as int, gr, x, y) && (y - cy + gr) * d + (x - cx + gr)
                    < p {
                    as_byte(f@[((y - cy + gr) * d + (x - cx + gr)) * 3 + c])
                } else {
                    first.at(x, y, c)
                },
        decreases n - p,
    {
        proof {
            lemma_pixel_place(d as int, d as int, p as int);
        }
        let ghost now = *img;
        let px: u32 = (cx as i64 - r as i64 + (p % d) as i64) as u32;
        let py: u32 = (cy as i64 - r as i64 + (p / d) as i64) as u32;
        if is_in_disk(p, rr) {
            let o: usize = img.offset(px, py);
            img.data.set(o, to_byte(f[p * 3]));
            img.data.set(o + 1, to_byte(f[p * 3 + 1]));
            img.data.set(o + 2, to_byte(f[p * 3 + 2]));
        }
        proof {
            let (ux, uy) = (px as int, py as int);
            assert(in_disk(cx as int, cy as int, gr, ux, uy) == cell_in_disk(p as int, gr));
            assert forall|x: int, y: int, c: int|
                0 <= x < first.width && 0 <= y < first.height && 0 <= c < 3 implies #[trigger] img.at(
                x,
                y,
                c,
            ) == if in_disk(cx as int, cy as int, gr, x, y) && (y - cy + gr) * d + (x - cx + gr) < p
                + 1 {
                as_byte(f@[((y - cy + gr) * d + (x - cx + gr)) * 3 + c])
            } else {
                first.at(x, y, c)
            } by {
                assert(now.at(x, y, c) == if in_disk(cx as int, cy as int, gr, x, y) && (y - cy
                    + gr) * d + (x - cx + gr) < p {
                    as_byte(f@[((y - cy + gr) * d + (x - cx + gr)) * 3 + c])
                } else {
                    first.at(x, y, c)
                });
                if x == ux && y == uy {
                    assert((y - cy + gr) * d + (x - cx + gr) == p);
                } else {
                    lemma_other_pixel(first.width as int, first.height as int, x, y, c, ux, uy);
                    if in_disk(cx as int, cy as int, gr, x, y) {
                        lemma_disk_in_box(cx as int, cy as int, gr, x, y);
                        lemma_pixel_in_range(
                            d as int,
                            d as int,
                            x - cx + gr,
                            y - cy + gr,
                        );
                        assert((y - cy + gr) * d + (x - cx + gr) != p);
                    }
                }
            }
        }
        p = p + 1;
    }
    proof {
        assert forall|x: int, y: int, c: int|
            0 <= x < first.width && 0 <= y < first.height && 0 <= c < 3 implies #[trigger] img.at(
            x,
            y,
            c,
        ) == if in_disk(cx as int, cy as int, gr, x, y) {
            as_byte(f@[((y - cy + gr) * (2 * gr + 1) + (x - cx + gr)) * 3 + c])
        } else {
            first.at(x, y, c)
        } by {
            if in_disk(cx as int, cy as int, gr, x, y) {
                lemma_disk_in_box(cx as int, cy as int, gr, x, y);
                lemma_pixel_in_range(d as int, d as int, x - cx + gr, y - cy + gr);
            }
        }
    }
}

/// A disk lies in its box.
pub proof fn lemma_disk_in_box(cx: int, cy: int, r: int, x: int, y: int)
    requires
        in_disk(cx, cy, r, x, y),
    ensures
        cx - r <= x <= cx + r,
        cy - r <= y <= cy + r,
{
    let dx = x - cx;
    let dy = y - cy;
    if dx > r || dx < -r {
        assert(dx * dx > r * r && dy * dy >= 0) by (nonlinear_arith)
            requires
                dx > r || dx < -r,
                r >= 0,
        ;
    }
    if dy > r || dy < -r {
        assert(dy * dy > r * r && dx * dx >= 0) by (nonlinear_arith)
            requires
                dy > r || dy < -r,
                r >= 0,
        ;
    }
}

/// Different pixels have different bytes.
pub proof fn lemma_other_pixel(w: int, h: int, x: int, y: int, c: int, ux: int, uy: int)
    requires
        0 <= x < w,
        0 <= y < h,
        0 <= ux < w,
        0 <= uy < h,
        0 <= c < 3,
        x != ux || y != uy,
    ensures
        offset3(w, x, y, c) < offset3(w, ux, uy, 0) || offset3(w, x, y, c) > offset3(w, ux, uy, 2),
        0 <= offset3(w, x, y, c) < w * h * 3,
{
    lemma_pixel_in_range(w, h, x, y);
    lemma_pixel_in_range(w, h, ux, uy);
    if y * w + x == uy * w + ux {
        assert(y == uy && x == ux);
    }
}

/// Seamless cloning changes nothing outside its disk.
pub proof fn law_poisson_stays_in_disk(
    img: RgbImage,
    cx: int,
    cy: int,
    r: int,
    sx: int,
    sy: int,
    iters: int,
    x: int,
    y: int,
    c: int,
)
    requires
        !in_disk(cx, cy, r, x, y),
    ensures
        poisson_at(img, cx, cy, r, sx, sy, iters, x, y, c) == img.at(x, y, c),
{
}

/// Cells `p` and `q` of a box of side `d` lie side by side.
pub open spec fn beside(d: int, p: int, q: int) -> bool {
    let dx = q % d - p % d;
    let dy = q / d - p / d;
    (dx == 0 && (dy == 1 || dy == -1)) || (dy == 0 && (dx == 1 || dx == -1))
}

/// Cell `p` of a box of side `d` lies at its edge.
pub open spec fn at_edge(d: int, p: int) -> bool {
    p % d == 0 || p % d == d - 1 || p / d == 0 || p / d == d - 1
}

/// A value follows the source's byte `s`: it is more by `k1` to `k2`.
pub open spec fn follows(v: Single, s: u8, k1: int, k2: int) -> bool {
    lies_between(v, s + k1, s + k2)
}

/// The cells around `p` follow the source: those of the disk by their own values, the others by
/// the picture's. At the edge of the box the picture stands in at `p` itself.
pub open spec fn surroundings_follow(
    f: Seq<Single>,
    tgt: Seq<Single>,
    bytes: Seq<u8>,
    r: int,
    p: int,
    c: int,
    k1: int,
    k2: int,
) -> bool {
    let d = 2 * r + 1;
    &&& forall|q: int|
        0 <= q < d * d && beside(d, p, q) ==> follows(
            if #[trigger] cell_in_disk(q, r) {
                f[q * 3 + c]
            } else {
                tgt[q * 3 + c]
            },
            bytes[q * 3 + c],
            k1,
            k2,
        )
    &&& at_edge(d, p) ==> follows(tgt[p * 3 + c], bytes[p * 3 + c], k1, k2)
}

/// The byte of the source that a neighbour's value is held against.
spec fn near_byte(bytes: Seq<u8>, r: int, p: int, c: int, j: int) -> u8 {
    let d = 2 * r + 1;
    let nx = p % d + step4(j).0;
    let ny = p / d + step4(j).1;
    if 0 <= nx < d && 0 <= ny < d {
        bytes[(ny * d + nx) * 3 + c]
    } else {
        bytes[p * 3 + c]
    }
}

proof fn lemma_side_follows(
    f: Seq<Single>,
    tgt: Seq<Single>,
    src: Seq<Single>,
    bytes: Seq<u8>,
    r: int,
    p: int,
    c: int,
    j: int,
    k1: int,
    k2: int,
)
    requires
        0 <= r,
        0 <= p < (2 * r + 1) * (2 * r + 1),
        0 <= c < 3,
        0 <= j < 4,
        bytes.len() == (2 * r + 1) * (2 * r + 1) * 3,
        forall|i: int|
            0 <= i < bytes.len() ==> #[trigger] src[i] == Single::spec_from_int(bytes[i] as int),
        surroundings_follow(f, tgt, bytes, r, p, c, k1, k2),
    ensures
        ({
            let s = side(f, tgt, src, r, p, c, j);
            let b = near_byte(bytes, r, p, c, j);
            let slope = b - bytes[p * 3 + c];
            &&& follows(s.0, b, k1, k2)
            &&& lies_between(s.1, slope, slope)
        }),
{
    let d = 2 * r + 1;
    let nx = p % d + step4(j).0;
    let ny = p / d + step4(j).1;
    lemma_pixel_place(d, d, p);
    let own = bytes[p * 3 + c] as int;
    assert(src[p * 3 + c] == Single::spec_from_int(own));
    law_whole_numbers_are_exact(own);
    if 0 <= nx < d && 0 <= ny < d {
        let q = ny * d + nx;
        lemma_pixel_in_range(d, d, nx, ny);
        vstd::arithmetic::div_mod::lemma_fundamental_div_mod_converse(q, d, ny, nx);
        let b = bytes[q * 3 + c] as int;
        assert(src[q * 3 + c] == Single::spec_from_int(b));
        law_whole_numbers_are_exact(b);
        law_difference_lies_between(src[q * 3 + c], src[p * 3 + c], b, b, own, own);
        assert(beside(d, p, q));
        assert(cell_in_disk(q, r) || !cell_in_disk(q, r));
    } else {
        law_difference_lies_between(src[p * 3 + c], src[p * 3 + c], own, own, own, own);
    }
}

/// A relaxed cell follows the source as its surroundings do, whatever it held before: where the
/// surroundings are the source plus `k1` to `k2`, so is the cell. With one constant the cell is
/// the source plus that constant, so the source's own texture is what relaxation comes to rest at.
pub proof fn law_relaxing_follows_the_source(
    f: Seq<Single>,
    tgt: Seq<Single>,
    src: Seq<Single>,
    bytes: Seq<u8>,
    r: int,
    p: int,
    c: int,
    k1: int,
    k2: int,
)
    requires
        0 <= r,
        0 <= p < (2 * r + 1) * (2 * r + 1),
        0 <= c < 3,
        bytes.len() == (2 * r + 1) * (2 * r + 1) * 3,
        forall|i: int|
            0 <= i < bytes.len() ==> #[trigger] src[i] == Single::spec_from_int(bytes[i] as int),
        -255 <= k1 <= k2 <= 255,
        surroundings_follow(f, tgt, bytes, r, p, c, k1, k2),
    ensures
        follows(relaxed(f, tgt, src, r, p, c), bytes[p * 3 + c], k1, k2),
{
    let s0 = side(f, tgt, src, r, p, c, 0);
    let s1 = side(f, tgt, src, r, p, c, 1);
    let s2 = side(f, tgt, src, r, p, c, 2);
    let s3 = side(f, tgt, src, r, p, c, 3);
    lemma_side_follows(f, tgt, src, bytes, r, p, c, 0, k1, k2);
    lemma_side_follows(f, tgt, src, bytes, r, p, c, 1, k1, k2);
    lemma_side_follows(f, tgt, src, bytes, r, p, c, 2, k1, k2);
    lemma_side_follows(f, tgt, src, bytes, r, p, c, 3, k1, k2);
    let own = bytes[p * 3 + c] as int;
    let b0 = near_byte(bytes, r, p, c, 0) as int;
    let b1 = near_byte(bytes, r, p, c, 1) as int;
    let b2 = near_byte(bytes, r, p, c, 2) as int;
    let b3 = near_byte(bytes, r, p, c, 3) as int;
    assert(lies_between(num(0), 0, 0)) by {
        law_whole_numbers_are_exact(0);
        lemma_no_integer();
    }
    let v0 = num(0).plus(s0.0);
    law_sum_lies_between(num(0), s0.0, 0, 0, b0 + k1, b0 + k2);
    let v1 = v0.plus(s1.0);
    law_sum_lies_between(v0, s1.0, b0 + k1, b0 + k2, b1 + k1, b1 + k2);
    let v2 = v1.plus(s2.0);
    law_sum_lies_between(v1, s2.0, b0 + b1 + 2 * k1, b0 + b1 + 2 * k2, b2 + k1, b2 + k2);
    let v3 = v2.plus(s3.0);
    law_sum_lies_between(
        v2,
        s3.0,
        b0 + b1 + b2 + 3 * k1,
        b0 + b1 + b2 + 3 * k2,
        b3 + k1,
        b3 + k2,
    );
    let (g0, g1, g2, g3) = (b0 - own, b1 - own, b2 - own, b3 - own);
    let w0 = num(0).plus(s0.1);
    law_sum_lies_between(num(0), s0.1, 0, 0, g0, g0);
    let w1 = w0.plus(s1.1);
    law_sum_lies_between(w0, s1.1, g0, g0, g1, g1);
    let w2 = w1.plus(s2.1);
    law_sum_lies_between(w1, s2.1, g0 + g1, g0 + g1, g2, g2);
    let w3 = w2.plus(s3.1);
    law_sum_lies_between(w2, s3.1, g0 + g1 + g2, g0 + g1 + g2, g3, g3);
    let all = b0 + b1 + b2 + b3;
    let slopes = g0 + g1 + g2 + g3;
    law_difference_lies_between(v3, w3, all + 4 * k1, all + 4 * k2, slopes, slopes);
    assert(all + 4 * k1 - slopes == 4 * (own + k1));
    assert(all + 4 * k2 - slopes == 4 * (own + k2));
    law_quarter_lies_between(v3.minus(w3), own + k1, own + k2);
}

/// All cells of a box follow the source in channel `c`.
pub open spec fn box_follows(v: Seq<Single>, bytes: Seq<u8>, r: int, c: int, k1: int, k2: int) -> bool {
    forall|q: int|
        0 <= q < (2 * r + 1) * (2 * r + 1) ==> follows(#[trigger] v[q * 3 + c], bytes[q * 3 + c], k1, k2)
}

proof fn lemma_sweep_follows(
    f: Seq<Single>,
    tgt: Seq<Single>,
    src: Seq<Single>,
    bytes: Seq<u8>,
    r: int,
    c: int,
    k1: int,
    k2: int,
    n: int,
)
    requires
        0 <= r,
        0 <= c < 3,
        0 <= n <= bytes.len(),
        bytes.len() == (2 * r + 1) * (2 * r + 1) * 3,
        f.len() == bytes.len(),
        forall|i: int|
            0 <= i < bytes.len() ==> #[trigger] src[i] == Single::spec_from_int(bytes[i] as int),
        -255 <= k1 <= k2 <= 255,
        box_follows(f, bytes, r, c, k1, k2),
        box_follows(tgt, bytes, r, c, k1, k2),
    ensures
        sweep(f, tgt, src, r, n).len() == f.len(),
        box_follows(sweep(f, tgt, src, r, n), bytes, r, c, k1, k2),
    decreases n,
{
    if n > 0 {
        lemma_sweep_follows(f, tgt, src, bytes, r, c, k1, k2, n - 1);
        let g = sweep(f, tgt, src, r, n - 1);
        let p = (n - 1) / 3;
        if cell_in_disk(p, r) && (n - 1) % 3 == c {
            let d = 2 * r + 1;
            assert(surroundings_follow(g, tgt, bytes, r, p, c, k1, k2)) by {
                assert forall|q: int| 0 <= q < d * d && beside(d, p, q) implies follows(
                    if #[trigger] cell_in_disk(q, r) {
                        g[q * 3 + c]
                    } else {
                        tgt[q * 3 + c]
                    },
                    bytes[q * 3 + c],
                    k1,
                    k2,
                ) by {
                    assert(follows(g[q * 3 + c], bytes[q * 3 + c], k1, k2));
                    assert(follows(tgt[q * 3 + c], bytes[q * 3 + c], k1, k2));
                }
                assert(follows(tgt[p * 3 + c], bytes[p * 3 + c], k1, k2));
            }
            law_relaxing_follows_the_source(g, tgt, src, bytes, r, p, c, k1, k2);
            assert(n - 1 == p * 3 + c);
        }
        let next = sweep(f, tgt, src, r, n);
        assert forall|q: int| 0 <= q < (2 * r + 1) * (2 * r + 1) implies follows(
            #[trigger] next[q * 3 + c],
            bytes[q * 3 + c],
            k1,
            k2,
        ) by {
            assert(follows(g[q * 3 + c], bytes[q * 3 + c], k1, k2));
        }
    }
}

proof fn lemma_sweeps_follow(
    tgt: Seq<Single>,
    src: Seq<Single>,
    bytes: Seq<u8>,
    r: int,
    c: int,
    k1: int,
    k2: int,
    n: int,
)
    requires
        0 <= r,
        0 <= c < 3,
        bytes.len() == (2 * r + 1) * (2 * r + 1) * 3,
        tgt.len() == bytes.len(),
        forall|i: int|
            0 <= i < bytes.len() ==> #[trigger] src[i] == Single::spec_from_int(bytes[i] as int),
        -255 <= k1 <= k2 <= 255,
        box_follows(tgt, bytes, r, c, k1, k2),
    ensures
        sweeps(tgt, src, r, n).len() == tgt.len(),
        box_follows(sweeps(tgt, src, r, n), bytes, r, c, k1, k2),
    decreases n,
{
    if n > 0 {
        lemma_sweeps_follow(tgt, src, bytes, r, c, k1, k2, n - 1);
        lemma_sweep_follows(
            sweeps(tgt, src, r, n - 1),
            tgt,
            src,
            bytes,
            r,
            c,
            k1,
            k2,
            (2 * r + 1) * (2 * r + 1) * 3,
        );
    }
}

/// The byte of an image, with places outside it moved to the nearest inside.
pub open spec fn held_at(img: RgbImage, x: int, y: int, c: int) -> u8 {
    img.at(held(x, img.width as int), held(y, img.height as int), c)
}

/// Over the box around a spot, the picture is the picture around the source plus `k1` to `k2`.
pub open spec fn box_is_source_plus(
    img: RgbImage,
    cx: int,
    cy: int,
    r: int,
    sx: int,
    sy: int,
    c: int,
    k1: int,
    k2: int,
) -> bool {
    forall|dx: int, dy: int|
        -r <= dx <= r && -r <= dy <= r ==> k1 <= #[trigger] img.at(cx + dx, cy + dy, c) - held_at(
            img,
            sx + dx,
            sy + dy,
            c,
        ) <= k2
}

/// Seamless cloning takes over the source's texture. Where the picture around the spot is the
/// picture around the source plus `k1` to `k2`, a healed pixel is the source's pixel plus `k1` to
/// `k2`, within the range of bytes, after any number of sweeps. What is bright in the source is
/// bright in the spot.
pub proof fn law_cloning_takes_over_the_source(
    img: RgbImage,
    cx: int,
    cy: int,
    r: int,
    sx: int,
    sy: int,
    iters: int,
    x: int,
    y: int,
    c: int,
    k1: int,
    k2: int,
)
    requires
        0 <= r,
        box_inside(img.width as int, img.height as int, cx, cy, r),
        in_disk(cx, cy, r, x, y),
        0 <= c < 3,
        k1 <= k2,
        box_is_source_plus(img, cx, cy, r, sx, sy, c, k1, k2),
    ensures
        ({
            let s = held_at(img, sx + (x - cx), sy + (y - cy), c);
            let b = poisson_at(img, cx, cy, r, sx, sy, iters, x, y, c);
            within(s + k1, 0, 255) <= b <= within(s + k2, 0, 255)
        }),
{
    let d = 2 * r + 1;
    let tgt = patch(img, cx - r, cy - r, d, 0, 0);
    let src = patch(img, cx - r, cy - r, d, sx - cx, sy - cy);
    let bytes = Seq::new(
        (d * d * 3) as nat,
        |k: int|
            held_at(img, sx - r + (k / 3) % d, sy - r + (k / 3) / d, k % 3),
    );
    assert(d * d * 3 >= 0) by (nonlinear_arith)
        requires
            d >= 1,
    ;
    let (a1, a2) = (if k1 < -255 { -255 } else { k1 }, if k2 > 255 { 255 } else { k2 });
    assert(k1 <= img.at(cx + 0, cy + 0, c) - held_at(img, sx + 0, sy + 0, c) <= k2);
    assert(a1 <= a2);
    assert forall|q: int| 0 <= q < d * d implies follows(
        #[trigger] tgt[q * 3 + c],
        bytes[q * 3 + c],
        a1,
        a2,
    ) by {
        lemma_pixel_place(d, d, q);
        let i = q * 3 + c;
        assert(i / 3 == q && i % 3 == c);
        let (dx, dy) = (q % d - r, q / d - r);
        assert(img.at(cx + dx, cy + dy, c) - held_at(img, sx + dx, sy + dy, c) >= k1);
        let v = img.at(cx + dx, cy + dy, c) as int;
        assert(tgt[i] == Single::spec_from_int(v));
        law_whole_numbers_are_exact(v);
        let b = bytes[i] as int;
        let p = vstd::arithmetic::power2::pow2(149) as int;
        vstd::arithmetic::power2::lemma_pow2_pos(149);
        assert((b + a1) * p <= v * p <= (b + a2) * p) by (nonlinear_arith)
            requires
                b + a1 <= v <= b + a2,
                p > 0,
        ;
    }
    assert forall|i: int| 0 <= i < bytes.len() implies #[trigger] src[i] == Single::spec_from_int(
        bytes[i] as int,
    ) by {}
    lemma_sweeps_follow(tgt, src, bytes, r, c, a1, a2, iters);
    let q = (y - cy + r) * d + (x - cx + r);
    assert(-r <= x - cx <= r && -r <= y - cy <= r) by (nonlinear_arith)
        requires
            r >= 0,
            (x - cx) * (x - cx) + (y - cy) * (y - cy) <= r * r,
    ;
    lemma_pixel_in_range(d, d, x - cx + r, y - cy + r);
    vstd::arithmetic::div_mod::lemma_fundamental_div_mod_converse(q, d, y - cy + r, x - cx + r);
    let i = q * 3 + c;
    assert(i / 3 == q && i % 3 == c);
    let v = sweeps(tgt, src, r, iters)[i];
    let s = bytes[i] as int;
    assert(follows(v, bytes[i], a1, a2));
    lemma_byte_lies_between(v, s + a1, s + a2);
}

/// A value between two whole numbers gives a byte between them.
proof fn lemma_byte_lies_between(v: Single, lo: int, hi: int)
    requires
        lies_between(v, lo, hi),
        -0x1000 <= lo <= hi <= 0x1000,
    ensures
        within(lo, 0, 255) <= as_byte(v) <= within(hi, 0, 255),
{
    let (a, b) = (within(lo, 0, 255), within(hi, 0, 255));
    law_whole_numbers_are_exact(lo);
    law_whole_numbers_are_exact(hi);
    law_whole_numbers_are_exact(a);
    law_whole_numbers_are_exact(b);
    law_whole_numbers_are_exact(0);
    law_whole_numbers_are_exact(255);
    lemma_top_byte();
    lemma_no_integer();
    let top = num(0x437f_0000);  // 255
    let w = v.clamp(num(0), top);
    let (sl, sh) = (Single::spec_from_int(lo), Single::spec_from_int(hi));
    law_order_is_numeric(sl, v);
    law_order_is_numeric(v, sh);
    law_limits_keep_order(sl, v, num(0), top);
    law_limits_keep_order(v, sh, num(0), top);
    let p = vstd::arithmetic::power2::pow2(149) as int;
    vstd::arithmetic::power2::lemma_pow2_pos(149);
    law_order_is_numeric(sl, num(0));
    law_order_is_numeric(sh, num(0));
    law_order_is_numeric(sl, top);
    law_order_is_numeric(sh, top);
    law_order_is_numeric(top, sl);
    law_order_is_numeric(top, sh);
    law_order_is_numeric(num(0), sl);
    law_order_is_numeric(num(0), sh);
    lemma_order_of_products(lo, 0, p);
    lemma_order_of_products(hi, 0, p);
    lemma_order_of_products(lo, 255, p);
    lemma_order_of_products(hi, 255, p);
    law_whole_parts_keep_order(sl.clamp(num(0), top), w, 0, 255);
    law_whole_parts_keep_order(w, sh.clamp(num(0), top), 0, 255);
    law_small_integers_are_whole(a, 0, 255);
    law_small_integers_are_whole(b, 0, 255);
    law_small_integers_are_whole(0, 0, 255);
    law_small_integers_are_whole(255, 0, 255);
}

proof fn lemma_order_of_products(a: int, b: int, p: int)
    requires
        p > 0,
    ensures
        (a * p < b * p) == (a < b),
        (a * p <= b * p) == (a <= b),
{
    assert((a * p < b * p) == (a < b) && (a * p <= b * p) == (a <= b)) by (nonlinear_arith)
        requires
            p > 0,
    ;
}

} // verus!
