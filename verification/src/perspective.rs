//! Perspective: the matrix that straightens a trapezoid, and the picture it gives.

use crate::double::{wide, Double};
use crate::geometry::{middle, middle_of, warp, warped, MAX_SIDE};
use crate::raster::{Picture, RgbImage};
use crate::single::{num, Single};
use vstd::prelude::*;

verus! {

/// A point in double precision.
pub type Point = (Double, Double);

/// A matrix of three rows of three numbers.
#[derive(Clone, Copy, Debug, PartialEq, Eq, Structural)]
pub struct Matrix {
    pub a: Double,
    pub b: Double,
    pub c: Double,
    pub d: Double,
    pub e: Double,
    pub f: Double,
    pub g: Double,
    pub h: Double,
    pub i: Double,
}

/// A number of the two equations that take the point `p` to `q`: of the first one, or of the
/// second one where `second` says so. The first eight are factors of the unknowns, the last is
/// what they add up to.
pub open spec fn spec_factor(p: Point, q: Point, second: bool, c: usize) -> Double {
    let u = if second {
        q.1
    } else {
        q.0
    };
    let at = if second {
        c - 3
    } else {
        c as int
    };
    if c == 8 {
        u
    } else if c == 6 {
        u.negated().times(p.0)
    } else if c == 7 {
        u.negated().times(p.1)
    } else if at == 0 {
        p.0
    } else if at == 1 {
        p.1
    } else if at == 2 {
        wide(0x3ff0_0000_0000_0000)  // 1
    } else {
        wide(0)
    }
}

#[verifier::when_used_as_spec(spec_factor)]
pub fn factor(p: Point, q: Point, second: bool, c: usize) -> (r: Double)
    ensures
        r == spec_factor(p, q, second, c),
{
    let u: Double = if second {
        q.1
    } else {
        q.0
    };
    let first: usize = if second {
        3
    } else {
        0
    };
    if c == 8 {
        u
    } else if c == 6 {
        u.negated().times(p.0)
    } else if c == 7 {
        u.negated().times(p.1)
    } else if c == first {
        p.0
    } else if c == first + 1 {
        p.1
    } else if c == first + 2 {
        wide(0x3ff0_0000_0000_0000)  // 1
    } else {
        wide(0)
    }
}

/// The equations for the matrix that takes four points to four others, row by row: nine numbers
/// each, two equations for each pair of points.
pub open spec fn equations(src: Seq<Point>, dst: Seq<Point>) -> Seq<Double> {
    Seq::new(
        72,
        |i: int| spec_factor(src[i / 18], dst[i / 18], (i / 9) % 2 == 1, (i % 9) as usize),
    )
}

/// Of the rows from `col` up to `r` the one with the largest number in the column, the first of
/// equal ones.
pub open spec fn pivot(a: Seq<Double>, col: int, r: int) -> int
    decreases r - col,
{
    if r <= col {
        col
    } else {
        let best = pivot(a, col, r - 1);
        if a[r * 9 + col].abs().gt(a[best * 9 + col].abs()) {
            r
        } else {
            best
        }
    }
}

/// The equations with two rows exchanged.
pub open spec fn exchanged(a: Seq<Double>, p: int, q: int) -> Seq<Double> {
    Seq::new(
        72,
        |i: int|
            if i / 9 == p {
                a[q * 9 + i % 9]
            } else if i / 9 == q {
                a[p * 9 + i % 9]
            } else {
                a[i]
            },
    )
}

/// The equations with the row `col` divided by its number in the column `col`.
pub open spec fn divided(a: Seq<Double>, col: int) -> Seq<Double> {
    Seq::new(
        72,
        |i: int|
            if i / 9 == col && i % 9 >= col {
                a[i].over(a[col * 9 + col])
            } else {
                a[i]
            },
    )
}

/// The equations with the column `col` cleared in all other rows.
pub open spec fn cleared(a: Seq<Double>, col: int) -> Seq<Double> {
    Seq::new(
        72,
        |i: int|
            if i / 9 != col && i % 9 >= col && !a[(i / 9) * 9 + col].same(wide(0)) {
                a[i].minus(a[(i / 9) * 9 + col].times(a[col * 9 + i % 9]))
            } else {
                a[i]
            },
    )
}

/// The equations solved for the unknowns from `col` on, one after the other; nothing where a
/// column holds no number that can be divided by.
pub open spec fn solved(a: Seq<Double>, col: int) -> Option<Seq<Double>>
    decreases 8 - col,
{
    if col >= 8 {
        Some(a)
    } else {
        let p = pivot(a, col, 7);
        // 1e-12
        if a[p * 9 + col].abs().lt(wide(0x3d71_9799_812d_ea11)) {
            None
        } else {
            solved(cleared(divided(exchanged(a, col, p), col), col), col + 1)
        }
    }
}

/// The matrix that takes four points to four others; nothing where there is none.
pub open spec fn homography(src: Seq<Point>, dst: Seq<Point>) -> Option<Matrix> {
    match solved(equations(src, dst), 0) {
        Some(s) => Some(
            Matrix {
                a: s[8],
                b: s[17],
                c: s[26],
                d: s[35],
                e: s[44],
                f: s[53],
                g: s[62],
                h: s[71],
                i: wide(0x3ff0_0000_0000_0000),  // 1
            },
        ),
        None => None,
    }
}

fn find_pivot(a: &Vec<Double>, col: usize) -> (r: usize)
    requires
        a@.len() == 72,
        col < 8,
    ensures
        col <= r < 8,
        r == pivot(a@, col as int, 7),
{
    let mut best: usize = col;
    let mut r: usize = col;
    while r < 7
        invariant
            a@.len() == 72,
            col <= best <= r <= 7,
            best == pivot(a@, col as int, r as int),
        decreases 7 - r,
    {
        r = r + 1;
        if a[r * 9 + col].abs().gt(a[best * 9 + col].abs()) {
            best = r;
        }
    }
    best
}

fn exchange(a: &Vec<Double>, p: usize, q: usize) -> (r: Vec<Double>)
    requires
        a@.len() == 72,
        p < 8,
        q < 8,
    ensures
        r@ == exchanged(a@, p as int, q as int),
{
    let ghost want = exchanged(a@, p as int, q as int);
    let mut v: Vec<Double> = Vec::new();
    let mut i: usize = 0;
    while i < 72
        invariant
            i <= 72,
            a@.len() == 72,
            p < 8,
            q < 8,
            want == exchanged(a@, p as int, q as int),
            v@ == want.take(i as int),
        decreases 72 - i,
    {
        let row: usize = i / 9;
        let c: usize = i % 9;
        let x: Double = if row == p {
            a[q * 9 + c]
        } else if row == q {
            a[p * 9 + c]
        } else {
            a[i]
        };
        v.push(x);
        proof {
            assert(want.take(i + 1) =~= want.take(i as int).push(want[i as int]));
        }
        i = i + 1;
    }
    proof {
        assert(want.take(72) =~= want);
    }
    v
}

fn divide(a: &Vec<Double>, col: usize) -> (r: Vec<Double>)
    requires
        a@.len() == 72,
        col < 8,
    ensures
        r@ == divided(a@, col as int),
{
    let ghost want = divided(a@, col as int);
    let mut v: Vec<Double> = Vec::new();
    let mut i: usize = 0;
    while i < 72
        invariant
            i <= 72,
            a@.len() == 72,
            col < 8,
            want == divided(a@, col as int),
            v@ == want.take(i as int),
        decreases 72 - i,
    {
        let row: usize = i / 9;
        let c: usize = i % 9;
        let x: Double = if row == col && c >= col {
            a[i].over(a[col * 9 + col])
        } else {
            a[i]
        };
        v.push(x);
        proof {
            assert(want.take(i + 1) =~= want.take(i as int).push(want[i as int]));
        }
        i = i + 1;
    }
    proof {
        assert(want.take(72) =~= want);
    }
    v
}

fn clear(a: &Vec<Double>, col: usize) -> (r: Vec<Double>)
    requires
        a@.len() == 72,
        col < 8,
    ensures
        r@ == cleared(a@, col as int),
{
    let ghost want = cleared(a@, col as int);
    let mut v: Vec<Double> = Vec::new();
    let mut i: usize = 0;
    while i < 72
        invariant
            i <= 72,
            a@.len() == 72,
            col < 8,
            want == cleared(a@, col as int),
            v@ == want.take(i as int),
        decreases 72 - i,
    {
        let row: usize = i / 9;
        let c: usize = i % 9;
        let x: Double = if row != col && c >= col && !a[row * 9 + col].same(wide(0)) {
            a[i].minus(a[row * 9 + col].times(a[col * 9 + c]))
        } else {
            a[i]
        };
        v.push(x);
        proof {
            assert(want.take(i + 1) =~= want.take(i as int).push(want[i as int]));
        }
        i = i + 1;
    }
    proof {
        assert(want.take(72) =~= want);
    }
    v
}

/// The matrix that takes four points to four others.
pub fn solve_homography(src: &[Point; 4], dst: &[Point; 4]) -> (r: Option<Matrix>)
    ensures
        r == homography(src@, dst@),
{
    let ghost want = equations(src@, dst@);
    let mut a: Vec<Double> = Vec::new();
    let mut i: usize = 0;
    while i < 72
        invariant
            i <= 72,
            want == equations(src@, dst@),
            a@ == want.take(i as int),
        decreases 72 - i,
    {
        let k: usize = i / 18;
        a.push(factor(src[k], dst[k], (i / 9) % 2 == 1, i % 9));
        proof {
            assert(want.take(i + 1) =~= want.take(i as int).push(want[i as int]));
        }
        i = i + 1;
    }
    proof {
        assert(want.take(72) =~= want);
    }
    let mut col: usize = 0;
    while col < 8
        invariant
            col <= 8,
            a@.len() == 72,
            solved(a@, col as int) == solved(equations(src@, dst@), 0),
        decreases 8 - col,
    {
        let p: usize = find_pivot(&a, col);
        if a[p * 9 + col].abs().lt(wide(0x3d71_9799_812d_ea11)) {  // 1e-12
            return None;
        }
        a = clear(&divide(&exchange(&a, col, p), col), col);
        col = col + 1;
    }
    Some(
        Matrix {
            a: a[8],
            b: a[17],
            c: a[26],
            d: a[35],
            e: a[44],
            f: a[53],
            g: a[62],
            h: a[71],
            i: wide(0x3ff0_0000_0000_0000),  // 1
        },
    )
}

/// The difference of the products of two pairs.
pub open spec fn spec_cross(a: Double, b: Double, c: Double, d: Double) -> Double {
    a.times(b).minus(c.times(d))
}

#[verifier::when_used_as_spec(spec_cross)]
pub fn cross(a: Double, b: Double, c: Double, d: Double) -> (r: Double)
    ensures
        r == spec_cross(a, b, c, d),
{
    a.times(b).minus(c.times(d))
}

/// The determinant.
pub open spec fn spec_determinant(m: Matrix) -> Double {
    m.a.times(cross(m.e, m.i, m.f, m.h)).minus(m.b.times(cross(m.d, m.i, m.f, m.g))).plus(
        m.c.times(cross(m.d, m.h, m.e, m.g)),
    )
}

#[verifier::when_used_as_spec(spec_determinant)]
pub fn determinant(m: Matrix) -> (r: Double)
    ensures
        r == spec_determinant(m),
{
    m.a.times(cross(m.e, m.i, m.f, m.h)).minus(m.b.times(cross(m.d, m.i, m.f, m.g))).plus(
        m.c.times(cross(m.d, m.h, m.e, m.g)),
    )
}

/// The inverse of a matrix: its adjugate over its determinant; nothing where that is next to
/// zero.
pub open spec fn spec_mat3_inv(m: Matrix) -> Option<Matrix> {
    let det = determinant(m);
    if det.abs().lt(wide(0x3d71_9799_812d_ea11)) {  // 1e-12
        None
    } else {
        let k = wide(0x3ff0_0000_0000_0000).over(det);  // 1
        Some(
            Matrix {
                a: cross(m.e, m.i, m.f, m.h).times(k),
                b: cross(m.c, m.h, m.b, m.i).times(k),
                c: cross(m.b, m.f, m.c, m.e).times(k),
                d: cross(m.f, m.g, m.d, m.i).times(k),
                e: cross(m.a, m.i, m.c, m.g).times(k),
                f: cross(m.c, m.d, m.a, m.f).times(k),
                g: cross(m.d, m.h, m.e, m.g).times(k),
                h: cross(m.b, m.g, m.a, m.h).times(k),
                i: cross(m.a, m.e, m.b, m.d).times(k),
            },
        )
    }
}

#[verifier::when_used_as_spec(spec_mat3_inv)]
pub fn mat3_inv(m: Matrix) -> (r: Option<Matrix>)
    ensures
        r == spec_mat3_inv(m),
{
    let det: Double = determinant(m);
    if det.abs().lt(wide(0x3d71_9799_812d_ea11)) {  // 1e-12
        None
    } else {
        let k: Double = wide(0x3ff0_0000_0000_0000).over(det);  // 1
        Some(
            Matrix {
                a: cross(m.e, m.i, m.f, m.h).times(k),
                b: cross(m.c, m.h, m.b, m.i).times(k),
                c: cross(m.b, m.f, m.c, m.e).times(k),
                d: cross(m.f, m.g, m.d, m.i).times(k),
                e: cross(m.a, m.i, m.c, m.g).times(k),
                f: cross(m.c, m.d, m.a, m.f).times(k),
                g: cross(m.d, m.h, m.e, m.g).times(k),
                h: cross(m.b, m.g, m.a, m.h).times(k),
                i: cross(m.a, m.e, m.b, m.d).times(k),
            },
        )
    }
}

/// Where a point goes under a matrix; nowhere from a point at infinity.
pub open spec fn spec_sent(m: Matrix, x: Double, y: Double) -> Option<(Single, Single)> {
    let den = m.g.times(x).plus(m.h.times(y)).plus(m.i);
    if den.abs().lt(wide(0x3e45_798e_e230_8c3a)) {  // 1e-8
        None
    } else {
        Some(
            (
                m.a.times(x).plus(m.b.times(y)).plus(m.c).over(den).narrowed(),
                m.d.times(x).plus(m.e.times(y)).plus(m.f).over(den).narrowed(),
            ),
        )
    }
}

#[verifier::when_used_as_spec(spec_sent)]
pub fn sent(m: Matrix, x: Double, y: Double) -> (r: Option<(Single, Single)>)
    ensures
        r == spec_sent(m, x, y),
{
    let den: Double = m.g.times(x).plus(m.h.times(y)).plus(m.i);
    if den.abs().lt(wide(0x3e45_798e_e230_8c3a)) {  // 1e-8
        None
    } else {
        Some(
            (
                m.a.times(x).plus(m.b.times(y)).plus(m.c).over(den).narrowed(),
                m.d.times(x).plus(m.e.times(y)).plus(m.f).over(den).narrowed(),
            ),
        )
    }
}

/// The last place of a side of `n` pixels.
pub open spec fn last_place(n: int) -> Double {
    Double::from_single(Single::spec_from_int(n).minus(num(0x3f80_0000)))  // 1
}

fn find_last_place(n: u32) -> (r: Double)
    ensures
        r == last_place(n as int),
{
    Double::from_single(Single::from_int(n as i128).minus(num(0x3f80_0000)))  // 1
}

/// The first and the last place of a side of `n` pixels that a keystone of strength `v` shows:
/// the part of `1 - v` around its middle.
pub open spec fn shown_ends(n: int, v: Single) -> (Double, Double) {
    if v.same(num(0)) {
        (wide(0), last_place(n))
    } else {
        let reach = middle(n).times(num(0x3f80_0000).minus(v));  // 1
        (
            Double::from_single(middle(n).minus(reach)),
            Double::from_single(middle(n).plus(reach)),
        )
    }
}

fn find_shown_ends(n: u32, v: Single) -> (r: (Double, Double))
    requires
        0 < n,
    ensures
        r == shown_ends(n as int, v),
{
    if v.same(num(0)) {
        (wide(0), find_last_place(n))
    } else {
        let reach: Single = middle_of(n).times(num(0x3f80_0000).minus(v));  // 1
        (
            Double::from_single(middle_of(n).minus(reach)),
            Double::from_single(middle_of(n).plus(reach)),
        )
    }
}

/// The corners of a picture of `w` by `h` pixels, clockwise from the upper left.
pub open spec fn corners(w: int, h: int) -> Seq<Point> {
    seq![
        (wide(0), wide(0)),
        (last_place(w), wide(0)),
        (last_place(w), last_place(h)),
        (wide(0), last_place(h)),
    ]
}

/// The corners of the part that a picture in perspective shows, clockwise from the upper left:
/// `v` scales the upper edge and `hz` the left one, each about its middle.
pub open spec fn trapezoid(w: int, h: int, v: Single, hz: Single) -> Seq<Point> {
    let x = shown_ends(w, v);
    let y = shown_ends(h, hz);
    seq![(x.0, y.0), (x.1, wide(0)), (last_place(w), last_place(h)), (wide(0), y.1)]
}

/// A vertical keystone leaves the corners of the lower edge where they are, a horizontal one
/// those of the right edge.
pub proof fn law_keystone_keeps_far_edge(w: int, h: int, v: Single, hz: Single)
    ensures
        trapezoid(w, h, v, hz)[2] == corners(w, h)[2],
        hz.same(num(0)) ==> trapezoid(w, h, v, hz)[3] == corners(w, h)[3],
        v.same(num(0)) ==> trapezoid(w, h, v, hz)[1] == corners(w, h)[1],
        v.same(num(0)) && hz.same(num(0)) ==> trapezoid(w, h, v, hz) == corners(w, h),
{
    assert(v.same(num(0)) && hz.same(num(0)) ==> trapezoid(w, h, v, hz) =~= corners(w, h));
}

/// The matrix that takes the pixels of a straightened picture back to where they come from:
/// nothing where there is none.
pub open spec fn way_back(w: int, h: int, v: Single, hz: Single) -> Option<Matrix> {
    match homography(
        trapezoid(w, h, v, hz),
        corners(w, h),
    ) {
        Some(m) => spec_mat3_inv(m),
        None => None,
    }
}

/// Where the pixels of a straightened picture come from.
pub open spec fn perspective_points(m: Matrix, w: int, h: int) -> Seq<Option<(Single, Single)>> {
    Seq::new(
        (w * h) as nat,
        |k: int|
            sent(
                m,
                Double::from_single(Single::spec_from_int(k % w)),
                Double::from_single(Single::spec_from_int(k / w)),
            ),
    )
}

/// A picture in another perspective: `v` scales what its upper edge shows, `hz` its left edge.
/// Where no matrix does that it is kept.
pub open spec fn in_perspective(p: Picture, v: Single, hz: Single) -> Picture {
    if p.width == 0 || p.height == 0 {
        p
    } else {
        match way_back(p.width, p.height, v, hz) {
            Some(m) => warped(p, p.width, p.height, perspective_points(m, p.width, p.height)),
            None => p,
        }
    }
}

fn find_points(m: Matrix, w: u32, h: u32) -> (r: Vec<Option<(Single, Single)>>)
    requires
        0 < w,
        w * h <= usize::MAX,
    ensures
        r@ == perspective_points(m, w as int, h as int),
{
    let ghost want = perspective_points(m, w as int, h as int);
    let n: usize = w as usize * h as usize;
    let mut v: Vec<Option<(Single, Single)>> = Vec::new();
    let mut k: usize = 0;
    while k < n
        invariant
            k <= n,
            0 < w,
            n == w * h,
            want == perspective_points(m, w as int, h as int),
            v@ == want.take(k as int),
        decreases n - k,
    {
        let x: Single = Single::from_int((k % w as usize) as i128);
        let y: Single = Single::from_int((k / w as usize) as i128);
        v.push(sent(m, Double::from_single(x), Double::from_single(y)));
        proof {
            assert(want.take(k + 1) =~= want.take(k as int).push(want[k as int]));
        }
        k = k + 1;
    }
    proof {
        assert(want.take(n as int) =~= want);
    }
    v
}

/// Shows a picture in another perspective.
pub fn warp_perspective(img: &RgbImage, v: Single, hz: Single) -> (r: RgbImage)
    requires
        img.wf(),
        img.width <= MAX_SIDE,
        img.height <= MAX_SIDE,
    ensures
        r.wf(),
        r.width == img.width,
        r.height == img.height,
        r@ == in_perspective(img@, v, hz),
{
    let w: u32 = img.width;
    let h: u32 = img.height;
    if w == 0 || h == 0 {
        return img.clone();
    }
    let x: (Double, Double) = find_shown_ends(w, v);
    let y: (Double, Double) = find_shown_ends(h, hz);
    let ex: Double = find_last_place(w);
    let ey: Double = find_last_place(h);
    let zero: Double = wide(0);
    let src: [Point; 4] = [(x.0, y.0), (x.1, zero), (ex, ey), (zero, y.1)];
    let dst: [Point; 4] = [(zero, zero), (ex, zero), (ex, ey), (zero, ey)];
    proof {
        assert(src@ =~= trapezoid(w as int, h as int, v, hz));
        assert(dst@ =~= corners(w as int, h as int));
    }
    let back: Option<Matrix> = match solve_homography(&src, &dst) {
        Some(m) => mat3_inv(m),
        None => None,
    };
    match back {
        Some(m) => {
            let points: Vec<Option<(Single, Single)>> = find_points(m, w, h);
            warp(img, w, h, &points)
        },
        None => img.clone(),
    }
}

} // verus!
