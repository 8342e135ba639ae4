//! A median filter over square windows, with a histogram that slides along each row.

use crate::raster::{lemma_pixel_in_range, RgbImage};
use vstd::prelude::*;

verus! {

/// The largest kernel whose window can be counted in 31 bits.
pub const MAX_KSIZE: u32 = 46339;

/// An index moved to the nearest one in `0..n`.
pub open spec fn nearest_index(i: int, n: int) -> int {
    if i < 0 {
        0
    } else if i >= n {
        n - 1
    } else {
        i
    }
}

pub open spec fn in_range(v: int, lo: int, hi: int) -> int {
    if lo <= v < hi {
        1
    } else {
        0
    }
}

/// How many of the first `k` samples of a window's column lie in `lo..hi`. The column is `x`;
/// its rows run from `y - r`, and rows outside the image repeat the edge.
pub open spec fn column_count(
    img: RgbImage,
    c: int,
    x: int,
    y: int,
    r: int,
    k: int,
    lo: int,
    hi: int,
) -> int
    decreases k,
{
    if k <= 0 {
        0
    } else {
        column_count(img, c, x, y, r, k - 1, lo, hi) + in_range(
            img.at(x, nearest_index(y - r + k - 1, img.height as int), c) as int,
            lo,
            hi,
        )
    }
}

/// How many samples in the first `k` columns of the window around `(x, y)` lie in `lo..hi`.
pub open spec fn window_count(
    img: RgbImage,
    c: int,
    x: int,
    y: int,
    r: int,
    k: int,
    lo: int,
    hi: int,
) -> int
    decreases k,
{
    if k <= 0 {
        0
    } else {
        window_count(img, c, x, y, r, k - 1, lo, hi) + column_count(
            img,
            c,
            nearest_index(x - r + k - 1, img.width as int),
            y,
            r,
            2 * r + 1,
            lo,
            hi,
        )
    }
}

/// How many samples of the window around `(x, y)` lie in `lo..hi`.
pub open spec fn samples(img: RgbImage, c: int, x: int, y: int, r: int, lo: int, hi: int) -> int {
    window_count(img, c, x, y, r, 2 * r + 1, lo, hi)
}

/// `v` is the median of the window around `(x, y)`: sorted, the window has `v` at its middle.
pub open spec fn is_median(img: RgbImage, c: int, x: int, y: int, r: int, v: u8) -> bool {
    let middle = ((2 * r + 1) * (2 * r + 1)) / 2;
    samples(img, c, x, y, r, 0, v as int) <= middle < samples(img, c, x, y, r, 0, v + 1)
}

/// The median of the window around `(x, y)`.
pub open spec fn median_at(img: RgbImage, c: int, x: int, y: int, r: int) -> u8 {
    choose|v: u8| is_median(img, c, x, y, r, v)
}

/// A window has one median only.
pub proof fn lemma_median_is_unique(img: RgbImage, c: int, x: int, y: int, r: int, v: u8)
    requires
        is_median(img, c, x, y, r, v),
    ensures
        median_at(img, c, x, y, r) == v,
{
    let u = median_at(img, c, x, y, r);
    let k = 2 * r + 1;
    if u < v {
        lemma_window_split(img, c, x, y, r, k, 0, u + 1, v as int);
    } else if v < u {
        lemma_window_split(img, c, x, y, r, k, 0, v + 1, u as int);
    }
}

proof fn lemma_column_split(
    img: RgbImage,
    c: int,
    x: int,
    y: int,
    r: int,
    k: int,
    lo: int,
    mid: int,
    hi: int,
)
    requires
        lo <= mid <= hi,
    ensures
        column_count(img, c, x, y, r, k, lo, hi) == column_count(img, c, x, y, r, k, lo, mid)
            + column_count(img, c, x, y, r, k, mid, hi),
        0 <= column_count(img, c, x, y, r, k, lo, mid),
        0 <= column_count(img, c, x, y, r, k, mid, hi),
        k >= 0 ==> column_count(img, c, x, y, r, k, lo, hi) <= k,
    decreases k,
{
    if k > 0 {
        lemma_column_split(img, c, x, y, r, k - 1, lo, mid, hi);
    }
}

proof fn lemma_window_split(
    img: RgbImage,
    c: int,
    x: int,
    y: int,
    r: int,
    k: int,
    lo: int,
    mid: int,
    hi: int,
)
    requires
        lo <= mid <= hi,
    ensures
        window_count(img, c, x, y, r, k, lo, hi) == window_count(img, c, x, y, r, k, lo, mid)
            + window_count(img, c, x, y, r, k, mid, hi),
        0 <= window_count(img, c, x, y, r, k, lo, mid),
        0 <= window_count(img, c, x, y, r, k, mid, hi),
    decreases k,
{
    if k > 0 {
        lemma_window_split(img, c, x, y, r, k - 1, lo, mid, hi);
        lemma_column_split(
            img,
            c,
            nearest_index(x - r + k - 1, img.width as int),
            y,
            r,
            2 * r + 1,
            lo,
            mid,
            hi,
        );
    }
}

proof fn lemma_column_all(img: RgbImage, c: int, x: int, y: int, r: int, k: int)
    requires
        0 <= k,
    ensures
        column_count(img, c, x, y, r, k, 0, 256) == k,
    decreases k,
{
    if k > 0 {
        lemma_column_all(img, c, x, y, r, k - 1);
    }
}

proof fn lemma_window_all(img: RgbImage, c: int, x: int, y: int, r: int, k: int)
    requires
        0 <= k,
        0 <= r,
    ensures
        window_count(img, c, x, y, r, k, 0, 256) == k * (2 * r + 1),
    decreases k,
{
    if k > 0 {
        lemma_window_all(img, c, x, y, r, k - 1);
        lemma_column_all(
            img,
            c,
            nearest_index(x - r + k - 1, img.width as int),
            y,
            r,
            2 * r + 1,
        );
        assert(k * (2 * r + 1) == (k - 1) * (2 * r + 1) + (2 * r + 1)) by (nonlinear_arith);
    } else {
        assert(0 * (2 * r + 1) == 0);
    }
}

proof fn lemma_median_from(img: RgbImage, c: int, x: int, y: int, r: int, v: int) -> (u: u8)
    requires
        0 <= r,
        0 <= v <= 256,
        samples(img, c, x, y, r, 0, v) <= ((2 * r + 1) * (2 * r + 1)) / 2,
    ensures
        is_median(img, c, x, y, r, u),
    decreases 256 - v,
{
    let k = 2 * r + 1;
    if v == 256 {
        lemma_window_all(img, c, x, y, r, k);
        assert(k * k > (k * k) / 2) by (nonlinear_arith)
            requires
                k > 0,
        ;
        0
    } else if samples(img, c, x, y, r, 0, v + 1) > (k * k) / 2 {
        v as u8
    } else {
        lemma_median_from(img, c, x, y, r, v + 1)
    }
}

/// Every window has a median.
pub proof fn law_every_window_has_a_median(img: RgbImage, c: int, x: int, y: int, r: int)
    requires
        0 <= r,
    ensures
        is_median(img, c, x, y, r, median_at(img, c, x, y, r)),
{
    let k = 2 * r + 1;
    lemma_window_split(img, c, x, y, r, k, 0, 0, 256);
    assert(0 <= (k * k) / 2) by (nonlinear_arith)
        requires
            k > 0,
    ;
    let u = lemma_median_from(img, c, x, y, r, 0);
}

/// An image is another one inverted: every byte `v` became `255 - v`.
pub open spec fn is_inverted(img: RgbImage, other: RgbImage) -> bool {
    &&& other.width == img.width
    &&& other.height == img.height
    &&& forall|x: int, y: int, c: int|
        0 <= x < img.width && 0 <= y < img.height && 0 <= c < 3 ==> #[trigger] other.at(x, y, c)
            == 255 - img.at(x, y, c)
}

proof fn lemma_inverted_column(
    img: RgbImage,
    other: RgbImage,
    c: int,
    x: int,
    y: int,
    r: int,
    k: int,
    lo: int,
    hi: int,
)
    requires
        is_inverted(img, other),
        0 <= x < img.width,
        0 < img.height,
        0 <= c < 3,
    ensures
        column_count(other, c, x, y, r, k, lo, hi) == column_count(
            img,
            c,
            x,
            y,
            r,
            k,
            256 - hi,
            256 - lo,
        ),
    decreases k,
{
    if k > 0 {
        lemma_inverted_column(img, other, c, x, y, r, k - 1, lo, hi);
        let row = nearest_index(y - r + k - 1, img.height as int);
        assert(other.at(x, row, c) == 255 - img.at(x, row, c));
    }
}

proof fn lemma_inverted_window(
    img: RgbImage,
    other: RgbImage,
    c: int,
    x: int,
    y: int,
    r: int,
    k: int,
    lo: int,
    hi: int,
)
    requires
        is_inverted(img, other),
        0 < img.width,
        0 < img.height,
        0 <= c < 3,
    ensures
        window_count(other, c, x, y, r, k, lo, hi) == window_count(
            img,
            c,
            x,
            y,
            r,
            k,
            256 - hi,
            256 - lo,
        ),
    decreases k,
{
    if k > 0 {
        lemma_inverted_window(img, other, c, x, y, r, k - 1, lo, hi);
        lemma_inverted_column(
            img,
            other,
            c,
            nearest_index(x - r + k - 1, img.width as int),
            y,
            r,
            2 * r + 1,
            lo,
            hi,
        );
    }
}

/// The median of an inverted window is the inverted median.
pub proof fn law_inverted_median(img: RgbImage, other: RgbImage, c: int, x: int, y: int, r: int)
    requires
        is_inverted(img, other),
        0 < img.width,
        0 < img.height,
        0 <= c < 3,
        0 <= r,
    ensures
        median_at(other, c, x, y, r) == 255 - median_at(img, c, x, y, r),
{
    let v = median_at(img, c, x, y, r);
    let u = (255 - v) as u8;
    let k = 2 * r + 1;
    law_every_window_has_a_median(img, c, x, y, r);
    lemma_window_all(img, c, x, y, r, k);
    lemma_window_split(img, c, x, y, r, k, 0, v as int, 256);
    lemma_window_split(img, c, x, y, r, k, 0, v + 1, 256);
    lemma_inverted_window(img, other, c, x, y, r, k, 0, u as int);
    lemma_inverted_window(img, other, c, x, y, r, k, 0, u + 1);
    assert(k * k == 2 * ((k * k) / 2) + 1) by {
        assert(k * k == 2 * (2 * r * r + 2 * r) + 1) by (nonlinear_arith)
            requires
                k == 2 * r + 1,
        ;
    }
    assert(is_median(other, c, x, y, r, u));
    lemma_median_is_unique(other, c, x, y, r, u);
}

/// The median of a window whose samples all lie in `lo..hi` lies there too.
pub proof fn law_median_lies_among_samples(
    img: RgbImage,
    c: int,
    x: int,
    y: int,
    r: int,
    lo: int,
    hi: int,
)
    requires
        0 <= r,
        0 <= lo <= hi <= 256,
        samples(img, c, x, y, r, lo, hi) == (2 * r + 1) * (2 * r + 1),
    ensures
        lo <= median_at(img, c, x, y, r) < hi,
{
    let v = median_at(img, c, x, y, r) as int;
    let k = 2 * r + 1;
    law_every_window_has_a_median(img, c, x, y, r);
    lemma_window_all(img, c, x, y, r, k);
    lemma_window_split(img, c, x, y, r, k, 0, lo, 256);
    lemma_window_split(img, c, x, y, r, k, lo, hi, 256);
    assert(k * k > (k * k) / 2 >= 0) by (nonlinear_arith)
        requires
            k > 0,
    ;
    if v < lo {
        lemma_window_split(img, c, x, y, r, k, 0, v + 1, lo);
    } else if v >= hi {
        lemma_window_split(img, c, x, y, r, k, lo, hi, v);
        lemma_window_split(img, c, x, y, r, k, 0, lo, v);
    }
}

/// One column to the right: the window loses its first column and gains one behind its last.
proof fn lemma_window_shift(
    img: RgbImage,
    c: int,
    x: int,
    y: int,
    r: int,
    k: int,
    lo: int,
    hi: int,
)
    requires
        0 <= k,
    ensures
        window_count(img, c, x + 1, y, r, k, lo, hi) + column_count(
            img,
            c,
            nearest_index(x - r, img.width as int),
            y,
            r,
            2 * r + 1,
            lo,
            hi,
        ) == window_count(img, c, x, y, r, k + 1, lo, hi),
    decreases k,
{
    if k > 0 {
        lemma_window_shift(img, c, x, y, r, k - 1, lo, hi);
    } else {
        reveal_with_fuel(window_count, 2);
    }
}

/// The row that a window's sample comes from.
fn row_of(y: u32, r: u32, k: u32, height: u32) -> (row: u32)
    requires
        0 < height,
        r <= MAX_KSIZE,
        k <= 2 * r,
    ensures
        row == nearest_index(y - r + k, height as int),
        row < height,
{
    let i: i64 = y as i64 - r as i64 + k as i64;
    if i < 0 {
        0
    } else if i >= height as i64 {
        height - 1
    } else {
        i as u32
    }
}

fn sample(img: &RgbImage, x: u32, y: u32, c: usize) -> (v: usize)
    requires
        img.wf(),
        x < img.width,
        y < img.height,
        c < 3,
    ensures
        v == img.at(x as int, y as int, c as int),
{
    let o: usize = img.offset(x, y);
    img.data[o + c] as usize
}

/// The histogram holds the counts of the window around `(x, y)`.
spec fn holds(hist: Seq<u32>, img: RgbImage, c: int, x: int, y: int, r: int) -> bool {
    &&& hist.len() == 256
    &&& forall|v: int| 0 <= v < 256 ==> hist[v] == #[trigger] samples(img, c, x, y, r, v, v + 1)
}

/// The counts of the first window in a row.
fn first_window(img: &RgbImage, c: usize, y: u32, r: u32) -> (hist: Vec<u32>)
    requires
        img.wf(),
        0 < img.width,
        y < img.height,
        c < 3,
        2 * r + 1 <= MAX_KSIZE,
    ensures
        holds(hist@, *img, c as int, 0, y as int, r as int),
{
    let mut hist: Vec<u32> = vec![0u32; 256];
    let mut i: u32 = 0;
    while i < 2 * r + 1
        invariant
            img.wf(),
            0 < img.width,
            y < img.height,
            c < 3,
            2 * r + 1 <= MAX_KSIZE,
            i <= 2 * r + 1,
            hist@.len() == 256,
            forall|v: int|
                0 <= v < 256 ==> hist@[v] == #[trigger] window_count(
                    *img,
                    c as int,
                    0,
                    y as int,
                    r as int,
                    i as int,
                    v,
                    v + 1,
                ),
        decreases 2 * r + 1 - i,
    {
        let x: u32 = row_of(0, r, i, img.width);
        let mut k: u32 = 0;
        while k < 2 * r + 1
            invariant
                img.wf(),
                x < img.width,
                x == nearest_index(0 - r + i, img.width as int),
                y < img.height,
                c < 3,
                2 * r + 1 <= MAX_KSIZE,
                i < 2 * r + 1,
                k <= 2 * r + 1,
                hist@.len() == 256,
                forall|v: int|
                    0 <= v < 256 ==> hist@[v] == #[trigger] window_count(
                        *img,
                        c as int,
                        0,
                        y as int,
                        r as int,
                        i as int,
                        v,
                        v + 1,
                    ) + column_count(
                        *img,
                        c as int,
                        x as int,
                        y as int,
                        r as int,
                        k as int,
                        v,
                        v + 1,
                    ),
            decreases 2 * r + 1 - k,
        {
            let row: u32 = row_of(y, r, k, img.height);
            let v: usize = sample(img, x, row, c);
            proof {
                lemma_window_bound(*img, c as int, 0, y as int, r as int, i as int, v as int);
                lemma_column_split(
                    *img,
                    c as int,
                    x as int,
                    y as int,
                    r as int,
                    k as int,
                    v as int,
                    v as int,
                    v + 1,
                );
            }
            let n: u32 = hist[v] + 1;
            hist.set(v, n);
            k = k + 1;
        }
        proof {
            assert forall|v: int| 0 <= v < 256 implies hist@[v] == #[trigger] window_count(
                *img,
                c as int,
                0,
                y as int,
                r as int,
                i + 1,
                v,
                v + 1,
            ) by {
                assert(hist@[v] == window_count(
                    *img,
                    c as int,
                    0,
                    y as int,
                    r as int,
                    i as int,
                    v,
                    v + 1,
                ) + column_count(*img, c as int, x as int, y as int, r as int, k as int, v, v + 1));
            }
        }
        i = i + 1;
    }
    hist
}

proof fn lemma_window_bound(img: RgbImage, c: int, x: int, y: int, r: int, k: int, v: int)
    requires
        0 <= k <= 2 * r + 1,
        0 <= 2 * r + 1 <= MAX_KSIZE,
        0 <= v < 256,
    ensures
        0 <= window_count(img, c, x, y, r, k, v, v + 1) <= (2 * r + 1) * (2 * r + 1),
        (2 * r + 1) * (2 * r + 1) <= MAX_KSIZE * MAX_KSIZE,
{
    lemma_window_split(img, c, x, y, r, k, 0, v, 256);
    lemma_window_split(img, c, x, y, r, k, v, v + 1, 256);
    lemma_window_all(img, c, x, y, r, k);
    assert(k * (2 * r + 1) <= (2 * r + 1) * (2 * r + 1)) by (nonlinear_arith)
        requires
            0 <= k <= 2 * r + 1,
    ;
    assert((2 * r + 1) * (2 * r + 1) <= MAX_KSIZE * MAX_KSIZE) by (nonlinear_arith)
        requires
            0 <= 2 * r + 1 <= MAX_KSIZE,
    ;
}

/// How many of the first `k` rows' samples, of those that leave and those that enter as the
/// window moves from `x - 1` to `x`, lie in `lo..hi`: entering minus leaving.
spec fn moved(img: RgbImage, c: int, x: int, y: int, r: int, k: int, lo: int, hi: int) -> int {
    let w = img.width as int;
    column_count(img, c, nearest_index(x + r, w), y, r, k, lo, hi) - column_count(
        img,
        c,
        nearest_index(x - 1 - r, w),
        y,
        r,
        k,
        lo,
        hi,
    )
}

proof fn lemma_move(img: RgbImage, c: int, x: int, y: int, r: int, lo: int, hi: int)
    requires
        0 <= r,
    ensures
        samples(img, c, x, y, r, lo, hi) == samples(img, c, x - 1, y, r, lo, hi) + moved(
            img,
            c,
            x,
            y,
            r,
            2 * r + 1,
            lo,
            hi,
        ),
{
    lemma_window_shift(img, c, x - 1, y, r, 2 * r, lo, hi);
}

/// The part of a column that is still in the window is counted in the window.
proof fn lemma_column_in_window(
    img: RgbImage,
    c: int,
    x: int,
    y: int,
    r: int,
    k: int,
    lo: int,
    hi: int,
)
    requires
        0 <= k <= 2 * r + 1,
        lo <= hi,
    ensures
        column_count(img, c, nearest_index(x - r, img.width as int), y, r, k, lo, hi) <= samples(
            img,
            c,
            x,
            y,
            r,
            lo,
            hi,
        ),
{
    lemma_window_shift(img, c, x, y, r, 2 * r, lo, hi);
    lemma_window_split(img, c, x + 1, y, r, 2 * r, lo, lo, hi);
    lemma_column_grows(
        img,
        c,
        nearest_index(x - r, img.width as int),
        y,
        r,
        k,
        2 * r + 1,
        lo,
        hi,
    );
}

proof fn lemma_column_grows(
    img: RgbImage,
    c: int,
    x: int,
    y: int,
    r: int,
    k: int,
    l: int,
    lo: int,
    hi: int,
)
    requires
        0 <= k <= l,
    ensures
        0 <= column_count(img, c, x, y, r, k, lo, hi) <= column_count(img, c, x, y, r, l, lo, hi)
            <= l,
    decreases l,
{
    if l > k {
        lemma_column_grows(img, c, x, y, r, k, l - 1, lo, hi);
    } else if k > 0 {
        lemma_column_grows(img, c, x, y, r, k - 1, l - 1, lo, hi);
    }
}

/// Moves the histogram one column to the right. `below`, the number of samples under `mid`,
/// moves with it.
fn slide(
    hist: &mut Vec<u32>,
    below: u32,
    mid: usize,
    img: &RgbImage,
    c: usize,
    x: u32,
    y: u32,
    r: u32,
) -> (b: u32)
    requires
        img.wf(),
        0 < x < img.width,
        y < img.height,
        c < 3,
        2 * r + 1 <= MAX_KSIZE,
        mid < 256,
        holds(old(hist)@, *img, c as int, x - 1, y as int, r as int),
        below == samples(*img, c as int, x - 1, y as int, r as int, 0, mid as int),
    ensures
        holds(final(hist)@, *img, c as int, x as int, y as int, r as int),
        b == samples(*img, c as int, x as int, y as int, r as int, 0, mid as int),
{
    let lx: u32 = row_of(x - 1, r, 0, img.width);
    let rx: u32 = row_of(x, r, 2 * r, img.width);
    let ghost (gc, gx, gy, gr) = (c as int, x as int, y as int, r as int);
    let ghost im = *img;
    let mut b: u32 = below;
    let mut k: u32 = 0;
    proof {
        lemma_window_split(im, gc, gx - 1, gy, gr, 2 * gr + 1, 0, mid as int, 256);
        lemma_window_all(im, gc, gx - 1, gy, gr, 2 * gr + 1);
        lemma_window_bound(im, gc, gx - 1, gy, gr, 2 * gr + 1, 0);
    }
    while k < 2 * r + 1
        invariant
            im == *img,
            gc == c,
            gx == x,
            gy == y,
            gr == r,
            img.wf(),
            0 < x < img.width,
            y < img.height,
            c < 3,
            2 * r + 1 <= MAX_KSIZE,
            mid < 256,
            k <= 2 * r + 1,
            lx < img.width,
            rx < img.width,
            lx == nearest_index(gx - 1 - gr, im.width as int),
            rx == nearest_index(gx + gr, im.width as int),
            hist@.len() == 256,
            forall|v: int|
                0 <= v < 256 ==> hist@[v] == #[trigger] samples(im, gc, gx - 1, gy, gr, v, v + 1)
                    + moved(im, gc, gx, gy, gr, k as int, v, v + 1),
            b == samples(im, gc, gx - 1, gy, gr, 0, mid as int) + moved(
                im,
                gc,
                gx,
                gy,
                gr,
                k as int,
                0,
                mid as int,
            ),
            0 <= samples(im, gc, gx - 1, gy, gr, 0, mid as int) <= MAX_KSIZE * MAX_KSIZE,
        decreases 2 * r + 1 - k,
    {
        let row: u32 = row_of(y, r, k, img.height);
        let out: usize = sample(img, lx, row, c);
        let ghost before = hist@;
        proof {
            let v = out as int;
            lemma_column_in_window(im, gc, gx - 1, gy, gr, k + 1, v, v + 1);
            lemma_column_in_window(im, gc, gx - 1, gy, gr, k + 1, 0, mid as int);
            lemma_column_grows(im, gc, rx as int, gy, gr, k as int, 2 * gr + 1, v, v + 1);
            lemma_column_grows(im, gc, rx as int, gy, gr, k as int, 2 * gr + 1, 0, mid as int);
            assert(hist@[v] == samples(im, gc, gx - 1, gy, gr, v, v + 1) + moved(
                im,
                gc,
                gx,
                gy,
                gr,
                k as int,
                v,
                v + 1,
            ));
        }
        let n: u32 = hist[out] - 1;
        hist.set(out, n);
        if out < mid {
            b = b - 1;
        }
        let into: usize = sample(img, rx, row, c);
        proof {
            let v = into as int;
            lemma_window_bound(im, gc, gx - 1, gy, gr, 2 * gr + 1, v);
            lemma_column_grows(im, gc, rx as int, gy, gr, k as int, 2 * gr + 1, v, v + 1);
            lemma_column_grows(im, gc, lx as int, gy, gr, k as int, 2 * gr + 1, v, v + 1);
            lemma_column_grows(im, gc, lx as int, gy, gr, k as int, 2 * gr + 1, 0, mid as int);
            assert(before[v] == samples(im, gc, gx - 1, gy, gr, v, v + 1) + moved(
                im,
                gc,
                gx,
                gy,
                gr,
                k as int,
                v,
                v + 1,
            ));
        }
        let n: u32 = hist[into] + 1;
        hist.set(into, n);
        if into < mid {
            b = b + 1;
        }
        k = k + 1;
    }
    proof {
        assert forall|v: int| 0 <= v < 256 implies hist@[v] == #[trigger] samples(
            im,
            gc,
            gx,
            gy,
            gr,
            v,
            v + 1,
        ) by {
            assert(hist@[v] == samples(im, gc, gx - 1, gy, gr, v, v + 1) + moved(
                im,
                gc,
                gx,
                gy,
                gr,
                k as int,
                v,
                v + 1,
            ));
            lemma_move(im, gc, gx, gy, gr, v, v + 1);
        }
        lemma_move(im, gc, gx, gy, gr, 0, mid as int);
    }
    b
}

/// Moves `mid` to the value that has the middle sample, from where it was.
fn settle(
    hist: &Vec<u32>,
    below: u32,
    mid: usize,
    middle: u32,
    img: &RgbImage,
    c: usize,
    x: u32,
    y: u32,
    r: u32,
) -> (s: (u32, usize))
    requires
        2 * r + 1 <= MAX_KSIZE,
        middle == ((2 * r + 1) * (2 * r + 1)) / 2,
        mid < 256,
        holds(hist@, *img, c as int, x as int, y as int, r as int),
        below == samples(*img, c as int, x as int, y as int, r as int, 0, mid as int),
    ensures
        s.1 < 256,
        s.0 == samples(*img, c as int, x as int, y as int, r as int, 0, s.1 as int),
        is_median(*img, c as int, x as int, y as int, r as int, s.1 as u8),
{
    let ghost (gc, gx, gy, gr) = (c as int, x as int, y as int, r as int);
    let ghost im = *img;
    let mut b: u32 = below;
    let mut m: usize = mid;
    while b > middle
        invariant
            im == *img,
            m < 256,
            holds(hist@, im, gc, gx, gy, gr),
            b == samples(im, gc, gx, gy, gr, 0, m as int),
        decreases m,
    {
        proof {
            lemma_window_split(im, gc, gx, gy, gr, 2 * gr + 1, 0, 0, 0);
            lemma_window_split(im, gc, gx, gy, gr, 2 * gr + 1, 0, m - 1, m as int);
            assert(hist@[m - 1] == samples(im, gc, gx, gy, gr, m - 1, m - 1 + 1));
        }
        m = m - 1;
        b = b - hist[m];
    }
    proof {
        lemma_window_all(im, gc, gx, gy, gr, 2 * gr + 1);
        lemma_window_bound(im, gc, gx, gy, gr, 2 * gr + 1, 0);
        assert((2 * gr + 1) * (2 * gr + 1) >= 1) by (nonlinear_arith)
            requires
                gr >= 0,
        ;
    }
    loop
        invariant
            im == *img,
            m < 256,
            b <= middle,
            middle < samples(im, gc, gx, gy, gr, 0, 256),
            middle <= MAX_KSIZE * MAX_KSIZE,
            holds(hist@, im, gc, gx, gy, gr),
            b == samples(im, gc, gx, gy, gr, 0, m as int),
            2 * gr + 1 <= MAX_KSIZE,
            0 <= gr,
        ensures
            m < 256,
            b == samples(im, gc, gx, gy, gr, 0, m as int),
            b <= middle < samples(im, gc, gx, gy, gr, 0, m + 1),
        decreases 256 - m,
    {
        proof {
            lemma_window_split(im, gc, gx, gy, gr, 2 * gr + 1, 0, m as int, m + 1);
            lemma_window_bound(im, gc, gx, gy, gr, 2 * gr + 1, m as int);
            assert(hist@[m as int] == samples(im, gc, gx, gy, gr, m as int, m + 1));
        }
        if b + hist[m] > middle {
            break;
        }
        b = b + hist[m];
        m = m + 1;
    }
    (b, m)
}

/// The medians of one channel along one row.
fn median_row(img: &RgbImage, c: usize, y: u32, r: u32) -> (row: Vec<u8>)
    requires
        img.wf(),
        0 < img.width,
        y < img.height,
        c < 3,
        2 * r + 1 <= MAX_KSIZE,
    ensures
        row@.len() == img.width,
        forall|x: int|
            0 <= x < img.width ==> is_median(*img, c as int, x, y as int, r as int, #[trigger] row@[x]),
{
    proof {
        lemma_window_bound(*img, c as int, 0, y as int, r as int, 0, 0);
        lemma_window_split(*img, c as int, 0, y as int, r as int, 2 * r + 1, 0, 0, 0);
    }
    let side: u32 = 2 * r + 1;
    let middle: u32 = (side * side) / 2;
    let mut hist: Vec<u32> = first_window(img, c, y, r);
    let (b, m) = settle(&hist, 0, 0, middle, img, c, 0, y, r);
    let mut below: u32 = b;
    let mut mid: usize = m;
    let mut row: Vec<u8> = Vec::new();
    row.push(mid as u8);
    let mut x: u32 = 1;
    while x < img.width
        invariant
            img.wf(),
            1 <= x <= img.width,
            y < img.height,
            c < 3,
            2 * r + 1 <= MAX_KSIZE,
            middle == ((2 * r + 1) * (2 * r + 1)) / 2,
            mid < 256,
            row@.len() == x,
            holds(hist@, *img, c as int, x - 1, y as int, r as int),
            below == samples(*img, c as int, x - 1, y as int, r as int, 0, mid as int),
            forall|i: int|
                0 <= i < x ==> is_median(*img, c as int, i, y as int, r as int, #[trigger] row@[i]),
        decreases img.width - x,
    {
        let moved_below: u32 = slide(&mut hist, below, mid, img, c, x, y, r);
        let (b, m) = settle(&hist, moved_below, mid, middle, img, c, x, y, r);
        below = b;
        mid = m;
        row.push(mid as u8);
        x = x + 1;
    }
    row
}

/// The median of each channel over the square window of side `2 * (ksize / 2) + 1` around each
/// pixel; the window repeats the image's edge.
pub fn median_filter_rgb(img: &RgbImage, ksize: u32) -> (out: Vec<[u8; 3]>)
    requires
        img.wf(),
        0 < img.width,
        0 < img.height,
        ksize <= MAX_KSIZE,
    ensures
        out@.len() == img.width * img.height,
        forall|x: int, y: int, c: int|
            0 <= x < img.width && 0 <= y < img.height && 0 <= c < 3 ==> is_median(
                *img,
                c,
                x,
                y,
                (ksize / 2) as int,
                #[trigger] out@[y * img.width + x]@[c],
            ),
{
    let r: u32 = ksize / 2;
    let w: u32 = img.width;
    let mut out: Vec<[u8; 3]> = Vec::new();
    let mut y: u32 = 0;
    assert(0 * w == 0) by (nonlinear_arith);
    while y < img.height
        invariant
            img.wf(),
            w == img.width,
            0 < w,
            ksize <= MAX_KSIZE,
            r == ksize / 2,
            y <= img.height,
            out@.len() == y * w,
            forall|i: int, j: int, c: int|
                0 <= i < w && 0 <= j < y && 0 <= c < 3 ==> is_median(
                    *img,
                    c,
                    i,
                    j,
                    r as int,
                    #[trigger] out@[j * w + i]@[c],
                ),
        decreases img.height - y,
    {
        let red: Vec<u8> = median_row(img, 0, y, r);
        let green: Vec<u8> = median_row(img, 1, y, r);
        let blue: Vec<u8> = median_row(img, 2, y, r);
        let ghost before = out@;
        let mut x: u32 = 0;
        while x < w
            invariant
                x <= w,
                w == img.width,
                red@.len() == w,
                green@.len() == w,
                blue@.len() == w,
                out@.len() == y * w + x,
                before.len() == y * w,
                forall|i: int| 0 <= i < before.len() ==> out@[i] == before[i],
                forall|i: int|
                    0 <= i < x ==> #[trigger] out@[y * w + i]@ == seq![red@[i], green@[i], blue@[i]],
            decreases w - x,
        {
            out.push([red[x as usize], green[x as usize], blue[x as usize]]);
            x = x + 1;
        }
        proof {
            assert((y + 1) * w == y * w + w) by (nonlinear_arith);
            assert forall|i: int, j: int, c: int|
                0 <= i < w && 0 <= j < y + 1 && 0 <= c < 3 implies is_median(
                *img,
                c,
                i,
                j,
                r as int,
                #[trigger] out@[j * w + i]@[c],
            ) by {
                if j < y {
                    lemma_pixel_in_range(w as int, y as int, i, j);
                    assert(w * y == y * w) by (nonlinear_arith);
                    assert(before[j * w + i]@[c] == out@[j * w + i]@[c]);
                } else {
                    assert(out@[y * w + i]@ == seq![red@[i], green@[i], blue@[i]]);
                    assert(is_median(*img, 0, i, j, r as int, red@[i]));
                    assert(is_median(*img, 1, i, j, r as int, green@[i]));
                    assert(is_median(*img, 2, i, j, r as int, blue@[i]));
                }
            }
        }
        y = y + 1;
    }
    assert(img.height * w == w * img.height) by (nonlinear_arith);
    out
}

} // verus!
