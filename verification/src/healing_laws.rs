//! What the repair of spots takes over: which source it picks, which patches fit, and how tone
//! and texture are put together.

use crate::develop_laws::{is_share, lemma_two_halves};
use crate::freqsep::{
    blended, channel, distance, levelled, mixed, near, on_rim, rim_count, rim_sum, share, smoothed,
    square_of,
};
use crate::order::{
    is_finite, law_adding_raises, law_difference_lies_between, law_difference_shows_order,
    law_dividing_keeps_order, law_doubling_is_exact, law_exact_product, law_negation_passes_through,
    law_product_sign, law_scaling_keeps_order, law_shares_shrink, law_small_product_is_finite,
    law_sum_lies_between, law_whole_numbers_are_exact, law_whole_part_lies_between, lemma_top_byte,
    lies_between,
};
use crate::patchmatch::{lemma_cell_over, next_random, random_step, Canvas};
use crate::raster::RgbImage;
use crate::single::{
    is_small, law_negation_is_opposite, law_one_is_neutral, law_order_is_numeric,
    law_product_commutes, law_small_integers_are_exact, law_small_sums_are_exact, law_sum_commutes,
    law_sums_keep_order, law_zero_is_neutral, lemma_any_zero_times_is_zero, lemma_exact_ratio,
    lemma_no_integer, lemma_one, lemma_round_ratio, lemma_small_sum, lemma_ulps_form,
    lemma_ulps_step, lemma_units, lemma_zero_magnitude, num, ulps, Single,
};
use crate::source_search::{
    best_on_grid, best_on_ring, charged, difference, feature, grid_side, is_legal, sample_term,
    Sample,
};
use crate::weight_laws::law_squares_follow_size;
use vstd::arithmetic::power2::{lemma2_to64, lemma_pow2_adds, lemma_pow2_pos, pow2};
use vstd::prelude::*;

verus! {

/// Place `i` of a ring around a spot may be a source.
pub open spec fn may_serve(img: RgbImage, cx: int, cy: int, r: int, ring: Seq<(i32, i32)>, i: int) -> bool {
    is_legal(img.width as int, img.height as int, cx, cy, r, cx + ring[i].0, cy + ring[i].1)
}

/// How far the surroundings of place `i` of a ring differ from those of the spot.
pub open spec fn ring_difference(img: RgbImage, samples: Seq<Sample>, ring: Seq<(i32, i32)>, i: int) -> Single {
    difference(img, samples, ring[i].0 as int, ring[i].1 as int, num(0x3dcc_cccd))  // 0.1
}

/// The source taken from a ring is one that may serve, and none that may serve differs less.
/// There is none exactly where no place may serve.
pub proof fn law_ring_source_differs_least(img: RgbImage, samples: Seq<Sample>, cx: int, cy: int, r: int, ring: Seq<(i32, i32)>, k: int)
    requires
        0 <= k <= ring.len(),
    ensures
        best_on_ring(img, samples, cx, cy, r, ring, k) is None <==> (forall|i: int| 0 <= i < k ==> !#[trigger] may_serve(img, cx, cy, r, ring, i)),
        best_on_ring(img, samples, cx, cy, r, ring, k) matches Some(b) ==> {
            &&& exists|j: int|
                0 <= j < k && #[trigger] may_serve(img, cx, cy, r, ring, j) && b.0 == (cx + ring[j].0) as i64 && b.1 == (cy + ring[j].1) as i64 && b.2
                    == ring_difference(img, samples, ring, j)
            &&& forall|i: int| 0 <= i < k && #[trigger] may_serve(img, cx, cy, r, ring, i) ==> !ring_difference(img, samples, ring, i).lt(b.2)
        },
    decreases k,
{
    if k > 0 {
        law_ring_source_differs_least(img, samples, cx, cy, r, ring, k - 1);
        let before = best_on_ring(img, samples, cx, cy, r, ring, k - 1);
        let sx = cx + ring[k - 1].0;
        let sy = cy + ring[k - 1].1;
        assert(sx - cx == ring[k - 1].0 && sy - cy == ring[k - 1].1);
        let served = may_serve(img, cx, cy, r, ring, k - 1);
        if served {
            let d = ring_difference(img, samples, ring, k - 1);
            if let Some(b) = before {
                let j = choose|j: int|
                    0 <= j < k - 1 && #[trigger] may_serve(img, cx, cy, r, ring, j) && b.0 == (cx + ring[j].0) as i64 && b.1 == (cy + ring[j].1) as i64
                        && b.2 == ring_difference(img, samples, ring, j);
                assert(may_serve(img, cx, cy, r, ring, j));
            }
        } else {
            if let Some(b) = before {
                let j = choose|j: int|
                    0 <= j < k - 1 && #[trigger] may_serve(img, cx, cy, r, ring, j) && b.0 == (cx + ring[j].0) as i64 && b.1 == (cy + ring[j].1) as i64
                        && b.2 == ring_difference(img, samples, ring, j);
                assert(may_serve(img, cx, cy, r, ring, j));
            }
        }
    }
}

/// Place `i` of the grid over a picture.
pub open spec fn grid_place(img: RgbImage, r: int, step: int, i: int) -> (int, int) {
    let ny = grid_side(img.height as int, r, step);
    (r + (i / ny) * step, r + (i % ny) * step)
}

/// Place `i` of the grid may be a source.
pub open spec fn grid_may_serve(img: RgbImage, cx: int, cy: int, r: int, step: int, i: int) -> bool {
    let p = grid_place(img, r, step, i);
    is_legal(img.width as int, img.height as int, cx, cy, r, p.0, p.1)
}

/// What place `i` of the grid is charged.
pub open spec fn grid_charge(img: RgbImage, samples: Seq<Sample>, cx: int, cy: int, r: int, step: int, i: int) -> Single {
    let p = grid_place(img, r, step, i);
    charged(img, samples, cx, cy, r, p.0, p.1)
}

/// The source taken from the grid is one that may serve, and none that may serve is charged less.
pub proof fn law_grid_source_is_charged_least(img: RgbImage, samples: Seq<Sample>, cx: int, cy: int, r: int, step: int, k: int)
    requires
        0 <= k,
    ensures
        best_on_grid(img, samples, cx, cy, r, step, k) is None <==> (forall|i: int| 0 <= i < k ==> !#[trigger] grid_may_serve(img, cx, cy, r, step, i)),
        best_on_grid(img, samples, cx, cy, r, step, k) matches Some(b) ==> {
            &&& exists|j: int|
                0 <= j < k && #[trigger] grid_may_serve(img, cx, cy, r, step, j) && b.0 == grid_place(img, r, step, j).0 as i64 && b.1 == grid_place(img, r, step, j).1 as i64
                    && b.2 == grid_charge(img, samples, cx, cy, r, step, j)
            &&& forall|i: int| 0 <= i < k && #[trigger] grid_may_serve(img, cx, cy, r, step, i) ==> !grid_charge(img, samples, cx, cy, r, step, i).lt(b.2)
        },
    decreases k,
{
    if k > 0 {
        law_grid_source_is_charged_least(img, samples, cx, cy, r, step, k - 1);
        let before = best_on_grid(img, samples, cx, cy, r, step, k - 1);
        let served = grid_may_serve(img, cx, cy, r, step, k - 1);
        let d = grid_charge(img, samples, cx, cy, r, step, k - 1);
        if let Some(b) = before {
            let j = choose|j: int|
                0 <= j < k - 1 && #[trigger] grid_may_serve(img, cx, cy, r, step, j) && b.0 == grid_place(img, r, step, j).0 as i64 && b.1 == grid_place(img, r, step, j).1 as i64
                    && b.2 == grid_charge(img, samples, cx, cy, r, step, j);
            assert(grid_may_serve(img, cx, cy, r, step, j));
        }
    }
}

/// A feature of a pixel is moderate.
pub open spec fn is_moderate(f: (Single, Single, Single)) -> bool {
    lies_between(f.0, -0x1000, 0x1000) && lies_between(f.1, -0x1000, 0x1000) && lies_between(f.2, -0x1000, 0x1000)
}

/// A weight times a number times the number again is not negative, and nothing where the number
/// is nothing.
proof fn lemma_weighted_square(w: Single, d: Single)
    requires
        num(0).le(w) && is_small(w),
        is_small(d),
    ensures
        num(0).le(w.times(d).times(d)),
        d.same(num(0)) ==> w.times(d).times(d).same(num(0)),
{
    law_small_product_is_finite(w, d);
    let t = w.times(d);
    if num(0).le(d) {
        law_product_sign(w, d);
        law_product_sign(t, d);
    } else {
        let e = d.negated();
        law_product_sign(w, e);
        law_negation_passes_through(d, w);
        law_negation_passes_through(t, e);
        law_negation_passes_through(e, t);
        law_product_sign(t.negated(), e);
        law_negation_passes_through(t.negated(), e);
        assert(e.negated() == d);
        law_negation_passes_through(t, d);
        law_negation_passes_through(e, t.negated());
    }
    if d.same(num(0)) {
        law_product_commutes(w, d);
        lemma_any_zero_times_is_zero(d, w);
        lemma_any_zero_times_is_zero(t, d);
    }
}

/// A sample adds to a difference what is not negative, and nothing where the features agree.
proof fn lemma_sample_adds(acc: Single, s: Sample, f: (Single, Single, Single), edge_w: Single)
    requires
        num(0).le(acc),
        is_moderate(s.feature) && is_moderate(f),
        is_share(edge_w),
    ensures
        num(0).le(sample_term(acc, s, f, edge_w)),
        s.feature == f && acc.same(num(0)) ==> sample_term(acc, s, f, edge_w).same(num(0)),
{
    let one = num(0x3f80_0000);
    let h = s.feature;
    lemma_size_lies(h.1, 0x1000);
    lemma_size_lies(h.2, 0x1000);
    lemma_pow2_pos(149);
    law_sum_lies_between(h.1.abs(), h.2.abs(), 0, 0x1000, 0, 0x1000);
    let edges = h.1.abs().plus(h.2.abs());
    law_adding_raises(h.1.abs(), h.2.abs());
    law_shares_shrink(edges, edge_w);
    let t = edge_w.times(edges);
    lemma_lies_is_small(edges, 0x2000);
    law_adding_raises(one, t);
    lemma_share_lies(edges, edge_w, 0x2000);
    law_whole_numbers_are_exact(1);
    lemma_one();
    law_sum_lies_between(one, t, 1, 1, 0, 0x2000);
    let w = one.plus(t);
    lemma_pow2_pos(149);
    lemma_lies_is_small(w, 0x2001);
    law_difference_lies_between(h.0, f.0, -0x1000, 0x1000, -0x1000, 0x1000);
    law_difference_lies_between(h.1, f.1, -0x1000, 0x1000, -0x1000, 0x1000);
    law_difference_lies_between(h.2, f.2, -0x1000, 0x1000, -0x1000, 0x1000);
    let (d0, d1, d2) = (h.0.minus(f.0), h.1.minus(f.1), h.2.minus(f.2));
    lemma_lies_is_small(d0, 0x2000);
    lemma_lies_is_small(d1, 0x2000);
    lemma_lies_is_small(d2, 0x2000);
    lemma_weighted_square(w, d0);
    lemma_weighted_square(w, d1);
    lemma_weighted_square(w, d2);
    let (a, b, c) = (w.times(d0).times(d0), w.times(d1).times(d1), w.times(d2).times(d2));
    lemma_adding_keeps_sign(acc, a);
    lemma_adding_keeps_sign(acc.plus(a), b);
    lemma_adding_keeps_sign(acc.plus(a).plus(b), c);
    if h == f {
        law_difference_shows_order(h.0, h.0);
        law_difference_shows_order(h.1, h.1);
        law_difference_shows_order(h.2, h.2);
    }
}

/// Two numbers that are not negative have such a sum, and nothing is the sum of nothing.
proof fn lemma_adding_keeps_sign(x: Single, y: Single)
    requires
        num(0).le(x) && num(0).le(y),
    ensures
        num(0).le(x.plus(y)),
        x.same(num(0)) && y.same(num(0)) ==> x.plus(y).same(num(0)),
{
    if x.same(num(0)) && y.same(num(0)) {
        law_zero_is_neutral(x, y);
    }
    if is_finite(x) {
        law_adding_raises(x, y);
    } else if is_finite(y) {
        law_adding_raises(y, x);
        law_sum_commutes(x, y);
    } else {
        reveal(Single::spec_plus);
    }
}

/// The size of a number lies as far from nothing as the number.
proof fn lemma_size_lies(x: Single, k: int)
    requires
        lies_between(x, -k, k),
        0 <= k,
    ensures
        lies_between(x.abs(), 0, k),
        num(0).le(x.abs()),
{
    law_negation_is_opposite(x);
    lemma_ulps_step(x.magnitude() as int);
    assert(0 * pow2(149) == 0);
    assert(-k * pow2(149) == -(k * pow2(149))) by (nonlinear_arith);
}

/// A share of a number that is not negative lies no further.
proof fn lemma_share_lies(x: Single, w: Single, k: int)
    requires
        lies_between(x, 0, k),
        num(0).le(x),
        is_share(w),
    ensures
        lies_between(w.times(x), 0, k),
        num(0).le(w.times(x)),
{
    law_shares_shrink(x, w);
    let t = w.times(x);
    lemma_ulps_form(0, 0);
    law_order_is_numeric(num(0), t);
    law_order_is_numeric(t, x);
    assert(0 * pow2(149) == 0);
}

/// Numbers up to two to the power 16 are moderate.
proof fn lemma_lies_is_small(x: Single, k: int)
    requires
        lies_between(x, -k, k),
        0 <= k <= 0x1_0000,
    ensures
        is_small(x),
{
    let top = num(0x4980_0000);
    lemma_ulps_form(146, 0x80_0000);
    lemma_pow2_adds(146, 3);
    lemma2_to64();
    lemma_pow2_pos(149);
    let (a, p) = (pow2(146) as int, pow2(149) as int);
    assert(k * p <= 0x80_0000 * a && -(k * p) == -k * p) by (nonlinear_arith)
        requires
            p == 8 * a,
            0 <= k <= 0x1_0000,
            p > 0,
    ;
    law_negation_is_opposite(top);
    law_order_is_numeric(x, top);
    law_order_is_numeric(top.negated(), x);
}

/// The features of all samples, and of the places that they are compared with, are moderate.
pub open spec fn all_moderate(img: RgbImage, samples: Seq<Sample>, dx: int, dy: int) -> bool {
    forall|i: int|
        0 <= i < samples.len() ==> is_moderate((#[trigger] samples[i]).feature) && is_moderate(feature(img, samples[i].x + dx, samples[i].y + dy))
}

/// A difference of surroundings is never negative, and there is none where every sample finds its
/// own feature at the other place.
pub proof fn law_alike_surroundings_do_not_differ(img: RgbImage, samples: Seq<Sample>, dx: int, dy: int, edge_w: Single)
    requires
        all_moderate(img, samples, dx, dy),
        is_share(edge_w),
    ensures
        num(0).le(difference(img, samples, dx, dy, edge_w)),
        (forall|i: int| 0 <= i < samples.len() ==> (#[trigger] samples[i]).feature == feature(img, samples[i].x + dx, samples[i].y + dy)) ==> difference(
            img,
            samples,
            dx,
            dy,
            edge_w,
        ).same(num(0)),
    decreases samples.len(),
{
    if samples.len() > 0 {
        let rest = samples.drop_last();
        assert forall|i: int| 0 <= i < rest.len() implies is_moderate((#[trigger] rest[i]).feature) && is_moderate(
            feature(img, rest[i].x + dx, rest[i].y + dy),
        ) by {
            assert(rest[i] == samples[i]);
        }
        law_alike_surroundings_do_not_differ(img, rest, dx, dy, edge_w);
        let s = samples.last();
        assert(s == samples[samples.len() - 1]);
        let acc = difference(img, rest, dx, dy, edge_w);
        lemma_sample_adds(acc, s, feature(img, s.x + dx, s.y + dy), edge_w);
        if forall|i: int| 0 <= i < samples.len() ==> (#[trigger] samples[i]).feature == feature(img, samples[i].x + dx, samples[i].y + dy) {
            assert forall|i: int| 0 <= i < rest.len() implies (#[trigger] rest[i]).feature == feature(img, rest[i].x + dx, rest[i].y + dy) by {
                assert(rest[i] == samples[i]);
            }
        }
    }
}

/// Matching keeps an offset unless another one fits better.
pub proof fn law_neighbours_are_adopted_where_they_fit(c: Canvas, x: int, y: int, nx: int, ny: int, best: ((i32, i32), Single))
    ensures
        c.adopt(x, y, nx, ny, best) == best || c.adopt(x, y, nx, ny, best).1.lt(best.1),
        c.inside(nx, ny) && !c.known[ny * c.w + nx] ==> {
            let o = c.off[ny * c.w + nx];
            !c.misfit(x, y, x + o.0, y + o.1).lt(c.adopt(x, y, nx, ny, best).1)
        },
{
}

/// Random steps keep an offset unless another one fits better.
pub proof fn law_random_steps_never_fit_worse(c: Canvas, x: int, y: int, j: nat, best: ((i32, i32), Single), seed: u64)
    ensures
        c.refine(x, y, j, best, seed).0 == best || c.refine(x, y, j, best, seed).0.1.lt(best.1),
    decreases 64 - j,
{
    if j >= 64 || c.reach() <= pow2(j) {
    } else {
        let s1 = next_random(seed);
        let s2 = next_random(s1);
        let dx = random_step(s1, c.reach(), j);
        let dy = random_step(s2, c.reach(), j);
        law_random_steps_never_fit_worse(c, x, y, j + 1, best, s2);
        if c.inside(x + dx, y + dy) {
            let e = c.misfit(x, y, x + dx, y + dy);
            law_random_steps_never_fit_worse(c, x, y, j + 1, ((dx as i32, dy as i32), e), s2);
        }
    }
}

/// The value at a cell of one patch and of another.
pub open spec fn cell_at(c: Canvas, x: int, y: int, t: int, k: int) -> Single {
    c.cur[((y + c.cell(t).1) * c.w + (x + c.cell(t).0)) * 3 + k]
}

/// The misfit of two patches is never negative, and there is none where their known pixels are
/// the same.
pub proof fn law_equal_patches_fit(c: Canvas, x: int, y: int, sx: int, sy: int, n: int)
    requires
        forall|i: int| 0 <= i < c.cur.len() ==> lies_between(#[trigger] c.cur[i], 0, 0x100),
        forall|t: int, k: int|
            0 <= t < n && 0 <= k < 3 && c.known_at(x + c.cell(t).0, y + c.cell(t).1) ==> {
                &&& lies_between(#[trigger] cell_at(c, x, y, t, k), 0, 0x100)
                &&& lies_between(cell_at(c, sx, sy, t, k), 0, 0x100)
            },
    ensures
        num(0).le(c.squares_upto(x, y, sx, sy, n)),
        (forall|t: int, k: int|
            0 <= t < n && 0 <= k < 3 && c.known_at(x + c.cell(t).0, y + c.cell(t).1) ==> #[trigger] cell_at(c, x, y, t, k).same(
                cell_at(c, sx, sy, t, k),
            )) ==> c.squares_upto(x, y, sx, sy, n).same(num(0)),
    decreases n,
{
    if n > 0 {
        law_equal_patches_fit(c, x, y, sx, sy, n - 1);
        let acc = c.squares_upto(x, y, sx, sy, n - 1);
        let (dx, dy) = c.cell(n - 1);
        if c.known_at(x + dx, y + dy) {
            let a = ((y + dy) * c.w + (x + dx)) * 3;
            let b = ((sy + dy) * c.w + (sx + dx)) * 3;
            assert(cell_at(c, x, y, n - 1, 0) == c.cur[a] && cell_at(c, sx, sy, n - 1, 0) == c.cur[b]);
            assert(cell_at(c, x, y, n - 1, 1) == c.cur[a + 1] && cell_at(c, sx, sy, n - 1, 1) == c.cur[b + 1]);
            assert(cell_at(c, x, y, n - 1, 2) == c.cur[a + 2] && cell_at(c, sx, sy, n - 1, 2) == c.cur[b + 2]);
            lemma_square_adds(c, acc, a, b);
            let one = c.plus_square(acc, a, b);
            lemma_square_adds(c, one, a + 1, b + 1);
            let two = c.plus_square(one, a + 1, b + 1);
            lemma_square_adds(c, two, a + 2, b + 2);
        }
    }
}

/// A squared difference adds what is not negative.
proof fn lemma_square_adds(c: Canvas, acc: Single, a: int, b: int)
    requires
        num(0).le(acc),
        lies_between(c.cur[a], 0, 0x100),
        lies_between(c.cur[b], 0, 0x100),
    ensures
        num(0).le(c.plus_square(acc, a, b)),
        acc.same(num(0)) && c.cur[a].same(c.cur[b]) ==> c.plus_square(acc, a, b).same(num(0)),
{
    let (u, v) = (c.cur[a], c.cur[b]);
    law_difference_lies_between(u, v, 0, 0x100, 0, 0x100);
    let d = u.minus(v);
    law_squares_follow_size(d, d);
    law_difference_shows_order(v, u);
    if u.same(v) {
        lemma_any_zero_times_is_zero(d, d);
    }
    lemma_adding_keeps_sign(acc, d.times(d));
}

/// Where the smoothed tone of the target and that of the source agree, the middle of a spot takes
/// over the source's own pixel: what is put together is the target's tone and the source's
/// texture.
pub proof fn law_texture_comes_from_the_source(tgt: Seq<Single>, src: Seq<Single>, r: int, weights: Seq<Single>, fade: Seq<Single>, k: int, n: int)
    requires
        0 <= n <= 255,
        src[k] == Single::spec_from_int(n),
        is_finite(levelled(tgt, r)[k]),
        share(k / 3, r, fade) == num(0x3f80_0000),  // 1
        ({
            let d = 2 * r + 1;
            let low = smoothed(channel(levelled(tgt, r), d * d, k % 3), weights, d, d)[k / 3];
            &&& low == smoothed(channel(src, d * d, k % 3), weights, d, d)[k / 3]
            &&& lies_between(low, -0x1000, 0x1000)
        }),
    ensures
        n - 1 <= blended(tgt, src, r, weights, fade, k) <= n + 1,
{
    let d = 2 * r + 1;
    let low = smoothed(channel(levelled(tgt, r), d * d, k % 3), weights, d, d)[k / 3];
    let s = src[k];
    let p = pow2(149) as int;
    lemma_pow2_pos(149);
    let j = low.value() / p;
    assert(j * p <= low.value() <= (j + 1) * p && -0x1001 <= j <= 0x1001) by (nonlinear_arith)
        requires
            p > 0,
            j == low.value() / p,
            -0x1000 * p <= low.value() <= 0x1000 * p,
    ;
    law_whole_numbers_are_exact(n);
    law_difference_lies_between(s, low, n, n, j, j + 1);
    let high = s.minus(low);
    law_sum_lies_between(low, high, j, j + 1, n - j - 1, n - j);
    let healed = low.plus(high);
    lemma_mixed_whole(levelled(tgt, r)[k], healed, n);
}

/// With the whole share on what was put together, a byte is its whole part.
proof fn lemma_mixed_whole(v: Single, healed: Single, n: int)
    requires
        is_finite(v),
        0 <= n <= 255,
        lies_between(healed, n - 1, n + 1),
    ensures
        n - 1 <= mixed(v, healed, num(0x3f80_0000)) <= n + 1,
{
    let one = num(0x3f80_0000);
    let top = num(0x437f_0000);
    let held = healed.clamp(num(0), top);
    law_difference_shows_order(one, one);
    law_product_commutes(v, one.minus(one));
    lemma_any_zero_times_is_zero(one.minus(one), v);
    law_one_is_neutral(held);
    let z = v.times(one.minus(one));
    law_sum_commutes(z, held);
    law_zero_is_neutral(held, z);
    let w = z.plus(held);
    lemma_top_byte();
    lemma_ulps_form(0, 0);
    law_order_is_numeric(w, held);
    law_order_is_numeric(healed, num(0));
    law_order_is_numeric(top, healed);
    let p = pow2(149) as int;
    lemma_pow2_pos(149);
    let lo = if n < 1 { 0 } else { n - 1 };
    let hi = if n > 254 { 255 } else { n + 1 };
    assert(0 * p <= 0 && (n - 1) * p <= lo * p + p && (n < 1 ==> (n - 1) * p <= 0) && (n > 254 ==> 255 * p <= (n + 1) * p) && lo * p <= 255 * p && 0 <= hi * p) by (nonlinear_arith)
        requires
            p > 0,
            0 <= n <= 255,
            lo == (if n < 1 { 0 } else { n - 1 }),
            hi == (if n > 254 { 255 } else { n + 1 }),
    ;
    assert(lies_between(w, lo, hi));
    law_whole_part_lies_between(w, lo, hi, 0, 255);
    reveal(mixed);
    assert(mixed(v, healed, one) == w.truncated(0, 255));
}

/// The share of the repair is whole in the middle of a spot. Towards its rim it is half of one
/// and the fade together: a share that falls with the fade.
pub proof fn law_share_fades_at_the_rim(p: int, r: int, less: Seq<Single>, more: Seq<Single>)
    requires
        num(0xbf80_0000).le(less[square_of(p, r)]),  // -1
        less[square_of(p, r)].le(more[square_of(p, r)]),
        more[square_of(p, r)].le(num(0x3f80_0000)),  // 1
    ensures
        share(p, r, less).le(share(p, r, more)),
        is_share(share(p, r, less)),
        distance(p, r).over(Single::spec_from_int(r)).lt(num(0x3f59_999a)) ==> share(p, r, less) == num(0x3f80_0000),  // 0.85
{
    reveal(share);
    let one = num(0x3f80_0000);
    let half = num(0x3f00_0000);
    let (a, b) = (less[square_of(p, r)], more[square_of(p, r)]);
    law_sums_keep_order(a, b, one);
    law_sums_keep_order(b, one, one);
    law_sums_keep_order(num(0xbf80_0000), a, one);
    assert(one.minus(one) == one.plus(num(0xbf80_0000)));
    law_difference_shows_order(one, one);
    law_doubling_is_exact(one);
    lemma_small_sum(one, one);
    lemma_small_sum(one, a);
    lemma_small_sum(one, b);
    law_scaling_keeps_order(one.plus(a), one.plus(b), half);
    law_scaling_keeps_order(one.plus(b), one.plus(one), half);
    law_scaling_keeps_order(one.minus(one), one.plus(a), half);
    law_product_commutes(half, one.minus(one));
    lemma_any_zero_times_is_zero(one.minus(one), half);
    lemma_half_of_two();
}

/// Half of two is one.
proof fn lemma_half_of_two()
    ensures
        num(0x3f00_0000).times(num(0x3f80_0000).plus(num(0x3f80_0000))) == num(0x3f80_0000),
{
    let one = num(0x3f80_0000);
    let half = num(0x3f00_0000);
    law_doubling_is_exact(one);
    lemma_two_halves();
    lemma_units();
    let (h, p) = (half.value(), pow2(149) as int);
    lemma_pow2_pos(149);
    assert(h * (2 * p) == p * p) by (nonlinear_arith)
        requires
            2 * h == p,
    ;
    lemma_ulps_form(0, 0);
    law_order_is_numeric(one, num(0));
    law_exact_product(half, one.plus(one), one);
}

/// The sum over a rim of one value.
proof fn lemma_flat_rim(tgt: Seq<Single>, r: int, c: int, k: int, v: int)
    requires
        0 <= k <= 0x1_0000,
        0 <= v <= 255,
        forall|i: int| 0 <= i < k && #[trigger] on_rim(i, r) ==> tgt[i * 3 + c] == Single::spec_from_int(v),
    ensures
        0 <= rim_count(r, k) <= k,
        rim_sum(tgt, r, c, k) == Single::spec_from_int(v * rim_count(r, k)),
    decreases k,
{
    if k > 0 {
        lemma_flat_rim(tgt, r, c, k - 1, v);
        let n = rim_count(r, k - 1);
        let t = v * n;
        assert(0 <= t <= 255 * 0x1_0000 && v * (n + 1) == t + v) by (nonlinear_arith)
            requires
                0 <= v <= 255,
                0 <= n <= 0x1_0000,
                t == v * n,
        ;
        if on_rim(k - 1, r) {
            assert(tgt[(k - 1) * 3 + c] == Single::spec_from_int(v));
            law_small_sums_are_exact(t, v);
        }
    } else {
        assert(v * 0 == 0);
        lemma_no_integer();
    }
}

/// A disk whose rim has one value is levelled to that value.
pub proof fn law_flat_rim_levels_the_disk(tgt: Seq<Single>, r: int, k: int, v: int)
    requires
        0 <= r <= 127,
        0 <= k < tgt.len(),
        0 <= v <= 255,
        near(k / 3, r),
        rim_count(r, (2 * r + 1) * (2 * r + 1)) > 0,
        forall|i: int|
            0 <= i < (2 * r + 1) * (2 * r + 1) && #[trigger] on_rim(i, r) ==> tgt[i * 3 + k % 3] == Single::spec_from_int(v),
    ensures
        levelled(tgt, r)[k] == Single::spec_from_int(v),
{
    reveal(levelled);
    let n = (2 * r + 1) * (2 * r + 1);
    assert(0 <= n <= 0x1_0000) by (nonlinear_arith)
        requires
            0 <= r <= 127,
            n == (2 * r + 1) * (2 * r + 1),
    ;
    lemma_flat_rim(tgt, r, k % 3, n, v);
    let c = rim_count(r, n);
    lemma_exact_share(v, c);
}

/// A whole number times another, over that other.
pub proof fn lemma_exact_share(v: int, c: int)
    requires
        0 <= v <= 255,
        0 < c <= 0x1_0000,
    ensures
        Single::spec_from_int(v * c).over(Single::spec_from_int(c)) == Single::spec_from_int(v),
{
    reveal(Single::spec_over);
    reveal(Single::spec_from_int);
    assert(0 <= v * c <= 255 * 0x1_0000) by (nonlinear_arith)
        requires
            0 <= v <= 255,
            0 < c <= 0x1_0000,
    ;
    law_small_integers_are_exact(v);
    law_small_integers_are_exact(c);
    law_small_integers_are_exact(v * c);
    let p = pow2(149) as int;
    lemma_pow2_pos(149);
    let (x, y, z) = (Single::spec_from_int(v), Single::spec_from_int(c), Single::spec_from_int(v * c));
    let (a, b, d) = (ulps(x.magnitude() as int) as int, ulps(y.magnitude() as int) as int, ulps(z.magnitude() as int) as int);
    assert(a == v * p && b == c * p && d == v * c * p);
    assert(d * p == a * b && b > 0) by (nonlinear_arith)
        requires
            a == v * p,
            b == c * p,
            d == v * c * p,
            p > 0,
            c > 0,
    ;
    lemma_zero_magnitude(y.magnitude() as int);
    lemma_exact_ratio(x.magnitude() as int, b);
    lemma_round_ratio(d * p, b, x.magnitude() as int);
}

/// The values of all known pixels lie from `a` to `b`.
pub open spec fn known_lie(c: Canvas, a: int, b: int) -> bool {
    forall|i: int, k: int|
        #![trigger c.cur[i * 3 + k]]
        0 <= i < c.w * c.h && 0 <= k < 3 && c.known[i] ==> lies_between(c.cur[i * 3 + k], a, b)
}

/// Sums and counts of a canvas: each sum lies as far as that many values from `a` to `b` reach.
pub open spec fn sums_lie(c: Canvas, acc: (Seq<Single>, Seq<u64>), a: int, b: int) -> bool {
    &&& acc.0.len() == c.w * c.h * 3
    &&& acc.1.len() == c.w * c.h
    &&& forall|i: int, k: int|
        #![trigger acc.0[i * 3 + k]]
        0 <= i < c.w * c.h && 0 <= k < 3 ==> lies_between(acc.0[i * 3 + k], a * acc.1[i], b * acc.1[i])
}

/// One more value in a sum.
proof fn lemma_one_more(s: Single, v: Single, n: int, a: int, b: int)
    requires
        0 <= n < 0x7fff,
        0 <= a <= b <= 255,
        lies_between(s, a * n, b * n),
        lies_between(v, a, b),
    ensures
        lies_between(s.plus(v), a * (n + 1), b * (n + 1)),
{
    assert(0 <= a * n <= b * n <= 0x80_0000 && a * (n + 1) == a * n + a && b * (n + 1) == b * n + b) by (nonlinear_arith)
        requires
            0 <= a <= b <= 255,
            0 <= n <= 0x7fff,
    ;
    law_sum_lies_between(s, v, a * n, b * n, a, b);
}

/// A patch adds at most one value to each pixel.
proof fn lemma_patch_spreads(c: Canvas, x: int, y: int, acc: (Seq<Single>, Seq<u64>), k: int, n: int, a: int, b: int)
    requires
        0 < c.w && 0 < c.h && 0 <= c.p,
        0 <= a <= b <= 255,
        0 <= n < 0x7fff,
        0 <= k <= c.cells(),
        c.known.len() == c.w * c.h,
        c.cur.len() == c.w * c.h * 3,
        known_lie(c, a, b),
        sums_lie(c, acc, a, b),
        forall|i: int| 0 <= i < c.w * c.h ==> #[trigger] acc.1[i] <= n,
    ensures
        sums_lie(c, c.spread_patch(x, y, acc, k), a, b),
        forall|i: int|
            0 <= i < c.w * c.h ==> #[trigger] c.spread_patch(x, y, acc, k).1[i] <= if c.cell_over(x, y, i) < k {
                n + 1
            } else {
                n
            },
    decreases k,
{
    if k > 0 {
        lemma_patch_spreads(c, x, y, acc, k - 1, n, a, b);
        let (sum, cnt) = c.spread_patch(x, y, acc, k - 1);
        let (dx, dy) = c.cell(k - 1);
        let o = c.off[y * c.w + x];
        let (tx, ty) = (x + dx, y + dy);
        let (vx, vy) = (x + o.0 + dx, y + o.1 + dy);
        let after = c.spread_patch(x, y, acc, k);
        if c.inside(tx, ty) && !c.known[ty * c.w + tx] && c.known_at(vx, vy) {
            let t = ty * c.w + tx;
            let v = vy * c.w + vx;
            lemma_cell_over(c, x, y, k - 1);
            lemma_inside_counts(c, tx, ty);
            lemma_inside_counts(c, vx, vy);
            assert(cnt[t] <= n);
            assert(v * 3 == (vy * c.w + vx) * 3);
            assert(lies_between(c.cur[v * 3 + 0], a, b) && lies_between(c.cur[v * 3 + 1], a, b) && lies_between(c.cur[v * 3 + 2], a, b));
            lemma_one_more(sum[t * 3 + 0], c.cur[v * 3 + 0], cnt[t] as int, a, b);
            lemma_one_more(sum[t * 3 + 1], c.cur[v * 3 + 1], cnt[t] as int, a, b);
            lemma_one_more(sum[t * 3 + 2], c.cur[v * 3 + 2], cnt[t] as int, a, b);
            assert forall|i: int, m: int|
                #![trigger after.0[i * 3 + m]]
                0 <= i < c.w * c.h && 0 <= m < 3 implies lies_between(after.0[i * 3 + m], a * after.1[i], b * after.1[i]) by {
                if i != t {
                    assert(after.0[i * 3 + m] == sum[i * 3 + m]);
                    assert(after.1[i] == cnt[i]);
                }
            }
            assert(sums_lie(c, after, a, b));
        }
        assert forall|i: int| 0 <= i < c.w * c.h implies #[trigger] after.1[i] <= if c.cell_over(x, y, i) < k {
            n + 1
        } else {
            n
        } by {
            assert(cnt[i] <= if c.cell_over(x, y, i) < k - 1 {
                n + 1
            } else {
                n
            });
        }
    }
}

/// The number of a pixel inside is below their count.
proof fn lemma_inside_counts(c: Canvas, x: int, y: int)
    requires
        c.inside(x, y),
    ensures
        0 <= y * c.w + x < c.w * c.h,
{
    assert(0 <= y * c.w + x < c.w * c.h) by (nonlinear_arith)
        requires
            0 <= x < c.w,
            0 <= y < c.h,
    ;
}

/// The first `k` pixels add at most `k` values to each pixel.
proof fn lemma_spreads(c: Canvas, k: int, a: int, b: int)
    requires
        0 < c.w && 0 < c.h && 0 <= c.p,
        0 <= a <= b <= 255,
        0 <= k <= 0x7fff,
        c.known.len() == c.w * c.h,
        c.cur.len() == c.w * c.h * 3,
        known_lie(c, a, b),
    ensures
        sums_lie(c, c.spread(k), a, b),
        forall|i: int| 0 <= i < c.w * c.h ==> #[trigger] c.spread(k).1[i] <= k,
    decreases k,
{
    if k <= 0 {
        let (sum, cnt) = c.spread(0);
        lemma_ulps_form(0, 0);
        assert(0 <= c.w * c.h) by (nonlinear_arith)
            requires
                0 < c.w,
                0 < c.h,
        ;
        assert forall|i: int, m: int|
            #![trigger sum[i * 3 + m]]
            0 <= i < c.w * c.h && 0 <= m < 3 implies lies_between(sum[i * 3 + m], a * cnt[i], b * cnt[i]) by {
            assert(sum[i * 3 + m] == num(0));
            assert(a * 0 == 0 && b * 0 == 0 && 0 * pow2(149) == 0);
        }
    } else {
        lemma_spreads(c, k - 1, a, b);
        let acc = c.spread(k - 1);
        let i = k - 1;
        let (x, y) = (i % c.w, i / c.w);
        if !c.known[i] && c.touches_upto(x, y, c.cells()) {
            assert(0 <= c.cells()) by (nonlinear_arith)
                requires
                    0 <= c.p,
                    c.cells() == (2 * c.p + 1) * (2 * c.p + 1),
            ;
            lemma_patch_spreads(c, x, y, acc, c.cells(), k - 1, a, b);
        }
    }
}

/// A pixel that is filled lies among the known ones: where all of those lie from `a` to `b`, so
/// does it.
pub proof fn law_filled_pixels_lie_among_known_ones(c: Canvas, i: int, m: int, a: int, b: int)
    requires
        0 < c.w && 0 < c.h && 0 <= c.p,
        c.w * c.h <= 0x7fff,
        0 <= a <= b <= 255,
        c.known.len() == c.w * c.h,
        c.cur.len() == c.w * c.h * 3,
        known_lie(c, a, b),
        0 <= i < c.w * c.h,
        0 <= m < 3,
        c.gains(i),
    ensures
        Single::spec_from_int(a).le(c.filled().cur[i * 3 + m]),
        c.filled().cur[i * 3 + m].le(Single::spec_from_int(b)),
        c.filled().known[i],
{
    lemma_spreads(c, c.w * c.h, a, b);
    let (sum, cnt) = c.spread(c.w * c.h);
    let n = cnt[i] as int;
    let s = sum[i * 3 + m];
    assert((i * 3 + m) / 3 == i);
    assert(lies_between(s, a * n, b * n));
    assert(0 <= a * n <= b * n <= 255 * 0x1_0000) by (nonlinear_arith)
        requires
            0 <= a <= b <= 255,
            0 <= n <= 0x7fff,
    ;
    let p = pow2(149) as int;
    lemma_pow2_pos(149);
    law_whole_numbers_are_exact(a * n);
    law_whole_numbers_are_exact(b * n);
    law_whole_numbers_are_exact(n);
    let (x, y, d) = (Single::spec_from_int(a * n), Single::spec_from_int(b * n), Single::spec_from_int(n));
    law_order_is_numeric(x, s);
    law_order_is_numeric(s, y);
    lemma_ulps_form(0, 0);
    assert(0 < n * p) by (nonlinear_arith)
        requires
            n > 0,
            p > 0,
    ;
    law_order_is_numeric(num(0), d);
    law_dividing_keeps_order(x, s, d);
    law_dividing_keeps_order(s, y, d);
    lemma_exact_share(a, n);
    lemma_exact_share(b, n);
}

} // verus!
