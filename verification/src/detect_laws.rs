//! What the search for spots measures: the order of its lists, the box and the mean of a region,
//! and the blocks of a reduced picture.

use crate::detect_spots::{
    block_mean, block_sum, candidate_of, falling, greatest_column, greatest_row, least_column,
    least_row, place_for, rank_of, row_sum, smaller, sum_of_residuals,
};
use crate::healing_laws::lemma_exact_share;
use crate::order::{
    law_dividing_keeps_order, law_sum_lies_between, law_whole_numbers_are_exact, lies_between,
};
use crate::raster::RgbImage;
use crate::single::{law_order_is_numeric, lemma_ulps_form, num, Single};
use crate::spot::SpotStroke;
use vstd::arithmetic::power2::{lemma_pow2_pos, pow2};
use vstd::prelude::*;

verus! {

/// No entry ranks higher than one before it.
pub open spec fn never_rises(s: Seq<(Single, SpotStroke)>, by_radius: bool) -> bool {
    forall|i: int, j: int| 0 <= i < j < s.len() ==> !rank_of(#[trigger] s[i], by_radius).lt(rank_of(#[trigger] s[j], by_radius))
}

/// Every entry has a rank.
pub open spec fn all_ranked(s: Seq<(Single, SpotStroke)>, by_radius: bool) -> bool {
    forall|i: int| 0 <= i < s.len() ==> !rank_of(#[trigger] s[i], by_radius).is_nan()
}

/// The place for an entry is behind all that do not rank lower.
proof fn lemma_place(s: Seq<(Single, SpotStroke)>, e: (Single, SpotStroke), by_radius: bool)
    ensures
        0 <= place_for(s, e, by_radius) <= s.len(),
        forall|i: int| 0 <= i < place_for(s, e, by_radius) ==> !rank_of(#[trigger] s[i], by_radius).lt(rank_of(e, by_radius)),
        place_for(s, e, by_radius) < s.len() ==> rank_of(s[place_for(s, e, by_radius)], by_radius).lt(rank_of(e, by_radius)),
    decreases s.len(),
{
    if s.len() > 0 && !rank_of(s[0], by_radius).lt(rank_of(e, by_radius)) {
        let rest = s.subrange(1, s.len() as int);
        lemma_place(rest, e, by_radius);
        let k = place_for(rest, e, by_radius);
        assert forall|i: int| 0 <= i < k + 1 implies !rank_of(#[trigger] s[i], by_radius).lt(rank_of(e, by_radius)) by {
            if i > 0 {
                assert(rest[i - 1] == s[i]);
            }
        }
        if k + 1 < s.len() {
            assert(rest[k] == s[k + 1]);
        }
    }
}

/// A list in falling order never rises, and holds the entries of the list that it was made of.
pub proof fn law_list_falls(s: Seq<(Single, SpotStroke)>, by_radius: bool)
    requires
        all_ranked(s, by_radius),
    ensures
        never_rises(falling(s, by_radius), by_radius),
        all_ranked(falling(s, by_radius), by_radius),
        falling(s, by_radius).len() == s.len(),
        forall|e: (Single, SpotStroke)| #[trigger] falling(s, by_radius).contains(e) <==> s.contains(e),
    decreases s.len(),
{
    if s.len() > 0 {
        let init = s.drop_last();
        assert forall|i: int| 0 <= i < init.len() implies !rank_of(#[trigger] init[i], by_radius).is_nan() by {
            assert(init[i] == s[i]);
        }
        law_list_falls(init, by_radius);
        let before = falling(init, by_radius);
        let e = s.last();
        assert(e == s[s.len() - 1]);
        let k = place_for(before, e, by_radius);
        lemma_place(before, e, by_radius);
        let t = before.insert(k, e);
        assert(t == falling(s, by_radius));
        assert forall|i: int, j: int| 0 <= i < j < t.len() implies !rank_of(#[trigger] t[i], by_radius).lt(rank_of(#[trigger] t[j], by_radius)) by {
            let a = if i < k {
                before[i]
            } else if i == k {
                e
            } else {
                before[i - 1]
            };
            let b = if j < k {
                before[j]
            } else if j == k {
                e
            } else {
                before[j - 1]
            };
            assert(t[i] == a && t[j] == b);
            if i == k {
                if k < j - 1 {
                    assert(!rank_of(before[k], by_radius).lt(rank_of(before[j - 1], by_radius)));
                }
                assert(!rank_of(before[j - 1], by_radius).is_nan());
                assert(!rank_of(before[k], by_radius).is_nan());
            }
        }
        assert forall|i: int| 0 <= i < t.len() implies !rank_of(#[trigger] t[i], by_radius).is_nan() by {
            if i < k {
                assert(t[i] == before[i]);
            } else if i > k {
                assert(t[i] == before[i - 1]);
            }
        }
        assert forall|x: (Single, SpotStroke)| #[trigger] t.contains(x) implies s.contains(x) by {
            let i = choose|i: int| 0 <= i < t.len() && t[i] == x;
            if i != k {
                let m = if i < k {
                    i
                } else {
                    i - 1
                };
                assert(before[m] == x);
                assert(before.contains(x));
                let n = choose|n: int| 0 <= n < init.len() && init[n] == x;
                assert(s[n] == x);
            }
        }
        assert forall|x: (Single, SpotStroke)| s.contains(x) implies #[trigger] t.contains(x) by {
            let n = choose|n: int| 0 <= n < s.len() && s[n] == x;
            if n < init.len() {
                assert(init[n] == x);
                assert(init.contains(x));
                assert(before.contains(x));
                let m = choose|m: int| 0 <= m < before.len() && before[m] == x;
                if m < k {
                    assert(t[m] == x);
                } else {
                    assert(t[m + 1] == x);
                }
            } else {
                assert(t[k] == x);
            }
        }
    }
}

/// The box of a region holds each of its pixels.
pub proof fn law_box_holds_the_region(order: Seq<usize>, w: int, h: int, i: int)
    requires
        0 <= i < order.len(),
    ensures
        least_column(order, w) <= order[i] as int % w <= greatest_column(order, w),
        least_row(order, w, h) <= order[i] as int / w <= greatest_row(order, w),
    decreases order.len(),
{
    if i < order.len() - 1 {
        assert(order.drop_last()[i] == order[i]);
        law_box_holds_the_region(order.drop_last(), w, h, i);
    }
}

/// The sum of the differences of a region whose pixels all differ by `a` to `b`.
proof fn lemma_residuals_lie(order: Seq<usize>, res: Seq<u8>, a: int, b: int)
    requires
        order.len() <= 0x7fff,
        0 <= a <= b <= 255,
        forall|i: int| 0 <= i < order.len() ==> a <= res[#[trigger] order[i] as int] <= b,
    ensures
        lies_between(sum_of_residuals(order, res), a * order.len(), b * order.len()),
    decreases order.len(),
{
    let p = pow2(149) as int;
    lemma_pow2_pos(149);
    if order.len() == 0 {
        lemma_ulps_form(0, 0);
        assert(a * 0 == 0 && b * 0 == 0 && 0 * p == 0);
    } else {
        let rest = order.drop_last();
        assert forall|i: int| 0 <= i < rest.len() implies a <= res[#[trigger] rest[i] as int] <= b by {
            assert(rest[i] == order[i]);
        }
        lemma_residuals_lie(rest, res, a, b);
        assert(order.last() == order[order.len() - 1]);
        let r = res[order.last() as int] as int;
        law_whole_numbers_are_exact(r);
        assert(a * p <= r * p && r * p <= b * p) by (nonlinear_arith)
            requires
                a <= r <= b,
                p > 0,
        ;
        let n = rest.len() as int;
        assert(0 <= a * n <= b * n <= 0x80_0000 && a * (n + 1) == a * n + a && b * (n + 1) == b * n + b) by (nonlinear_arith)
            requires
                0 <= a <= b <= 255,
                0 <= n <= 0x7fff,
        ;
        law_sum_lies_between(sum_of_residuals(rest, res), Single::spec_from_int(r), a * n, b * n, a, b);
    }
}

/// The contrast of a region lies among the differences of its pixels.
pub proof fn law_contrast_lies_among_the_differences(order: Seq<usize>, res: Seq<u8>, w: int, h: int, a: int, b: int)
    requires
        0 < order.len() <= 0x7fff,
        0 <= a <= b <= 255,
        forall|i: int| 0 <= i < order.len() ==> a <= res[#[trigger] order[i] as int] <= b,
    ensures
        Single::spec_from_int(a).le(candidate_of(order, res, w, h).mean_res),
        candidate_of(order, res, w, h).mean_res.le(Single::spec_from_int(b)),
{
    let n = order.len() as int;
    lemma_residuals_lie(order, res, a, b);
    let s = sum_of_residuals(order, res);
    let p = pow2(149) as int;
    lemma_pow2_pos(149);
    assert(0 <= a * n <= b * n <= 255 * 0x1_0000) by (nonlinear_arith)
        requires
            0 <= a <= b <= 255,
            0 < n <= 0x7fff,
    ;
    law_whole_numbers_are_exact(a * n);
    law_whole_numbers_are_exact(b * n);
    law_whole_numbers_are_exact(n);
    let (x, y) = (Single::spec_from_int(a * n), Single::spec_from_int(b * n));
    law_order_is_numeric(x, s);
    law_order_is_numeric(s, y);
    lemma_ulps_form(0, 0);
    assert(0 < n * p) by (nonlinear_arith)
        requires
            n > 0,
            p > 0,
    ;
    law_order_is_numeric(num(0), Single::spec_from_int(n));
    law_dividing_keeps_order(x, s, Single::spec_from_int(n));
    law_dividing_keeps_order(s, y, Single::spec_from_int(n));
    lemma_exact_share(a, n);
    lemma_exact_share(b, n);
}

/// The sum of a row of pixels that lie from `a` to `b`.
proof fn lemma_row_lies(img: RgbImage, c: int, x: int, y: int, k: int, a: int, b: int)
    requires
        0 <= k,
        forall|i: int| x <= i < x + k ==> a <= #[trigger] img.at(i, y, c) <= b,
    ensures
        a * k <= row_sum(img, c, x, y, k) <= b * k,
    decreases k,
{
    if k > 0 {
        lemma_row_lies(img, c, x, y, k - 1, a, b);
        assert(a <= img.at(x + k - 1, y, c) <= b);
        assert(a * k == a * (k - 1) + a && b * k == b * (k - 1) + b) by (nonlinear_arith);
    } else {
        assert(a * 0 == 0 && b * 0 == 0);
    }
}

proof fn lemma_block_lies(img: RgbImage, c: int, x: int, y: int, bw: int, l: int, a: int, b: int)
    requires
        0 <= bw,
        0 <= l,
        forall|i: int, j: int| x <= i < x + bw && y <= j < y + l ==> a <= #[trigger] img.at(i, j, c) <= b,
    ensures
        a * (bw * l) <= block_sum(img, c, x, y, bw, l) <= b * (bw * l),
    decreases l,
{
    if l > 0 {
        lemma_block_lies(img, c, x, y, bw, l - 1, a, b);
        lemma_row_lies(img, c, x, y + l - 1, bw, a, b);
        assert(a * (bw * l) == a * (bw * (l - 1)) + a * bw && b * (bw * l) == b * (bw * (l - 1)) + b * bw) by (nonlinear_arith);
    } else {
        assert(a * (bw * 0) == 0 && b * (bw * 0) == 0) by (nonlinear_arith);
    }
}

/// A pixel of a reduced picture lies among the pixels of its block.
pub proof fn law_block_mean_lies_among_its_pixels(img: RgbImage, c: int, x: int, y: int, f: int, a: int, b: int)
    requires
        0 < f,
        0 < img.width && 0 < img.height,
        forall|i: int, j: int|
            x * f <= i < x * f + f && i < x * f + img.width && y * f <= j < y * f + f && j < y * f + img.height ==> a <= #[trigger] img.at(i, j, c) <= b,
    ensures
        a <= block_mean(img, c, x, y, f) <= b,
{
    let bw = smaller(f, img.width as int);
    let bh = smaller(f, img.height as int);
    lemma_block_lies(img, c, x * f, y * f, bw, bh, a, b);
    let s = block_sum(img, c, x * f, y * f, bw, bh);
    let n = bw * bh;
    assert(n > 0) by (nonlinear_arith)
        requires
            n == bw * bh,
            bw > 0,
            bh > 0,
    ;
    assert(a <= s / n <= b) by (nonlinear_arith)
        requires
            n > 0,
            a * n <= s <= b * n,
    ;
}

} // verus!
