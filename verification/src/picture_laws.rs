//! Sampling, sizes, borders and soft strokes: what lies between what, and what grows with what.

use crate::develop_laws::{is_share, lemma_two_halves};
use crate::export::{border_width, scaled_side, sharpening, spec_in_rounded_rect, spec_shorter};
use crate::geometry::{
    between, crop_span, extent, pixel_after, pixel_before, rotated_across, rotated_down, sampled,
    source_point, way_between,
};
use crate::heal::heal_pixels;
use crate::healing_laws::lemma_exact_share;
use crate::inpaint_fill::{cover, coverage, mixed_byte, soft_span, soft_stroke};
use crate::lch::of_byte;
use crate::order::{
    is_finite, law_adding_lowers, law_adding_raises, law_difference_lies_between,
    law_difference_shows_order, law_differences_keep_order, law_dividing_by_more,
    law_dividing_keeps_order, law_limits_keep_order, law_negation_passes_through,
    law_product_is_finite, law_product_sign, law_rounding_keeps_order, law_scaling_keeps_order,
    law_shares_shrink, law_sum_lies_between, law_totals_keep_order, law_whole_numbers_are_exact,
    lemma_sum_is_a_number, lies_between,
};
use crate::raster::Picture;
use crate::single::{
    is_small, law_every_ratio_rounds, law_one_is_neutral, law_order_is_numeric,
    law_product_commutes, law_self_quotient_is_one, law_small_integers_are_exact,
    law_small_integers_are_whole, law_sum_commutes, law_sums_keep_order, law_whole_parts_keep_order,
    law_zero_is_neutral, lemma_any_zero_times_is_zero, lemma_exact_ratio, lemma_one,
    lemma_round_ratio, lemma_ulps_form, lemma_units, num, ulps, Single,
};
use crate::spot::{stroke_pixels, under_stroke, SpotStroke};
use crate::tone_laws::{lemma_bytes_in_order, lemma_whole_byte};
use vstd::arithmetic::power2::{lemma2_to64, lemma_pow2_adds, lemma_pow2_pos, pow2};
use vstd::prelude::*;

verus! {

/// A byte between two others lies between them: at the first with nothing of the way, at the
/// second with all of it.
pub proof fn law_byte_between_lies_between(a: u8, b: u8, t: Single)
    requires
        is_share(t),
    ensures
        a <= b ==> a <= between(a, b, t) <= b,
        b <= a ==> b <= between(a, b, t) <= a,
        t.same(num(0)) ==> between(a, b, t) == a,
        t == num(0x3f80_0000) ==> between(a, b, t) == b,  // 1
{
    let (x, y) = (of_byte(a), of_byte(b));
    lemma_bytes_in_order(a, a);
    lemma_bytes_in_order(b, b);
    if a <= b {
        lemma_bytes_in_order(a, b);
    } else {
        lemma_bytes_in_order(b, a);
    }
    law_whole_numbers_are_exact(a as int);
    law_whole_numbers_are_exact(b as int);
    law_difference_shows_order(x, y);
    let d = y.minus(x);
    law_difference_lies_between(y, x, b as int, b as int, a as int, a as int);
    law_shares_shrink(d, t);
    let m = d.times(t);
    let v = x.plus(m);
    let w = x.plus(d);
    law_sum_lies_between(x, d, a as int, a as int, b - a, b - a);
    law_order_is_numeric(w, y);
    lemma_whole_byte(x, a);
    lemma_whole_byte(y, b);
    if num(0).le(d) {
        law_sums_keep_order(m, d, x);
        law_adding_raises(x, m);
    } else {
        law_sums_keep_order(d, m, x);
        law_adding_lowers(x, m);
    }
    if a <= b {
        law_rounding_keeps_order(x, v);
        law_rounding_keeps_order(v, y);
        law_whole_parts_keep_order(x.round(), v.round(), 0, 255);
        law_whole_parts_keep_order(v.round(), y.round(), 0, 255);
    }
    if b <= a {
        law_rounding_keeps_order(v, x);
        law_rounding_keeps_order(y, v);
        law_whole_parts_keep_order(v.round(), x.round(), 0, 255);
        law_whole_parts_keep_order(y.round(), v.round(), 0, 255);
    }
    if t.same(num(0)) {
        law_product_commutes(d, t);
        lemma_any_zero_times_is_zero(t, d);
        law_zero_is_neutral(x, m);
        lemma_whole_byte(v, a);
    }
    if t == num(0x3f80_0000) {
        law_one_is_neutral(d);
        lemma_whole_byte(v, b);
    }
}

/// A picture between its pixels lies among the four around the point.
pub proof fn law_sample_lies_among_four(p: Picture, x: Single, y: Single, c: int, lo: u8, hi: u8)
    requires
        0 < p.width && 0 < p.height,
        is_share(way_between(x, p.width)),
        is_share(way_between(y, p.height)),
        ({
            let x0 = pixel_before(x, p.width);
            let x1 = pixel_after(x, p.width);
            let y0 = pixel_before(y, p.height);
            let y1 = pixel_after(y, p.height);
            &&& lo <= p.at(x0, y0, c) <= hi
            &&& lo <= p.at(x1, y0, c) <= hi
            &&& lo <= p.at(x0, y1, c) <= hi
            &&& lo <= p.at(x1, y1, c) <= hi
        }),
    ensures
        lo <= sampled(p, x, y, c) <= hi,
        way_between(x, p.width).same(num(0)) && way_between(y, p.height).same(num(0)) ==> sampled(p, x, y, c) == p.at(
            pixel_before(x, p.width),
            pixel_before(y, p.height),
            c,
        ),
{
    let x0 = pixel_before(x, p.width);
    let x1 = pixel_after(x, p.width);
    let y0 = pixel_before(y, p.height);
    let y1 = pixel_after(y, p.height);
    let (t, u) = (way_between(x, p.width), way_between(y, p.height));
    law_byte_between_lies_between(p.at(x0, y0, c), p.at(x1, y0, c), t);
    law_byte_between_lies_between(p.at(x0, y1, c), p.at(x1, y1, c), t);
    law_byte_between_lies_between(between(p.at(x0, y0, c), p.at(x1, y0, c), t), between(p.at(x0, y1, c), p.at(x1, y1, c), t), u);
}

/// The extent of four numbers is no less than the distance of any two of them.
pub proof fn law_extent_spans_its_numbers(a: Single, b: Single, c: Single, d: Single)
    requires
        is_small(a) && is_small(b) && is_small(c) && is_small(d),
    ensures
        a.minus(b).le(extent(a, b, c, d)),
        b.minus(a).le(extent(a, b, c, d)),
        c.minus(d).le(extent(a, b, c, d)),
        d.minus(a).le(extent(a, b, c, d)),
        num(0).le(extent(a, b, c, d)),
{
    let least = num(0x7f7f_ffff).min(a).min(b).min(c).min(d);
    let most = num(0xff7f_ffff).max(a).max(b).max(c).max(d);
    assert(least.le(a) && least.le(b) && least.le(c) && least.le(d));
    assert(a.le(most) && b.le(most) && c.le(most) && d.le(most));
    law_differences_keep_order(a, most, least);
    law_differences_keep_order(b, most, least);
    law_differences_keep_order(c, most, least);
    law_differences_keep_order(d, most, least);
    law_differences_keep_order(least, b, a);
    law_differences_keep_order(least, a, b);
    law_differences_keep_order(least, d, c);
    law_differences_keep_order(least, a, d);
    law_difference_shows_order(least, most);
}

/// A crop that begins further on never begins sooner, and a longer one never ends sooner.
pub proof fn law_crops_move_with_their_shares(at: Single, further: Single, size: Single, longer: Single, n: int)
    requires
        is_small(at) && is_small(further) && is_small(size) && is_small(longer),
        at.le(further),
        size.le(longer),
        0 <= n <= 0x1_0000,
    ensures
        crop_span(at, size, n).0 <= crop_span(further, size, n).0,
        crop_span(at, size, n).1 <= crop_span(at, longer, n).1,
{
    let one = num(0x3f80_0000);
    let side = Single::spec_from_int(n);
    lemma_side(n);
    law_sums_keep_order(size, longer, at);
    lemma_span_end(at, further, side);
    lemma_span_end(at.plus(size), at.plus(longer), side);
}

/// A side of a picture is a number that is not negative.
proof fn lemma_side(n: int)
    requires
        0 <= n <= 0x100_0000,
    ensures
        num(0).le(Single::spec_from_int(n)) && is_finite(Single::spec_from_int(n)),
        0 < n ==> num(0).lt(Single::spec_from_int(n)),
{
    law_whole_numbers_are_exact(n);
    lemma_pow2_pos(149);
    lemma_ulps_form(0, 0);
    let p = pow2(149) as int;
    assert(0 <= n * p && (0 < n ==> 0 < n * p)) by (nonlinear_arith)
        requires
            0 <= n,
            p > 0,
    ;
    law_order_is_numeric(num(0), Single::spec_from_int(n));
}

proof fn lemma_span_end(a: Single, b: Single, side: Single)
    requires
        a.le(b),
        num(0).le(side) && is_finite(side),
    ensures
        a.clamp(num(0), num(0x3f80_0000)).times(side).truncated(0, u32::MAX as int) <= b.clamp(num(0), num(0x3f80_0000)).times(side).truncated(
            0,
            u32::MAX as int,
        ),
{
    let one = num(0x3f80_0000);
    law_limits_keep_order(a, b, num(0), one);
    law_limits_keep_order(b, b, num(0), one);
    let (x, y) = (a.clamp(num(0), one), b.clamp(num(0), one));
    law_scaling_keeps_order(x, y, side);
    law_shares_shrink(side, x);
    law_shares_shrink(side, y);
    law_whole_parts_keep_order(x.times(side), y.times(side), 0, u32::MAX as int);
}

/// A picture that is brought down to a larger limit gets no smaller, a longer side stays the
/// longer one, and no side vanishes.
pub proof fn law_downscaling_keeps_order(side: u32, other: u32, limit: u32, higher: u32, long: u32)
    requires
        side <= other,
        limit <= higher,
        0 < long,
        other <= 0x1_0000 && higher <= 0x1_0000 && long <= 0x1_0000,
    ensures
        1 <= scaled_side(side, limit, long),
        scaled_side(side, limit, long) <= scaled_side(other, limit, long),
        scaled_side(side, limit, long) <= scaled_side(side, higher, long),
{
    let d = Single::spec_from_int(long as int);
    lemma_side(long as int);
    lemma_sides_in_order(limit as int, higher as int);
    lemma_sides_in_order(side as int, other as int);
    let (l, m) = (Single::spec_from_int(limit as int), Single::spec_from_int(higher as int));
    law_dividing_keeps_order(l, m, d);
    lemma_ratio_is_finite(limit as int, long as int);
    lemma_ratio_is_finite(higher as int, long as int);
    let (s, t) = (l.over(d), m.over(d));
    let (x, y) = (Single::spec_from_int(side as int), Single::spec_from_int(other as int));
    law_scaling_keeps_order(x, y, s);
    law_scaling_keeps_order(s, t, x);
    lemma_side_product(side as int, s);
    lemma_side_product(other as int, s);
    lemma_side_product(side as int, t);
    lemma_rounded_side(x.times(s), y.times(s));
    lemma_rounded_side(x.times(s), x.times(t));
}

/// Sides are in the order of their numbers.
proof fn lemma_sides_in_order(a: int, b: int)
    requires
        0 <= a <= b <= 0x100_0000,
    ensures
        Single::spec_from_int(a).le(Single::spec_from_int(b)),
        num(0).le(Single::spec_from_int(a)),
        is_finite(Single::spec_from_int(a)) && is_finite(Single::spec_from_int(b)),
{
    lemma_side(a);
    law_whole_numbers_are_exact(a);
    law_whole_numbers_are_exact(b);
    lemma_pow2_pos(149);
    let p = pow2(149) as int;
    assert(a * p <= b * p) by (nonlinear_arith)
        requires
            a <= b,
            p > 0,
    ;
    law_order_is_numeric(Single::spec_from_int(a), Single::spec_from_int(b));
}

/// A ratio of sides is moderate.
proof fn lemma_ratio_is_finite(a: int, b: int)
    requires
        0 <= a <= 0x1_0000,
        0 < b <= 0x1_0000,
    ensures
        lies_between(Single::spec_from_int(a).over(Single::spec_from_int(b)), 0, 0x1_0000),
        num(0).le(Single::spec_from_int(a).over(Single::spec_from_int(b))),
{
    let (x, y) = (Single::spec_from_int(a), Single::spec_from_int(b));
    let one = num(0x3f80_0000);
    lemma_side(a);
    lemma_side(b);
    lemma_one();
    lemma_sides_in_order(1, b);
    law_dividing_by_more(x, one, y);
    lemma_over_one(a);
    law_whole_numbers_are_exact(a);
    lemma_sides_in_order(a, 0x1_0000);
    law_whole_numbers_are_exact(0x1_0000);
    lemma_ulps_form(0, 0);
    lemma_pow2_pos(149);
    let q = x.over(y);
    assert(0 * pow2(149) == 0);
    law_order_is_numeric(num(0), q);
    law_order_is_numeric(q, Single::spec_from_int(0x1_0000));
}

proof fn lemma_over_one(a: int)
    requires
        0 <= a <= 0x1_0000,
    ensures
        Single::spec_from_int(a).over(num(0x3f80_0000)) == Single::spec_from_int(a),
{
    if a <= 255 {
        assert(a * 1 == a);
        lemma_one();
        lemma_exact_share(a, 1);
    } else {
        reveal(Single::spec_over);
        let x = Single::spec_from_int(a);
        lemma_side(a);
        lemma_units();
        lemma_pow2_pos(149);
        lemma_exact_ratio(x.magnitude() as int, pow2(149) as int);
        lemma_round_ratio(ulps(x.magnitude() as int) * pow2(149), pow2(149) as int, x.magnitude() as int);
    }
}

/// A side times a ratio is finite and not negative.
proof fn lemma_side_product(a: int, s: Single)
    requires
        0 <= a <= 0x1_0000,
        lies_between(s, 0, 0x1_0000),
        num(0).le(s),
    ensures
        is_finite(Single::spec_from_int(a).times(s)),
        num(0).le(Single::spec_from_int(a).times(s)),
{
    let x = Single::spec_from_int(a);
    lemma_side(a);
    law_whole_numbers_are_exact(a);
    lemma_pow2_pos(149);
    let p = pow2(149) as int;
    assert(-0x40_0000 * p <= a * p <= 0x40_0000 * p && -0x40_0000 * p <= 0 * p && 0x1_0000 * p <= 0x40_0000 * p) by (nonlinear_arith)
        requires
            0 <= a <= 0x1_0000,
            p > 0,
    ;
    law_product_is_finite(x, s);
    law_product_sign(x, s);
}

/// Rounded to a side of at least one pixel, a larger number gives no smaller one.
proof fn lemma_rounded_side(a: Single, b: Single)
    requires
        num(0).le(a) && a.le(b) && is_finite(b),
    ensures
        1 <= a.round().max(num(0x3f80_0000)).truncated(0, u32::MAX as int),
        a.round().max(num(0x3f80_0000)).truncated(0, u32::MAX as int) <= b.round().max(num(0x3f80_0000)).truncated(0, u32::MAX as int),
{
    let one = num(0x3f80_0000);
    law_rounding_keeps_order(a, b);
    let (x, y) = (a.round().max(one), b.round().max(one));
    lemma_one();
    law_small_integers_are_whole(1, 0, u32::MAX as int);
    law_whole_parts_keep_order(one, x, 0, u32::MAX as int);
    law_whole_parts_keep_order(x, y, 0, u32::MAX as int);
}

/// A picture is sharpened by the ratio that it was made smaller by: a share, and the larger the
/// less it was.
pub proof fn law_sharpening_follows_the_ratio(on: bool, before: u32, after: u32, larger: u32)
    requires
        after <= larger,
        before <= 0x1_0000,
        0 < after,
    ensures
        sharpening(on, before, after) matches Some(s) ==> num(0).le(s) && s.le(num(0x3f80_0000)) && (sharpening(on, before, larger) matches Some(t) ==> s.le(t)),
        after >= before ==> sharpening(on, before, after) is None,
{
    if after < before {
        let d = Single::spec_from_int(before as int);
        lemma_side(before as int);
        lemma_sides_in_order(after as int, before as int);
        lemma_side(after as int);
        law_dividing_keeps_order(Single::spec_from_int(after as int), d, d);
        law_self_quotient_is_one(d);
        if larger < before {
            lemma_sides_in_order(after as int, larger as int);
            lemma_side(larger as int);
            law_dividing_keeps_order(Single::spec_from_int(after as int), Single::spec_from_int(larger as int), d);
        }
    }
}

/// A wider border never comes of a smaller ratio, and every border has a pixel.
pub proof fn law_borders_grow_with_their_ratio(w: u32, h: u32, less: Single, more: Single)
    requires
        w <= 0x1_0000 && h <= 0x1_0000,
        num(0).le(less) && less.le(more),
        lies_between(less, 0, 0x1_0000) && lies_between(more, 0, 0x1_0000),
    ensures
        1 <= border_width(w, h, less),
        border_width(w, h, less) <= border_width(w, h, more),
{
    let n = spec_shorter(w, h) as int;
    let x = Single::spec_from_int(n);
    lemma_side(n);
    law_scaling_keeps_order(less, more, x);
    lemma_side_product(n, less);
    lemma_side_product(n, more);
    lemma_rounded_side(x.times(less), x.times(more));
}

/// The four corners are cut alike: each is the mirror of the one beside it and of the one below.
pub proof fn law_corners_are_mirrored(x: u32, y: u32, r: u32, w: u32, h: u32, top: bool, left: bool)
    requires
        x < w && y < h,
        r <= w && r <= h,
        w <= 0x1_0000 && h <= 0x1_0000,
    ensures
        spec_in_rounded_rect(x, y, r, w, h, true, top) == spec_in_rounded_rect((w - 1 - x) as u32, y, r, w, h, false, top),
        spec_in_rounded_rect(x, y, r, w, h, left, true) == spec_in_rounded_rect(x, (h - 1 - y) as u32, r, w, h, left, false),
{
    lemma_square_of_opposite(x - (r - 1));
    lemma_square_of_opposite(y - (r - 1));
    assert((w - 1 - x) - (w - r) == -(x - (r - 1)));
    assert((h - 1 - y) - (h - r) == -(y - (r - 1)));
}

/// A whole number and its opposite have one square.
proof fn lemma_square_of_opposite(d: int)
    requires
        -0x1_0000 <= d <= 0x1_0000,
    ensures
        Single::spec_from_int(d).times(Single::spec_from_int(d)) == Single::spec_from_int(-d).times(Single::spec_from_int(-d)),
{
    reveal(Single::spec_from_int);
    law_whole_numbers_are_exact(d);
    law_whole_numbers_are_exact(-d);
    let (x, y) = (Single::spec_from_int(d), Single::spec_from_int(-d));
    if d != 0 {
        let i = if d < 0 {
            -d
        } else {
            d
        };
        lemma_pow2_pos(149);
        assert(0 <= i * pow2(149)) by (nonlinear_arith)
            requires
                0 <= i,
                pow2(149) > 0,
        ;
        law_every_ratio_rounds(i * pow2(149), 1);
        assert(x == y.negated());
        law_negation_passes_through(y, y);
        law_negation_passes_through(y, x);
        assert(y.times(y).negated().negated() == y.times(y));
    }
}

/// A soft stroke covers all up to its inner radius, nothing from its outer one on, and between
/// them a share that falls with the fade.
pub proof fn law_soft_strokes_fade(inner: Single, outer: Single, dx: int, dy: int, less: Seq<Single>, more: Seq<Single>)
    requires
        num(0xbf80_0000).le(less[dx * dx + dy * dy]),  // -1
        less[dx * dx + dy * dy].le(more[dx * dx + dy * dy]),
        more[dx * dx + dy * dy].le(num(0x3f80_0000)),  // 1
    ensures
        cover(inner, outer, dx, dy, less).le(cover(inner, outer, dx, dy, more)),
        is_share(cover(inner, outer, dx, dy, less)),
{
    let half = num(0x3f00_0000);
    let one = num(0x3f80_0000);
    let (a, b) = (less[dx * dx + dy * dy], more[dx * dx + dy * dy]);
    law_scaling_keeps_order(a, b, half);
    law_scaling_keeps_order(b, one, half);
    law_scaling_keeps_order(num(0xbf80_0000), a, half);
    law_one_is_neutral(half);
    assert(one.negated() == num(0xbf80_0000));
    law_negation_passes_through(one, half);
    law_shares_shrink(half, one);
    let (x, y) = (half.times(a), half.times(b));
    assert(half.negated().le(x) && x.le(y) && y.le(half));
    law_sums_keep_order(x, y, half);
    law_sums_keep_order(y, half, half);
    law_sums_keep_order(half.negated(), x, half);
    law_difference_shows_order(half, half);
    lemma_two_halves();
}

/// Strokes cover a pixel as much as the one that covers it most.
pub proof fn law_coverage_is_the_most(strokes: Seq<SpotStroke>, fades: Seq<Vec<Single>>, w: int, h: int, x: int, y: int, i: int)
    requires
        0 <= i < strokes.len(),
    ensures
        ({
            let (cx, cy, inner, outer) = soft_stroke(strokes[i], w, h);
            let span = soft_span(outer);
            let (dx, dy) = (x - cx, y - cy);
            -span <= dx <= span && -span <= dy <= span ==> !coverage(strokes, fades, w, h, x, y).lt(cover(inner, outer, dx, dy, fades[i]@))
        }),
        num(0).le(coverage(strokes, fades, w, h, x, y)),
    decreases strokes.len(),
{
    let rest = strokes.drop_last();
    if i < strokes.len() - 1 {
        assert(rest[i] == strokes[i]);
        law_coverage_is_the_most(rest, fades, w, h, x, y, i);
    } else {
        lemma_coverage_is_not_negative(rest, fades, w, h, x, y);
    }
}

proof fn lemma_coverage_is_not_negative(strokes: Seq<SpotStroke>, fades: Seq<Vec<Single>>, w: int, h: int, x: int, y: int)
    ensures
        num(0).le(coverage(strokes, fades, w, h, x, y)),
    decreases strokes.len(),
{
    if strokes.len() > 0 {
        lemma_coverage_is_not_negative(strokes.drop_last(), fades, w, h, x, y);
    }
}

/// A whole part limited to a byte is one.
proof fn lemma_part_is_a_byte(v: Single)
    ensures
        0 <= v.truncated(0, 255) <= 255,
{
    reveal(Single::truncated);
}

/// Bytes mixed by a share rise with either of them.
pub proof fn law_feathered_bytes_follow(o: u8, p: u8, n: u8, m: u8, a: Single)
    requires
        o <= p && n <= m,
        !a.is_nan(),
    ensures
        mixed_byte(o, n, a) <= mixed_byte(p, m, a),
        a.le(num(0)) ==> mixed_byte(o, n, a) == o,
        num(0x3f80_0000).le(a) ==> mixed_byte(o, n, a) == n,  // 1
{
    let one = num(0x3f80_0000);
    if !a.le(num(0)) && !one.le(a) {
        lemma_bytes_in_order(o, p);
        lemma_bytes_in_order(n, m);
        law_difference_shows_order(a, one);
        law_adding_raises(one, a);
        let r = one.minus(a);
        law_scaling_keeps_order(of_byte(o), of_byte(p), r);
        law_scaling_keeps_order(of_byte(n), of_byte(m), a);
        law_shares_shrink(of_byte(o), r);
        law_shares_shrink(of_byte(p), r);
        law_shares_shrink(of_byte(n), a);
        law_shares_shrink(of_byte(m), a);
        let (b, c) = (of_byte(o).times(r), of_byte(p).times(r));
        let (d, e) = (of_byte(n).times(a), of_byte(m).times(a));
        lemma_sum_is_a_number(b, d);
        lemma_sum_is_a_number(c, e);
        law_totals_keep_order(b, c, d, e);
        law_whole_parts_keep_order(b.plus(d), c.plus(e), 0, 255);
        lemma_part_is_a_byte(b.plus(d));
        lemma_part_is_a_byte(c.plus(e));
    }
}

/// A larger stroke covers what a smaller one at its place covers, and a stroke further right or
/// down never has its centre further left or up.
pub proof fn law_larger_strokes_cover_more(s: SpotStroke, t: SpotStroke, w: int, h: int, x: int, y: int)
    requires
        0 < w <= 0x1_0000 && 0 < h <= 0x1_0000,
        is_share(s.r_norm) && is_share(t.r_norm),
        is_share(s.cx) && is_share(t.cx) && is_share(s.cy) && is_share(t.cy),
        s.r_norm.le(t.r_norm),
        s.cx.le(t.cx) && s.cy.le(t.cy),
    ensures
        s.cx == t.cx && s.cy == t.cy && under_stroke(s, w, h, x, y) ==> under_stroke(t, w, h, x, y),
        stroke_pixels(s, w, h).0 <= stroke_pixels(t, w, h).0,
        stroke_pixels(s, w, h).1 <= stroke_pixels(t, w, h).1,
        1 <= stroke_pixels(s, w, h).2 <= stroke_pixels(t, w, h).2,
{
    let one = num(0x3f80_0000);
    let (lo, hi) = (i32::MIN as int, i32::MAX as int);
    let short = if w < h {
        w
    } else {
        h
    };
    lemma_side(w);
    lemma_side(h);
    let n = Single::spec_from_int(short);
    law_scaling_keeps_order(s.cx, t.cx, Single::spec_from_int(w));
    law_scaling_keeps_order(s.cy, t.cy, Single::spec_from_int(h));
    law_scaling_keeps_order(s.r_norm, t.r_norm, n);
    law_whole_parts_keep_order(s.cx.times(Single::spec_from_int(w)), t.cx.times(Single::spec_from_int(w)), lo, hi);
    law_whole_parts_keep_order(s.cy.times(Single::spec_from_int(h)), t.cy.times(Single::spec_from_int(h)), lo, hi);
    let (a, b) = (s.r_norm.times(n).max(one), t.r_norm.times(n).max(one));
    lemma_one();
    law_small_integers_are_whole(1, lo, hi);
    law_whole_parts_keep_order(one, a, lo, hi);
    law_whole_parts_keep_order(a, b, lo, hi);
    let (i, j) = (a.truncated(lo, hi), b.truncated(lo, hi));
    assert(i * i <= j * j) by (nonlinear_arith)
        requires
            1 <= i <= j,
    ;
}

/// A stroke is healed with a radius from 1 to 60 pixels that grows with the stroke, around a
/// centre inside the picture.
pub proof fn law_healed_strokes_grow(s: SpotStroke, t: SpotStroke, w: int, h: int)
    requires
        0 < w <= 0x1_0000 && 0 < h <= 0x1_0000,
        is_share(s.r_norm) && is_share(t.r_norm),
        s.r_norm.le(t.r_norm),
    ensures
        1 <= heal_pixels(s, w, h).2 <= heal_pixels(t, w, h).2 <= 60,
{
    let one = num(0x3f80_0000);
    let top = num(0x4270_0000);
    let (lo, hi) = (i32::MIN as int, i32::MAX as int);
    let short = if w < h {
        w
    } else {
        h
    };
    lemma_side(short);
    let n = Single::spec_from_int(short);
    law_scaling_keeps_order(s.r_norm, t.r_norm, n);
    let (a, b) = (s.r_norm.times(n), t.r_norm.times(n));
    law_limits_keep_order(a, b, one, top);
    law_limits_keep_order(b, b, one, top);
    let (c, d) = (a.clamp(one, top), b.clamp(one, top));
    law_rounding_keeps_order(one, c);
    law_rounding_keeps_order(c, d);
    law_rounding_keeps_order(d, top);
    lemma_one();
    lemma_sixty();
    law_small_integers_are_whole(1, lo, hi);
    law_small_integers_are_whole(60, lo, hi);
    law_whole_parts_keep_order(one.round(), c.round(), lo, hi);
    law_whole_parts_keep_order(c.round(), d.round(), lo, hi);
    law_whole_parts_keep_order(d.round(), top.round(), lo, hi);
}

proof fn lemma_sixty()
    ensures
        Single::spec_from_int(60) == num(0x4270_0000),
{
    law_small_integers_are_exact(60);
    lemma_ulps_form(131, 0xf0_0000);
    lemma_pow2_adds(131, 18);
    lemma2_to64();
    let a = pow2(131) as int;
    assert(0xf0_0000 * a == 60 * (a * 0x4_0000)) by (nonlinear_arith);
    law_order_is_numeric(Single::spec_from_int(60), num(0x4270_0000));
}

/// A picture turns counter-clockwise: what is shown right of the middle comes from further down,
/// and what is shown below it from further left.
pub proof fn law_fine_turns_go_counter_clockwise(d: Single, cos: Single, sin: Single, cx: Single, cy: Single)
    requires
        num(0).le(d) && is_small(d),
        is_share(sin) && is_share(cos),
        is_small(cx) && is_small(cy),
    ensures
        cy.le(source_point(d, num(0), cos, sin, cx, cy).1),
        source_point(num(0), d, cos, sin, cx, cy).0.le(cx),
        cx.le(source_point(d, num(0), cos, sin, cx, cy).0),
        cy.le(source_point(num(0), d, cos, sin, cx, cy).1),
        num(0).le(rotated_across(d, num(0), cos, sin)),
        rotated_down(d, num(0), cos, sin).le(num(0)),
        num(0).le(rotated_across(num(0), d, cos, sin)),
{
    law_shares_shrink(d, sin);
    law_shares_shrink(d, cos);
    lemma_any_zero_times_is_zero(num(0), sin);
    lemma_any_zero_times_is_zero(num(0), cos);
    let (s, c) = (d.times(sin), d.times(cos));
    let (y, z) = (num(0).times(sin), num(0).times(cos));
    law_zero_is_neutral(s, z);
    law_zero_is_neutral(c, y);
    law_zero_is_neutral(c, y.negated());
    law_sum_commutes(z, s.negated());
    law_sum_commutes(y, c);
    law_sum_commutes(z, s);
    law_zero_is_neutral(s.negated(), z);
    lemma_added_to(s.plus(z), cy);
    lemma_added_to(c.plus(y.negated()), cx);
    lemma_added_to(y.plus(c), cy);
    lemma_taken_from(z.minus(s), cx);
}

proof fn lemma_added_to(t: Single, c: Single)
    requires
        num(0).le(t),
        is_finite(c),
    ensures
        c.le(t.plus(c)),
{
    law_adding_raises(c, t);
    law_sum_commutes(t, c);
}

proof fn lemma_taken_from(t: Single, c: Single)
    requires
        t.le(num(0)),
        is_finite(c),
    ensures
        t.plus(c).le(c),
{
    law_adding_lowers(c, t);
    law_sum_commutes(t, c);
}

/// A soft stroke covers fully up to a radius that is no larger than the one it ends at, and ends
/// no sooner where the stroke is larger.
pub proof fn law_soft_edges_are_in_order(s: SpotStroke, t: SpotStroke, w: int, h: int)
    requires
        0 < w <= 0x1_0000 && 0 < h <= 0x1_0000,
        is_share(s.r_norm) && is_share(t.r_norm),
        s.r_norm.le(t.r_norm),
    ensures
        num(0).le(soft_stroke(s, w, h).2),
        soft_stroke(s, w, h).2.le(soft_stroke(s, w, h).3),
        soft_stroke(s, w, h).3.le(soft_stroke(t, w, h).3),
        num(0x3f80_0000).le(soft_stroke(s, w, h).3),  // 1
{
    let one = num(0x3f80_0000);
    let half = num(0x3f00_0000);
    let short = if w < h {
        w
    } else {
        h
    };
    lemma_side(short);
    let n = Single::spec_from_int(short);
    law_scaling_keeps_order(s.r_norm, t.r_norm, n);
    law_shares_shrink(n, s.r_norm);
    law_shares_shrink(n, t.r_norm);
    let (p, q) = (s.r_norm.times(n).max(half), t.r_norm.times(n).max(half));
    law_scaling_keeps_order(p, q, half);
    law_shares_shrink(p, half);
    law_shares_shrink(q, half);
    let (f, g) = (p.times(half).max(one), q.times(half).max(one));
    law_adding_raises(p, f);
    law_adding_raises(f, p);
    law_sum_commutes(p, f);
    lemma_sum_is_a_number(p, f);
    lemma_sum_is_a_number(q, g);
    law_totals_keep_order(p, q, f, g);
}

} // verus!
