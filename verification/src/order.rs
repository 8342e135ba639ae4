//! How sums, products and limits keep the order of numbers.

use crate::single::{
    is_small, law_every_ratio_rounds, law_negation_is_opposite, law_one_is_neutral,
    law_order_is_numeric, law_product_commutes, law_products_keep_order, law_quotients_keep_order,
    law_small_integers_are_exact, law_small_integers_are_whole, law_sums_keep_order,
    law_whole_parts_keep_order, law_whole_sums_are_exact, law_zero_is_neutral,
    law_zero_times_is_zero, lemma_exact_ratio, lemma_gap, lemma_moderate, lemma_round_ratio,
    lemma_rounding_keeps_order, lemma_ulps_form, lemma_ulps_monotone, lemma_ulps_step,
    lemma_zero_magnitude, lemma_zero_rounds_to_zero, num, round_ratio, rounds_to, ulps, within,
    Single, HIDDEN, INFINITY,
};
use vstd::arithmetic::power2::{lemma_pow2_adds, lemma_pow2_pos, pow2};
use vstd::prelude::*;

verus! {

/// A number that is neither infinite nor not a number.
pub open spec fn is_finite(x: Single) -> bool {
    x.magnitude() < INFINITY
}

/// Adding what is not negative never lowers a number, and taking it away never raises one.
pub proof fn law_adding_raises(x: Single, y: Single)
    requires
        is_finite(x),
        num(0).le(y),
    ensures
        x.le(x.plus(y)),
        x.minus(y).le(x),
{
    law_zero_is_neutral(x, num(0));
    if is_finite(y) {
        law_sums_keep_order(num(0), y, x);
        law_sums_keep_order(y.negated(), num(0), x);
    } else {
        reveal(Single::spec_plus);
    }
}

/// Adding what is not positive never raises a number, and taking it away never lowers one.
pub proof fn law_adding_lowers(x: Single, y: Single)
    requires
        is_finite(x),
        y.le(num(0)),
    ensures
        x.plus(y).le(x),
        x.le(x.minus(y)),
{
    law_zero_is_neutral(x, num(0));
    if is_finite(y) {
        law_sums_keep_order(y, num(0), x);
        law_sums_keep_order(num(0), y.negated(), x);
    } else {
        reveal(Single::spec_plus);
    }
}

/// A difference has the sign of the order of its terms.
pub proof fn law_difference_shows_order(a: Single, b: Single)
    requires
        is_finite(a),
        is_finite(b),
    ensures
        num(0).lt(b.minus(a)) == a.lt(b),
        b.minus(a).lt(num(0)) == b.lt(a),
        b.minus(a).same(num(0)) == a.same(b),
        !b.minus(a).is_nan(),
{
    reveal(Single::spec_plus);
    law_order_is_numeric(a, b);
    law_order_is_numeric(b, a);
    law_negation_is_opposite(a);
    let n = b.value() - a.value();
    lemma_exact_ratio(1, 1);
    assert(ulps(1) == 1);
    lemma_round_ratio(1, 1, 1);
    if n > 0 {
        lemma_rounding_keeps_order(1, n, 1);
    } else if n < 0 {
        lemma_rounding_keeps_order(1, -n, 1);
    }
}

/// Turning the sign of a factor turns the sign of a product.
pub proof fn law_negation_passes_through(a: Single, x: Single)
    requires
        is_finite(a),
        is_finite(x),
    ensures
        a.negated().times(x) == a.times(x).negated(),
        x.times(a.negated()) == x.times(a).negated(),
        !a.times(x).is_nan(),
{
    reveal(Single::spec_times);
    lemma_pow2_pos(149);
    let u = ulps(a.magnitude());
    let v = ulps(x.magnitude());
    lemma_ulps_step(a.magnitude());
    lemma_ulps_step(x.magnitude());
    assert(u * v >= 0 && u * v == v * u) by (nonlinear_arith)
        requires
            u >= 0,
            v >= 0,
    ;
    lemma_rounding_keeps_order(u * v, u * v, pow2(149) as int);
}

/// Scaling by what is not negative keeps the order, whatever the signs.
pub proof fn law_scaling_keeps_order(a: Single, b: Single, x: Single)
    requires
        a.le(b),
        is_finite(a),
        is_finite(b),
        num(0).le(x),
        is_finite(x),
    ensures
        a.times(x).le(b.times(x)),
        x.times(a).le(x.times(b)),
{
    law_product_commutes(a, x);
    law_product_commutes(b, x);
    if num(0).le(a) {
        law_products_keep_order(a, b, x);
    } else if b.le(num(0)) {
        law_products_keep_order(b.negated(), a.negated(), x);
        law_negation_passes_through(a, x);
        law_negation_passes_through(b, x);
    } else {
        law_products_keep_order(a.negated(), a.negated(), x);
        law_products_keep_order(b, b, x);
        law_negation_passes_through(a, x);
    }
}

/// A product has the sign that its factors give it.
pub proof fn law_product_sign(a: Single, x: Single)
    requires
        is_finite(a),
        is_finite(x),
        num(0).le(x),
    ensures
        num(0).le(a) ==> num(0).le(a.times(x)),
        a.le(num(0)) ==> a.times(x).le(num(0)),
        num(0).le(a) ==> num(0).le(x.times(a)),
        a.le(num(0)) ==> x.times(a).le(num(0)),
{
    law_zero_times_is_zero(x);
    law_product_commutes(a, x);
    if num(0).le(a) {
        law_scaling_keeps_order(num(0), a, x);
    }
    if a.le(num(0)) {
        law_scaling_keeps_order(a, num(0), x);
    }
}

/// Scaling by a share from zero to one brings a number nearer to zero.
pub proof fn law_shares_shrink(a: Single, x: Single)
    requires
        is_finite(a),
        num(0).le(x),
        x.le(num(0x3f80_0000)),  // 1
    ensures
        num(0).le(a) ==> num(0).le(a.times(x)) && a.times(x).le(a),
        a.le(num(0)) ==> a.le(a.times(x)) && a.times(x).le(num(0)),
        is_finite(a.times(x)),
        a.times(x) == x.times(a),
{
    let one = num(0x3f80_0000);
    law_product_commutes(a, x);
    law_one_is_neutral(a);
    law_product_sign(a, x);
    if num(0).le(a) {
        law_scaling_keeps_order(x, one, a);
    } else {
        law_scaling_keeps_order(x, one, a.negated());
        law_negation_passes_through(a, x);
        law_one_is_neutral(a.negated());
        law_product_commutes(a.negated(), x);
    }
}

/// Scaling by at least one moves a number away from zero.
pub proof fn law_factors_stretch(a: Single, x: Single)
    requires
        is_finite(a),
        num(0).le(a),
        is_finite(x),
        num(0x3f80_0000).le(x),  // 1
    ensures
        a.le(a.times(x)),
        a.le(x.times(a)),
{
    law_product_commutes(a, x);
    law_one_is_neutral(a);
    law_scaling_keeps_order(num(0x3f80_0000), x, a);
}

/// Taking away keeps the order of what it is taken from, and turns that of what is taken.
pub proof fn law_differences_keep_order(a: Single, b: Single, x: Single)
    requires
        a.le(b),
        is_finite(a),
        is_finite(b),
        is_finite(x),
    ensures
        a.minus(x).le(b.minus(x)),
        x.minus(b).le(x.minus(a)),
{
    law_sums_keep_order(a, b, x.negated());
    law_sums_keep_order(b.negated(), a.negated(), x);
}

/// Dividing by what is positive keeps the order, whatever the signs.
pub proof fn law_dividing_keeps_order(a: Single, b: Single, x: Single)
    requires
        a.le(b),
        is_finite(a),
        is_finite(b),
        num(0).lt(x),
        is_finite(x),
    ensures
        a.over(x).le(b.over(x)),
        num(0).le(a) ==> num(0).le(a.over(x)),
        b.le(num(0)) ==> b.over(x).le(num(0)),
{
    lemma_negated_quotient(a, x);
    lemma_negated_quotient(b, x);
    if num(0).le(a) {
        law_quotients_keep_order(a, b, x);
    }
    if b.le(num(0)) {
        law_quotients_keep_order(b.negated(), a.negated(), x);
    }
    if !num(0).le(a) && !b.le(num(0)) {
        law_quotients_keep_order(a.negated(), a.negated(), x);
        law_quotients_keep_order(b, b, x);
    }
}

/// Turning the sign of what is divided turns the sign of a quotient.
proof fn lemma_negated_quotient(a: Single, x: Single)
    requires
        is_finite(a),
        num(0).lt(x),
        is_finite(x),
    ensures
        a.negated().over(x) == a.over(x).negated(),
{
    reveal(Single::spec_over);
    lemma_pow2_pos(149);
    lemma_ulps_step(a.magnitude());
    lemma_ulps_monotone(0, x.magnitude());
    let n = ulps(a.magnitude()) * pow2(149);
    assert(n >= 0) by (nonlinear_arith)
        requires
            n == ulps(a.magnitude()) * pow2(149),
            ulps(a.magnitude()) >= 0,
            pow2(149) > 0,
    ;
    lemma_rounding_keeps_order(n, n, ulps(x.magnitude()));
}

/// Limits keep the order.
pub proof fn law_limits_keep_order(a: Single, b: Single, lo: Single, hi: Single)
    requires
        a.le(b),
        lo.le(hi),
    ensures
        a.clamp(lo, hi).le(b.clamp(lo, hi)),
        lo.le(a.clamp(lo, hi)),
        b.clamp(lo, hi).le(hi),
        lo.le(a) && a.le(hi) ==> a.clamp(lo, hi) == a,
{
}

/// A sum whose exact value a number has is that number.
pub proof fn law_exact_sum(x: Single, y: Single, z: Single)
    requires
        is_finite(x),
        is_finite(y),
        is_finite(z),
        x.value() + y.value() == z.value(),
    ensures
        x.plus(y).same(z),
        !z.same(num(0)) ==> x.plus(y) == z,
{
    reveal(Single::spec_plus);
    law_order_is_numeric(z, num(0));
    lemma_zero_magnitude(z.magnitude());
    lemma_exact_ratio(z.magnitude(), 1);
    lemma_round_ratio(ulps(z.magnitude()) * 1, 1, z.magnitude());
}

/// A product whose exact value a number has is that number.
pub proof fn law_exact_product(x: Single, y: Single, z: Single)
    requires
        is_finite(x),
        is_finite(y),
        is_finite(z),
        x.value() * y.value() == z.value() * pow2(149),
    ensures
        x.times(y).same(z),
        !z.same(num(0)) ==> x.times(y) == z,
{
    reveal(Single::spec_times);
    let p = pow2(149) as int;
    lemma_pow2_pos(149);
    let u = ulps(x.magnitude());
    let v = ulps(y.magnitude());
    let w = ulps(z.magnitude());
    lemma_ulps_step(x.magnitude());
    lemma_ulps_step(y.magnitude());
    lemma_ulps_step(z.magnitude());
    let a = x.value();
    let b = y.value();
    let c = z.value();
    assert(u * v == w * p && (c != 0 ==> (a < 0) != (b < 0) == (c < 0)) && (c != 0 ==> a != 0 && b != 0))
        by (nonlinear_arith)
        requires
            a == u || a == -u,
            b == v || b == -v,
            c == w || c == -w,
            u >= 0,
            v >= 0,
            w >= 0,
            p > 0,
            a * b == c * p,
    ;
    lemma_zero_magnitude(x.magnitude());
    lemma_zero_magnitude(y.magnitude());
    lemma_zero_magnitude(z.magnitude());
    lemma_exact_ratio(z.magnitude(), p);
    lemma_round_ratio(w * p, p, z.magnitude());
}

/// A number lies between two whole numbers.
pub open spec fn lies_between(x: Single, lo: int, hi: int) -> bool {
    is_finite(x) && lo * pow2(149) <= x.value() <= hi * pow2(149)
}

/// Whole numbers of either sign are held exactly up to two to the power 24.
pub proof fn law_whole_numbers_are_exact(n: int)
    requires
        -0x100_0000 <= n <= 0x100_0000,
    ensures
        is_finite(Single::spec_from_int(n)),
        Single::spec_from_int(n).value() == n * pow2(149),
        lies_between(Single::spec_from_int(n), n, n),
{
    if n >= 0 {
        law_small_integers_are_exact(n);
    } else {
        law_small_integers_are_exact(-n);
        reveal(Single::spec_from_int);
        let p = pow2(149) as int;
        lemma_pow2_pos(149);
        assert((-n) * p >= 0) by (nonlinear_arith)
            requires
                n < 0,
                p > 0,
        ;
        lemma_rounding_keeps_order((-n) * p, (-n) * p, 1);
        law_negation_is_opposite(Single::spec_from_int(-n));
        assert(-((-n) * pow2(149)) == n * pow2(149)) by (nonlinear_arith);
    }
}

/// A sum lies between the sums of the bounds of its terms.
pub proof fn law_sum_lies_between(x: Single, y: Single, a: int, b: int, c: int, d: int)
    requires
        lies_between(x, a, b),
        lies_between(y, c, d),
        -0x80_0000 <= a <= b <= 0x80_0000,
        -0x80_0000 <= c <= d <= 0x80_0000,
    ensures
        lies_between(x.plus(y), a + c, b + d),
{
    let (sa, sb) = (Single::spec_from_int(a), Single::spec_from_int(b));
    let (sc, sd) = (Single::spec_from_int(c), Single::spec_from_int(d));
    law_whole_numbers_are_exact(a);
    law_whole_numbers_are_exact(b);
    law_whole_numbers_are_exact(c);
    law_whole_numbers_are_exact(d);
    law_whole_sums_are_exact(sa, sc, a, c);
    law_whole_sums_are_exact(sb, sd, b, d);
    law_order_is_numeric(sa, x);
    law_order_is_numeric(x, sb);
    law_order_is_numeric(sc, y);
    law_order_is_numeric(y, sd);
    law_sums_keep_order(sa, x, sc);
    law_sums_keep_order(sc, y, x);
    law_sums_keep_order(y, sd, x);
    law_sums_keep_order(x, sb, sd);
    law_order_is_numeric(sa.plus(sc), x.plus(y));
    law_order_is_numeric(x.plus(y), sb.plus(sd));
}

/// A difference lies between the differences of the bounds of its terms.
pub proof fn law_difference_lies_between(x: Single, y: Single, a: int, b: int, c: int, d: int)
    requires
        lies_between(x, a, b),
        lies_between(y, c, d),
        -0x80_0000 <= a <= b <= 0x80_0000,
        -0x80_0000 <= c <= d <= 0x80_0000,
    ensures
        lies_between(x.minus(y), a - d, b - c),
{
    law_negation_is_opposite(y);
    let p = pow2(149) as int;
    assert(-(c * p) == (-c) * p && -(d * p) == (-d) * p) by (nonlinear_arith);
    law_sum_lies_between(x, y.negated(), a, b, -d, -c);
}

/// The value of a quarter.
proof fn lemma_quarter()
    ensures
        4 * num(0x3e80_0000).value() == pow2(149),
        is_finite(num(0x3e80_0000)),
{
    lemma_ulps_form(124, 0x80_0000);
    lemma_pow2_adds(124, 25);
    vstd::arithmetic::power2::lemma2_to64();
    assert(124 * HIDDEN + 0x80_0000 == 0x3e80_0000);
    assert(4 * (0x80_0000 * pow2(124)) == pow2(124) * 0x200_0000) by (nonlinear_arith);
}

/// A quarter of a number lies between a quarter of its bounds.
pub proof fn law_quarter_lies_between(x: Single, lo: int, hi: int)
    requires
        lies_between(x, 4 * lo, 4 * hi),
        -0x40_0000 <= lo <= hi <= 0x40_0000,
    ensures
        lies_between(x.times(num(0x3e80_0000)), lo, hi),  // 0.25
{
    let q = num(0x3e80_0000);  // 0.25
    lemma_quarter();
    let p = pow2(149) as int;
    let v = q.value();
    let (a, b) = (Single::spec_from_int(4 * lo), Single::spec_from_int(4 * hi));
    law_whole_numbers_are_exact(4 * lo);
    law_whole_numbers_are_exact(4 * hi);
    law_whole_numbers_are_exact(lo);
    law_whole_numbers_are_exact(hi);
    assert(((4 * lo) * p) * v == (lo * p) * p && ((4 * hi) * p) * v == (hi * p) * p)
        by (nonlinear_arith)
        requires
            4 * v == p,
    ;
    law_exact_product(a, q, Single::spec_from_int(lo));
    law_exact_product(b, q, Single::spec_from_int(hi));
    law_order_is_numeric(a, x);
    law_order_is_numeric(x, b);
    law_order_is_numeric(num(0), q);
    lemma_zero_magnitude(0);
    lemma_pow2_pos(149);
    law_scaling_keeps_order(a, x, q);
    law_scaling_keeps_order(x, b, q);
    law_order_is_numeric(a.times(q), Single::spec_from_int(lo));
    law_order_is_numeric(b.times(q), Single::spec_from_int(hi));
    law_order_is_numeric(a.times(q), x.times(q));
    law_order_is_numeric(x.times(q), b.times(q));
}

/// The whole part of a number between two whole numbers lies between them too.
pub proof fn law_whole_part_lies_between(x: Single, lo: int, hi: int, least: int, most: int)
    requires
        lies_between(x, lo, hi),
        0 <= lo <= hi <= 0x100_0000,
        least <= 0 <= most,
    ensures
        within(lo, least, most) <= x.truncated(least, most) <= within(hi, least, most),
{
    law_whole_numbers_are_exact(lo);
    law_whole_numbers_are_exact(hi);
    let (a, b) = (Single::spec_from_int(lo), Single::spec_from_int(hi));
    law_order_is_numeric(a, x);
    law_order_is_numeric(x, b);
    law_whole_parts_keep_order(a, x, least, most);
    law_whole_parts_keep_order(x, b, least, most);
    law_small_integers_are_whole(lo, least, most);
    law_small_integers_are_whole(hi, least, most);
}

/// The largest byte as a number.
pub proof fn lemma_top_byte()
    ensures
        num(0x437f_0000) == Single::spec_from_int(255),
        is_finite(num(0x437f_0000)),
        num(0x437f_0000).value() == 255 * pow2(149),
{
    lemma_ulps_form(133, 0xff_0000);
    lemma_pow2_adds(133, 16);
    vstd::arithmetic::power2::lemma2_to64();
    assert(133 * HIDDEN + 0xff_0000 == 0x437f_0000);
    assert(0xff_0000 * pow2(133) == 255 * (pow2(133) * 0x1_0000)) by (nonlinear_arith);
    law_whole_numbers_are_exact(255);
    law_order_is_numeric(num(0x437f_0000), Single::spec_from_int(255));
}

/// Rounding to whole numbers keeps the order.
pub proof fn law_rounding_keeps_order(a: Single, b: Single)
    requires
        a.le(b),
        is_finite(a),
        is_finite(b),
    ensures
        a.round().le(b.round()),
{
    reveal(Single::spec_round);
    let p = pow2(149) as int;
    lemma_pow2_pos(149);
    let u = ulps(a.magnitude());
    let v = ulps(b.magnitude());
    lemma_ulps_step(a.magnitude());
    lemma_ulps_step(b.magnitude());
    if a.magnitude() < b.magnitude() {
        lemma_ulps_monotone(a.magnitude(), b.magnitude());
    } else if b.magnitude() < a.magnitude() {
        lemma_ulps_monotone(b.magnitude(), a.magnitude());
    }
    let k = a.nearest_whole();
    let l = b.nearest_whole();
    assert(k == (2 * u + p) / (2 * p) && l == (2 * v + p) / (2 * p));
    assert(k >= 0 && l >= 0 && (u <= v ==> k <= l) && (v <= u ==> l <= k)) by {
        vstd::arithmetic::div_mod::lemma_div_pos_is_pos(2 * u + p, 2 * p);
        vstd::arithmetic::div_mod::lemma_div_pos_is_pos(2 * v + p, 2 * p);
        if u <= v {
            vstd::arithmetic::div_mod::lemma_div_is_ordered(2 * u + p, 2 * v + p, 2 * p);
        }
        if v <= u {
            vstd::arithmetic::div_mod::lemma_div_is_ordered(2 * v + p, 2 * u + p, 2 * p);
        }
    }
    assert(k * p >= 0 && l * p >= 0 && (k <= l ==> k * p <= l * p) && (l <= k ==> l * p <= k * p))
        by (nonlinear_arith)
        requires
            k >= 0,
            l >= 0,
            p > 0,
    ;
    if u == 0 && v == 0 {
        assert(p / (2 * p) == 0) by (nonlinear_arith)
            requires
                p > 0,
        ;
        assert(0 * p == 0);
        lemma_zero_rounds_to_zero(1);
        lemma_round_ratio(0, 1, 0);
    }
    lemma_zero_magnitude(a.magnitude());
    lemma_zero_magnitude(b.magnitude());
    if k <= l {
        lemma_rounding_keeps_order(k * p, l * p, 1);
    }
    if l <= k {
        lemma_rounding_keeps_order(l * p, k * p, 1);
    }
}

/// Sums are in the order of their exact values.
pub proof fn law_sums_follow_values(a: Single, b: Single, c: Single, d: Single)
    requires
        is_finite(a),
        is_finite(b),
        is_finite(c),
        is_finite(d),
        a.value() + b.value() <= c.value() + d.value(),
    ensures
        a.plus(b).le(c.plus(d)),
{
    reveal(Single::spec_plus);
    let s = a.value() + b.value();
    let t = c.value() + d.value();
    lemma_zero_rounds_to_zero(1);
    lemma_round_ratio(0, 1, 0);
    if s > 0 {
        lemma_rounding_keeps_order(s, t, 1);
    } else if t < 0 {
        lemma_rounding_keeps_order(-t, -s, 1);
    } else {
        lemma_rounding_keeps_order(0, t, 1);
        lemma_rounding_keeps_order(0, -s, 1);
    }
}

/// A small number doubled is exact, and half of that is the number again.
pub proof fn law_doubling_is_exact(x: Single)
    requires
        is_small(x),
    ensures
        is_finite(x.plus(x)),
        x.plus(x).value() == 2 * x.value(),
        x.plus(x).over(num(0x4000_0000)).same(x),  // 2
{
    let h = HIDDEN as int;
    let m = x.magnitude();
    let n = if m < h { 2 * m } else { m + h };
    if m < h {
        lemma_ulps_form(0, m);
        lemma_ulps_form(0, 2 * m);
    } else {
        let q = m / h - 1;
        let r = m % h + h;
        assert(q >= 0 && q * h + r == m && (q + 1) * h + r == m + h) by (nonlinear_arith)
            requires
                h > 0,
                m >= h,
                q == m / h - 1,
                r == m % h + h,
        ;
        lemma_ulps_form(q, r);
        lemma_ulps_form(q + 1, r);
        vstd::arithmetic::power2::lemma_pow2_unfold((q + 1) as nat);
        assert(r * (2 * pow2(q as nat)) == 2 * (r * pow2(q as nat))) by (nonlinear_arith);
    }
    vstd::arithmetic::power2::lemma2_to64();
    assert(ulps(n) == 2 * ulps(m));
    let z = crate::single::signed(x.negative(), n);
    law_exact_sum(x, x, z);
    law_order_is_numeric(x.plus(x), z);
    reveal(Single::spec_plus);
    lemma_exact_ratio(n, 1);
    lemma_round_ratio(ulps(n) * 1, 1, n);
    let y = x.plus(x);
    lemma_zero_magnitude(m);
    lemma_zero_magnitude(n);
    reveal(Single::spec_over);
    let p = pow2(149) as int;
    lemma_pow2_pos(149);
    crate::single::lemma_two_and_three();
    law_small_integers_are_exact(2);
    let u = ulps(m);
    lemma_exact_ratio(m, 2 * p);
    assert((2 * u) * p == u * (2 * p)) by (nonlinear_arith);
    lemma_round_ratio(u * (2 * p), 2 * p, m);
    assert(ulps(y.magnitude()) == 2 * u);
}

/// What lies below the middle of two numbers, in exact arithmetic, is not above their middle, and
/// what lies above it is not below.
pub proof fn law_middle_parts(lo: Single, hi: Single, x: Single)
    requires
        is_small(lo),
        is_small(hi),
        is_small(x),
    ensures
        ({
            let middle = lo.plus(hi).over(num(0x4000_0000));  // 2
            &&& is_finite(middle)
            &&& 2 * x.value() <= lo.value() + hi.value() ==> x.le(middle)
            &&& lo.value() + hi.value() <= 2 * x.value() ==> middle.le(x)
        }),
{
    let two = num(0x4000_0000);
    law_doubling_is_exact(x);
    law_doubling_is_exact(lo);
    law_doubling_is_exact(hi);
    crate::single::lemma_small_sum(lo, hi);
    law_order_is_numeric(lo, hi);
    if lo.le(hi) {
        law_sums_follow_values(lo, lo, lo, hi);
        law_sums_follow_values(lo, hi, hi, hi);
        law_dividing_keeps_order(lo.plus(lo), lo.plus(hi), two);
        law_dividing_keeps_order(lo.plus(hi), hi.plus(hi), two);
    } else {
        law_sums_follow_values(hi, hi, lo, hi);
        law_sums_follow_values(lo, hi, lo, lo);
        law_dividing_keeps_order(hi.plus(hi), lo.plus(hi), two);
        law_dividing_keeps_order(lo.plus(hi), lo.plus(lo), two);
    }
    if 2 * x.value() <= lo.value() + hi.value() {
        law_sums_follow_values(x, x, lo, hi);
        law_dividing_keeps_order(x.plus(x), lo.plus(hi), two);
    }
    if lo.value() + hi.value() <= 2 * x.value() {
        law_sums_follow_values(lo, hi, x, x);
        law_dividing_keeps_order(lo.plus(hi), x.plus(x), two);
    }
}

/// Adding a noticeable amount to a number of at most four in size moves it.
#[verifier::spinoff_prover]
#[verifier::rlimit(60)]
pub proof fn law_noticeable_amounts_move(x: Single, t: Single)
    requires
        lies_between(x, -4, 4),
        num(0x3580_0000).le(t),  // 2 to the power -20
    ensures
        x.lt(x.plus(t)),
        x.minus(t).lt(x),
{
    let least = num(0x3580_0000);
    lemma_moderate(least);
    let p = pow2(149) as int;
    lemma_pow2_pos(149);
    lemma_pow2_adds(126, 23);
    vstd::arithmetic::power2::lemma2_to64();
    vstd::arithmetic::power2::lemma_pow2_strictly_increases(21, 126);
    assert(0x10_0000 <= p && 0x100_0000_0000 <= p) by (nonlinear_arith)
        requires
            p == pow2(126) * pow2(23),
            pow2(23) == 0x80_0000,
            pow2(126) >= 0x20_0000,
    ;
    let m = x.magnitude();
    lemma_gap(m);
    lemma_ulps_step(m);
    if m > 0 {
        lemma_gap(m - 1);
        lemma_ulps_step(m - 1);
    }
    // the next number above and the next below
    let up = if x.negative() && m > 0 {
        crate::single::signed(true, m - 1)
    } else {
        crate::single::signed(false, m + 1)
    };
    let down = if !x.negative() && m > 0 {
        crate::single::signed(false, m - 1)
    } else {
        crate::single::signed(true, m + 1)
    };
    lemma_small_bits(x);
    if is_finite(t) {
        law_order_is_numeric(least, t);
        law_zero_is_neutral(up, num(0));
        law_zero_is_neutral(down, num(0));
        law_sums_follow_values(up, num(0), x, t);
        law_negation_is_opposite(t);
        law_sums_follow_values(x, t.negated(), down, num(0));
    } else {
        reveal(Single::spec_plus);
    }
}

proof fn lemma_small_bits(x: Single)
    requires
        lies_between(x, -4, 4),
    ensures
        x.magnitude() <= 0x4080_0000,
        0 <= ulps(x.magnitude()) <= 4 * pow2(149),
{
    lemma_ulps_step(x.magnitude());
    lemma_ulps_form(128, 0x80_0000);
    lemma_pow2_adds(128, 21);
    vstd::arithmetic::power2::lemma2_to64();
    assert(128 * HIDDEN + 0x80_0000 == 0x4080_0000);
    assert(0x80_0000 * pow2(128) == 4 * (pow2(128) * 0x20_0000)) by (nonlinear_arith);
    if x.magnitude() > 0x4080_0000 {
        lemma_ulps_monotone(0x4080_0000, x.magnitude());
    }
}

/// Of a noticeable amount, products with noticeable factors are noticeable: at least two to the
/// power -8, scaled by at least a half, and by at least a quarter.
pub proof fn law_scaled_amounts_stay_noticeable(d: Single, k: Single, strength: Single)
    requires
        num(0x3b80_0000).le(d),  // 2 to the power -8
        is_small(d),
        num(0x3f00_0000).le(k),  // 0.5
        k.le(num(0x4000_0000)),  // 2
        num(0x3e80_0000).le(strength),  // 0.25
        is_small(strength),
    ensures
        num(0x3580_0000).le(d.times(k)),
        num(0x3580_0000).le(d.times(k).times(strength)),
        is_finite(d.times(k)),
{
    let e = num(0x3b80_0000);
    let half = num(0x3f00_0000);
    let quarter = num(0x3e80_0000);
    let (x, y) = (num(0x3b00_0000), num(0x3a00_0000));
    lemma_binary(8);
    lemma_binary(1);
    lemma_binary(2);
    lemma_binary(9);
    lemma_binary(11);
    lemma_pow2_adds(141, 148);
    lemma_pow2_adds(140, 149);
    lemma_pow2_adds(140, 147);
    lemma_pow2_adds(138, 149);
    law_exact_product(e, half, x);
    law_exact_product(x, quarter, y);
    law_scaling_keeps_order(e, d, half);
    law_scaling_keeps_order(half, k, d);
    law_small_product_is_finite(d, k);
    let t = d.times(k);
    law_scaling_keeps_order(x, t, quarter);
    law_scaling_keeps_order(quarter, strength, t);
}

/// The value of two to the power `-k`.
pub proof fn lemma_binary(k: int)
    requires
        0 <= k <= 20,
    ensures
        ({
            let x = num(((127 - k) * HIDDEN) as u32);
            &&& is_finite(x)
            &&& x.value() == pow2((149 - k) as nat)
            &&& !x.negative()
            &&& x.magnitude() == (127 - k) * HIDDEN
        }),
{
    lemma_ulps_form(126 - k, 0x80_0000);
    lemma_pow2_adds((126 - k) as nat, 23);
    vstd::arithmetic::power2::lemma2_to64();
    assert(pow2((126 - k) as nat) * 0x80_0000 == 0x80_0000 * pow2((126 - k) as nat))
        by (nonlinear_arith);
    assert((126 - k) * HIDDEN + 0x80_0000 == (127 - k) * HIDDEN);
}

/// The product of two small numbers is finite.
pub proof fn law_small_product_is_finite(x: Single, y: Single)
    requires
        is_small(x),
        is_small(y),
    ensures
        is_finite(x.times(y)),
{
    let top = num(0x4980_0000);
    lemma_moderate(top);
    lemma_ulps_step(x.magnitude());
    lemma_ulps_step(y.magnitude());
    if x.magnitude() < 0x4980_0000 {
        lemma_ulps_monotone(x.magnitude(), 0x4980_0000);
    }
    if y.magnitude() < 0x4980_0000 {
        lemma_ulps_monotone(y.magnitude(), 0x4980_0000);
    }
    let p = pow2(149) as int;
    lemma_pow2_adds(149, 51);
    lemma_pow2_adds(32, 19);
    vstd::arithmetic::power2::lemma2_to64();
    assert(pow2(51) == 0x8_0000_0000_0000);
    lemma_pow2_pos(149);
    let a = x.value();
    let b = y.value();
    assert(-(0x100_0000_0000 * (p * p)) <= a * b <= 0x100_0000_0000 * (p * p)) by (nonlinear_arith)
        requires
            -(0x10_0000 * p) <= a <= 0x10_0000 * p,
            -(0x10_0000 * p) <= b <= 0x10_0000 * p,
            p > 0,
    ;
    assert(0x100_0000_0000 * (p * p) <= pow2(200) * p) by (nonlinear_arith)
        requires
            pow2(200) == p * pow2(51),
            pow2(51) == 0x8_0000_0000_0000,
            p > 0,
    ;
    crate::single::law_products_are_close(x, y);
}

/// A small number lies between minus and plus two to the power 20.
pub proof fn lemma_small_lies(a: Single)
    requires
        is_small(a),
    ensures
        lies_between(a, -0x10_0000, 0x10_0000),
{
    let top = num(0x4980_0000);
    lemma_moderate(top);
    law_order_is_numeric(a, top);
    law_order_is_numeric(top.negated(), a);
    law_negation_is_opposite(top);
}

/// The product of two numbers of at most two to the power 22 is finite.
pub proof fn law_product_is_finite(x: Single, y: Single)
    requires
        lies_between(x, -0x40_0000, 0x40_0000),
        lies_between(y, -0x40_0000, 0x40_0000),
    ensures
        is_finite(x.times(y)),
{
    let p = pow2(149) as int;
    lemma_pow2_adds(149, 51);
    lemma_pow2_adds(32, 19);
    vstd::arithmetic::power2::lemma2_to64();
    assert(pow2(51) == 0x8_0000_0000_0000);
    lemma_pow2_pos(149);
    let a = x.value();
    let b = y.value();
    assert(-(0x1000_0000_0000 * (p * p)) <= a * b <= 0x1000_0000_0000 * (p * p)) by (nonlinear_arith)
        requires
            -(0x40_0000 * p) <= a <= 0x40_0000 * p,
            -(0x40_0000 * p) <= b <= 0x40_0000 * p,
            p > 0,
    ;
    assert(0x1000_0000_0000 * (p * p) <= pow2(200) * p) by (nonlinear_arith)
        requires
            pow2(200) == p * pow2(51),
            pow2(51) == 0x8_0000_0000_0000,
            p > 0,
    ;
    crate::single::law_products_are_close(x, y);
}

/// The difference of two small numbers is finite, and so is its product with a third.
pub proof fn law_small_difference(x: Single, y: Single, k: Single)
    requires
        is_small(x),
        is_small(y),
        is_small(k),
    ensures
        is_finite(x.minus(y)),
        is_finite(x.minus(y).times(k)),
        lies_between(x.minus(y), -0x20_0000, 0x20_0000),
{
    lemma_small_lies(x);
    lemma_small_lies(y);
    lemma_small_lies(k);
    law_difference_lies_between(x, y, -0x10_0000, 0x10_0000, -0x10_0000, 0x10_0000);
    let p = pow2(149) as int;
    lemma_pow2_pos(149);
    assert(-0x40_0000 * p <= -0x20_0000 * p && 0x20_0000 * p <= 0x40_0000 * p && -0x40_0000 * p
        <= -0x10_0000 * p && 0x10_0000 * p <= 0x40_0000 * p) by (nonlinear_arith)
        requires
            p > 0,
    ;
    law_product_is_finite(x.minus(y), k);
}

/// A limited step goes the way of the distance that it is taken of: up for a positive one, down
/// for a negative one, nowhere for none, and a noticeable distance moves.
pub proof fn law_limited_step(old: Single, d: Single, k: Single, lo: Single, hi: Single)
    requires
        lies_between(old, -4, 4),
        is_finite(d),
        num(0x3e80_0000).le(k),  // 0.25
        k.le(num(0x3f80_0000)),  // 1
        lo.le(num(0xba80_0000)),  // minus two to the power -10
        num(0x3a80_0000).le(hi),
        is_finite(lo),
        is_finite(hi),
    ensures
        ({
            let new = old.plus(d.times(k).clamp(lo, hi));
            &&& !new.is_nan()
            &&& num(0).le(d) ==> old.le(new)
            &&& d.le(num(0)) ==> new.le(old)
            &&& d.same(num(0)) ==> new.same(old)
            &&& num(0x3b80_0000).le(d) ==> old.lt(new)  // two to the power -8
            &&& d.le(num(0xbb80_0000)) ==> new.lt(old)
        }),
{
    law_product_sign(d, k);
    law_shares_shrink(d, k);
    let t = d.times(k).clamp(lo, hi);
    if num(0).le(d) {
        law_adding_raises(old, t);
    } else {
        law_adding_lowers(old, t);
    }
    if d.le(num(0)) {
        law_adding_lowers(old, t);
    }
    let e = num(0x3b80_0000);
    let quarter = num(0x3e80_0000);
    let x = num(0x3a80_0000);
    lemma_binary(8);
    lemma_binary(2);
    lemma_binary(10);
    lemma_pow2_adds(141, 147);
    lemma_pow2_adds(139, 149);
    law_exact_product(e, quarter, x);
    if e.le(d) {
        law_scaling_keeps_order(e, d, quarter);
        law_scaling_keeps_order(quarter, k, d);
        law_noticeable_amounts_move(old, t);
    }
    if d.le(num(0xbb80_0000)) {
        law_scaling_keeps_order(e, d.negated(), quarter);
        law_scaling_keeps_order(quarter, k, d.negated());
        law_negation_passes_through(d, k);
        law_noticeable_amounts_move(old, t.negated());
        assert(t.negated().negated() == t);
    }
}

/// The sum of two finite numbers is a number.
pub proof fn lemma_sum_is_a_number(x: Single, y: Single)
    requires
        is_finite(x),
        is_finite(y),
    ensures
        !x.plus(y).is_nan(),
{
    law_difference_shows_order(y.negated(), x);
    assert(y.negated().negated() == y);
}

/// Where a sum is a number, its terms are.
pub proof fn lemma_terms_are_numbers(x: Single, y: Single)
    requires
        !x.plus(y).is_nan(),
    ensures
        !x.is_nan(),
        !y.is_nan(),
{
    reveal(Single::spec_plus);
}

/// More plus more is more, as far as the sums are numbers.
pub proof fn law_totals_keep_order(a: Single, b: Single, x: Single, y: Single)
    requires
        a.le(b),
        x.le(y),
        !a.plus(x).is_nan(),
        !b.plus(y).is_nan(),
    ensures
        a.plus(x).le(b.plus(y)),
{
    if is_finite(a) && is_finite(b) && is_finite(x) && is_finite(y) {
        law_sums_keep_order(a, b, x);
        law_sums_keep_order(x, y, b);
    } else {
        reveal(Single::spec_plus);
    }
}

/// A ratio rounds alike however it is expanded.
proof fn lemma_expanded_ratio(n: int, d: int, k: int)
    requires
        0 <= n,
        0 < d,
        0 < k,
    ensures
        round_ratio(n * k, d * k) == round_ratio(n, d),
{
    law_every_ratio_rounds(n, d);
    let m = round_ratio(n, d);
    assert(0 < d * k) by (nonlinear_arith)
        requires
            0 < d,
            0 < k,
    ;
    if m > 0 {
        lemma_expanded_sides((ulps(m - 1) + ulps(m)) as int, n, d, k);
    }
    if m < INFINITY {
        lemma_expanded_sides((ulps(m) + ulps(m + 1)) as int, n, d, k);
    }
    assert(rounds_to(n * k, d * k, m));
    lemma_round_ratio(n * k, d * k, m);
}

proof fn lemma_expanded_sides(s: int, n: int, d: int, k: int)
    requires
        0 < k,
    ensures
        s * d < 2 * n <==> s * (d * k) < 2 * (n * k),
        s * d == 2 * n <==> s * (d * k) == 2 * (n * k),
{
    let a = s * d - 2 * n;
    assert(s * (d * k) - 2 * (n * k) == a * k) by (nonlinear_arith)
        requires
            a == s * d - 2 * n,
    ;
    assert((a < 0 <==> a * k < 0) && (a == 0 <==> a * k == 0)) by (nonlinear_arith)
        requires
            0 < k,
    ;
}

/// Dividing by more gives no more.
pub proof fn law_dividing_by_more(a: Single, x: Single, y: Single)
    requires
        num(0).le(a),
        is_finite(a),
        num(0).lt(x),
        x.le(y),
        is_finite(y),
    ensures
        a.over(y).le(a.over(x)),
        num(0).le(a.over(y)),
{
    reveal(Single::spec_over);
    let p = pow2(149) as int;
    lemma_pow2_pos(149);
    let u = ulps(a.magnitude()) as int;
    let v = ulps(x.magnitude()) as int;
    let w = ulps(y.magnitude()) as int;
    lemma_ulps_step(a.magnitude());
    lemma_ulps_monotone(0, x.magnitude());
    lemma_ulps_monotone(0, y.magnitude());
    if x.magnitude() < y.magnitude() {
        lemma_ulps_monotone(x.magnitude(), y.magnitude());
    }
    let n = u * p;
    assert(0 <= n && n * v <= n * w && 0 <= n * v && v * w == w * v && 0 < v * w) by (nonlinear_arith)
        requires
            0 <= u,
            0 < p,
            n == u * p,
            0 < v <= w,
    ;
    lemma_expanded_ratio(n, w, v);
    lemma_expanded_ratio(n, v, w);
    lemma_rounding_keeps_order(n * v, n * w, v * w);
    lemma_zero_magnitude(a.magnitude());
    lemma_zero_rounds_to_zero(w);
    lemma_zero_rounds_to_zero(v);
    lemma_round_ratio(0, w, 0);
    lemma_round_ratio(0, v, 0);
    if u == 0 {
        assert(0 * p == 0);
    }
}

} // verus!
