//! The largest upright rectangle in a rotated one, in exact numbers.
//!
//! `geometry::largest_inscribed_rect` computes what stands here with its rounding. Lengths are
//! whole numbers of a unit as fine as is needed, and the angle is that of a right triangle with
//! the sides `s` and `c`: its sine and cosine are in proportion to them, and lengths are taken
//! times the third side.

use vstd::prelude::*;

verus! {

/// An upright rectangle of `a` by `b` lies within a rectangle of `w` by `h` that was rotated
/// about their common middle.
pub open spec fn lies_within(a: int, b: int, w: int, h: int, s: int, c: int) -> bool {
    a * c + b * s <= w && a * s + b * c <= h
}

/// The shorter side binds twice: a corner of the upright rectangle lies on each of its halves.
pub open spec fn is_flat(long: int, short: int, s: int, c: int) -> bool {
    short * (s * s + c * c) <= 2 * (s * c) * long || s == c
}

/// `p` by `q` is what the closed form gives, for a rectangle that is at least as wide as high.
pub open spec fn is_wide_inscribed(p: int, q: int, w: int, h: int, s: int, c: int) -> bool {
    if is_flat(w, h, s, c) {
        2 * (p * s) == h && 2 * (q * c) == h
    } else {
        let d = c * c - s * s;
        p * d == w * c - h * s && q * d == h * c - w * s
    }
}

/// `p` by `q` is what the closed form gives.
pub open spec fn is_inscribed(p: int, q: int, w: int, h: int, s: int, c: int) -> bool {
    if w >= h {
        is_wide_inscribed(p, q, w, h, s, c)
    } else {
        is_wide_inscribed(q, p, h, w, s, c)
    }
}

proof fn lemma_positive(x: int, y: int)
    requires
        0 < x,
        0 < y,
    ensures
        0 < x * y,
{
    assert(0 < x * y) by (nonlinear_arith)
        requires
            0 < x,
            0 < y,
    ;
}

proof fn lemma_not_negative(x: int, y: int)
    requires
        0 <= x,
        0 <= y,
    ensures
        0 <= x * y,
{
    assert(0 <= x * y) by (nonlinear_arith)
        requires
            0 <= x,
            0 <= y,
    ;
}

proof fn lemma_scaled(x: int, y: int, k: int)
    requires
        x <= y,
        0 <= k,
    ensures
        k * x <= k * y,
{
    assert(k * x <= k * y) by (nonlinear_arith)
        requires
            x <= y,
            0 <= k,
    ;
}

proof fn lemma_cancel(x: int, y: int, k: int)
    requires
        0 < k,
    ensures
        x * k <= y * k ==> x <= y,
        x * k == y * k ==> x == y,
{
    if x > y {
        lemma_positive(x - y, k);
        assert((x - y) * k == x * k - y * k) by (nonlinear_arith);
    }
    if x < y {
        lemma_positive(y - x, k);
        assert((y - x) * k == y * k - x * k) by (nonlinear_arith);
    }
}

proof fn lemma_square(x: int)
    ensures
        0 <= x * x,
        x != 0 ==> 0 < x * x,
{
    assert(0 <= x * x) by (nonlinear_arith);
    if x > 0 {
        lemma_positive(x, x);
    } else if x < 0 {
        lemma_positive(-x, -x);
        assert((-x) * (-x) == x * x) by (nonlinear_arith);
    }
}

/// Of two numbers with a given sum the product is greatest where they are equal.
proof fn lemma_product_at_most(p: int, q: int, m: int)
    requires
        0 <= p,
        0 <= q,
        p + q <= m,
    ensures
        4 * (p * q) <= m * m,
{
    lemma_square(p - q);
    assert((p + q) * (p + q) - 4 * (p * q) == (p - q) * (p - q)) by (nonlinear_arith);
    lemma_scaled(p + q, m, p + q);
    lemma_scaled(p + q, m, m);
    assert((p + q) * m == m * (p + q)) by (nonlinear_arith);
}

proof fn lemma_flat_is_largest(
    p: int,
    q: int,
    w: int,
    h: int,
    s: int,
    c: int,
    a: int,
    b: int,
)
    requires
        0 < h <= w,
        0 < s,
        0 < c,
        h * (s * s + c * c) <= 2 * (s * c) * w,
        2 * (p * s) == h,
        2 * (q * c) == h,
        0 <= a,
        0 <= b,
        lies_within(a, b, w, h, s, c),
    ensures
        lies_within(p, q, w, h, s, c),
        a * b <= p * q,
{
    let k = s * c;
    lemma_positive(s, c);
    assert((p * c + q * s) * (2 * (s * c)) == (2 * (p * s)) * (c * c) + (2 * (q * c)) * (s * s))
        by (nonlinear_arith);
    assert(h * (c * c) + h * (s * s) == h * (s * s + c * c)) by (nonlinear_arith);
    assert(2 * (s * c) * w == w * (2 * (s * c))) by (nonlinear_arith);
    lemma_cancel(p * c + q * s, w, 2 * k);
    lemma_not_negative(a, s);
    lemma_not_negative(b, c);
    lemma_product_at_most(a * s, b * c, h);
    assert(4 * ((a * s) * (b * c)) == (a * b) * (4 * (s * c))) by (nonlinear_arith);
    assert((2 * (p * s)) * (2 * (q * c)) == (p * q) * (4 * (s * c))) by (nonlinear_arith);
    lemma_cancel(a * b, p * q, 4 * k);
}

proof fn lemma_gathered(h: int, w: int, n: int, m: int, x: int, y: int)
    ensures
        (h * n - m * w) * x + (w * n - h * m) * y == h * (n * x - m * y) + w * (n * y - m * x),
{
    assert((h * n - m * w) * x == h * (n * x) - w * (m * x)) by (nonlinear_arith);
    assert((w * n - h * m) * y == w * (n * y) - h * (m * y)) by (nonlinear_arith);
    assert(h * (n * x - m * y) == h * (n * x) - h * (m * y)) by (nonlinear_arith);
    assert(w * (n * y - m * x) == w * (n * y) - w * (m * x)) by (nonlinear_arith);
}

proof fn lemma_exchanged(a: int, b: int, f: int, g: int, s: int, c: int)
    ensures
        a * (f * c + g * s) + b * (f * s + g * c) == f * (a * c + b * s) + g * (a * s + b * c),
{
    assert(a * (f * c + g * s) == a * (f * c) + a * (g * s)) by (nonlinear_arith);
    assert(b * (f * s + g * c) == b * (f * s) + b * (g * c)) by (nonlinear_arith);
    assert(f * (a * c + b * s) == f * (a * c) + f * (b * s)) by (nonlinear_arith);
    assert(g * (a * s + b * c) == g * (a * s) + g * (b * c)) by (nonlinear_arith);
    assert(a * (f * c) == f * (a * c) && b * (f * s) == f * (b * s)) by (nonlinear_arith);
    assert(a * (g * s) == g * (a * s) && b * (g * c) == g * (b * c)) by (nonlinear_arith);
}

/// Both sides bind at the corner `p` by `q`, and hold the product down by the shares `f` and `g`.
proof fn lemma_corner(p: int, q: int, w: int, h: int, s: int, c: int) -> (r: (int, int))
    requires
        0 < h <= w,
        0 <= s,
        0 <= c,
        s != c,
        h * (s * s + c * c) > 2 * (s * c) * w,
        p * (c * c - s * s) == w * c - h * s,
        q * (c * c - s * s) == h * c - w * s,
    ensures
        p * c + q * s == w,
        p * s + q * c == h,
        0 < r.0,
        0 <= r.1,
        0 < p,
        0 < q,
        ({
            let e = (c * c - s * s) * (c * c - s * s);
            &&& 0 < e
            &&& r.0 * c + r.1 * s == q * e
            &&& r.0 * s + r.1 * c == p * e
        }),
{
    let d = c * c - s * s;
    let e = d * d;
    let n = s * s + c * c;
    let m = 2 * (s * c);
    assert(d == (c - s) * (c + s)) by (nonlinear_arith)
        requires
            d == c * c - s * s,
    ;
    assert(d != 0) by {
        if c > s {
            lemma_positive(c - s, c + s);
        } else {
            lemma_positive(s - c, c + s);
            assert((s - c) * (c + s) == -((c - s) * (c + s))) by (nonlinear_arith);
        }
    }
    lemma_square(d);
    let f = h * n - m * w;
    let g = w * n - h * m;
    lemma_square(c - s);
    assert((c - s) * (c - s) == s * s + c * c - 2 * (s * c)) by (nonlinear_arith);
    lemma_not_negative(s, c);
    lemma_square(s);
    lemma_square(c);
    lemma_scaled(m, n, h);
    lemma_scaled(h, w, n);
    assert(n * h == h * n && n * w == w * n) by (nonlinear_arith);
    assert((s * s + c * c) * c - (2 * (s * c)) * s == c * (c * c - s * s)) by (nonlinear_arith);
    assert((s * s + c * c) * s - (2 * (s * c)) * c == -(s * (c * c - s * s))) by (nonlinear_arith);
    lemma_gathered(h, w, n, m, c, s);
    lemma_gathered(h, w, n, m, s, c);
    assert(h * (-(s * d)) == -(h * (s * d)) && w * (-(s * d)) == -(w * (s * d)))
        by (nonlinear_arith);
    assert((h * c - w * s) * d == h * (c * d) - w * (s * d)) by (nonlinear_arith);
    assert((w * c - h * s) * d == w * (c * d) - h * (s * d)) by (nonlinear_arith);
    assert(f * c + g * s == (q * d) * d);
    assert(f * s + g * c == (p * d) * d);
    assert(q * (d * d) == (q * d) * d) by (nonlinear_arith);
    assert(p * (d * d) == (p * d) * d) by (nonlinear_arith);
    assert((p * c + q * s) * (d * d) == ((p * d) * c + (q * d) * s) * d) by (nonlinear_arith);
    assert((p * s + q * c) * (d * d) == ((p * d) * s + (q * d) * c) * d) by (nonlinear_arith);
    assert((w * c - h * s) * c + (h * c - w * s) * s == w * (c * c - s * s)) by (nonlinear_arith);
    assert((w * c - h * s) * s + (h * c - w * s) * c == h * (c * c - s * s)) by (nonlinear_arith);
    assert((w * d) * d == w * (d * d)) by (nonlinear_arith);
    assert((h * d) * d == h * (d * d)) by (nonlinear_arith);
    lemma_cancel(p * c + q * s, w, e);
    lemma_cancel(p * s + q * c, h, e);
    lemma_not_negative(g, s);
    lemma_not_negative(g, c);
    lemma_not_negative(f, s);
    lemma_not_negative(f, c);
    if s == 0 || c == 0 {
        assert(s * c == 0) by (nonlinear_arith)
            requires
                s == 0 || c == 0,
        ;
        assert(0 * w == 0 && h * 0 == 0);
        assert(n > 0);
        lemma_positive(w, n);
        if s == 0 {
            lemma_positive(f, c);
            lemma_positive(g, c);
        } else {
            lemma_positive(f, s);
            lemma_positive(g, s);
        }
    } else {
        lemma_positive(f, c);
        lemma_positive(f, s);
    }
    assert(0 < q * e && 0 < p * e);
    if q <= 0 {
        lemma_not_negative(-q, e);
        assert((-q) * e == -(q * e)) by (nonlinear_arith);
    }
    if p <= 0 {
        lemma_not_negative(-p, e);
        assert((-p) * e == -(p * e)) by (nonlinear_arith);
    }
    (f, g)
}

proof fn lemma_steep_is_largest(
    p: int,
    q: int,
    w: int,
    h: int,
    s: int,
    c: int,
    a: int,
    b: int,
)
    requires
        0 < h <= w,
        0 <= s,
        0 <= c,
        s != c,
        h * (s * s + c * c) > 2 * (s * c) * w,
        p * (c * c - s * s) == w * c - h * s,
        q * (c * c - s * s) == h * c - w * s,
        0 <= a,
        0 <= b,
        lies_within(a, b, w, h, s, c),
    ensures
        lies_within(p, q, w, h, s, c),
        a * b <= p * q,
{
    let (f, g) = lemma_corner(p, q, w, h, s, c);
    let e = (c * c - s * s) * (c * c - s * s);
    lemma_exchanged(a, b, f, g, s, c);
    lemma_exchanged(p, q, f, g, s, c);
    lemma_scaled(a * c + b * s, w, f);
    lemma_scaled(a * s + b * c, h, g);
    assert(a * (q * e) + b * (p * e) == (a * q + b * p) * e) by (nonlinear_arith);
    assert(p * (q * e) + q * (p * e) == (2 * (p * q)) * e) by (nonlinear_arith);
    lemma_cancel(a * q + b * p, 2 * (p * q), e);
    lemma_not_negative(a, q);
    lemma_not_negative(b, p);
    lemma_product_at_most(a * q, b * p, 2 * (p * q));
    lemma_positive(p, q);
    assert((a * q) * (b * p) == (a * b) * (p * q)) by (nonlinear_arith);
    assert((2 * (p * q)) * (2 * (p * q)) == 4 * ((p * q) * (p * q))) by (nonlinear_arith);
    lemma_cancel(a * b, p * q, p * q);
}

proof fn lemma_wide_is_largest(
    p: int,
    q: int,
    w: int,
    h: int,
    s: int,
    c: int,
    a: int,
    b: int,
)
    requires
        0 < h <= w,
        0 <= s,
        0 <= c,
        0 < s + c,
        is_wide_inscribed(p, q, w, h, s, c),
        0 <= a,
        0 <= b,
        lies_within(a, b, w, h, s, c),
    ensures
        lies_within(p, q, w, h, s, c),
        a * b <= p * q,
{
    if is_flat(w, h, s, c) {
        if s == c {
            lemma_square(s);
            lemma_scaled(h, w, 2 * (s * s));
            assert(h * (s * s + s * s) == 2 * (s * s) * h) by (nonlinear_arith);
        } else {
            if s == 0 || c == 0 {
                assert(s * c == 0) by (nonlinear_arith)
                    requires
                        s == 0 || c == 0,
                ;
                lemma_square(s);
                lemma_square(c);
                lemma_positive(h, s * s + c * c);
                assert(0 * w == 0);
            }
        }
        lemma_flat_is_largest(p, q, w, h, s, c, a, b);
    } else {
        lemma_steep_is_largest(p, q, w, h, s, c, a, b);
    }
}

/// The inscribed rectangle lies within the rotated one, and none that does is larger.
pub proof fn law_inscribed_rect_is_largest(
    p: int,
    q: int,
    w: int,
    h: int,
    s: int,
    c: int,
    a: int,
    b: int,
)
    requires
        0 < w,
        0 < h,
        0 <= s,
        0 <= c,
        0 < s + c,
        is_inscribed(p, q, w, h, s, c),
        0 <= a,
        0 <= b,
        lies_within(a, b, w, h, s, c),
    ensures
        lies_within(p, q, w, h, s, c),
        a * b <= p * q,
{
    if w >= h {
        lemma_wide_is_largest(p, q, w, h, s, c, a, b);
    } else {
        lemma_wide_is_largest(q, p, h, w, s, c, b, a);
        assert(a * b == b * a) by (nonlinear_arith);
        assert(p * q == q * p) by (nonlinear_arith);
    }
}

} // verus!
