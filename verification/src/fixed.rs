//! Numbers written with a fixed count of decimals.

use crate::single::{lemma_ulps_form, ulps, Single, HIDDEN, INFINITY, SIGN};
use crate::text::{digit_char, digit_text, digits, long_text};
use vstd::arithmetic::power2::{
    lemma_pow2_adds, lemma_pow2_pos, lemma_pow2_strictly_increases, lemma_pow2_unfold, pow2,
};
use vstd::prelude::*;
use vstd::string::*;

verus! {

/// Ten to the power of a count of decimals, up to three.
pub open spec fn scale_of(places: int) -> int {
    if places <= 0 {
        1
    } else if places == 1 {
        10
    } else if places == 2 {
        100
    } else {
        1000
    }
}

/// The whole number nearest to `n / d`; of two that are equally near, the even one.
pub open spec fn nearest_even(n: int, d: int) -> int {
    let q = n / d;
    let r = n % d;
    if 2 * r < d || (2 * r == d && q % 2 == 0) {
        q
    } else {
        q + 1
    }
}

/// The size of a number in units of its last decimal.
pub open spec fn units_of(x: Single, places: int) -> int {
    nearest_even(ulps(x.magnitude()) * scale_of(places), pow2(149) as int)
}

/// The last `places` decimals of a count of units.
pub open spec fn decimals(n: int, places: int) -> Seq<char>
    decreases places,
{
    if places <= 0 {
        Seq::empty()
    } else {
        decimals(n / 10, places - 1).push(digit_char(n % 10))
    }
}

/// A number as it is written with a fixed count of decimals, up to three.
pub open spec fn fixed(x: Single, places: int) -> Seq<char> {
    let sign = if x.negative() {
        "-"@
    } else {
        Seq::empty()
    };
    if x.is_nan() {
        "NaN"@
    } else if x.infinite() {
        sign + "inf"@
    } else {
        let u = units_of(x, places);
        let whole = sign + digits((u / scale_of(places)) as nat);
        if places <= 0 {
            whole
        } else {
            whole + "."@ + decimals(u % scale_of(places), places)
        }
    }
}

/// Scaling both sides does not change the nearest whole number.
proof fn lemma_scaled(n: int, d: int, s: int)
    requires
        0 <= n,
        0 < d,
        0 < s,
    ensures
        nearest_even(n * s, d * s) == nearest_even(n, d),
{
    let q = n / d;
    let r = n % d;
    vstd::arithmetic::div_mod::lemma_fundamental_div_mod(n, d);
    vstd::arithmetic::div_mod::lemma_mod_bound(n, d);
    assert(n * s == q * (d * s) + r * s) by (nonlinear_arith)
        requires
            n == d * q + r,
    ;
    assert(0 <= r * s < d * s && d * s > 0) by (nonlinear_arith)
        requires
            0 <= r < d,
            0 < s,
    ;
    vstd::arithmetic::div_mod::lemma_fundamental_div_mod_converse(n * s, d * s, q, r * s);
    assert(2 * (r * s) < d * s <==> 2 * r < d) by (nonlinear_arith)
        requires
            0 < s,
    ;
    assert(2 * (r * s) == d * s <==> 2 * r == d) by (nonlinear_arith)
        requires
            0 < s,
    ;
}

/// Two to the power `k`.
fn power(k: u32) -> (r: u64)
    requires
        k <= 40,
    ensures
        r == pow2(k as nat),
{
    let mut r: u64 = 1;
    let mut i: u32 = 0;
    proof {
        vstd::arithmetic::power2::lemma2_to64();
    }
    while i < k
        invariant
            i <= k <= 40,
            r == pow2(i as nat),
        decreases k - i,
    {
        proof {
            lemma_pow2_unfold((i + 1) as nat);
            lemma_pow2_strictly_increases(i as nat, 41);
            lemma_pow2_adds(32, 9);
            vstd::arithmetic::power2::lemma2_to64();
        }
        r = 2 * r;
        i = i + 1;
    }
    r
}

/// A whole number times two to the power `k`.
fn shifted(m: u32, k: u32) -> (r: u128)
    requires
        m < 0x100_0000,
        k <= 104,
    ensures
        r == m * pow2(k as nat),
{
    let mut r: u128 = m as u128;
    let mut i: u32 = 0;
    proof {
        vstd::arithmetic::power2::lemma2_to64();
        assert(m * 1 == m);
    }
    while i < k
        invariant
            i <= k <= 104,
            m < 0x100_0000,
            r == m * pow2(i as nat),
        decreases k - i,
    {
        proof {
            lemma_pow2_unfold((i + 1) as nat);
            let a = pow2(i as nat) as int;
            lemma_top(m as int, i as int);
            assert(m * (2 * a) == 2 * (m * a)) by (nonlinear_arith);
        }
        r = 2 * r;
        i = i + 1;
    }
    r
}

proof fn lemma_top(m: int, i: int)
    requires
        0 <= m < 0x100_0000,
        0 <= i < 104,
    ensures
        2 * (m * pow2(i as nat)) <= 0xffff_ffff_ffff_ffff_ffff_ffff_ffff_ffff,
{
    vstd::arithmetic::power2::lemma2_to64();
    lemma_pow2_adds(64, 32);
    lemma_pow2_adds(96, 7);
    if i < 103 {
        lemma_pow2_strictly_increases(i as nat, 103);
    }
    let a = pow2(i as nat) as int;
    let top = pow2(103) as int;
    assert(top == 0x80_0000_0000_0000_0000_0000_0000);
    lemma_pow2_pos(i as nat);
    assert(m * a <= 0xff_ffff * top) by (nonlinear_arith)
        requires
            0 <= m <= 0xff_ffff,
            0 < a <= top,
    ;
}

/// The whole part of a number's size in units of its last decimal, and the rest.
fn parts_of(x: Single, places: u32) -> (r: (u128, u64))
    requires
        x.magnitude() < INFINITY,
        places <= 3,
    ensures
        r.0 == units_of(x, places as int) / scale_of(places as int),
        r.1 == units_of(x, places as int) % scale_of(places as int),
{
    let scale: u64 = if places == 0 {
        1
    } else if places == 1 {
        10
    } else if places == 2 {
        100
    } else {
        1000
    };
    let m: u32 = x.bits % SIGN;
    let e: u32 = m / HIDDEN;
    let (mant, q): (u32, u32) = if e == 0 {
        (m, 0)
    } else {
        (m % HIDDEN + HIDDEN, e - 1)
    };
    proof {
        assert(q * HIDDEN + mant == m);
        lemma_ulps_form(q as int, mant as int);
        lemma_pow2_pos(149);
        lemma_pow2_pos(q as nat);
    }
    if q >= 149 {
        let w: u128 = shifted(mant, q - 149);
        proof {
            let p = pow2(149) as int;
            let j = pow2((q - 149) as nat) as int;
            lemma_pow2_adds((q - 149) as nat, 149);
            assert((mant * (j * p)) * scale == (w * scale) * p) by (nonlinear_arith)
                requires
                    w == mant * j,
            ;
            assert(w * scale >= 0) by (nonlinear_arith)
                requires
                    w >= 0,
                    scale > 0,
            ;
            lemma_scaled(w * scale, 1, p);
            assert(1 * p == p);
            assert((w * scale) / 1 == w * scale && (w * scale) % 1 == 0);
            vstd::arithmetic::div_mod::lemma_fundamental_div_mod_converse(
                w * scale,
                scale as int,
                w as int,
                0,
            );
        }
        return (w, 0);
    }
    let k: u32 = 149 - q;
    proof {
        assert(mant * scale <= 0xffff_ffff_ffff) by (nonlinear_arith)
            requires
                mant < 0x100_0000,
                scale <= 1000,
        ;
    }
    let n: u64 = mant as u64 * scale;
    proof {
        let a = pow2(q as nat) as int;
        let d = pow2(k as nat) as int;
        lemma_pow2_pos(k as nat);
        lemma_pow2_adds(k as nat, q as nat);
        assert((mant * a) * scale == n * a) by (nonlinear_arith)
            requires
                n == mant * scale,
        ;
        lemma_scaled(n as int, d, a);
        assert(units_of(x, places as int) == nearest_even(n as int, d));
        assert(n <= 0x3_e800_0000) by (nonlinear_arith)
            requires
                n == mant * scale,
                mant < 0x100_0000,
                scale <= 1000,
        ;
    }
    if k > 40 {
        proof {
            let d = pow2(k as nat) as int;
            lemma_pow2_strictly_increases(40, k as nat);
            lemma_pow2_adds(32, 8);
            vstd::arithmetic::power2::lemma2_to64();
            assert(d > 0x100_0000_0000);
            vstd::arithmetic::div_mod::lemma_fundamental_div_mod_converse(n as int, d, 0, n as int);
        }
        return (0, 0);
    }
    let d: u64 = power(k);
    let c: u64 = n / d;
    let r: u64 = n % d;
    proof {
        lemma_pow2_strictly_increases(k as nat, 41);
        lemma_pow2_adds(32, 9);
        vstd::arithmetic::power2::lemma2_to64();
        assert(c <= n) by (nonlinear_arith)
            requires
                c == n / d,
                d >= 1,
        ;
    }
    let u: u64 = if 2 * r < d || (2 * r == d && c % 2 == 0) {
        c
    } else {
        c + 1
    };
    ((u / scale) as u128, u % scale)
}

fn decimals_text(n: u64, places: u32) -> (r: String)
    requires
        places <= 3,
    ensures
        r@ == decimals(n as int, places as int),
    decreases places,
{
    if places == 0 {
        let r: String = "".to_string();
        proof {
            reveal_strlit("");
        }
        assert(r@ =~= decimals(n as int, 0));
        return r;
    }
    let mut s: String = decimals_text(n / 10, places - 1);
    s.append(digit_text((n % 10) as usize));
    assert(s@ =~= decimals(n as int, places as int));
    s
}

/// Writes a number with a fixed count of decimals: rounded to the nearest, and of two that are
/// equally near to the even one.
pub fn fixed_text(x: Single, places: u32) -> (r: String)
    requires
        places <= 3,
    ensures
        r@ == fixed(x, places as int),
{
    proof {
        reveal_strlit("");
    }
    if x.is_nan() {
        return "NaN".to_string();
    }
    let mut s: String = if x.bits >= SIGN {
        "-".to_string()
    } else {
        "".to_string()
    };
    assert(s@ =~= if x.negative() {
        "-"@
    } else {
        Seq::empty()
    });
    if x.bits % SIGN == INFINITY {
        s.append("inf");
        return s;
    }
    let (whole, rest): (u128, u64) = parts_of(x, places);
    s.append(long_text(whole).as_str());
    if places > 0 {
        s.append(".");
        s.append(decimals_text(rest, places).as_str());
    }
    s
}

/// Writes a number between two texts.
pub fn worded(head: &str, x: Single, places: u32, tail: &str) -> (r: String)
    requires
        places <= 3,
    ensures
        r@ == head@ + fixed(x, places as int) + tail@,
{
    let mut s: String = head.to_string();
    s.append(fixed_text(x, places).as_str());
    s.append(tail);
    s
}

/// What is written with decimals has at least one digit before them, and the decimals.
pub proof fn law_fixed_has_all_decimals(x: Single, places: int)
    requires
        x.magnitude() < INFINITY,
        1 <= places <= 3,
    ensures
        ({
            let t = fixed(x, places);
            &&& t.len() >= places + 2
            &&& t[t.len() - places - 1] == '.'
        }),
{
    reveal_strlit(".");
    let u = units_of(x, places);
    lemma_decimals_len(u % scale_of(places), places);
    assert(digits((u / scale_of(places)) as nat).len() >= 1);
}

proof fn lemma_decimals_len(n: int, places: int)
    requires
        0 <= places,
    ensures
        decimals(n, places).len() == places,
    decreases places,
{
    if places > 0 {
        lemma_decimals_len(n / 10, places - 1);
    }
}

} // verus!
