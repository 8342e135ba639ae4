//! Single-precision numbers against the machine's own.

use retouch::single::{num, Single};

fn s(x: f32) -> Single {
    Single { bits: x.to_bits() }
}

fn f(x: Single) -> f32 {
    f32::from_bits(x.bits)
}

fn same(a: Single, b: f32) -> bool {
    if b.is_nan() {
        a.is_nan()
    } else {
        a.bits == b.to_bits()
    }
}

/// Patterns of every kind: zeros, subnormals, ordinary numbers, infinities, not a number.
fn patterns() -> Vec<f32> {
    let mut v: Vec<f32> = vec![
        0.0, -0.0, 1.0, -1.0, 0.5, -0.5, 1.5, 2.5, -2.5, 0.1, 0.2, 0.3, 255.0, 254.5, 127.49999,
        360.0, -360.0, 180.0, 1e-45, -1e-45, 1e-40, 1.17549435e-38, 3.4028235e38, -3.4028235e38,
        16777216.0, 16777215.0, 8388608.0, 8388607.5, 4294967295.0, 2147483648.0, -2147483648.0,
        1e10, -1e10, 1e-10, 0.33333334, 0.6666667, f32::INFINITY, f32::NEG_INFINITY, f32::NAN,
    ];
    let mut seed: u32 = 0x1234_5678;
    for _ in 0..60 {
        seed = seed.wrapping_mul(1664525).wrapping_add(1013904223);
        v.push(f32::from_bits(seed));
    }
    for _ in 0..60 {
        seed = seed.wrapping_mul(1664525).wrapping_add(1013904223);
        v.push((seed >> 8) as f32 / 65536.0 - 128.0);
    }
    v
}

#[test]
fn arithmetic_is_that_of_the_machine() {
    let v = patterns();
    for &a in &v {
        for &b in &v {
            assert!(same(s(a).plus(s(b)), a + b), "{} + {}", a, b);
            assert!(same(s(a).minus(s(b)), a - b), "{} - {}", a, b);
            assert!(same(s(a).times(s(b)), a * b), "{} * {}", a, b);
            assert!(same(s(a).over(s(b)), a / b), "{} / {}", a, b);
            assert!(same(s(a).rem(s(b)), a % b), "{} % {}", a, b);
        }
        assert!(same(s(a).sqrt(), a.sqrt()), "root of {}", a);
        assert!(same(s(a).round(), a.round()), "round {}", a);
        assert!(same(s(a).abs(), a.abs()));
        assert!(same(s(a).negated(), -a));
    }
}

#[test]
fn order_is_that_of_the_machine() {
    let v = patterns();
    for &a in &v {
        for &b in &v {
            assert_eq!(s(a).lt(s(b)), a < b);
            assert_eq!(s(a).le(s(b)), a <= b);
            assert_eq!(s(a).gt(s(b)), a > b);
            assert_eq!(s(a).ge(s(b)), a >= b);
            assert_eq!(s(a).same(s(b)), a == b);
            if a != b {
                assert!(same(s(a).min(s(b)), a.min(b)), "min {} {}", a, b);
                assert!(same(s(a).max(s(b)), a.max(b)), "max {} {}", a, b);
            }
        }
        assert!(same(s(a).clamp(s(0.0), s(1.0)), a.clamp(0.0, 1.0)));
        assert_eq!(s(a).is_nan(), a.is_nan());
    }
}

#[test]
fn casts_are_those_of_the_machine() {
    for &a in &patterns() {
        assert_eq!(s(a).to_u8(), a as u8);
        assert_eq!(s(a).to_u32(), a as u32);
        assert_eq!(s(a).to_i32(), a as i32);
        assert_eq!(s(a).to_i64(), a as i64);
        assert_eq!(s(a).ceil_u32(), a.ceil() as u32);
        assert_eq!(s(a).round_u32(), a.round() as u32);
        assert_eq!(s(a).round_i64(), a.round() as i64);
    }
    for n in [0i128, 1, -1, 255, 16777217, -16777219, 4294967295, 1 << 40, -(1 << 62)] {
        assert_eq!(Single::from_int(n).bits, (n as f32).to_bits(), "{}", n);
    }
}

#[test]
fn remainders_of_turns() {
    for &a in &patterns() {
        let want: f32 = a.rem_euclid(360.0);
        assert!(same(s(a).rem_euclid(num(0x43b4_0000)), want), "{}", a);
    }
    assert_eq!(f(s(-30.0).rem_euclid(s(360.0))), 330.0);
    assert_eq!(f(s(725.0).rem_euclid(s(360.0))), 5.0);
}

#[test]
fn doubles_are_narrowed_like_the_machine_does() {
    let mut seed: u64 = 0x9e37_79b9_7f4a_7c15;
    for k in 0..4000u64 {
        seed = seed.wrapping_mul(6364136223846793005).wrapping_add(1442695040888963407);
        let d: f64 = if k % 2 == 0 {
            f64::from_bits(seed)
        } else {
            (seed >> 11) as f64 / 1e12 - 4000.0
        };
        assert!(same(Single::from_double(d.to_bits()), d as f32), "{}", d);
    }
    for d in [0.0f64, -0.0, 1.0, 0.1, 1e300, -1e300, 1e-300, 1e-44, f64::INFINITY, f64::NAN] {
        assert!(same(Single::from_double(d.to_bits()), d as f32), "{}", d);
    }
}

#[test]
fn neutral_numbers_on_values() {
    let x: Single = s(0.37);
    assert_eq!(x.times(s(1.0)), x);
    assert_eq!(s(1.0).times(x), x);
    assert!(x.times(s(0.0)).same(s(0.0)));
    assert_eq!(x.plus(s(-0.0)), x);
    assert_eq!(x.plus(s(0.0)), x);
    assert_eq!(s(3.0).plus(s(4.0)), Single::from_int(7));
    assert_eq!(s(9.0).minus(s(4.0)), Single::from_int(5));
}

#[test]
fn order_survives_sums_and_products() {
    let v: Vec<f32> = patterns().into_iter().filter(|a| a.is_finite()).collect();
    for &a in &v {
        for &b in &v {
            if a <= b {
                for x in [0.0f32, 0.3, 7.25, -12.5] {
                    assert!(s(a).plus(s(x)).le(s(b).plus(s(x))));
                    if a >= 0.0 && x >= 0.0 {
                        assert!(s(a).times(s(x)).le(s(b).times(s(x))));
                    }
                }
                assert!(s(a).to_i32() <= s(b).to_i32());
            }
        }
    }
}

/// Division by a positive number keeps the order, a number over itself is one, and products
/// commute.
#[test]
fn quotients_and_products_on_values() {
    let list: Vec<f32> = patterns().into_iter().filter(|x| x.is_finite()).collect();
    for a in &list {
        for b in &list {
            assert_eq!(s(*a).times(s(*b)), s(*b).times(s(*a)));
            for x in [0.25f32, 3.0, 360.0] {
                if *a >= 0.0 && a <= b {
                    assert!(f(s(*a).over(s(x))) <= f(s(*b).over(s(x))));
                }
            }
        }
        if *a != 0.0 {
            assert_eq!(s(*a).over(s(*a)), num(0x3f80_0000));
        }
    }
}

/// Hues from 0 up to 360 degrees stay as they are.
#[test]
fn turned_hues_stay() {
    for h in [0.0f32, 1e-30, 0.5, 45.0, 180.0, 359.0, 359.99997] {
        assert_eq!(retouch::lch::positive_degrees(s(h)), s(h));
        assert_eq!(retouch::lch::wrap_degrees(s(h)), s(h));
    }
    assert_eq!(retouch::lch::positive_degrees(s(-40.0)), s(320.0));
}
