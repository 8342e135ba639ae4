//! One colour as lightness, chroma and hue.

use crate::single::{law_one_is_neutral, law_product_commutes, law_products_keep_order};
use crate::single::{law_small_differences_are_exact, law_sums_keep_order, law_zero_is_neutral};
use crate::single::{lemma_any_zero_times_is_zero, lemma_no_integer};
use crate::single::{lemma_one, lemma_two_and_three, lemma_within_one_turn};
use crate::single::{
    law_small_integers_are_whole, lemma_small_whole_part, num, Single,
};
use vstd::prelude::*;

verus! {

/// Lightness 0 to 1, chroma, and hue in degrees.
#[derive(Clone, Copy, Debug, PartialEq, Eq, Structural)]
pub struct Lch {
    pub l: Single,
    pub c: Single,
    pub h: Single,
}

pub open spec fn spec_wrap_degrees(h: Single) -> Single {
    h.rem_euclid(num(0x43b4_0000))  // 360
}

/// A hue turned into the range from 0 to 360 degrees.
#[verifier::when_used_as_spec(spec_wrap_degrees)]
pub fn wrap_degrees(h: Single) -> (r: Single)
    ensures
        r == spec_wrap_degrees(h),
{
    h.rem_euclid(num(0x43b4_0000))  // 360
}

pub open spec fn spec_shorter_way(d: Single) -> Single {
    if d.gt(num(0x4334_0000)) {  // 180
        d.minus(num(0x43b4_0000))  // 360
    } else if d.lt(num(0xc334_0000)) {  // -180
        d.plus(num(0x43b4_0000))  // 360
    } else {
        d
    }
}

/// A difference of hues taken the shorter way round, for differences within one turn.
#[verifier::when_used_as_spec(spec_shorter_way)]
pub fn shorter_way(d: Single) -> (r: Single)
    ensures
        r == spec_shorter_way(d),
{
    if d.gt(num(0x4334_0000)) {  // 180
        d.minus(num(0x43b4_0000))  // 360
    } else if d.lt(num(0xc334_0000)) {  // -180
        d.plus(num(0x43b4_0000))  // 360
    } else {
        d
    }
}

pub open spec fn spec_hue_distance(a: Single, b: Single) -> Single {
    a.minus(b).abs().min(num(0x43b4_0000).minus(a.minus(b).abs()))  // 360
}

/// Distance of two hues on the circle.
#[verifier::when_used_as_spec(spec_hue_distance)]
pub fn hue_distance(a: Single, b: Single) -> (r: Single)
    ensures
        r == spec_hue_distance(a, b),
{
    a.minus(b).abs().min(num(0x43b4_0000).minus(a.minus(b).abs()))  // 360
}

pub open spec fn spec_smoothstep(edge0: Single, edge1: Single, x: Single) -> Single {
    let t: Single = x.minus(edge0).over(edge1.minus(edge0)).clamp(num(0), num(0x3f80_0000));  // 1
    t.times(t).times(num(0x4040_0000).minus(num(0x4000_0000).times(t)))  // 3, 2
}

/// Zero below the first edge, one above the second, and smooth between.
#[verifier::when_used_as_spec(spec_smoothstep)]
pub fn smoothstep(edge0: Single, edge1: Single, x: Single) -> (r: Single)
    ensures
        r == spec_smoothstep(edge0, edge1, x),
{
    let t: Single = x.minus(edge0).over(edge1.minus(edge0)).clamp(num(0), num(0x3f80_0000));  // 1
    t.times(t).times(num(0x4040_0000).minus(num(0x4000_0000).times(t)))  // 3, 2
}

/// A smooth step is never negative and at most three.
pub proof fn lemma_smoothstep_is_bounded(edge0: Single, edge1: Single, x: Single)
    requires
        !x.minus(edge0).over(edge1.minus(edge0)).is_nan(),
    ensures
        num(0).le(smoothstep(edge0, edge1, x)),
        smoothstep(edge0, edge1, x).le(num(0x4040_0000)),
{
    let one = num(0x3f80_0000);
    let two = num(0x4000_0000);
    let three = num(0x4040_0000);
    let t = x.minus(edge0).over(edge1.minus(edge0)).clamp(num(0), one);
    law_products_keep_order(t, one, t);
    law_one_is_neutral(t);
    let tt = t.times(t);
    law_products_keep_order(t, one, two);
    law_product_commutes(two, t);
    law_one_is_neutral(two);
    let d = two.times(t);
    lemma_one();
    lemma_two_and_three();
    law_small_differences_are_exact(3, 2);
    law_sums_keep_order(two.negated(), d.negated(), three);
    law_sums_keep_order(d.negated(), num(0), three);
    law_zero_is_neutral(three, num(0));
    let u = three.minus(d);
    law_products_keep_order(tt, one, u);
    law_one_is_neutral(u);
}

pub open spec fn spec_of_byte(b: u8) -> Single {
    Single::spec_from_int(b as int)
}

/// A byte as a number.
#[verifier::when_used_as_spec(spec_of_byte)]
pub fn of_byte(b: u8) -> (r: Single)
    ensures
        r == spec_of_byte(b),
{
    Single::from_int(b as i128)
}

pub open spec fn spec_floor(x: Single) -> Single {
    let t = Single::spec_from_int(x.truncated(i64::MIN as int, i64::MAX as int));
    if x.is_nan() || x.same(num(0)) || x.abs().ge(num(0x4b00_0000)) {  // 8388608
        x
    } else if t.gt(x) {
        t.minus(num(0x3f80_0000))  // 1
    } else {
        t
    }
}

/// The largest whole number that is not above a number.
#[verifier::when_used_as_spec(spec_floor)]
pub fn floor(x: Single) -> (r: Single)
    ensures
        r == spec_floor(x),
{
    let t: Single = Single::from_int(x.to_i64() as i128);
    if x.is_nan() || x.same(num(0)) || x.abs().ge(num(0x4b00_0000)) {  // 8388608
        x
    } else if t.gt(x) {
        t.minus(num(0x3f80_0000))  // 1
    } else {
        t
    }
}

pub open spec fn spec_positive_degrees(h: Single) -> Single {
    let n: Single = h.minus(floor(h.over(num(0x43b4_0000))).times(num(0x43b4_0000)));  // 360, 360
    if (!n.same(num(0)) && n.abs().lt(num(0x0080_0000))) || n.ge(num(0x43b4_0000)) {  // 360
        num(0)
    } else {
        n
    }
}

/// A hue from 0 up to but not 360 degrees. What is too small for a normal number counts as 0.
#[verifier::when_used_as_spec(spec_positive_degrees)]
pub fn positive_degrees(h: Single) -> (r: Single)
    ensures
        r == spec_positive_degrees(h),
{
    let n: Single = h.minus(floor(h.over(num(0x43b4_0000))).times(num(0x43b4_0000)));  // 360, 360
    if (!n.same(num(0)) && n.abs().lt(num(0x0080_0000))) || n.ge(num(0x43b4_0000)) {  // 360
        num(0)
    } else {
        n
    }
}

/// The whole part of a number that is not negative is that of its floor.
pub proof fn law_floor_keeps_whole_part(x: Single, lo: int, hi: int)
    requires
        x.is_nan() || x.ge(num(0)),
        lo <= 0,
        0x80_0000 <= hi,
    ensures
        floor(x).truncated(lo, hi) == x.truncated(lo, hi),
{
    let k = x.truncated(i64::MIN as int, i64::MAX as int);
    if !(x.is_nan() || x.same(num(0)) || x.abs().ge(num(0x4b00_0000))) {  // 8388608
        lemma_small_whole_part(x);
        law_small_integers_are_whole(k, lo, hi);
        assert(!Single::spec_from_int(k).gt(x));
    }
}

/// A hue that was made positive is never 360 or more.
pub proof fn law_positive_hue_is_below_a_turn(h: Single)
    ensures
        !positive_degrees(h).ge(num(0x43b4_0000)),
{
}

/// A hue that is already from 0 up to 360 degrees stays as it is.
pub proof fn law_turned_hue_stays(h: Single)
    requires
        num(0).le(h),
        h.lt(num(0x43b4_0000)),  // 360
        h.same(num(0)) || h.ge(num(0x0080_0000)),
    ensures
        positive_degrees(h).same(h),
        wrap_degrees(h) == h,
        !h.same(num(0)) ==> positive_degrees(h) == h,
{
    let full = num(0x43b4_0000);  // 360
    lemma_within_one_turn(h);
    lemma_no_integer();
    let q = h.over(full);
    let turns = floor(q);
    assert(turns.same(num(0)));
    lemma_any_zero_times_is_zero(turns, full);
    let none = turns.times(full);
    law_zero_is_neutral(h, none.negated());
}

} // verus!
