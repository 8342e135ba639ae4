//! Bytes of a picture and amounts of light.

use crate::lch::of_byte;
use crate::single::{num, Single};
use vstd::prelude::*;

verus! {

pub open spec fn spec_share_of(b: u8) -> Single {
    of_byte(b).over(num(0x437f_0000))  // 255
}

/// A byte as a share of white.
#[verifier::when_used_as_spec(spec_share_of)]
pub fn share_of(b: u8) -> (r: Single)
    ensures
        r == spec_share_of(b),
{
    of_byte(b).over(num(0x437f_0000))  // 255
}

pub open spec fn spec_light_base(b: u8) -> Option<Single> {
    let c: Single = share_of(b);
    if c.le(num(0x3d25_aee6)) {  // 0.04045
        None
    } else {
        Some(c.plus(num(0x3d61_47ae)).over(num(0x3f87_0a3d)))  // 0.055, 1.055
    }
}

/// What is raised to the power 2.4 for the light of a byte; nothing where it is so dark that its
/// light is in proportion.
#[verifier::when_used_as_spec(spec_light_base)]
pub fn light_base(b: u8) -> (r: Option<Single>)
    ensures
        r == spec_light_base(b),
{
    let c: Single = share_of(b);
    if c.le(num(0x3d25_aee6)) {  // 0.04045
        None
    } else {
        Some(c.plus(num(0x3d61_47ae)).over(num(0x3f87_0a3d)))  // 0.055, 1.055
    }
}

pub open spec fn spec_srgb_to_linear(b: u8, power: Single) -> Single {
    let c: Single = share_of(b);
    if c.le(num(0x3d25_aee6)) {  // 0.04045
        c.over(num(0x414e_b852))  // 12.92
    } else {
        power
    }
}

/// The light of a byte, 0 to 1. `power` is the base raised to the power 2.4.
#[verifier::when_used_as_spec(spec_srgb_to_linear)]
pub fn srgb_to_linear(b: u8, power: Single) -> (r: Single)
    ensures
        r == spec_srgb_to_linear(b, power),
{
    let c: Single = share_of(b);
    if c.le(num(0x3d25_aee6)) {  // 0.04045
        c.over(num(0x414e_b852))  // 12.92
    } else {
        power
    }
}

pub open spec fn spec_needs_root(l: Single) -> bool {
    !l.le(num(0x3b4d_2e1c))  // 0.0031308
}

/// The light needs a root, 1 over 2.4, to become a byte.
#[verifier::when_used_as_spec(spec_needs_root)]
pub fn needs_root(l: Single) -> (r: bool)
    ensures
        r == spec_needs_root(l),
{
    !l.le(num(0x3b4d_2e1c))  // 0.0031308
}

pub open spec fn spec_encoded(l: Single, root: Single) -> Single {
    if l.le(num(0x3b4d_2e1c)) {  // 0.0031308
        l.times(num(0x414e_b852))  // 12.92
    } else {
        num(0x3f87_0a3d).times(root).minus(num(0x3d61_47ae))  // 1.055, 0.055
    }
}

/// The share of white of an amount of light. `root` is its power of 1 over 2.4.
#[verifier::when_used_as_spec(spec_encoded)]
pub fn encoded(l: Single, root: Single) -> (r: Single)
    ensures
        r == spec_encoded(l, root),
{
    if l.le(num(0x3b4d_2e1c)) {  // 0.0031308
        l.times(num(0x414e_b852))  // 12.92
    } else {
        num(0x3f87_0a3d).times(root).minus(num(0x3d61_47ae))  // 1.055, 0.055
    }
}

/// The byte of an amount of light.
pub open spec fn light_byte(l: Single, root: Single) -> int {
    // 1, 255
    encoded(l, root).clamp(num(0), num(0x3f80_0000)).times(num(0x437f_0000)).round().truncated(0, 255)
}

/// The byte of an amount of light. `root` is its power of 1 over 2.4.
pub fn linear_to_srgb(l: Single, root: Single) -> (r: u8)
    ensures
        r == light_byte(l, root),
{
    // 1, 255
    encoded(l, root).clamp(num(0), num(0x3f80_0000)).times(num(0x437f_0000)).round().to_u8()
}

/// A byte needs its power exactly where its light is not in proportion, and else its light does
/// not depend on the power.
pub proof fn law_dark_bytes_need_no_power(b: u8, p: Single, q: Single)
    ensures
        light_base(b) is None ==> srgb_to_linear(b, p) == srgb_to_linear(b, q),
        light_base(b) is Some ==> srgb_to_linear(b, p) == p,
{
}

} // verus!
