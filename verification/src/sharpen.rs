//! Sharpening of the lightness that adapts to the scene.

use crate::analyze::how_many;
use crate::poisson::held;
use crate::raster::{lemma_pixel_in_range, lemma_pixel_place};
use crate::single::{
    law_zero_is_neutral, law_zero_times_is_zero, num, Single, INFINITY,
};
use crate::spatial::{gaussian_blur_f32, plane_blurred};
use vstd::prelude::*;

verus! {

/// What a picture mostly shows.
#[derive(Clone, Copy, Debug, PartialEq, Eq, Structural)]
pub enum SceneKind {
    /// People.
    Portrait,
    /// Sky, plants, texture.
    Landscape,
    /// Large flat areas.
    Clean,
    /// Anything else.
    General,
}

/// The kind of a scene and the shares that it was told by.
#[derive(Clone, Copy, Debug, PartialEq, Eq, Structural)]
pub struct SceneProfile {
    pub kind: SceneKind,
    pub skin_ratio: Single,
    pub sky_ratio: Single,
    pub green_ratio: Single,
    pub flat_ratio: Single,
}

/// How a kind of scene is sharpened.
#[derive(Clone, Copy, Debug, PartialEq, Eq, Structural)]
pub struct SharpenRecipe {
    /// Overall strength, 0 to 1.
    pub base_gain: Single,
    /// Gain of strong edges.
    pub edge_boost: Single,
    /// How much less is done near black and white, 0 to 1.
    pub luma_protect: Single,
    /// How much less is done on skin, 0 to 1.
    pub skin_protect: Single,
    /// Radius of the weaker smoothing.
    pub radius_small: u32,
    /// Radius of the stronger smoothing.
    pub radius_large: u32,
}

impl SceneKind {
    pub open spec fn spec_recipe(self) -> SharpenRecipe {
        match self {
            SceneKind::Portrait => SharpenRecipe {
                base_gain: num(0x3f00_0000),  // 0.5
                edge_boost: num(0x3f33_3333),  // 0.7
                luma_protect: num(0x3f0c_cccd),  // 0.55
                skin_protect: num(0x3f40_0000),  // 0.75
                radius_small: 1,
                radius_large: 3,
            },
            SceneKind::Landscape => SharpenRecipe {
                base_gain: num(0x3f40_0000),  // 0.75
                edge_boost: num(0x3f73_3333),  // 0.95
                luma_protect: num(0x3eb3_3333),  // 0.35
                skin_protect: num(0),
                radius_small: 1,
                radius_large: 4,
            },
            SceneKind::Clean => SharpenRecipe {
                base_gain: num(0x3e99_999a),  // 0.3
                edge_boost: num(0x3ee6_6666),  // 0.45
                luma_protect: num(0x3f33_3333),  // 0.7
                skin_protect: num(0),
                radius_small: 1,
                radius_large: 2,
            },
            SceneKind::General => SharpenRecipe {
                base_gain: num(0x3f26_6666),  // 0.65
                edge_boost: num(0x3f59_999a),  // 0.85
                luma_protect: num(0x3ee6_6666),  // 0.45
                skin_protect: num(0),
                radius_small: 1,
                radius_large: 3,
            },
        }
    }

    /// How this kind of scene is sharpened.
    #[verifier::when_used_as_spec(spec_recipe)]
    pub fn recipe(self) -> (r: SharpenRecipe)
        ensures
            r == self.spec_recipe(),
    {
        match self {
            SceneKind::Portrait => SharpenRecipe {
                base_gain: num(0x3f00_0000),  // 0.5
                edge_boost: num(0x3f33_3333),  // 0.7
                luma_protect: num(0x3f0c_cccd),  // 0.55
                skin_protect: num(0x3f40_0000),  // 0.75
                radius_small: 1,
                radius_large: 3,
            },
            SceneKind::Landscape => SharpenRecipe {
                base_gain: num(0x3f40_0000),  // 0.75
                edge_boost: num(0x3f73_3333),  // 0.95
                luma_protect: num(0x3eb3_3333),  // 0.35
                skin_protect: num(0),
                radius_small: 1,
                radius_large: 4,
            },
            SceneKind::Clean => SharpenRecipe {
                base_gain: num(0x3e99_999a),  // 0.3
                edge_boost: num(0x3ee6_6666),  // 0.45
                luma_protect: num(0x3f33_3333),  // 0.7
                skin_protect: num(0),
                radius_small: 1,
                radius_large: 2,
            },
            SceneKind::General => SharpenRecipe {
                base_gain: num(0x3f26_6666),  // 0.65
                edge_boost: num(0x3f59_999a),  // 0.85
                luma_protect: num(0x3ee6_6666),  // 0.45
                skin_protect: num(0),
                radius_small: 1,
                radius_large: 3,
            },
        }
    }
}

/// Lightness, chroma and angle in radians of a sampled pixel.
#[derive(Clone, Copy, Debug, PartialEq, Eq, Structural)]
pub struct Tint {
    pub l: Single,
    pub c: Single,
    pub angle: Single,
}

pub open spec fn spec_degrees(angle: Single) -> Single {
    angle.times(num(0x4265_2ee1)).rem_euclid(num(0x43b4_0000))  // 57.29577951308232, 360
}

/// An angle in degrees, 0 to 360.
#[verifier::when_used_as_spec(spec_degrees)]
pub fn degrees(angle: Single) -> (r: Single)
    ensures
        r == spec_degrees(angle),
{
    angle.times(num(0x4265_2ee1)).rem_euclid(num(0x43b4_0000))  // 57.29577951308232, 360
}

pub open spec fn spec_is_skin(p: &Tint) -> bool {
    let h: Single = degrees(p.angle);
    // 10, 75, 0.03, 0.25, 0.35, 0.85
    num(0x4120_0000).le(h) && h.lt(num(0x4296_0000)) && p.c.gt(num(0x3cf5_c28f))
        && p.c.lt(num(0x3e80_0000)) && num(0x3eb3_3333).le(p.l) && p.l.lt(num(0x3f59_999a))
}

/// The colour of skin: warm, of low to middle chroma, of middle lightness.
#[verifier::when_used_as_spec(spec_is_skin)]
pub fn is_skin(p: &Tint) -> (r: bool)
    ensures
        r == spec_is_skin(p),
{
    let h: Single = degrees(p.angle);
    // 10, 75, 0.03, 0.25, 0.35, 0.85
    num(0x4120_0000).le(h) && h.lt(num(0x4296_0000)) && p.c.gt(num(0x3cf5_c28f))
        && p.c.lt(num(0x3e80_0000)) && num(0x3eb3_3333).le(p.l) && p.l.lt(num(0x3f59_999a))
}

pub open spec fn spec_is_sky(p: &Tint) -> bool {
    let h: Single = degrees(p.angle);
    // 170, 260, 0.05, 0.15
    num(0x432a_0000).le(h) && h.lt(num(0x4382_0000)) && p.c.gt(num(0x3d4c_cccd))
        && p.l.gt(num(0x3e19_999a))
}

/// The colour of the sky: blue or cyan, not too dark.
#[verifier::when_used_as_spec(spec_is_sky)]
pub fn is_sky(p: &Tint) -> (r: bool)
    ensures
        r == spec_is_sky(p),
{
    let h: Single = degrees(p.angle);
    // 170, 260, 0.05, 0.15
    num(0x432a_0000).le(h) && h.lt(num(0x4382_0000)) && p.c.gt(num(0x3d4c_cccd))
        && p.l.gt(num(0x3e19_999a))
}

pub open spec fn spec_is_green(p: &Tint) -> bool {
    let h: Single = degrees(p.angle);
    // 90, 160, 0.05, 0.1
    num(0x42b4_0000).le(h) && h.lt(num(0x4320_0000)) && p.c.gt(num(0x3d4c_cccd))
        && p.l.gt(num(0x3dcc_cccd))
}

/// The colour of plants.
#[verifier::when_used_as_spec(spec_is_green)]
pub fn is_green(p: &Tint) -> (r: bool)
    ensures
        r == spec_is_green(p),
{
    let h: Single = degrees(p.angle);
    // 90, 160, 0.05, 0.1
    num(0x42b4_0000).le(h) && h.lt(num(0x4320_0000)) && p.c.gt(num(0x3d4c_cccd))
        && p.l.gt(num(0x3dcc_cccd))
}

/// The value beside a place: neighbour `t` of nine, row by row, held inside the plane.
pub open spec fn neighbour(buf: Seq<Single>, w: int, h: int, x: int, y: int, t: int) -> Single {
    buf[held(y + t / 3 - 1, h) * w + held(x + t % 3 - 1, w)]
}

/// The sum of the first `k` values beside a place.
pub open spec fn near_sum(buf: Seq<Single>, w: int, h: int, x: int, y: int, k: int) -> Single
    decreases k,
{
    if k <= 0 {
        num(0)
    } else {
        near_sum(buf, w, h, x, y, k - 1).plus(neighbour(buf, w, h, x, y, k - 1))
    }
}

/// The sum of the squares of the first `k` values beside a place.
pub open spec fn near_squares(buf: Seq<Single>, w: int, h: int, x: int, y: int, k: int) -> Single
    decreases k,
{
    if k <= 0 {
        num(0)
    } else {
        let v = neighbour(buf, w, h, x, y, k - 1);
        near_squares(buf, w, h, x, y, k - 1).plus(v.times(v))
    }
}

pub open spec fn spec_spread_of(sum: Single, squares: Single) -> Single {
    let mean: Single = sum.over(num(0x4110_0000));  // 9
    squares.over(num(0x4110_0000)).minus(mean.times(mean)).max(num(0)).sqrt()  // 9
}

/// The spread of nine values from their sum and the sum of their squares.
#[verifier::when_used_as_spec(spec_spread_of)]
pub fn spread_of(sum: Single, squares: Single) -> (r: Single)
    ensures
        r == spec_spread_of(sum, squares),
{
    let mean: Single = sum.over(num(0x4110_0000));  // 9
    squares.over(num(0x4110_0000)).minus(mean.times(mean)).max(num(0)).sqrt()  // 9
}

/// The spread around each place of a plane.
pub open spec fn spreads(buf: Seq<Single>, w: int, h: int) -> Seq<Single> {
    Seq::new(
        (w * h) as nat,
        |p: int|
            spread_of(
                near_sum(buf, w, h, p % w, p / w, 9),
                near_squares(buf, w, h, p % w, p / w, 9),
            ),
    )
}

fn hold(i: i64, n: usize) -> (r: usize)
    requires
        0 < n <= 0xffff_ffff,
    ensures
        r == held(i as int, n as int),
        r < n,
{
    if i < 0 {
        0
    } else if i >= n as i64 {
        n - 1
    } else {
        i as usize
    }
}

fn spread_at(buf: &Vec<Single>, w: usize, h: usize, x: usize, y: usize) -> (r: Single)
    requires
        0 < w <= 0xffff_ffff,
        0 < h <= 0xffff_ffff,
        buf@.len() == w * h,
        x < w,
        y < h,
    ensures
        r == spread_of(
            near_sum(buf@, w as int, h as int, x as int, y as int, 9),
            near_squares(buf@, w as int, h as int, x as int, y as int, 9),
        ),
{
    let mut sum: Single = num(0);
    let mut squares: Single = num(0);
    let mut t: usize = 0;
    let size: usize = buf.len();
    while t < 9
        invariant
            t <= 9,
            0 < w <= 0xffff_ffff,
            0 < h <= 0xffff_ffff,
            size == w * h,
            buf@.len() == size,
            x < w,
            y < h,
            sum == near_sum(buf@, w as int, h as int, x as int, y as int, t as int),
            squares == near_squares(buf@, w as int, h as int, x as int, y as int, t as int),
        decreases 9 - t,
    {
        let ny: usize = hold(y as i64 + (t / 3) as i64 - 1, h);
        let nx: usize = hold(x as i64 + (t % 3) as i64 - 1, w);
        proof {
            lemma_pixel_in_range(w as int, h as int, nx as int, ny as int);
            assert(0 <= ny * w) by (nonlinear_arith);
        }
        let v: Single = buf[ny * w + nx];
        sum = sum.plus(v);
        squares = squares.plus(v.times(v));
        t = t + 1;
    }
    spread_of(sum, squares)
}

/// The spread around each place of a plane: the standard deviation of the nine values there.
pub fn local_std_dev(buf: &Vec<Single>, w: usize, h: usize) -> (r: Vec<Single>)
    requires
        0 < w <= 0xffff_ffff,
        0 < h <= 0xffff_ffff,
        buf@.len() == w * h,
    ensures
        r@ == spreads(buf@, w as int, h as int),
        r@.len() == w * h,
{
    let n: usize = buf.len();
    let mut r: Vec<Single> = Vec::new();
    let mut p: usize = 0;
    while p < n
        invariant
            p <= n,
            0 < w <= 0xffff_ffff,
            0 < h <= 0xffff_ffff,
            n == w * h,
            buf@.len() == n,
            r@.len() == p,
            forall|j: int| 0 <= j < p ==> #[trigger] r@[j] == spreads(buf@, w as int, h as int)[j],
        decreases n - p,
    {
        proof {
            lemma_pixel_place(w as int, h as int, p as int);
        }
        r.push(spread_at(buf, w, h, p % w, p / w));
        p = p + 1;
    }
    assert(r@ =~= spreads(buf@, w as int, h as int));
    r
}

/// A share of a whole.
pub open spec fn share(part: nat, whole: nat) -> Single {
    Single::spec_from_int(part as int).over(Single::spec_from_int(whole as int))
}

pub open spec fn spec_kind_of(skin: Single, sky: Single, green: Single, flat: Single) -> SceneKind {
    if skin.gt(num(0x3df5_c28f)) {  // 0.12
        SceneKind::Portrait
    } else if sky.plus(green).gt(num(0x3e80_0000)) {  // 0.25
        SceneKind::Landscape
    } else if flat.gt(num(0x3ee6_6666)) {  // 0.45
        SceneKind::Clean
    } else {
        SceneKind::General
    }
}

/// The kind of a scene by the shares of skin, sky, plants and flat areas.
#[verifier::when_used_as_spec(spec_kind_of)]
pub fn kind_of(skin: Single, sky: Single, green: Single, flat: Single) -> (r: SceneKind)
    ensures
        r == spec_kind_of(skin, sky, green, flat),
{
    if skin.gt(num(0x3df5_c28f)) {  // 0.12
        SceneKind::Portrait
    } else if sky.plus(green).gt(num(0x3e80_0000)) {  // 0.25
        SceneKind::Landscape
    } else if flat.gt(num(0x3ee6_6666)) {  // 0.45
        SceneKind::Clean
    } else {
        SceneKind::General
    }
}

/// The lightness of each sample.
pub open spec fn lightness(v: Seq<Tint>) -> Seq<Single> {
    Seq::new(v.len(), |i: int| v[i].l)
}

pub open spec fn spec_is_flat(spread: Single) -> bool {
    spread.lt(num(0x3ca3_d70a))  // 0.02
}

/// The place is flat.
#[verifier::when_used_as_spec(spec_is_flat)]
pub fn is_flat(spread: Single) -> (r: bool)
    ensures
        r == spec_is_flat(spread),
{
    spread.lt(num(0x3ca3_d70a))  // 0.02
}

/// The profile of samples in rows of `w`.
pub open spec fn profile_of(v: Seq<Tint>, w: int) -> SceneProfile {
    let n = v.len() as int;
    let std = spreads(lightness(v), w, n / w);
    let skin = share(how_many(|i: int| spec_is_skin(&v[i]), n), v.len());
    let sky = share(how_many(|i: int| spec_is_sky(&v[i]), n), v.len());
    let green = share(how_many(|i: int| spec_is_green(&v[i]), n), v.len());
    let flat = share(how_many(|i: int| spec_is_flat(std[i]), n), v.len());
    SceneProfile {
        kind: kind_of(skin, sky, green, flat),
        skin_ratio: skin,
        sky_ratio: sky,
        green_ratio: green,
        flat_ratio: flat,
    }
}

/// Tells the kind of a scene from samples in `h` rows of `w`.
pub fn classify_scene(v: &Vec<Tint>, w: usize, h: usize) -> (r: SceneProfile)
    requires
        0 < w <= 0xffff_ffff,
        0 < h <= 0xffff_ffff,
        v@.len() == w * h,
    ensures
        r == profile_of(v@, w as int),
{
    let n: usize = v.len();
    let ghost seen = v@;
    let mut skin: usize = 0;
    let mut sky: usize = 0;
    let mut green: usize = 0;
    let mut light: Vec<Single> = Vec::new();
    let mut k: usize = 0;
    while k < n
        invariant
            k <= n,
            n == v@.len(),
            seen == v@,
            skin <= k,
            sky <= k,
            green <= k,
            skin == how_many(|i: int| spec_is_skin(&seen[i]), k as int),
            sky == how_many(|i: int| spec_is_sky(&seen[i]), k as int),
            green == how_many(|i: int| spec_is_green(&seen[i]), k as int),
            light@.len() == k,
            forall|j: int| 0 <= j < k ==> #[trigger] light@[j] == seen[j].l,
        decreases n - k,
    {
        let p: Tint = v[k];
        if is_skin(&p) {
            skin = skin + 1;
        }
        if is_sky(&p) {
            sky = sky + 1;
        }
        if is_green(&p) {
            green = green + 1;
        }
        light.push(p.l);
        k = k + 1;
    }
    assert(light@ =~= lightness(seen));
    let std: Vec<Single> = local_std_dev(&light, w, h);
    let ghost std_seen = std@;
    let mut flat: usize = 0;
    let mut k: usize = 0;
    while k < n
        invariant
            k <= n,
            n == std@.len(),
            std_seen == std@,
            flat <= k,
            flat == how_many(|i: int| spec_is_flat(std_seen[i]), k as int),
        decreases n - k,
    {
        if is_flat(std[k]) {
            flat = flat + 1;
        }
        k = k + 1;
    }
    proof {
        vstd::arithmetic::div_mod::lemma_fundamental_div_mod_converse(
            n as int,
            w as int,
            h as int,
            0,
        );
        assert(w * h == h * w) by (nonlinear_arith);
    }
    let whole: Single = Single::from_int(n as i128);
    let skin_ratio: Single = Single::from_int(skin as i128).over(whole);
    let sky_ratio: Single = Single::from_int(sky as i128).over(whole);
    let green_ratio: Single = Single::from_int(green as i128).over(whole);
    let flat_ratio: Single = Single::from_int(flat as i128).over(whole);
    SceneProfile {
        kind: kind_of(skin_ratio, sky_ratio, green_ratio, flat_ratio),
        skin_ratio,
        sky_ratio,
        green_ratio,
        flat_ratio,
    }
}

pub open spec fn spec_sharpen_gain(recipe: &SharpenRecipe, scale: Single) -> Single {
    // 1, 1, 1
    let shrunk: Single = num(0x3f80_0000).minus(scale).clamp(num(0), num(0x3f80_0000)).times(num(0x3f80_0000));
    recipe.base_gain.plus(shrunk).min(num(0x3fa0_0000))  // 1.25
}

/// The overall gain: more for a picture that was made smaller.
#[verifier::when_used_as_spec(spec_sharpen_gain)]
pub fn sharpen_gain(recipe: &SharpenRecipe, scale: Single) -> (r: Single)
    ensures
        r == spec_sharpen_gain(recipe, scale),
{
    // 1, 1, 1
    let shrunk: Single = num(0x3f80_0000).minus(scale).clamp(num(0), num(0x3f80_0000)).times(num(0x3f80_0000));
    recipe.base_gain.plus(shrunk).min(num(0x3fa0_0000))  // 1.25
}

pub open spec fn spec_boost_of(recipe: &SharpenRecipe, gain: Single, spread: Single) -> Single {
    let edge: Single = spread.times(num(0x40c0_0000)).clamp(num(0), num(0x3f80_0000));  // 6, 1
    // 1, 0.2
    edge.times(recipe.edge_boost).plus(num(0x3f80_0000).minus(edge).times(gain.times(num(0x3e4c_cccd))))
}

/// The gain at a place by the spread around it: edges get more, flat areas little.
#[verifier::when_used_as_spec(spec_boost_of)]
pub fn boost_of(recipe: &SharpenRecipe, gain: Single, spread: Single) -> (r: Single)
    ensures
        r == spec_boost_of(recipe, gain, spread),
{
    let edge: Single = spread.times(num(0x40c0_0000)).clamp(num(0), num(0x3f80_0000));  // 6, 1
    // 1, 0.2
    edge.times(recipe.edge_boost).plus(num(0x3f80_0000).minus(edge).times(gain.times(num(0x3e4c_cccd))))
}

pub open spec fn spec_soft_point(detail: Single, boost: Single) -> Single {
    detail.times(boost).times(num(0x4020_0000))  // 2.5
}

/// Where the soft limit of the detail is taken: tanh of this.
#[verifier::when_used_as_spec(spec_soft_point)]
pub fn soft_point(detail: Single, boost: Single) -> (r: Single)
    ensures
        r == spec_soft_point(detail, boost),
{
    detail.times(boost).times(num(0x4020_0000))  // 2.5
}

pub open spec fn spec_skin_weight(recipe: &SharpenRecipe, p: &Tint) -> Single {
    if recipe.skin_protect.gt(num(0)) && is_skin(p) {
        num(0x3f80_0000).minus(recipe.skin_protect)  // 1
    } else {
        num(0x3f80_0000)  // 1
    }
}

/// The share that skin keeps of the sharpening.
#[verifier::when_used_as_spec(spec_skin_weight)]
pub fn skin_weight(recipe: &SharpenRecipe, p: &Tint) -> (r: Single)
    ensures
        r == spec_skin_weight(recipe, p),
{
    if recipe.skin_protect.gt(num(0)) && is_skin(p) {
        num(0x3f80_0000).minus(recipe.skin_protect)  // 1
    } else {
        num(0x3f80_0000)  // 1
    }
}

pub open spec fn spec_light_weight(recipe: &SharpenRecipe, l: Single) -> Single {
    // 1, 0.5, 2, 0.15, 1
    num(0x3f80_0000).minus(l.minus(num(0x3f00_0000)).abs().times(num(0x4000_0000)).times(recipe.luma_protect)).clamp(num(0x3e19_999a), num(0x3f80_0000))
}

/// The share of the sharpening by lightness: less near black and white.
#[verifier::when_used_as_spec(spec_light_weight)]
pub fn light_weight(recipe: &SharpenRecipe, l: Single) -> (r: Single)
    ensures
        r == spec_light_weight(recipe, l),
{
    // 1, 0.5, 2, 0.15, 1
    num(0x3f80_0000).minus(l.minus(num(0x3f00_0000)).abs().times(num(0x4000_0000)).times(recipe.luma_protect)).clamp(num(0x3e19_999a), num(0x3f80_0000))
}

pub open spec fn spec_mixed_detail(detail: Single, boost: Single, tanh: Single) -> Single {
    let enhanced: Single = detail.times(boost);
    let soft: Single = tanh.times(num(0x3ecc_cccd));  // 0.4
    enhanced.times(num(0x3f0c_cccd)).plus(soft.times(num(0x3ee6_6666)))  // 0.55, 0.45
}

/// What is added at a place: the detail, half of it through the soft limit `tanh`.
#[verifier::when_used_as_spec(spec_mixed_detail)]
pub fn mixed_detail(detail: Single, boost: Single, tanh: Single) -> (r: Single)
    ensures
        r == spec_mixed_detail(detail, boost, tanh),
{
    let enhanced: Single = detail.times(boost);
    let soft: Single = tanh.times(num(0x3ecc_cccd));  // 0.4
    enhanced.times(num(0x3f0c_cccd)).plus(soft.times(num(0x3ee6_6666)))  // 0.55, 0.45
}

pub open spec fn spec_sharpened(recipe: &SharpenRecipe, p: &Tint, mixed: Single, strength: Single) -> Single {
    // 1
    p.l.plus(mixed.times(light_weight(recipe, p.l)).times(skin_weight(recipe, p)).times(strength)).clamp(num(0), num(0x3f80_0000))
}

/// A sharpened lightness.
#[verifier::when_used_as_spec(spec_sharpened)]
pub fn sharpened(recipe: &SharpenRecipe, p: &Tint, mixed: Single, strength: Single) -> (r: Single)
    ensures
        r == spec_sharpened(recipe, p, mixed, strength),
{
    // 1
    p.l.plus(mixed.times(light_weight(recipe, p.l)).times(skin_weight(recipe, p)).times(strength)).clamp(num(0), num(0x3f80_0000))
}

/// The fine detail of a plane: what a weak smoothing leaves over a strong one.
pub open spec fn fine_detail(
    l: Seq<Single>,
    small: Seq<Single>,
    large: Seq<Single>,
    w: int,
    h: int,
) -> Seq<Single> {
    Seq::new(
        l.len(),
        |i: int| plane_blurred(l, small, w, h)[i].minus(plane_blurred(l, large, w, h)[i]),
    )
}

/// The gain at each place.
pub open spec fn boosts(
    l: Seq<Single>,
    recipe: SharpenRecipe,
    scale: Single,
    w: int,
    h: int,
) -> Seq<Single> {
    Seq::new(
        l.len(),
        |i: int| boost_of(&recipe, sharpen_gain(&recipe, scale), spreads(l, w, h)[i]),
    )
}

/// The fine detail and the gain of each pixel of a picture.
pub struct SharpenPlanes {
    pub detail: Vec<Single>,
    pub boost: Vec<Single>,
}

/// Measures the fine detail and the gain of each pixel. `small` and `large` are the weights of
/// the two smoothings, `scale` is the size of the picture as a share of what it was.
pub fn sharpen_planes(
    v: &Vec<Tint>,
    w: usize,
    h: usize,
    recipe: &SharpenRecipe,
    scale: Single,
    small: &Vec<Single>,
    large: &Vec<Single>,
) -> (r: SharpenPlanes)
    requires
        0 < w <= 0xffff_ffff,
        0 < h <= 0xffff_ffff,
        v@.len() == w * h,
        small@.len() <= 0xffff_ffff,
        large@.len() <= 0xffff_ffff,
    ensures
        r.detail@ == fine_detail(lightness(v@), small@, large@, w as int, h as int),
        r.boost@ == boosts(lightness(v@), *recipe, scale, w as int, h as int),
{
    let n: usize = v.len();
    let mut l: Vec<Single> = Vec::new();
    let mut k: usize = 0;
    while k < n
        invariant
            k <= n,
            n == v@.len(),
            l@.len() == k,
            forall|j: int| 0 <= j < k ==> #[trigger] l@[j] == v@[j].l,
        decreases n - k,
    {
        l.push(v[k].l);
        k = k + 1;
    }
    assert(l@ =~= lightness(v@));
    let std: Vec<Single> = local_std_dev(&l, w, h);
    let weak: Vec<Single> = gaussian_blur_f32(&l, w, h, small);
    let strong: Vec<Single> = gaussian_blur_f32(&l, w, h, large);
    let gain: Single = sharpen_gain(recipe, scale);
    let mut detail: Vec<Single> = Vec::new();
    let mut boost: Vec<Single> = Vec::new();
    let ghost want = fine_detail(l@, small@, large@, w as int, h as int);
    let ghost gains = boosts(l@, *recipe, scale, w as int, h as int);
    let mut k: usize = 0;
    while k < n
        invariant
            k <= n,
            n == l@.len(),
            weak@ == plane_blurred(l@, small@, w as int, h as int),
            strong@ == plane_blurred(l@, large@, w as int, h as int),
            std@ == spreads(l@, w as int, h as int),
            weak@.len() == n,
            strong@.len() == n,
            std@.len() == n,
            gain == sharpen_gain(recipe, scale),
            want == fine_detail(l@, small@, large@, w as int, h as int),
            gains == boosts(l@, *recipe, scale, w as int, h as int),
            detail@.len() == k,
            boost@.len() == k,
            forall|j: int| 0 <= j < k ==> #[trigger] detail@[j] == want[j],
            forall|j: int| 0 <= j < k ==> #[trigger] boost@[j] == gains[j],
        decreases n - k,
    {
        detail.push(weak[k].minus(strong[k]));
        boost.push(boost_of(recipe, gain, std[k]));
        k = k + 1;
    }
    assert(detail@ =~= want);
    assert(boost@ =~= gains);
    SharpenPlanes { detail, boost }
}

/// The sharpened lightness of every pixel. `tanh` holds for each the soft limit of its detail.
pub open spec fn sharpened_plane(
    v: Seq<Tint>,
    detail: Seq<Single>,
    boost: Seq<Single>,
    tanh: Seq<Single>,
    recipe: SharpenRecipe,
    strength: Single,
) -> Seq<Single> {
    Seq::new(
        v.len(),
        |i: int|
            sharpened(
                &recipe,
                &v[i],
                mixed_detail(detail[i], boost[i], tanh[i]),
                strength.clamp(num(0), num(0x3f80_0000)),  // 1
            ),
    )
}

/// Sharpens the lightness of every pixel of a picture.
pub fn adaptive_sharpen(
    v: &Vec<Tint>,
    planes: &SharpenPlanes,
    tanh: &Vec<Single>,
    recipe: &SharpenRecipe,
    strength: Single,
) -> (r: Vec<Single>)
    requires
        planes.detail@.len() == v@.len(),
        planes.boost@.len() == v@.len(),
        tanh@.len() == v@.len(),
    ensures
        r@ == sharpened_plane(v@, planes.detail@, planes.boost@, tanh@, *recipe, strength),
{
    let n: usize = v.len();
    let limited: Single = strength.clamp(num(0), num(0x3f80_0000));  // 1
    let ghost want = sharpened_plane(
        v@,
        planes.detail@,
        planes.boost@,
        tanh@,
        *recipe,
        strength,
    );
    let mut r: Vec<Single> = Vec::new();
    let mut k: usize = 0;
    while k < n
        invariant
            k <= n,
            n == v@.len(),
            planes.detail@.len() == n,
            planes.boost@.len() == n,
            tanh@.len() == n,
            limited == strength.clamp(num(0), num(0x3f80_0000)),  // 1
            want == sharpened_plane(
                v@,
                planes.detail@,
                planes.boost@,
                tanh@,
                *recipe,
                strength,
            ),
            r@.len() == k,
            forall|j: int| 0 <= j < k ==> #[trigger] r@[j] == want[j],
        decreases n - k,
    {
        let m: Single = mixed_detail(planes.detail[k], planes.boost[k], tanh[k]);
        let p: Tint = v[k];
        r.push(sharpened(recipe, &p, m, limited));
        k = k + 1;
    }
    assert(r@ =~= want);
    r
}

/// Sharpening of strength zero keeps every lightness.
pub proof fn law_no_strength_keeps_lightness(recipe: &SharpenRecipe, p: &Tint, mixed: Single)
    requires
        num(0).le(p.l) && p.l.le(num(0x3f80_0000)),  // 1
        mixed.times(light_weight(recipe, p.l)).times(skin_weight(recipe, p)).magnitude() < INFINITY,
    ensures
        sharpened(recipe, p, mixed, num(0)).same(p.l),
{
    let x = mixed.times(light_weight(recipe, p.l)).times(skin_weight(recipe, p));
    law_zero_times_is_zero(x);
    law_zero_is_neutral(p.l, x.times(num(0)));
}

} // verus!
