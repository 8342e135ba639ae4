//! Spot strokes: what is to be healed, independent of resolution.
//!
//! A stroke is a centre in image coordinates from 0 to 1 and a radius as a share of the
//! image's shorter side, so that one list of strokes serves preview and export alike.

use crate::raster::{lemma_pixel_in_range, GrayImage};
use crate::single::{num, Single};
use vstd::prelude::*;

verus! {

/// One stroke: centre and radius.
#[derive(Clone, Copy, Debug, PartialEq, Eq, Structural)]
pub struct SpotStroke {
    /// Horizontal centre, 0 to 1 of the width.
    pub cx: Single,
    /// Vertical centre, 0 to 1 of the height.
    pub cy: Single,
    /// Radius as a share of the shorter side.
    pub r_norm: Single,
}

impl SpotStroke {
    pub open spec fn spec_new(cx: Single, cy: Single, r_norm: Single) -> SpotStroke {
        SpotStroke {
            cx: cx.clamp(num(0), num(0x3f80_0000)),
            cy: cy.clamp(num(0), num(0x3f80_0000)),
            r_norm: r_norm.max(num(0)),
        }
    }

    /// A stroke with its centre moved into the image and its radius made non-negative.
    #[verifier::when_used_as_spec(spec_new)]
    pub fn new(cx: Single, cy: Single, r_norm: Single) -> (r: SpotStroke)
        ensures
            r == SpotStroke::spec_new(cx, cy, r_norm),
    {
        SpotStroke {
            cx: cx.clamp(num(0), num(0x3f80_0000)),
            cy: cy.clamp(num(0), num(0x3f80_0000)),
            r_norm: r_norm.max(num(0)),
        }
    }
}

/// How spots are healed.
#[derive(Clone, Copy, Debug, PartialEq, Eq, Structural)]
pub enum HealMode {
    /// Diffusion from the rim inwards.
    Telea,
    /// The texture of a source patch over the light of the surroundings.
    FreqSep,
    /// Seamless cloning in the gradient domain.
    Poisson,
    /// Synthesis of the hole from matching patches.
    PatchMatch,
}

impl Default for HealMode {
    fn default() -> (r: HealMode)
        ensures
            r == HealMode::Poisson,
    {
        HealMode::Poisson
    }
}

/// The spots to heal and the way to heal them. Without strokes nothing is healed.
#[derive(Clone, Debug)]
pub struct SpotFix {
    pub strokes: Vec<SpotStroke>,
    pub mode: HealMode,
}

impl Default for SpotFix {
    fn default() -> (r: SpotFix)
        ensures
            r.strokes@.len() == 0,
            r.mode == HealMode::Poisson,
    {
        SpotFix { strokes: Vec::new(), mode: HealMode::Poisson }
    }
}

/// A stroke in the pixels of an image: centre column, centre row and radius.
pub open spec fn stroke_pixels(s: SpotStroke, w: int, h: int) -> (int, int, int) {
    let short = if w < h { w } else { h };
    (
        s.cx.times(Single::spec_from_int(w)).truncated(i32::MIN as int, i32::MAX as int),
        s.cy.times(Single::spec_from_int(h)).truncated(i32::MIN as int, i32::MAX as int),
        s.r_norm.times(Single::spec_from_int(short)).max(num(0x3f80_0000)).truncated(
            i32::MIN as int,
            i32::MAX as int,
        ),
    )
}

/// The pixel at `(x, y)` lies in the disk of radius `r` around `(cx, cy)`.
pub open spec fn in_disk(cx: int, cy: int, r: int, x: int, y: int) -> bool {
    r >= 0 && (x - cx) * (x - cx) + (y - cy) * (y - cy) <= r * r
}

/// The pixel at `(x, y)` lies under a stroke.
pub open spec fn under_stroke(s: SpotStroke, w: int, h: int, x: int, y: int) -> bool {
    let (cx, cy, r) = stroke_pixels(s, w, h);
    in_disk(cx, cy, r, x, y)
}

/// The pixel at `(x, y)` lies under one of the strokes.
pub open spec fn under_any(strokes: Seq<SpotStroke>, w: int, h: int, x: int, y: int) -> bool {
    exists|i: int| 0 <= i < strokes.len() && under_stroke(#[trigger] strokes[i], w, h, x, y)
}

/// How far filling samples: half as far again as the widest stroke, and one pixel more.
pub open spec fn widest_reach(strokes: Seq<SpotStroke>, w: int, h: int) -> int
    decreases strokes.len(),
{
    if strokes.len() == 0 {
        1
    } else {
        let before = widest_reach(strokes.drop_last(), w, h);
        let r = stroke_pixels(strokes.last(), w, h).2;
        let reach = Single::spec_from_int(r).times(num(0x3fc0_0000)).truncated(  // 1.5
            i32::MIN as int,
            i32::MAX as int,
        ) + 1;
        if before < reach {
            reach
        } else {
            before
        }
    }
}

/// Sets the pixels of a disk to 255.
fn paint_disk(data: &mut Vec<u8>, w: u32, h: u32, cx: i32, cy: i32, r: i32)
    requires
        old(data)@.len() == w * h,
    ensures
        final(data)@.len() == w * h,
        forall|x: int, y: int|
            0 <= x < w && 0 <= y < h ==> #[trigger] final(data)@[y * w + x] == if in_disk(
                cx as int,
                cy as int,
                r as int,
                x,
                y,
            ) {
                255u8
            } else {
                old(data)@[y * w + x]
            },
{
    let ghost before = data@;
    let count: usize = data.len();
    let mut y: u32 = 0;
    while y < h
        invariant
            y <= h,
            data@.len() == w * h,
            before.len() == w * h,
            data@.len() == count,
            forall|i: int, j: int|
                0 <= i < w && 0 <= j < h ==> #[trigger] data@[j * w + i] == if j < y && in_disk(
                    cx as int,
                    cy as int,
                    r as int,
                    i,
                    j,
                ) {
                    255u8
                } else {
                    before[j * w + i]
                },
        decreases h - y,
    {
        let dy: i64 = y as i64 - cy as i64;
        if r >= 0 && -(r as i64) <= dy && dy <= r as i64 {
            let mut x: u32 = 0;
            while x < w
                invariant
                    x <= w,
                    y < h,
                    r >= 0,
                    dy == y - cy,
                    -r <= dy <= r,
                    data@.len() == w * h,
                    before.len() == w * h,
                    data@.len() == count,
                    forall|i: int, j: int|
                        0 <= i < w && 0 <= j < h ==> #[trigger] data@[j * w + i] == if (j < y || (j
                            == y && i < x)) && in_disk(cx as int, cy as int, r as int, i, j) {
                            255u8
                        } else {
                            before[j * w + i]
                        },
                decreases w - x,
            {
                let dx: i64 = x as i64 - cx as i64;
                let ghost now = data@;
                proof {
                    lemma_pixel_in_range(w as int, h as int, x as int, y as int);
                    assert(0 <= y * w) by (nonlinear_arith);
                }
                if -(r as i64) <= dx && dx <= r as i64 {
                    proof {
                        assert(0 <= dx * dx <= r * r && 0 <= dy * dy <= r * r) by (nonlinear_arith)
                            requires
                                -r <= dx <= r,
                                -r <= dy <= r,
                        ;
                        assert(r * r <= 0x7fff_ffff * 0x7fff_ffff) by (nonlinear_arith)
                            requires
                                0 <= r <= 0x7fff_ffff,
                        ;
                    }
                    if dx * dx + dy * dy <= (r as i64) * (r as i64) {
                        data.set(y as usize * w as usize + x as usize, 255);
                    }
                } else {
                    proof {
                        assert((x - cx) * (x - cx) > r * r) by (nonlinear_arith)
                            requires
                                dx == x - cx,
                                dx < -r || dx > r,
                                r >= 0,
                        ;
                        assert((y - cy) * (y - cy) >= 0) by (nonlinear_arith);
                    }
                }
                proof {
                    assert forall|i: int, j: int| 0 <= i < w && 0 <= j < h implies
                        #[trigger] data@[j * w + i] == if (j < y || (j == y && i < x + 1))
                        && in_disk(cx as int, cy as int, r as int, i, j) {
                        255u8
                    } else {
                        before[j * w + i]
                    } by {
                        lemma_pixel_in_range(w as int, h as int, i, j);
                        assert(now[j * w + i] == if (j < y || (j == y && i < x)) && in_disk(
                            cx as int,
                            cy as int,
                            r as int,
                            i,
                            j,
                        ) {
                            255u8
                        } else {
                            before[j * w + i]
                        });
                    }
                }
                x = x + 1;
            }
        } else {
            proof {
                assert forall|i: int| 0 <= i < w implies !#[trigger] in_disk(
                    cx as int,
                    cy as int,
                    r as int,
                    i,
                    y as int,
                ) by {
                    if r >= 0 {
                        assert((y - cy) * (y - cy) > r * r) by (nonlinear_arith)
                            requires
                                dy == y - cy,
                                dy < -r || dy > r,
                                r >= 0,
                        ;
                        assert((i - cx) * (i - cx) >= 0) by (nonlinear_arith);
                    }
                }
            }
        }
        y = y + 1;
    }
}

impl SpotFix {
    /// No strokes, healed by the default mode.
    pub fn new() -> (r: SpotFix)
        ensures
            r.strokes@.len() == 0,
            r.mode == HealMode::Poisson,
    {
        SpotFix { strokes: Vec::new(), mode: HealMode::Poisson }
    }

    pub fn is_empty(&self) -> (r: bool)
        ensures
            r == (self.strokes@.len() == 0),
    {
        self.strokes.len() == 0
    }

    /// Drops all strokes and keeps the mode.
    pub fn clear(&mut self)
        ensures
            final(self).strokes@.len() == 0,
            final(self).mode == old(self).mode,
    {
        self.strokes.clear();
    }

    /// Adds a stroke behind the others.
    pub fn add_stroke(&mut self, cx: Single, cy: Single, r_norm: Single)
        ensures
            final(self).strokes@ == old(self).strokes@.push(SpotStroke::new(cx, cy, r_norm)),
            final(self).mode == old(self).mode,
    {
        self.strokes.push(SpotStroke::new(cx, cy, r_norm));
    }

    /// The mask of the strokes on an image of `w` by `h` pixels, 255 under a stroke and 0
    /// elsewhere, and how far filling samples: from 1 to 60 pixels.
    pub fn build_mask(&self, w: u32, h: u32) -> (r: (GrayImage, i32))
        requires
            w * h <= usize::MAX,
        ensures
            r.0.wf(),
            r.0.width == w,
            r.0.height == h,
            forall|x: int, y: int|
                0 <= x < w && 0 <= y < h ==> #[trigger] r.0.at(x, y) == if under_any(
                    self.strokes@,
                    w as int,
                    h as int,
                    x,
                    y,
                ) {
                    255u8
                } else {
                    0u8
                },
            r.1 == crate::single::within(widest_reach(self.strokes@, w as int, h as int), 1, 60),
    {
        let mut data: Vec<u8> = vec![0u8; w as usize * h as usize];
        let short: u32 = if w < h { w } else { h };
        let mut reach: i64 = 1;
        let mut k: usize = 0;
        assert(self.strokes@.subrange(0, 0) =~= Seq::empty());
        proof {
            assert forall|x: int, y: int| 0 <= x < w && 0 <= y < h implies #[trigger] data@[y * w
                + x] == 0 by {
                lemma_pixel_in_range(w as int, h as int, x, y);
            }
        }
        while k < self.strokes.len()
            invariant
                k <= self.strokes@.len(),
                data@.len() == w * h,
                short == if w < h { w } else { h },
                1 <= reach <= 0x8000_0000,
                reach == widest_reach(self.strokes@.subrange(0, k as int), w as int, h as int),
                forall|x: int, y: int|
                    0 <= x < w && 0 <= y < h ==> #[trigger] data@[y * w + x] == if under_any(
                        self.strokes@.subrange(0, k as int),
                        w as int,
                        h as int,
                        x,
                        y,
                    ) {
                        255u8
                    } else {
                        0u8
                    },
            decreases self.strokes@.len() - k,
        {
            let s: SpotStroke = self.strokes[k];
            let cx: i32 = s.cx.times(Single::from_int(w as i128)).to_i32();
            let cy: i32 = s.cy.times(Single::from_int(h as i128)).to_i32();
            let r: i32 = s.r_norm.times(Single::from_int(short as i128)).max(
                num(0x3f80_0000),
            ).to_i32();
            // 1.5
            let far: i64 = Single::from_int(r as i128).times(num(0x3fc0_0000)).to_i32() as i64 + 1;
            let ghost done = self.strokes@.subrange(0, k as int);
            let ghost next = self.strokes@.subrange(0, k + 1);
            let ghost before = data@;
            paint_disk(&mut data, w, h, cx, cy, r);
            proof {
                assert(next.drop_last() =~= done);
                assert(next.last() == s);
                assert forall|x: int, y: int| 0 <= x < w && 0 <= y < h implies #[trigger] data@[y
                    * w + x] == if under_any(next, w as int, h as int, x, y) {
                    255u8
                } else {
                    0u8
                } by {
                    assert(before[y * w + x] == if under_any(done, w as int, h as int, x, y) {
                        255u8
                    } else {
                        0u8
                    });
                    if under_stroke(s, w as int, h as int, x, y) {
                        assert(under_stroke(next[k as int], w as int, h as int, x, y));
                    } else if under_any(done, w as int, h as int, x, y) {
                        let i = choose|i: int|
                            0 <= i < done.len() && under_stroke(
                                #[trigger] done[i],
                                w as int,
                                h as int,
                                x,
                                y,
                            );
                        assert(next[i] == done[i]);
                    } else if under_any(next, w as int, h as int, x, y) {
                        let i = choose|i: int|
                            0 <= i < next.len() && under_stroke(
                                #[trigger] next[i],
                                w as int,
                                h as int,
                                x,
                                y,
                            );
                        if i < k {
                            assert(next[i] == done[i]);
                        }
                    }
                }
            }
            if reach < far {
                reach = far;
            }
            k = k + 1;
        }
        assert(self.strokes@.subrange(0, k as int) =~= self.strokes@);
        let radius: i32 = if reach > 60 { 60 } else { reach as i32 };
        (GrayImage { width: w, height: h, data }, radius)
    }
}

} // verus!
