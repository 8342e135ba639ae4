//! Filling a hole with patches of its surroundings.
//!
//! Each pixel of the hole keeps an offset to a known patch that looks like its surroundings.
//! Offsets are found at random, passed on between neighbours and refined at random. The ring
//! of the hole that touches known pixels is then filled with the mean of the patches that
//! cover it, and the next round fills the ring behind it.

use crate::poisson::{as_byte, to_byte};
use crate::raster::{lemma_pixel_in_range, lemma_pixel_place, GrayImage, RgbImage};
use crate::single::{num, Single};
use vstd::arithmetic::power2::pow2;
use vstd::prelude::*;

verus! {

/// The next state of the generator of random numbers.
pub open spec fn next_random(s: u64) -> u64 {
    let a = s ^ (s << 13);
    let b = a ^ (a >> 7);
    b ^ (b << 17)
}

/// How many binary places of `v` are beyond its 53 leading ones.
pub open spec fn places_beyond_53(v: int) -> nat
    decreases v,
{
    if v < 0x20_0000_0000_0000 {
        0
    } else {
        1 + places_beyond_53(v / 2)
    }
}

/// The nearest number of 53 significant binary places, ties to even.
#[verifier::opaque]
pub open spec fn to_53_places(v: int) -> int {
    let unit = pow2(places_beyond_53(v)) as int;
    let q = v / unit;
    let rest = v % unit;
    if 2 * rest > unit || (2 * rest == unit && q % 2 == 1) {
        (q + 1) * unit
    } else {
        q * unit
    }
}

/// A random place in `0..n`: the random state as a share of two to the power 64, times `n`,
/// each in 53 places, cut off.
pub open spec fn random_place(s: u64, n: int) -> int {
    to_53_places(to_53_places(s as int) * n) / 0x1_0000_0000_0000_0000
}

/// A random step of at most `m / 2^j`: the random state as a share from -1 to 1, times that
/// reach, each in 53 places, rounded with halves away from zero.
pub open spec fn random_step(s: u64, m: int, j: nat) -> int {
    let spread = 2 * to_53_places(s as int) - 0x1_0000_0000_0000_0000;
    let size = to_53_places(to_53_places(if spread < 0 { -spread } else { spread }) * m);
    let unit = 0x1_0000_0000_0000_0000 * (pow2(j) as int);
    let whole = (2 * size + unit) / (2 * unit);
    if spread < 0 {
        -whole
    } else {
        whole
    }
}

/// The hole as it stands: the values of all pixels, which of them are known, and the offset
/// that each unknown pixel holds.
#[verifier::ext_equal]
pub struct Canvas {
    pub w: int,
    pub h: int,
    /// How far a patch reaches from its middle.
    pub p: int,
    /// Three values for each pixel.
    pub cur: Seq<Single>,
    pub known: Seq<bool>,
    pub off: Seq<(i32, i32)>,
    pub seed: u64,
}

impl Canvas {
    pub open spec fn inside(self, x: int, y: int) -> bool {
        0 <= x < self.w && 0 <= y < self.h
    }

    /// The pixel at `(x, y)` lies in the image and is known.
    pub open spec fn known_at(self, x: int, y: int) -> bool {
        self.inside(x, y) && self.known[y * self.w + x]
    }

    /// How many pixels a patch has.
    pub open spec fn cells(self) -> int {
        (2 * self.p + 1) * (2 * self.p + 1)
    }

    /// The number of the cell that lies over pixel `i` where a patch stands at `(x, y)`.
    pub open spec fn cell_over(self, x: int, y: int, i: int) -> int {
        (i / self.w - y + self.p) * (2 * self.p + 1) + (i % self.w - x + self.p)
    }

    /// The column and row of pixel `t` of a patch, from its middle.
    pub open spec fn cell(self, t: int) -> (int, int) {
        (t % (2 * self.p + 1) - self.p, t / (2 * self.p + 1) - self.p)
    }

    /// The first `k` pixels of the patch around `(x, y)` are known.
    pub open spec fn known_upto(self, x: int, y: int, k: int) -> bool {
        forall|t: int|
            0 <= t < k ==> self.known_at(x + (#[trigger] self.cell(t)).0, y + self.cell(t).1)
    }

    /// The whole patch around `(x, y)` is known.
    pub open spec fn patch_known(self, x: int, y: int) -> bool {
        self.known_upto(x, y, self.cells())
    }

    /// One of the first `k` pixels of the patch around `(x, y)` is known.
    pub open spec fn touches_upto(self, x: int, y: int, k: int) -> bool {
        exists|t: int|
            0 <= t < k && self.known_at(x + (#[trigger] self.cell(t)).0, y + self.cell(t).1)
    }

    /// A squared difference of one channel added.
    pub open spec fn plus_square(self, acc: Single, a: int, b: int) -> Single {
        let d = self.cur[a].minus(self.cur[b]);
        acc.plus(d.times(d))
    }

    /// The squared differences between the known ones among the first `k` pixels of the patch
    /// around `(x, y)` and the patch around `(sx, sy)`.
    pub open spec fn squares_upto(self, x: int, y: int, sx: int, sy: int, k: int) -> Single
        decreases k,
    {
        if k <= 0 {
            num(0)
        } else {
            let acc = self.squares_upto(x, y, sx, sy, k - 1);
            let (dx, dy) = self.cell(k - 1);
            if self.known_at(x + dx, y + dy) {
                let a = ((y + dy) * self.w + (x + dx)) * 3;
                let b = ((sy + dy) * self.w + (sx + dx)) * 3;
                self.plus_square(
                    self.plus_square(self.plus_square(acc, a, b), a + 1, b + 1),
                    a + 2,
                    b + 2,
                )
            } else {
                acc
            }
        }
    }

    /// How badly the patch around `(sx, sy)` fits at `(x, y)`: infinitely where it is not all
    /// known.
    pub open spec fn misfit(self, x: int, y: int, sx: int, sy: int) -> Single {
        if self.patch_known(sx, sy) {
            self.squares_upto(x, y, sx, sy, self.cells())
        } else {
            num(0x7f80_0000)  // infinity
        }
    }

    /// A first offset for the pixel at `(x, y)`, by up to `tries` random places, and the random
    /// state behind them.
    pub open spec fn first_offset(self, x: int, y: int, seed: u64, tries: nat) -> ((i32, i32), u64)
        decreases tries,
    {
        if tries == 0 {
            ((0i32, 0i32), seed)
        } else {
            let s1 = next_random(seed);
            let s2 = next_random(s1);
            let sx = random_place(s1, self.w);
            let sy = random_place(s2, self.h);
            if self.patch_known(sx, sy) {
                (((sx - x) as i32, (sy - y) as i32), s2)
            } else {
                self.first_offset(x, y, s2, (tries - 1) as nat)
            }
        }
    }

    /// The first `k` pixels given first offsets.
    pub open spec fn started(self, k: int) -> Canvas
        decreases k,
    {
        if k <= 0 {
            self
        } else {
            let c = self.started(k - 1);
            let i = k - 1;
            if self.known[i] {
                c
            } else {
                let (o, s) = self.first_offset(i % self.w, i / self.w, c.seed, 64);
                Canvas { off: c.off.update(i, o), seed: s, ..c }
            }
        }
    }

    /// The better of an offset and that of the neighbour at `(nx, ny)`.
    pub open spec fn adopt(
        self,
        x: int,
        y: int,
        nx: int,
        ny: int,
        best: ((i32, i32), Single),
    ) -> ((i32, i32), Single) {
        if self.inside(nx, ny) && !self.known[ny * self.w + nx] {
            let o = self.off[ny * self.w + nx];
            let e = self.misfit(x, y, x + o.0, y + o.1);
            if e.lt(best.1) {
                (o, e)
            } else {
                best
            }
        } else {
            best
        }
    }

    /// The reach that random steps start from.
    pub open spec fn reach(self) -> int {
        let m = if self.w < self.h {
            self.h
        } else {
            self.w
        };
        if m < 8 {
            8
        } else {
            m
        }
    }

    /// Random steps from `(x, y)`, each with half the reach of the one before, from the `j`-th
    /// on; and the random state behind them.
    pub open spec fn refine(
        self,
        x: int,
        y: int,
        j: nat,
        best: ((i32, i32), Single),
        seed: u64,
    ) -> (((i32, i32), Single), u64)
        decreases 64 - j,
    {
        if j >= 64 || self.reach() <= pow2(j) {
            (best, seed)
        } else {
            let s1 = next_random(seed);
            let s2 = next_random(s1);
            let dx = random_step(s1, self.reach(), j);
            let dy = random_step(s2, self.reach(), j);
            if self.inside(x + dx, y + dy) {
                let e = self.misfit(x, y, x + dx, y + dy);
                if e.lt(best.1) {
                    self.refine(x, y, j + 1, ((dx as i32, dy as i32), e), s2)
                } else {
                    self.refine(x, y, j + 1, best, s2)
                }
            } else {
                self.refine(x, y, j + 1, best, s2)
            }
        }
    }

    /// The offset of unknown pixel `i` matched anew, in a forward or a backward pass.
    pub open spec fn matched(self, i: int, forward: bool) -> Canvas {
        let x = i % self.w;
        let y = i / self.w;
        let o = self.off[i];
        let start = (o, self.misfit(x, y, x + o.0, y + o.1));
        let side = if forward {
            self.adopt(x, y, x - 1, y, start)
        } else {
            self.adopt(x, y, x + 1, y, start)
        };
        let both = if forward {
            self.adopt(x, y, x, y - 1, side)
        } else {
            self.adopt(x, y, x, y + 1, side)
        };
        let (best, s) = self.refine(x, y, 0, both, self.seed);
        Canvas { off: self.off.update(i, best.0), seed: s, ..self }
    }

    /// The first `k` pixels of a pass matched.
    pub open spec fn passed(self, forward: bool, k: int) -> Canvas
        decreases k,
    {
        if k <= 0 {
            self
        } else {
            let c = self.passed(forward, k - 1);
            let i = if forward {
                k - 1
            } else {
                self.w * self.h - k
            };
            if c.known[i] {
                c
            } else {
                c.matched(i, forward)
            }
        }
    }

    /// The first `k` passes of a round.
    pub open spec fn passes(self, k: int) -> Canvas
        decreases k,
    {
        if k <= 0 {
            self
        } else {
            self.passes(k - 1).passed((k - 1) % 2 == 0, self.w * self.h)
        }
    }

    /// What the first `k` pixels of the patch at unknown pixel `(x, y)` add to the sums of the
    /// unknown pixels that they cover.
    pub open spec fn spread_patch(
        self,
        x: int,
        y: int,
        acc: (Seq<Single>, Seq<u64>),
        k: int,
    ) -> (Seq<Single>, Seq<u64>)
        decreases k,
    {
        if k <= 0 {
            acc
        } else {
            let (sum, cnt) = self.spread_patch(x, y, acc, k - 1);
            let (dx, dy) = self.cell(k - 1);
            let o = self.off[y * self.w + x];
            let (tx, ty) = (x + dx, y + dy);
            let (vx, vy) = (x + o.0 + dx, y + o.1 + dy);
            if self.inside(tx, ty) && !self.known[ty * self.w + tx] && self.known_at(vx, vy) {
                let t = ty * self.w + tx;
                let v = (vy * self.w + vx) * 3;
                (
                    sum.update(t * 3, sum[t * 3].plus(self.cur[v])).update(
                        t * 3 + 1,
                        sum[t * 3 + 1].plus(self.cur[v + 1]),
                    ).update(t * 3 + 2, sum[t * 3 + 2].plus(self.cur[v + 2])),
                    cnt.update(t, (cnt[t] + 1) as u64),
                )
            } else {
                (sum, cnt)
            }
        }
    }

    /// The sums and counts after the first `k` pixels have spread their patches. Only unknown
    /// pixels whose own patch touches a known pixel do.
    pub open spec fn spread(self, k: int) -> (Seq<Single>, Seq<u64>)
        decreases k,
    {
        if k <= 0 {
            (
                Seq::new((self.w * self.h * 3) as nat, |i: int| num(0)),
                Seq::new((self.w * self.h) as nat, |i: int| 0u64),
            )
        } else {
            let acc = self.spread(k - 1);
            let i = k - 1;
            let (x, y) = (i % self.w, i / self.w);
            if !self.known[i] && self.touches_upto(x, y, self.cells()) {
                self.spread_patch(x, y, acc, self.cells())
            } else {
                acc
            }
        }
    }

    /// A pixel is filled in this round.
    pub open spec fn gains(self, i: int) -> bool {
        !self.known[i] && self.spread(self.w * self.h).1[i] > 0
    }

    /// The covered unknown pixels filled with the mean of what covers them.
    pub open spec fn filled(self) -> Canvas {
        let (sum, cnt) = self.spread(self.w * self.h);
        Canvas {
            cur: Seq::new(
                self.cur.len(),
                |k: int|
                    if self.gains(k / 3) {
                        sum[k].over(Single::spec_from_int(cnt[k / 3] as int))
                    } else {
                        self.cur[k]
                    },
            ),
            known: Seq::new(self.known.len(), |i: int| self.known[i] || self.gains(i)),
            ..self
        }
    }

    pub open spec fn all_known(self) -> bool {
        forall|i: int| 0 <= i < self.known.len() ==> #[trigger] self.known[i]
    }

    /// The canvas after at most `left` rounds of `inner` passes each. A round that fills nothing
    /// or leaves nothing to fill is the last.
    pub open spec fn rounds(self, inner: int, left: nat) -> Canvas
        decreases left,
    {
        if left == 0 {
            self
        } else {
            let c = self.passes(inner);
            let f = c.filled();
            if f.all_known() || (forall|i: int|
                0 <= i < c.known.len() ==> !#[trigger] c.gains(i)) {
                f
            } else {
                f.rounds(inner, (left - 1) as nat)
            }
        }
    }
}

/// The canvas that filling starts from: an image of `w` by `h` pixels, three bytes each, and a
/// mask of one byte for each pixel.
pub open spec fn canvas_of(w: int, h: int, data: Seq<u8>, mask: Seq<u8>, p: int) -> Canvas {
    let n = (w * h) as nat;
    Canvas {
        w,
        h,
        p,
        cur: Seq::new(n * 3, |k: int| Single::spec_from_int(data[k] as int)),
        known: Seq::new(n, |i: int| mask[i] == 0),
        off: Seq::new(n, |i: int| (0i32, 0i32)),
        seed: 0x9e37_79b9_7f4a_7c15,
    }
}

/// The canvas at the end: 81 rounds at most.
pub open spec fn finished(w: int, h: int, data: Seq<u8>, mask: Seq<u8>, p: int, inner: int) -> Canvas {
    let c = canvas_of(w, h, data, mask, p);
    if c.all_known() {
        c
    } else {
        c.started(w * h).rounds(inner, 81)
    }
}

/// The bytes after filling: those under the mask that could be filled are, the others stay.
pub open spec fn patched(w: int, h: int, data: Seq<u8>, mask: Seq<u8>, p: int, inner: int) -> Seq<u8> {
    let end = finished(w, h, data, mask, p, inner);
    Seq::new(
        data.len(),
        |k: int|
            if mask[k / 3] > 0 && end.known[k / 3] {
                as_byte(end.cur[k])
            } else {
                data[k]
            },
    )
}

/// The hole as it is worked on.
pub struct Work {
    pub w: u32,
    pub h: u32,
    pub p: u32,
    pub cur: Vec<Single>,
    pub known: Vec<bool>,
    pub off: Vec<(i32, i32)>,
    pub seed: u64,
}

impl View for Work {
    type V = Canvas;

    open spec fn view(&self) -> Canvas {
        Canvas {
            w: self.w as int,
            h: self.h as int,
            p: self.p as int,
            cur: self.cur@,
            known: self.known@,
            off: self.off@,
            seed: self.seed,
        }
    }
}

/// Every cell of a patch lies over one pixel, and over no other cell's.
pub proof fn lemma_cell_over(c: Canvas, x: int, y: int, t: int)
    requires
        0 <= c.p,
        0 <= t < c.cells(),
        c.inside(x + c.cell(t).0, y + c.cell(t).1),
    ensures
        c.cell_over(x, y, (y + c.cell(t).1) * c.w + (x + c.cell(t).0)) == t,
{
    let side = 2 * c.p + 1;
    let (tx, ty) = (x + c.cell(t).0, y + c.cell(t).1);
    vstd::arithmetic::div_mod::lemma_fundamental_div_mod(t, side);
    assert((t / side) * side == side * (t / side)) by (nonlinear_arith);
    vstd::arithmetic::div_mod::lemma_fundamental_div_mod_converse(ty * c.w + tx, c.w, ty, tx);
}

/// The largest reach of a patch, whose pixels and their places can be counted.
pub const MAX_REACH: u32 = 0x3fff_ffff;

impl Work {
    pub open spec fn wf(self) -> bool {
        &&& 0 < self.w
        &&& 0 < self.h
        &&& self.p <= MAX_REACH
        &&& self.w * self.h <= i32::MAX
        &&& self.known.len() == self.w * self.h
        &&& self.off.len() == self.w * self.h
        &&& self.cur.len() == self.w * self.h * 3
        &&& self.cur.len() <= usize::MAX
    }
}

fn next(s: u64) -> (r: u64)
    ensures
        r == next_random(s),
{
    let a: u64 = s ^ (s << 13);
    let b: u64 = a ^ (a >> 7);
    b ^ (b << 17)
}

proof fn lemma_places(v: int, k: nat)
    requires
        0 <= v,
        v / (pow2(k) as int) < 0x20_0000_0000_0000,
        k == 0 || v / (pow2((k - 1) as nat) as int) >= 0x20_0000_0000_0000,
    ensures
        places_beyond_53(v) == k,
    decreases k,
{
    vstd::arithmetic::power2::lemma2_to64();
    if k == 0 {
        assert(v / 1 == v);
    } else {
        vstd::arithmetic::power2::lemma_pow2_unfold(k);
        vstd::arithmetic::power2::lemma_pow2_pos((k - 1) as nat);
        vstd::arithmetic::div_mod::lemma_div_denominator(v, 2, pow2((k - 1) as nat) as int);
        if k > 1 {
            vstd::arithmetic::power2::lemma_pow2_unfold((k - 1) as nat);
            vstd::arithmetic::power2::lemma_pow2_pos((k - 2) as nat);
            vstd::arithmetic::div_mod::lemma_div_denominator(v, 2, pow2((k - 2) as nat) as int);
        }
        assert(v >= 0x20_0000_0000_0000) by (nonlinear_arith)
            requires
                v / (pow2((k - 1) as nat) as int) >= 0x20_0000_0000_0000,
                pow2((k - 1) as nat) > 0,
                v >= 0,
        ;
        lemma_places(v / 2, (k - 1) as nat);
    }
}

/// Rounds to 53 significant binary places.
fn round53(v: u128) -> (r: u128)
    requires
        v <= 0x1_0000_0000_0000_0000_0000_0000,
    ensures
        r == to_53_places(v as int),
        r <= 0x2_0000_0000_0000_0000_0000_0000,
{
    proof {
        reveal(to_53_places);
        vstd::arithmetic::power2::lemma2_to64();
    }
    let mut m: u128 = v;
    let mut unit: u128 = 1;
    let ghost mut k: nat = 0;
    assert(v as int / 1 == v);
    while m >= 0x20_0000_0000_0000
        invariant
            v <= 0x1_0000_0000_0000_0000_0000_0000,
            unit == pow2(k),
            0 < unit <= 0x2_0000_0000_0000,
            m == v as int / unit as int,
            m * unit <= v,
            k > 0 ==> v as int / (pow2((k - 1) as nat) as int) >= 0x20_0000_0000_0000,
        decreases m,
    {
        proof {
            vstd::arithmetic::power2::lemma_pow2_unfold(k + 1);
            vstd::arithmetic::div_mod::lemma_div_denominator(v as int, unit as int, 2);
            assert(unit <= 0x1_0000_0000_0000) by (nonlinear_arith)
                requires
                    m * unit <= v,
                    m >= 0x20_0000_0000_0000,
                    v <= 0x1_0000_0000_0000_0000_0000_0000,
            ;
            assert((m / 2) * (unit * 2) <= v) by (nonlinear_arith)
                requires
                    m * unit <= v,
            ;
            k = k + 1;
        }
        m = m / 2;
        unit = unit * 2;
    }
    proof {
        lemma_places(v as int, k);
        assert((m + 1) * unit == m * unit + unit) by (nonlinear_arith);
    }
    let rest: u128 = v % unit;
    if 2 * rest > unit || (2 * rest == unit && m % 2 == 1) {
        (m + 1) * unit
    } else {
        m * unit
    }
}

fn place(s: u64, n: u32) -> (r: i64)
    ensures
        r == random_place(s, n as int),
        0 <= r <= 0x2_0000_0000,
{
    let a: u128 = round53(s as u128);
    proof {
        lemma_to_53_bound(s as int, 0x1_0000_0000_0000_0000);
        assert(0 <= a * n <= 0x1_0000_0000_0000_0000 * 0xffff_ffff) by (nonlinear_arith)
            requires
                0 <= a <= 0x1_0000_0000_0000_0000,
                0 <= n <= 0xffff_ffff,
        ;
    }
    (round53(a * (n as u128)) / 0x1_0000_0000_0000_0000) as i64
}

/// Rounding does not pass a power of two.
proof fn lemma_to_53_bound(v: int, top: int)
    requires
        0 <= v <= top,
        top == 0x1_0000_0000_0000_0000,
    ensures
        0 <= to_53_places(v) <= top,
{
    reveal(to_53_places);
    let k = places_beyond_53(v);
    let unit = pow2(k) as int;
    vstd::arithmetic::power2::lemma_pow2_pos(k);
    vstd::arithmetic::power2::lemma2_to64();
    lemma_places_bound(v, 12);
    vstd::arithmetic::power2::lemma_pow2_adds(k, (64 - k) as nat);
    vstd::arithmetic::power2::lemma2_to64();
    let many = pow2((64 - k) as nat) as int;
    let q = v / unit;
    let rest = v % unit;
    vstd::arithmetic::div_mod::lemma_fundamental_div_mod(v, unit);
    vstd::arithmetic::div_mod::lemma_mod_bound(v, unit);
    assert(top == unit * many);
    assert(0 <= q * unit <= top) by (nonlinear_arith)
        requires
            v == unit * q + rest,
            0 <= rest,
            0 <= v <= top,
            unit > 0,
            q == v / unit,
    ;
    if 2 * rest > unit || (2 * rest == unit && q % 2 == 1) {
        assert(q < many) by (nonlinear_arith)
            requires
                unit * q + rest <= unit * many,
                rest > 0,
                unit > 0,
        ;
        assert((q + 1) * unit <= unit * many) by (nonlinear_arith)
            requires
                q + 1 <= many,
                unit > 0,
        ;
        assert(0 <= (q + 1) * unit) by (nonlinear_arith)
            requires
                0 <= q * unit,
                unit > 0,
        ;
    }
}

proof fn lemma_places_bound(v: int, k: nat)
    requires
        0 <= v,
        v < 0x20_0000_0000_0000 * pow2(k),
        k <= 64,
    ensures
        places_beyond_53(v) <= k,
    decreases k,
{
    vstd::arithmetic::power2::lemma2_to64();
    if v >= 0x20_0000_0000_0000 {
        assert(k > 0);
        vstd::arithmetic::power2::lemma_pow2_unfold(k);
        lemma_places_bound(v / 2, (k - 1) as nat);
    }
}

fn step(s: u64, m: u32, j: u32, power: u128) -> (r: i64)
    requires
        j <= 32,
        power == pow2(j as nat),
    ensures
        r == random_step(s, m as int, j as nat),
        -0x2_0000_0000 <= r <= 0x2_0000_0000,
{
    let a: u128 = round53(s as u128);
    proof {
        lemma_to_53_bound(s as int, 0x1_0000_0000_0000_0000);
        vstd::arithmetic::power2::lemma2_to64();
        vstd::arithmetic::power2::lemma_pow2_pos(j as nat);
        if j < 32 {
            vstd::arithmetic::power2::lemma_pow2_strictly_increases(j as nat, 32);
        }
    }
    let below: bool = 2 * a < 0x1_0000_0000_0000_0000;
    let spread: u128 = if below {
        0x1_0000_0000_0000_0000 - 2 * a
    } else {
        2 * a - 0x1_0000_0000_0000_0000
    };
    let b: u128 = round53(spread);
    proof {
        lemma_to_53_bound(spread as int, 0x1_0000_0000_0000_0000);
        assert(0 <= b * m <= 0x1_0000_0000_0000_0000 * 0xffff_ffff) by (nonlinear_arith)
            requires
                0 <= b <= 0x1_0000_0000_0000_0000,
                0 <= m <= 0xffff_ffff,
        ;
    }
    let size: u128 = round53(b * (m as u128));
    let unit: u128 = 0x1_0000_0000_0000_0000 * power;
    let whole: u128 = (2 * size + unit) / (2 * unit);
    proof {
        assert(0 <= whole <= 0x2_0000_0000) by (nonlinear_arith)
            requires
                whole == (2 * size + unit) / (2 * unit),
                0 <= size <= 0x2_0000_0000_0000_0000_0000_0000,
                unit >= 0x1_0000_0000_0000_0000,
        ;
    }
    if below {
        -(whole as i64)
    } else {
        whole as i64
    }
}

impl Work {
    fn is_known_at(&self, x: i64, y: i64) -> (b: bool)
        requires
            self.wf(),
        ensures
            b == self@.known_at(x as int, y as int),
    {
        if x < 0 || y < 0 || x >= self.w as i64 || y >= self.h as i64 {
            return false;
        }
        proof {
            lemma_pixel_in_range(self.w as int, self.h as int, x as int, y as int);
            assert(0 <= y * self.w) by (nonlinear_arith)
                requires
                    y >= 0,
            ;
        }
        self.known[y as usize * self.w as usize + x as usize]
    }

    /// The number of a pixel of the image.
    fn number(&self, x: i64, y: i64) -> (i: usize)
        requires
            self.wf(),
            self@.inside(x as int, y as int),
        ensures
            i == y * self.w + x,
            i < self.w * self.h,
            i * 3 + 2 < self.cur@.len(),
    {
        proof {
            lemma_pixel_in_range(self.w as int, self.h as int, x as int, y as int);
            assert(0 <= y * self.w) by (nonlinear_arith)
                requires
                    y >= 0,
            ;
        }
        y as usize * self.w as usize + x as usize
    }

    /// How many pixels a patch has.
    fn cell_count(&self) -> (n: i64)
        requires
            self.wf(),
        ensures
            n == self@.cells(),
            1 <= n <= 0x4000_0000_0000_0000,
    {
        let side: i64 = 2 * self.p as i64 + 1;
        assert(1 <= side * side <= 0x4000_0000_0000_0000) by (nonlinear_arith)
            requires
                1 <= side <= 0x7fff_ffff,
        ;
        side * side
    }

    fn cell_at(&self, t: i64) -> (c: (i64, i64))
        requires
            self.wf(),
            0 <= t < self@.cells(),
        ensures
            (c.0 as int, c.1 as int) == self@.cell(t as int),
            -0x3fff_ffff <= c.0 <= 0x3fff_ffff,
            -0x3fff_ffff <= c.1 <= 0x3fff_ffff,
    {
        let side: i64 = 2 * self.p as i64 + 1;
        proof {
            lemma_pixel_place(side as int, side as int, t as int);
        }
        (t % side - self.p as i64, t / side - self.p as i64)
    }

    fn is_patch_known(&self, x: i64, y: i64) -> (b: bool)
        requires
            self.wf(),
            -0x8_0000_0000 <= x <= 0x8_0000_0000,
            -0x8_0000_0000 <= y <= 0x8_0000_0000,
        ensures
            b == self@.patch_known(x as int, y as int),
    {
        let n: i64 = self.cell_count();
        let mut t: i64 = 0;
        while t < n
            invariant
                self.wf(),
                -0x8_0000_0000 <= x <= 0x8_0000_0000,
                -0x8_0000_0000 <= y <= 0x8_0000_0000,
                n == self@.cells(),
                0 <= t <= n,
                self@.known_upto(x as int, y as int, t as int),
            decreases n - t,
        {
            let (dx, dy) = self.cell_at(t);
            if !self.is_known_at(x + dx, y + dy) {
                assert(self@.cell(t as int) == (dx as int, dy as int));
                return false;
            }
            t = t + 1;
        }
        true
    }

    fn squares(&self, x: i64, y: i64, sx: i64, sy: i64) -> (s: Single)
        requires
            self.wf(),
            self@.inside(x as int, y as int),
            -0x8_0000_0000 <= sx <= 0x8_0000_0000,
            -0x8_0000_0000 <= sy <= 0x8_0000_0000,
            self@.patch_known(sx as int, sy as int),
        ensures
            s == self@.squares_upto(x as int, y as int, sx as int, sy as int, self@.cells()),
    {
        let n: i64 = self.cell_count();
        let mut s: Single = num(0);
        let mut t: i64 = 0;
        while t < n
            invariant
                self.wf(),
                self@.inside(x as int, y as int),
                -0x8_0000_0000 <= sx <= 0x8_0000_0000,
                -0x8_0000_0000 <= sy <= 0x8_0000_0000,
                self@.patch_known(sx as int, sy as int),
                n == self@.cells(),
                0 <= t <= n,
                s == self@.squares_upto(x as int, y as int, sx as int, sy as int, t as int),
            decreases n - t,
        {
            let (dx, dy) = self.cell_at(t);
            assert(self@.known_at(sx + self@.cell(t as int).0, sy + self@.cell(t as int).1));
            if self.is_known_at(x + dx, y + dy) {
                let a: usize = self.number(x + dx, y + dy) * 3;
                let b: usize = self.number(sx + dx, sy + dy) * 3;
                let d0: Single = self.cur[a].minus(self.cur[b]);
                let d1: Single = self.cur[a + 1].minus(self.cur[b + 1]);
                let d2: Single = self.cur[a + 2].minus(self.cur[b + 2]);
                s = s.plus(d0.times(d0)).plus(d1.times(d1)).plus(d2.times(d2));
            }
            t = t + 1;
        }
        s
    }

    fn fit(&self, x: i64, y: i64, sx: i64, sy: i64) -> (s: Single)
        requires
            self.wf(),
            self@.inside(x as int, y as int),
            -0x8_0000_0000 <= sx <= 0x8_0000_0000,
            -0x8_0000_0000 <= sy <= 0x8_0000_0000,
        ensures
            s == self@.misfit(x as int, y as int, sx as int, sy as int),
    {
        if self.is_patch_known(sx, sy) {
            self.squares(x, y, sx, sy)
        } else {
            num(0x7f80_0000)  // infinity
        }
    }

    fn find_first(&self, x: i64, y: i64, seed: u64, tries: u32) -> (r: ((i32, i32), u64))
        requires
            self.wf(),
            self@.inside(x as int, y as int),
        ensures
            r == self@.first_offset(x as int, y as int, seed, tries as nat),
        decreases tries,
    {
        if tries == 0 {
            return ((0, 0), seed);
        }
        let s1: u64 = next(seed);
        let s2: u64 = next(s1);
        let sx: i64 = place(s1, self.w);
        let sy: i64 = place(s2, self.h);
        if self.is_patch_known(sx, sy) {
            proof {
                let mid = 2 * self.p * (self.p + 1);
                lemma_middle(self.p as int);
                assert(self@.cell(mid) == (0int, 0int));
                assert(self@.known_at(sx + self@.cell(mid).0, sy + self@.cell(mid).1));
                lemma_sides(self.w as int, self.h as int);
            }
            (((sx - x) as i32, (sy - y) as i32), s2)
        } else {
            self.find_first(x, y, s2, tries - 1)
        }
    }

    /// Gives every unknown pixel a first offset.
    fn start(&mut self)
        requires
            old(self).wf(),
        ensures
            final(self).wf(),
            final(self)@ == old(self)@.started(old(self).w * old(self).h),
            final(self).w == old(self).w,
            final(self).h == old(self).h,
    {
        let ghost first = self@;
        let n: usize = self.known.len();
        let mut i: usize = 0;
        while i < n
            invariant
                self.wf(),
                n == self.w * self.h,
                i <= n,
                first.w == self.w,
                first.h == self.h,
                first.known == self.known@,
                first.p == self.p,
                first.cur == self.cur@,
                self@ == first.started(i as int),
            decreases n - i,
        {
            proof {
                lemma_pixel_place(self.w as int, self.h as int, i as int);
            }
            if !self.known[i] {
                let x: i64 = (i % self.w as usize) as i64;
                let y: i64 = (i / self.w as usize) as i64;
                let ghost now = self@;
                let (o, s) = self.find_first(x, y, self.seed, 64);
                proof {
                    lemma_first_offset_same(first, now, x as int, y as int, now.seed, 64);
                }
                self.off.set(i, o);
                self.seed = s;
            }
            i = i + 1;
        }
    }

    fn take_over(&self, x: i64, y: i64, nx: i64, ny: i64, best: ((i32, i32), Single)) -> (r: (
        (i32, i32),
        Single,
    ))
        requires
            self.wf(),
            self@.inside(x as int, y as int),
        ensures
            r == self@.adopt(x as int, y as int, nx as int, ny as int, best),
    {
        if nx < 0 || ny < 0 || nx >= self.w as i64 || ny >= self.h as i64 {
            return best;
        }
        let i: usize = self.number(nx, ny);
        if self.known[i] {
            return best;
        }
        let o: (i32, i32) = self.off[i];
        let e: Single = self.fit(x, y, x + o.0 as i64, y + o.1 as i64);
        if e.lt(best.1) {
            (o, e)
        } else {
            best
        }
    }

    fn full_reach(&self) -> (m: u32)
        requires
            self.wf(),
        ensures
            m == self@.reach(),
            8 <= m <= i32::MAX,
    {
        proof {
            lemma_sides(self.w as int, self.h as int);
        }
        let m: u32 = if self.w < self.h {
            self.h
        } else {
            self.w
        };
        if m < 8 {
            8
        } else {
            m
        }
    }

    fn search(
        &self,
        x: i64,
        y: i64,
        j: u32,
        power: u128,
        best: ((i32, i32), Single),
        seed: u64,
    ) -> (r: (((i32, i32), Single), u64))
        requires
            self.wf(),
            self@.inside(x as int, y as int),
            j <= 32,
            power == pow2(j as nat),
        ensures
            r == self@.refine(x as int, y as int, j as nat, best, seed),
        decreases 32 - j,
    {
        let m: u32 = self.full_reach();
        proof {
            vstd::arithmetic::power2::lemma2_to64();
        }
        if m as u128 <= power {
            return (best, seed);
        }
        proof {
            if j == 32 {
                assert(power == 0x1_0000_0000);
            }
            vstd::arithmetic::power2::lemma_pow2_unfold((j + 1) as nat);
            lemma_sides(self.w as int, self.h as int);
        }
        let s1: u64 = next(seed);
        let s2: u64 = next(s1);
        let dx: i64 = step(s1, m, j, power);
        let dy: i64 = step(s2, m, j, power);
        let sx: i64 = x + dx;
        let sy: i64 = y + dy;
        if sx >= 0 && sy >= 0 && sx < self.w as i64 && sy < self.h as i64 {
            let e: Single = self.fit(x, y, sx, sy);
            if e.lt(best.1) {
                return self.search(x, y, j + 1, power * 2, ((dx as i32, dy as i32), e), s2);
            }
        }
        self.search(x, y, j + 1, power * 2, best, s2)
    }

    /// Matches one unknown pixel anew.
    fn match_pixel(&mut self, i: usize, forward: bool)
        requires
            old(self).wf(),
            i < old(self).w * old(self).h,
        ensures
            final(self).wf(),
            final(self)@ == old(self)@.matched(i as int, forward),
    {
        proof {
            lemma_pixel_place(self.w as int, self.h as int, i as int);
            vstd::arithmetic::power2::lemma2_to64();
        }
        let x: i64 = (i % self.w as usize) as i64;
        let y: i64 = (i / self.w as usize) as i64;
        let o: (i32, i32) = self.off[i];
        let e: Single = self.fit(x, y, x + o.0 as i64, y + o.1 as i64);
        let side: ((i32, i32), Single) = if forward {
            self.take_over(x, y, x - 1, y, (o, e))
        } else {
            self.take_over(x, y, x + 1, y, (o, e))
        };
        let both: ((i32, i32), Single) = if forward {
            self.take_over(x, y, x, y - 1, side)
        } else {
            self.take_over(x, y, x, y + 1, side)
        };
        let (best, s) = self.search(x, y, 0, 1, both, self.seed);
        self.off.set(i, best.0);
        self.seed = s;
    }

    /// One pass over all unknown pixels.
    fn pass(&mut self, forward: bool)
        requires
            old(self).wf(),
        ensures
            final(self).wf(),
            final(self)@ == old(self)@.passed(forward, old(self).w * old(self).h),
            final(self).w == old(self).w,
            final(self).h == old(self).h,
            final(self).known@ == old(self).known@,
    {
        let ghost first = self@;
        let n: usize = self.known.len();
        let mut k: usize = 0;
        while k < n
            invariant
                self.wf(),
                first.w == self.w,
                first.h == self.h,
                first.known == self.known@,
                n == self.w * self.h,
                k <= n,
                self@ == first.passed(forward, k as int),
            decreases n - k,
        {
            let i: usize = if forward {
                k
            } else {
                n - 1 - k
            };
            if !self.known[i] {
                self.match_pixel(i, forward);
            }
            k = k + 1;
        }
    }

    /// `inner` passes, forward and backward in turn.
    fn run_passes(&mut self, inner: u32)
        requires
            old(self).wf(),
        ensures
            final(self).wf(),
            final(self)@ == old(self)@.passes(inner as int),
            final(self).w == old(self).w,
            final(self).h == old(self).h,
            final(self).known@ == old(self).known@,
    {
        let ghost first = self@;
        let mut k: u32 = 0;
        while k < inner
            invariant
                self.wf(),
                first.w == self.w,
                first.h == self.h,
                first.known == self.known@,
                k <= inner,
                self@ == first.passes(k as int),
            decreases inner - k,
        {
            self.pass(k % 2 == 0);
            k = k + 1;
        }
    }
}

/// The middle of a patch is one of its pixels.
proof fn lemma_middle(p: int)
    requires
        0 <= p,
    ensures
        0 <= 2 * p * (p + 1) < (2 * p + 1) * (2 * p + 1),
        (2 * p * (p + 1)) / (2 * p + 1) == p,
        (2 * p * (p + 1)) % (2 * p + 1) == p,
{
    let side = 2 * p + 1;
    assert(2 * p * (p + 1) == p * side + p) by (nonlinear_arith)
        requires
            side == 2 * p + 1,
    ;
    assert(0 <= p * side + p < side * side) by (nonlinear_arith)
        requires
            side == 2 * p + 1,
            p >= 0,
    ;
    vstd::arithmetic::div_mod::lemma_fundamental_div_mod_converse(p * side + p, side, p, p);
}

/// Sides are no longer than the area.
proof fn lemma_sides(w: int, h: int)
    requires
        0 < w,
        0 < h,
    ensures
        w <= w * h,
        h <= w * h,
{
    assert(w <= w * h && h <= w * h) by (nonlinear_arith)
        requires
            0 < w,
            0 < h,
    ;
}

/// First offsets depend on what is known, not on the offsets.
proof fn lemma_first_offset_same(a: Canvas, b: Canvas, x: int, y: int, seed: u64, tries: nat)
    requires
        a.w == b.w,
        a.h == b.h,
        a.p == b.p,
        a.known == b.known,
    ensures
        a.first_offset(x, y, seed, tries) == b.first_offset(x, y, seed, tries),
    decreases tries,
{
    if tries > 0 {
        let s1 = next_random(seed);
        let s2 = next_random(s1);
        let sx = random_place(s1, a.w);
        let sy = random_place(s2, a.h);
        assert(a.patch_known(sx, sy) == b.patch_known(sx, sy)) by {
            assert forall|t: int| 0 <= t < a.cells() implies a.cell(t) == b.cell(t) by {}
            if a.patch_known(sx, sy) {
                assert forall|t: int| 0 <= t < b.cells() implies b.known_at(
                    sx + (#[trigger] b.cell(t)).0,
                    sy + b.cell(t).1,
                ) by {
                    assert(a.known_at(sx + a.cell(t).0, sy + a.cell(t).1));
                }
            }
            if b.patch_known(sx, sy) {
                assert forall|t: int| 0 <= t < a.cells() implies a.known_at(
                    sx + (#[trigger] a.cell(t)).0,
                    sy + a.cell(t).1,
                ) by {
                    assert(b.known_at(sx + b.cell(t).0, sy + b.cell(t).1));
                }
            }
        }
        lemma_first_offset_same(a, b, x, y, s2, (tries - 1) as nat);
    }
}

impl Work {
    fn touches(&self, x: i64, y: i64) -> (b: bool)
        requires
            self.wf(),
            self@.inside(x as int, y as int),
        ensures
            b == self@.touches_upto(x as int, y as int, self@.cells()),
    {
        let n: i64 = self.cell_count();
        let mut t: i64 = 0;
        while t < n
            invariant
                self.wf(),
                self@.inside(x as int, y as int),
                n == self@.cells(),
                0 <= t <= n,
                !self@.touches_upto(x as int, y as int, t as int),
            decreases n - t,
        {
            let (dx, dy) = self.cell_at(t);
            assert(self@.cell(t as int) == (dx as int, dy as int));
            if self.is_known_at(x + dx, y + dy) {
                return true;
            }
            t = t + 1;
        }
        false
    }

    /// Adds the patch at an unknown pixel to the sums of the unknown pixels that it covers.
    fn add_patch(&self, x: i64, y: i64, sum: &mut Vec<Single>, cnt: &mut Vec<u64>, Ghost(limit):
        Ghost<int>)
        requires
            self.wf(),
            self@.inside(x as int, y as int),
            old(sum)@.len() == self.w * self.h * 3,
            old(cnt)@.len() == self.w * self.h,
            0 <= limit <= 0x7fff_ffff,
            forall|i: int| 0 <= i < old(cnt)@.len() ==> #[trigger] old(cnt)@[i] <= limit,
        ensures
            final(sum)@.len() == self.w * self.h * 3,
            final(cnt)@.len() == self.w * self.h,
            (final(sum)@, final(cnt)@) == self@.spread_patch(
                x as int,
                y as int,
                (old(sum)@, old(cnt)@),
                self@.cells(),
            ),
            forall|i: int|
                0 <= i < final(cnt)@.len() ==> #[trigger] final(cnt)@[i] <= limit + 1,
    {
        let ghost start = (sum@, cnt@);
        let n: i64 = self.cell_count();
        let o: (i32, i32) = self.off[self.number(x, y)];
        let mut t: i64 = 0;
        while t < n
            invariant
                self.wf(),
                self@.inside(x as int, y as int),
                o == self.off@[y * self.w + x],
                n == self@.cells(),
                0 <= t <= n,
                0 <= limit <= 0x7fff_ffff,
                sum@.len() == self.w * self.h * 3,
                cnt@.len() == self.w * self.h,
                (sum@, cnt@) == self@.spread_patch(x as int, y as int, start, t as int),
                forall|i: int|
                    0 <= i < cnt@.len() ==> #[trigger] cnt@[i] <= limit || (cnt@[i] <= limit + 1
                        && self@.cell_over(x as int, y as int, i) < t),
            decreases n - t,
        {
            let (dx, dy) = self.cell_at(t);
            let (tx, ty): (i64, i64) = (x + dx, y + dy);
            let (vx, vy): (i64, i64) = (x + o.0 as i64 + dx, y + o.1 as i64 + dy);
            if tx >= 0 && ty >= 0 && tx < self.w as i64 && ty < self.h as i64 {
                let i: usize = self.number(tx, ty);
                proof {
                    lemma_cell_over(self@, x as int, y as int, t as int);
                }
                if !self.known[i] && self.is_known_at(vx, vy) {
                    let v: usize = self.number(vx, vy) * 3;
                    let s0: Single = sum[i * 3].plus(self.cur[v]);
                    let s1: Single = sum[i * 3 + 1].plus(self.cur[v + 1]);
                    let s2: Single = sum[i * 3 + 2].plus(self.cur[v + 2]);
                    sum.set(i * 3, s0);
                    sum.set(i * 3 + 1, s1);
                    sum.set(i * 3 + 2, s2);
                    let m: u64 = cnt[i] + 1;
                    cnt.set(i, m);
                }
            }
            t = t + 1;
        }
    }

    /// The sums and counts of what covers each unknown pixel.
    fn add_patches(&self) -> (r: (Vec<Single>, Vec<u64>))
        requires
            self.wf(),
        ensures
            (r.0@, r.1@) == self@.spread(self.w * self.h),
            r.0@.len() == self.w * self.h * 3,
            r.1@.len() == self.w * self.h,
            forall|i: int| 0 <= i < r.1@.len() ==> #[trigger] r.1@[i] <= 0x7fff_ffff,
    {
        let n: usize = self.known.len();
        let m: usize = self.cur.len();
        let mut sum: Vec<Single> = Vec::new();
        let mut i: usize = 0;
        while i < m
            invariant
                i <= m,
                sum@.len() == i,
                forall|j: int| 0 <= j < i ==> #[trigger] sum@[j] == num(0),
            decreases m - i,
        {
            sum.push(num(0));
            i = i + 1;
        }
        let mut cnt: Vec<u64> = vec![0u64; n];
        proof {
            assert(sum@ =~= self@.spread(0).0);
            assert(cnt@ =~= self@.spread(0).1);
        }
        let mut k: usize = 0;
        while k < n
            invariant
                self.wf(),
                n == self.w * self.h,
                k <= n,
                sum@.len() == self.w * self.h * 3,
                cnt@.len() == self.w * self.h,
                (sum@, cnt@) == self@.spread(k as int),
                forall|i: int| 0 <= i < cnt@.len() ==> #[trigger] cnt@[i] <= k,
            decreases n - k,
        {
            proof {
                lemma_pixel_place(self.w as int, self.h as int, k as int);
            }
            let x: i64 = (k % self.w as usize) as i64;
            let y: i64 = (k / self.w as usize) as i64;
            if !self.known[k] && self.touches(x, y) {
                self.add_patch(x, y, &mut sum, &mut cnt, Ghost(k as int));
            }
            k = k + 1;
        }
        (sum, cnt)
    }

    /// Fills the covered unknown pixels and says how many those were.
    fn fill(&mut self) -> (count: usize)
        requires
            old(self).wf(),
        ensures
            final(self).wf(),
            final(self)@ == old(self)@.filled(),
            final(self).w == old(self).w,
            final(self).h == old(self).h,
            (count == 0) == (forall|i: int|
                0 <= i < old(self).known@.len() ==> !#[trigger] old(self)@.gains(i)),
    {
        let ghost first = self@;
        let (sum, cnt) = self.add_patches();
        let n: usize = self.known.len();
        let mut count: usize = 0;
        let mut i: usize = 0;
        while i < n
            invariant
                self.wf(),
                n == self.w * self.h,
                first.w == self.w,
                first.h == self.h,
                first.p == self.p,
                first.off == self.off@,
                first.seed == self.seed,
                first.known.len() == n,
                first.cur.len() == 3 * n,
                sum@.len() == 3 * n,
                cnt@.len() == n,
                (sum@, cnt@) == first.spread(n as int),
                forall|j: int| 0 <= j < n ==> #[trigger] cnt@[j] <= 0x7fff_ffff,
                i <= n,
                count <= i,
                (count == 0) == (forall|j: int| 0 <= j < i ==> !#[trigger] first.gains(j)),
                forall|j: int|
                    0 <= j < n ==> #[trigger] self.known@[j] == if j < i {
                        first.known[j] || first.gains(j)
                    } else {
                        first.known[j]
                    },
                forall|k: int|
                    0 <= k < 3 * n ==> #[trigger] self.cur@[k] == if k < 3 * i && first.gains(
                        k / 3,
                    ) {
                        sum@[k].over(Single::spec_from_int(cnt@[k / 3] as int))
                    } else {
                        first.cur[k]
                    },
            decreases n - i,
        {
            let ghost before = self.cur@;
            let ghost held = self.known@;
            assert(self.known@[i as int] == first.known[i as int]);
            let gained: bool = !self.known[i] && cnt[i] > 0;
            assert(gained == first.gains(i as int));
            if gained {
                let c: Single = Single::from_int(cnt[i] as i128);
                self.cur.set(i * 3, sum[i * 3].over(c));
                self.cur.set(i * 3 + 1, sum[i * 3 + 1].over(c));
                self.cur.set(i * 3 + 2, sum[i * 3 + 2].over(c));
                self.known.set(i, true);
                count = count + 1;
            }
            proof {
                assert forall|k: int| 0 <= k < 3 * n implies #[trigger] self.cur@[k] == if k < 3
                    * (i + 1) && first.gains(k / 3) {
                    sum@[k].over(Single::spec_from_int(cnt@[k / 3] as int))
                } else {
                    first.cur[k]
                } by {
                    assert(before[k] == if k < 3 * i && first.gains(k / 3) {
                        sum@[k].over(Single::spec_from_int(cnt@[k / 3] as int))
                    } else {
                        first.cur[k]
                    });
                    if 3 * i <= k < 3 * (i + 1) {
                        assert(k / 3 == i);
                    }
                }
                assert forall|j: int| 0 <= j < n implies #[trigger] self.known@[j] == if j < i + 1 {
                    first.known[j] || first.gains(j)
                } else {
                    first.known[j]
                } by {
                    assert(held[j] == if j < i {
                        first.known[j] || first.gains(j)
                    } else {
                        first.known[j]
                    });
                }
            }
            i = i + 1;
        }
        proof {
            let f = first.filled();
            assert(self.cur@ =~= f.cur);
            assert(self.known@ =~= f.known);
        }
        count
    }

    fn is_complete(&self) -> (b: bool)
        ensures
            b == self@.all_known(),
    {
        let n: usize = self.known.len();
        let mut i: usize = 0;
        while i < n
            invariant
                i <= n,
                n == self.known@.len(),
                forall|j: int| 0 <= j < i ==> #[trigger] self.known@[j],
            decreases n - i,
        {
            if !self.known[i] {
                assert(!self@.known[i as int]);
                return false;
            }
            i = i + 1;
        }
        true
    }

    /// At most `left` rounds.
    fn run(&mut self, inner: u32, left: u32)
        requires
            old(self).wf(),
        ensures
            final(self).wf(),
            final(self)@ == old(self)@.rounds(inner as int, left as nat),
            final(self).w == old(self).w,
            final(self).h == old(self).h,
        decreases left,
    {
        if left == 0 {
            return;
        }
        self.run_passes(inner);
        let count: usize = self.fill();
        if count == 0 || self.is_complete() {
            return;
        }
        self.run(inner, left - 1);
    }
}

/// Fills the pixels under the mask, in place, and says whether all of them were filled. What
/// could not be filled, and everything outside the mask, stays.
pub fn patchmatch_fill(img: &mut RgbImage, mask: &GrayImage, patch_r: u32, inner_iters: u32) -> (all:
    bool)
    requires
        old(img).wf(),
        mask.wf(),
        mask.width == old(img).width,
        mask.height == old(img).height,
        old(img).width * old(img).height <= i32::MAX,
        patch_r <= MAX_REACH,
    ensures
        final(img).wf(),
        final(img).width == old(img).width,
        final(img).height == old(img).height,
        all == finished(
            old(img).width as int,
            old(img).height as int,
            old(img).data@,
            mask.data@,
            patch_r as int,
            inner_iters as int,
        ).all_known(),
        final(img).data@ == patched(
            old(img).width as int,
            old(img).height as int,
            old(img).data@,
            mask.data@,
            patch_r as int,
            inner_iters as int,
        ),
{
    let ghost first = *img;
    let ghost (gw, gh) = (first.width as int, first.height as int);
    let ghost c = canvas_of(gw, gh, first.data@, mask.data@, patch_r as int);
    let ghost end = finished(
        gw,
        gh,
        first.data@,
        mask.data@,
        patch_r as int,
        inner_iters as int,
    );
    let ghost expected = patched(
        gw,
        gh,
        first.data@,
        mask.data@,
        patch_r as int,
        inner_iters as int,
    );
    let n: usize = mask.data.len();
    let m: usize = img.data.len();
    let mut cur: Vec<Single> = Vec::new();
    let mut i: usize = 0;
    while i < m
        invariant
            *img == first,
            i <= m,
            m == first.data@.len(),
            cur@.len() == i,
            forall|j: int|
                0 <= j < i ==> #[trigger] cur@[j] == Single::spec_from_int(first.data@[j] as int),
        decreases m - i,
    {
        cur.push(Single::from_int(img.data[i] as i128));
        i = i + 1;
    }
    let mut known: Vec<bool> = Vec::new();
    let mut off: Vec<(i32, i32)> = Vec::new();
    let mut i: usize = 0;
    while i < n
        invariant
            i <= n,
            n == mask.data@.len(),
            known@.len() == i,
            off@.len() == i,
            forall|j: int| 0 <= j < i ==> #[trigger] known@[j] == (mask.data@[j] == 0),
            forall|j: int| 0 <= j < i ==> #[trigger] off@[j] == (0i32, 0i32),
        decreases n - i,
    {
        known.push(mask.data[i] == 0);
        off.push((0, 0));
        i = i + 1;
    }
    let mut work: Work = Work {
        w: img.width,
        h: img.height,
        p: patch_r,
        cur,
        known,
        off,
        seed: 0x9e37_79b9_7f4a_7c15,
    };
    proof {
        assert(work.cur@ =~= c.cur);
        assert(work.known@ =~= c.known);
        assert(work.off@ =~= c.off);
        assert(work@ == c);
    }
    if work.is_complete() {
        proof {
            assert forall|i: int| 0 <= i < n implies #[trigger] mask.data@[i] == 0 by {
                assert(c.known[i]);
            }
            assert(img.data@ =~= expected);
        }
        return true;
    }
    proof {
        assert(img.width > 0 && img.height > 0) by {
            if img.width == 0 || img.height == 0 {
                assert(img.width * img.height == 0) by (nonlinear_arith)
                    requires
                        img.width == 0 || img.height == 0,
                ;
                assert(c.all_known());
            }
        }
    }
    work.start();
    work.run(inner_iters, 81);
    let all: bool = work.is_complete();
    let mut i: usize = 0;
    while i < n
        invariant
            img.wf(),
            img.width == first.width,
            img.height == first.height,
            img.data@.len() == 3 * n,
            first.data@.len() == 3 * n,
            m == 3 * n,
            mask.data@.len() == n,
            work.known@.len() == n,
            work.cur@.len() == 3 * n,
            work@ == end,
            i <= n,
            forall|k: int|
                0 <= k < 3 * n ==> #[trigger] img.data@[k] == if k < 3 * i && mask.data@[k / 3] > 0
                    && end.known[k / 3] {
                    as_byte(end.cur[k])
                } else {
                    first.data@[k]
                },
        decreases n - i,
    {
        let ghost before = img.data@;
        if work.known[i] && mask.data[i] > 0 {
            img.data.set(i * 3, to_byte(work.cur[i * 3]));
            img.data.set(i * 3 + 1, to_byte(work.cur[i * 3 + 1]));
            img.data.set(i * 3 + 2, to_byte(work.cur[i * 3 + 2]));
        }
        proof {
            assert forall|k: int| 0 <= k < 3 * n implies #[trigger] img.data@[k] == if k < 3 * (i
                + 1) && mask.data@[k / 3] > 0 && end.known[k / 3] {
                as_byte(end.cur[k])
            } else {
                first.data@[k]
            } by {
                assert(before[k] == if k < 3 * i && mask.data@[k / 3] > 0 && end.known[k / 3] {
                    as_byte(end.cur[k])
                } else {
                    first.data@[k]
                });
                if 3 * i <= k < 3 * (i + 1) {
                    assert(k / 3 == i);
                }
            }
        }
        i = i + 1;
    }
    assert(img.data@ =~= expected);
    all
}

/// Filling changes nothing outside the mask.
pub proof fn law_patching_stays_under_mask(
    w: int,
    h: int,
    data: Seq<u8>,
    mask: Seq<u8>,
    p: int,
    inner: int,
    k: int,
)
    requires
        0 <= k < data.len(),
        mask[k / 3] == 0,
    ensures
        patched(w, h, data, mask, p, inner)[k] == data[k],
{
}

} // verus!
