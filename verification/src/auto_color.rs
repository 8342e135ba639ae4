//! One-click colour: the neutral balance of a picture, and film looks.

use crate::analyze::{how_many, eighth_of, hue_eighth};
use crate::color_engine::{color_plan, scene_rules, ColorMetrics, ColorPlan};
use crate::double::{mean_of, sum_of_all, sum_where, wide, Double};
use crate::fixed::{fixed, worded};
use crate::pipeline::{
    Adjustments, ColorGrade, DefakeColor, Grade, HslRegions, SkinTone, ToneMapMode, WhiteBalance,
};
use crate::single::{law_one_is_neutral, num, Single};
use crate::text::{decimal_text, digits};
use vstd::prelude::*;
use vstd::string::*;

verus! {

/// Rough shape of a histogram.
#[derive(Clone, Copy, Debug, PartialEq, Eq, Structural)]
pub enum HistogramType {
    HighKey,
    LowKey,
    HighContrast,
    Flat,
    Normal,
}

impl Default for HistogramType {
    fn default() -> (r: HistogramType)
        ensures
            r == HistogramType::Normal,
    {
        HistogramType::Normal
    }
}

/// What a picture shows.
#[derive(Clone, Copy, Debug, PartialEq, Eq)]
pub struct SceneStyle {
    pub histogram: HistogramType,
    /// Strongest eighth of the hue circle.
    pub dominant_hue: Option<usize>,
    /// Second strongest eighth of the hue circle.
    pub secondary_hue: Option<usize>,
    pub mean_l: Single,
    pub mean_c: Single,
    pub std_l: Single,
}

impl SceneStyle {
    pub open spec fn spec_default() -> SceneStyle {
        SceneStyle {
            histogram: HistogramType::Normal,
            dominant_hue: None,
            secondary_hue: None,
            mean_l: num(0),
            mean_c: num(0),
            std_l: num(0),
        }
    }
}

impl Default for SceneStyle {
    fn default() -> (r: SceneStyle)
        ensures
            r == SceneStyle::spec_default(),
    {
        SceneStyle {
            histogram: HistogramType::Normal,
            dominant_hue: None,
            secondary_hue: None,
            mean_l: num(0),
            mean_c: num(0),
            std_l: num(0),
        }
    }
}

/// The neutral balance of a picture.
#[derive(Clone, Copy, Debug, PartialEq, Eq)]
pub struct AutoBalance {
    /// White balance against the cast.
    pub wb: WhiteBalance,
    pub light_ratio: Single,
    pub film_curve: Single,
    pub exposure_ev: Single,
    /// Share of the developed picture.
    pub mix: Single,
    /// The compensation below is applied.
    pub smart_compensation: bool,
    pub scene: SceneStyle,
    pub comp_color: ColorGrade,
    pub comp_grade: Grade,
    pub comp_hsl: HslRegions,
    pub color_plan: Option<ColorPlan>,
}

impl AutoBalance {
    pub open spec fn spec_default() -> AutoBalance {
        AutoBalance {
            wb: WhiteBalance::spec_default(),
            light_ratio: num(0),
            film_curve: num(0),
            exposure_ev: num(0),
            mix: num(0),
            smart_compensation: false,
            scene: SceneStyle::spec_default(),
            comp_color: ColorGrade::spec_default(),
            comp_grade: Grade::spec_default(),
            comp_hsl: HslRegions::spec_default(),
            color_plan: None,
        }
    }
}

impl Default for AutoBalance {
    fn default() -> (r: AutoBalance)
        ensures
            r == AutoBalance::spec_default(),
    {
        AutoBalance {
            wb: WhiteBalance::default(),
            light_ratio: num(0),
            film_curve: num(0),
            exposure_ev: num(0),
            mix: num(0),
            smart_compensation: false,
            scene: SceneStyle::default(),
            comp_color: ColorGrade::default(),
            comp_grade: Grade::default(),
            comp_hsl: HslRegions::default(),
            color_plan: None,
        }
    }
}

impl AutoBalance {
    pub open spec fn spec_to_adjustments(self) -> Adjustments {
        let s: bool = self.smart_compensation;
        let c: ColorGrade = ColorGrade::spec_default();
        let h: HslRegions = HslRegions::spec_default();
        Adjustments {
            exposure_ev: self.exposure_ev,
            tone_map: ToneMapMode::Agx,
            defake: DefakeColor::on(),
            grade: Grade {
                film_curve: if s {
                    self.film_curve.plus(self.comp_grade.film_curve)
                } else {
                    self.film_curve
                },
                light_ratio: if s {
                    self.light_ratio.plus(self.comp_grade.light_ratio)
                } else {
                    self.light_ratio
                },
                ..Grade::spec_default()
            },
            white_balance: self.wb,
            color: ColorGrade {
                vibrance: if s {
                    c.vibrance.plus(self.comp_color.vibrance)
                } else {
                    c.vibrance
                },
                saturation: if s {
                    c.saturation.times(self.comp_color.saturation)
                } else {
                    c.saturation
                },
                ..c
            },
            hsl: if s {
                HslRegions {
                    sat_mult: [
                        h.sat_mult[0].times(self.comp_hsl.sat_mult[0]),
                        h.sat_mult[1].times(self.comp_hsl.sat_mult[1]),
                        h.sat_mult[2].times(self.comp_hsl.sat_mult[2]),
                        h.sat_mult[3].times(self.comp_hsl.sat_mult[3]),
                        h.sat_mult[4].times(self.comp_hsl.sat_mult[4]),
                        h.sat_mult[5].times(self.comp_hsl.sat_mult[5]),
                        h.sat_mult[6].times(self.comp_hsl.sat_mult[6]),
                        h.sat_mult[7].times(self.comp_hsl.sat_mult[7]),
                    ],
                    ..h
                }
            } else {
                h
            },
            color_plan: self.color_plan,
            mix: self.mix,
            ..Adjustments::spec_default()
        }
    }

    /// The settings that apply the balance. Where compensation is on, its amounts are added to
    /// them and its factors, whose neutral value is 1, multiply them.
    #[verifier::when_used_as_spec(spec_to_adjustments)]
    pub fn to_adjustments(self) -> (r: Adjustments)
        ensures
            r == self.spec_to_adjustments(),
    {
        let s: bool = self.smart_compensation;
        let c: ColorGrade = ColorGrade::default();
        let h: HslRegions = HslRegions::default();
        Adjustments {
            exposure_ev: self.exposure_ev,
            tone_map: ToneMapMode::Agx,
            defake: DefakeColor::on(),
            grade: Grade {
                film_curve: if s {
                    self.film_curve.plus(self.comp_grade.film_curve)
                } else {
                    self.film_curve
                },
                light_ratio: if s {
                    self.light_ratio.plus(self.comp_grade.light_ratio)
                } else {
                    self.light_ratio
                },
                ..Grade::default()
            },
            white_balance: self.wb,
            color: ColorGrade {
                vibrance: if s {
                    c.vibrance.plus(self.comp_color.vibrance)
                } else {
                    c.vibrance
                },
                saturation: if s {
                    c.saturation.times(self.comp_color.saturation)
                } else {
                    c.saturation
                },
                ..c
            },
            hsl: if s {
                HslRegions {
                    sat_mult: [
                        h.sat_mult[0].times(self.comp_hsl.sat_mult[0]),
                        h.sat_mult[1].times(self.comp_hsl.sat_mult[1]),
                        h.sat_mult[2].times(self.comp_hsl.sat_mult[2]),
                        h.sat_mult[3].times(self.comp_hsl.sat_mult[3]),
                        h.sat_mult[4].times(self.comp_hsl.sat_mult[4]),
                        h.sat_mult[5].times(self.comp_hsl.sat_mult[5]),
                        h.sat_mult[6].times(self.comp_hsl.sat_mult[6]),
                        h.sat_mult[7].times(self.comp_hsl.sat_mult[7]),
                    ],
                    ..h
                }
            } else {
                h
            },
            color_plan: self.color_plan,
            mix: self.mix,
            ..Adjustments::default()
        }
    }
}

/// Neutral compensation changes no factor of the settings.
pub proof fn law_neutral_compensation_does_nothing(b: AutoBalance)
    requires
        b.comp_color == ColorGrade::spec_default(),
        b.comp_hsl.sat_mult == HslRegions::spec_default().sat_mult,
    ensures
        ({
            let a = b.spec_to_adjustments();
            &&& a.color.saturation == ColorGrade::spec_default().saturation
            &&& a.hsl.sat_mult@ =~= HslRegions::spec_default().sat_mult@
        }),
{
    law_one_is_neutral(num(0x3f80_0000));
}

/// The factors of compensation are those of the settings.
pub proof fn law_compensation_sets_factors(b: AutoBalance, i: int)
    requires
        b.smart_compensation,
        0 <= i < 8,
        !b.comp_color.saturation.is_nan(),
        !b.comp_hsl.sat_mult[i].is_nan(),
    ensures
        b.spec_to_adjustments().color.saturation == b.comp_color.saturation,
        b.spec_to_adjustments().hsl.sat_mult[i] == b.comp_hsl.sat_mult[i],
{
    law_one_is_neutral(b.comp_color.saturation);
    law_one_is_neutral(b.comp_hsl.sat_mult[i]);
}

/// One sample of a picture.
#[derive(Clone, Copy, Debug, PartialEq, Eq, Structural)]
pub struct LabSample {
    pub l: Single,
    /// The two axes of colour.
    pub a: Single,
    pub b: Single,
    pub c: Single,
    /// Angle in degrees, 0 to 360.
    pub hue: Single,
}

/// Samples along the longer side for the balance of a picture, and for its scene.
pub const SAMPLES: u32 = 512;

/// Samples along the longer side for the compensation, of the balanced picture.
pub const SAMPLES_AGAIN: u32 = 256;

/// The colour plan of a balance: by the rules of the scene, at a strength of 0.8.
pub fn balance_plan(cm: &ColorMetrics) -> (r: ColorPlan)
    ensures
        r == color_plan(cm, &scene_rules(cm.scene), num(0x3f4c_cccd)),  // 0.8
{
    color_plan(cm, &scene_rules(cm.scene), num(0x3f4c_cccd))  // 0.8
}

/// The sampling step that brings the longer side down to `limit` samples.
pub fn sampling_step(width: u32, height: u32, limit: u32) -> (r: u32)
    requires
        limit == SAMPLES || limit == SAMPLES_AGAIN,
    ensures
        r == step_spec(width, height, limit),
{
    let side: u32 = if width > height {
        width
    } else {
        height
    };
    Single::from_int(side as i128).over(Single::from_int(limit as i128)).max(num(0x3f80_0000)).ceil_u32()
}

pub open spec fn step_spec(width: u32, height: u32, limit: u32) -> int {
    let side = if width > height {
        width
    } else {
        height
    };
    Single::spec_from_int(side as int).over(Single::spec_from_int(limit as int)).max(
        num(0x3f80_0000),
    ).raised(0, u32::MAX as int)
}

/// How many of the first `n` samples fall on an eighth of the circle.
pub open spec fn on_eighth(v: Seq<LabSample>, e: int, n: int) -> nat
    decreases n,
{
    if n <= 0 {
        0
    } else {
        on_eighth(v, e, n - 1) + if eighth_of(v[n - 1].hue) == e {
            1nat
        } else {
            0nat
        }
    }
}

/// Counts the samples on each eighth of the circle.
pub fn count_eighths(v: &Vec<LabSample>) -> (r: Vec<usize>)
    ensures
        r@.len() == 8,
        forall|e: int| 0 <= e < 8 ==> #[trigger] r@[e] == on_eighth(v@, e, v@.len() as int),
{
    let mut r: Vec<usize> = Vec::new();
    let mut e: usize = 0;
    while e < 8
        invariant
            e <= 8,
            r@.len() == e,
            forall|j: int| 0 <= j < e ==> #[trigger] r@[j] == 0,
        decreases 8 - e,
    {
        r.push(0);
        e = e + 1;
    }
    let mut k: usize = 0;
    while k < v.len()
        invariant
            k <= v@.len(),
            r@.len() == 8,
            forall|j: int| 0 <= j < 8 ==> #[trigger] r@[j] == on_eighth(v@, j, k as int),
            forall|j: int| 0 <= j < 8 ==> #[trigger] r@[j] <= k,
        decreases v@.len() - k,
    {
        let b: usize = hue_eighth(v[k].hue);
        let was: usize = r[b];
        r[b] = was + 1;
        k = k + 1;
    }
    r
}

/// `e` is the first of the strongest eighths.
pub open spec fn strongest(counts: Seq<usize>, e: int) -> bool {
    &&& 0 <= e < counts.len()
    &&& forall|j: int| 0 <= j < counts.len() ==> counts[j] <= counts[e]
    &&& forall|j: int| 0 <= j < e ==> counts[j] < counts[e]
}

/// The strongest eighth; the first of several.
pub fn strongest_eighth(counts: &Vec<usize>) -> (r: usize)
    requires
        counts@.len() == 8,
    ensures
        strongest(counts@, r as int),
{
    let mut best: usize = 0;
    let mut i: usize = 1;
    while i < 8
        invariant
            1 <= i <= 8,
            best < i,
            counts@.len() == 8,
            forall|j: int| 0 <= j < i ==> counts@[j] <= counts@[best as int],
            forall|j: int| 0 <= j < best ==> counts@[j] < counts@[best as int],
        decreases 8 - i,
    {
        if counts[i] > counts[best] {
            best = i;
        }
        i = i + 1;
    }
    best
}

/// `e` is the second strongest eighth: the first of the strongest ones beside `first`.
pub open spec fn second_strongest(counts: Seq<usize>, first: int, e: int) -> bool {
    &&& 0 <= e < counts.len()
    &&& e != first
    &&& forall|j: int| 0 <= j < counts.len() && j != first ==> counts[j] <= counts[e]
    &&& forall|j: int| 0 <= j < e && j != first ==> counts[j] < counts[e]
}

/// The second strongest eighth; the first of several.
pub fn second_eighth(counts: &Vec<usize>, first: usize) -> (r: usize)
    requires
        counts@.len() == 8,
        first < 8,
    ensures
        second_strongest(counts@, first as int, r as int),
{
    let mut best: usize = if first == 0 {
        1
    } else {
        0
    };
    let mut i: usize = best + 1;
    while i < 8
        invariant
            best < i <= 8,
            best != first,
            first < 8,
            counts@.len() == 8,
            forall|j: int| 0 <= j < i && j != first ==> counts@[j] <= counts@[best as int],
            forall|j: int| 0 <= j < best && j != first ==> counts@[j] < counts@[best as int],
        decreases 8 - i,
    {
        if i != first && counts[i] > counts[best] {
            best = i;
        }
        i = i + 1;
    }
    best
}

pub open spec fn spec_prevails(count: usize, n: usize) -> bool {
    // 0.4
    Single::spec_from_int(count as int).over(Single::spec_from_int(n as int)).gt(num(0x3ecc_cccd))
}

/// One eighth holds more than 40 percent of the samples.
#[verifier::when_used_as_spec(spec_prevails)]
pub fn prevails(count: usize, n: usize) -> (r: bool)
    ensures
        r == spec_prevails(count, n),
{
    Single::from_int(count as i128).over(Single::from_int(n as i128)).gt(num(0x3ecc_cccd))  // 0.4
}

pub open spec fn spec_shows_cast(p: &LabSample, leave_out: bool, eighth: usize) -> bool {
    // 0.18, 0.92, 0.01
    !(p.l.lt(num(0x3e38_51ec)) || p.l.gt(num(0x3f6b_851f)) || p.c.lt(num(0x3c23_d70a)))
        && !(leave_out && eighth_at(p.hue) == eighth)
}

/// A sample shows the cast: it is not near black or white, not grey, and not of the eighth that
/// is left out.
#[verifier::when_used_as_spec(spec_shows_cast)]
pub fn shows_cast(p: &LabSample, leave_out: bool, eighth: usize) -> (r: bool)
    ensures
        r == spec_shows_cast(p, leave_out, eighth),
{
    // 0.18, 0.92, 0.01
    !(p.l.lt(num(0x3e38_51ec)) || p.l.gt(num(0x3f6b_851f)) || p.c.lt(num(0x3c23_d70a)))
        && !(leave_out && eighth_at(p.hue) == eighth)
}

pub open spec fn spec_shows_color(p: &LabSample) -> bool {
    // 0.1, 0.98, 0.005
    !(p.l.lt(num(0x3dcc_cccd)) || p.l.gt(num(0x3f7a_e148)) || p.c.lt(num(0x3ba3_d70a)))
}

/// A sample that counts where too few show the cast.
#[verifier::when_used_as_spec(spec_shows_color)]
pub fn shows_color(p: &LabSample) -> (r: bool)
    ensures
        r == spec_shows_color(p),
{
    // 0.1, 0.98, 0.005
    !(p.l.lt(num(0x3dcc_cccd)) || p.l.gt(num(0x3f7a_e148)) || p.c.lt(num(0x3ba3_d70a)))
}

pub open spec fn spec_eighth_at(hue: Single) -> usize {
    eighth_of(hue) as usize
}

/// The eighth of the circle that an angle falls on.
#[verifier::when_used_as_spec(spec_eighth_at)]
pub fn eighth_at(hue: Single) -> (r: usize)
    ensures
        r == spec_eighth_at(hue),
{
    hue_eighth(hue)
}

/// How many of the first `n` samples show the cast.
pub open spec fn casts(v: Seq<LabSample>, leave_out: bool, eighth: usize, n: int) -> nat
    decreases n,
{
    if n <= 0 {
        0
    } else {
        casts(v, leave_out, eighth, n - 1) + if spec_shows_cast(&v[n - 1], leave_out, eighth) {
            1nat
        } else {
            0nat
        }
    }
}

/// Which samples the cast is measured on: those that show it, or, where there are fewer than 64
/// of them, all that show any colour. An eighth that holds more than 40 percent of the samples
/// is left out.
pub fn choose_samples(v: &Vec<LabSample>) -> (r: Vec<bool>)
    ensures
        is_choice(r@, v@),
{
    let counts: Vec<usize> = count_eighths(v);
    let e: usize = strongest_eighth(&counts);
    let n: usize = v.len();
    let whole: usize = if n > 1 {
        n
    } else {
        1
    };
    let leave_out: bool = prevails(counts[e], whole);
    let mut r: Vec<bool> = Vec::new();
    let mut hits: usize = 0;
    let mut k: usize = 0;
    while k < n
        invariant
            k <= n,
            n == v@.len(),
            r@.len() == k,
            hits <= k,
            hits == casts(v@, leave_out, e, k as int),
            forall|j: int|
                0 <= j < k ==> #[trigger] r@[j] == spec_shows_cast(&v@[j], leave_out, e),
        decreases n - k,
    {
        let b: bool = shows_cast(&v[k], leave_out, e);
        r.push(b);
        if b {
            hits = hits + 1;
        }
        k = k + 1;
    }
    if hits < 64 {
        let mut s: Vec<bool> = Vec::new();
        let mut i: usize = 0;
        while i < n
            invariant
                i <= n,
                n == v@.len(),
                s@.len() == i,
                forall|j: int| 0 <= j < i ==> #[trigger] s@[j] == spec_shows_color(&v@[j]),
            decreases n - i,
        {
            s.push(shows_color(&v[i]));
            i = i + 1;
        }
        r = s;
    }
    proof {
        assert forall|c2: Seq<usize>, e2: usize|
            (c2.len() == 8 && (forall|j: int|
                0 <= j < 8 ==> #[trigger] c2[j] == on_eighth(v@, j, v@.len() as int)) && strongest(
                c2,
                e2 as int,
            )) implies #[trigger] chosen(r@, v@, c2, e2) by {
            assert(c2 =~= counts@);
            assert(counts@[e as int] <= counts@[e2 as int]);
            assert(counts@[e2 as int] <= counts@[e as int]);
            assert(e2 == e);
        }
    }
    r
}

/// The samples are chosen by the counts on the eighths and the strongest of them.
pub open spec fn chosen(r: Seq<bool>, v: Seq<LabSample>, counts: Seq<usize>, e: usize) -> bool {
    let whole = if v.len() > 1 {
        v.len() as usize
    } else {
        1
    };
    let leave_out = spec_prevails(counts[e as int], whole);
    &&& r.len() == v.len()
    &&& forall|j: int|
        0 <= j < v.len() ==> #[trigger] r[j] == if casts(v, leave_out, e, v.len() as int) < 64 {
            spec_shows_color(&v[j])
        } else {
            spec_shows_cast(&v[j], leave_out, e)
        }
}

/// The counts of the samples on each eighth of the circle.
pub open spec fn counts_of(counts: Seq<usize>, v: Seq<LabSample>) -> bool {
    counts.len() == 8 && forall|j: int|
        0 <= j < 8 ==> #[trigger] counts[j] == on_eighth(v, j, v.len() as int)
}

/// The samples are the ones that the cast is measured on.
pub open spec fn is_choice(r: Seq<bool>, v: Seq<LabSample>) -> bool {
    r.len() == v.len() && forall|counts: Seq<usize>, e: usize|
        counts_of(counts, v) && strongest(counts, e as int) ==> #[trigger] chosen(r, v, counts, e)
}

/// The mean of the chosen samples along one axis of colour, 0 where none is chosen.
pub open spec fn mean_along(v: Seq<LabSample>, take: Seq<bool>, first: bool) -> Single {
    let n = v.len() as int;
    let count = how_many(|i: int| take[i], n);
    if count > 0 {
        mean_of(along(v, take, first, n), count as u64)
    } else {
        num(0)
    }
}

/// The sum of the chosen ones among the first `n` samples along one axis of colour.
pub open spec fn along(v: Seq<LabSample>, take: Seq<bool>, first: bool, n: int) -> Double {
    if first {
        sum_where(|i: int| take[i], |i: int| Double::from_single(v[i].a), n)
    } else {
        sum_where(|i: int| take[i], |i: int| Double::from_single(v[i].b), n)
    }
}

/// The mean cast of the chosen samples along the two axes of colour.
pub fn mean_cast(v: &Vec<LabSample>, take: &Vec<bool>) -> (r: (Single, Single))
    requires
        take@.len() == v@.len(),
    ensures
        r.0 == mean_along(v@, take@, true),
        r.1 == mean_along(v@, take@, false),
{
    let mut sum_a: Double = wide(0);
    let mut sum_b: Double = wide(0);
    let mut count: u64 = 0;
    let mut k: usize = 0;
    while k < v.len()
        invariant
            k <= v@.len(),
            take@.len() == v@.len(),
            count == how_many(|i: int| take@[i], k as int),
            count <= k,
            sum_a == along(v@, take@, true, k as int),
            sum_b == along(v@, take@, false, k as int),
        decreases v@.len() - k,
    {
        if take[k] {
            sum_a = sum_a.plus(Double::from_single(v[k].a));
            sum_b = sum_b.plus(Double::from_single(v[k].b));
            count = count + 1;
        }
        k = k + 1;
    }
    if count > 0 {
        (mean_of(sum_a, count), mean_of(sum_b, count))
    } else {
        (num(0), num(0))
    }
}

/// The smallest and the largest lightness of the samples, from 1 down and from 0 up.
pub fn lightness_range(v: &Vec<LabSample>) -> (r: (Single, Single))
    ensures
        r == (least_l(v@, v@.len() as int), most_l(v@, v@.len() as int)),
{
    let mut least: Single = num(0x3f80_0000);  // 1
    let mut most: Single = num(0);
    let mut k: usize = 0;
    while k < v.len()
        invariant
            k <= v@.len(),
            least == least_l(v@, k as int),
            most == most_l(v@, k as int),
        decreases v@.len() - k,
    {
        if v[k].l.lt(least) {
            least = v[k].l;
        }
        if v[k].l.gt(most) {
            most = v[k].l;
        }
        k = k + 1;
    }
    (least, most)
}

/// The smallest lightness among the first `n` samples, at most 1.
pub open spec fn least_l(v: Seq<LabSample>, n: int) -> Single
    decreases n,
{
    if n <= 0 {
        num(0x3f80_0000)  // 1
    } else {
        let m = least_l(v, n - 1);
        if v[n - 1].l.lt(m) {
            v[n - 1].l
        } else {
            m
        }
    }
}

/// The largest lightness among the first `n` samples, at least 0.
pub open spec fn most_l(v: Seq<LabSample>, n: int) -> Single
    decreases n,
{
    if n <= 0 {
        num(0)
    } else {
        let m = most_l(v, n - 1);
        if v[n - 1].l.gt(m) {
            v[n - 1].l
        } else {
            m
        }
    }
}

/// The mean chroma of the samples.
pub open spec fn mean_c_of(v: Seq<LabSample>) -> Single {
    mean_of(
        sum_of_all(|i: int| Double::from_single(v[i].c), v.len() as int),
        if v.len() > 1 {
            v.len() as u64
        } else {
            1
        },
    )
}

fn find_mean_c(v: &Vec<LabSample>) -> (r: Single)
    ensures
        r == mean_c_of(v@),
{
    let mut sum: Double = wide(0);
    let mut k: usize = 0;
    while k < v.len()
        invariant
            k <= v@.len(),
            sum == sum_of_all(|i: int| Double::from_single(v@[i].c), k as int),
        decreases v@.len() - k,
    {
        sum = sum.plus(Double::from_single(v[k].c));
        k = k + 1;
    }
    let n: usize = v.len();
    mean_of(
        sum,
        if n > 1 {
            n as u64
        } else {
            1
        },
    )
}

/// Compensation of colour for a neutralised picture: vibrance for a pale one, and some more
/// saturation on the two strongest eighths.
pub fn compensation(again: &Vec<LabSample>) -> (r: (ColorGrade, HslRegions))
    ensures
        compensates(r.0, r.1, again@),
{
    let counts: Vec<usize> = count_eighths(again);
    let mean_c: Single = find_mean_c(again);
    let first: usize = strongest_eighth(&counts);
    let second: usize = second_eighth(&counts, first);
    let mut h: HslRegions = HslRegions::default();
    if counts[first] > 0 {
        h.sat_mult[first] = h.sat_mult[first].plus(num(0x3cf5_c28f));  // 0.03
    }
    if counts[second] > 0 {
        h.sat_mult[second] = h.sat_mult[second].plus(num(0x3ca3_d70a));  // 0.02
    }
    let mut c: ColorGrade = ColorGrade::default();
    c.vibrance = pale_vibrance(mean_c);
    proof {
        assert(counts_of(counts@, again@));
        assert(compensated(h, counts@, first as int, second as int));
    }
    (c, h)
}

/// The compensation that the samples of a neutralised picture give.
pub open spec fn compensates(color: ColorGrade, hsl: HslRegions, again: Seq<LabSample>) -> bool {
    &&& color == (ColorGrade {
        vibrance: pale_vibrance(mean_c_of(again)),
        ..ColorGrade::spec_default()
    })
    &&& exists|counts: Seq<usize>, a: int, b: int|
        counts_of(counts, again) && strongest(counts, a) && second_strongest(counts, a, b)
            && #[trigger] compensated(hsl, counts, a, b)
}

/// The strongest and the second strongest eighth gain saturation where they hold anything.
pub open spec fn compensated(h: HslRegions, counts: Seq<usize>, a: int, b: int) -> bool {
    &&& h.hue_shift == HslRegions::spec_default().hue_shift
    &&& h.light_mult == HslRegions::spec_default().light_mult
    &&& forall|j: int|
        0 <= j < 8 ==> #[trigger] h.sat_mult[j] == if j == a && counts[j] > 0 {
            num(0x3f80_0000).plus(num(0x3cf5_c28f))  // 1, 0.03
        } else if j == b && counts[j] > 0 {
            num(0x3f80_0000).plus(num(0x3ca3_d70a))  // 1, 0.02
        } else {
            num(0x3f80_0000)  // 1
        }
}

pub open spec fn spec_balance_of(mean_a: Single, mean_b: Single) -> WhiteBalance {
    WhiteBalance {
        // -4, -0.55, 0.55
        temp: num(0xc080_0000).times(mean_b).clamp(num(0xbf0c_cccd), num(0x3f0c_cccd)),
        // -4, -0.45, 0.45
        tint: num(0xc080_0000).times(mean_a).clamp(num(0xbee6_6666), num(0x3ee6_6666)),
    }
}

/// White balance against a mean cast: against the yellow of its second part and the magenta of
/// its first.
#[verifier::when_used_as_spec(spec_balance_of)]
pub fn balance_of(mean_a: Single, mean_b: Single) -> (r: WhiteBalance)
    ensures
        r == spec_balance_of(mean_a, mean_b),
{
    WhiteBalance {
        // -4, -0.55, 0.55
        temp: num(0xc080_0000).times(mean_b).clamp(num(0xbf0c_cccd), num(0x3f0c_cccd)),
        // -4, -0.45, 0.45
        tint: num(0xc080_0000).times(mean_a).clamp(num(0xbee6_6666), num(0x3ee6_6666)),
    }
}

pub open spec fn spec_depth_of(min_l: Single, max_l: Single) -> (Single, Single, Single) {
    let range: Single = max_l.minus(min_l).max(num(0x3d4c_cccd));  // 0.05
    if range.gt(num(0x3f38_51ec)) {  // 0.72
        (num(0x3df5_c28f), num(0x3da3_d70a), num(0))  // 0.12, 0.08
    } else if range.gt(num(0x3f00_0000)) {  // 0.5
        (num(0x3d75_c28f), num(0x3d4c_cccd), num(0))  // 0.06, 0.05
    } else {
        (num(0xbd4c_cccd), num(0x3cf5_c28f), num(0x3d4c_cccd))  // -0.05, 0.03, 0.05
    }
}

/// Light ratio, film curve and exposure for a range of lightness.
#[verifier::when_used_as_spec(spec_depth_of)]
pub fn depth_of(min_l: Single, max_l: Single) -> (r: (Single, Single, Single))
    ensures
        r == spec_depth_of(min_l, max_l),
{
    let range: Single = max_l.minus(min_l).max(num(0x3d4c_cccd));  // 0.05
    if range.gt(num(0x3f38_51ec)) {  // 0.72
        (num(0x3df5_c28f), num(0x3da3_d70a), num(0))  // 0.12, 0.08
    } else if range.gt(num(0x3f00_0000)) {  // 0.5
        (num(0x3d75_c28f), num(0x3d4c_cccd), num(0))  // 0.06, 0.05
    } else {
        (num(0xbd4c_cccd), num(0x3cf5_c28f), num(0x3d4c_cccd))  // -0.05, 0.03, 0.05
    }
}

pub open spec fn spec_pale_vibrance(mean_c: Single) -> Single {
    if mean_c.lt(num(0x3d75_c28f)) {  // 0.06
        num(0x3d75_c28f)  // 0.06
    } else if mean_c.lt(num(0x3dcc_cccd)) {  // 0.1
        num(0x3cf5_c28f)  // 0.03
    } else if mean_c.lt(num(0x3e0f_5c29)) {  // 0.14
        num(0x3c23_d70a)  // 0.01
    } else {
        num(0)
    }
}

/// Vibrance for a neutralised picture: the paler, the more.
#[verifier::when_used_as_spec(spec_pale_vibrance)]
pub fn pale_vibrance(mean_c: Single) -> (r: Single)
    ensures
        r == spec_pale_vibrance(mean_c),
{
    if mean_c.lt(num(0x3d75_c28f)) {  // 0.06
        num(0x3d75_c28f)  // 0.06
    } else if mean_c.lt(num(0x3dcc_cccd)) {  // 0.1
        num(0x3cf5_c28f)  // 0.03
    } else if mean_c.lt(num(0x3e0f_5c29)) {  // 0.14
        num(0x3c23_d70a)  // 0.01
    } else {
        num(0)
    }
}

pub open spec fn spec_balance_from(mean_a: Single, mean_b: Single, min_l: Single, max_l: Single, smart_compensation: bool, comp_color: ColorGrade, comp_hsl: HslRegions, plan: ColorPlan) -> AutoBalance {
    let depth: (Single, Single, Single) = depth_of(min_l, max_l);
    AutoBalance {
        wb: balance_of(mean_a, mean_b),
        light_ratio: depth.0,
        film_curve: depth.1,
        exposure_ev: depth.2,
        mix: num(0x3f4c_cccd),  // 0.8
        smart_compensation,
        scene: SceneStyle::spec_default(),
        comp_color: if smart_compensation {
            comp_color
        } else {
            ColorGrade::spec_default()
        },
        comp_grade: Grade::spec_default(),
        comp_hsl: if smart_compensation {
            comp_hsl
        } else {
            HslRegions::spec_default()
        },
        color_plan: Some(plan),
    }
}

/// The balance that the measurements of a picture give. Of the original a fifth stays.
#[verifier::when_used_as_spec(spec_balance_from)]
pub fn balance_from(mean_a: Single, mean_b: Single, min_l: Single, max_l: Single, smart_compensation: bool, comp_color: ColorGrade, comp_hsl: HslRegions, plan: ColorPlan) -> (r: AutoBalance)
    ensures
        r == spec_balance_from(mean_a, mean_b, min_l, max_l, smart_compensation, comp_color, comp_hsl, plan),
{
    let depth: (Single, Single, Single) = depth_of(min_l, max_l);
    AutoBalance {
        wb: balance_of(mean_a, mean_b),
        light_ratio: depth.0,
        film_curve: depth.1,
        exposure_ev: depth.2,
        mix: num(0x3f4c_cccd),  // 0.8
        smart_compensation,
        scene: SceneStyle::default(),
        comp_color: if smart_compensation {
            comp_color
        } else {
            ColorGrade::default()
        },
        comp_grade: Grade::default(),
        comp_hsl: if smart_compensation {
            comp_hsl
        } else {
            HslRegions::default()
        },
        color_plan: Some(plan),
    }
}

/// The balance that samples of a picture give. `again` are samples of the picture under its white
/// balance, and `plan` is the correction by scene.
pub open spec fn balanced(
    r: AutoBalance,
    v: Seq<LabSample>,
    again: Seq<LabSample>,
    smart: bool,
    plan: ColorPlan,
) -> bool {
    exists|take: Seq<bool>, color: ColorGrade, hsl: HslRegions|
        is_choice(take, v) && compensates(color, hsl, again) && r == #[trigger] spec_balance_from(
            mean_along(v, take, true),
            mean_along(v, take, false),
            least_l(v, v.len() as int),
            most_l(v, v.len() as int),
            smart,
            color,
            hsl,
            plan,
        )
}

/// What is said of the eighth that was left out; nothing where none was.
pub open spec fn left_out_words(counts: Seq<usize>, e: usize, n: usize) -> Seq<char> {
    if spec_prevails(counts[e as int], n) {
        let share = Single::spec_from_int(counts[e as int] as int).over(
            Single::spec_from_int(n as int),
        );
        // 100
        "，忽略第 "@ + digits(e as nat) + (" 号主导色相("@ + fixed(
            share.times(num(0x42c8_0000)),
            0,
        ) + "%像素)"@)
    } else {
        ""@
    }
}

/// The summary of a balance of samples with the given counts on the eighths, of which `e` is the
/// strongest.
pub open spec fn summary_words(b: AutoBalance, counts: Seq<usize>, e: usize, n: usize) -> Seq<char> {
    let middle = "，保留 20% 原图"@;
    let end = if b.smart_compensation {
        "，智能补偿启用（基于中性化后重测）"@
    } else {
        "，智能补偿关闭"@
    };
    "自动中性化：色温 "@ + fixed(b.wb.temp, 2) + (" / 色调 "@ + fixed(b.wb.tint, 2) + left_out_words(
        counts,
        e,
        n,
    )) + middle + end
}

fn left_out_text(count: usize, e: usize, n: usize) -> (r: String)
    ensures
        forall|counts: Seq<usize>|
            counts.len() == 8 && e < 8 && #[trigger] counts[e as int] == count ==> r@
                == left_out_words(counts, e, n),
{
    if prevails(count, n) {
        let share: Single = Single::from_int(count as i128).over(Single::from_int(n as i128));
        let tail: String = worded(" 号主导色相(", share.times(num(0x42c8_0000)), 0, "%像素)");  // 100
        let mut r: String = "，忽略第 ".to_string();
        r.append(decimal_text(e).as_str());
        r.append(tail.as_str());
        r
    } else {
        "".to_string()
    }
}

impl AutoBalance {
    /// A summary of the balance that samples of a picture gave; empty for an empty picture.
    pub fn summary(&self, v: &Vec<LabSample>) -> (r: String)
        ensures
            v@.len() == 0 ==> r@ == ""@,
            v@.len() > 0 ==> exists|counts: Seq<usize>, e: usize| #[trigger]
                counts_of(counts, v@) && #[trigger] strongest(counts, e as int) && r@
                    == summary_words(*self, counts, e, v@.len() as usize),
    {
        if v.len() == 0 {
            return "".to_string();
        }
        let counts: Vec<usize> = count_eighths(v);
        let e: usize = strongest_eighth(&counts);
        let out: String = left_out_text(counts[e], e, v.len());
        let tail: String = worded(" / 色调 ", self.wb.tint, 2, out.as_str());
        let mut r: String = worded("自动中性化：色温 ", self.wb.temp, 2, tail.as_str());
        r.append("，保留 20% 原图");
        r.append(
            if self.smart_compensation {
                "，智能补偿启用（基于中性化后重测）"
            } else {
                "，智能补偿关闭"
            },
        );
        proof {
            assert(counts_of(counts@, v@) && strongest(counts@, e as int));
        }
        r
    }
}

/// The white balance that samples of a picture call for.
pub fn cast_balance(v: &Vec<LabSample>) -> (r: WhiteBalance)
    ensures
        exists|take: Seq<bool>|
            is_choice(take, v@) && r == spec_balance_of(
                #[trigger] mean_along(v@, take, true),
                mean_along(v@, take, false),
            ),
{
    let take: Vec<bool> = choose_samples(v);
    let cast: (Single, Single) = mean_cast(v, &take);
    balance_of(cast.0, cast.1)
}

/// The balance of a picture from samples of it; an empty picture has the neutral one.
pub fn auto_neutral_balance(
    v: &Vec<LabSample>,
    again: &Vec<LabSample>,
    smart_compensation: bool,
    plan: ColorPlan,
) -> (r: AutoBalance)
    ensures
        v@.len() == 0 ==> r == AutoBalance::spec_default(),
        v@.len() > 0 ==> balanced(r, v@, again@, smart_compensation, plan),
{
    if v.len() == 0 {
        return AutoBalance::default();
    }
    let take: Vec<bool> = choose_samples(v);
    let cast: (Single, Single) = mean_cast(v, &take);
    let range: (Single, Single) = lightness_range(v);
    let comp: (ColorGrade, HslRegions) = compensation(again);
    balance_from(
        cast.0,
        cast.1,
        range.0,
        range.1,
        smart_compensation,
        comp.0,
        comp.1,
        plan,
    )
}

/// The white balance never goes beyond its limits.
pub proof fn law_balance_is_limited(mean_a: Single, mean_b: Single)
    ensures
        ({
            let w = balance_of(mean_a, mean_b);
            // -0.55, 0.55
            &&& w.temp.is_nan() || (w.temp.ge(num(0xbf0c_cccd)) && w.temp.le(num(0x3f0c_cccd)))
            // -0.45, 0.45
            &&& w.tint.is_nan() || (w.tint.ge(num(0xbee6_6666)) && w.tint.le(num(0x3ee6_6666)))
        }),
{
}

/// A film look.
#[derive(Clone, Copy, Debug)]
pub struct Preset {
    pub id: &'static str,
    pub name: &'static str,
    pub description: &'static str,
    pub adj: Adjustments,
    /// The look goes on top of the settings that suit the tonality.
    pub is_engine_based: bool,
}

/// What a film look holds.
pub struct FilmLook {
    pub id: Seq<char>,
    pub name: Seq<char>,
    pub description: Seq<char>,
    pub adj: Adjustments,
    pub is_engine_based: bool,
}

impl View for Preset {
    type V = FilmLook;

    open spec fn view(&self) -> FilmLook {
        FilmLook {
            id: self.id@,
            name: self.name@,
            description: self.description@,
            adj: self.adj,
            is_engine_based: self.is_engine_based,
        }
    }
}

pub open spec fn spec_neutral_warm_look() -> Adjustments {
    Adjustments {
        tone_map: ToneMapMode::Filmic,
        defake: DefakeColor::on(),
        grade: Grade {
            film_curve: num(0x3dcc_cccd),  // 0.1
            light_ratio: num(0x3da3_d70a),  // 0.08
            ..Grade::spec_default()
        },
        white_balance: WhiteBalance {
            temp: num(0x3dcc_cccd),  // 0.1
            tint: num(0),
        },
        color: ColorGrade {
            saturation: num(0x3f82_8f5c),  // 1.02
            ..ColorGrade::spec_default()
        },
        ..Adjustments::spec_default()
    }
}

/// A touch of warmth and a soft film curve.
#[verifier::when_used_as_spec(spec_neutral_warm_look)]
pub fn neutral_warm_look() -> (r: Adjustments)
    ensures
        r == spec_neutral_warm_look(),
{
    Adjustments {
        tone_map: ToneMapMode::Filmic,
        defake: DefakeColor::on(),
        grade: Grade {
            film_curve: num(0x3dcc_cccd),  // 0.1
            light_ratio: num(0x3da3_d70a),  // 0.08
            ..Grade::default()
        },
        white_balance: WhiteBalance {
            temp: num(0x3dcc_cccd),  // 0.1
            tint: num(0),
        },
        color: ColorGrade {
            saturation: num(0x3f82_8f5c),  // 1.02
            ..ColorGrade::default()
        },
        ..Adjustments::default()
    }
}

pub open spec fn spec_neutral_cool_look() -> Adjustments {
    Adjustments {
        tone_map: ToneMapMode::Filmic,
        defake: DefakeColor::on(),
        grade: Grade {
            film_curve: num(0x3da3_d70a),  // 0.08
            light_ratio: num(0x3d4c_cccd),  // 0.05
            ..Grade::spec_default()
        },
        white_balance: WhiteBalance {
            temp: num(0xbda3_d70a),  // -0.08
            tint: num(0),
        },
        color: ColorGrade {
            saturation: num(0x3f7a_e148),  // 0.98
            ..ColorGrade::spec_default()
        },
        ..Adjustments::spec_default()
    }
}

/// A touch of coolness and a soft film curve.
#[verifier::when_used_as_spec(spec_neutral_cool_look)]
pub fn neutral_cool_look() -> (r: Adjustments)
    ensures
        r == spec_neutral_cool_look(),
{
    Adjustments {
        tone_map: ToneMapMode::Filmic,
        defake: DefakeColor::on(),
        grade: Grade {
            film_curve: num(0x3da3_d70a),  // 0.08
            light_ratio: num(0x3d4c_cccd),  // 0.05
            ..Grade::default()
        },
        white_balance: WhiteBalance {
            temp: num(0xbda3_d70a),  // -0.08
            tint: num(0),
        },
        color: ColorGrade {
            saturation: num(0x3f7a_e148),  // 0.98
            ..ColorGrade::default()
        },
        ..Adjustments::default()
    }
}

pub open spec fn spec_fuji_look() -> Adjustments {
    Adjustments {
        tone_map: ToneMapMode::Filmic,
        defake: DefakeColor::on(),
        grade: Grade {
            film_curve: num(0x3da3_d70a),  // 0.08
            light_ratio: num(0x3d75_c28f),  // 0.06
            ..Grade::spec_default()
        },
        white_balance: WhiteBalance {
            temp: num(0xbd23_d70a),  // -0.04
            tint: num(0xbcf5_c28f),  // -0.03
        },
        color: ColorGrade {
            saturation: num(0x3f75_c28f),  // 0.96
            vibrance: num(0x3d75_c28f),  // 0.06
            split_shadow: num(0x4343_0000),  // 195
            split_highlight: num(0x425c_0000),  // 55
            ..ColorGrade::spec_default()
        },
        hsl: HslRegions {
            // 1, 0.95, 1, 1.08, 1, 1.08, 1, 1
            sat_mult: [num(0x3f80_0000), num(0x3f73_3333), num(0x3f80_0000), num(0x3f8a_3d71), num(0x3f80_0000), num(0x3f8a_3d71), num(0x3f80_0000), num(0x3f80_0000)],
            ..HslRegions::spec_default()
        },
        ..Adjustments::spec_default()
    }
}

/// Cool shadows and soft skin.
#[verifier::when_used_as_spec(spec_fuji_look)]
pub fn fuji_look() -> (r: Adjustments)
    ensures
        r == spec_fuji_look(),
{
    Adjustments {
        tone_map: ToneMapMode::Filmic,
        defake: DefakeColor::on(),
        grade: Grade {
            film_curve: num(0x3da3_d70a),  // 0.08
            light_ratio: num(0x3d75_c28f),  // 0.06
            ..Grade::default()
        },
        white_balance: WhiteBalance {
            temp: num(0xbd23_d70a),  // -0.04
            tint: num(0xbcf5_c28f),  // -0.03
        },
        color: ColorGrade {
            saturation: num(0x3f75_c28f),  // 0.96
            vibrance: num(0x3d75_c28f),  // 0.06
            split_shadow: num(0x4343_0000),  // 195
            split_highlight: num(0x425c_0000),  // 55
            ..ColorGrade::default()
        },
        hsl: HslRegions {
            // 1, 0.95, 1, 1.08, 1, 1.08, 1, 1
            sat_mult: [num(0x3f80_0000), num(0x3f73_3333), num(0x3f80_0000), num(0x3f8a_3d71), num(0x3f80_0000), num(0x3f8a_3d71), num(0x3f80_0000), num(0x3f80_0000)],
            ..HslRegions::default()
        },
        ..Adjustments::default()
    }
}

pub open spec fn spec_portra_look() -> Adjustments {
    Adjustments {
        tone_map: ToneMapMode::Filmic,
        defake: DefakeColor::on(),
        grade: Grade {
            film_curve: num(0x3dcc_cccd),  // 0.1
            light_ratio: num(0x3d4c_cccd),  // 0.05
            ..Grade::spec_default()
        },
        white_balance: WhiteBalance {
            temp: num(0x3da3_d70a),  // 0.08
            tint: num(0x3ca3_d70a),  // 0.02
        },
        color: ColorGrade {
            saturation: num(0x3f75_c28f),  // 0.96
            ..ColorGrade::spec_default()
        },
        skin: SkinTone {
            strength: num(0x3eb3_3333),  // 0.35
            hue_target: num(0x420c_0000),  // 35
            chroma_target: num(0x3d75_c28f),  // 0.06
            light_lift: num(0x3ca3_d70a),  // 0.02
            yellow_reduce: num(0x3e19_999a),  // 0.15
            ..SkinTone::spec_default()
        },
        ..Adjustments::spec_default()
    }
}

/// Warm skin, low saturation, soft highlights.
#[verifier::when_used_as_spec(spec_portra_look)]
pub fn portra_look() -> (r: Adjustments)
    ensures
        r == spec_portra_look(),
{
    Adjustments {
        tone_map: ToneMapMode::Filmic,
        defake: DefakeColor::on(),
        grade: Grade {
            film_curve: num(0x3dcc_cccd),  // 0.1
            light_ratio: num(0x3d4c_cccd),  // 0.05
            ..Grade::default()
        },
        white_balance: WhiteBalance {
            temp: num(0x3da3_d70a),  // 0.08
            tint: num(0x3ca3_d70a),  // 0.02
        },
        color: ColorGrade {
            saturation: num(0x3f75_c28f),  // 0.96
            ..ColorGrade::default()
        },
        skin: SkinTone {
            strength: num(0x3eb3_3333),  // 0.35
            hue_target: num(0x420c_0000),  // 35
            chroma_target: num(0x3d75_c28f),  // 0.06
            light_lift: num(0x3ca3_d70a),  // 0.02
            yellow_reduce: num(0x3e19_999a),  // 0.15
            ..SkinTone::default()
        },
        ..Adjustments::default()
    }
}

pub open spec fn spec_kodak_gold_look() -> Adjustments {
    Adjustments {
        tone_map: ToneMapMode::Filmic,
        defake: DefakeColor::on(),
        grade: Grade {
            film_curve: num(0x3df5_c28f),  // 0.12
            light_ratio: num(0x3dcc_cccd),  // 0.1
            ..Grade::spec_default()
        },
        white_balance: WhiteBalance {
            temp: num(0x3e23_d70a),  // 0.16
            tint: num(0x3ca3_d70a),  // 0.02
        },
        color: ColorGrade {
            saturation: num(0x3f87_ae14),  // 1.06
            vibrance: num(0x3d4c_cccd),  // 0.05
            ..ColorGrade::spec_default()
        },
        hsl: HslRegions {
            // 1.05, 1, 1.1, 1, 1, 1, 1, 1
            sat_mult: [num(0x3f86_6666), num(0x3f80_0000), num(0x3f8c_cccd), num(0x3f80_0000), num(0x3f80_0000), num(0x3f80_0000), num(0x3f80_0000), num(0x3f80_0000)],
            // 1, 1, 1.05, 1, 1, 1, 1, 1
            light_mult: [num(0x3f80_0000), num(0x3f80_0000), num(0x3f86_6666), num(0x3f80_0000), num(0x3f80_0000), num(0x3f80_0000), num(0x3f80_0000), num(0x3f80_0000)],
            ..HslRegions::spec_default()
        },
        ..Adjustments::spec_default()
    }
}

/// Warm gold, some more saturation.
#[verifier::when_used_as_spec(spec_kodak_gold_look)]
pub fn kodak_gold_look() -> (r: Adjustments)
    ensures
        r == spec_kodak_gold_look(),
{
    Adjustments {
        tone_map: ToneMapMode::Filmic,
        defake: DefakeColor::on(),
        grade: Grade {
            film_curve: num(0x3df5_c28f),  // 0.12
            light_ratio: num(0x3dcc_cccd),  // 0.1
            ..Grade::default()
        },
        white_balance: WhiteBalance {
            temp: num(0x3e23_d70a),  // 0.16
            tint: num(0x3ca3_d70a),  // 0.02
        },
        color: ColorGrade {
            saturation: num(0x3f87_ae14),  // 1.06
            vibrance: num(0x3d4c_cccd),  // 0.05
            ..ColorGrade::default()
        },
        hsl: HslRegions {
            // 1.05, 1, 1.1, 1, 1, 1, 1, 1
            sat_mult: [num(0x3f86_6666), num(0x3f80_0000), num(0x3f8c_cccd), num(0x3f80_0000), num(0x3f80_0000), num(0x3f80_0000), num(0x3f80_0000), num(0x3f80_0000)],
            // 1, 1, 1.05, 1, 1, 1, 1, 1
            light_mult: [num(0x3f80_0000), num(0x3f80_0000), num(0x3f86_6666), num(0x3f80_0000), num(0x3f80_0000), num(0x3f80_0000), num(0x3f80_0000), num(0x3f80_0000)],
            ..HslRegions::default()
        },
        ..Adjustments::default()
    }
}

pub open spec fn spec_morandi_look() -> Adjustments {
    Adjustments {
        tone_map: ToneMapMode::Filmic,
        defake: DefakeColor::on(),
        grade: Grade {
            film_curve: num(0x3d75_c28f),  // 0.06
            light_ratio: num(0x3d23_d70a),  // 0.04
            contrast: num(0xbdcc_cccd),  // -0.1
            shadow_lift: num(0x3d75_c28f),  // 0.06
            ..Grade::spec_default()
        },
        white_balance: WhiteBalance {
            temp: num(0x3cf5_c28f),  // 0.03
            tint: num(0x3ca3_d70a),  // 0.02
        },
        color: ColorGrade {
            saturation: num(0x3f4c_cccd),  // 0.8
            vibrance: num(0xbd4c_cccd),  // -0.05
            ..ColorGrade::spec_default()
        },
        hsl: HslRegions {
            // 0.85, 0.82, 0.85, 0.88, 1, 0.88, 1, 1
            sat_mult: [num(0x3f59_999a), num(0x3f51_eb85), num(0x3f59_999a), num(0x3f61_47ae), num(0x3f80_0000), num(0x3f61_47ae), num(0x3f80_0000), num(0x3f80_0000)],
            ..HslRegions::spec_default()
        },
        ..Adjustments::spec_default()
    }
}

/// Grey, low saturation, low contrast.
#[verifier::when_used_as_spec(spec_morandi_look)]
pub fn morandi_look() -> (r: Adjustments)
    ensures
        r == spec_morandi_look(),
{
    Adjustments {
        tone_map: ToneMapMode::Filmic,
        defake: DefakeColor::on(),
        grade: Grade {
            film_curve: num(0x3d75_c28f),  // 0.06
            light_ratio: num(0x3d23_d70a),  // 0.04
            contrast: num(0xbdcc_cccd),  // -0.1
            shadow_lift: num(0x3d75_c28f),  // 0.06
            ..Grade::default()
        },
        white_balance: WhiteBalance {
            temp: num(0x3cf5_c28f),  // 0.03
            tint: num(0x3ca3_d70a),  // 0.02
        },
        color: ColorGrade {
            saturation: num(0x3f4c_cccd),  // 0.8
            vibrance: num(0xbd4c_cccd),  // -0.05
            ..ColorGrade::default()
        },
        hsl: HslRegions {
            // 0.85, 0.82, 0.85, 0.88, 1, 0.88, 1, 1
            sat_mult: [num(0x3f59_999a), num(0x3f51_eb85), num(0x3f59_999a), num(0x3f61_47ae), num(0x3f80_0000), num(0x3f61_47ae), num(0x3f80_0000), num(0x3f80_0000)],
            ..HslRegions::default()
        },
        ..Adjustments::default()
    }
}

/// The film looks.
pub open spec fn film_look(k: int) -> FilmLook {
    if k == 0 {
        FilmLook {
            id: "neutral_warm"@,
            name: "中性胶片·暖"@,
            description: "轻微暖调 + 柔和胶片曲线，适合日常/人像"@,
            adj: spec_neutral_warm_look(),
            is_engine_based: false,
        }
    } else if k == 1 {
        FilmLook {
            id: "neutral_cool"@,
            name: "中性胶片·冷"@,
            description: "轻微冷调 + 柔和胶片曲线，适合风景/清爽感"@,
            adj: spec_neutral_cool_look(),
            is_engine_based: false,
        }
    } else if k == 2 {
        FilmLook {
            id: "fuji"@,
            name: "富士色调"@,
            description: "清冷阴影 + 柔和肤色，典型 Fuji 负片感"@,
            adj: spec_fuji_look(),
            is_engine_based: true,
        }
    } else if k == 3 {
        FilmLook {
            id: "portra"@,
            name: "Portra 人像"@,
            description: "暖调肤色 + 低饱和 + 柔和 roll-off"@,
            adj: spec_portra_look(),
            is_engine_based: false,
        }
    } else if k == 4 {
        FilmLook {
            id: "kodak_gold"@,
            name: "Kodak Gold"@,
            description: "暖金黄调 + 略高饱和，复古旅行感"@,
            adj: spec_kodak_gold_look(),
            is_engine_based: false,
        }
    } else {
        FilmLook {
            id: "morandi"@,
            name: "莫兰迪·低调"@,
            description: "低饱和灰调 + 柔和低反差，高级莫兰迪静物感"@,
            adj: spec_morandi_look(),
            is_engine_based: false,
        }
    }
}

/// All film looks.
pub fn film_presets() -> (r: Vec<Preset>)
    ensures
        r@.len() == 6,
        forall|k: int| 0 <= k < 6 ==> (#[trigger] r@[k])@ == film_look(k),
{
    let mut v: Vec<Preset> = Vec::new();
    v.push(
        Preset {
            id: "neutral_warm",
            name: "中性胶片·暖",
            description: "轻微暖调 + 柔和胶片曲线，适合日常/人像",
            adj: neutral_warm_look(),
            is_engine_based: false,
        },
    );
    v.push(
        Preset {
            id: "neutral_cool",
            name: "中性胶片·冷",
            description: "轻微冷调 + 柔和胶片曲线，适合风景/清爽感",
            adj: neutral_cool_look(),
            is_engine_based: false,
        },
    );
    v.push(
        Preset {
            id: "fuji",
            name: "富士色调",
            description: "清冷阴影 + 柔和肤色，典型 Fuji 负片感",
            adj: fuji_look(),
            is_engine_based: true,
        },
    );
    v.push(
        Preset {
            id: "portra",
            name: "Portra 人像",
            description: "暖调肤色 + 低饱和 + 柔和 roll-off",
            adj: portra_look(),
            is_engine_based: false,
        },
    );
    v.push(
        Preset {
            id: "kodak_gold",
            name: "Kodak Gold",
            description: "暖金黄调 + 略高饱和，复古旅行感",
            adj: kodak_gold_look(),
            is_engine_based: false,
        },
    );
    v.push(
        Preset {
            id: "morandi",
            name: "莫兰迪·低调",
            description: "低饱和灰调 + 柔和低反差，高级莫兰迪静物感",
            adj: morandi_look(),
            is_engine_based: false,
        },
    );
    v
}

} // verus!
