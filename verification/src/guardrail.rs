//! Limits on automatic correction: settings stay within reach of the sliders, and a result that
//! damages the picture is told from one that does not.

use crate::analyze::ImageMetrics;
use crate::fixed::{fixed, worded};
use crate::params::{control, control_at, law_controls_are_in_place, law_other_settings_stay};
use crate::params::{law_each_field_has_one_control, law_same_value_changes_nothing};
use crate::params::{law_written_value_reads_back, place_of, Control, Edges, Field, ParamSpec};
use crate::params::CONTROLS;
use crate::pipeline::Adjustments;
use crate::single::{num, Single};
use crate::tonemap::{Key, Tonality};
use vstd::prelude::*;
use vstd::string::*;

verus! {

/// A slider's least value lies below its middle, and its middle below its greatest.
pub open spec fn in_order(c: Control, e: Edges) -> bool {
    c.low(e).lt(c.middle(e)) && c.middle(e).lt(c.high(e)) && c.low(e).le(c.high(e))
}

/// The ends and the middle of every slider are in order.
pub open spec fn edges_fit(e: Edges) -> bool {
    forall|k: int| 0 <= k < CONTROLS ==> in_order(#[trigger] control_at(k), e)
}

/// Whether the ends and the middle of every slider are in order.
pub fn edges_usable(e: &Edges) -> (r: bool)
    ensures
        r == edges_fit(*e),
{
    let mut k: usize = 0;
    while k < CONTROLS
        invariant
            k <= CONTROLS,
            forall|j: int| 0 <= j < k ==> in_order(#[trigger] control_at(j), *e),
        decreases CONTROLS - k,
    {
        let spec: ParamSpec = control(k);
        let (lo, hi) = spec.limits(e);
        let mid: Single = spec.neutral(e);
        if !lo.lt(mid) || !mid.lt(hi) || !lo.le(hi) {
            assert(!in_order(control_at(k as int), *e));
            return false;
        }
        k = k + 1;
    }
    true
}

/// One setting brought within the ends of its slider.
pub open spec fn clamp_one(a: Adjustments, e: Edges, k: int) -> Adjustments {
    let c = control_at(k);
    c.field.with_value(a, c.field.value_in(a).clamp(c.low(e), c.high(e)))
}

/// The settings of the first `k` controls brought within the ends of their sliders.
pub open spec fn clamped(a: Adjustments, e: Edges, k: int) -> Adjustments
    decreases k,
{
    if k <= 0 {
        a
    } else {
        clamp_one(clamped(a, e, k - 1), e, k - 1)
    }
}

/// Brings every setting within the ends of its slider.
pub fn clamp(adj: &mut Adjustments, e: &Edges)
    requires
        edges_fit(*e),
    ensures
        *final(adj) == clamped(*old(adj), *e, CONTROLS as int),
{
    let mut k: usize = 0;
    while k < CONTROLS
        invariant
            k <= CONTROLS,
            *adj == clamped(*old(adj), *e, k as int),
        decreases CONTROLS - k,
    {
        let spec: ParamSpec = control(k);
        proof {
            law_controls_are_in_place(k as int);
        }
        let v: Single = spec.field.get(adj);
        let (lo, hi) = spec.limits(e);
        spec.field.set(adj, v.clamp(lo, hi));
        k = k + 1;
    }
}

/// What is behind each control after the first `k` were brought within their ends.
proof fn lemma_clamped(a: Adjustments, e: Edges, k: int, j: int)
    requires
        0 <= k <= CONTROLS,
        0 <= j < CONTROLS,
    ensures
        control_at(j).field.value_in(clamped(a, e, k)) == if j < k {
            control_at(j).field.value_in(a).clamp(control_at(j).low(e), control_at(j).high(e))
        } else {
            control_at(j).field.value_in(a)
        },
    decreases k,
{
    if k > 0 {
        let before = clamped(a, e, k - 1);
        let c = control_at(k - 1);
        let v = c.field.value_in(before).clamp(c.low(e), c.high(e));
        lemma_clamped(a, e, k - 1, j);
        law_controls_are_in_place(k - 1);
        law_controls_are_in_place(j);
        if j == k - 1 {
            law_written_value_reads_back(c.field, before, v);
        } else {
            law_other_settings_stay(c.field, control_at(j).field, before, v);
        }
    }
}

/// After clamping, every setting that is a number is one that its slider reaches.
pub proof fn law_clamped_is_within_sliders(a: Adjustments, e: Edges, k: int)
    requires
        edges_fit(e),
        0 <= k < CONTROLS,
    ensures
        ({
            let c = control_at(k);
            let v = c.field.value_in(clamped(a, e, CONTROLS as int));
            v.is_nan() || (v.ge(c.low(e)) && v.le(c.high(e)))
        }),
{
    lemma_clamped(a, e, CONTROLS as int, k);
    assert(in_order(control_at(k), e));
}

/// A setting that its slider reaches is not changed.
pub proof fn law_clamp_keeps_reachable(a: Adjustments, e: Edges, k: int)
    requires
        0 <= k < CONTROLS,
        control_at(k).field.value_in(a).ge(control_at(k).low(e)),
        control_at(k).field.value_in(a).le(control_at(k).high(e)),
    ensures
        control_at(k).field.value_in(clamped(a, e, CONTROLS as int)) == control_at(k).field.value_in(
            a,
        ),
{
    lemma_clamped(a, e, CONTROLS as int, k);
}

proof fn lemma_keystones_are_set(a: Adjustments, e: Edges, k: int)
    requires
        place_of(Field::GeomPerspV) < k <= CONTROLS,
    ensures
        clamped(a, e, k).geometry.perspective is Some,
    decreases k,
{
    law_controls_are_in_place(k - 1);
    if k - 1 == place_of(Field::GeomPerspV) {
        law_each_field_has_one_control(Field::GeomPerspV, k - 1);
    } else {
        lemma_keystones_are_set(a, e, k - 1);
    }
}

/// A second clamping changes nothing.
pub proof fn law_second_clamp_changes_nothing(a: Adjustments, e: Edges, k: int)
    requires
        edges_fit(e),
        0 <= k <= CONTROLS,
    ensures
        clamped(clamped(a, e, CONTROLS as int), e, k) == clamped(a, e, CONTROLS as int),
    decreases k,
{
    let once = clamped(a, e, CONTROLS as int);
    if k > 0 {
        law_second_clamp_changes_nothing(a, e, k - 1);
        let c = control_at(k - 1);
        law_controls_are_in_place(k - 1);
        lemma_clamped(a, e, CONTROLS as int, k - 1);
        assert(in_order(c, e));
        let v = c.field.value_in(once);
        assert(v.clamp(c.low(e), c.high(e)) == v);
        lemma_keystones_are_set(a, e, CONTROLS as int);
        law_same_value_changes_nothing(c.field, once);
    }
}

/// What is no control stays as it is: switches, modes, crop, flips, the colour plan, the mix.
pub open spec fn same_switches(a: Adjustments, b: Adjustments) -> bool {
    &&& a.tone_map == b.tone_map
    &&& a.defake == b.defake
    &&& a.skin.enabled == b.skin.enabled
    &&& a.skin.smoothness == b.skin.smoothness
    &&& a.skin.protect_non_skin == b.skin.protect_non_skin
    &&& a.geometry.crop == b.geometry.crop
    &&& a.geometry.quarter_turns == b.geometry.quarter_turns
    &&& a.geometry.flip_h == b.geometry.flip_h
    &&& a.geometry.flip_v == b.geometry.flip_v
    &&& a.advanced.freqsep.enabled == b.advanced.freqsep.enabled
    &&& a.advanced.pyramid.enabled == b.advanced.pyramid.enabled
    &&& a.color_plan == b.color_plan
    &&& a.mix == b.mix
}

/// Clamping never turns anything on or off.
pub proof fn law_clamp_keeps_switches(a: Adjustments, e: Edges, k: int)
    requires
        0 <= k <= CONTROLS,
    ensures
        same_switches(a, clamped(a, e, k)),
    decreases k,
{
    if k > 0 {
        law_clamp_keeps_switches(a, e, k - 1);
        law_controls_are_in_place(k - 1);
    }
}

/// Ways in which a correction damages a picture.
#[derive(Clone, Copy, Debug, PartialEq, Eq, Structural)]
pub enum Damage {
    /// The whole picture is too bright.
    TooBright,
    /// Skin is too saturated.
    SkinVivid,
    /// Skin has lost its colour.
    SkinPale,
    /// Skin is too bright.
    SkinBright,
    /// A cast has grown.
    Cast,
    /// Saturation has grown.
    Saturation,
    /// More highlights are clipped.
    Highlights,
    /// More shadows are clipped.
    Shadows,
}

/// Whether a correction may be kept.
#[derive(Debug)]
pub struct GuardrailStatus {
    pub passed: bool,
    /// What is wrong; empty where the correction may be kept.
    pub reasons: Vec<Damage>,
}

pub open spec fn spec_bright_cap(base: &ImageMetrics) -> Single {
    if base.tone.median_l.gt(num(0x3f14_7ae1)) {  // 0.58
        num(0x3f33_3333)  // 0.7
    } else {
        num(0x3f1e_b852)  // 0.62
    }
}

/// The most mean lightness: more for a picture that was bright.
#[verifier::when_used_as_spec(spec_bright_cap)]
pub fn bright_cap(base: &ImageMetrics) -> (r: Single)
    ensures
        r == spec_bright_cap(base),
{
    if base.tone.median_l.gt(num(0x3f14_7ae1)) {  // 0.58
        num(0x3f33_3333)  // 0.7
    } else {
        num(0x3f1e_b852)  // 0.62
    }
}

pub open spec fn spec_both_show_skin(m: &ImageMetrics, base: &ImageMetrics) -> bool {
    base.skin.ratio.gt(num(0x3cf5_c28f)) && m.skin.ratio.gt(num(0x3cf5_c28f))  // 0.03, 0.03
}

/// Both pictures show skin.
#[verifier::when_used_as_spec(spec_both_show_skin)]
pub fn both_show_skin(m: &ImageMetrics, base: &ImageMetrics) -> (r: bool)
    ensures
        r == spec_both_show_skin(m, base),
{
    base.skin.ratio.gt(num(0x3cf5_c28f)) && m.skin.ratio.gt(num(0x3cf5_c28f))  // 0.03, 0.03
}

pub open spec fn spec_highlight_cap(base: &ImageMetrics) -> Single {
    if base.tone.median_l.gt(num(0x3f14_7ae1)) {  // 0.58
        base.exposure.highlight_clip_pct.plus(num(0x4040_0000)).max(num(0x3f80_0000))  // 3, 1
    } else {
        base.exposure.highlight_clip_pct.plus(num(0x3e99_999a)).max(num(0x3e99_999a))  // 0.3, 0.3
    }
}

/// The most clipped highlights, in percent: more for a picture that was bright.
#[verifier::when_used_as_spec(spec_highlight_cap)]
pub fn highlight_cap(base: &ImageMetrics) -> (r: Single)
    ensures
        r == spec_highlight_cap(base),
{
    if base.tone.median_l.gt(num(0x3f14_7ae1)) {  // 0.58
        base.exposure.highlight_clip_pct.plus(num(0x4040_0000)).max(num(0x3f80_0000))  // 3, 1
    } else {
        base.exposure.highlight_clip_pct.plus(num(0x3e99_999a)).max(num(0x3e99_999a))  // 0.3, 0.3
    }
}

pub open spec fn spec_shadow_cap(base: &ImageMetrics) -> Single {
    if base.tone.median_l.lt(num(0x3ed7_0a3d)) {  // 0.42
        base.exposure.shadow_clip_pct.plus(num(0x4120_0000)).max(num(0x40a0_0000))  // 10, 5
    } else {
        base.exposure.shadow_clip_pct.plus(num(0x3f80_0000)).max(num(0x3f80_0000))  // 1, 1
    }
}

/// The most clipped shadows, in percent: more for a picture that was dark.
#[verifier::when_used_as_spec(spec_shadow_cap)]
pub fn shadow_cap(base: &ImageMetrics) -> (r: Single)
    ensures
        r == spec_shadow_cap(base),
{
    if base.tone.median_l.lt(num(0x3ed7_0a3d)) {  // 0.42
        base.exposure.shadow_clip_pct.plus(num(0x4120_0000)).max(num(0x40a0_0000))  // 10, 5
    } else {
        base.exposure.shadow_clip_pct.plus(num(0x3f80_0000)).max(num(0x3f80_0000))  // 1, 1
    }
}

pub open spec fn spec_does_damage(d: Damage, m: &ImageMetrics, base: &ImageMetrics) -> bool {
    match d {
        Damage::TooBright => m.tone.mean_l.gt(bright_cap(base)),
        // 7
        Damage::SkinVivid => both_show_skin(m, base)
            && m.skin.mean_c.gt(base.skin.mean_c.plus(num(0x40e0_0000))),
        // 7
        Damage::SkinPale => both_show_skin(m, base)
            && m.skin.mean_c.lt(base.skin.mean_c.minus(num(0x40e0_0000))),
        // 0.82
        Damage::SkinBright => both_show_skin(m, base) && m.skin.mean_l.gt(num(0x3f51_eb85)),
        Damage::Cast => m.cast.chroma.gt(base.cast.chroma.plus(num(0x4000_0000))),  // 2
        Damage::Saturation => m.color.mean_c.gt(base.color.mean_c.plus(num(0x3cf5_c28f))),  // 0.03
        Damage::Highlights => m.exposure.highlight_clip_pct.gt(highlight_cap(base)),
        Damage::Shadows => m.exposure.shadow_clip_pct.gt(shadow_cap(base)),
    }
}

/// A correction does the given damage to a picture.
#[verifier::when_used_as_spec(spec_does_damage)]
pub fn does_damage(d: Damage, m: &ImageMetrics, base: &ImageMetrics) -> (r: bool)
    ensures
        r == spec_does_damage(d, m, base),
{
    match d {
        Damage::TooBright => m.tone.mean_l.gt(bright_cap(base)),
        // 7
        Damage::SkinVivid => both_show_skin(m, base)
            && m.skin.mean_c.gt(base.skin.mean_c.plus(num(0x40e0_0000))),
        // 7
        Damage::SkinPale => both_show_skin(m, base)
            && m.skin.mean_c.lt(base.skin.mean_c.minus(num(0x40e0_0000))),
        // 0.82
        Damage::SkinBright => both_show_skin(m, base) && m.skin.mean_l.gt(num(0x3f51_eb85)),
        Damage::Cast => m.cast.chroma.gt(base.cast.chroma.plus(num(0x4000_0000))),  // 2
        Damage::Saturation => m.color.mean_c.gt(base.color.mean_c.plus(num(0x3cf5_c28f))),  // 0.03
        Damage::Highlights => m.exposure.highlight_clip_pct.gt(highlight_cap(base)),
        Damage::Shadows => m.exposure.shadow_clip_pct.gt(shadow_cap(base)),
    }
}

/// What is wrong with a correction, in words, with the measurements that show it.
pub open spec fn reason_words(d: Damage, m: &ImageMetrics, base: &ImageMetrics) -> Seq<char> {
    match d {
        Damage::TooBright => "整体亮度过高/发白 mean_l "@ + fixed(m.tone.mean_l, 3) + (" > "@ + fixed(
            bright_cap(base),
            2,
        ) + ""@),
        Damage::SkinVivid => "肤色过饱和 mean_c "@ + fixed(m.skin.mean_c, 2) + (" > 基线 "@ + fixed(
            base.skin.mean_c,
            2,
        ) + "+7"@),
        Damage::SkinPale => "肤色洗白 mean_c "@ + fixed(m.skin.mean_c, 2) + (" < 基线 "@ + fixed(
            base.skin.mean_c,
            2,
        ) + "-7"@),
        Damage::SkinBright => "肤色过亮/洗白 mean_l "@ + fixed(m.skin.mean_l, 3) + " > 0.82"@,
        Damage::Cast => "偏色增长 chroma "@ + fixed(m.cast.chroma, 3) + (" > 基线 "@ + fixed(
            base.cast.chroma,
            3,
        ) + "+2"@),
        Damage::Saturation => "全局饱和度增长 mean_c "@ + fixed(m.color.mean_c, 3) + (" > 基线 "@
            + fixed(base.color.mean_c, 3) + "+0.03"@),
        Damage::Highlights => "新增过曝 "@ + fixed(m.exposure.highlight_clip_pct, 1) + "%"@,
        Damage::Shadows => "新增死黑 "@ + fixed(m.exposure.shadow_clip_pct, 1) + "%"@,
    }
}

/// Says what is wrong with a correction.
pub fn reason_text(d: Damage, m: &ImageMetrics, base: &ImageMetrics) -> (r: String)
    ensures
        r@ == reason_words(d, m, base),
{
    match d {
        Damage::TooBright => {
            let tail: String = worded(" > ", bright_cap(base), 2, "");
            worded("整体亮度过高/发白 mean_l ", m.tone.mean_l, 3, tail.as_str())
        },
        Damage::SkinVivid => {
            let tail: String = worded(" > 基线 ", base.skin.mean_c, 2, "+7");
            worded("肤色过饱和 mean_c ", m.skin.mean_c, 2, tail.as_str())
        },
        Damage::SkinPale => {
            let tail: String = worded(" < 基线 ", base.skin.mean_c, 2, "-7");
            worded("肤色洗白 mean_c ", m.skin.mean_c, 2, tail.as_str())
        },
        Damage::SkinBright => worded("肤色过亮/洗白 mean_l ", m.skin.mean_l, 3, " > 0.82"),
        Damage::Cast => {
            let tail: String = worded(" > 基线 ", base.cast.chroma, 3, "+2");
            worded("偏色增长 chroma ", m.cast.chroma, 3, tail.as_str())
        },
        Damage::Saturation => {
            let tail: String = worded(" > 基线 ", base.color.mean_c, 3, "+0.03");
            worded("全局饱和度增长 mean_c ", m.color.mean_c, 3, tail.as_str())
        },
        Damage::Highlights => worded("新增过曝 ", m.exposure.highlight_clip_pct, 1, "%"),
        Damage::Shadows => worded("新增死黑 ", m.exposure.shadow_clip_pct, 1, "%"),
    }
}

/// An artefact in words. Skin is named without its measurements.
pub open spec fn artifact_words(d: Damage, m: &ImageMetrics, base: &ImageMetrics) -> Seq<char> {
    match d {
        Damage::Cast => "新增偏色 chroma "@ + fixed(m.cast.chroma, 3) + ""@,
        Damage::SkinBright => "肤色过亮/洗白"@,
        Damage::SkinVivid => "肤色过饱和"@,
        _ => reason_words(d, m, base),
    }
}

/// Says what artefact was found.
pub fn artifact_text(d: Damage, m: &ImageMetrics, base: &ImageMetrics) -> (r: String)
    ensures
        r@ == artifact_words(d, m, base),
{
    match d {
        Damage::Cast => worded("新增偏色 chroma ", m.cast.chroma, 3, ""),
        Damage::SkinBright => "肤色过亮/洗白".to_string(),
        Damage::SkinVivid => "肤色过饱和".to_string(),
        _ => reason_text(d, m, base),
    }
}

impl GuardrailStatus {
    /// The reasons in words.
    pub fn texts(&self, m: &ImageMetrics, base: &ImageMetrics) -> (r: Vec<String>)
        ensures
            r@.len() == self.reasons@.len(),
            forall|i: int|
                0 <= i < r@.len() ==> (#[trigger] r@[i])@ == reason_words(self.reasons@[i], m, base),
    {
        let mut r: Vec<String> = Vec::new();
        let mut k: usize = 0;
        while k < self.reasons.len()
            invariant
                k <= self.reasons@.len(),
                r@.len() == k,
                forall|i: int|
                    0 <= i < k ==> (#[trigger] r@[i])@ == reason_words(self.reasons@[i], m, base),
            decreases self.reasons@.len() - k,
        {
            r.push(reason_text(self.reasons[k], m, base));
            k = k + 1;
        }
        r
    }
}

/// The damages in the order in which they are looked for.
pub open spec fn damage_at(k: int) -> Damage {
    if k == 0 {
        Damage::TooBright
    } else if k == 1 {
        Damage::SkinVivid
    } else if k == 2 {
        Damage::SkinPale
    } else if k == 3 {
        Damage::SkinBright
    } else if k == 4 {
        Damage::Cast
    } else if k == 5 {
        Damage::Saturation
    } else if k == 6 {
        Damage::Highlights
    } else {
        Damage::Shadows
    }
}

/// The damages found among the first `k`.
pub open spec fn damages(m: &ImageMetrics, base: &ImageMetrics, k: int) -> Seq<Damage>
    decreases k,
{
    if k <= 0 {
        Seq::empty()
    } else if does_damage(damage_at(k - 1), m, base) {
        damages(m, base, k - 1).push(damage_at(k - 1))
    } else {
        damages(m, base, k - 1)
    }
}

/// Compares the measurements of a corrected picture with those of the original.
pub fn check(m: &ImageMetrics, base: &ImageMetrics) -> (r: GuardrailStatus)
    ensures
        r.reasons@ == damages(m, base, 8),
        r.passed <==> r.reasons@.len() == 0,
{
    let order: [Damage; 8] = [
        Damage::TooBright,
        Damage::SkinVivid,
        Damage::SkinPale,
        Damage::SkinBright,
        Damage::Cast,
        Damage::Saturation,
        Damage::Highlights,
        Damage::Shadows,
    ];
    let mut reasons: Vec<Damage> = Vec::new();
    let mut k: usize = 0;
    while k < 8
        invariant
            k <= 8,
            forall|j: int| 0 <= j < 8 ==> order[j] == damage_at(j),
            reasons@ == damages(m, base, k as int),
        decreases 8 - k,
    {
        let d: Damage = order[k];
        assert(d == damage_at(k as int));
        if does_damage(d, m, base) {
            reasons.push(d);
        }
        k = k + 1;
    }
    GuardrailStatus { passed: reasons.len() == 0, reasons }
}

proof fn lemma_damage_found(m: &ImageMetrics, base: &ImageMetrics, k: int, j: int)
    requires
        0 <= j < k <= 8,
        does_damage(damage_at(j), m, base),
    ensures
        damages(m, base, k).len() > 0,
    decreases k,
{
    if j < k - 1 {
        lemma_damage_found(m, base, k - 1, j);
    }
}

/// A correction passes exactly where it does none of the damages.
pub proof fn law_passes_without_damage(m: &ImageMetrics, base: &ImageMetrics)
    ensures
        damages(m, base, 8).len() == 0 <==> (forall|d: Damage| !#[trigger] does_damage(d, m, base)),
{
    if damages(m, base, 8).len() == 0 {
        assert forall|d: Damage| !#[trigger] does_damage(d, m, base) by {
            let j: int = match d {
                Damage::TooBright => 0,
                Damage::SkinVivid => 1,
                Damage::SkinPale => 2,
                Damage::SkinBright => 3,
                Damage::Cast => 4,
                Damage::Saturation => 5,
                Damage::Highlights => 6,
                Damage::Shadows => 7,
            };
            assert(damage_at(j) == d);
            if does_damage(d, m, base) {
                lemma_damage_found(m, base, 8, j);
            }
        }
    }
    if forall|d: Damage| !#[trigger] does_damage(d, m, base) {
        lemma_no_damage(m, base, 8);
    }
}

proof fn lemma_no_damage(m: &ImageMetrics, base: &ImageMetrics, k: int)
    requires
        0 <= k <= 8,
        forall|d: Damage| !#[trigger] does_damage(d, m, base),
    ensures
        damages(m, base, k).len() == 0,
    decreases k,
{
    if k > 0 {
        lemma_no_damage(m, base, k - 1);
        assert(!does_damage(damage_at(k - 1), m, base));
    }
}

pub open spec fn spec_score(m: &ImageMetrics, base: &ImageMetrics) -> Single {
    // 0.2, 2
    let a: Single = num(0).plus(m.tone.std_l.minus(base.tone.std_l).min(num(0x3e4c_cccd)).times(num(0x4000_0000)));
    // 0.5, 0.5, 0.5
    let b: Single = a.plus(base.tone.mean_l.minus(num(0x3f00_0000)).abs().minus(m.tone.mean_l.minus(num(0x3f00_0000)).abs()).times(num(0x3f00_0000)));
    let c: Single = if m.color.mean_c.lt(base.color.mean_c) {
        b.plus(base.color.mean_c.minus(m.color.mean_c).times(num(0x3f80_0000)))  // 1
    } else {
        // 0.18, 0.5
        b.minus(m.color.mean_c.minus(base.color.mean_c.min(num(0x3e38_51ec))).max(num(0)).times(num(0x3f00_0000)))
    };
    // 1.5
    let d: Single = c.minus(m.exposure.highlight_clip_pct.plus(m.exposure.shadow_clip_pct).times(num(0x3fc0_0000)));
    d.minus(m.cast.chroma.minus(base.cast.chroma).max(num(0)).times(num(0x4000_0000)))  // 2
}

/// A score of a correction against the original; higher is better.
#[verifier::when_used_as_spec(spec_score)]
pub fn score(m: &ImageMetrics, base: &ImageMetrics) -> (r: Single)
    ensures
        r == spec_score(m, base),
{
    // 0.2, 2
    let a: Single = num(0).plus(m.tone.std_l.minus(base.tone.std_l).min(num(0x3e4c_cccd)).times(num(0x4000_0000)));
    // 0.5, 0.5, 0.5
    let b: Single = a.plus(base.tone.mean_l.minus(num(0x3f00_0000)).abs().minus(m.tone.mean_l.minus(num(0x3f00_0000)).abs()).times(num(0x3f00_0000)));
    let c: Single = if m.color.mean_c.lt(base.color.mean_c) {
        b.plus(base.color.mean_c.minus(m.color.mean_c).times(num(0x3f80_0000)))  // 1
    } else {
        // 0.18, 0.5
        b.minus(m.color.mean_c.minus(base.color.mean_c.min(num(0x3e38_51ec))).max(num(0)).times(num(0x3f00_0000)))
    };
    // 1.5
    let d: Single = c.minus(m.exposure.highlight_clip_pct.plus(m.exposure.shadow_clip_pct).times(num(0x3fc0_0000)));
    d.minus(m.cast.chroma.minus(base.cast.chroma).max(num(0)).times(num(0x4000_0000)))  // 2
}

/// Where a good picture's measurements lie.
#[derive(Clone, Copy, Debug, PartialEq, Eq, Structural)]
pub struct ToneTarget {
    pub med_lo: Single,
    pub med_hi: Single,
    pub std_lo: Single,
    pub std_hi: Single,
    pub c_lo: Single,
    pub c_hi: Single,
}

pub open spec fn spec_target_for(t: &Tonality) -> ToneTarget {
    if t.silhouette {
        ToneTarget {
            med_lo: num(0x3e61_47ae),  // 0.22
            med_hi: num(0x3f00_0000),  // 0.5
            std_lo: num(0x3e0f_5c29),  // 0.14
            std_hi: num(0x3e75_c28f),  // 0.24
            c_lo: num(0x3da3_d70a),  // 0.08
            c_hi: num(0x3e38_51ec),  // 0.18
        }
    } else {
        match t.key {
            Key::Low => ToneTarget {
                med_lo: num(0x3ec2_8f5c),  // 0.38
                med_hi: num(0x3eeb_851f),  // 0.46
                std_lo: num(0x3e19_999a),  // 0.15
                std_hi: num(0x3e75_c28f),  // 0.24
                c_lo: num(0x3db8_51ec),  // 0.09
                c_hi: num(0x3e38_51ec),  // 0.18
            },
            Key::Mid => ToneTarget {
                med_lo: num(0x3eeb_851f),  // 0.46
                med_hi: num(0x3f0a_3d71),  // 0.54
                std_lo: num(0x3e2e_147b),  // 0.17
                std_hi: num(0x3e85_1eb8),  // 0.26
                c_lo: num(0x3db8_51ec),  // 0.09
                c_hi: num(0x3e38_51ec),  // 0.18
            },
            Key::High => ToneTarget {
                med_lo: num(0x3f0c_cccd),  // 0.55
                med_hi: num(0x3f28_f5c3),  // 0.66
                std_lo: num(0x3e23_d70a),  // 0.16
                std_hi: num(0x3e85_1eb8),  // 0.26
                c_lo: num(0x3db8_51ec),  // 0.09
                c_hi: num(0x3e38_51ec),  // 0.18
            },
        }
    }
}

/// The target for a tonality.
#[verifier::when_used_as_spec(spec_target_for)]
pub fn target_for(t: &Tonality) -> (r: ToneTarget)
    ensures
        r == spec_target_for(t),
{
    if t.silhouette {
        ToneTarget {
            med_lo: num(0x3e61_47ae),  // 0.22
            med_hi: num(0x3f00_0000),  // 0.5
            std_lo: num(0x3e0f_5c29),  // 0.14
            std_hi: num(0x3e75_c28f),  // 0.24
            c_lo: num(0x3da3_d70a),  // 0.08
            c_hi: num(0x3e38_51ec),  // 0.18
        }
    } else {
        match t.key {
            Key::Low => ToneTarget {
                med_lo: num(0x3ec2_8f5c),  // 0.38
                med_hi: num(0x3eeb_851f),  // 0.46
                std_lo: num(0x3e19_999a),  // 0.15
                std_hi: num(0x3e75_c28f),  // 0.24
                c_lo: num(0x3db8_51ec),  // 0.09
                c_hi: num(0x3e38_51ec),  // 0.18
            },
            Key::Mid => ToneTarget {
                med_lo: num(0x3eeb_851f),  // 0.46
                med_hi: num(0x3f0a_3d71),  // 0.54
                std_lo: num(0x3e2e_147b),  // 0.17
                std_hi: num(0x3e85_1eb8),  // 0.26
                c_lo: num(0x3db8_51ec),  // 0.09
                c_hi: num(0x3e38_51ec),  // 0.18
            },
            Key::High => ToneTarget {
                med_lo: num(0x3f0c_cccd),  // 0.55
                med_hi: num(0x3f28_f5c3),  // 0.66
                std_lo: num(0x3e23_d70a),  // 0.16
                std_hi: num(0x3e85_1eb8),  // 0.26
                c_lo: num(0x3db8_51ec),  // 0.09
                c_hi: num(0x3e38_51ec),  // 0.18
            },
        }
    }
}

pub open spec fn spec_band_score(x: Single, lo: Single, hi: Single) -> Single {
    if x.ge(lo) && x.le(hi) {
        num(0x3f80_0000)  // 1
    } else if x.lt(lo) {
        num(0x3f80_0000).minus(lo.minus(x).over(num(0x3d75_c28f))).max(num(0))  // 1, 0.06
    } else {
        num(0x3f80_0000).minus(x.minus(hi).over(num(0x3d75_c28f))).max(num(0))  // 1, 0.06
    }
}

/// 1 within the band, and less the farther outside, down to 0.
#[verifier::when_used_as_spec(spec_band_score)]
pub fn band_score(x: Single, lo: Single, hi: Single) -> (r: Single)
    ensures
        r == spec_band_score(x, lo, hi),
{
    if x.ge(lo) && x.le(hi) {
        num(0x3f80_0000)  // 1
    } else if x.lt(lo) {
        num(0x3f80_0000).minus(lo.minus(x).over(num(0x3d75_c28f))).max(num(0))  // 1, 0.06
    } else {
        num(0x3f80_0000).minus(x.minus(hi).over(num(0x3d75_c28f))).max(num(0))  // 1, 0.06
    }
}

pub open spec fn spec_goodness(m: &ImageMetrics, t: &ToneTarget) -> Single {
    // 3
    let a: Single = num(0).plus(band_score(m.tone.median_l, t.med_lo, t.med_hi).times(num(0x4040_0000)));
    // 2
    let b: Single = a.plus(band_score(m.tone.std_l, t.std_lo, t.std_hi).times(num(0x4000_0000)));
    // 1.5
    let c: Single = b.plus(band_score(m.color.mean_c, t.c_lo, t.c_hi).times(num(0x3fc0_0000)));
    c.minus(m.cast.chroma.minus(num(0x3cf5_c28f)).max(num(0)).times(num(0x4080_0000)))  // 0.03, 4
}

/// How near the target the measurements of a picture are, less its cast.
#[verifier::when_used_as_spec(spec_goodness)]
pub fn goodness(m: &ImageMetrics, t: &ToneTarget) -> (r: Single)
    ensures
        r == spec_goodness(m, t),
{
    // 3
    let a: Single = num(0).plus(band_score(m.tone.median_l, t.med_lo, t.med_hi).times(num(0x4040_0000)));
    // 2
    let b: Single = a.plus(band_score(m.tone.std_l, t.std_lo, t.std_hi).times(num(0x4000_0000)));
    // 1.5
    let c: Single = b.plus(band_score(m.color.mean_c, t.c_lo, t.c_hi).times(num(0x3fc0_0000)));
    c.minus(m.cast.chroma.minus(num(0x3cf5_c28f)).max(num(0)).times(num(0x4080_0000)))  // 0.03, 4
}

pub open spec fn spec_is_artifact(m: &ImageMetrics, base: &ImageMetrics, t: &Tonality) -> Option<Damage> {
    if m.cast.chroma.gt(base.cast.chroma.plus(num(0x3da3_d70a))) {  // 0.08
        Some(Damage::Cast)
    } else if both_show_skin(m, base) && m.skin.mean_l.gt(num(0x3f51_eb85)) {  // 0.82
        Some(Damage::SkinBright)
    } else if both_show_skin(m, base)
        && m.skin.mean_c.gt(base.skin.mean_c.plus(num(0x40e0_0000))) {  // 7
        Some(Damage::SkinVivid)
    } else if !(t.key == Key::High || t.silhouette)
        // 1
        && m.exposure.highlight_clip_pct.gt(
        base.exposure.highlight_clip_pct.plus(num(0x3f80_0000)),
    ) {
        Some(Damage::Highlights)
    } else {
        None
    }
}

/// The damage for which a correction must not be kept at all. Clipped highlights are none where
/// the picture is of a high key or a silhouette.
#[verifier::when_used_as_spec(spec_is_artifact)]
pub fn is_artifact(m: &ImageMetrics, base: &ImageMetrics, t: &Tonality) -> (r: Option<Damage>)
    ensures
        r == spec_is_artifact(m, base, t),
{
    if m.cast.chroma.gt(base.cast.chroma.plus(num(0x3da3_d70a))) {  // 0.08
        Some(Damage::Cast)
    } else if both_show_skin(m, base) && m.skin.mean_l.gt(num(0x3f51_eb85)) {  // 0.82
        Some(Damage::SkinBright)
    } else if both_show_skin(m, base)
        && m.skin.mean_c.gt(base.skin.mean_c.plus(num(0x40e0_0000))) {  // 7
        Some(Damage::SkinVivid)
    } else if !(t.key == Key::High || t.silhouette)
        // 1
        && m.exposure.highlight_clip_pct.gt(
        base.exposure.highlight_clip_pct.plus(num(0x3f80_0000)),
    ) {
        Some(Damage::Highlights)
    } else {
        None
    }
}

/// A picture whose measurements lie in the bands gets the full mark for each of them.
pub proof fn law_within_band_scores_full(x: Single, lo: Single, hi: Single)
    requires
        x.ge(lo),
        x.le(hi),
    ensures
        band_score(x, lo, hi) == num(0x3f80_0000),
{
}

} // verus!
