//! A list of the controls that another program can read.

use crate::guardrail::{edges_fit, in_order};
use crate::params::{control, control_at, law_controls_are_in_place, Control, Edges, Field};
use crate::params::{ParamSpec, CONTROLS};
use crate::perceptual::CurveKind;
use crate::single::Single;
use vstd::prelude::*;

verus! {

/// One control.
#[derive(Debug)]
pub struct ParamSchemaEntry {
    /// Name of the setting in a patch.
    pub id: String,
    /// Name beside the slider.
    pub label: String,
    pub description: String,
    pub group: String,
    /// Smallest value.
    pub min: Single,
    /// Largest value.
    pub max: Single,
    /// Neutral value.
    pub default: Single,
    pub unit: String,
    pub curve: String,
    /// Neutral in the middle.
    pub bipolar: bool,
}

/// The group of a setting.
pub open spec fn group_name(f: Field) -> Seq<char> {
    match f {
        Field::ExposureEv => "exposure"@,
        Field::FilmCurve => "tone"@,
        Field::LightRatio => "tone"@,
        Field::BrightnessLift => "tone"@,
        Field::Contrast => "tone"@,
        Field::Dehaze => "tone"@,
        Field::ShadowLift => "tone"@,
        Field::DeepShadowLift => "tone"@,
        Field::WBTemp => "white_balance"@,
        Field::WBTint => "white_balance"@,
        Field::Saturation => "color"@,
        Field::Vibrance => "color"@,
        Field::HueRotate => "color"@,
        Field::SplitShadow => "color"@,
        Field::SplitHighlight => "color"@,
        Field::SkinStrength => "skin"@,
        Field::SkinHue => "skin"@,
        Field::SkinChroma => "skin"@,
        Field::SkinLight => "skin"@,
        Field::SkinYellowReduce => "skin"@,
        Field::SkinLighten => "skin"@,
        Field::SkinRedden => "skin"@,
        Field::SkinPinken => "skin"@,
        Field::HslHue(_) => "hsl"@,
        Field::HslSat(_) => "hsl"@,
        Field::HslLight(_) => "hsl"@,
        Field::Zone(_) => "zone"@,
        Field::GeomRotate => "geometry"@,
        Field::GeomPerspV => "geometry"@,
        Field::GeomPerspH => "geometry"@,
        Field::DetailDenoise => "detail"@,
        Field::DetailSharpen => "detail"@,
        Field::DetailDiffuse => "detail"@,
        Field::FreqSepStrength => "advanced"@,
        Field::FreqSepTexture => "advanced"@,
        Field::FreqSepSmooth => "advanced"@,
        Field::FreqSepFeather => "advanced"@,
        Field::PyramidStrength => "advanced"@,
        Field::PyramidScale => "advanced"@,
    }
}

/// The group that a setting belongs to.
pub fn group_of(f: &Field) -> (r: &'static str)
    ensures
        r@ == group_name(*f),
{
    match f {
        Field::ExposureEv => "exposure",
        Field::FilmCurve | Field::LightRatio | Field::BrightnessLift | Field::Contrast
        | Field::Dehaze | Field::ShadowLift | Field::DeepShadowLift => "tone",
        Field::WBTemp | Field::WBTint => "white_balance",
        Field::Saturation | Field::Vibrance | Field::HueRotate | Field::SplitShadow
        | Field::SplitHighlight => "color",
        Field::SkinStrength | Field::SkinHue | Field::SkinChroma | Field::SkinLight
        | Field::SkinYellowReduce | Field::SkinLighten | Field::SkinRedden
        | Field::SkinPinken => "skin",
        Field::HslHue(_) | Field::HslSat(_) | Field::HslLight(_) => "hsl",
        Field::Zone(_) => "zone",
        Field::GeomRotate | Field::GeomPerspV | Field::GeomPerspH => "geometry",
        Field::DetailDenoise | Field::DetailSharpen | Field::DetailDiffuse => "detail",
        Field::FreqSepStrength | Field::FreqSepTexture | Field::FreqSepSmooth
        | Field::FreqSepFeather | Field::PyramidStrength | Field::PyramidScale => "advanced",
    }
}

/// The name of a kind of mapping.
pub open spec fn curve_text(c: CurveKind) -> Seq<char> {
    match c {
        CurveKind::Linear => "linear"@,
        CurveKind::SoftKnee => "soft_knee"@,
        CurveKind::LogSat => "log_sat"@,
    }
}

/// The name of a kind of mapping.
pub fn curve_name(c: CurveKind) -> (r: &'static str)
    ensures
        r@ == curve_text(c),
{
    match c {
        CurveKind::Linear => "linear",
        CurveKind::SoftKnee => "soft_knee",
        CurveKind::LogSat => "log_sat",
    }
}

/// The entry says of a control what it holds.
pub open spec fn describes(x: ParamSchemaEntry, c: Control, e: Edges) -> bool {
    &&& x.id@ == c.field.name()
    &&& x.label@ == c.label
    &&& x.description@ == c.tooltip
    &&& x.group@ == group_name(c.field)
    &&& x.min == c.low(e)
    &&& x.max == c.high(e)
    &&& x.default == c.middle(e)
    &&& x.unit@ == c.unit
    &&& x.curve@ == curve_text(c.curve)
    &&& x.bipolar == c.bipolar
}

/// The list of all controls, in their order.
pub fn param_schema(e: &Edges) -> (r: Vec<ParamSchemaEntry>)
    ensures
        r@.len() == CONTROLS,
        forall|k: int| 0 <= k < CONTROLS ==> describes(#[trigger] r@[k], control_at(k), *e),
{
    let mut r: Vec<ParamSchemaEntry> = Vec::new();
    let mut k: usize = 0;
    while k < CONTROLS
        invariant
            k <= CONTROLS,
            r@.len() == k,
            forall|j: int| 0 <= j < k ==> describes(#[trigger] r@[j], control_at(j), *e),
        decreases CONTROLS - k,
    {
        let spec: ParamSpec = control(k);
        let (min, max) = spec.limits(e);
        r.push(
            ParamSchemaEntry {
                id: spec.field.id(),
                label: spec.label.clone(),
                description: spec.tooltip.to_string(),
                group: group_of(&spec.field).to_string(),
                min,
                max,
                default: spec.neutral(e),
                unit: spec.unit.to_string(),
                curve: curve_name(spec.curve).to_string(),
                bipolar: spec.bipolar,
            },
        );
        k = k + 1;
    }
    r
}

/// An entry is found by its name: no other entry of the list has it.
pub proof fn law_ids_are_unique(j: int, k: int)
    requires
        0 <= j < CONTROLS,
        0 <= k < CONTROLS,
        control_at(j).field.name() == control_at(k).field.name(),
    ensures
        j == k,
{
    crate::params::law_names_are_distinct(control_at(j).field, control_at(k).field);
    law_controls_are_in_place(j);
    law_controls_are_in_place(k);
}

/// The default of a control lies between its least and its greatest value.
pub proof fn law_default_lies_between(entry: ParamSchemaEntry, k: int, e: Edges)
    requires
        edges_fit(e),
        0 <= k < CONTROLS,
        describes(entry, control_at(k), e),
    ensures
        entry.min.lt(entry.default),
        entry.default.lt(entry.max),
{
    assert(in_order(control_at(k), e));
}

} // verus!
