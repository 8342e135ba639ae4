//! Patches: settings by name, written as an object of JSON.

use crate::guardrail::{clamp, clamped, edges_fit};
use crate::params::{field_named, Edges, Field, CONTROLS};
use crate::pipeline::Adjustments;
use crate::single::Single;
use crate::text::{chars_of, spells};
use vstd::prelude::*;

verus! {

/// The keys of an object of JSON in the order of their text, each with the pattern of its value
/// as a double; a value that is no number has none. Nothing where the text is no such object.
pub uninterp spec fn json_object(text: Seq<char>) -> Option<Seq<(Seq<char>, Option<u64>)>>;

/// Entries, with each key as its characters.
pub open spec fn keyed(v: Seq<(String, Option<u64>)>) -> Seq<(Seq<char>, Option<u64>)> {
    Seq::new(v.len(), |i: int| (v[i].0@, v[i].1))
}

/// Reads an object of JSON: `serde_json::from_str`, `Value::as_object` and `Value::as_f64`. The
/// contract gives what was read a name.
#[verifier::external_body]
fn read_object(text: &str) -> (r: Option<Vec<(String, Option<u64>)>>)
    ensures
        match r {
            Some(v) => json_object(text@) == Some(keyed(v@)),
            None => json_object(text@) is None,
        },
{
    let v: serde_json::Value = serde_json::from_str(text).ok()?;
    let o = v.as_object()?;
    Some(o.iter().map(|(k, x)| (k.clone(), x.as_f64().map(|d| d.to_bits()))).collect())
}

/// The setting that a key of a patch stands for: the one of that name; `exposure` is short for
/// the exposure in stops. A band or a zone that does not exist is no setting.
pub open spec fn setting_of(key: Seq<char>) -> Option<Field> {
    if key == "exposure"@ {
        Some(Field::ExposureEv)
    } else {
        match field_named(key) {
            Some(f) => if f.valid() {
                Some(f)
            } else {
                None
            },
            None => None,
        }
    }
}

fn find_setting(key: &str) -> (r: Option<Field>)
    ensures
        r == setting_of(key@),
{
    if spells(&chars_of(key), "exposure") {
        Some(Field::ExposureEv)
    } else {
        match Field::from_id(key) {
            Some(f) => if f.is_valid() {
                Some(f)
            } else {
                None
            },
            None => None,
        }
    }
}

/// An entry sets something: its key stands for a setting and its value is a number.
pub open spec fn sets(e: (Seq<char>, Option<u64>)) -> bool {
    setting_of(e.0) is Some && e.1 is Some
}

/// The settings after the first `k` entries. An unknown key or a value that is no number sets
/// nothing.
pub open spec fn patched(a: Adjustments, v: Seq<(Seq<char>, Option<u64>)>, k: int) -> Adjustments
    decreases k,
{
    if k <= 0 {
        a
    } else {
        let before = patched(a, v, k - 1);
        match (setting_of(v[k - 1].0), v[k - 1].1) {
            (Some(f), Some(bits)) => f.with_value(before, Single::spec_from_double(bits)),
            _ => before,
        }
    }
}

/// How many of the first `k` entries set something.
pub open spec fn settings_made(v: Seq<(Seq<char>, Option<u64>)>, k: int) -> nat
    decreases k,
{
    if k <= 0 {
        0
    } else {
        settings_made(v, k - 1) + if sets(v[k - 1]) {
            1nat
        } else {
            0nat
        }
    }
}

/// The settings after a patch: what it sets, brought within the sliders. A patch that sets
/// nothing changes nothing.
pub open spec fn after_patch(a: Adjustments, v: Seq<(Seq<char>, Option<u64>)>, e: Edges) -> Adjustments {
    let n = v.len() as int;
    if settings_made(v, n) > 0 {
        clamped(patched(a, v, n), e, CONTROLS as int)
    } else {
        patched(a, v, n)
    }
}

/// Sets what the entries of a patch say, and brings the settings within the sliders.
pub fn apply_entries(adj: &mut Adjustments, v: &Vec<(String, Option<u64>)>, e: &Edges)
    requires
        edges_fit(*e),
    ensures
        *final(adj) == after_patch(*old(adj), keyed(v@), *e),
{
    let ghost s = keyed(v@);
    let mut made: usize = 0;
    let mut k: usize = 0;
    while k < v.len()
        invariant
            k <= v@.len(),
            s == keyed(v@),
            made == settings_made(s, k as int),
            made <= k,
            *adj == patched(*old(adj), s, k as int),
        decreases v@.len() - k,
    {
        assert(s[k as int] == (v@[k as int].0@, v@[k as int].1));
        if let (Some(f), Some(bits)) = (find_setting(v[k].0.as_str()), v[k].1) {
            assert(sets(s[k as int]));
            f.set(adj, Single::from_double(bits));
            made = made + 1;
        }
        k = k + 1;
    }
    if made > 0 {
        clamp(adj, e);
    }
}

/// How a patch was taken.
#[derive(Clone, Copy, Debug, PartialEq, Eq, Structural)]
pub enum PatchOutcome {
    /// It was applied.
    Applied,
    /// It is no object of JSON.
    NotAnObject,
}

/// Applies a patch. A text that is no patch changes nothing; a key that stands for no setting is
/// passed over.
pub fn apply_params_patch(adj: &mut Adjustments, text: &str, e: &Edges) -> (r: PatchOutcome)
    requires
        edges_fit(*e),
    ensures
        match json_object(text@) {
            None => r == PatchOutcome::NotAnObject && *final(adj) == *old(adj),
            Some(v) => r == PatchOutcome::Applied && *final(adj) == after_patch(
                *old(adj),
                v,
                *e,
            ),
        },
{
    match read_object(text) {
        None => PatchOutcome::NotAnObject,
        Some(v) => {
            apply_entries(adj, &v, e);
            PatchOutcome::Applied
        },
    }
}

/// A patch never turns anything on or off, whatever it says.
pub proof fn law_patch_keeps_switches(
    a: Adjustments,
    v: Seq<(Seq<char>, Option<u64>)>,
    e: Edges,
)
    ensures
        crate::guardrail::same_switches(a, after_patch(a, v, e)),
{
    let n = v.len() as int;
    lemma_patched_keeps_switches(a, v, n);
    crate::guardrail::law_clamp_keeps_switches(patched(a, v, n), e, CONTROLS as int);
}

proof fn lemma_patched_keeps_switches(a: Adjustments, v: Seq<(Seq<char>, Option<u64>)>, k: int)
    requires
        0 <= k <= v.len(),
    ensures
        crate::guardrail::same_switches(a, patched(a, v, k)),
    decreases k,
{
    if k > 0 {
        lemma_patched_keeps_switches(a, v, k - 1);
    }
}

/// Every setting that is a number is within its slider after a patch that sets something.
pub proof fn law_patched_is_within_sliders(
    a: Adjustments,
    v: Seq<(Seq<char>, Option<u64>)>,
    e: Edges,
    k: int,
)
    requires
        edges_fit(e),
        settings_made(v, v.len() as int) > 0,
        0 <= k < CONTROLS,
    ensures
        ({
            let c = crate::params::control_at(k);
            let x = c.field.value_in(after_patch(a, v, e));
            x.is_nan() || (x.ge(c.low(e)) && x.le(c.high(e)))
        }),
{
    crate::guardrail::law_clamped_is_within_sliders(patched(a, v, v.len() as int), e, k);
}

} // verus!
