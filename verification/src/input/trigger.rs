//! Trigger (1-D) curve generation: deadzone with optional rescale and
//! quantization of every raw value into a one-byte lookup-table entry.

use vstd::prelude::*;
use crate::SCALE;
use crate::num::{
    round_div, round_div_spec, lemma_round_div_exact, lemma_round_div_le, lemma_round_div_ge,
};
use crate::input::util::{deadzone_scale, deadzone_scale_spec};

verus! {

//
// Options
//

#[derive(Clone, Copy, Debug)]
pub struct TriggerOptions {
    /// Deadzone threshold, in fixed-point units of `SCALE`.
    pub deadzone: i64,
    /// Rescale the value to start from 0.0 after deadzone.
    pub rescale: bool,
}

impl TriggerOptions {
    /// The deadzone threshold lies below full travel.
    pub open spec fn valid(self) -> bool {
        0 <= self.deadzone < SCALE
    }

    /// The identity curve: no deadzone, rescale on.
    pub open spec fn is_default(self) -> bool {
        self.deadzone == 0 && self.rescale == true
    }
}

impl Default for TriggerOptions {
    /// The identity curve: no deadzone, rescale on.
    fn default() -> (r: Self)
        ensures
            r.is_default(),
            r.valid(),
    {
        Self { deadzone: 0, rescale: true }
    }
}

impl PartialEq for TriggerOptions {
    fn eq(&self, other: &Self) -> (r: bool) {
        self.deadzone == other.deadzone && self.rescale == other.rescale
    }
}

impl Eq for TriggerOptions {

}

impl vstd::std_specs::cmp::PartialEqSpecImpl for TriggerOptions {
    open spec fn obeys_eq_spec() -> bool {
        true
    }

    open spec fn eq_spec(&self, other: &Self) -> bool {
        &&& self.deadzone == other.deadzone
        &&& self.rescale == other.rescale
    }
}

//
// Utility
//

/// The scaled travel of a raw byte: `raw / 255` in real terms, exact in
/// fixed-point units of `SCALE`.
pub open spec fn trig_scaled_spec(raw: int) -> int {
    raw * 1024
}

/// The raw byte of a scaled travel: `round(s * 255)`.
pub open spec fn trig_raw_spec(s: int) -> int {
    round_div_spec(s, 1024)
}

/// Converts raw value into 0.0 to 1.0 range.
pub fn to_scaled(raw: u8) -> (s: i64)
    ensures
        s == trig_scaled_spec(raw as int),
        0 <= s <= SCALE,
{
    raw as i64 * 1024
}

/// Converts scaled value into raw value.
pub fn to_raw(s: i64) -> (r: u8)
    requires
        0 <= s <= SCALE,
    ensures
        r == trig_raw_spec(s as int),
{
    proof {
        lemma_round_div_ge(s as int, 1024, 0);
        lemma_round_div_le(s as int, 1024, 255);
    }
    round_div(s, 1024) as u8
}

/// Round-trip: quantizing a raw byte's scaled travel gives the byte back.
pub proof fn lemma_trig_round_trip(raw: int)
    requires
        0 <= raw <= 255,
    ensures
        trig_raw_spec(trig_scaled_spec(raw)) == raw,
{
    lemma_round_div_exact(raw, 1024);
}

//
// LUT Generator
//

/// The deadzone stage: travel below the threshold collapses to rest; with
/// rescale on, the band from the threshold to full travel is stretched over
/// the full output range.
pub open spec fn trig_deadzone_spec(s: int, o: TriggerOptions) -> int {
    if s < o.deadzone {
        0
    } else if o.rescale {
        deadzone_scale_spec(s, o.deadzone as int)
    } else {
        s
    }
}

/// The lookup-table entry for the raw input `i`.
pub open spec fn trigger_entry(o: TriggerOptions, i: int) -> int {
    trig_raw_spec(trig_deadzone_spec(trig_scaled_spec(i), o))
}

/// The full 256-entry trigger lookup table.
pub open spec fn trigger_lut(o: TriggerOptions) -> Seq<u8> {
    Seq::new(256, |i: int| trigger_entry(o, i) as u8)
}

fn apply_deadzone(input: &mut i64, options: &TriggerOptions)
    requires
        0 <= *old(input) <= SCALE,
        options.valid(),
    ensures
        *final(input) == trig_deadzone_spec(*old(input) as int, *options),
        0 <= *final(input) <= SCALE,
{
    if *input < options.deadzone {
        *input = 0;
    } else if options.rescale {
        *input = deadzone_scale(*input, options.deadzone);
    }
}

fn gen_lut(options: &TriggerOptions) -> (values: Vec<u8>)
    requires
        options.valid(),
    ensures
        values@ == trigger_lut(*options),
{
    let ghost o = *options;
    let mut values: Vec<u8> = Vec::new();
    let mut index: usize = 0;
    while index < 256
        invariant
            options.valid(),
            o == *options,
            0 <= index <= 256,
            values.len() == index,
            forall|i: int| 0 <= i < values.len() ==> values@[i] == trigger_lut(o)[i],
        decreases 256 - index,
    {
        let mut value = to_scaled(index as u8);

        apply_deadzone(&mut value, options);

        let raw = to_raw(value);
        proof {
            lemma_round_div_ge(trig_deadzone_spec(trig_scaled_spec(index as int), o), 1024, 0);
            lemma_round_div_le(trig_deadzone_spec(trig_scaled_spec(index as int), o), 1024, 255);
            assert(raw == trigger_lut(o)[index as int]);
        }
        values.push(raw);
        index += 1;
    }
    proof {
        assert(values@ =~= trigger_lut(o));
    }
    values
}

impl TriggerOptions {
    /// Compile these options into the 256-entry lookup table.
    pub fn gen_lut(&self) -> (values: Vec<u8>)
        requires
            self.valid(),
        ensures
            values@ == trigger_lut(*self),
    {
        gen_lut(self)
    }
}

} // verus!
