//! The curve transform engine: pure functions that compile per-axis shaping
//! parameters into quantized lookup tables for the kernel hook.

use vstd::prelude::*;

pub mod stick;
pub mod trigger;
pub mod util;

use crate::SCALE;
use crate::num::{
    round_div, round_div_spec, sqrt_floor, isqrt, lemma_round_div_factor,
    lemma_sq_bound, lemma_index_split,
};
use crate::input::stick::{StickOptions, scaled_spec, raw_spec, stick_lut, to_scaled, to_merged,
    lemma_raw_spec_range};
use crate::input::util::{Vec2, sq, deadzone_scale, deadzone_scale_spec};

verus! {

/// Generate a stick lookup table from the given options.
pub fn gen_stick_lut(options: &StickOptions) -> (values: Vec<u16>)
    requires
        options.valid(),
    ensures
        values@ == stick_lut(*options),
{
    options.gen_lut()
}

/// The fixed shaping applied by [`gen_input`]: a deadzone of one fifth of
/// full deflection, always rescaled, with the rescaled length capped at the
/// input length, and no limit.
pub open spec fn modify_pair(x: int, y: int) -> (int, int) {
    let dz = SCALE as int / 5;
    let m2 = x * x + y * y;
    if m2 < dz * dz {
        (0, 0)
    } else {
        let len = sqrt_floor(m2);
        let ds = deadzone_scale_spec(len, dz);
        let len2 = if ds <= len {
            ds
        } else {
            len
        };
        (round_div_spec(x * len2, len), round_div_spec(y * len2, len))
    }
}

fn modify(input: &mut Vec2)
    requires
        old(input).in_range(),
    ensures
        final(input).x == modify_pair(old(input).x as int, old(input).y as int).0,
        final(input).y == modify_pair(old(input).x as int, old(input).y as int).1,
        final(input).in_range(),
{
    proof {
        lemma_sq_bound(input.x as int, SCALE as int);
        lemma_sq_bound(input.y as int, SCALE as int);
    }
    let deadzone: i64 = SCALE / 5;
    let len_squared = input.x * input.x + input.y * input.y;

    // deadzone
    if len_squared < sq(deadzone) {
        input.x = 0;
        input.y = 0;
    } else {
        let len = isqrt(len_squared);
        proof {
            assert(len >= 1) by (nonlinear_arith)
                requires
                    len_squared >= 52224 * 52224,
                    len >= 0,
                    len_squared < (len + 1) * (len + 1),
            ;
            assert(len <= 2 * SCALE) by (nonlinear_arith)
                requires
                    len * len <= 2 * (SCALE * SCALE),
                    len >= 0,
                    SCALE == 261120,
            ;
        }
        // Scale the length to take into account the deadzone.
        // Use the unscaled length if that would be longer.
        let mut l = deadzone_scale(len, deadzone);
        if l > len {
            l = len;
        }
        proof {
            assert(input.x * l <= SCALE * (2 * SCALE) && input.x * l >= -(SCALE * (2 * SCALE))
                && input.y * l <= SCALE * (2 * SCALE) && input.y * l >= -(SCALE * (2 * SCALE)))
                by (nonlinear_arith)
                requires
                    -SCALE <= input.x <= SCALE,
                    -SCALE <= input.y <= SCALE,
                    0 <= l <= 2 * SCALE,
                    0 < SCALE,
            ;
            lemma_round_div_factor(input.x as int, l as int, len as int, 1);
            lemma_round_div_factor(input.y as int, l as int, len as int, 1);
        }
        input.x = round_div(input.x * l, len);
        input.y = round_div(input.y * l, len);
    }
}

/// The packed entry of the fixed-shaping table for the raw pair `(x, y)`.
pub open spec fn input_entry(x: int, y: int) -> int {
    let m = modify_pair(scaled_spec(x), scaled_spec(y));
    raw_spec(m.0) + 256 * raw_spec(m.1)
}

/// The full 256 x 256 fixed-shaping table, indexed by `x + y * 256`.
pub open spec fn input_lut() -> Seq<u16> {
    Seq::new(65536, |i: int| input_entry(i % 256, i / 256) as u16)
}

/// Generate the lookup table for the fixed one-fifth-deadzone shaping.
pub fn gen_input() -> (values: Vec<u16>)
    ensures
        values@ == input_lut(),
{
    let mut values: Vec<u16> = Vec::new();
    let mut iy: usize = 0;
    while iy < 256
        invariant
            0 <= iy <= 256,
            values.len() == iy * 256,
            forall|i: int| 0 <= i < values.len() ==> values@[i] == input_lut()[i],
        decreases 256 - iy,
    {
        let mut ix: usize = 0;
        while ix < 256
            invariant
                0 <= ix <= 256,
                0 <= iy < 256,
                values.len() == iy * 256 + ix,
                forall|i: int| 0 <= i < values.len() ==> values@[i] == input_lut()[i],
            decreases 256 - ix,
        {
            let mut input = Vec2 { x: to_scaled(ix as u8), y: to_scaled(iy as u8) };
            modify(&mut input);

            let merged = to_merged(input.x, input.y);
            proof {
                lemma_index_split(ix as int, iy as int);
                lemma_raw_spec_range(modify_pair(scaled_spec(ix as int), scaled_spec(iy as int)).0);
                lemma_raw_spec_range(modify_pair(scaled_spec(ix as int), scaled_spec(iy as int)).1);
                assert(merged == input_lut()[iy * 256 + ix]);
            }
            values.push(merged);
            ix += 1;
        }
        iy += 1;
    }
    proof {
        assert(values@ =~= input_lut());
    }
    values
}

} // verus!
