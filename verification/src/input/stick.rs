//! Stick (2-D) curve generation: deadzone with optional rescale, optional
//! magnitude limit, and quantization of every raw input pair into one packed
//! lookup-table entry.

use vstd::prelude::*;
use crate::SCALE;
use crate::num::{
    round_div, round_div_spec, sqrt_floor, isqrt, lemma_round_div_exact, lemma_round_div_le,
    lemma_round_div_ge, lemma_round_div_factor, lemma_round_div_bounds, lemma_sq_bound,
    lemma_index_split, lemma_sqrt_floor_bounds,
};
use crate::input::util::{Vec2, sq, deadzone_scale, deadzone_scale_spec};

verus! {

//
// Options
//

#[derive(Clone, Copy, Debug)]
pub struct StickOptions {
    /// Deadzone radius, in fixed-point units of `SCALE`.
    pub deadzone: i64,
    /// Rescale the input to start from center after deadzone.
    pub rescale: bool,
    /// Limits the max radius, in fixed-point units of `SCALE`.
    pub limit: Option<i64>,
}

impl StickOptions {
    /// The deadzone radius is below full deflection and the limit, when
    /// present, is positive and at most twice full deflection (a larger
    /// limit could never bind).
    pub open spec fn valid(self) -> bool {
        &&& 0 <= self.deadzone < SCALE
        &&& match self.limit {
            Some(l) => 0 < l <= 2 * SCALE,
            None => true,
        }
    }

    /// The identity curve: no deadzone, rescale on, no limit.
    pub open spec fn is_default(self) -> bool {
        self.deadzone == 0 && self.rescale == true && self.limit is None
    }
}

impl Default for StickOptions {
    /// The identity curve: no deadzone, rescale on, no limit.
    fn default() -> (r: Self)
        ensures
            r.is_default(),
            r.valid(),
    {
        Self { deadzone: 0, rescale: true, limit: None }
    }
}

impl PartialEq for StickOptions {
    fn eq(&self, other: &Self) -> (r: bool) {
        let limit_eq = match (self.limit, other.limit) {
            (None, None) => true,
            (Some(a), Some(b)) => a == b,
            _ => false,
        };
        self.deadzone == other.deadzone && self.rescale == other.rescale && limit_eq
    }
}

impl Eq for StickOptions {

}

impl vstd::std_specs::cmp::PartialEqSpecImpl for StickOptions {
    open spec fn obeys_eq_spec() -> bool {
        true
    }

    open spec fn eq_spec(&self, other: &Self) -> bool {
        &&& self.deadzone == other.deadzone
        &&& self.rescale == other.rescale
        &&& self.limit == other.limit
    }
}

//
// Utility
//

/// The scaled position of a raw byte: `(127.5 - raw) / 127.5` in real terms,
/// exact in fixed-point units of `SCALE`.
pub open spec fn scaled_spec(raw: int) -> int {
    (255 - 2 * raw) * 1024
}

/// The raw byte of a scaled position: `255 - round(127.5 + s * 127.5)`, with
/// the rounded value saturated into the byte range first.
pub open spec fn raw_spec(s: int) -> int {
    let q = round_div_spec(255 * (SCALE + s), 2 * SCALE);
    let c = if q < 0 {
        0
    } else if q > 255 {
        255
    } else {
        q
    };
    255 - c
}

/// Converts raw value into -1.0 to 1.0 range.
pub fn to_scaled(raw: u8) -> (s: i64)
    ensures
        s == scaled_spec(raw as int),
        -SCALE <= s <= SCALE,
{
    (255 - 2 * (raw as i64)) * 1024
}

/// Converts scaled value into raw value.
pub fn to_raw(s: i64) -> (r: u8)
    requires
        -2 * SCALE <= s <= 2 * SCALE,
    ensures
        r == raw_spec(s as int),
{
    let q = round_div(255 * (SCALE + s), 2 * SCALE);
    let c = if q < 0 {
        0
    } else if q > 255 {
        255
    } else {
        q
    };
    (255 - c) as u8
}

/// The byte range never saturates: quantizing always lands in `0 ..= 255`.
pub proof fn lemma_raw_spec_range(s: int)
    ensures
        0 <= raw_spec(s) <= 255,
{
}

/// Round-trip: quantizing a raw byte's scaled position gives the byte back.
pub proof fn lemma_raw_round_trip(raw: int)
    requires
        0 <= raw <= 255,
    ensures
        raw_spec(scaled_spec(raw)) == raw,
{
    let s = scaled_spec(raw);
    assert(255 * (SCALE + s) == (255 - raw) * (2 * SCALE)) by (nonlinear_arith)
        requires
            s == (255 - 2 * raw) * 1024,
            SCALE == 261120,
    ;
    lemma_round_div_exact(255 - raw, 2 * SCALE);
}

/// Center stability: a centered input quantizes to the raw midpoint 127.
pub proof fn lemma_raw_center()
    ensures
        raw_spec(0) == 127,
{
    assert(SCALE == 261120);
    assert(255 * (SCALE + 0) == 66585600) by (nonlinear_arith)
        requires
            SCALE == 261120,
    ;
    vstd::arithmetic::div_mod::lemma_fundamental_div_mod(133693440, 1044480);
    assert(round_div_spec(66585600, 522240) == (133693440int) / (1044480int));
}

/// Quantizing to a raw byte and scaling back moves a unit-range position by
/// at most half a quantization step (one step between raw bytes is
/// `2 * 1024` fixed-point units).
pub proof fn lemma_quantization_error(s: int)
    requires
        -SCALE <= s <= SCALE,
    ensures
        s - 1024 <= scaled_spec(raw_spec(s)) <= s + 1024,
{
    let q = round_div_spec(255 * (SCALE + s), 2 * SCALE);
    lemma_round_div_ge(255 * (SCALE + s), 2 * SCALE, 0);
    assert(255 * (SCALE + s) <= 255 * (2 * SCALE)) by (nonlinear_arith)
        requires
            s <= SCALE,
    ;
    lemma_round_div_le(255 * (SCALE + s), 2 * SCALE, 255);
    assert(raw_spec(s) == 255 - q);
    assert(scaled_spec(255 - q) == (2 * q - 255) * 1024);
    lemma_round_div_bounds(255 * (SCALE + s), 2 * SCALE);
    assert(s - 1024 <= (2 * q - 255) * 1024 <= s + 1024) by (nonlinear_arith)
        requires
            2 * (255 * (SCALE + s)) - 2 * SCALE <= 2 * (2 * SCALE) * q,
            2 * (2 * SCALE) * q <= 2 * (255 * (SCALE + s)) + 2 * SCALE,
            SCALE == 261120,
    ;
}

/// Creates a single u16 containing 2 raw values from scaled values.
pub fn to_merged(x: i64, y: i64) -> (m: u16)
    requires
        -2 * SCALE <= x <= 2 * SCALE,
        -2 * SCALE <= y <= 2 * SCALE,
    ensures
        m == raw_spec(x as int) + 256 * raw_spec(y as int),
{
    let xr = to_raw(x) as u16;
    let yr = to_raw(y) as u16;
    xr + yr * 256
}

//
// LUT Generator
//

/// The deadzone stage. Inputs shorter than the deadzone radius collapse to
/// the center; with rescale on, longer inputs keep their direction while the
/// band from the deadzone to full deflection is stretched over the full
/// range, capped so rescaling never lengthens the input.
pub open spec fn deadzone_pair(x: int, y: int, o: StickOptions) -> (int, int) {
    let m2 = x * x + y * y;
    if m2 < o.deadzone * o.deadzone {
        (0, 0)
    } else if o.rescale && m2 > 0 {
        let len = sqrt_floor(m2);
        let ds = deadzone_scale_spec(len, o.deadzone as int);
        let len2 = if ds <= len {
            ds
        } else {
            len
        };
        (round_div_spec(x * len2, len), round_div_spec(y * len2, len))
    } else {
        (x, y)
    }
}

/// The limit stage: inputs longer than the configured limit are shortened to
/// it, keeping their direction; all others pass through unchanged.
pub open spec fn limit_pair(x: int, y: int, o: StickOptions) -> (int, int) {
    match o.limit {
        None => (x, y),
        Some(lim) => {
            let m2 = x * x + y * y;
            if m2 <= lim * lim {
                (x, y)
            } else {
                let len = sqrt_floor(m2);
                (round_div_spec(x * lim, len), round_div_spec(y * lim, len))
            }
        },
    }
}

fn apply_deadzone(input: &mut Vec2, options: &StickOptions)
    requires
        old(input).in_range(),
        options.valid(),
    ensures
        final(input).x == deadzone_pair(old(input).x as int, old(input).y as int, *options).0,
        final(input).y == deadzone_pair(old(input).x as int, old(input).y as int, *options).1,
        final(input).in_range(),
{
    proof {
        lemma_sq_bound(input.x as int, SCALE as int);
        lemma_sq_bound(input.y as int, SCALE as int);
    }
    let len_squared = input.x * input.x + input.y * input.y;
    // Check if input length is less than the deadzone amount
    if len_squared < sq(options.deadzone) {
        input.x = 0;
        input.y = 0;
    } else if options.rescale && len_squared > 0 {
        let len = isqrt(len_squared);
        proof {
            assert(len >= 1) by (nonlinear_arith)
                requires
                    len_squared > 0,
                    len >= 0,
                    len_squared < (len + 1) * (len + 1),
            ;
            assert(len <= 2 * SCALE) by (nonlinear_arith)
                requires
                    len * len <= 2 * (SCALE * SCALE),
                    len >= 0,
                    SCALE == 261120,
            ;
        }
        // Scale the length to take into account the deadzone.
        // Use the unscaled length if that would be longer.
        let mut l = deadzone_scale(len, options.deadzone);
        if l > len {
            l = len;
        }
        proof {
            assert(input.x * l <= SCALE * (2 * SCALE) && input.x * l >= -(SCALE * (2 * SCALE))
                && input.y * l <= SCALE * (2 * SCALE) && input.y * l >= -(SCALE * (2 * SCALE)))
                by (nonlinear_arith)
                requires
                    -SCALE <= input.x <= SCALE,
                    -SCALE <= input.y <= SCALE,
                    0 <= l <= 2 * SCALE,
            ;
            lemma_round_div_factor(input.x as int, l as int, len as int, 1);
            lemma_round_div_factor(input.y as int, l as int, len as int, 1);
        }
        input.x = round_div(input.x * l, len);
        input.y = round_div(input.y * l, len);
    }
}

fn apply_limit(input: &mut Vec2, options: &StickOptions)
    requires
        old(input).in_range(),
        options.valid(),
    ensures
        final(input).x == limit_pair(old(input).x as int, old(input).y as int, *options).0,
        final(input).y == limit_pair(old(input).x as int, old(input).y as int, *options).1,
        final(input).in_range(),
{
    if let Some(limit) = options.limit {
        proof {
            lemma_sq_bound(input.x as int, SCALE as int);
            lemma_sq_bound(input.y as int, SCALE as int);
            lemma_sq_bound(limit as int, 2 * SCALE as int);
        }
        let len_squared = input.x * input.x + input.y * input.y;
        if len_squared > sq(limit) {
            let len = isqrt(len_squared);
            proof {
                assert(limit <= len) by (nonlinear_arith)
                    requires
                        limit * limit < len_squared,
                        len_squared < (len + 1) * (len + 1),
                        limit > 0,
                        len >= 0,
                ;
                assert(input.x * limit <= SCALE * (2 * SCALE) && input.x * limit >= -(SCALE * (2
                    * SCALE)) && input.y * limit <= SCALE * (2 * SCALE) && input.y * limit >= -(
                SCALE * (2 * SCALE))) by (nonlinear_arith)
                    requires
                        -SCALE <= input.x <= SCALE,
                        -SCALE <= input.y <= SCALE,
                        0 < limit <= 2 * SCALE,
                ;
                lemma_round_div_factor(input.x as int, limit as int, len as int, 1);
                lemma_round_div_factor(input.y as int, limit as int, len as int, 1);
            }
            input.x = round_div(input.x * limit, len);
            input.y = round_div(input.y * limit, len);
        }
    }
}

/// The packed lookup-table entry for the raw input pair `(x, y)`: low byte
/// the reshaped x, high byte the reshaped y.
pub open spec fn stick_entry(o: StickOptions, x: int, y: int) -> int {
    let d = deadzone_pair(scaled_spec(x), scaled_spec(y), o);
    let l = limit_pair(d.0, d.1, o);
    raw_spec(l.0) + 256 * raw_spec(l.1)
}

/// The full 256 x 256 stick lookup table, indexed by `x + y * 256`.
pub open spec fn stick_lut(o: StickOptions) -> Seq<u16> {
    Seq::new(65536, |i: int| stick_entry(o, i % 256, i / 256) as u16)
}

fn gen_lut(options: &StickOptions) -> (values: Vec<u16>)
    requires
        options.valid(),
    ensures
        values@ == stick_lut(*options),
{
    let ghost o = *options;
    let mut values: Vec<u16> = Vec::new();
    let mut y: usize = 0;
    while y < 256
        invariant
            options.valid(),
            o == *options,
            0 <= y <= 256,
            values.len() == y * 256,
            forall|i: int| 0 <= i < values.len() ==> values@[i] == stick_lut(o)[i],
        decreases 256 - y,
    {
        let mut x: usize = 0;
        while x < 256
            invariant
                options.valid(),
                o == *options,
                0 <= x <= 256,
                0 <= y < 256,
                values.len() == y * 256 + x,
                forall|i: int| 0 <= i < values.len() ==> values@[i] == stick_lut(o)[i],
            decreases 256 - x,
        {
            let mut input = Vec2 { x: to_scaled(x as u8), y: to_scaled(y as u8) };

            apply_deadzone(&mut input, options);
            apply_limit(&mut input, options);

            let merged = to_merged(input.x, input.y);
            proof {
                lemma_index_split(x as int, y as int);
                lemma_raw_spec_range(limit_pair(
                    deadzone_pair(scaled_spec(x as int), scaled_spec(y as int), o).0,
                    deadzone_pair(scaled_spec(x as int), scaled_spec(y as int), o).1,
                    o,
                ).0);
                lemma_raw_spec_range(limit_pair(
                    deadzone_pair(scaled_spec(x as int), scaled_spec(y as int), o).0,
                    deadzone_pair(scaled_spec(x as int), scaled_spec(y as int), o).1,
                    o,
                ).1);
                assert(merged == stick_lut(o)[y * 256 + x]);
            }
            values.push(merged);
            x += 1;
        }
        y += 1;
    }
    proof {
        assert(values@ =~= stick_lut(o));
    }
    values
}

impl StickOptions {
    /// Compile these options into the packed 256 x 256 lookup table.
    pub fn gen_lut(&self) -> (values: Vec<u16>)
        requires
            self.valid(),
        ensures
            values@ == stick_lut(*self),
    {
        gen_lut(self)
    }
}

//
// Laws
//

/// Any input vector whose magnitude lies strictly inside the deadzone radius
/// is forced to the center, and the center quantizes to the raw midpoint.
pub proof fn lemma_deadzone_zeroes(x: int, y: int, o: StickOptions)
    requires
        o.valid(),
        -SCALE <= x <= SCALE,
        -SCALE <= y <= SCALE,
        x * x + y * y < o.deadzone * o.deadzone,
    ensures
        deadzone_pair(x, y, o) == (0int, 0int),
        limit_pair(0, 0, o) == (0int, 0int),
        raw_spec(0) == 127,
{
    if o.limit is Some {
        let lim = o.limit->0;
        assert(0 <= lim * lim) by (nonlinear_arith)
            requires
                lim > 0,
        ;
    }
    lemma_raw_center();
}

/// The limit stage never lets the squared magnitude grow past the configured
/// limit by more than two fixed-point steps (far below one quantization
/// step, which is `2 * 1024` fixed-point units).
pub proof fn lemma_limit_clamp(x: int, y: int, o: StickOptions, lim: int)
    requires
        o.valid(),
        -SCALE <= x <= SCALE,
        -SCALE <= y <= SCALE,
        o.limit == Some(lim as i64),
        0 < lim <= 2 * SCALE,
    ensures
        ({
            let p = limit_pair(x, y, o);
            p.0 * p.0 + p.1 * p.1 <= (lim + 2) * (lim + 2)
        }),
{
    let m2 = x * x + y * y;
    if m2 <= lim * lim {
        assert(m2 <= (lim + 2) * (lim + 2)) by (nonlinear_arith)
            requires
                m2 <= lim * lim,
                lim > 0,
        ;
    } else {
        let len = sqrt_floor(m2);
        lemma_sqrt_floor_bounds(m2);
        assert(1 <= lim && lim <= len) by (nonlinear_arith)
            requires
                lim * lim < m2,
                m2 < (len + 1) * (len + 1),
                lim > 0,
                len >= 0,
        ;
        assert(-len <= x <= len && -len <= y <= len) by (nonlinear_arith)
            requires
                x * x + y * y == m2,
                m2 < (len + 1) * (len + 1),
                len >= 0,
        ;
        let a = round_div_spec(x * lim, len);
        let b = round_div_spec(y * lim, len);
        lemma_round_div_bounds(x * lim, len);
        lemma_round_div_bounds(y * lim, len);
        // Per component: the doubled product (2 len a) stays within len of
        // the exact value 2 x lim, so its square is bounded accordingly.
        assert((2 * len * a) * (2 * len * a) <= 4 * (x * x) * (lim * lim) + 4 * (len * len) * lim
            + len * len) by (nonlinear_arith)
            requires
                2 * (x * lim) - len <= 2 * len * a <= 2 * (x * lim) + len,
                -len <= x <= len,
                len >= 1,
                lim >= 1,
        ;
        assert((2 * len * b) * (2 * len * b) <= 4 * (y * y) * (lim * lim) + 4 * (len * len) * lim
            + len * len) by (nonlinear_arith)
            requires
                2 * (y * lim) - len <= 2 * len * b <= 2 * (y * lim) + len,
                -len <= y <= len,
                len >= 1,
                lim >= 1,
        ;
        // Summing and bounding the magnitude by the bracket around len.
        assert(4 * (x * x) * (lim * lim) + 4 * (y * y) * (lim * lim) <= 4 * (lim * lim) * (len
            * len) + 8 * (lim * lim) * len) by (nonlinear_arith)
            requires
                x * x + y * y == m2,
                m2 < (len + 1) * (len + 1),
                len >= 1,
                lim >= 1,
        ;
        assert(8 * (lim * lim) * len <= 8 * lim * (len * len)) by (nonlinear_arith)
            requires
                1 <= lim <= len,
        ;
        assert((2 * len * a) * (2 * len * a) + (2 * len * b) * (2 * len * b) <= 4 * (len * len) * (
        (lim + 2) * (lim + 2))) by (nonlinear_arith)
            requires
                (2 * len * a) * (2 * len * a) <= 4 * (x * x) * (lim * lim) + 4 * (len * len) * lim
                    + len * len,
                (2 * len * b) * (2 * len * b) <= 4 * (y * y) * (lim * lim) + 4 * (len * len) * lim
                    + len * len,
                4 * (x * x) * (lim * lim) + 4 * (y * y) * (lim * lim) <= 4 * (lim * lim) * (len
                    * len) + 8 * (lim * lim) * len,
                8 * (lim * lim) * len <= 8 * lim * (len * len),
                len >= 1,
                lim >= 1,
        ;
        assert(a * a + b * b <= (lim + 2) * (lim + 2)) by (nonlinear_arith)
            requires
                (2 * len * a) * (2 * len * a) + (2 * len * b) * (2 * len * b) <= 4 * (len * len) * (
                (lim + 2) * (lim + 2)),
                len >= 1,
        ;
    }
}

/// Deadzone zeroing at the table level: a raw input pair whose scaled
/// vector lies strictly inside the deadzone radius packs to the centered
/// entry, raw (127, 127).
pub proof fn lemma_table_deadzone_zeroes(x: int, y: int, o: StickOptions)
    requires
        o.valid(),
        0 <= x <= 255,
        0 <= y <= 255,
        scaled_spec(x) * scaled_spec(x) + scaled_spec(y) * scaled_spec(y) < o.deadzone
            * o.deadzone,
    ensures
        stick_entry(o, x, y) == 127 + 256 * 127,
{
    lemma_deadzone_zeroes(scaled_spec(x), scaled_spec(y), o);
}

/// The identity options compile to the identity table: with no deadzone and
/// no limit, every raw input pair maps to itself.
pub proof fn lemma_default_identity(o: StickOptions, x: int, y: int)
    requires
        o.is_default(),
        0 <= x <= 255,
        0 <= y <= 255,
    ensures
        stick_entry(o, x, y) == x + 256 * y,
{
    let sx = scaled_spec(x);
    let sy = scaled_spec(y);
    // A raw byte's scaled position is an odd multiple of 1024, never zero.
    assert(sx != 0 && sy != 0);
    let m2 = sx * sx + sy * sy;
    assert(m2 > 0) by (nonlinear_arith)
        requires
            sx != 0,
            m2 == sx * sx + sy * sy,
    ;
    let len = sqrt_floor(m2);
    lemma_sqrt_floor_bounds(m2);
    assert(len >= 1) by (nonlinear_arith)
        requires
            m2 > 0,
            len >= 0,
            m2 < (len + 1) * (len + 1),
    ;
    // With a zero deadzone the rescale is exact: the scaled length is the
    // length itself, and every component passes through unchanged.
    assert((len - 0) * SCALE == len * SCALE) by (nonlinear_arith);
    lemma_round_div_exact(len, SCALE as int);
    assert(deadzone_scale_spec(len, 0) == len);
    lemma_round_div_exact(sx, len);
    lemma_round_div_exact(sy, len);
    assert(deadzone_pair(sx, sy, o) == (sx, sy));
    lemma_raw_round_trip(x);
    lemma_raw_round_trip(y);
}

/// The deadzone stage keeps each component within the scaled unit range.
pub proof fn lemma_deadzone_pair_in_range(x: int, y: int, o: StickOptions)
    requires
        o.valid(),
        -SCALE <= x <= SCALE,
        -SCALE <= y <= SCALE,
    ensures
        -SCALE <= deadzone_pair(x, y, o).0 <= SCALE,
        -SCALE <= deadzone_pair(x, y, o).1 <= SCALE,
{
    let m2 = x * x + y * y;
    if m2 < o.deadzone * o.deadzone {
    } else if o.rescale && m2 > 0 {
        let len = sqrt_floor(m2);
        lemma_sqrt_floor_bounds(m2);
        assert(len >= 1) by (nonlinear_arith)
            requires
                m2 > 0,
                len >= 0,
                m2 < (len + 1) * (len + 1),
        ;
        let ds = deadzone_scale_spec(len, o.deadzone as int);
        if len > o.deadzone {
            lemma_round_div_ge((len - o.deadzone) * SCALE, SCALE - o.deadzone, 0);
        }
        let len2 = if ds <= len {
            ds
        } else {
            len
        };
        lemma_round_div_factor(x, len2, len, 1);
        lemma_round_div_factor(y, len2, len, 1);
    }
}

/// The limit stage keeps each component within the scaled unit range.
pub proof fn lemma_limit_pair_in_range(x: int, y: int, o: StickOptions)
    requires
        o.valid(),
        -SCALE <= x <= SCALE,
        -SCALE <= y <= SCALE,
    ensures
        -SCALE <= limit_pair(x, y, o).0 <= SCALE,
        -SCALE <= limit_pair(x, y, o).1 <= SCALE,
{
    match o.limit {
        None => {},
        Some(lim) => {
            let m2 = x * x + y * y;
            if m2 <= lim * lim {
            } else {
                let len = sqrt_floor(m2);
                lemma_sqrt_floor_bounds(m2);
                assert(1 <= lim <= len) by (nonlinear_arith)
                    requires
                        lim * lim < m2,
                        m2 < (len + 1) * (len + 1),
                        lim > 0,
                        len >= 0,
                ;
                lemma_round_div_factor(x, lim as int, len, 1);
                lemma_round_div_factor(y, lim as int, len, 1);
            }
        },
    }
}

/// Limit clamp at the table level: decode a limited entry's two bytes back
/// to scaled coordinates, and the vector's magnitude stays within the limit
/// up to one quantization step (one raw step is `2 * 1024` fixed-point
/// units; the bound allows that step plus the engine's two-unit slack).
pub proof fn lemma_table_limit_clamp(x: int, y: int, o: StickOptions, lim: int)
    requires
        o.valid(),
        0 <= x <= 255,
        0 <= y <= 255,
        o.limit == Some(lim as i64),
        0 < lim <= 2 * SCALE,
    ensures
        ({
            let d = deadzone_pair(scaled_spec(x), scaled_spec(y), o);
            let p = limit_pair(d.0, d.1, o);
            let dx = scaled_spec(raw_spec(p.0));
            let dy = scaled_spec(raw_spec(p.1));
            dx * dx + dy * dy <= (lim + 2050) * (lim + 2050)
        }),
{
    let sx = scaled_spec(x);
    let sy = scaled_spec(y);
    lemma_deadzone_pair_in_range(sx, sy, o);
    let d = deadzone_pair(sx, sy, o);
    lemma_limit_clamp(d.0, d.1, o, lim);
    lemma_limit_pair_in_range(d.0, d.1, o);
    let p = limit_pair(d.0, d.1, o);
    lemma_quantization_error(p.0);
    lemma_quantization_error(p.1);
    let dx = scaled_spec(raw_spec(p.0));
    let dy = scaled_spec(raw_spec(p.1));
    assert(-(lim + 2) <= p.0 <= lim + 2 && -(lim + 2) <= p.1 <= lim + 2) by (nonlinear_arith)
        requires
            p.0 * p.0 + p.1 * p.1 <= (lim + 2) * (lim + 2),
            lim > 0,
    ;
    assert(dx * dx + dy * dy <= (lim + 2050) * (lim + 2050)) by (nonlinear_arith)
        requires
            p.0 - 1024 <= dx <= p.0 + 1024,
            p.1 - 1024 <= dy <= p.1 + 1024,
            p.0 * p.0 + p.1 * p.1 <= (lim + 2) * (lim + 2),
            -(lim + 2) <= p.0 <= lim + 2,
            -(lim + 2) <= p.1 <= lim + 2,
            lim > 0,
    ;
}

} // verus!
