//! Shared pieces of the curve engine: the fixed-point plane vector, squaring,
//! and the deadzone rescale that both the stick and the trigger curves use.

use vstd::prelude::*;
use crate::SCALE;
use crate::num::{
    round_div, round_div_spec, lemma_round_div_exact, lemma_round_div_le, lemma_round_div_ge,
    lemma_round_div_monotonic,
};

verus! {

/// A stick deflection in fixed-point scaled coordinates: the real vector is
/// `(x / SCALE, y / SCALE)`.
#[derive(Clone, Copy, Debug)]
pub struct Vec2 {
    pub x: i64,
    pub y: i64,
}

impl Vec2 {
    /// Both components lie in the scaled unit square.
    pub open spec fn in_range(self) -> bool {
        &&& -SCALE <= self.x <= SCALE
        &&& -SCALE <= self.y <= SCALE
    }

    /// Squared magnitude, in squared fixed-point units.
    pub open spec fn mag2(self) -> int {
        self.x * self.x + self.y * self.y
    }
}

/// Square (n * n).
pub fn sq(n: i64) -> (r: i64)
    requires
        -0x8000_0000 <= n <= 0x8000_0000,
    ensures
        r == n * n,
{
    proof {
        assert(n * n <= 0x8000_0000i64 * 0x8000_0000i64 && 0 <= n * n) by (nonlinear_arith)
            requires
                -0x8000_0000 <= n <= 0x8000_0000,
        ;
    }
    n * n
}

/// Length `len` mapped so that the band from `deadzone` to full deflection
/// covers the whole output range: `max(0, len - deadzone) / (1 - deadzone)`
/// in real terms, rounded to the nearest fixed-point step.
pub open spec fn deadzone_scale_spec(len: int, deadzone: int) -> int {
    if len <= deadzone {
        0
    } else {
        round_div_spec((len - deadzone) * SCALE, SCALE - deadzone)
    }
}

/// Scale length outside of the deadzone back onto the full range.
pub fn deadzone_scale(len: i64, deadzone: i64) -> (r: i64)
    requires
        0 <= len <= 2 * SCALE,
        0 <= deadzone < SCALE,
    ensures
        r == deadzone_scale_spec(len as int, deadzone as int),
        0 <= r,
        len <= SCALE ==> r <= SCALE,
{
    if len <= deadzone {
        0
    } else {
        proof {
            lemma_round_div_ge((len - deadzone) * SCALE, SCALE - deadzone, 0);
            if len <= SCALE {
                assert((len - deadzone) * SCALE <= SCALE * (SCALE - deadzone)) by (nonlinear_arith)
                    requires
                        deadzone < len <= SCALE,
                        0 <= deadzone,
                ;
                lemma_round_div_le((len - deadzone) * SCALE, SCALE - deadzone, SCALE as int);
            }
        }
        round_div((len - deadzone) * SCALE, SCALE - deadzone)
    }
}

/// The deadzone rescale vanishes at the deadzone edge and reaches full
/// deflection exactly at full deflection.
pub proof fn lemma_deadzone_scale_edges(deadzone: int)
    requires
        0 <= deadzone < SCALE,
    ensures
        deadzone_scale_spec(deadzone, deadzone) == 0,
        deadzone_scale_spec(SCALE as int, deadzone) == SCALE,
{
    assert((SCALE - deadzone) * SCALE == SCALE * (SCALE - deadzone)) by (nonlinear_arith);
    lemma_round_div_exact(SCALE as int, SCALE - deadzone);
}

/// The deadzone rescale is non-decreasing in the input length.
pub proof fn lemma_deadzone_scale_monotonic(len1: int, len2: int, deadzone: int)
    requires
        0 <= deadzone < SCALE,
        len1 <= len2,
    ensures
        deadzone_scale_spec(len1, deadzone) <= deadzone_scale_spec(len2, deadzone),
{
    if len1 <= deadzone {
        if len2 > deadzone {
            lemma_round_div_ge((len2 - deadzone) * SCALE, SCALE - deadzone, 0);
        }
    } else {
        assert((len1 - deadzone) * SCALE <= (len2 - deadzone) * SCALE) by (nonlinear_arith)
            requires
                len1 <= len2,
        ;
        lemma_round_div_monotonic(
            (len1 - deadzone) * SCALE,
            (len2 - deadzone) * SCALE,
            SCALE - deadzone,
        );
    }
}

} // verus!
