//! Fixed-point arithmetic primitives for the curve engine: division with
//! round-to-nearest (ties away from zero, as the engine's quantization step
//! demands) and an integer square root for vector magnitudes.

use vstd::prelude::*;
use vstd::arithmetic::div_mod::lemma_fundamental_div_mod;

verus! {

/// Quotient `n / d` rounded to the nearest integer, ties away from zero.
pub open spec fn round_div_spec(n: int, d: int) -> int
    recommends
        d > 0,
{
    if n >= 0 {
        (2 * n + d) / (2 * d)
    } else {
        -((2 * (-n) + d) / (2 * d))
    }
}

/// The largest `r` with `r * r <= n` (and `0` for negative `n`).
pub open spec fn sqrt_floor(n: int) -> int
    decreases n,
{
    if n < 1 {
        0
    } else {
        let r = sqrt_floor(n - 1);
        if (r + 1) * (r + 1) <= n {
            r + 1
        } else {
            r
        }
    }
}

/// A square is non-negative and bounded by the square of a bound.
pub proof fn lemma_sq_bound(a: int, b: int)
    requires
        -b <= a <= b,
    ensures
        0 <= a * a <= b * b,
{
    assert(0 <= a * a <= b * b) by (nonlinear_arith)
        requires
            -b <= a <= b,
    ;
}

/// Splitting a flat lookup-table index into its low and high bytes.
pub proof fn lemma_index_split(x: int, y: int)
    requires
        0 <= x < 256,
        0 <= y,
    ensures
        (y * 256 + x) % 256 == x,
        (y * 256 + x) / 256 == y,
{
    let i = y * 256 + x;
    lemma_fundamental_div_mod(i, 256);
    assert(i / 256 == y && i % 256 == x) by (nonlinear_arith)
        requires
            i == y * 256 + x,
            i == 256 * (i / 256) + i % 256,
            0 <= i % 256 < 256,
            0 <= x < 256,
            0 <= y,
    ;
}

/// For non-negative `n`, twice the rounded quotient lands within `d` of `2 * n / d`.
proof fn lemma_round_div_bounds_nonneg(n: int, d: int)
    requires
        n >= 0,
        d > 0,
    ensures
        2 * n - d < 2 * d * round_div_spec(n, d) <= 2 * n + d,
        round_div_spec(n, d) >= 0,
{
    let q = (2 * n + d) / (2 * d);
    lemma_fundamental_div_mod(2 * n + d, 2 * d);
    let rem = (2 * n + d) % (2 * d);
    assert(2 * n + d == 2 * d * q + rem);
    assert(0 <= rem < 2 * d);
    assert(q >= 0) by (nonlinear_arith)
        requires
            d > 0,
            2 * n + d == 2 * d * q + rem,
            0 <= rem < 2 * d,
            n >= 0,
    ;
}

/// Twice the rounded quotient lands within `d` of `2 * n / d`.
pub proof fn lemma_round_div_bounds(n: int, d: int)
    requires
        d > 0,
    ensures
        2 * n - d <= 2 * d * round_div_spec(n, d),
        2 * d * round_div_spec(n, d) <= 2 * n + d,
{
    if n >= 0 {
        lemma_round_div_bounds_nonneg(n, d);
    } else {
        lemma_round_div_bounds_nonneg(-n, d);
        let q = round_div_spec(-n, d);
        assert(round_div_spec(n, d) == -q);
        assert(2 * d * -q == -(2 * d * q)) by (nonlinear_arith);
    }
}

/// Rounding is exact on multiples of the divisor.
pub proof fn lemma_round_div_exact(m: int, d: int)
    requires
        d > 0,
    ensures
        round_div_spec(m * d, d) == m,
{
    lemma_round_div_bounds(m * d, d);
    let r = round_div_spec(m * d, d);
    assert(2 * (m * d) - d <= 2 * d * r <= 2 * (m * d) + d);
    assert(r == m) by (nonlinear_arith)
        requires
            d > 0,
            2 * (m * d) - d <= 2 * d * r <= 2 * (m * d) + d,
    ;
}

/// If the true quotient is at most `m`, so is the rounded one.
pub proof fn lemma_round_div_le(n: int, d: int, m: int)
    requires
        d > 0,
        n <= m * d,
    ensures
        round_div_spec(n, d) <= m,
{
    lemma_round_div_bounds(n, d);
    let r = round_div_spec(n, d);
    assert(r <= m) by (nonlinear_arith)
        requires
            d > 0,
            n <= m * d,
            2 * d * r <= 2 * n + d,
    ;
}

/// If the true quotient is at least `m`, so is the rounded one.
pub proof fn lemma_round_div_ge(n: int, d: int, m: int)
    requires
        d > 0,
        n >= m * d,
    ensures
        round_div_spec(n, d) >= m,
{
    lemma_round_div_bounds(n, d);
    let r = round_div_spec(n, d);
    assert(r >= m) by (nonlinear_arith)
        requires
            d > 0,
            n >= m * d,
            2 * n - d <= 2 * d * r,
    ;
}

/// Rounded division is monotone in the numerator.
pub proof fn lemma_round_div_monotonic(n1: int, n2: int, d: int)
    requires
        d > 0,
        n1 <= n2,
    ensures
        round_div_spec(n1, d) <= round_div_spec(n2, d),
{
    let r1 = round_div_spec(n1, d);
    let r2 = round_div_spec(n2, d);
    if n1 >= 0 {
        lemma_round_div_bounds_nonneg(n1, d);
        lemma_round_div_bounds_nonneg(n2, d);
        assert(r1 <= r2) by (nonlinear_arith)
            requires
                d > 0,
                n1 <= n2,
                2 * d * r1 <= 2 * n1 + d,
                2 * n2 - d < 2 * d * r2,
        ;
    } else if n2 < 0 {
        let q1 = round_div_spec(-n1, d);
        let q2 = round_div_spec(-n2, d);
        lemma_round_div_bounds_nonneg(-n1, d);
        lemma_round_div_bounds_nonneg(-n2, d);
        assert(q2 <= q1) by (nonlinear_arith)
            requires
                d > 0,
                n1 <= n2 < 0,
                2 * d * q2 <= 2 * (-n2) + d,
                2 * (-n1) - d < 2 * d * q1,
        ;
        assert(r1 == -q1 && r2 == -q2);
    } else {
        lemma_round_div_bounds_nonneg(-n1, d);
        lemma_round_div_bounds_nonneg(n2, d);
        assert(r1 == -round_div_spec(-n1, d));
    }
}

/// Scaling `c` by a rounded ratio `num / den` of at most `k` keeps the
/// result within `k * |c|`, on `c`'s side of zero.
pub proof fn lemma_round_div_factor(c: int, num: int, den: int, k: int)
    requires
        den > 0,
        0 <= num <= k * den,
        0 <= k,
    ensures
        c >= 0 ==> 0 <= round_div_spec(c * num, den) <= k * c,
        c <= 0 ==> k * c <= round_div_spec(c * num, den) <= 0,
{
    if c >= 0 {
        assert(c * num <= (k * c) * den && 0 * den <= c * num) by (nonlinear_arith)
            requires
                den > 0,
                0 <= num <= k * den,
                c >= 0,
        ;
        lemma_round_div_le(c * num, den, k * c);
        lemma_round_div_ge(c * num, den, 0);
    }
    if c <= 0 {
        assert((k * c) * den <= c * num && c * num <= 0 * den) by (nonlinear_arith)
            requires
                den > 0,
                0 <= num <= k * den,
                c <= 0,
        ;
        lemma_round_div_ge(c * num, den, k * c);
        lemma_round_div_le(c * num, den, 0);
    }
}

/// The result of `sqrt_floor` really is the floor of the square root.
pub proof fn lemma_sqrt_floor_bounds(n: int)
    requires
        n >= 0,
    ensures
        sqrt_floor(n) >= 0,
        sqrt_floor(n) * sqrt_floor(n) <= n,
        (sqrt_floor(n) + 1) * (sqrt_floor(n) + 1) > n,
    decreases n,
{
    if n < 1 {
        assert(0 * 0 == 0) by (nonlinear_arith);
        assert(1 * 1 == 1) by (nonlinear_arith);
    } else {
        lemma_sqrt_floor_bounds(n - 1);
        let r = sqrt_floor(n - 1);
        if (r + 1) * (r + 1) <= n {
            assert(n - 1 < (r + 1) * (r + 1));
            assert((r + 2) * (r + 2) > n) by (nonlinear_arith)
                requires
                    r >= 0,
                    n - 1 < (r + 1) * (r + 1) && (r + 1) * (r + 1) <= n,
            ;
        }
    }
}

/// Any `r` within the square-root bracket equals `sqrt_floor`.
pub proof fn lemma_sqrt_floor_unique(n: int, r: int)
    requires
        n >= 0,
        r >= 0,
        r * r <= n,
        (r + 1) * (r + 1) > n,
    ensures
        r == sqrt_floor(n),
{
    lemma_sqrt_floor_bounds(n);
    let s = sqrt_floor(n);
    assert(r == s) by (nonlinear_arith)
        requires
            r >= 0,
            s >= 0,
            r * r <= n,
            (r + 1) * (r + 1) > n,
            s * s <= n,
            (s + 1) * (s + 1) > n,
    ;
}

/// Quotient `n / d` rounded to the nearest integer, ties away from zero.
pub fn round_div(n: i64, d: i64) -> (r: i64)
    requires
        0 < d <= 0x1000_0000_0000_0000,
        -0x1000_0000_0000_0000 <= n <= 0x1000_0000_0000_0000,
    ensures
        r == round_div_spec(n as int, d as int),
{
    if n >= 0 {
        (2 * n + d) / (2 * d)
    } else {
        -((2 * -n + d) / (2 * d))
    }
}

/// Floor of the square root, by bisection on the bracket `[lo, hi)`.
pub fn isqrt(n: i64) -> (r: i64)
    requires
        0 <= n < 0x4000_0000_0000_0000,
    ensures
        r == sqrt_floor(n as int),
        0 <= r <= 0x8000_0000,
        r * r <= n,
        n < (r + 1) * (r + 1),
{
    let mut lo: i64 = 0;
    let mut hi: i64 = 0x8000_0000;
    proof {
        assert(0x8000_0000i64 * 0x8000_0000i64 == 0x4000_0000_0000_0000) by (nonlinear_arith);
        assert(0 * 0 == 0) by (nonlinear_arith);
    }
    while lo + 1 < hi
        invariant
            0 <= lo < hi <= 0x8000_0000,
            lo * lo <= n,
            n < hi * hi,
            n < 0x4000_0000_0000_0000,
        decreases hi - lo,
    {
        let mid = lo + (hi - lo) / 2;
        proof {
            assert(lo < mid < hi);
            assert(mid * mid <= 0x8000_0000i64 * 0x8000_0000i64) by (nonlinear_arith)
                requires
                    0 <= mid <= 0x8000_0000i64,
            ;
        }
        if mid * mid <= n {
            lo = mid;
        } else {
            hi = mid;
        }
    }
    proof {
        assert(hi == lo + 1);
        lemma_sqrt_floor_unique(n as int, lo as int);
    }
    lo
}

} // verus!
