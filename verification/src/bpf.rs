//! Kernel-hook support logic: deriving the numeric device identifier that
//! the hook is keyed on, and framing it for the hook's initial value.
//!
//! The platform's own numeric-id accessor parses a hexadecimal tail in
//! base 10, so the identifier is derived here from the device name instead.

use vstd::prelude::*;
use vstd::bytes::{u32_to_le_bytes, spec_u32_to_le_bytes};
use vstd::string::StringSliceAdditionalSpecFns;

verus! {

/// ASCII hexadecimal digit: `0-9`, `a-f` or `A-F`.
pub open spec fn is_hex_digit(b: u8) -> bool {
    ||| 0x30 <= b <= 0x39
    ||| 0x61 <= b <= 0x66
    ||| 0x41 <= b <= 0x46
}

/// The value of one ASCII hexadecimal digit.
pub open spec fn hex_digit_value(b: u8) -> int
    recommends
        is_hex_digit(b),
{
    if 0x30 <= b <= 0x39 {
        b - 0x30
    } else if 0x61 <= b <= 0x66 {
        b - 0x61 + 10
    } else {
        b - 0x41 + 10
    }
}

/// The length of the maximal run of hexadecimal digits at the end.
pub open spec fn trailing_hex_len(bytes: Seq<u8>) -> int
    decreases bytes.len(),
{
    if bytes.len() == 0 {
        0
    } else if !is_hex_digit(bytes.last()) {
        0
    } else {
        1 + trailing_hex_len(bytes.drop_last())
    }
}

/// The base-16 value of a digit string, most significant digit first.
pub open spec fn hex_value(digits: Seq<u8>) -> int
    decreases digits.len(),
{
    if digits.len() == 0 {
        0
    } else {
        16 * hex_value(digits.drop_last()) + hex_digit_value(digits.last())
    }
}

/// What `sysnum` returns: the base-16 value of the name's trailing
/// hexadecimal run, or nothing when the run is empty or the value does not
/// fit the identifier's width.
pub open spec fn sysnum_spec(bytes: Seq<u8>) -> Option<u32> {
    let k = trailing_hex_len(bytes);
    if k == 0 {
        None
    } else {
        let v = hex_value(bytes.subrange(bytes.len() - k, bytes.len() as int));
        if v <= u32::MAX {
            Some(v as u32)
        } else {
            None
        }
    }
}

/// A run of hexadecimal digits at the end extends the trailing run count.
proof fn lemma_trailing_extend(bytes: Seq<u8>, j: int)
    requires
        0 <= j <= bytes.len(),
        forall|i: int| j <= i < bytes.len() ==> is_hex_digit(#[trigger] bytes[i]),
    ensures
        trailing_hex_len(bytes) == trailing_hex_len(bytes.take(j)) + bytes.len() - j,
    decreases bytes.len() - j,
{
    if j == bytes.len() {
        assert(bytes.take(j) =~= bytes);
    } else {
        assert(is_hex_digit(bytes.last()));
        assert(bytes.drop_last() =~= bytes.take(bytes.len() - 1));
        lemma_trailing_extend(bytes.drop_last(), j);
        assert(bytes.drop_last().take(j) =~= bytes.take(j));
    }
}

/// The value of a digit string is non-negative.
proof fn lemma_hex_value_nonneg(digits: Seq<u8>)
    requires
        forall|i: int| 0 <= i < digits.len() ==> is_hex_digit(#[trigger] digits[i]),
    ensures
        hex_value(digits) >= 0,
    decreases digits.len(),
{
    if digits.len() > 0 {
        lemma_hex_value_nonneg(digits.drop_last());
    }
}

/// Extending a digit string never shrinks its value.
proof fn lemma_hex_value_prefix(digits: Seq<u8>, j: int)
    requires
        0 <= j <= digits.len(),
        forall|i: int| 0 <= i < digits.len() ==> is_hex_digit(#[trigger] digits[i]),
    ensures
        hex_value(digits.take(j)) <= hex_value(digits),
    decreases digits.len() - j,
{
    if j == digits.len() {
        assert(digits.take(j) =~= digits);
    } else {
        lemma_hex_value_prefix(digits.drop_last(), j);
        assert(digits.drop_last().take(j) =~= digits.take(j));
        assert(digits.drop_last() =~= digits.take(digits.len() - 1));
        lemma_hex_value_nonneg(digits.drop_last());
    }
}

/// Recognize one ASCII hexadecimal digit.
fn hex_digit(b: u8) -> (r: bool)
    ensures
        r == is_hex_digit(b),
{
    (0x30 <= b && b <= 0x39) || (0x61 <= b && b <= 0x66) || (0x41 <= b && b <= 0x46)
}

/// The value of one ASCII hexadecimal digit.
fn hex_digit_val(b: u8) -> (r: u8)
    requires
        is_hex_digit(b),
    ensures
        r == hex_digit_value(b),
        r < 16,
{
    if 0x30 <= b && b <= 0x39 {
        b - 0x30
    } else if 0x61 <= b && b <= 0x66 {
        b - 0x61 + 10
    } else {
        b - 0x41 + 10
    }
}

/// The numeric identifier of a device name: the base-16 parse of the name's
/// trailing hexadecimal run.
pub fn sysnum(sysname: &str) -> (r: Option<u32>)
    ensures
        r == sysnum_spec(sysname.spec_bytes()),
{
    let bytes = sysname.as_bytes();
    let n = bytes.len();

    let mut start = n;
    while start > 0 && hex_digit(bytes[start - 1])
        invariant
            0 <= start <= n,
            n == bytes@.len(),
            bytes@ == sysname.spec_bytes(),
            forall|i: int| start <= i < n ==> is_hex_digit(#[trigger] bytes@[i]),
        decreases start,
    {
        start = start - 1;
    }
    proof {
        lemma_trailing_extend(bytes@, start as int);
        if start > 0 {
            assert(bytes@.take(start as int).last() == bytes@[start - 1]);
        }
        assert(trailing_hex_len(bytes@) == n - start);
    }

    if start == n {
        return None;
    }

    let ghost run = bytes@.subrange(start as int, n as int);
    let mut value: u32 = 0;
    let mut i = start;
    while i < n
        invariant
            start <= i <= n,
            start < n,
            n == bytes@.len(),
            bytes@ == sysname.spec_bytes(),
            run == bytes@.subrange(start as int, n as int),
            trailing_hex_len(bytes@) == n - start,
            forall|j: int| start <= j < n ==> is_hex_digit(#[trigger] bytes@[j]),
            value == hex_value(bytes@.subrange(start as int, i as int)),
        decreases n - i,
    {
        let d = hex_digit_val(bytes[i]);
        if value > (u32::MAX - d as u32) / 16 {
            proof {
                vstd::arithmetic::div_mod::lemma_fundamental_div_mod(
                    u32::MAX - hex_digit_value(bytes@[i as int]),
                    16,
                );
                assert(16 * value + hex_digit_value(bytes@[i as int]) > u32::MAX);
                assert(forall|j: int|
                    0 <= j < run.len() ==> is_hex_digit(#[trigger] run[j]));
                lemma_hex_value_prefix(run, i + 1 - start);
                assert(run.take(i + 1 - start) =~= bytes@.subrange(start as int, (i + 1) as int));
                assert(bytes@.subrange(start as int, (i + 1) as int).drop_last() =~= bytes@.subrange(
                    start as int,
                    i as int,
                ));
                assert(hex_value(bytes@.subrange(start as int, (i + 1) as int)) == 16 * value
                    + hex_digit_value(bytes@[i as int]));
            }
            return None;
        }
        proof {
            assert(bytes@.subrange(start as int, (i + 1) as int).drop_last() =~= bytes@.subrange(
                start as int,
                i as int,
            ));
        }
        value = 16 * value + d as u32;
        i = i + 1;
    }
    proof {
        assert(bytes@.subrange(start as int, n as int) =~= run);
    }
    Some(value)
}

/// The hook's initial value: the device's numeric identifier, little endian,
/// in the first four bytes.
pub fn hook_initial_value(num: u32) -> (r: Vec<u8>)
    ensures
        r@ == spec_u32_to_le_bytes(num),
        r@.len() == 4,
{
    u32_to_le_bytes(num)
}

} // verus!
