//! Numeric constraints on IEEE-754 binary32 values held by their bit patterns:
//! bit 31 is the sign, bits 23..31 the biased exponent and bits 0..23 the fraction.
//! Comparisons follow IEEE-754: NaN compares false, and `-0.0 == 0.0`.

use vstd::prelude::*;

verus! {

/// The bit pattern without its sign bit.
pub open spec fn magnitude_bits(bits: u32) -> nat {
    (bits % 0x8000_0000) as nat
}

/// The sign bit is set.
pub open spec fn sign_set(bits: u32) -> bool {
    bits >= 0x8000_0000
}

/// The value is neither infinite nor NaN (the exponent field is not all ones).
pub open spec fn spec_is_finite(bits: u32) -> bool {
    magnitude_bits(bits) < 0x7f80_0000
}

/// The value is NaN.
pub open spec fn spec_is_nan(bits: u32) -> bool {
    magnitude_bits(bits) > 0x7f80_0000
}

/// The value equals `0.0` (either signed zero).
pub open spec fn spec_is_zero(bits: u32) -> bool {
    magnitude_bits(bits) == 0
}

/// The value is less than `0.0`.
pub open spec fn spec_is_negative(bits: u32) -> bool {
    sign_set(bits) && !spec_is_zero(bits) && !spec_is_nan(bits)
}

/// The value is at least `0.0`.
pub open spec fn spec_at_least_zero(bits: u32) -> bool {
    !spec_is_nan(bits) && (!sign_set(bits) || spec_is_zero(bits))
}

/// The value equals `1.0`.
pub open spec fn spec_is_one(bits: u32) -> bool {
    bits == 0x3f80_0000
}

/// The value is finite and lies in `0.0..=1.0`.
pub open spec fn spec_probability_is_valid(bits: u32) -> bool {
    spec_is_zero(bits) || (!sign_set(bits) && bits <= 0x3f80_0000)
}

/// The value lies in `0.0..=PI`, where `PI` is the binary32 value nearest to pi
/// (bit pattern `0x40490fdb`).
pub open spec fn spec_within_half_turn(bits: u32) -> bool {
    spec_is_zero(bits) || (!sign_set(bits) && bits <= 0x4049_0fdb)
}

/// The value's binary32 square is finite: its magnitude is below `2^64`
/// (`0x5f7fffff` is the largest binary32 whose square rounds to a finite value).
pub open spec fn spec_square_is_finite(bits: u32) -> bool {
    magnitude_bits(bits) <= 0x5f7f_ffff
}

/// The formula parameters actually used are finite.
pub open spec fn spec_parameters_are_finite(base: u32, per_level: Option<u32>) -> bool {
    spec_is_finite(base) && match per_level {
        Some(slope) => spec_is_finite(slope),
        None => true,
    }
}

/// Returns whether the value is finite.
pub fn is_finite(bits: u32) -> (r: bool)
    ensures
        r == spec_is_finite(bits),
{
    bits % 0x8000_0000 < 0x7f80_0000
}

/// Returns whether the value is less than `0.0`.
pub fn is_negative(bits: u32) -> (r: bool)
    ensures
        r == spec_is_negative(bits),
{
    bits >= 0x8000_0000 && bits % 0x8000_0000 != 0 && bits % 0x8000_0000 <= 0x7f80_0000
}

/// Returns whether the value is at least `0.0`.
pub fn at_least_zero(bits: u32) -> (r: bool)
    ensures
        r == spec_at_least_zero(bits),
{
    bits % 0x8000_0000 <= 0x7f80_0000 && (bits < 0x8000_0000 || bits % 0x8000_0000 == 0)
}

/// Returns whether the value equals `0.0`.
pub fn is_zero(bits: u32) -> (r: bool)
    ensures
        r == spec_is_zero(bits),
{
    bits % 0x8000_0000 == 0
}

/// Returns whether the value equals `1.0`.
pub fn is_one(bits: u32) -> (r: bool)
    ensures
        r == spec_is_one(bits),
{
    bits == 0x3f80_0000
}

/// Returns whether a probability is finite and in `0.0..=1.0`.
pub fn probability_is_valid(bits: u32) -> (r: bool)
    ensures
        r == spec_probability_is_valid(bits),
{
    bits % 0x8000_0000 == 0 || bits <= 0x3f80_0000
}

/// Returns whether the value lies in `0.0..=PI`.
pub fn within_half_turn(bits: u32) -> (r: bool)
    ensures
        r == spec_within_half_turn(bits),
{
    bits % 0x8000_0000 == 0 || bits <= 0x4049_0fdb
}

/// Returns whether the value's square is finite.
pub fn square_is_finite(bits: u32) -> (r: bool)
    ensures
        r == spec_square_is_finite(bits),
{
    bits % 0x8000_0000 <= 0x5f7f_ffff
}

/// Returns whether the formula parameters actually used are finite.
pub fn formula_parameters_are_finite(base: u32, per_level: Option<u32>) -> (r: bool)
    ensures
        r == spec_parameters_are_finite(base, per_level),
{
    is_finite(base) && match per_level {
        Some(slope) => is_finite(slope),
        None => true,
    }
}

} // verus!
