//! Calculator numbers.
//!
//! A value of the calculator is a 32-bit IEEE 754 number, carried around by
//! its bit pattern.  All floating-point arithmetic is delegated to the
//! `rustc_apfloat` soft-float library, which implements IEEE 754 binary32
//! exactly (round to nearest, ties to even); each delegated operation is
//! named by an uninterpreted spec function over bit patterns, and every
//! contract of the library speaks of those names.

use vstd::prelude::*;

use rustc_apfloat::Float;
use rustc_apfloat::Round;
use rustc_apfloat::ieee::Single;

verus! {

/// A calculator number: an IEEE 754 binary32 value, identified by its bit
/// pattern.
#[derive(Clone, Copy, Debug, PartialEq, Eq, Structural)]
pub struct Num {
    pub bits: u32,
}

/// The sum of the two binary32 values named by the bit patterns.
pub uninterp spec fn add_bits(a: u32, b: u32) -> u32;

/// The difference of the two binary32 values named by the bit patterns.
pub uninterp spec fn sub_bits(a: u32, b: u32) -> u32;

/// The product of the two binary32 values named by the bit patterns.
pub uninterp spec fn mul_bits(a: u32, b: u32) -> u32;

/// The quotient of the two binary32 values named by the bit patterns.
pub uninterp spec fn div_bits(a: u32, b: u32) -> u32;

/// The binary32 value named by the bit pattern, truncated toward zero to a
/// 64-bit integer, saturating at the bounds, with zero for a non-value.
pub uninterp spec fn trunc_bits(a: u32) -> i64;

/// The 64-bit integer rounded to the nearest binary32 value, as a bit
/// pattern.
pub uninterp spec fn bits_of_i64(v: i64) -> u32;

/// Relies on rustc_apfloat's `Single::add_r`: IEEE 754 binary32 addition,
/// rounded to nearest even, computed on bit patterns.
#[verifier::external_body]
pub(crate) fn f32_add(a: u32, b: u32) -> (r: u32)
    ensures
        r == add_bits(a, b),
{
    Single::from_bits(a as u128).add_r(Single::from_bits(b as u128), Round::NearestTiesToEven).value.to_bits() as u32
}

/// Relies on rustc_apfloat's `Single::sub_r`: IEEE 754 binary32 subtraction,
/// rounded to nearest even, computed on bit patterns.
#[verifier::external_body]
pub(crate) fn f32_sub(a: u32, b: u32) -> (r: u32)
    ensures
        r == sub_bits(a, b),
{
    Single::from_bits(a as u128).sub_r(Single::from_bits(b as u128), Round::NearestTiesToEven).value.to_bits() as u32
}

/// Relies on rustc_apfloat's `Single::mul_r`: IEEE 754 binary32
/// multiplication, rounded to nearest even, computed on bit patterns.
#[verifier::external_body]
pub(crate) fn f32_mul(a: u32, b: u32) -> (r: u32)
    ensures
        r == mul_bits(a, b),
{
    Single::from_bits(a as u128).mul_r(Single::from_bits(b as u128), Round::NearestTiesToEven).value.to_bits() as u32
}

/// Relies on rustc_apfloat's `Single::div_r`: IEEE 754 binary32 division,
/// rounded to nearest even, computed on bit patterns.  Division by zero
/// yields an infinity and a zero over zero yields a quiet NaN, as IEEE 754
/// prescribes, so the call returns a bit pattern for every input.
#[verifier::external_body]
pub(crate) fn f32_div(a: u32, b: u32) -> (r: u32)
    ensures
        r == div_bits(a, b),
{
    Single::from_bits(a as u128).div_r(Single::from_bits(b as u128), Round::NearestTiesToEven).value.to_bits() as u32
}

/// Relies on rustc_apfloat's `Single::to_i128_r` rounding toward zero: the
/// value truncated to a 64-bit integer, with the documented deterministic
/// results for invalid inputs (zero for a NaN, the nearest bound when out of
/// range).
#[verifier::external_body]
pub(crate) fn f32_trunc(a: u32) -> (r: i64)
    ensures
        r == trunc_bits(a),
{
    let mut exact = false;
    Single::from_bits(a as u128).to_i128_r(64, Round::TowardZero, &mut exact).value as i64
}

/// Relies on rustc_apfloat's `Single::from_i128_r`: the integer rounded to
/// the nearest binary32 value, ties to even, as a bit pattern.
#[verifier::external_body]
pub(crate) fn f32_of_i64(v: i64) -> (r: u32)
    ensures
        r == bits_of_i64(v),
{
    Single::from_i128_r(v as i128, Round::NearestTiesToEven).value.to_bits() as u32
}

/// The remainder of truncated division, as the `%` operator of the host
/// language computes it on 64-bit integers: the sign follows the dividend.
pub open spec fn trunc_rem(a: int, b: int) -> int
    recommends
        b != 0,
{
    let m = if b >= 0 {
        b
    } else {
        -b
    };
    if a >= 0 {
        a % m
    } else {
        -((-a) % m)
    }
}

} // verus!
