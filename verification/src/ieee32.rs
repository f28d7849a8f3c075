//! IEEE-754 binary32 arithmetic on raw bit patterns.
//!
//! A `real` value of the interpreted language is carried through the
//! library as the 32-bit pattern of an IEEE-754 single-precision number.
//! The arithmetic itself is done by `rustc_apfloat`, a pure software
//! implementation of IEEE-754; each operation below is a deterministic
//! function of the bit patterns of its operands, so its result is given
//! a name that the callers' contracts speak of.

use vstd::prelude::*;
use rustc_apfloat::Float;
use rustc_apfloat::ieee::Single;

verus! {

pub uninterp spec fn real_add_bits(a: u32, b: u32) -> u32;

pub uninterp spec fn real_sub_bits(a: u32, b: u32) -> u32;

pub uninterp spec fn real_mul_bits(a: u32, b: u32) -> u32;

pub uninterp spec fn real_div_bits(a: u32, b: u32) -> u32;

pub uninterp spec fn real_lt_bits(a: u32, b: u32) -> bool;

pub uninterp spec fn real_le_bits(a: u32, b: u32) -> bool;

pub uninterp spec fn real_gt_bits(a: u32, b: u32) -> bool;

pub uninterp spec fn real_ge_bits(a: u32, b: u32) -> bool;

pub uninterp spec fn real_eq_bits(a: u32, b: u32) -> bool;

pub uninterp spec fn real_parse_of(s: Seq<char>) -> Option<u32>;

pub uninterp spec fn real_text_of(a: u32) -> Seq<char>;

/// Negating an IEEE-754 number flips its sign bit and changes nothing else.
pub open spec fn real_neg_bits(a: u32) -> u32 {
    a ^ 0x8000_0000u32
}

/// Relies on `Add for rustc_apfloat::ieee::Single`: the IEEE-754 binary32
/// sum (round to nearest, ties to even) of the two operand bit patterns.
#[verifier::external_body]
pub(crate) fn real_add(a: u32, b: u32) -> (r: u32)
    ensures
        r == real_add_bits(a, b),
{
    (Single::from_bits(a as u128) + Single::from_bits(b as u128)).value.to_bits() as u32
}

/// Relies on `Sub for rustc_apfloat::ieee::Single`: the IEEE-754 binary32
/// difference of the two operand bit patterns.
#[verifier::external_body]
pub(crate) fn real_sub(a: u32, b: u32) -> (r: u32)
    ensures
        r == real_sub_bits(a, b),
{
    (Single::from_bits(a as u128) - Single::from_bits(b as u128)).value.to_bits() as u32
}

/// Relies on `Mul for rustc_apfloat::ieee::Single`: the IEEE-754 binary32
/// product of the two operand bit patterns.
#[verifier::external_body]
pub(crate) fn real_mul(a: u32, b: u32) -> (r: u32)
    ensures
        r == real_mul_bits(a, b),
{
    (Single::from_bits(a as u128) * Single::from_bits(b as u128)).value.to_bits() as u32
}

/// Relies on `Div for rustc_apfloat::ieee::Single`: the IEEE-754 binary32
/// quotient of the two operand bit patterns (division by zero yields an
/// infinity or NaN, never a panic).
#[verifier::external_body]
pub(crate) fn real_div(a: u32, b: u32) -> (r: u32)
    ensures
        r == real_div_bits(a, b),
{
    (Single::from_bits(a as u128) / Single::from_bits(b as u128)).value.to_bits() as u32
}

/// Relies on `PartialOrd for rustc_apfloat::ieee::Single`: the IEEE-754
/// `<` comparison (false whenever either operand is NaN).
#[verifier::external_body]
pub(crate) fn real_lt(a: u32, b: u32) -> (r: bool)
    ensures
        r == real_lt_bits(a, b),
{
    Single::from_bits(a as u128) < Single::from_bits(b as u128)
}

/// Relies on `PartialOrd for rustc_apfloat::ieee::Single`: the IEEE-754
/// `<=` comparison (false whenever either operand is NaN).
#[verifier::external_body]
pub(crate) fn real_le(a: u32, b: u32) -> (r: bool)
    ensures
        r == real_le_bits(a, b),
{
    Single::from_bits(a as u128) <= Single::from_bits(b as u128)
}

/// Relies on `PartialOrd for rustc_apfloat::ieee::Single`: the IEEE-754
/// `>` comparison (false whenever either operand is NaN).
#[verifier::external_body]
pub(crate) fn real_gt(a: u32, b: u32) -> (r: bool)
    ensures
        r == real_gt_bits(a, b),
{
    Single::from_bits(a as u128) > Single::from_bits(b as u128)
}

/// Relies on `PartialOrd for rustc_apfloat::ieee::Single`: the IEEE-754
/// `>=` comparison (false whenever either operand is NaN).
#[verifier::external_body]
pub(crate) fn real_ge(a: u32, b: u32) -> (r: bool)
    ensures
        r == real_ge_bits(a, b),
{
    Single::from_bits(a as u128) >= Single::from_bits(b as u128)
}

/// Relies on `PartialEq for rustc_apfloat::ieee::Single`: the IEEE-754
/// equality comparison (false whenever either operand is NaN).
#[verifier::external_body]
pub(crate) fn real_eq(a: u32, b: u32) -> (r: bool)
    ensures
        r == real_eq_bits(a, b),
{
    Single::from_bits(a as u128) == Single::from_bits(b as u128)
}

/// Relies on `FromStr for rustc_apfloat::ieee::Single`: decodes a decimal
/// literal to the nearest IEEE-754 binary32 value; a string it cannot
/// decode yields an error, never a panic.
#[verifier::external_body]
pub(crate) fn real_parse(s: &str) -> (r: Option<u32>)
    ensures
        r == real_parse_of(s@),
{
    match s.parse::<Single>() {
        Ok(v) => Some(v.to_bits() as u32),
        Err(_) => None,
    }
}

/// Relies on `Display for rustc_apfloat::ieee::Single`: renders the value
/// as a decimal string using the natural precision of the number.
#[verifier::external_body]
pub(crate) fn real_text(a: u32) -> (r: String)
    ensures
        r@ == real_text_of(a),
{
    format!("{}", Single::from_bits(a as u128))
}

} // verus!
