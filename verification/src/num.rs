//! Arithmetic on the language's numbers.
//!
//! Runtime numbers are IEEE 754 binary64 values, carried everywhere as their
//! 64-bit bit patterns. The operations themselves are performed by the
//! software implementation in `rustc_apfloat`; each operation's result is
//! named by an uninterpreted spec function of the operand bit patterns, which
//! is sound because every operation below is a pure function of its operands.
use vstd::prelude::*;

use core::str::FromStr;
use rustc_apfloat::ieee::Double;
use rustc_apfloat::Float;

verus! {

/// Bit pattern of the number a piece of text denotes (zero for text that
/// does not parse as a number).
pub uninterp spec fn parse_bits(s: Seq<char>) -> u64;

/// Bit pattern of the IEEE 754 sum of two numbers given by bit pattern.
pub uninterp spec fn add_bits(a: u64, b: u64) -> u64;

/// Bit pattern of the IEEE 754 difference of two numbers given by bit pattern.
pub uninterp spec fn sub_bits(a: u64, b: u64) -> u64;

/// Bit pattern of the IEEE 754 product of two numbers given by bit pattern.
pub uninterp spec fn mul_bits(a: u64, b: u64) -> u64;

/// Bit pattern of the IEEE 754 quotient of two numbers given by bit pattern.
pub uninterp spec fn div_bits(a: u64, b: u64) -> u64;

/// Bit pattern of the IEEE 754 negation of a number given by bit pattern.
pub uninterp spec fn neg_bits(a: u64) -> u64;

/// IEEE 754 equality of two numbers given by bit pattern.
pub uninterp spec fn eq_bits(a: u64, b: u64) -> bool;

/// IEEE 754 "less than" of two numbers given by bit pattern.
pub uninterp spec fn lt_bits(a: u64, b: u64) -> bool;

/// IEEE 754 "less than or equal" of two numbers given by bit pattern.
pub uninterp spec fn le_bits(a: u64, b: u64) -> bool;

/// IEEE 754 "greater than" of two numbers given by bit pattern.
pub uninterp spec fn gt_bits(a: u64, b: u64) -> bool;

/// IEEE 754 "greater than or equal" of two numbers given by bit pattern.
pub uninterp spec fn ge_bits(a: u64, b: u64) -> bool;

/// Decimal text of a number given by bit pattern.
pub uninterp spec fn fmt_bits(a: u64) -> Seq<char>;

/// Relies on rustc_apfloat::ieee::Double::from_str: correctly rounded
/// (nearest, ties to even) decimal-to-binary64 conversion, a pure function
/// of the text; unparsable text is mapped to the bit pattern of zero.
#[verifier::external_body]
pub(crate) fn parse_double(s: &str) -> (r: u64)
    ensures
        r == parse_bits(s@),
{
    match Double::from_str(s) {
        Ok(d) => d.to_bits() as u64,
        Err(_) => 0,
    }
}

/// Relies on rustc_apfloat::ieee::Double's Add impl (`add_r`, round to
/// nearest even): the IEEE 754 sum, a pure function of the two bit patterns.
#[verifier::external_body]
pub(crate) fn add_double(a: u64, b: u64) -> (r: u64)
    ensures
        r == add_bits(a, b),
{
    (Double::from_bits(a as u128) + Double::from_bits(b as u128)).value.to_bits() as u64
}

/// Relies on rustc_apfloat::ieee::Double's Sub impl (`sub_r`, round to
/// nearest even): the IEEE 754 difference, a pure function of the operands.
#[verifier::external_body]
pub(crate) fn sub_double(a: u64, b: u64) -> (r: u64)
    ensures
        r == sub_bits(a, b),
{
    (Double::from_bits(a as u128) - Double::from_bits(b as u128)).value.to_bits() as u64
}

/// Relies on rustc_apfloat::ieee::Double's Mul impl (`mul_r`, round to
/// nearest even): the IEEE 754 product, a pure function of the operands.
#[verifier::external_body]
pub(crate) fn mul_double(a: u64, b: u64) -> (r: u64)
    ensures
        r == mul_bits(a, b),
{
    (Double::from_bits(a as u128) * Double::from_bits(b as u128)).value.to_bits() as u64
}

/// Relies on rustc_apfloat::ieee::Double's Div impl (`div_r`, round to
/// nearest even): the IEEE 754 quotient (infinity or NaN on a zero divisor),
/// a pure function of the operands.
#[verifier::external_body]
pub(crate) fn div_double(a: u64, b: u64) -> (r: u64)
    ensures
        r == div_bits(a, b),
{
    (Double::from_bits(a as u128) / Double::from_bits(b as u128)).value.to_bits() as u64
}

/// Relies on rustc_apfloat::ieee::Double's Neg impl: flips the sign bit,
/// a pure function of the bit pattern.
#[verifier::external_body]
pub(crate) fn neg_double(a: u64) -> (r: u64)
    ensures
        r == neg_bits(a),
{
    (-Double::from_bits(a as u128)).to_bits() as u64
}

/// Relies on rustc_apfloat::ieee::Double's PartialEq impl: IEEE 754 equality
/// (compare returns Equal; NaN equals nothing, zero equals negative zero).
#[verifier::external_body]
pub(crate) fn eq_double(a: u64, b: u64) -> (r: bool)
    ensures
        r == eq_bits(a, b),
{
    Double::from_bits(a as u128) == Double::from_bits(b as u128)
}

/// Relies on rustc_apfloat::ieee::Double's PartialOrd impl: IEEE 754 ordering
/// (NaN is unordered, so every comparison on it is false).
#[verifier::external_body]
pub(crate) fn lt_double(a: u64, b: u64) -> (r: bool)
    ensures
        r == lt_bits(a, b),
{
    Double::from_bits(a as u128) < Double::from_bits(b as u128)
}

/// Relies on rustc_apfloat::ieee::Double's PartialOrd impl: IEEE 754 ordering
/// (NaN is unordered, so every comparison on it is false).
#[verifier::external_body]
pub(crate) fn le_double(a: u64, b: u64) -> (r: bool)
    ensures
        r == le_bits(a, b),
{
    Double::from_bits(a as u128) <= Double::from_bits(b as u128)
}

/// Relies on rustc_apfloat::ieee::Double's PartialOrd impl: IEEE 754 ordering
/// (NaN is unordered, so every comparison on it is false).
#[verifier::external_body]
pub(crate) fn gt_double(a: u64, b: u64) -> (r: bool)
    ensures
        r == gt_bits(a, b),
{
    Double::from_bits(a as u128) > Double::from_bits(b as u128)
}

/// Relies on rustc_apfloat::ieee::Double's PartialOrd impl: IEEE 754 ordering
/// (NaN is unordered, so every comparison on it is false).
#[verifier::external_body]
pub(crate) fn ge_double(a: u64, b: u64) -> (r: bool)
    ensures
        r == ge_bits(a, b),
{
    Double::from_bits(a as u128) >= Double::from_bits(b as u128)
}

/// Relies on rustc_apfloat::ieee::Double's Display impl: decimal text of the
/// number, a pure function of the bit pattern. The format width is that
/// impl's threshold for falling back to scientific notation; a large one
/// keeps every value in plain positional decimal.
#[verifier::external_body]
pub(crate) fn fmt_double(a: u64) -> (r: String)
    ensures
        r@ == fmt_bits(a),
{
    format!("{:1000}", Double::from_bits(a as u128))
}

} // verus!
