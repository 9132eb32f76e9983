//! Double-precision numbers, represented by their IEEE-754 binary64 bit
//! patterns so that no floating-point type appears in the library.
//!
//! Arithmetic, comparison and decimal parsing are done by the software
//! float implementation of the `rustc_apfloat` crate (IEEE-754 binary64,
//! round to nearest, ties to even); each result is named by a spec
//! function of the operand bits alone.
use vstd::prelude::*;
use crate::chars::ascii_digit;
use rustc_apfloat::Float;
use rustc_apfloat::ieee::Double;

verus! {

/// The bit pattern denoted by a valid decimal span (digits with at most
/// one dot and an optional leading minus sign).
pub uninterp spec fn f64_bits_of_decimal(s: Seq<char>) -> u64;

/// The bit pattern of the sum of two binary64 numbers.
pub uninterp spec fn add_bits(a: u64, b: u64) -> u64;

/// The bit pattern of the difference of two binary64 numbers.
pub uninterp spec fn sub_bits(a: u64, b: u64) -> u64;

/// The bit pattern of the product of two binary64 numbers.
pub uninterp spec fn mul_bits(a: u64, b: u64) -> u64;

/// The bit pattern of the quotient of two binary64 numbers.
pub uninterp spec fn div_bits(a: u64, b: u64) -> u64;

/// IEEE-754 equality of two binary64 numbers (false on NaN operands;
/// positive and negative zero are equal).
pub uninterp spec fn eq_bits(a: u64, b: u64) -> bool;

/// IEEE-754 less-than of two binary64 numbers (false on NaN operands).
pub uninterp spec fn lt_bits(a: u64, b: u64) -> bool;

/// IEEE-754 less-than-or-equal of two binary64 numbers.
pub uninterp spec fn le_bits(a: u64, b: u64) -> bool;

/// The binary64 bit pattern nearest to an unsigned integer.
pub uninterp spec fn f64_bits_of_u64(n: u64) -> u64;

pub open spec fn digit_or_dot(c: char) -> bool {
    ascii_digit(c) || c == '.'
}

/// The shape of every span the numeric lexer rule consumes: non-empty,
/// an optional leading minus sign, then digits and dots only.
pub open spec fn numeric_span_shape(s: Seq<char>) -> bool {
    s.len() >= 1 && (s[0] == '-' || digit_or_dot(s[0])) && (forall|i: int|
        1 <= i < s.len() ==> digit_or_dot(#[trigger] s[i]))
}

/// The span with its optional leading minus sign removed.
pub open spec fn span_body(s: Seq<char>) -> Seq<char> {
    if s.len() >= 1 && s[0] == '-' {
        s.subrange(1, s.len() as int)
    } else {
        s
    }
}

pub open spec fn has_digit(u: Seq<char>) -> bool {
    exists|i: int| 0 <= i < u.len() && ascii_digit(#[trigger] u[i])
}

pub open spec fn at_most_one_dot(u: Seq<char>) -> bool {
    forall|i: int, j: int|
        0 <= i < u.len() && 0 <= j < u.len() && #[trigger] u[i] == '.' && #[trigger] u[j] == '.'
            ==> i == j
}

/// The spans that denote a number: after the optional minus sign there is
/// at least one digit and at most one dot.
pub open spec fn valid_numeric_span(s: Seq<char>) -> bool {
    &&& numeric_span_shape(s)
    &&& has_digit(span_body(s))
    &&& at_most_one_dot(span_body(s))
}

/// IEEE-754 negation: the sign bit is flipped, for every operand
/// including NaN.
pub open spec fn neg_bits(b: u64) -> u64 {
    b ^ 0x8000_0000_0000_0000u64
}

pub fn negate_bits(b: u64) -> (r: u64)
    ensures
        r == neg_bits(b),
{
    b ^ 0x8000_0000_0000_0000u64
}

/// Relies on rustc_apfloat's `Double` FromStr: a correctly rounded
/// decimal conversion that accepts a span of this shape exactly when it
/// holds at least one digit and at most one dot.
#[verifier::external_body]
pub(crate) fn parse_numeric_bits(s: &str) -> (r: Option<u64>)
    requires
        numeric_span_shape(s@),
    ensures
        r is Some <==> valid_numeric_span(s@),
        r is Some ==> r->0 == f64_bits_of_decimal(s@),
{
    match s.parse::<Double>() {
        Ok(d) => Some(d.to_bits() as u64),
        Err(_) => None,
    }
}

/// Relies on rustc_apfloat's `Double` addition.
#[verifier::external_body]
pub(crate) fn num_add(a: u64, b: u64) -> (r: u64)
    ensures
        r == add_bits(a, b),
{
    (Double::from_bits(a as u128) + Double::from_bits(b as u128)).value.to_bits() as u64
}

/// Relies on rustc_apfloat's `Double` subtraction.
#[verifier::external_body]
pub(crate) fn num_sub(a: u64, b: u64) -> (r: u64)
    ensures
        r == sub_bits(a, b),
{
    (Double::from_bits(a as u128) - Double::from_bits(b as u128)).value.to_bits() as u64
}

/// Relies on rustc_apfloat's `Double` multiplication.
#[verifier::external_body]
pub(crate) fn num_mul(a: u64, b: u64) -> (r: u64)
    ensures
        r == mul_bits(a, b),
{
    (Double::from_bits(a as u128) * Double::from_bits(b as u128)).value.to_bits() as u64
}

/// Relies on rustc_apfloat's `Double` division.
#[verifier::external_body]
pub(crate) fn num_div(a: u64, b: u64) -> (r: u64)
    ensures
        r == div_bits(a, b),
{
    (Double::from_bits(a as u128) / Double::from_bits(b as u128)).value.to_bits() as u64
}

/// Relies on rustc_apfloat's `Double` PartialEq, IEEE-754 equality.
#[verifier::external_body]
pub(crate) fn num_eq(a: u64, b: u64) -> (r: bool)
    ensures
        r == eq_bits(a, b),
{
    Double::from_bits(a as u128) == Double::from_bits(b as u128)
}

/// Relies on rustc_apfloat's `Double` PartialOrd, IEEE-754 ordering.
#[verifier::external_body]
pub(crate) fn num_lt(a: u64, b: u64) -> (r: bool)
    ensures
        r == lt_bits(a, b),
{
    Double::from_bits(a as u128) < Double::from_bits(b as u128)
}

/// Relies on rustc_apfloat's `Double` PartialOrd, IEEE-754 ordering.
#[verifier::external_body]
pub(crate) fn num_le(a: u64, b: u64) -> (r: bool)
    ensures
        r == le_bits(a, b),
{
    Double::from_bits(a as u128) <= Double::from_bits(b as u128)
}

/// Relies on rustc_apfloat's `Double::from_u128`, the correctly rounded
/// integer-to-double conversion.
#[verifier::external_body]
pub(crate) fn u64_to_f64_bits(n: u64) -> (r: u64)
    ensures
        r == f64_bits_of_u64(n),
{
    Double::from_u128(n as u128).value.to_bits() as u64
}

} // verus!
