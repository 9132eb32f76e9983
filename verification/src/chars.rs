//! Character classification used by the lexer.
//!
//! The classes are exact over ASCII; beyond ASCII they are named after the
//! corresponding `char` methods of std, whose Unicode tables cannot be
//! restated here.
use vstd::prelude::*;

verus! {

/// Whether `char::is_whitespace` holds of a character above ASCII.
pub uninterp spec fn whitespace_char_ext(c: char) -> bool;

/// Whether `char::is_alphanumeric` holds of a character above ASCII.
pub uninterp spec fn alphanumeric_char_ext(c: char) -> bool;

/// Whether `char::is_numeric` holds of a character above ASCII.
pub uninterp spec fn numeric_char_ext(c: char) -> bool;

pub open spec fn ascii_digit(c: char) -> bool {
    48 <= (c as u32) && (c as u32) <= 57
}

pub open spec fn ascii_alpha(c: char) -> bool {
    (65 <= (c as u32) && (c as u32) <= 90) || (97 <= (c as u32) && (c as u32) <= 122)
}

/// The Unicode White_Space property, exact over ASCII.
pub open spec fn whitespace_char(c: char) -> bool {
    if (c as u32) < 128 {
        c == ' ' || c == '\t' || c == '\n' || c == '\r' || (c as u32) == 11 || (c as u32) == 12
    } else {
        whitespace_char_ext(c)
    }
}

/// Whitespace that the lexer discards between tokens; a newline is a token
/// of its own and is never skipped.
pub open spec fn skippable_ws(c: char) -> bool {
    whitespace_char(c) && c != '\n'
}

/// Unicode alphanumeric (letters and numbers), exact over ASCII.
pub open spec fn alphanumeric_char(c: char) -> bool {
    if (c as u32) < 128 {
        ascii_digit(c) || ascii_alpha(c)
    } else {
        alphanumeric_char_ext(c)
    }
}

/// Unicode numeric characters, exact over ASCII.
pub open spec fn numeric_char(c: char) -> bool {
    if (c as u32) < 128 {
        ascii_digit(c)
    } else {
        numeric_char_ext(c)
    }
}

/// Characters that may continue an identifier: alphanumerics, extended
/// by the underscore so that a name such as a snake-case identifier is
/// one token rather than an identifier followed by an error run.
pub open spec fn identifier_char(c: char) -> bool {
    alphanumeric_char(c) || c == '_'
}

/// Characters that may begin an identifier.
pub open spec fn identifier_start_char(c: char) -> bool {
    ascii_alpha(c)
}

/// Relies on char::is_whitespace: true exactly for the Unicode White_Space
/// property, whose ASCII members are tab, line feed, vertical tab, form
/// feed, carriage return and space.
#[verifier::external_body]
fn char_is_whitespace(c: char) -> (r: bool)
    ensures
        r == whitespace_char(c),
        (c as u32) >= 128 ==> r == whitespace_char_ext(c),
{
    c.is_whitespace()
}

/// Relies on char::is_alphanumeric: true exactly for Unicode letters and
/// numbers, whose ASCII members are the letters and the ten digits.
#[verifier::external_body]
fn char_is_alphanumeric(c: char) -> (r: bool)
    ensures
        r == alphanumeric_char(c),
        (c as u32) >= 128 ==> r == alphanumeric_char_ext(c),
{
    c.is_alphanumeric()
}

/// Relies on char::is_numeric: true exactly for Unicode numbers, whose
/// ASCII members are the ten digits.
#[verifier::external_body]
fn char_is_numeric(c: char) -> (r: bool)
    ensures
        r == numeric_char(c),
        (c as u32) >= 128 ==> r == numeric_char_ext(c),
{
    c.is_numeric()
}

/// Whitespace the lexer silently discards between tokens.
pub fn is_skippable_whitespace(c: char) -> (r: bool)
    ensures
        r == skippable_ws(c),
{
    char_is_whitespace(c) && c != '\n'
}

pub fn is_ascii_digit_char(c: char) -> (r: bool)
    ensures
        r == ascii_digit(c),
{
    let u = c as u32;
    48 <= u && u <= 57
}

pub fn is_identifier_start(c: char) -> (r: bool)
    ensures
        r == identifier_start_char(c),
{
    let u = c as u32;
    (65 <= u && u <= 90) || (97 <= u && u <= 122)
}

pub fn is_identifier_char(c: char) -> (r: bool)
    ensures
        r == identifier_char(c),
{
    char_is_alphanumeric(c) || c == '_'
}

pub fn is_numeric_char(c: char) -> (r: bool)
    ensures
        r == numeric_char(c),
{
    char_is_numeric(c)
}

} // verus!
