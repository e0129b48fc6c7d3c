//! Character classification. The language's lexical grammar follows Unicode:
//! identifiers may use any alphabetic or alphanumeric character and
//! whitespace is any character with the White_Space property. For code points
//! below 128 the classes are written out and proved directly; beyond that the
//! standard library decides, behind named, trusted wrappers.

use vstd::prelude::*;

verus! {

/// Whether a code point at or above 128 has the Unicode White_Space property,
/// exactly as `char::is_whitespace` reports it.
pub uninterp spec fn unicode_whitespace(c: char) -> bool;

/// Whether a code point at or above 128 has the Unicode Alphabetic property,
/// exactly as `char::is_alphabetic` reports it.
pub uninterp spec fn unicode_alphabetic(c: char) -> bool;

/// Whether a code point at or above 128 is numeric (general categories Nd,
/// Nl, No), exactly as `char::is_numeric` reports it.
pub uninterp spec fn unicode_numeric(c: char) -> bool;

/// Relies on char::is_whitespace: the result is a fixed property of the
/// character alone (the Unicode White_Space property).
#[verifier::external_body]
fn std_is_whitespace(c: char) -> (r: bool)
    ensures
        r == unicode_whitespace(c),
{
    c.is_whitespace()
}

/// Relies on char::is_alphabetic: the result is a fixed property of the
/// character alone (the Unicode Alphabetic property).
#[verifier::external_body]
fn std_is_alphabetic(c: char) -> (r: bool)
    ensures
        r == unicode_alphabetic(c),
{
    c.is_alphabetic()
}

/// Relies on char::is_alphanumeric, documented as true exactly when
/// `is_alphabetic` or `is_numeric` is.
#[verifier::external_body]
fn std_is_alphanumeric(c: char) -> (r: bool)
    ensures
        r == (unicode_alphabetic(c) || unicode_numeric(c)),
{
    c.is_alphanumeric()
}

/// Whitespace: for ASCII exactly the six White_Space code points; beyond
/// ASCII whatever the standard library classifies as whitespace.
pub open spec fn is_ws_char(c: char) -> bool {
    c == ' ' || c == '\t' || c == '\n' || c == '\r' || c as u32 == 0x0B || c as u32 == 0x0C || (
    c as u32 >= 0x80 && unicode_whitespace(c))
}

/// A decimal digit, `'0'` through `'9'` (the only digits the lexer accepts).
pub open spec fn is_digit_char(c: char) -> bool {
    48 <= c as u32 && c as u32 <= 57
}

/// An ASCII letter.
pub open spec fn is_ascii_letter(c: char) -> bool {
    (65 <= c as u32 && c as u32 <= 90) || (97 <= c as u32 && c as u32 <= 122)
}

/// Alphabetic: ASCII letters, and beyond ASCII whatever the standard library
/// classifies as alphabetic.
pub open spec fn is_alpha_char(c: char) -> bool {
    is_ascii_letter(c) || (c as u32 >= 0x80 && unicode_alphabetic(c))
}

/// Alphanumeric: ASCII letters and digits, and beyond ASCII whatever the
/// standard library classifies as alphabetic or numeric.
pub open spec fn is_alnum_char(c: char) -> bool {
    is_ascii_letter(c) || is_digit_char(c) || (c as u32 >= 0x80 && (unicode_alphabetic(c)
        || unicode_numeric(c)))
}

/// A character that may open an identifier.
pub open spec fn is_ident_start(c: char) -> bool {
    is_alpha_char(c) || c == '_'
}

/// A character that may continue an identifier.
pub open spec fn is_ident_cont(c: char) -> bool {
    is_alnum_char(c) || c == '_'
}

/// The fixed operator character set.
pub open spec fn is_op_char(c: char) -> bool {
    c == '+' || c == '-' || c == '*' || c == '/' || c == '=' || c == '!' || c == '<' || c == '>'
        || c == '&' || c == '|'
}

/// The fixed symbol character set.
pub open spec fn is_symbol_char(c: char) -> bool {
    c == '(' || c == ')' || c == '{' || c == '}' || c == ',' || c == ';' || c == ':' || c == '.'
        || c == '[' || c == ']' || c == '@' || c == '$' || c == '?'
}

pub fn ws_char(c: char) -> (r: bool)
    ensures
        r == is_ws_char(c),
{
    let u: u32 = c as u32;
    if u < 0x80 {
        u == 0x20 || u == 0x09 || u == 0x0A || u == 0x0D || u == 0x0B || u == 0x0C
    } else {
        std_is_whitespace(c)
    }
}

pub fn digit_char(c: char) -> (r: bool)
    ensures
        r == is_digit_char(c),
{
    let u: u32 = c as u32;
    48 <= u && u <= 57
}

pub fn alpha_char(c: char) -> (r: bool)
    ensures
        r == is_alpha_char(c),
{
    let u: u32 = c as u32;
    if u < 0x80 {
        (65 <= u && u <= 90) || (97 <= u && u <= 122)
    } else {
        std_is_alphabetic(c)
    }
}

pub fn alnum_char(c: char) -> (r: bool)
    ensures
        r == is_alnum_char(c),
{
    let u: u32 = c as u32;
    if u < 0x80 {
        (65 <= u && u <= 90) || (97 <= u && u <= 122) || (48 <= u && u <= 57)
    } else {
        std_is_alphanumeric(c)
    }
}

pub fn op_char(c: char) -> (r: bool)
    ensures
        r == is_op_char(c),
{
    c == '+' || c == '-' || c == '*' || c == '/' || c == '=' || c == '!' || c == '<' || c == '>'
        || c == '&' || c == '|'
}

pub fn symbol_char(c: char) -> (r: bool)
    ensures
        r == is_symbol_char(c),
{
    c == '(' || c == ')' || c == '{' || c == '}' || c == ',' || c == ';' || c == ':' || c == '.'
        || c == '[' || c == ']' || c == '@' || c == '$' || c == '?'
}

/// Relies on String's FromIterator<char> impl: collecting characters yields
/// the string of exactly those characters in order.
#[verifier::external_body]
pub fn chars_to_string(v: &Vec<char>) -> (s: String)
    ensures
        s@ == v@,
{
    v.iter().collect()
}

/// Relies on str's PartialEq impl: two string slices are equal exactly when
/// their character sequences are.
#[verifier::external_body]
pub fn str_eq(a: &str, b: &str) -> (r: bool)
    ensures
        r == (a@ == b@),
{
    a == b
}

} // verus!
