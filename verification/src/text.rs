//! What this crate takes on trust from the standard library's text handling,
//! and the meaning of decimal text that those contracts are stated over.

use std::num::ParseIntError;
use vstd::prelude::*;

verus! {

/// The standard library's error for text that is not a number of the wanted
/// type. Nothing is known of a value but that parsing produced it.
#[verifier::external_type_specification]
#[verifier::external_body]
pub struct ExParseIntError(ParseIntError);

/// Cloning a `ParseIntError` gives an equal error.
pub assume_specification[ <ParseIntError as Clone>::clone ](error: &ParseIntError) -> (copy:
    ParseIntError)
    ensures
        copy == *error,
;

/// `String::push` appends the given character to the end of the string and
/// leaves the rest as it was.
pub assume_specification[ String::push ](s: &mut String, ch: char)
    ensures
        final(s)@ == old(s)@.push(ch),
;

/// Whether `c` is one of the ten decimal digits.
pub open spec fn is_digit(c: char) -> bool {
    '0' <= c <= '9'
}

/// The number that the digit `c` stands for.
pub open spec fn digit_value(c: char) -> nat {
    (c as int - '0' as int) as nat
}

/// The number that a run of decimal digits denotes; leading zeros do not
/// count.
pub open spec fn digits_value(digits: Seq<char>) -> nat
    decreases digits.len(),
{
    if digits.len() == 0 {
        0
    } else {
        10 * digits_value(digits.drop_last()) + digit_value(digits.last())
    }
}

/// Whether `text` holds decimal digits and nothing else.
pub open spec fn all_digits(text: Seq<char>) -> bool {
    forall|i: int| 0 <= i < text.len() ==> is_digit(#[trigger] text[i])
}

/// `text` without its plus sign, if it starts with one.
pub open spec fn unsigned_part(text: Seq<char>) -> Seq<char> {
    if text.len() > 0 && text[0] == '+' {
        text.skip(1)
    } else {
        text
    }
}

/// The number written in `text`, if `text` is a decimal numeral: an optional
/// plus sign followed by one or more digits and nothing else.
pub open spec fn decimal_value(text: Seq<char>) -> Option<nat> {
    let digits = unsigned_part(text);
    if digits.len() > 0 && all_digits(digits) {
        Some(digits_value(digits))
    } else {
        None
    }
}

/// The byte that `text` denotes, if it is a decimal numeral of at most 255.
pub open spec fn u8_of(text: Seq<char>) -> Option<u8> {
    match decimal_value(text) {
        Some(n) => if n <= u8::MAX {
            Some(n as u8)
        } else {
            None
        },
        None => None,
    }
}

/// The `usize` that `text` denotes, if it is a decimal numeral that fits.
pub open spec fn usize_of(text: Seq<char>) -> Option<usize> {
    match decimal_value(text) {
        Some(n) => if n <= usize::MAX {
            Some(n as usize)
        } else {
            None
        },
        None => None,
    }
}

/// The error with which the standard library refuses `text` as a `u8`.
pub uninterp spec fn u8_parse_error(text: Seq<char>) -> ParseIntError;

/// The error with which the standard library refuses `text` as a `usize`.
pub uninterp spec fn usize_parse_error(text: Seq<char>) -> ParseIntError;

/// `str::parse::<u8>`: succeeds exactly on a decimal numeral (an optional plus
/// sign, then digits only) whose value fits a `u8`, and returns that value.
/// Of the error nothing is claimed but that the text decides it.
#[verifier::external_body]
pub(crate) fn parse_u8(text: &str) -> (parsed: Result<u8, ParseIntError>)
    ensures
        parsed is Ok <==> u8_of(text@) is Some,
        parsed matches Ok(value) ==> u8_of(text@) == Some(value),
        parsed matches Err(error) ==> error == u8_parse_error(text@),
{
    text.parse::<u8>()
}

/// `str::parse::<usize>`: succeeds exactly on a decimal numeral (an optional
/// plus sign, then digits only) whose value fits a `usize`, and returns that
/// value. Of the error nothing is claimed but that the text decides it.
#[verifier::external_body]
pub(crate) fn parse_usize(text: &str) -> (parsed: Result<usize, ParseIntError>)
    ensures
        parsed is Ok <==> usize_of(text@) is Some,
        parsed matches Ok(value) ==> usize_of(text@) == Some(value),
        parsed matches Err(error) ==> error == usize_parse_error(text@),
{
    text.parse::<usize>()
}

} // verus!
