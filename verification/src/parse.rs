//! Parsing helpers on the textual values the store returns: simple,
//! stateless conversions that callers apply themselves, kept apart from the
//! store. The floating-point conversion has no place in the verified
//! library; a caller parses floats with the standard library directly.

use vstd::prelude::*;

use crate::text::str_equal;

verus! {

/// Whether `c` is a decimal digit.
pub open spec fn is_digit(c: char) -> bool {
    48 <= c as u32 && c as u32 <= 57
}

/// The value of one decimal digit.
pub open spec fn digit_val(c: char) -> int {
    c as u32 - 48
}

/// Whether `s` consists of decimal digits only.
pub open spec fn all_digits(s: Seq<char>) -> bool {
    forall|i: int| 0 <= i < s.len() ==> is_digit(#[trigger] s[i])
}

/// The non-negative integer that a digit string denotes.
pub open spec fn digits_value(s: Seq<char>) -> int
    decreases s.len(),
{
    if s.len() == 0 {
        0
    } else {
        digits_value(s.drop_last()) * 10 + digit_val(s.last())
    }
}

/// The integer that a decimal literal denotes: an optional `+` or `-` sign
/// followed by one or more digits, nothing else.
pub open spec fn parsed_int(s: Seq<char>) -> Option<int> {
    if s.len() > 0 && (s[0] == '+' || s[0] == '-') {
        if s.len() > 1 && all_digits(s.skip(1)) {
            Some(
                if s[0] == '-' {
                    -digits_value(s.skip(1))
                } else {
                    digits_value(s.skip(1))
                },
            )
        } else {
            None
        }
    } else if s.len() > 0 && all_digits(s) {
        Some(digits_value(s))
    } else {
        None
    }
}

/// The standard library's integer-parse error, carried through opaquely.
#[verifier::external_type_specification]
#[verifier::external_body]
pub struct ExParseIntError(core::num::ParseIntError);

/// Relies on `i32::from_str` (via `str::parse`): it accepts an optional sign
/// followed by decimal digits and nothing else, refusing any other shape and
/// any value outside the type's range.
#[verifier::external_body]
fn parse_i32(s: &str) -> (r: Result<i32, core::num::ParseIntError>)
    ensures
        match r {
            Ok(v) => parsed_int(s@) == Some(v as int),
            Err(_) => forall|v: i32| parsed_int(s@) != Some(v as int),
        },
{
    s.parse::<i32>()
}

/// Relies on `i128::from_str` (via `str::parse`): it accepts an optional
/// sign followed by decimal digits and nothing else, refusing any other
/// shape and any value outside the type's range.
#[verifier::external_body]
fn parse_i128(s: &str) -> (r: Result<i128, core::num::ParseIntError>)
    ensures
        match r {
            Ok(v) => parsed_int(s@) == Some(v as int),
            Err(_) => forall|v: i128| parsed_int(s@) != Some(v as int),
        },
{
    s.parse::<i128>()
}

/// Conversions from the store's textual values to typed ones.
#[allow(non_camel_case_types)]
pub trait ems<T>: Sized + View<V = Seq<char>> {
    /// Whether the text spells a true value: exactly `true` or `t`; any
    /// other text, `false` and `f` among them, reads as false.
    fn tobool(self) -> (r: bool)
        ensures
            r == (self@ == "true"@ || self@ == "t"@),
    ;

    /// The `i32` the text denotes as a decimal literal, if any.
    fn toi32(self) -> (r: Result<i32, core::num::ParseIntError>)
        ensures
            match r {
                Ok(v) => parsed_int(self@) == Some(v as int),
                Err(_) => forall|v: i32| parsed_int(self@) != Some(v as int),
            },
    ;

    /// The `i128` the text denotes as a decimal literal, if any.
    fn toi128(self) -> (r: Result<i128, core::num::ParseIntError>)
        ensures
            match r {
                Ok(v) => parsed_int(self@) == Some(v as int),
                Err(_) => forall|v: i128| parsed_int(self@) != Some(v as int),
            },
    ;
}

impl ems<String> for String {
    fn tobool(self) -> (r: bool) {
        let is_true = str_equal(self.as_str(), "true");
        let is_t = str_equal(self.as_str(), "t");
        is_true || is_t
    }

    fn toi32(self) -> (r: Result<i32, core::num::ParseIntError>) {
        parse_i32(self.as_str())
    }

    fn toi128(self) -> (r: Result<i128, core::num::ParseIntError>) {
        parse_i128(self.as_str())
    }
}

} // verus!
