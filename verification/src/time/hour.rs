//! The validated hour component of a clock time.

use vstd::prelude::*;
use crate::text::{
    spec_is_digits, spec_digits_val, spec_num_string, str_then_chars, str_to_chars, num_to_string,
    parse_number_token, NumberToken,
};

verus! {

/// An hour on the ambiguous 12-hour clock.  Values 1 through 12 are ordinary
/// clock hours; 0 is accepted as an alias for 12, so that `0:30` and `12:30`
/// denote the same instant.
#[derive(Debug, Clone, Copy, PartialEq, Eq, Hash)]
pub struct Hour {
    value: u8,
}

impl View for Hour {
    type V = int;

    closed spec fn view(&self) -> int {
        self.value as int
    }
}

impl DeepView for Hour {
    type V = int;

    open spec fn deep_view(&self) -> int {
        self.view()
    }
}

/// Error text for an hour token that is not a digit run.
pub open spec fn spec_hour_format_error(tok: Seq<char>) -> Seq<char> {
    "Invalid hour format: "@ + tok
}

/// Error text for a numeric hour token outside the valid range.
pub open spec fn spec_hour_range_error(tok: Seq<char>) -> Seq<char> {
    "Hour must be between 0 and 12, got "@ + tok
}

/// The result of reading an hour token: the hour's value, or the error text
/// that describes why the token was rejected.
pub open spec fn spec_parse_hour(tok: Seq<char>) -> Result<int, Seq<char>> {
    if !spec_is_digits(tok) {
        Err(spec_hour_format_error(tok))
    } else if spec_digits_val(tok) > 12 {
        Err(spec_hour_range_error(tok))
    } else {
        Ok(spec_digits_val(tok))
    }
}

impl Hour {
    #[verifier::type_invariant]
    spec fn type_inv(self) -> bool {
        self.value <= 12
    }

    /// Validates a raw value as an hour.
    pub fn try_new(value: u8) -> (r: Result<Hour, String>)
        ensures
            (match r {
                Ok(h) => value <= 12 && h@ == value as int,
                Err(m) => value > 12 && m@ == spec_hour_range_error(
                    spec_num_string(value as int),
                ),
            }),
    {
        if value <= 12 {
            Ok(Hour { value })
        } else {
            let tok = str_to_chars(num_to_string(value as u64).as_str());
            Err(str_then_chars("Hour must be between 0 and 12, got ", &tok))
        }
    }

    /// The hour's raw value.
    pub fn get(&self) -> (r: u8)
        ensures
            r as int == self@,
            0 <= self@ <= 12,
    {
        proof {
            use_type_invariant(&*self);
        }
        self.value
    }
}

/// Reads an hour token.
pub(crate) fn parse_hour_chars(tok: &Vec<char>) -> (r: Result<Hour, String>)
    ensures
        (match r {
            Ok(h) => spec_parse_hour(tok@) == Ok::<int, Seq<char>>(h@),
            Err(m) => spec_parse_hour(tok@) == Err::<int, Seq<char>>(m@),
        }),
{
    match parse_number_token(tok, 12) {
        NumberToken::Malformed => Err(str_then_chars("Invalid hour format: ", tok)),
        NumberToken::OutOfRange => Err(str_then_chars("Hour must be between 0 and 12, got ", tok)),
        NumberToken::Value(v) => Ok(Hour { value: v as u8 }),
    }
}

impl core::str::FromStr for Hour {
    type Err = String;

    /// Reads an hour from its decimal text, as `"7".parse::<Hour>()`.
    fn from_str(s: &str) -> (r: Result<Hour, String>) {
        let tok = str_to_chars(s);
        parse_hour_chars(&tok)
    }
}

} // verus!
