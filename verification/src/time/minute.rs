//! The validated minute component of a clock time.

use vstd::prelude::*;
use crate::text::{
    spec_is_digits, spec_digits_val, spec_num_string, str_then_chars, str_to_chars, num_to_string,
    parse_number_token, NumberToken,
};

verus! {

/// A minute within an hour, 0 through 59.
#[derive(Debug, Clone, Copy, PartialEq, Eq, Hash)]
pub struct Minute {
    value: u8,
}

impl View for Minute {
    type V = int;

    closed spec fn view(&self) -> int {
        self.value as int
    }
}

impl DeepView for Minute {
    type V = int;

    open spec fn deep_view(&self) -> int {
        self.view()
    }
}

/// Error text for a minute token that is not a digit run.
pub open spec fn spec_minute_format_error(tok: Seq<char>) -> Seq<char> {
    "Invalid minute format: "@ + tok
}

/// Error text for a numeric minute token outside the valid range.
pub open spec fn spec_minute_range_error(tok: Seq<char>) -> Seq<char> {
    "Minute must be between 0 and 59, got "@ + tok
}

/// The result of reading a minute token: the minute's value, or the error
/// text that describes why the token was rejected.
pub open spec fn spec_parse_minute(tok: Seq<char>) -> Result<int, Seq<char>> {
    if !spec_is_digits(tok) {
        Err(spec_minute_format_error(tok))
    } else if spec_digits_val(tok) > 59 {
        Err(spec_minute_range_error(tok))
    } else {
        Ok(spec_digits_val(tok))
    }
}

impl Minute {
    #[verifier::type_invariant]
    spec fn type_inv(self) -> bool {
        self.value <= 59
    }

    /// Validates a raw value as a minute.
    pub fn try_new(value: u8) -> (r: Result<Minute, String>)
        ensures
            (match r {
                Ok(m) => value <= 59 && m@ == value as int,
                Err(e) => value > 59 && e@ == spec_minute_range_error(
                    spec_num_string(value as int),
                ),
            }),
    {
        if value <= 59 {
            Ok(Minute { value })
        } else {
            let tok = str_to_chars(num_to_string(value as u64).as_str());
            Err(str_then_chars("Minute must be between 0 and 59, got ", &tok))
        }
    }

    /// The minute's raw value.
    pub fn get(&self) -> (r: u8)
        ensures
            r as int == self@,
            0 <= self@ <= 59,
    {
        proof {
            use_type_invariant(&*self);
        }
        self.value
    }
}

/// Reads a minute token.
pub(crate) fn parse_minute_chars(tok: &Vec<char>) -> (r: Result<Minute, String>)
    ensures
        (match r {
            Ok(m) => spec_parse_minute(tok@) == Ok::<int, Seq<char>>(m@),
            Err(e) => spec_parse_minute(tok@) == Err::<int, Seq<char>>(e@),
        }),
{
    match parse_number_token(tok, 59) {
        NumberToken::Malformed => Err(str_then_chars("Invalid minute format: ", tok)),
        NumberToken::OutOfRange => Err(
            str_then_chars("Minute must be between 0 and 59, got ", tok),
        ),
        NumberToken::Value(v) => Ok(Minute { value: v as u8 }),
    }
}

impl core::str::FromStr for Minute {
    type Err = String;

    /// Reads a minute from its decimal text, as `"30".parse::<Minute>()`.
    fn from_str(s: &str) -> (r: Result<Minute, String>) {
        let tok = str_to_chars(s);
        parse_minute_chars(&tok)
    }
}

} // verus!
