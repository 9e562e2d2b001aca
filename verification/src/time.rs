//! The clock-time value type and its arithmetic.

pub mod hour;
pub mod minute;

pub use hour::Hour;
pub use minute::Minute;

use vstd::prelude::*;
use vstd::string::StringExecFns;
use crate::text::{
    spec_num_string, spec_two_digits, num_to_string, two_digits_string, push_char, str_to_chars,
};
use hour::{spec_parse_hour, spec_hour_range_error};
use minute::{spec_parse_minute, spec_minute_range_error};

verus! {

/// The mathematical value of a `Time`: its hour and minute as plain integers.
#[verifier::ext_equal]
pub ghost struct TimeModel {
    pub hour: int,
    pub minute: int,
}

/// A time on the ambiguous 12-hour clock: no AM/PM marker exists in the
/// input format, so chronological questions are resolved by the duration
/// heuristics below.
#[derive(Debug, Clone, Copy, PartialEq)]
pub struct Time {
    pub hour: Hour,
    pub minute: Minute,
}

impl View for Time {
    type V = TimeModel;

    open spec fn view(&self) -> TimeModel {
        TimeModel { hour: self.hour@, minute: self.minute@ }
    }
}

impl DeepView for Time {
    type V = TimeModel;

    open spec fn deep_view(&self) -> TimeModel {
        self.view()
    }
}

/// Minutes since the reference point of the 12-hour period; hour 12 (and its
/// alias 0) maps to minute 0.  The range is 0 through 719.
pub open spec fn spec_to_minutes(t: TimeModel) -> int {
    (if t.hour == 12 {
        0
    } else {
        t.hour
    }) * 60 + t.minute
}

/// Duration of an entry's own span: the plain difference when `end` is not
/// earlier than `start` in minute space, and otherwise the difference after
/// adding one 12-hour period.  Equal times give 0.
pub open spec fn spec_duration(start: TimeModel, end: TimeModel) -> int {
    if spec_to_minutes(end) >= spec_to_minutes(start) {
        spec_to_minutes(end) - spec_to_minutes(start)
    } else {
        720 + spec_to_minutes(end) - spec_to_minutes(start)
    }
}

/// Forward gap between consecutive entries: the plain difference when `end`
/// is strictly later, 0 when the times are equal (no idle time is asserted),
/// and the wrapped-forward difference when `end` appears earlier.
pub open spec fn spec_chronological(start: TimeModel, end: TimeModel) -> int {
    if spec_to_minutes(end) > spec_to_minutes(start) {
        spec_to_minutes(end) - spec_to_minutes(start)
    } else if spec_to_minutes(end) == spec_to_minutes(start) {
        0
    } else {
        720 - spec_to_minutes(start) + spec_to_minutes(end)
    }
}

/// Error text for an out-of-range hour argument of `Time::new`, which
/// accepts only hours 1 through 12.
pub open spec fn spec_new_hour_error(value: int) -> Seq<char> {
    "Hour must be between 1 and 12, got "@ + spec_num_string(value)
}

/// The result of reading an hour token and a minute token as a `Time`.
pub open spec fn spec_from_strings(hour_tok: Seq<char>, minute_tok: Seq<char>) -> Result<
    TimeModel,
    Seq<char>,
> {
    match spec_parse_hour(hour_tok) {
        Err(e) => Err(e),
        Ok(h) => match spec_parse_minute(minute_tok) {
            Err(e) => Err(e),
            Ok(m) => Ok(TimeModel { hour: h, minute: m }),
        },
    }
}

/// A duration in minutes rendered as `H:MM`, with the minutes zero-padded
/// to two digits.
pub open spec fn spec_duration_text(minutes: int) -> Seq<char> {
    spec_num_string(minutes / 60) + seq![':'] + spec_two_digits(minutes % 60)
}

/// A duration in minutes rendered as decimal hours with exactly two places,
/// rounded to the nearest hundredth of an hour.
pub open spec fn spec_decimal_text(minutes: int) -> Seq<char> {
    spec_num_string(((5 * minutes + 1) / 3) / 100) + seq!['.'] + spec_two_digits(
        ((5 * minutes + 1) / 3) % 100,
    )
}

impl Time {
    /// Reads a time from an hour token and a minute token.
    pub fn from_strings(hour: &str, minute: &str) -> (r: Result<Time, String>)
        ensures
            (match r {
                Ok(t) => spec_from_strings(hour@, minute@) == Ok::<TimeModel, Seq<char>>(t@),
                Err(e) => spec_from_strings(hour@, minute@) == Err::<TimeModel, Seq<char>>(e@),
            }),
    {
        let hour_tok = str_to_chars(hour);
        let minute_tok = str_to_chars(minute);
        let h = match hour::parse_hour_chars(&hour_tok) {
            Ok(h) => h,
            Err(e) => {
                return Err(e);
            },
        };
        let m = match minute::parse_minute_chars(&minute_tok) {
            Ok(m) => m,
            Err(e) => {
                return Err(e);
            },
        };
        Ok(Time { hour: h, minute: m })
    }

    /// Builds a time from raw components; the hour must be an ordinary clock
    /// hour, 1 through 12.
    pub fn new(hour: u8, minute: u8) -> (r: Result<Time, String>)
        ensures
            (match r {
                Ok(t) => 1 <= hour <= 12 && minute <= 59 && t@ == (TimeModel {
                    hour: hour as int,
                    minute: minute as int,
                }),
                Err(e) => ({
                    ||| (!(1 <= hour <= 12) && e@ == spec_new_hour_error(hour as int))
                    ||| (1 <= hour <= 12 && minute > 59 && e@ == spec_minute_range_error(
                        spec_num_string(minute as int),
                    ))
                }),
            }),
    {
        if hour < 1 || hour > 12 {
            let mut e = String::from_str("Hour must be between 1 and 12, got ");
            let n = num_to_string(hour as u64);
            e.append(n.as_str());
            return Err(e);
        }
        let h = match Hour::try_new(hour) {
            Ok(h) => h,
            Err(e) => {
                return Err(e);
            },
        };
        let m = match Minute::try_new(minute) {
            Ok(m) => m,
            Err(e) => {
                return Err(e);
            },
        };
        Ok(Time { hour: h, minute: m })
    }

    /// Minutes since the 12-hour reference point; hour 12 counts as 0.
    pub fn to_minutes(&self) -> (r: u16)
        ensures
            r as int == spec_to_minutes(self@),
            r <= 719,
    {
        let h = self.hour.get();
        let hour_base: u16 = if h == 12 {
            0
        } else {
            h as u16
        };
        hour_base * 60 + self.minute.get() as u16
    }

    /// Duration in minutes of the span from `self` to `end`, assuming both
    /// fall within one 12-hour period and wrapping forward when `end` appears
    /// earlier.
    pub fn duration_minutes(&self, end: &Time) -> (r: i32)
        ensures
            r as int == spec_duration(self@, end@),
            0 <= r <= 719,
    {
        let start_mins = self.to_minutes() as i32;
        let end_mins = end.to_minutes() as i32;
        if end_mins >= start_mins {
            end_mins - start_mins
        } else {
            (12 * 60) + end_mins - start_mins
        }
    }

    /// Forward gap in minutes from `self` to `end`; equal times give 0
    /// rather than a full period.
    pub fn chronological_duration_minutes(&self, end: &Time) -> (r: i32)
        ensures
            r as int == spec_chronological(self@, end@),
            0 <= r <= 719,
    {
        let start_mins = self.to_minutes() as i32;
        let end_mins = end.to_minutes() as i32;
        if end_mins > start_mins {
            end_mins - start_mins
        } else if end_mins == start_mins {
            0
        } else {
            (12 * 60) - start_mins + end_mins
        }
    }

    /// Renders a duration as `H:MM`.
    pub fn format_duration_minutes(minutes: u32) -> (r: String)
        ensures
            r@ == spec_duration_text(minutes as int),
    {
        let mut s = num_to_string((minutes / 60) as u64);
        push_char(&mut s, ':');
        let mm = two_digits_string((minutes % 60) as u64);
        s.append(mm.as_str());
        proof {
            assert(s@ =~= spec_duration_text(minutes as int));
        }
        s
    }

    /// Renders a duration as decimal hours with two places.
    pub fn format_duration_decimal(minutes: u32) -> (r: String)
        ensures
            r@ == spec_decimal_text(minutes as int),
    {
        let hundredths: u64 = (5 * minutes as u64 + 1) / 3;
        let mut s = num_to_string(hundredths / 100);
        push_char(&mut s, '.');
        let ff = two_digits_string(hundredths % 100);
        s.append(ff.as_str());
        proof {
            assert(s@ =~= spec_decimal_text(minutes as int));
        }
        s
    }
}

} // verus!
