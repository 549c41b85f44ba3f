//! Reading a time of day from what a person types: `16:30`, or a bare hour
//! such as `16`.

use crate::time::TimeOfDay;
use chrono::Timelike;
use vstd::prelude::*;

verus! {

/// Why a text was not accepted as a time of day.
#[derive(Clone, Copy, Debug, PartialEq, Eq, Structural)]
pub enum ClockTextError {
    /// The text is neither an hour and a minute nor a bare hour of one or two
    /// digits.
    Malformed,
    /// The text is a bare hour of one or two digits, but above 23.
    HourOutOfRange,
}

impl ClockTextError {
    /// The sentence shown to the person who typed the text.
    pub fn reason(&self) -> (text: &'static str)
        ensures
            self is Malformed ==> text@ == "expected a time such as 16:30, or an hour such as 16"@,
            self is HourOutOfRange ==> text@ == "hours have to be within 0 and 23"@,
    {
        match self {
            ClockTextError::Malformed => "expected a time such as 16:30, or an hour such as 16",
            ClockTextError::HourOutOfRange => "hours have to be within 0 and 23",
        }
    }
}

/// The hour and minute that `chrono::NaiveTime::parse_from_str` reads in a text
/// under the format `%H:%M`, or `None` where it reports an error.
pub uninterp spec fn hour_minute_reading(text: Seq<char>) -> Option<(u32, u32)>;

/// Calls `chrono::NaiveTime::parse_from_str` with the format `%H:%M` and hands
/// out the hour and the minute of the time it returns, `None` in place of its
/// error. Nothing is proved of this function: the contract only gives the
/// outcome its name, on the ground that the outcome depends on the text alone.
#[verifier::external_body]
fn read_hour_minute(text: &str) -> (reading: Option<(u32, u32)>)
    ensures
        reading == hour_minute_reading(text@),
{
    match chrono::NaiveTime::parse_from_str(text, "%H:%M") {
        Ok(time) => Some((time.hour(), time.minute())),
        Err(_) => None,
    }
}

/// Whether `c` is one of the ten decimal digits.
pub open spec fn is_digit(c: char) -> bool {
    '0' <= c <= '9'
}

/// The number that the decimal digit `c` stands for.
pub open spec fn digit_value(c: char) -> int {
    c as int - '0' as int
}

/// The number written by a text of exactly one or two decimal digits; `None`
/// for every other text.
pub open spec fn bare_hour(text: Seq<char>) -> Option<int> {
    if text.len() == 1 && is_digit(text[0]) {
        Some(digit_value(text[0]))
    } else if text.len() == 2 && is_digit(text[0]) && is_digit(text[1]) {
        Some(digit_value(text[0]) * 10 + digit_value(text[1]))
    } else {
        None
    }
}

/// Minute of the day of an hour and a minute that exist on a 24-hour clock.
pub open spec fn reading_minute(reading: Option<(u32, u32)>) -> Option<int> {
    match reading {
        Some((hour, minute)) => if hour < 24 && minute < 60 {
            Some(hour * 60 + minute)
        } else {
            None
        },
        None => None,
    }
}

/// The time of day, as a minute of the day, that a text stands for: the hour
/// and minute read in it where there is such a reading, else the bare hour that
/// it writes, on the full hour.
pub open spec fn clock_time_of(reading: Option<int>, text: Seq<char>) -> Result<
    int,
    ClockTextError,
> {
    match reading {
        Some(minute_of_day) => Ok(minute_of_day),
        None => match bare_hour(text) {
            Some(hour) => if hour <= 23 {
                Ok(hour * 60)
            } else {
                Err(ClockTextError::HourOutOfRange)
            },
            None => Err(ClockTextError::Malformed),
        },
    }
}

/// The minute of the day inside a parse result.
pub open spec fn minute_result(r: Result<TimeOfDay, ClockTextError>) -> Result<
    int,
    ClockTextError,
> {
    match r {
        Ok(time) => Ok(time@),
        Err(e) => Err(e),
    }
}

/// The minute of the day inside an optional time.
pub open spec fn minute_option(t: Option<TimeOfDay>) -> Option<int> {
    match t {
        Some(time) => Some(time@),
        None => None,
    }
}

/// Reads a text of one or two decimal digits as a number.
fn read_bare_hour(text: &str) -> (r: Option<u32>)
    ensures
        match r {
            Some(hour) => bare_hour(text@) == Some(hour as int),
            None => bare_hour(text@) is None,
        },
{
    let length: usize = text.unicode_len();
    if length == 1 {
        let first: char = text.get_char(0);
        if '0' <= first && first <= '9' {
            Some(first as u32 - '0' as u32)
        } else {
            None
        }
    } else if length == 2 {
        let first: char = text.get_char(0);
        let second: char = text.get_char(1);
        if '0' <= first && first <= '9' && '0' <= second && second <= '9' {
            Some((first as u32 - '0' as u32) * 10 + (second as u32 - '0' as u32))
        } else {
            None
        }
    } else {
        None
    }
}

/// Decides what time a text stands for, given what was read in it as an hour
/// and a minute. A reading wins; without one the text must be a bare hour from
/// 0 to 23, which stands for that full hour.
pub fn time_from_reading(reading: Option<TimeOfDay>, text: &str) -> (r: Result<
    TimeOfDay,
    ClockTextError,
>)
    ensures
        minute_result(r) == clock_time_of(minute_option(reading), text@),
{
    match reading {
        Some(time) => Ok(time),
        None => match read_bare_hour(text) {
            Some(hour) => match TimeOfDay::new(hour, 0) {
                Some(time) => Ok(time),
                None => Err(ClockTextError::HourOutOfRange),
            },
            None => Err(ClockTextError::Malformed),
        },
    }
}

/// Reads a time of day from a text: an hour and a minute as in `16:30`, or a
/// bare hour from 0 to 23 as in `16`, which stands for `16:00`.
pub fn parse_string_to_time(text: &str) -> (r: Result<TimeOfDay, ClockTextError>)
    ensures
        minute_result(r) == clock_time_of(reading_minute(hour_minute_reading(text@)), text@),
{
    let reading: Option<TimeOfDay> = match read_hour_minute(text) {
        Some((hour, minute)) => TimeOfDay::new(hour, minute),
        None => None,
    };
    time_from_reading(reading, text)
}

} // verus!
