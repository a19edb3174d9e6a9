//! Calendar days.
//!
//! A day is its number in the proleptic Gregorian calendar, counted from
//! 1 January of the year 1 as day 1.

use vstd::prelude::*;

verus! {

/// The day number of 1 January 1970.
pub const UNIX_EPOCH_DAY: i64 = 719_163;

/// The seconds of a day.
pub const SECONDS_PER_DAY: u64 = 86_400;

/// The error with which `chrono` refuses a text.
#[verifier::external_type_specification]
#[verifier::external_body]
pub struct ExParseError(chrono::ParseError);

/// The day that `chrono` reads from `text` under the format `format`, as the
/// number of days since 1 January of the year 1 counted as day 1, or `None`
/// where it reads none.
pub uninterp spec fn parsed_day(text: Seq<char>, format: Seq<char>) -> Option<int>;

/// Reads a calendar day with `chrono::NaiveDate::parse_from_str` and returns
/// its `num_days_from_ce`. The contract only names the result: the same text
/// and format always give the same day or the same refusal.
#[verifier::external_body]
pub(crate) fn parse_day(text: &str, format: &str) -> (r: Result<i32, chrono::ParseError>)
    ensures
        match r {
            Ok(day) => parsed_day(text@, format@) == Some(day as int),
            Err(_) => parsed_day(text@, format@) is None,
        },
{
    match chrono::NaiveDate::parse_from_str(text, format) {
        Ok(date) => Ok(chrono::Datelike::num_days_from_ce(&date)),
        Err(e) => Err(e),
    }
}

/// The day on which a time falls, in universal time.
pub open spec fn day_of(time: u64) -> int {
    time as int / 86_400 + 719_163
}

/// The day on which a time falls, in universal time.
pub fn day_of_time(time: u64) -> (day: i64)
    ensures
        day == day_of(time),
{
    (time / SECONDS_PER_DAY) as i64 + UNIX_EPOCH_DAY
}

/// The number of a calendar day as `chrono` counts it, with 1 January of the
/// year 1 as day 1, or `None` where the calendar has no such day or `chrono`
/// cannot hold it.
pub uninterp spec fn calendar_day(year: int, month: int, day: int) -> Option<int>;

/// Makes a calendar day with `chrono::NaiveDate::from_ymd_opt` and returns its
/// `num_days_from_ce`. The contract only names the result: the same year,
/// month and day always give the same number or the same refusal.
#[verifier::external_body]
pub(crate) fn day_number(year: i32, month: u32, day: u32) -> (r: Option<i32>)
    ensures
        match r {
            Some(n) => calendar_day(year as int, month as int, day as int) == Some(n as int),
            None => calendar_day(year as int, month as int, day as int) is None,
        },
{
    match chrono::NaiveDate::from_ymd_opt(year, month, day) {
        Some(date) => Some(chrono::Datelike::num_days_from_ce(&date)),
        None => None,
    }
}

/// The day of the week of a day, counted from Sunday as 0: day 1 is a Monday.
pub open spec fn weekday_of(day: int) -> int {
    day % 7
}

/// The day of the week of a day, counted from Sunday as 0.
pub fn weekday(day: i64) -> (w: u32)
    ensures
        w == weekday_of(day as int),
        w < 7,
{
    if day >= 0 {
        (day % 7) as u32
    } else {
        let back: i64 = -(day + 1);
        let r: i64 = back % 7;
        (6 - r) as u32
    }
}

/// The time of the clock: `chrono::Utc::now().timestamp()`, the seconds since
/// the Unix epoch. Nothing is promised of the value; it differs from call to
/// call. On a machine whose clock stands before the epoch `chrono` does not
/// return but panics; the call has no argument that could rule that out.
#[verifier::external_body]
pub(crate) fn clock_seconds() -> (seconds: i64) {
    chrono::Utc::now().timestamp()
}

/// The time of the clock in seconds since the Unix epoch: what
/// `time_from_seconds` makes of the reading of the clock, whatever it reads.
pub(crate) fn current_time() -> (now: u64)
    ensures
        exists|seconds: i64| now == #[trigger] time_of_reading(seconds),
{
    let seconds = clock_seconds();
    let now = time_from_seconds(seconds);
    assert(now == time_of_reading(seconds));
    now
}

/// The time that a reading of the clock stands for: the reading itself, and
/// zero for a reading before the epoch.
pub open spec fn time_of_reading(seconds: i64) -> u64 {
    if seconds < 0 {
        0
    } else {
        seconds as u64
    }
}

/// The time that a reading of the clock stands for, in seconds since the
/// Unix epoch: the reading itself, and zero for a reading before the epoch.
pub fn time_from_seconds(seconds: i64) -> (now: u64)
    ensures
        now == time_of_reading(seconds),
{
    if seconds < 0 {
        0
    } else {
        seconds as u64
    }
}

} // verus!
