//! The date of an edition, read from the local clock.

use vstd::prelude::*;
use vstd::string::StringExecFns;
use crate::decimal::decimal;
use crate::error::SourceError;

verus! {

/// A day as the clock counts it: the fields of a broken-down time from which
/// a date is written.
#[derive(Debug, Clone, Copy, PartialEq, Eq)]
pub struct Day {
    /// Years since 1900.
    pub year: i32,
    /// Months since January, 0 to 11.
    pub month: i32,
    /// Day of the month, 1 to 31.
    pub day: i32,
    /// Days since Sunday, 0 to 6.
    pub weekday: i32,
}

/// Why the `time` crate refused to format a time.
#[verifier::external_type_specification]
#[verifier::external_body]
pub struct ExParseError(time::ParseError);

/// The notation of the integer `n`: a minus sign if it is negative, then its
/// magnitude in decimal notation.
pub open spec fn signed_decimal(n: int) -> Seq<char> {
    if n < 0 {
        seq!['-'] + decimal((-n) as nat)
    } else {
        decimal(n as nat)
    }
}

/// The notation of `n` at a width of two: one digit gets a zero before it.
pub open spec fn two_wide(n: int) -> Seq<char> {
    if 0 <= n < 10 {
        seq!['0'] + decimal(n as nat)
    } else {
        signed_decimal(n)
    }
}

/// Whether `day` holds a day of the week and a month that exist.
pub open spec fn names_a_day(day: Day) -> bool {
    0 <= day.weekday <= 6 && 0 <= day.month <= 11
}

/// The date of `day` in the form year-month-day; for the years 1000 to 9999
/// this is the ISO 8601 form `YYYY-MM-DD`.
pub open spec fn date_text(day: Day) -> Seq<char> {
    signed_decimal(day.year + 1900) + seq!['-'] + two_wide(day.month + 1) + seq!['-'] + two_wide(
        day.day as int,
    )
}

/// The day that the local clock shows.
///
/// Trusted: this is `time::now`, the current time in the local time zone, of
/// which year, month, day of the month and day of the week are kept. It
/// depends on the clock and on the time zone of the machine, so nothing is
/// claimed of it.
#[verifier::external_body]
fn local_day() -> Day {
    let tm = time::now();
    Day { year: tm.tm_year, month: tm.tm_mon, day: tm.tm_mday, weekday: tm.tm_wday }
}

/// Formats `day` with the format `%F`.
///
/// Trusted: this is `time::strftime` on a broken-down time with the fields of
/// `day`. It refuses a time whose day of the week is outside 0..=6 or whose
/// month is outside 0..=11, and accepts every other with this format. `%F`
/// writes the year (`tm_year + 1900`) with `{}`, a hyphen, the month
/// (`tm_mon + 1`) with `{:02}`, a hyphen and `tm_mday` with `{:02}`; it reads
/// no other field. Left out is a year so large that adding 1900 overflows.
#[verifier::external_body]
fn strftime_date(day: &Day) -> (r: Result<String, time::ParseError>)
    requires
        day.year + 1900 <= i32::MAX,
    ensures
        r is Ok <==> names_a_day(*day),
        r matches Ok(s) ==> s@ == date_text(*day),
{
    let tm = time::Tm {
        tm_sec: 0,
        tm_min: 0,
        tm_hour: 0,
        tm_mday: day.day,
        tm_mon: day.month,
        tm_year: day.year,
        tm_wday: day.weekday,
        tm_yday: 0,
        tm_isdst: 0,
        tm_utcoff: 0,
        tm_nsec: 0,
    };
    time::strftime("%F", &tm)
}

/// The date of `day` as text, in the form year-month-day. Fails with `Clock`
/// where `day` names no day of the week or no month, or a year beyond what
/// its field can count.
pub fn iso_date(day: &Day) -> (r: Result<String, SourceError>)
    ensures
        match r {
            Ok(s) => names_a_day(*day) && day.year + 1900 <= i32::MAX && s@ == date_text(*day),
            Err(e) => e == SourceError::Clock && !(names_a_day(*day) && day.year + 1900
                <= i32::MAX),
        },
{
    if day.year > i32::MAX - 1900 {
        return Err(SourceError::Clock);
    }
    match strftime_date(day) {
        Ok(s) => Ok(s),
        Err(_) => Err(SourceError::Clock),
    }
}

/// Today's date by the local clock, as `iso_date` writes it.
pub fn today() -> (r: Result<String, SourceError>)
    ensures
        match r {
            Ok(s) => exists|day: Day| names_a_day(day) && s@ == date_text(day),
            Err(e) => e == SourceError::Clock,
        },
{
    let day = local_day();
    iso_date(&day)
}

/// The title of the edition of the paper `name` that appeared on `date`.
pub open spec fn edition_title(name: Seq<char>, date: Seq<char>) -> Seq<char> {
    name + " - "@ + date
}

/// The title of the edition of the paper `name` that appeared on `date`:
/// the name, a hyphen between spaces, and the date.
pub fn title_edition(name: &str, date: &str) -> (title: String)
    ensures
        title@ == edition_title(name@, date@),
{
    let mut title = String::from_str(name);
    title.append(" - ");
    title.append(date);
    title
}

/// The title of today's edition of the paper `name`.
pub fn date_paper(name: &str) -> (r: Result<String, SourceError>)
    ensures
        match r {
            Ok(title) => exists|day: Day|
                names_a_day(day) && title@ == edition_title(name@, date_text(day)),
            Err(e) => e == SourceError::Clock,
        },
{
    match today() {
        Ok(date) => {
            let title = title_edition(name, date.as_str());
            proof {
                let day = choose|day: Day| names_a_day(day) && date@ == date_text(day);
                assert(names_a_day(day) && title@ == edition_title(name@, date_text(day)));
            }
            Ok(title)
        },
        Err(e) => Err(e),
    }
}

} // verus!
