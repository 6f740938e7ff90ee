//! Calendar work done by chrono: reading the date text of an add command,
//! placing a wall-clock time in the local time zone, the current year, and the
//! absolute rendering of a deadline.
use crate::task::Deadline;
use crate::text::digit_char;
use chrono::{Datelike, FixedOffset, Local, NaiveDate, NaiveDateTime, TimeZone, Timelike};
use vstd::prelude::*;

verus! {

/// A wall-clock time with no time zone attached.
#[derive(Clone, Copy, Debug, PartialEq, Eq, Structural)]
pub struct LocalStamp {
    pub year: i32,
    pub month: u32,
    pub day: u32,
    pub hour: u32,
    pub minute: u32,
}

/// Days from 1970-01-01 to the given date of the proleptic Gregorian calendar.
pub open spec fn days_from_civil(year: int, month: int, day: int) -> int {
    let y = if month <= 2 { year - 1 } else { year };
    let era = y / 400;
    let yoe = y - era * 400;
    let mp = if month > 2 { month - 3 } else { month + 9 };
    let doy = (153 * mp + 2) / 5 + day - 1;
    let doe = yoe * 365 + yoe / 4 - yoe / 100 + doy;
    era * 146_097 + doe - 719_468
}

/// The seconds from 1970-01-01 00:00 to the wall-clock time `s`, as if read in UTC.
pub open spec fn wall_seconds(s: LocalStamp) -> int {
    days_from_civil(s.year as int, s.month as int, s.day as int) * 86_400 + s.hour as int * 3_600
        + s.minute as int * 60
}

pub open spec fn days_in_month(year: int, month: int) -> int {
    if month == 2 {
        if (year % 4 == 0 && year % 100 != 0) || year % 400 == 0 {
            29
        } else {
            28
        }
    } else if month == 4 || month == 6 || month == 9 || month == 11 {
        30
    } else {
        31
    }
}

/// `s` names a date of the calendar and a time of day.
pub open spec fn stamp_valid(s: LocalStamp) -> bool {
    &&& 1 <= s.month <= 12
    &&& 1 <= s.day <= days_in_month(s.year as int, s.month as int)
    &&& s.hour < 24
    &&& s.minute < 60
}

/// `n`, below 100, as two digits.
pub open spec fn two_digits(n: int) -> Seq<char> {
    seq![digit_char((n / 10) as nat), digit_char((n % 10) as nat)]
}

/// The English three-letter name of month `m`.
pub open spec fn month_abbrev(m: int) -> Seq<char> {
    if m == 1 {
        seq!['J', 'a', 'n']
    } else     if m == 2 {
        seq!['F', 'e', 'b']
    } else     if m == 3 {
        seq!['M', 'a', 'r']
    } else     if m == 4 {
        seq!['A', 'p', 'r']
    } else     if m == 5 {
        seq!['M', 'a', 'y']
    } else     if m == 6 {
        seq!['J', 'u', 'n']
    } else     if m == 7 {
        seq!['J', 'u', 'l']
    } else     if m == 8 {
        seq!['A', 'u', 'g']
    } else     if m == 9 {
        seq!['S', 'e', 'p']
    } else     if m == 10 {
        seq!['O', 'c', 't']
    } else     if m == 11 {
        seq!['N', 'o', 'v']
    } else {
        seq!['D', 'e', 'c']
    }
}

/// `DD Mon ⋅ HH:MM` of `s`.
pub open spec fn absolute_form(s: LocalStamp) -> Seq<char> {
    two_digits(s.day as int) + seq![' '] + month_abbrev(s.month as int) + seq![' ', '⋅', ' ']
        + two_digits(s.hour as int) + seq![':'] + two_digits(s.minute as int)
}

/// `text` shows the minute that holds the wall-clock second `local`.
pub open spec fn shows_wall_time(local: int, text: Seq<char>) -> bool {
    exists|s: LocalStamp|
        stamp_valid(s) && 0 <= local - wall_seconds(s) < 60 && text == #[trigger] absolute_form(s)
}

/// The wall-clock time that chrono reads from `text` as "day month-abbreviation HH:MM year".
pub uninterp spec fn stamp_of(text: Seq<char>) -> Option<LocalStamp>;

/// What chrono renders as "DD Mon ⋅ HH:MM" for the instant `timestamp` seen at `offset`.
pub uninterp spec fn absolute_text_of(timestamp: int, offset: int) -> Option<Seq<char>>;

/// Relies on chrono's `NaiveDateTime::parse_from_str` with the format
/// "%d %b %H:%M %Y": the date and time that the text names, if it names one.
#[verifier::external_body]
pub(crate) fn parse_stamp(text: &str) -> (r: Option<LocalStamp>)
    ensures
        r == stamp_of(text@),
{
    match NaiveDateTime::parse_from_str(text, "%d %b %H:%M %Y") {
        Ok(n) => Some(
            LocalStamp { year: n.year(), month: n.month(), day: n.day(), hour: n.hour(), minute: n.minute() },
        ),
        Err(_) => None,
    }
}

/// Relies on chrono's `TimeZone::from_local_datetime` for `Local` and on
/// `LocalResult::single`: the instant that the wall-clock time names in the
/// machine's time zone, if it names exactly one. A time skipped or repeated by a
/// clock change gives `None`. The offset is a chrono `FixedOffset`, which lies
/// strictly within one day, and the UTC instant is the wall-clock time less that
/// offset.
#[verifier::external_body]
pub(crate) fn resolve_local(s: &LocalStamp) -> (r: Option<Deadline>)
    ensures
        r matches Some(d) ==> d.wf() && d.timestamp + d.offset == wall_seconds(*s),
{
    let naive = NaiveDate::from_ymd_opt(s.year, s.month, s.day)?.and_hms_opt(s.hour, s.minute, 0)?;
    let dt = Local.from_local_datetime(&naive).single()?;
    Some(Deadline { timestamp: dt.timestamp(), offset: dt.offset().local_minus_utc() })
}

/// Relies on chrono's `Local::now`: the calendar year of the present moment in
/// the machine's time zone.
#[verifier::external_body]
pub(crate) fn current_year() -> (r: i32) {
    Local::now().year()
}

/// Relies on chrono's `DateTime::format` with "%d %b ⋅ %H:%M", on the instant
/// placed at the deadline's offset by `FixedOffset::timestamp_opt`: the day,
/// month, hour and minute of the local time, the UTC instant plus the offset.
#[verifier::external_body]
pub(crate) fn format_absolute(d: Deadline) -> (r: Option<String>)
    ensures
        r matches Some(s) ==> absolute_text_of(d.timestamp as int, d.offset as int) == Some(s@),
        r matches Some(s) ==> shows_wall_time(d.timestamp + d.offset, s@),
        r is None ==> absolute_text_of(d.timestamp as int, d.offset as int) is None,
{
    let zone = FixedOffset::east_opt(d.offset)?;
    let dt = zone.timestamp_opt(d.timestamp, 0).single()?;
    Some(dt.format("%d %b ⋅ %H:%M").to_string())
}

} // verus!
