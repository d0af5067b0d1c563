//! Calendar days in UTC, as the `chrono` crate reckons them.

use chrono::{Datelike, TimeZone, Utc};
use vstd::prelude::*;

verus! {

/// A day of the calendar: year, month (1 to 12) and day of the month.
#[derive(Clone, Copy, Debug, PartialEq, Eq, Structural)]
pub struct Date {
    pub year: i32,
    pub month: u32,
    pub day: u32,
}

/// A calendar day together with its day of the week, counted from Monday
/// (0) to Sunday (6).
#[derive(Clone, Copy, Debug, PartialEq, Eq, Structural)]
pub struct CalendarDay {
    pub date: Date,
    pub weekday: u32,
}

impl Date {
    /// Whether `self` comes strictly after `other` in the calendar.
    pub open spec fn later_than(self, other: Date) -> bool {
        ||| self.year > other.year
        ||| self.year == other.year && self.month > other.month
        ||| self.year == other.year && self.month == other.month && self.day > other.day
    }

    /// Whether `self` comes strictly after `other` in the calendar.
    pub fn is_after(&self, other: &Date) -> (later: bool)
        ensures
            later == self.later_than(*other),
    {
        if self.year != other.year {
            self.year > other.year
        } else if self.month != other.month {
            self.month > other.month
        } else {
            self.day > other.day
        }
    }

    /// The 24th of December, in any year.
    pub open spec fn christmas_eve(self) -> bool {
        self.month == 12 && self.day == 24
    }

    /// Whether the day is the 24th of December.
    pub fn is_christmas_eve(&self) -> (eve: bool)
        ensures
            eve == self.christmas_eve(),
    {
        self.month == 12 && self.day == 24
    }
}

/// The UTC calendar day on which the instant lies that comes `millis`
/// milliseconds after the start of 1970, or `None` where the calendar does
/// not reach that far.
pub uninterp spec fn utc_calendar_day(millis: i64) -> Option<CalendarDay>;

/// Calls `Utc.timestamp_millis_opt` of the `chrono` crate and reads the
/// year, month, day and weekday of the instant it gives.
///
/// Trusted: the day returned depends on `millis` alone, and is `None`
/// exactly where `chrono` has no single instant for `millis`.
#[verifier::external_body]
fn utc_day_of_millis(millis: i64) -> (day: Option<CalendarDay>)
    ensures
        day == utc_calendar_day(millis),
{
    match Utc.timestamp_millis_opt(millis).single() {
        Some(t) => Some(
            CalendarDay {
                date: Date { year: t.year(), month: t.month(), day: t.day() },
                weekday: t.weekday().num_days_from_monday(),
            },
        ),
        None => None,
    }
}

/// Calls `Utc::now` of the `chrono` crate and gives the instant in
/// milliseconds since the start of 1970.
///
/// Trusted: nothing is claimed of the value, which is the reading of a clock.
#[verifier::external_body]
pub(crate) fn utc_now_millis() -> i64 {
    Utc::now().timestamp_millis()
}

/// The UTC calendar day of an instant given in milliseconds since the start
/// of 1970.
pub fn calendar_day(millis: i64) -> (day: Option<CalendarDay>)
    ensures
        day == utc_calendar_day(millis),
{
    utc_day_of_millis(millis)
}

/// The order of the calendar is strict: no day comes after itself, and of
/// two days at most one comes after the other.
pub proof fn lemma_later_than_is_strict(a: Date, b: Date)
    ensures
        !a.later_than(a),
        !(a.later_than(b) && b.later_than(a)),
        a.later_than(b) || b.later_than(a) || a == b,
{
}

/// Whether a day is Christmas Eve does not depend on its year.
pub proof fn lemma_christmas_eve_in_any_year(a: Date, b: Date)
    requires
        a.month == b.month,
        a.day == b.day,
    ensures
        a.christmas_eve() == b.christmas_eve(),
{
}

} // verus!
