//! Local calendar date-times held as plain numbers.

use chrono::{Datelike, Timelike};
use vstd::prelude::*;

verus! {

/// Earliest year a date-time can carry.
pub const MIN_YEAR: i32 = -262143;

/// Latest year a date-time can carry.
pub const MAX_YEAR: i32 = 262142;

/// A calendar date and a time of day, as mathematical integers.
pub struct Civil {
    pub year: int,
    pub month: int,
    pub day: int,
    pub hour: int,
    pub minute: int,
    pub second: int,
}

/// Leap years of the proleptic Gregorian calendar.
pub open spec fn is_leap_year(year: int) -> bool {
    year % 4 == 0 && (year % 100 != 0 || year % 400 == 0)
}

/// Number of days of `month` in `year`.
pub open spec fn days_in_month(year: int, month: int) -> int {
    if month == 2 {
        if is_leap_year(year) {
            29
        } else {
            28
        }
    } else if month == 4 || month == 6 || month == 9 || month == 11 {
        30
    } else {
        31
    }
}

/// The numbers name a day that exists in the calendar and a time of that day.
pub open spec fn is_civil(c: Civil) -> bool {
    &&& MIN_YEAR <= c.year <= MAX_YEAR
    &&& 1 <= c.month <= 12
    &&& 1 <= c.day <= days_in_month(c.year, c.month)
    &&& 0 <= c.hour < 24
    &&& 0 <= c.minute < 60
    &&& 0 <= c.second < 60
}

/// Chronological order: `a` lies strictly before `b`.
pub open spec fn civil_before(a: Civil, b: Civil) -> bool {
    ||| a.year < b.year
    ||| a.year == b.year && a.month < b.month
    ||| a.year == b.year && a.month == b.month && a.day < b.day
    ||| a.year == b.year && a.month == b.month && a.day == b.day && a.hour < b.hour
    ||| a.year == b.year && a.month == b.month && a.day == b.day && a.hour == b.hour && a.minute
        < b.minute
    ||| a.year == b.year && a.month == b.month && a.day == b.day && a.hour == b.hour && a.minute
        == b.minute && a.second < b.second
}

/// A date and time of day in the local time zone, to the second.
///
/// Every value names a day that exists: see [`is_civil`].
#[derive(Clone, Copy, Debug, PartialEq, Eq, Structural)]
pub struct LocalDateTime {
    year: i32,
    month: u32,
    day: u32,
    hour: u32,
    minute: u32,
    second: u32,
}

impl View for LocalDateTime {
    type V = Civil;

    closed spec fn view(&self) -> Civil {
        Civil {
            year: self.year as int,
            month: self.month as int,
            day: self.day as int,
            hour: self.hour as int,
            minute: self.minute as int,
            second: self.second as int,
        }
    }
}

fn leap_year(year: i32) -> (leap: bool)
    requires
        MIN_YEAR <= year <= MAX_YEAR,
    ensures
        leap == is_leap_year(year as int),
{
    // 262400 is a multiple of 400, so the shift keeps every remainder.
    let shifted: u32 = (year + 262400) as u32;
    shifted % 4 == 0 && (shifted % 100 != 0 || shifted % 400 == 0)
}

fn month_length(year: i32, month: u32) -> (days: u32)
    requires
        MIN_YEAR <= year <= MAX_YEAR,
    ensures
        days == days_in_month(year as int, month as int),
{
    if month == 2 {
        if leap_year(year) {
            29
        } else {
            28
        }
    } else if month == 4 || month == 6 || month == 9 || month == 11 {
        30
    } else {
        31
    }
}

impl LocalDateTime {
    /// What holds of every value of the type.
    #[verifier::type_invariant]
    pub open spec fn is_valid(&self) -> bool {
        is_civil(self@)
    }

    /// The date-time with the given numbers, if they name one.
    pub fn new(year: i32, month: u32, day: u32, hour: u32, minute: u32, second: u32) -> (made:
        Option<LocalDateTime>)
        ensures
            made is Some <==> is_civil(
                (Civil {
                    year: year as int,
                    month: month as int,
                    day: day as int,
                    hour: hour as int,
                    minute: minute as int,
                    second: second as int,
                }),
            ),
            made matches Some(t) ==> t@ == (Civil {
                year: year as int,
                month: month as int,
                day: day as int,
                hour: hour as int,
                minute: minute as int,
                second: second as int,
            }),
    {
        if year < MIN_YEAR || year > MAX_YEAR || month < 1 || month > 12 || day < 1 || hour >= 24
            || minute >= 60 || second >= 60 {
            return None;
        }
        if day > month_length(year, month) {
            return None;
        }
        Some(LocalDateTime { year, month, day, hour, minute, second })
    }

    /// The current date and time on the local clock.
    ///
    /// Trusted: reads `chrono::Local::now()` and copies its calendar fields
    /// (`Datelike::year`, `month`, `day`, `Timelike::hour`, `minute`,
    /// `second`). All that is claimed is that those fields name an existing
    /// day and a time of day.
    #[verifier::external_body]
    pub(crate) fn now() -> (t: LocalDateTime)
        ensures
            is_civil(t@),
    {
        let at = chrono::Local::now();
        LocalDateTime {
            year: at.year(),
            month: at.month(),
            day: at.day(),
            hour: at.hour(),
            minute: at.minute(),
            second: at.second(),
        }
    }

    pub fn year(&self) -> (year: i32)
        ensures
            year == self@.year,
    {
        self.year
    }

    pub fn month(&self) -> (month: u32)
        ensures
            month == self@.month,
    {
        self.month
    }

    pub fn day(&self) -> (day: u32)
        ensures
            day == self@.day,
    {
        self.day
    }

    pub fn hour(&self) -> (hour: u32)
        ensures
            hour == self@.hour,
    {
        self.hour
    }

    pub fn minute(&self) -> (minute: u32)
        ensures
            minute == self@.minute,
    {
        self.minute
    }

    pub fn second(&self) -> (second: u32)
        ensures
            second == self@.second,
    {
        self.second
    }

    /// Two date-times are equal exactly when their numbers are.
    pub proof fn lemma_view_decides_equality(a: LocalDateTime, b: LocalDateTime)
        ensures
            (a@ == b@) <==> (a == b),
    {
    }
}

} // verus!
