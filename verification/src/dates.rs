//! Calendar dates in the proleptic Gregorian calendar, with the
//! arithmetic the tracker needs: leap years, month lengths and the
//! predecessor of a day.

use vstd::prelude::*;

verus! {

/// The smallest year a `Date` may carry.
pub const MIN_YEAR: i32 = -262143;

/// The largest year a `Date` may carry.
pub const MAX_YEAR: i32 = 262142;

/// A calendar date. `month` counts from 1 (January) to 12 (December);
/// `day` counts from 1. A date is meaningful only when `valid_date`
/// holds of it.
#[derive(Clone, Copy, Debug, PartialEq, Eq, Structural)]
pub struct Date {
    pub year: i32,
    pub month: u8,
    pub day: u8,
}

/// A year is a leap year when it is divisible by 4 but not by 100,
/// or divisible by 400.
pub open spec fn is_leap_year(y: int) -> bool {
    (y % 4 == 0 && y % 100 != 0) || y % 400 == 0
}

/// The number of days of month `m` of year `y`.
pub open spec fn spec_days_in_month(y: int, m: int) -> int {
    if m == 2 {
        if is_leap_year(y) {
            29
        } else {
            28
        }
    } else if m == 4 || m == 6 || m == 9 || m == 11 {
        30
    } else {
        31
    }
}

/// A date is valid when its year lies in the supported range, its
/// month is a calendar month, and its day exists in that month.
pub open spec fn valid_date(d: Date) -> bool {
    &&& MIN_YEAR <= d.year <= MAX_YEAR
    &&& 1 <= d.month <= 12
    &&& 1 <= d.day <= spec_days_in_month(d.year as int, d.month as int)
}

/// Chronological order on dates: `a` is on or before `b`.
pub open spec fn spec_date_le(a: Date, b: Date) -> bool {
    if a.year != b.year {
        a.year < b.year
    } else if a.month != b.month {
        a.month < b.month
    } else {
        a.day <= b.day
    }
}

/// Strict chronological order on dates.
pub open spec fn spec_date_lt(a: Date, b: Date) -> bool {
    spec_date_le(a, b) && a != b
}

impl Date {
    /// Builds the date `year-month-day` without validation.
    pub fn new(year: i32, month: u8, day: u8) -> (d: Date)
        ensures
            d == (Date { year, month, day }),
    {
        Date { year, month, day }
    }

    /// Whether this date is on or before `other`.
    pub fn le(&self, other: &Date) -> (r: bool)
        ensures
            r == spec_date_le(*self, *other),
    {
        if self.year != other.year {
            self.year < other.year
        } else if self.month != other.month {
            self.month < other.month
        } else {
            self.day <= other.day
        }
    }
}

/// Whether year `y` is a leap year.
pub fn leap_year(y: i32) -> (r: bool)
    ensures
        r == is_leap_year(y as int),
{
    (y % 4 == 0 && y % 100 != 0) || y % 400 == 0
}

/// The number of days of month `m` of year `y`.
pub fn days_in_month(y: i32, m: u8) -> (r: u8)
    ensures
        r as int == spec_days_in_month(y as int, m as int),
{
    if m == 2 {
        if leap_year(y) {
            29
        } else {
            28
        }
    } else if m == 4 || m == 6 || m == 9 || m == 11 {
        30
    } else {
        31
    }
}

/// The day immediately before `d`, computed with calendar rules: step
/// back within the month, else to the last day of the previous month,
/// else to the 31st of December of the previous year.
pub fn pred_date(d: Date) -> (r: Date)
    requires
        valid_date(d),
        d != (Date { year: MIN_YEAR, month: 1, day: 1 }),
    ensures
        valid_date(r),
        spec_date_lt(r, d),
        d.day > 1 ==> r == (Date { year: d.year, month: d.month, day: (d.day - 1) as u8 }),
        d.day == 1 && d.month > 1 ==> r == (Date {
            year: d.year,
            month: (d.month - 1) as u8,
            day: spec_days_in_month(d.year as int, d.month - 1) as u8,
        }),
        d.day == 1 && d.month == 1 ==> r == (Date { year: (d.year - 1) as i32, month: 12, day: 31 }),
{
    if d.day > 1 {
        Date { year: d.year, month: d.month, day: d.day - 1 }
    } else if d.month > 1 {
        let pm = d.month - 1;
        Date { year: d.year, month: pm, day: days_in_month(d.year, pm) }
    } else {
        Date { year: d.year - 1, month: 12, day: 31 }
    }
}

} // verus!
