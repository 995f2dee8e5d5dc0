//! The one place where the library asks for the current date.

use vstd::prelude::*;

use chrono::Datelike;

verus! {

use crate::dates::{Date, MAX_YEAR, MIN_YEAR, spec_days_in_month, valid_date};

/// Relies on `chrono::Utc::now().date_naive()` and the `Datelike`
/// accessors `year`, `month` and `day`: a `chrono::NaiveDate` always
/// holds a valid proleptic Gregorian date, `month()` returns 1 to 12,
/// `day()` returns the day of that month counting from 1, and the year
/// lies between `NaiveDate::MIN` and `NaiveDate::MAX`. The value
/// depends on the wall clock, so nothing more is promised of it.
#[verifier::external_body]
fn today_ymd() -> (r: (i32, u32, u32))
    ensures
        MIN_YEAR <= r.0 <= MAX_YEAR,
        1 <= r.1 <= 12,
        1 <= r.2 && r.2 as int <= spec_days_in_month(r.0 as int, r.1 as int),
{
    let d = chrono::Utc::now().date_naive();
    (d.year(), d.month(), d.day())
}

/// The current UTC date. The result is a valid calendar date; which
/// one depends on the wall clock.
pub fn today_date() -> (d: Date)
    ensures
        valid_date(d),
{
    let (y, m, dd) = today_ymd();
    Date { year: y, month: m as u8, day: dd as u8 }
}

} // verus!
