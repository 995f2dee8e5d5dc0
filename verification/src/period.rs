//! Inclusive date ranges and the factory operations that build them:
//! an explicit range, the range of a month, and the range of a year.

use vstd::prelude::*;

verus! {

use crate::clock::today_date;
use crate::dates::{
    Date, MAX_YEAR, MIN_YEAR, pred_date, spec_date_le, spec_days_in_month, valid_date,
};
use crate::error::{BtrError, BtrErrorKind, spec_kind};

/// An inclusive date range. Built only through the factory operations
/// below, which establish `wf`.
#[derive(Clone, Copy, Debug, PartialEq, Eq, Structural)]
pub struct Period {
    pub start: Date,
    pub end: Date,
}

impl Period {
    /// Both bounds are valid dates and the start is not after the end.
    pub open spec fn wf(self) -> bool {
        &&& valid_date(self.start)
        &&& valid_date(self.end)
        &&& spec_date_le(self.start, self.end)
    }

    /// The range covering exactly one month: it starts on the first
    /// day of the month and ends on that month's last day.
    pub open spec fn is_month_of(self, year: int, month: int) -> bool {
        &&& self.start == (Date { year: year as i32, month: month as u8, day: 1 })
        &&& self.end == (Date {
            year: year as i32,
            month: month as u8,
            day: spec_days_in_month(year, month) as u8,
        })
    }

    /// The range covering exactly one year: January the 1st to
    /// December the 31st.
    pub open spec fn is_year_of(self, year: int) -> bool {
        &&& self.start == (Date { year: year as i32, month: 1, day: 1 })
        &&& self.end == (Date { year: year as i32, month: 12, day: 31 })
    }

    /// The single range constructor: fails with `InvalidPeriod` when
    /// `start` lies after `end`.
    pub fn new(start: Date, end: Date) -> (r: Result<Period, BtrError>)
        requires
            valid_date(start),
            valid_date(end),
        ensures
            spec_date_le(start, end) ==> r == Ok::<Period, BtrError>(Period { start, end }),
            !spec_date_le(start, end) ==> (r matches Err(e) && spec_kind(e)
                == BtrErrorKind::InvalidPeriod),
            r matches Ok(p) ==> p.wf(),
    {
        if !start.le(&end) {
            return Err(
                BtrError::InvalidPeriod(
                    String::from_str("Period beggining must be before the period end."),
                ),
            );
        }
        Ok(Period { start, end })
    }

    /// The inclusive range of month `month` of year `year`.
    ///
    /// Fails with `InvalidData` carrying a message when `month` is not
    /// between 1 and 12, and with a bare `InvalidData` when the range's
    /// bounds fall outside the supported years (which December of the
    /// largest year does, since its end is computed as the day before
    /// the first day of the following month).
    pub fn month(month: u32, year: i32) -> (r: Result<Period, BtrError>)
        ensures
            !(1 <= month <= 12) ==> (r matches Err(BtrError::InvalidData(Some(m))) && m@
                == "String must be in range from 1 to 12."@),
            1 <= month <= 12 && !(MIN_YEAR <= year <= MAX_YEAR && !(month == 12 && year
                == MAX_YEAR)) ==> r == Err::<Period, BtrError>(BtrError::InvalidData(None)),
            1 <= month <= 12 && MIN_YEAR <= year <= MAX_YEAR && !(month == 12 && year == MAX_YEAR)
                ==> (r matches Ok(p) && p.is_month_of(year as int, month as int) && p.wf()),
    {
        if !(1 <= month && month <= 12) {
            return Err(
                BtrError::InvalidData(
                    Some(String::from_str("String must be in range from 1 to 12.")),
                ),
            );
        }
        if year < MIN_YEAR || year > MAX_YEAR || (month == 12 && year == MAX_YEAR) {
            return Err(BtrError::InvalidData(None));
        }
        let start = Date { year, month: month as u8, day: 1 };
        let first_of_next = if month == 12 {
            Date { year: year + 1, month: 1, day: 1 }
        } else {
            Date { year, month: (month + 1) as u8, day: 1 }
        };
        let end = pred_date(first_of_next);
        match Self::new(start, end) {
            Ok(p) => Ok(p),
            Err(e) => Err(e),
        }
    }

    /// The inclusive range of year `year`: January the 1st to December
    /// the 31st, the end computed as the day before the following
    /// year's first day. Fails with a bare `InvalidData` when `year`
    /// or the following year's first day is out of the supported
    /// range.
    pub fn year(year: i32) -> (r: Result<Period, BtrError>)
        ensures
            MIN_YEAR <= year < MAX_YEAR ==> (r matches Ok(p) && p.is_year_of(year as int)
                && p.wf()),
            !(MIN_YEAR <= year < MAX_YEAR) ==> r == Err::<Period, BtrError>(
                BtrError::InvalidData(None),
            ),
    {
        if year < MIN_YEAR || year >= MAX_YEAR {
            return Err(BtrError::InvalidData(None));
        }
        let start = Date { year, month: 1, day: 1 };
        let end = pred_date(Date { year: year + 1, month: 1, day: 1 });
        match Self::new(start, end) {
            Ok(p) => Ok(p),
            Err(e) => Err(e),
        }
    }

    /// The range of the month the current UTC date falls in.
    pub fn current_month() -> (r: Result<Period, BtrError>)
        ensures
            r matches Ok(p) ==> p.wf() && p.is_month_of(p.start.year as int, p.start.month as int),
            r matches Err(e) ==> spec_kind(e) == BtrErrorKind::InvalidData,
    {
        let date = today_date();
        Self::month(date.month as u32, date.year)
    }

    /// The range of the year the current UTC date falls in.
    pub fn current_year() -> (r: Result<Period, BtrError>)
        ensures
            r matches Ok(p) ==> p.wf() && p.is_year_of(p.start.year as int),
            r matches Err(e) ==> spec_kind(e) == BtrErrorKind::InvalidData,
    {
        let date = today_date();
        Self::year(date.year)
    }
}

} // verus!
