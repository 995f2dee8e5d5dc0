use btr::dates::{Date, days_in_month, leap_year, pred_date};
use btr::error::BtrErrorKind;
use btr::period::Period;

#[test]
fn month_of_january() {
    let p = Period::month(1, 2024).unwrap();
    assert_eq!(p.start, Date { year: 2024, month: 1, day: 1 });
    assert_eq!(p.end, Date { year: 2024, month: 1, day: 31 });
}

#[test]
fn month_of_february_leap_year() {
    let p = Period::month(2, 2024).unwrap();
    assert_eq!(p.start.day, 1);
    assert_eq!(p.end, Date { year: 2024, month: 2, day: 29 });
}

#[test]
fn month_of_february_common_year() {
    let p = Period::month(2, 2023).unwrap();
    assert_eq!(p.end, Date { year: 2023, month: 2, day: 28 });
}

#[test]
fn month_of_february_century_year() {
    // 1900 is not a leap year; 2000 is.
    let p1900 = Period::month(2, 1900).unwrap();
    assert_eq!(p1900.end.day, 28);
    let p2000 = Period::month(2, 2000).unwrap();
    assert_eq!(p2000.end.day, 29);
}

#[test]
fn month_of_april_has_thirty_days() {
    let p = Period::month(4, 2024).unwrap();
    assert_eq!(p.end, Date { year: 2024, month: 4, day: 30 });
}

#[test]
fn december_rolls_the_year_forward() {
    let p = Period::month(12, 2024).unwrap();
    assert_eq!(p.start, Date { year: 2024, month: 12, day: 1 });
    assert_eq!(p.end, Date { year: 2024, month: 12, day: 31 });
}

#[test]
fn every_month_starts_on_day_one_and_is_ordered() {
    for y in [1999i32, 2000, 2023, 2024, -4] {
        for m in 1u32..=12 {
            let p = Period::month(m, y).unwrap();
            assert_eq!(p.start.day, 1);
            assert!(p.start.le(&p.end));
            assert_eq!(p.end.day, days_in_month(y, m as u8));
        }
    }
}

#[test]
fn month_thirteen_is_invalid_data() {
    let e = Period::month(13, 2024).unwrap_err();
    assert_eq!(e.kind(), BtrErrorKind::InvalidData);
}

#[test]
fn month_zero_is_invalid_data() {
    for y in [1999i32, 2024, -100] {
        let e = Period::month(0, y).unwrap_err();
        assert_eq!(e.kind(), BtrErrorKind::InvalidData);
    }
}

#[test]
fn year_runs_january_first_to_december_thirty_first() {
    let p = Period::year(2024).unwrap();
    assert_eq!(p.start, Date { year: 2024, month: 1, day: 1 });
    assert_eq!(p.end, Date { year: 2024, month: 12, day: 31 });
}

#[test]
fn year_out_of_range_is_invalid_data() {
    let e = Period::year(300000).unwrap_err();
    assert_eq!(e.kind(), BtrErrorKind::InvalidData);
}

#[test]
fn explicit_range_rejects_start_after_end() {
    let a = Date { year: 2024, month: 5, day: 2 };
    let b = Date { year: 2024, month: 5, day: 1 };
    let e = Period::new(a, b).unwrap_err();
    assert_eq!(e.kind(), BtrErrorKind::InvalidPeriod);
    assert!(Period::new(b, a).is_ok());
}

#[test]
fn current_month_is_a_month_range() {
    let p = Period::current_month().unwrap();
    assert_eq!(p.start.day, 1);
    assert_eq!(p.start.month, p.end.month);
    assert_eq!(p.start.year, p.end.year);
    assert!(p.start.le(&p.end));
}

#[test]
fn current_year_is_a_year_range() {
    let p = Period::current_year().unwrap();
    assert_eq!(p.start.month, 1);
    assert_eq!(p.start.day, 1);
    assert_eq!(p.end.month, 12);
    assert_eq!(p.end.day, 31);
}

#[test]
fn leap_year_rules() {
    assert!(leap_year(2024));
    assert!(!leap_year(2023));
    assert!(!leap_year(1900));
    assert!(leap_year(2000));
    assert!(leap_year(-4));
}

#[test]
fn predecessor_steps_over_month_and_year_bounds() {
    let d = pred_date(Date { year: 2024, month: 3, day: 1 });
    assert_eq!(d, Date { year: 2024, month: 2, day: 29 });
    let d2 = pred_date(Date { year: 2025, month: 1, day: 1 });
    assert_eq!(d2, Date { year: 2024, month: 12, day: 31 });
    let d3 = pred_date(Date { year: 2024, month: 7, day: 15 });
    assert_eq!(d3, Date { year: 2024, month: 7, day: 14 });
}
