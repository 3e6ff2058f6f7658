use core::ops::Range;
use tento_chrono::partial::{MonthIterator, PartialDate, WeekIterator, YearIterator};
use tento_chrono::year_month::YearMonth;
use tento_chrono::Date;

fn collect_weeks(mut it: WeekIterator) -> Vec<(PartialDate, PartialDate)> {
    let mut out = Vec::new();
    while let Some(pair) = it.next() {
        out.push(pair);
    }
    out
}

fn collect_months(mut it: MonthIterator) -> Vec<(PartialDate, PartialDate)> {
    let mut out = Vec::new();
    while let Some(pair) = it.next() {
        out.push(pair);
    }
    out
}

fn collect_years(mut it: YearIterator) -> Vec<(PartialDate, PartialDate)> {
    let mut out = Vec::new();
    while let Some(pair) = it.next() {
        out.push(pair);
    }
    out
}

#[test]
pub fn test() {
    let pd = PartialDate::parse("yw-2025-09").unwrap();
    println!("{:?}", pd.start());
    println!("{:?}", pd.end());
}

#[test]
pub fn test_week_iterator() {
    // Define a test range - 2 weeks from 2025-05-05 (a Monday) to 2025-05-19 (a Monday)
    let start_date = Date::from_ymd(2025, 5, 5).unwrap();
    let end_date = Date::from_ymd(2025, 5, 19).unwrap();
    let range = Range { start: start_date, end: end_date };

    let weeks = collect_weeks(PartialDate::iter_weeks(range));

    // Should have 3 weeks (inclusive of end date)
    assert_eq!(weeks.len(), 3);

    // Check first week is week 19 of 2025
    match &weeks[0].0 {
        PartialDate::Yw { yr, week } => {
            assert_eq!(*yr, 2025);
            assert_eq!(*week, 19);
        },
        _ => panic!("Expected Yw date type"),
    }

    // Check second week is week 20 of 2025
    match &weeks[1].0 {
        PartialDate::Yw { yr, week } => {
            assert_eq!(*yr, 2025);
            assert_eq!(*week, 20);
        },
        _ => panic!("Expected Yw date type"),
    }

    // Check third week is week 21 of 2025
    match &weeks[2].0 {
        PartialDate::Yw { yr, week } => {
            assert_eq!(*yr, 2025);
            assert_eq!(*week, 21);
        },
        _ => panic!("Expected Yw date type"),
    }
}

#[test]
pub fn test_week_iterator_year_boundary() {
    // Define a test range that crosses year boundary
    let start_date = Date::from_ymd(2025, 12, 29).unwrap();
    let end_date = Date::from_ymd(2026, 1, 12).unwrap();
    let range = Range { start: start_date, end: end_date };

    let weeks = collect_weeks(PartialDate::iter_weeks(range));

    // Should have 3 weeks (inclusive of end date)
    assert_eq!(weeks.len(), 3);

    // Check first week is week 1 of 2026 (ISO week year can differ from calendar year)
    match &weeks[0].0 {
        PartialDate::Yw { yr, week } => {
            assert_eq!(*yr, 2026);
            assert_eq!(*week, 1);
        },
        _ => panic!("Expected Yw date type"),
    }

    // Check second week is week 2 of 2026
    match &weeks[1].0 {
        PartialDate::Yw { yr, week } => {
            assert_eq!(*yr, 2026);
            assert_eq!(*week, 2);
        },
        _ => panic!("Expected Yw date type"),
    }

    // Check third week is week 3 of 2026
    match &weeks[2].0 {
        PartialDate::Yw { yr, week } => {
            assert_eq!(*yr, 2026);
            assert_eq!(*week, 3);
        },
        _ => panic!("Expected Yw date type"),
    }
}

#[test]
pub fn test_month_iterator() {
    // Define a test range - 3 months from 2025-05-15 to 2025-08-15
    let start_date = Date::from_ymd(2025, 5, 15).unwrap();
    let end_date = Date::from_ymd(2025, 8, 15).unwrap();
    let range = Range { start: start_date, end: end_date };

    let months = collect_months(PartialDate::iter_months(range));

    // Should have 4 months (May, June, July, August)
    // August is included because we're making the iterator inclusive of the end date
    assert_eq!(months.len(), 4);

    // Check first month is May 2025
    match &months[0].0 {
        PartialDate::Ym(YearMonth { yr, mth1 }) => {
            assert_eq!(*yr, 2025);
            assert_eq!(*mth1, 5);
        },
        _ => panic!("Expected Ym date type"),
    }

    // Check second month is June 2025
    match &months[1].0 {
        PartialDate::Ym(YearMonth { yr, mth1 }) => {
            assert_eq!(*yr, 2025);
            assert_eq!(*mth1, 6);
        },
        _ => panic!("Expected Ym date type"),
    }

    // Check third month is July 2025
    match &months[2].0 {
        PartialDate::Ym(YearMonth { yr, mth1 }) => {
            assert_eq!(*yr, 2025);
            assert_eq!(*mth1, 7);
        },
        _ => panic!("Expected Ym date type"),
    }

    // Check fourth month is August 2025
    match &months[3].0 {
        PartialDate::Ym(YearMonth { yr, mth1 }) => {
            assert_eq!(*yr, 2025);
            assert_eq!(*mth1, 8);
        },
        _ => panic!("Expected Ym date type"),
    }
}

#[test]
pub fn test_month_iterator_year_boundary() {
    // Define a test range that crosses year boundary - 3 months from 2025-12-15 to 2026-02-15
    let start_date = Date::from_ymd(2025, 12, 15).unwrap();
    let end_date = Date::from_ymd(2026, 2, 15).unwrap();
    let range = Range { start: start_date, end: end_date };

    let months = collect_months(PartialDate::iter_months(range));

    // Should have 3 months (December, January, February)
    // February is included because we're making the iterator inclusive of the end date
    assert_eq!(months.len(), 3);

    // Check first month is December 2025
    match &months[0].0 {
        PartialDate::Ym(YearMonth { yr, mth1 }) => {
            assert_eq!(*yr, 2025);
            assert_eq!(*mth1, 12);
        },
        _ => panic!("Expected Ym date type"),
    }

    // Check second month is January 2026
    match &months[1].0 {
        PartialDate::Ym(YearMonth { yr, mth1 }) => {
            assert_eq!(*yr, 2026);
            assert_eq!(*mth1, 1);
        },
        _ => panic!("Expected Ym date type"),
    }

    // Check third month is February 2026
    match &months[2].0 {
        PartialDate::Ym(YearMonth { yr, mth1 }) => {
            assert_eq!(*yr, 2026);
            assert_eq!(*mth1, 2);
        },
        _ => panic!("Expected Ym date type"),
    }
}

#[test]
pub fn test_month_iterator_exact_boundary() {
    // Test with end date exactly on the first day of the month
    // Range from 2025-03-01 to 2025-05-01 (end date is May 1st)
    let start_date = Date::from_ymd(2025, 3, 1).unwrap();
    let end_date = Date::from_ymd(2025, 5, 1).unwrap();
    let range = Range { start: start_date, end: end_date };

    let months = collect_months(PartialDate::iter_months(range));

    // Should have 3 months (March, April, May)
    // May should be included because its first day is exactly the end date
    // and our iterator is inclusive of the end date
    assert_eq!(months.len(), 3);

    // Last month should be May
    match &months[2].0 {
        PartialDate::Ym(YearMonth { yr, mth1 }) => {
            assert_eq!(*yr, 2025);
            assert_eq!(*mth1, 5);
        },
        _ => panic!("Expected Ym date type"),
    }
}

#[test]
pub fn test_week_iterator_exact_boundary() {
    // Test with end date exactly on a Monday
    // Range from 2025-05-05 (Monday) to 2025-05-19 (Monday)
    let start_date = Date::from_ymd(2025, 5, 5).unwrap();
    let end_date = Date::from_ymd(2025, 5, 19).unwrap();
    let range = Range { start: start_date, end: end_date };

    let weeks = collect_weeks(PartialDate::iter_weeks(range));

    // We should have 3 weeks in this test case because the end date (2025-05-19) is inclusive
    // in the range and matches exactly a week boundary (Monday)
    assert_eq!(weeks.len(), 3);

    // First week should be week 19 of 2025
    match &weeks[0].0 {
        PartialDate::Yw { yr, week } => {
            assert_eq!(*yr, 2025);
            assert_eq!(*week, 19);
        },
        _ => panic!("Expected Yw date type"),
    }

    // Second week should be week 20 of 2025
    match &weeks[1].0 {
        PartialDate::Yw { yr, week } => {
            assert_eq!(*yr, 2025);
            assert_eq!(*week, 20);
        },
        _ => panic!("Expected Yw date type"),
    }

    // Third week should be week 21 of 2025
    match &weeks[2].0 {
        PartialDate::Yw { yr, week } => {
            assert_eq!(*yr, 2025);
            assert_eq!(*week, 21);
        },
        _ => panic!("Expected Yw date type"),
    }
}

#[test]
pub fn test_year_iterator() {
    // Define a test range - 3 years from 2023-05-15 to 2025-12-15
    let start_date = Date::from_ymd(2023, 5, 15).unwrap();
    let end_date = Date::from_ymd(2025, 12, 15).unwrap();
    let range = Range { start: start_date, end: end_date };

    let years = collect_years(PartialDate::iter_years(range));

    // Should have 3 years (2023, 2024, 2025)
    assert_eq!(years.len(), 3);

    // Check first year is 2023
    match &years[0].0 {
        PartialDate::Y(year) => {
            assert_eq!(*year, 2023);
        },
        _ => panic!("Expected Y date type"),
    }

    // Check first year end date is 2024
    match &years[0].1 {
        PartialDate::Y(year) => {
            assert_eq!(*year, 2024);
        },
        _ => panic!("Expected Y date type for end_date"),
    }

    // Check second year is 2024
    match &years[1].0 {
        PartialDate::Y(year) => {
            assert_eq!(*year, 2024);
        },
        _ => panic!("Expected Y date type"),
    }

    // Check third year is 2025
    match &years[2].0 {
        PartialDate::Y(year) => {
            assert_eq!(*year, 2025);
        },
        _ => panic!("Expected Y date type"),
    }
}

#[test]
pub fn test_year_iterator_exact_boundary() {
    // Test with end date exactly on January 1st
    // Range from 2023-05-15 to 2026-01-01 (exactly on year boundary)
    let start_date = Date::from_ymd(2023, 5, 15).unwrap();
    let end_date = Date::from_ymd(2026, 1, 1).unwrap();
    let range = Range { start: start_date, end: end_date };

    let years = collect_years(PartialDate::iter_years(range));

    // Should have 4 years (2023, 2024, 2025, 2026)
    // 2026 is included because we're inclusive of the end date
    assert_eq!(years.len(), 4);

    // Check last year is 2026
    match &years[3].0 {
        PartialDate::Y(year) => {
            assert_eq!(*year, 2026);
        },
        _ => panic!("Expected Y date type"),
    }
}
