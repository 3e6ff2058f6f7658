use core::ops::Range;
use tento_chrono::naive_date_ext::NaiveDateExt;
use tento_chrono::naive_date_range::{days_of_range, DaysBetweenIter, NaiveDateRangeExt};
use tento_chrono::{format_iso_date, naivedate, Date};

fn collect_days(mut it: DaysBetweenIter) -> Vec<Date> {
    let mut out = Vec::new();
    while let Some(d) = it.next() {
        out.push(d);
    }
    out
}

#[test]
fn test_days_between_iter() {
    // Create a range of 5 days
    let start = Date::from_ymd(2023, 1, 1).unwrap();
    let end = Date::from_ymd(2023, 1, 6).unwrap();
    let range = Range { start, end };

    // Collect all dates into a vector
    let dates = collect_days(range.days_between_iter());

    // Should have 5 dates from Jan 1 to Jan 5 (end is exclusive)
    assert_eq!(dates.len(), 5);
    assert_eq!(dates[0], Date::from_ymd(2023, 1, 1).unwrap());
    assert_eq!(dates[1], Date::from_ymd(2023, 1, 2).unwrap());
    assert_eq!(dates[2], Date::from_ymd(2023, 1, 3).unwrap());
    assert_eq!(dates[3], Date::from_ymd(2023, 1, 4).unwrap());
    assert_eq!(dates[4], Date::from_ymd(2023, 1, 5).unwrap());
}

#[test]
fn test_empty_range() {
    // Create a range where start == end (empty range)
    let date = Date::from_ymd(2023, 1, 1).unwrap();
    let range = Range { start: date, end: date };

    let dates = collect_days(days_of_range(&range));
    assert_eq!(dates.len(), 0);
}

#[test]
fn test_single_day_range() {
    // Create a range with just one day
    let start = Date::from_ymd(2023, 1, 1).unwrap();
    let end = Date::from_ymd(2023, 1, 2).unwrap();
    let range = Range { start, end };

    let dates = collect_days(range.days_between_iter());
    assert_eq!(dates.len(), 1);
    assert_eq!(dates[0], start);
}

#[test]
fn naive_date_ext_test_days_since_epoch() {
    // Test cases with known values
    let test_cases = [
        // (date, expected_days_since_epoch)
        (Date::from_ymd(1970, 1, 1).unwrap(), 0),
        (Date::from_ymd(1970, 1, 2).unwrap(), 1),
        (Date::from_ymd(1969, 12, 31).unwrap(), -1),
        (Date::from_ymd(2000, 1, 1).unwrap(), 10957), // 30 years * 365 + 7 leap days
        (Date::from_ymd(2023, 1, 1).unwrap(), 19358), // 53 years * 365 + 13 leap days
    ];

    for (date, expected) in test_cases {
        let actual = date.days_since_epoch();
        assert_eq!(
            actual, expected,
            "Failed for date {:?}: expected {}, got {}",
            date, expected, actual
        );
    }
}

#[test]
fn test_add_days() {
    let d = Date::from_ymd(2024, 1, 1).unwrap();
    assert_eq!(d.add_days(31), Date::from_ymd(2024, 2, 1));
    assert_eq!(d.add_days(-1), Date::from_ymd(2023, 12, 31));
    assert_eq!(d.add_days(366), Date::from_ymd(2025, 1, 1)); // 2024 is a leap year

    let feb28 = Date::from_ymd(2024, 2, 28).unwrap();
    assert_eq!(feb28.add_days(1), Date::from_ymd(2024, 2, 29));
    let feb28_common = Date::from_ymd(2023, 2, 28).unwrap();
    assert_eq!(feb28_common.add_days(1), Date::from_ymd(2023, 3, 1));

    // stepping past the largest representable date saturates to None
    let max = Date::from_ymd(262142, 12, 31).unwrap();
    assert_eq!(max.add_days(1), None);
    assert_eq!(max.add_days(0), Some(max));
}

#[test]
fn test_days_between() {
    let a = Date::from_ymd(1970, 1, 1).unwrap();
    let b = Date::from_ymd(2000, 1, 1).unwrap();
    assert_eq!(a.days_between(&b), 10957);
    assert_eq!(b.days_between(&a), -10957);
    assert_eq!(a.days_between(&a), 0);
}

#[test]
fn test_format_iso_date() {
    let d = Date::from_ymd(2024, 8, 12).unwrap();
    assert_eq!(format_iso_date(&d), "2024-08-12");
    let small = Date::from_ymd(7, 3, 4).unwrap();
    assert_eq!(format_iso_date(&small), "0007-03-04");
    // round trip through the parser
    assert_eq!(naivedate(&format_iso_date(&d)), d);
}
