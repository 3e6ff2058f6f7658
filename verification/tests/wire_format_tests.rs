use tento_chrono::errors::ParseError;
use tento_chrono::partial::{PartialDate, Ymdw};
use tento_chrono::year_month::YearMonth;
use tento_chrono::{naivedate, parse_iso_date, partial_date, Date};

#[test]
fn test_parse_each_variant() {
    assert_eq!(PartialDate::parse("y-2024").unwrap(), PartialDate::Y(2024));
    assert_eq!(
        PartialDate::parse("ym-2024-08").unwrap(),
        PartialDate::Ym(YearMonth { yr: 2024, mth1: 8 })
    );
    assert_eq!(
        PartialDate::parse("ymd-2024-08-12").unwrap(),
        PartialDate::Ymd(Date::from_ymd(2024, 8, 12).unwrap())
    );
    assert_eq!(
        PartialDate::parse("yw-2025-09").unwrap(),
        PartialDate::Yw { yr: 2025, week: 9 }
    );
}

#[test]
fn test_format_each_variant() {
    assert_eq!(PartialDate::Y(2024).to_string(), "y-2024");
    assert_eq!(PartialDate::Y(5).to_string(), "y-5");
    assert_eq!(
        PartialDate::Ym(YearMonth { yr: 2024, mth1: 8 }).to_string(),
        "ym-2024-08"
    );
    assert_eq!(
        PartialDate::Ym(YearMonth { yr: 5, mth1: 3 }).to_string(),
        "ym-0005-03"
    );
    assert_eq!(
        PartialDate::Ymd(Date::from_ymd(2024, 8, 12).unwrap()).to_string(),
        "ymd-2024-08-12"
    );
    assert_eq!(
        PartialDate::Yw { yr: 2025, week: 9 }.to_string(),
        "yw-2025-09"
    );
}

#[test]
fn test_round_trip() {
    // parse(format(x)) == x, on one value of each granularity
    let values = [
        PartialDate::Y(2024),
        PartialDate::Ym(YearMonth { yr: 2024, mth1: 12 }),
        PartialDate::Ymd(Date::from_ymd(2024, 2, 29).unwrap()),
        PartialDate::Yw { yr: 2026, week: 1 },
        PartialDate::Y(0),
        PartialDate::Ym(YearMonth { yr: 7, mth1: 1 }),
    ];
    for v in values {
        assert_eq!(PartialDate::parse(&v.to_string()).unwrap(), v);
    }
}

#[test]
fn test_parse_errors() {
    assert_eq!(PartialDate::parse("").unwrap_err(), ParseError::Format);
    assert_eq!(PartialDate::parse("x-1").unwrap_err(), ParseError::Format);
    assert_eq!(PartialDate::parse("y-1-2").unwrap_err(), ParseError::Format);
    assert_eq!(PartialDate::parse("y-").unwrap_err(), ParseError::Year);
    assert_eq!(PartialDate::parse("y-12a").unwrap_err(), ParseError::Year);
    assert_eq!(
        PartialDate::parse("y-99999999999999999999").unwrap_err(),
        ParseError::Year
    );
    assert_eq!(PartialDate::parse("ym-2024-ab").unwrap_err(), ParseError::Month);
    assert_eq!(
        PartialDate::parse("ymd-2024-02-xx").unwrap_err(),
        ParseError::Day
    );
    assert_eq!(PartialDate::parse("yw-2025-ab").unwrap_err(), ParseError::Week);
    assert_eq!(
        PartialDate::parse("ymd-2024-13-01").unwrap_err(),
        ParseError::InvalidDate
    );
    assert_eq!(
        PartialDate::parse("ymd-2024-04-31").unwrap_err(),
        ParseError::InvalidDate
    );
}

#[test]
fn test_leap_year_dates() {
    // A leap day in a leap year is constructible; in a common year it is not
    assert!(Date::from_ymd(2000, 2, 29).is_some());
    assert!(Date::from_ymd(2001, 2, 29).is_none());
    assert!(Date::from_ymd(1900, 2, 29).is_none()); // century, not a leap year
    assert!(Date::from_ymd(2024, 2, 29).is_some());

    assert_eq!(
        PartialDate::parse("ymd-2000-02-29").unwrap(),
        PartialDate::Ymd(Date::from_ymd(2000, 2, 29).unwrap())
    );
    assert_eq!(
        PartialDate::parse("ymd-2001-02-29").unwrap_err(),
        ParseError::InvalidDate
    );
}

#[test]
fn test_month_not_validated_by_parse() {
    // the ym grammar does not check the month; boundary computation does
    let pd = PartialDate::parse("ym-2024-13").unwrap();
    assert_eq!(pd, PartialDate::Ym(YearMonth { yr: 2024, mth1: 13 }));
    assert!(!pd.is_wf());
    assert!(PartialDate::parse("ym-2024-08").unwrap().is_wf());
}

#[test]
fn test_start_end_values() {
    let y = partial_date("y-2024");
    assert_eq!(y.start(), Date::from_ymd(2024, 1, 1).unwrap());
    assert_eq!(y.end(), Date::from_ymd(2025, 1, 1).unwrap());

    let ym = partial_date("ym-2024-08");
    assert_eq!(ym.start(), Date::from_ymd(2024, 8, 1).unwrap());
    assert_eq!(ym.end(), Date::from_ymd(2024, 9, 1).unwrap());

    let dec = partial_date("ym-2024-12");
    assert_eq!(dec.end(), Date::from_ymd(2025, 1, 1).unwrap());

    let ymd = partial_date("ymd-2024-02-29");
    assert_eq!(ymd.start(), Date::from_ymd(2024, 2, 29).unwrap());
    assert_eq!(ymd.end(), Date::from_ymd(2024, 3, 1).unwrap());

    // ISO week 9 of 2025 runs from Monday 2025-02-24 to Monday 2025-03-03
    let yw = partial_date("yw-2025-09");
    assert_eq!(yw.start(), Date::from_ymd(2025, 2, 24).unwrap());
    assert_eq!(yw.end(), Date::from_ymd(2025, 3, 3).unwrap());

    // ISO week 1 of 2026 starts in calendar year 2025
    let boundary = partial_date("yw-2026-01");
    assert_eq!(boundary.start(), Date::from_ymd(2025, 12, 29).unwrap());
    assert_eq!(boundary.end(), Date::from_ymd(2026, 1, 5).unwrap());

    // the last ISO week of a year rolls into week 1 of the next
    let last = partial_date("yw-2025-52");
    assert_eq!(last.end(), partial_date("yw-2026-01").start());
}

#[test]
fn test_from_ymdw_and_back() {
    assert_eq!(
        PartialDate::from_ymdw(2024, None, None, None).unwrap(),
        PartialDate::Y(2024)
    );
    assert_eq!(
        PartialDate::from_ymdw(2024, Some(8), None, None).unwrap(),
        PartialDate::Ym(YearMonth { yr: 2024, mth1: 8 })
    );
    assert_eq!(
        PartialDate::from_ymdw(2024, Some(8), None, Some(12)).unwrap(),
        PartialDate::Ymd(Date::from_ymd(2024, 8, 12).unwrap())
    );
    assert_eq!(
        PartialDate::from_ymdw(2025, None, Some(9), None).unwrap(),
        PartialDate::Yw { yr: 2025, week: 9 }
    );
    assert_eq!(
        PartialDate::from_ymdw(2024, None, None, Some(12)).unwrap_err(),
        ParseError::NoMonth
    );
    assert_eq!(
        PartialDate::from_ymdw(2024, Some(2), None, Some(30)).unwrap_err(),
        ParseError::InvalidDate
    );

    let w: Ymdw = PartialDate::Yw { yr: 2025, week: 9 }.as_ymdw();
    assert_eq!(w.yr, 2025);
    assert_eq!(w.week, Some(9));
    assert_eq!(w.mth1, None);
    assert_eq!(w.day, None);

    let d: Ymdw = PartialDate::Ymd(Date::from_ymd(2024, 8, 12).unwrap()).as_ymdw();
    assert_eq!(d.yr, 2024);
    assert_eq!(d.mth1, Some(8));
    assert_eq!(d.day, Some(12));
    assert_eq!(d.week, None);
}

#[test]
fn test_iso_date_helpers() {
    assert_eq!(naivedate("2024-08-12"), Date::from_ymd(2024, 8, 12).unwrap());
    assert_eq!(parse_iso_date("2024-13-01"), None);
    assert_eq!(parse_iso_date("2024-08"), None);
    assert_eq!(
        parse_iso_date("1969-12-31"),
        Some(Date::from_ymd(1969, 12, 31).unwrap())
    );
}
