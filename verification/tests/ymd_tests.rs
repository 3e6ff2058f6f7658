use tento_chrono::date_unit::{DateUnit, DateUnitType};
use tento_chrono::year_month::YearMonth;
use tento_chrono::year_month_day::YearMonthDay;
use tento_chrono::Date;

#[test]
fn test_add_months_normalizes() {
    let d = YearMonthDay { yr: 2024, mth1: 11, day1: 15 };
    let r = d.add_months(3);
    assert_eq!(r.yr, 2025);
    assert_eq!(r.mth1, 2);
    assert_eq!(r.day1, 15);

    let r = d.add_months(-11);
    assert_eq!(r.yr, 2023);
    assert_eq!(r.mth1, 12);

    let r = d.add_months(0);
    assert_eq!((r.yr, r.mth1, r.day1), (2024, 11, 15));

    // the day is carried along untouched, even past a shorter month
    let jan31 = YearMonthDay { yr: 2024, mth1: 1, day1: 31 };
    let r = jan31.add_months(1);
    assert_eq!((r.yr, r.mth1, r.day1), (2024, 2, 31));
}

#[test]
fn test_add_date_unit() {
    let d = YearMonthDay { yr: 2024, mth1: 6, day1: 10 };
    let r = d.add(&DateUnit { value: 3, ty: DateUnitType::Years });
    assert_eq!((r.yr, r.mth1, r.day1), (2027, 6, 10));
    let r = d.add(&DateUnit { value: 7, ty: DateUnitType::Months });
    assert_eq!((r.yr, r.mth1, r.day1), (2025, 1, 10));
}

#[test]
fn test_succession() {
    let d = YearMonthDay { yr: 2024, mth1: 11, day1: 1 };
    let mut it = d.succ(DateUnit { value: 2, ty: DateUnitType::Months });
    let a = it.next().unwrap();
    let b = it.next().unwrap();
    let c = it.next().unwrap();
    assert_eq!((a.yr, a.mth1), (2024, 11));
    assert_eq!((b.yr, b.mth1), (2025, 1));
    assert_eq!((c.yr, c.mth1), (2025, 3));

    // an untyped (day/week) step produces nothing
    let mut it = d.succ(DateUnit { value: 1, ty: DateUnitType::Days });
    assert!(it.next().is_none());
}

#[test]
fn test_year_month_dates() {
    let ym = YearMonth { yr: 2024, mth1: 2 };
    let r = ym.dates();
    assert_eq!(r.start, Date::from_ymd(2024, 2, 1).unwrap());
    assert_eq!(r.end, Date::from_ymd(2024, 3, 1).unwrap());

    let dec = YearMonth { yr: 2023, mth1: 12 };
    let r = dec.dates();
    assert_eq!(r.end, Date::from_ymd(2024, 1, 1).unwrap());
}

#[test]
fn test_from_nd_and_start_of_month() {
    let nd = Date::from_ymd(2024, 8, 12).unwrap();
    let ym = YearMonth::from_nd(nd);
    assert_eq!(ym, YearMonth { yr: 2024, mth1: 8 });
    let som = ym.start_of_month();
    assert_eq!((som.yr, som.mth1, som.day1), (2024, 8, 1));
    assert_eq!(som.ym(), ym);
}

#[test]
fn test_months_stepping_backward() {
    let mut it = YearMonth { yr: 2024, mth1: 1 }.months(-1);
    assert_eq!(it.next().unwrap(), YearMonth { yr: 2024, mth1: 1 });
    assert_eq!(it.next().unwrap(), YearMonth { yr: 2023, mth1: 12 });
    assert_eq!(it.next().unwrap(), YearMonth { yr: 2023, mth1: 11 });
}
