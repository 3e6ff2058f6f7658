use core::ops::Range;
use tento_chrono::datetime_range::{round_date, DateTimeRange};
use tento_chrono::epoch::MsSinceEpoch;
use tento_chrono::timestamp::Timestamp;
use tento_chrono::{utc_datetime, Date};

fn ts(yr: i32, mth1: u32, day1: u32) -> Timestamp {
    utc_datetime(Date::from_ymd(yr, mth1, day1).unwrap())
}

#[test]
fn test_round_date_down_and_up() {
    // rounding December by 2 should leave December
    let dec = ts(2024, 12, 15);
    assert_eq!(round_date(&dec, 0, 2, false).date, Date::from_ymd(2024, 12, 1).unwrap());
    assert_eq!(round_date(&dec, 0, 2, true).date, Date::from_ymd(2024, 12, 1).unwrap());

    // November by 2: October down, December up
    let nov = ts(2024, 11, 3);
    assert_eq!(round_date(&nov, 0, 2, false).date, Date::from_ymd(2024, 10, 1).unwrap());
    assert_eq!(round_date(&nov, 0, 2, true).date, Date::from_ymd(2024, 12, 1).unwrap());

    // an interval of 1 only snaps to the month start
    let mid = ts(2024, 7, 19);
    assert_eq!(round_date(&mid, 0, 1, false).date, Date::from_ymd(2024, 7, 1).unwrap());
    assert_eq!(round_date(&mid, 0, 1, true).date, Date::from_ymd(2024, 7, 1).unwrap());

    // rounding January down by 2 crosses into December of the prior year
    let jan = ts(2024, 1, 9);
    assert_eq!(round_date(&jan, 0, 2, false).date, Date::from_ymd(2023, 12, 1).unwrap());

    // padding moves the month before rounding
    let feb = ts(2024, 2, 15);
    assert_eq!(round_date(&feb, -1, 3, false).date, Date::from_ymd(2023, 12, 1).unwrap());
    let jul = ts(2024, 7, 20);
    assert_eq!(round_date(&jul, 1, 3, true).date, Date::from_ymd(2024, 9, 1).unwrap());
}

#[test]
fn test_pad_and_round_range() {
    let range = Range { start: ts(2024, 2, 15), end: ts(2024, 7, 20) };
    let rounded = DateTimeRange::pad_and_round_range_dt(&range, 1, 3);
    assert_eq!(rounded.start, ts(2023, 12, 1));
    assert_eq!(rounded.end, ts(2024, 9, 1));

    let dtr = DateTimeRange(Range { start: ts(2024, 2, 15), end: ts(2024, 7, 20) });
    let rounded2 = dtr.pad_and_round_range(1, 3);
    assert_eq!(rounded2.0.start, ts(2023, 12, 1));
    assert_eq!(rounded2.0.end, ts(2024, 9, 1));
}

#[test]
fn test_rounding_idempotent_on_rounded_range() {
    // rounding an already-rounded range with the same interval and zero
    // padding returns the identical range
    let range = Range { start: ts(2024, 2, 15), end: ts(2024, 7, 20) };
    let once = DateTimeRange::pad_and_round_range_dt(&range, 1, 3);
    let twice = DateTimeRange::pad_and_round_range_dt(
        &Range { start: once.start, end: once.end },
        0,
        3,
    );
    assert_eq!(once.start, twice.start);
    assert_eq!(once.end, twice.end);
}

#[test]
fn test_ms_since_epoch() {
    assert_eq!(
        MsSinceEpoch(0).as_naive_date(),
        Some(Date::from_ymd(1970, 1, 1).unwrap())
    );
    assert_eq!(
        MsSinceEpoch(-1).as_naive_date(),
        Some(Date::from_ymd(1969, 12, 31).unwrap())
    );
    assert_eq!(
        MsSinceEpoch(86_400_000).as_naive_date(),
        Some(Date::from_ymd(1970, 1, 2).unwrap())
    );
    // the fixed probe value used for bounded random instants: 3000-01-01
    assert_eq!(
        MsSinceEpoch(32_503_708_800_000).as_naive_date(),
        Some(Date::from_ymd(3000, 1, 1).unwrap())
    );
    assert_eq!(MsSinceEpoch(i64::MAX).as_naive_date(), None);
    assert_eq!(MsSinceEpoch(i64::MIN).as_naive_date(), None);
}
