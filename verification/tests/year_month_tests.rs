use tento_chrono::year_month::YearMonth;

#[test]
pub fn year_month_test_basic() {
    let mut co = YearMonth { yr: 2023, mth1: 12 }.months(1);
    let mut yms: Vec<YearMonth> = Vec::new();
    for _ in 0..14 {
        yms.push(co.next().unwrap());
    }
    println!("{yms:#?}");
}

#[test]
pub fn test_serialize() {
    let s = YearMonth { yr: 2024, mth1: 1 }.to_string();
    assert_eq!(s, "2024-01");
}

#[test]
pub fn test_succ() {
    let ym = YearMonth { yr: 2024, mth1: 10 };
    let next = ym.succ();
    assert_eq!(next.yr, 2024);
    assert_eq!(next.mth1, 11);

    let dec = YearMonth { yr: 2024, mth1: 12 };
    let jan = dec.succ();
    assert_eq!(jan.yr, 2025);
    assert_eq!(jan.mth1, 1);
}

#[test]
pub fn test_pred() {
    let ym = YearMonth { yr: 2024, mth1: 10 };
    let prev = ym.pred();
    assert_eq!(prev.yr, 2024);
    assert_eq!(prev.mth1, 9);

    let jan = YearMonth { yr: 2024, mth1: 1 };
    let dec = jan.pred();
    assert_eq!(dec.yr, 2023);
    assert_eq!(dec.mth1, 12);
}

#[test]
pub fn test_to_nd() {
    let ym = YearMonth { yr: 2024, mth1: 2 };
    let nd = ym.to_nd();
    assert_eq!(nd.yr, 2024);
    assert_eq!(nd.mth1, 2);
    assert_eq!(nd.day1, 1);
}

#[test]
pub fn test_comparison() {
    let ym1 = YearMonth { yr: 2024, mth1: 1 };
    let ym2 = YearMonth { yr: 2024, mth1: 2 };
    let ym3 = YearMonth { yr: 2025, mth1: 1 };

    // Test PartialEq
    assert_eq!(ym1, YearMonth { yr: 2024, mth1: 1 });
    assert_ne!(ym1, ym2);

    // Test Ord/PartialOrd
    assert!(ym1 < ym2);
    assert!(ym2 < ym3);
    assert!(ym1 < ym3);
    assert!(ym3 > ym2);
    assert!(ym2 > ym1);

    // Test comparison across years
    assert!(YearMonth { yr: 2023, mth1: 12 } < YearMonth { yr: 2024, mth1: 1 });
    assert!(YearMonth { yr: 2025, mth1: 1 } > YearMonth { yr: 2024, mth1: 12 });
}

#[test]
pub fn test_year_month_parse() {
    let ym = YearMonth::parse("2024-08").unwrap();
    assert_eq!(ym, YearMonth { yr: 2024, mth1: 8 });

    // parts past the second are ignored, as when parsing a full date
    let ym = YearMonth::parse("2024-01-05").unwrap();
    assert_eq!(ym, YearMonth { yr: 2024, mth1: 1 });

    assert_eq!(
        YearMonth::parse("abc-01").unwrap_err(),
        tento_chrono::errors::ParseError::Year
    );
    assert_eq!(
        YearMonth::parse("2024").unwrap_err(),
        tento_chrono::errors::ParseError::Month
    );
    assert_eq!(
        YearMonth::parse("2024-xy").unwrap_err(),
        tento_chrono::errors::ParseError::Month
    );
}
