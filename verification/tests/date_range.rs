use bbn::date::Date;
use bbn::date_like::DateLike;
use bbn::date_range::{bbn_date_range, date_range, week_range_try_from_month, year_month, BbnDateRangeError};
use std::str::FromStr;

#[test]
fn year_month_test() {
    // check format only
    assert_eq!(year_month("2021-00"), Ok(("", ("2021", "00"))));
    assert_eq!(year_month("2021-01"), Ok(("", ("2021", "01"))));
    assert_eq!(year_month("2021-12"), Ok(("", ("2021", "12"))));
    assert_eq!(year_month("2021-13"), Ok(("", ("2021", "13"))));
    assert_eq!(year_month("2021-0a").is_err(), true);
}

#[test]
fn week_range_try_from_month_test() {
    let f = week_range_try_from_month;
    assert_eq!(f("00").is_none(), true);
    assert_eq!(f("01"), Some(("01", "04")));
    assert_eq!(f("04"), Some(("14", "17")));
    assert_eq!(f("12"), Some(("49", "52")));
    assert_eq!(f("13").is_none(), true);
}

#[test]
fn week_range_of_each_quarter_end() {
    let f = week_range_try_from_month;
    assert_eq!(f("03"), Some(("09", "12")));
    assert_eq!(f("07"), Some(("27", "30")));
    assert_eq!(f("10"), Some(("40", "44")));
    assert_eq!(f("1"), None);
}

#[test]
fn date_range_formats() {
    assert_eq!(
        bbn_date_range("2021-01", true),
        Ok("2021-W01-1/2021-W04-7".to_string())
    );
    assert_eq!(
        bbn_date_range("2021-01", false),
        Ok("2021-01-04/2021-01-31".to_string())
    );
    assert_eq!(
        date_range("2023-10".to_string(), false),
        Ok("2023-10-02/2023-11-05".to_string())
    );
}

#[test]
fn date_range_errors() {
    assert_eq!(bbn_date_range("2021-1", false), Err(BbnDateRangeError::Parse));
    assert_eq!(bbn_date_range("2021/01", false), Err(BbnDateRangeError::Parse));
    assert_eq!(
        bbn_date_range("2021-13", false),
        Err(BbnDateRangeError::InvalidMonth("13".to_string()))
    );
    assert_eq!(
        bbn_date_range("0000-01", true),
        Err(BbnDateRangeError::InvalidWeekDate("0000-W01-1".to_string()))
    );
}

#[test]
fn test_from_str() {
    assert_eq!(
        DateLike::from_str("2023-07-05").unwrap(),
        DateLike(Date::from_str("2023-07-05").unwrap())
    );
    assert_eq!(
        DateLike::from_str("2023-W27-3").unwrap(),
        DateLike(Date::from_str("2023-07-05").unwrap())
    );
}

#[test]
fn date_like_week_dates() {
    let d = |s: &str| Date::from(DateLike::from_str(s).unwrap()).to_string();
    assert_eq!(d("2023-W01-1"), "2023-01-02");
    assert_eq!(d("2023-W52-7"), "2023-12-31");
    assert_eq!(d("2026-W53-4"), "2026-12-31");
    assert_eq!(d("+2023-07-05"), "2023-07-05");
    assert!(DateLike::from_str("2023-W53-1").is_err());
    assert!(DateLike::from_str("2023-W27-8").is_err());
    assert!(DateLike::from_str("2023-13-01").is_err());
}

#[test]
fn week_ranges_cover_the_year() {
    let months = [
        "01", "02", "03", "04", "05", "06", "07", "08", "09", "10", "11", "12",
    ];
    let mut covered: Vec<u32> = Vec::new();
    let mut last: u32 = 0;
    for m in months.iter() {
        let (f, l) = week_range_try_from_month(m).unwrap();
        let f: u32 = f.parse().unwrap();
        let l: u32 = l.parse().unwrap();
        assert!(last < f);
        assert!(f <= l);
        for w in f..=l {
            covered.push(w);
        }
        last = l;
    }
    let expected: Vec<u32> = (1..=52).filter(|w| *w != 13 && *w != 26 && *w != 39).collect();
    assert_eq!(covered, expected);
}

#[test]
fn week_dates_to_dates() {
    let f = |y: u16, w: u8, wd: u8| Date::from_week_date(y, w, wd).map(|d| d.to_string());
    assert_eq!(f(2021, 1, 1), Some("2021-01-04".to_string()));
    assert_eq!(f(2020, 53, 7), Some("2021-01-03".to_string()));
    assert_eq!(f(2021, 53, 1), None);
    assert_eq!(f(2021, 0, 1), None);
    assert_eq!(f(1, 1, 1), Some("0001-01-01".to_string()));
    assert_eq!(f(9999, 52, 5), Some("9999-12-31".to_string()));
    assert_eq!(f(9999, 52, 6), None);
}
