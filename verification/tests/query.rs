use bbn::query::Query;
use std::convert::TryFrom;

#[test]
fn str_convert() {
    let f = |s: &str| assert_eq!(Query::try_from(s).unwrap().to_string(), s.to_string());
    f("date:2021-02-03");
    f("date:2021-02");
    f("date:2021");
    f("date:--02-03");
    f("date:--02");
    f("date:---03");
    f("date:2021-02-03/2022-03-04");
}

#[test]
fn match_year() {
    let f = |s: &str, t: &str| -> bool {
        let q = Query::try_from(s).unwrap();
        q.match_year(t)
    };
    assert_eq!(f("date:2021-02-03", "2021"), true);
    assert_eq!(f("date:2021-02-03", "2020"), false);
    assert_eq!(f("date:2021-02", "2021"), true);
    assert_eq!(f("date:2021", "2021"), true);
    assert_eq!(f("date:--02-03", "2021"), true);
    assert_eq!(f("date:--02-03", "2020"), true);
    assert_eq!(f("date:2021-02-03/2022-03-04", "2020"), false);
    assert_eq!(f("date:2021-02-03/2022-03-04", "2021"), true);
    assert_eq!(f("date:2021-02-03/2022-03-04", "2022"), true);
    assert_eq!(f("date:2021-02-03/2022-03-04", "2023"), false);
}

#[test]
fn match_month() {
    let f = |s: &str, t: &str| -> bool {
        let q = Query::try_from(s).unwrap();
        q.match_month(t)
    };
    assert_eq!(f("date:2021-02-03", "02"), true);
    assert_eq!(f("date:2021-02-03", "01"), false);
    assert_eq!(f("date:2021-02", "02"), true);
    assert_eq!(f("date:2021", "02"), true);
    assert_eq!(f("date:2021", "01"), true);
    assert_eq!(f("date:---03", "02"), true);
    assert_eq!(f("date:---03", "01"), true);
    assert_eq!(f("date:2021-02-03/2021-03-04", "01"), false);
    assert_eq!(f("date:2021-02-03/2021-03-04", "02"), true);
    assert_eq!(f("date:2021-02-03/2021-03-04", "03"), true);
    assert_eq!(f("date:2021-02-03/2021-03-04", "04"), false);
    assert_eq!(f("date:2021-02-03/2022-03-04", "01"), true);
    assert_eq!(f("date:2021-02-03/2022-03-04", "12"), true);
}

#[test]
fn match_day() {
    let f = |s: &str, t: &str| -> bool {
        let q = Query::try_from(s).unwrap();
        q.match_day(t)
    };
    assert_eq!(f("date:2021-02-03", "03"), true);
    assert_eq!(f("date:2021-02-03", "02"), false);
    assert_eq!(f("date:---03", "03"), true);
    assert_eq!(f("date:---03", "02"), false);
    assert_eq!(f("date:2021-02", "03"), true);
    assert_eq!(f("date:2021-02-03/2021-02-04", "02"), false);
    assert_eq!(f("date:2021-02-03/2021-02-04", "03"), true);
    assert_eq!(f("date:2021-02-03/2021-02-04", "04"), true);
    assert_eq!(f("date:2021-02-03/2021-02-04", "05"), false);
    assert_eq!(f("date:2021-02-03/2021-03-04", "01"), true);
    assert_eq!(f("date:2021-02-03/2021-03-04", "31"), true);
    assert_eq!(f("date:2021-02-03/2022-03-04", "01"), true);
    assert_eq!(f("date:2021-02-03/2022-03-04", "31"), true);
}

#[test]
fn match_date() {
    let f = |s: &str, t: &str| -> bool {
        let q = Query::try_from(s).unwrap();
        q.match_date(t)
    };
    assert_eq!(f("date:2021-02-03", "2021-02-03"), true);
    assert_eq!(f("date:2021-02-03", "2021-02-02"), false);
    assert_eq!(f("date:2021-02", "2021-02-03"), true);
    assert_eq!(f("date:2021-02", "2021-03-01"), false);
    assert_eq!(f("date:2021", "2021-02-03"), true);
    assert_eq!(f("date:2021", "2022-01-01"), false);
    assert_eq!(f("date:--02-03", "2021-02-03"), true);
    assert_eq!(f("date:--02-03", "2020-02-03"), true);
    assert_eq!(f("date:--02-03", "2020-02-04"), false);
    assert_eq!(f("date:2021-02-03/2022-03-04", "2021-02-02"), false);
    assert_eq!(f("date:2021-02-03/2022-03-04", "2021-02-03"), true);
    assert_eq!(f("date:2021-02-03/2022-03-04", "2022-03-04"), true);
    assert_eq!(f("date:2021-02-03/2022-03-04", "2022-03-05"), false);
}

#[test]
fn query_parse_errors() {
    assert!(Query::try_from("date:").is_err());
    assert!(Query::try_from("2021-02-03").is_err());
    assert!(Query::try_from("date:2021-02-03x").is_err());
    assert!(Query::try_from("date:2021-2-03").is_err());
    assert!(Query::try_from("date:2021-02-03/2022-03").is_err());
    assert!(Query::try_from("date:-02").is_err());
}

#[test]
fn query_empty_selects_everything() {
    let q = Query::try_from("").unwrap();
    assert_eq!(q.to_string(), "date:");
    assert!(q.match_year("1999"));
    assert!(q.match_month("13"));
    assert!(q.match_day("99"));
    assert!(q.match_date("2021-02-03"));
    assert!(!q.match_date("2021-02"));
}

#[test]
fn query_match_date_reads_bytes() {
    let q = Query::try_from("date:--02-03").unwrap();
    assert!(q.match_date("2021-02-03-title"));
    assert!(!q.match_date("\u{e9}021-02-03"));
}

#[test]
fn selected_date_parts_are_selected() {
    let cases = [
        ("date:2021-02-03/2022-03-04", "2021-12-31", "2021", "12", "31"),
        ("date:2021-02-03/2021-03-04", "2021-02-28", "2021", "02", "28"),
        ("date:2021-02-03/2021-02-04", "2021-02-04", "2021", "02", "04"),
        ("date:--02-03", "1999-02-03", "1999", "02", "03"),
        ("", "2000-01-01", "2000", "01", "01"),
    ];
    for (query, date, year, month, day) in cases.iter() {
        let q = Query::try_from(*query).unwrap();
        assert!(q.match_date(date));
        assert!(q.match_year(year));
        assert!(q.match_month(month));
        assert!(q.match_day(day));
    }
}
