use bbn::date::Date;
use bbn::entry_id::EntryId;
use std::str::FromStr;

#[test]
fn entry_id_string_conversion_test() {
    let f = |s: &str| {
        assert_eq!(EntryId::from_str(s).unwrap().to_string(), s.to_string());
    };
    f("2021-07-06");
    f("2021-07-06-id");
}

#[test]
fn date_test() {
    let date = Date::from_str("2021-07-06").unwrap();
    assert_eq!(EntryId::new(date, None).date(), &date);
}

#[test]
fn id_title_test() {
    let date = Date::from_str("2021-07-06").unwrap();
    let id_title = "id_title";
    assert_eq!(
        EntryId::new(date, Some(id_title.to_string())).id_title(),
        Some(id_title)
    );
}

#[test]
fn entry_id_parse_edge_cases() {
    assert!(EntryId::from_str("2021-02-30").is_err());
    assert!(EntryId::from_str("2021-07").is_err());
    let id = EntryId::from_str("2021-07-06x").unwrap();
    assert_eq!(id.id_title(), Some(""));
    assert_eq!(id.to_string(), "2021-07-06-");
    let id = EntryId::from_str("2024-02-29-leap").unwrap();
    assert_eq!(id.date().day_of_month(), 29);
    assert_eq!(id.id_title(), Some("leap"));
}

#[test]
fn date_parse_and_print() {
    let d = Date::from_str("0001-01-01").unwrap();
    assert_eq!(d.year(), 1);
    assert_eq!(d.to_string(), "0001-01-01");
    assert!(Date::from_str("0000-01-01").is_err());
    assert!(Date::from_str("2023-02-29").is_err());
    assert!(Date::from_str("1900-02-29").is_err());
    assert!(Date::from_str("2000-02-29").is_ok());
    assert!(Date::from_str("2021-13-01").is_err());
    assert!(Date::from_str("2021-1-01").is_err());
    assert_eq!(Date::from_ymd(2021, 7, 6).unwrap().to_string(), "2021-07-06");
}
