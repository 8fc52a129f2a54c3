use bbn::checked_timestamp::Timestamp as CheckedTimestamp;
use bbn::config::{Config, ConfigRepository, Credentials};
use bbn::date::Date;
use bbn::entry::{Entry, EntryMeta};
use bbn::entry_id::EntryId;
use bbn::timestamp::{DateTime, Timestamp, TimestampError};
use std::str::FromStr;

#[test]
fn credentials_test() {
    let hatena_api_key = "hatena_api_key1";
    let hatena_blog_id = "hatena_blog_id1";
    let hatena_id = "hatena_id1";
    let credentials = Credentials::new(
        hatena_api_key.to_string(),
        hatena_blog_id.to_string(),
        hatena_id.to_string(),
    );
    assert_eq!(credentials.hatena_api_key(), hatena_api_key);
    assert_eq!(credentials.hatena_blog_id(), hatena_blog_id);
    assert_eq!(credentials.hatena_id(), hatena_id);
    assert_eq!(credentials.clone(), credentials);
}

#[test]
fn timestamp_i64_convert_test() {
    assert_eq!(i64::from(Timestamp::from(100_i64)), 100_i64);
}

#[test]
fn timestamp_string_convert_test() {
    assert_eq!(
        Timestamp::from_rfc3339("2021-07-03T08:46:05+09:00")
            .unwrap()
            .to_rfc3339(),
        "2021-07-02T23:46:05Z"
    );
}

#[test]
fn timestamp_rfc3339_edges() {
    assert_eq!(Timestamp::from(0_i64).to_rfc3339(), "1970-01-01T00:00:00Z");
    assert_eq!(
        Timestamp::from(253402300799_i64).to_rfc3339(),
        "9999-12-31T23:59:59Z"
    );
    assert_eq!(
        Timestamp::from_rfc3339("1970-01-01T00:00:00Z"),
        Ok(Timestamp(0))
    );
    assert_eq!(
        Timestamp::from_rfc3339("not a date"),
        Err(TimestampError::Parse)
    );
}

#[test]
fn datetime_string_conversion_test() {
    let f = DateTime::from_str;
    let g = |dt: DateTime| dt.to_string();
    let s1 = "2021-02-03T16:17:18Z";
    let s2 = "2021-02-03T16:17:18+00:00";
    let s3 = "2021-02-03T16:17:18+09:00";
    assert_eq!(f(s1).is_ok(), true);
    assert_eq!(f(s2).is_ok(), true);
    assert_eq!(f(s1), f(s2));
    assert_eq!(f(s1).map(g), Ok(s1.to_string()));
    assert_eq!(f(s2).map(g), Ok(s1.to_string())); // +00:00 -> Z
    assert_eq!(f(s3).map(g), Ok(s3.to_string()));
}

#[test]
fn timestamp_conversion_test() {
    let f = |s| DateTime::from_str(s).unwrap();
    let g = Timestamp::from;
    let s1 = "2021-02-03T16:17:18+00:00";
    let s2 = "2021-02-04T01:17:18+09:00";
    assert_eq!(g(f(s1)), Timestamp::from(1612369038));
    assert_eq!(g(f(s1)), g(f(s2)));
}

#[test]
fn datetime_rejects_fractions() {
    assert!(DateTime::from_str("2021-02-03T16:17:18.5Z").is_err());
    assert!(DateTime::from_str("2021-02-03").is_err());
}

#[test]
fn entry_test() {
    let id = EntryId::new(Date::from_str("2021-02-03").unwrap(), None);
    let content = "content".to_string();
    let meta = EntryMeta {
        hatena_blog_entry_id: None,
        hatena_blog_entry_url: None,
        hatena_blog_ignore: None,
        minutes: 15,
        pubdate: DateTime::from_str("2021-02-03T16:17:18+09:00").unwrap(),
        tags: vec![],
        title: "title".to_string(),
    };
    let entry = Entry::new(id.clone(), meta.clone(), content.clone());
    assert_eq!(entry.content(), content.as_str());
    assert_eq!(entry.id(), &id);
    assert_eq!(entry.meta(), &meta);

    let content2 = "content2".to_string();
    let meta2 = EntryMeta {
        hatena_blog_entry_id: None,
        hatena_blog_entry_url: None,
        hatena_blog_ignore: None,
        minutes: 16,
        pubdate: DateTime::from_str("2021-02-04T16:17:18+09:00").unwrap(),
        tags: vec!["tag2".to_string()],
        title: "title2".to_string(),
    };
    let updated = entry.update(content2.clone(), meta2.clone());
    assert_eq!(updated.content(), content2.as_str());
    assert_eq!(updated.id(), &id);
    assert_eq!(updated.meta(), &meta2);
}

#[test]
fn entry_meta_from_fields() {
    let meta = EntryMeta::from_fields(
        5,
        "2021-07-06T23:59:59+09:00",
        vec!["tag1".to_string()],
        "TITLE1".to_string(),
    )
    .unwrap();
    assert_eq!(meta.minutes, 5);
    assert_eq!(meta.pubdate.to_string(), "2021-07-06T23:59:59+09:00");
    assert_eq!(meta.tags, vec!["tag1".to_string()]);
    assert_eq!(meta.title, "TITLE1");
    assert!(EntryMeta::from_fields(5, "yesterday", vec![], "T".to_string()).is_err());
}

#[test]
fn config_test() {
    let data_dir = "/tmp/bbn-test/data".to_string();
    let hatena_blog_data_file = "/tmp/bbn-test/hatena_blog.db".to_string();
    let link_completion_rules_file = "/tmp/bbn-test/link_completion_rules.json".to_string();

    let config = Config::new(data_dir.clone(), hatena_blog_data_file.clone(), None);
    assert_eq!(config.data_dir(), data_dir.as_str());
    assert_eq!(
        config.hatena_blog_data_file(),
        hatena_blog_data_file.as_str()
    );
    assert_eq!(config.link_completion_rules_file(), None);
    assert_eq!(config.clone(), config);

    let config = Config::new(
        data_dir.clone(),
        hatena_blog_data_file.clone(),
        Some(link_completion_rules_file.clone()),
    );
    assert_eq!(config.data_dir(), data_dir.as_str());
    assert_eq!(
        config.hatena_blog_data_file(),
        hatena_blog_data_file.as_str()
    );
    assert_eq!(
        config.link_completion_rules_file(),
        Some(link_completion_rules_file.as_str())
    );
    assert_eq!(config.clone(), config);
}

#[test]
fn config_repository_paths() {
    let repository = ConfigRepository::new("/home/u/.config/bbn".to_string());
    assert_eq!(repository.config_dir(), "/home/u/.config/bbn");
    assert_eq!(repository.path(), "/home/u/.config/bbn/config.json");
    assert_eq!(
        repository.credential_file_path(),
        "/home/u/.config/bbn/credentials.json"
    );
    let repository = ConfigRepository::new("cfg/".to_string());
    assert_eq!(repository.path(), "cfg/config.json");
}

#[test]
fn timestamp_checked_range_test() {
    assert!(CheckedTimestamp::try_from(0_i64 - 1).is_err());
    assert_eq!(i64::from(CheckedTimestamp::try_from(0_i64).unwrap()), 0_i64);
    assert_eq!(
        CheckedTimestamp::try_from(0_i64).unwrap().to_rfc3339(),
        "1970-01-01T00:00:00Z"
    );
    assert_eq!(
        i64::from(CheckedTimestamp::try_from(253_402_300_799_i64).unwrap()),
        253_402_300_799_i64
    );
    assert_eq!(
        CheckedTimestamp::try_from(253_402_300_799_i64).unwrap().to_rfc3339(),
        "9999-12-31T23:59:59Z"
    );
    assert_eq!(
        CheckedTimestamp::try_from(253_402_300_799_i64 + 1),
        Err(TimestampError::OutOfRange)
    );
}

#[test]
fn checked_timestamp_string_convert_test() {
    assert_eq!(
        CheckedTimestamp::from_rfc3339("2021-07-03T08:46:05+09:00")
            .unwrap()
            .to_rfc3339(),
        "2021-07-02T23:46:05Z"
    );
    assert_eq!(
        CheckedTimestamp::from_rfc3339("2021-07-03"),
        Err(TimestampError::Parse)
    );
    assert!(i64::from(CheckedTimestamp::now().unwrap()) > 1_600_000_000);
}

#[test]
fn timestamp_from_clock() {
    assert_eq!(Timestamp::from_clock(Some(5)), Ok(Timestamp(5)));
    assert_eq!(Timestamp::from_clock(None), Err(TimestampError::BeforeEpoch));
    assert_eq!(
        Timestamp::from_clock(Some(u64::MAX)),
        Err(TimestampError::OutOfRange)
    );
    assert!(Timestamp::now().unwrap().0 > 1_600_000_000);
}
