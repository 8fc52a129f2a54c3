use bbn::date::Date;
use bbn::entry_id::EntryId;
use bbn::post::{list_posts, list_posts_day, Post};
use bbn::query::Query;
use std::convert::TryFrom;
use bbn::repository::{entry_of_files, BbnRepository, EntryFileError};
use std::str::FromStr;

fn names(v: &[&str]) -> Vec<String> {
    v.iter().map(|s| s.to_string()).collect()
}

#[test]
fn find_id_by_date_test() {
    let repository = BbnRepository::new("data".to_string());
    let files = names(&[
        "2021-07-06.json",
        "2021-07-06.md",
        "2021-07-07-id1.json",
        "2021-07-07-id1.md",
    ]);
    assert_eq!(
        repository
            .find_id_by_date(&files, &Date::from_str("2021-07-06").unwrap())
            .unwrap(),
        Some(EntryId::new(Date::from_str("2021-07-06").unwrap(), None)),
    );
    assert_eq!(
        repository
            .find_id_by_date(&files, &Date::from_str("2021-07-07").unwrap())
            .unwrap(),
        Some(EntryId::new(
            Date::from_str("2021-07-07").unwrap(),
            Some("id1".to_string())
        ))
    );
    assert_eq!(
        repository
            .find_id_by_date(&files, &Date::from_str("2021-07-08").unwrap())
            .unwrap(),
        None
    );
    assert!(repository
        .find_id_by_date(&names(&["x.json"]), &Date::from_str("2021-07-08").unwrap())
        .is_err());
}

#[test]
fn find_entry_ids_test() {
    let repository = BbnRepository::new("data".to_string());
    let posts = vec![
        Post {
            date: "2021-07-06".to_string(),
            title: "TITLE1".to_string(),
            id_title: None,
        },
        Post {
            date: "2021-07-07".to_string(),
            title: "TITLE2".to_string(),
            id_title: Some("id1".to_string()),
        },
    ];
    assert_eq!(
        repository.find_entry_ids(posts).unwrap(),
        vec![
            EntryId::from_str("2021-07-06").unwrap(),
            EntryId::from_str("2021-07-07-id1").unwrap()
        ]
    );
    let bad = vec![Post {
        date: "2021-02-30".to_string(),
        title: "T".to_string(),
        id_title: None,
    }];
    assert!(repository.find_entry_ids(bad).is_err());
}

#[test]
fn entry_paths() {
    let repository = BbnRepository::new("/data".to_string());
    assert_eq!(repository.data_dir(), "/data");
    assert_eq!(
        repository.entry_dir(&Date::from_str("2021-07-06").unwrap()),
        "/data/2021/07"
    );
    assert_eq!(
        repository.entry_file(&EntryId::from_str("2021-07-07-id1").unwrap(), "md"),
        "/data/2021/07/2021-07-07-id1.md"
    );
}

#[test]
fn find_meta_by_id_test() {
    let id = EntryId::from_str("2021-07-06").unwrap();
    let entry = entry_of_files(
        id.clone(),
        r#"{"minutes":5,"pubdate":"2021-07-06T23:59:59+09:00","tags":["tag1"],"title":"TITLE1"}"#,
        "CONTENT1".to_string(),
    )
    .unwrap();
    assert_eq!(entry.id(), &id);
    assert_eq!(entry.content(), "CONTENT1");
    assert_eq!(entry.meta().minutes, 5);
    assert_eq!(entry.meta().title, "TITLE1");
    assert_eq!(entry.meta().pubdate.to_string(), "2021-07-06T23:59:59+09:00");
    assert_eq!(
        entry_of_files(id.clone(), r#"{"minutes":5,"title":"T"}"#, String::new()).unwrap_err(),
        EntryFileError::Meta
    );
    assert_eq!(
        entry_of_files(
            id.clone(),
            r#"{"minutes":5,"pubdate":"x","title":"T"}"#,
            String::new()
        )
        .unwrap_err(),
        EntryFileError::Pubdate
    );
    // fractional seconds are read as RFC 3339 allows, and dropped
    let entry = entry_of_files(
        id.clone(),
        r#"{"minutes":1,"pubdate":"2021-07-06T23:59:59.5+09:00","title":"T"}"#,
        String::new(),
    )
    .unwrap();
    assert_eq!(entry.meta().pubdate.to_string(), "2021-07-06T23:59:59+09:00");
    assert_eq!(entry.meta().pubdate.timestamp(), 1625583599);
    assert!(entry.meta().tags.is_empty());
}

fn month_files() -> Vec<(String, String)> {
    vec![
        (
            "2021-07-06.json".to_string(),
            r#"{"minutes":5,"pubdate":"2021-07-06T23:59:59+09:00","tags":["tag1"],"title":"TITLE1"}"#
                .to_string(),
        ),
        ("2021-07-06.md".to_string(), "CONTENT1".to_string()),
        (
            "2021-07-07-id1.json".to_string(),
            r#"{"minutes":6,"pubdate":"2021-07-07T23:59:59+09:00","tags":[],"title":"TITLE2"}"#
                .to_string(),
        ),
        ("2021-07-07-id1.md".to_string(), "CONTENT2".to_string()),
    ]
}

fn find_by_date(date: &str) -> Option<bbn::entry::Entry> {
    let files = month_files();
    let query_text = format!("date:{}", date);
    let query = Query::try_from(query_text.as_str()).unwrap();
    let names: Vec<String> = files.iter().map(|f| f.0.clone()).collect();
    let selected = list_posts_day(&query, &names);
    let selected_files: Vec<(String, String)> = files
        .iter()
        .filter(|f| selected.contains(&f.0))
        .cloned()
        .collect();
    let mut posts = list_posts(&selected_files).unwrap();
    if posts.is_empty() {
        return None;
    }
    let post = posts.remove(0);
    let repository = BbnRepository::new("data".to_string());
    let entry_id = repository.find_entry_ids(vec![post]).unwrap().remove(0);
    let stem = entry_id.to_string();
    let meta = &files.iter().find(|f| f.0 == format!("{}.json", stem)).unwrap().1;
    let content = &files.iter().find(|f| f.0 == format!("{}.md", stem)).unwrap().1;
    Some(entry_of_files(entry_id, meta, content.clone()).unwrap())
}

#[test]
fn find_by_date_test() {
    let entry = find_by_date("2021-07-06").unwrap();
    assert_eq!(entry.content(), "CONTENT1");
    assert_eq!(entry.id(), &EntryId::new(Date::from_str("2021-07-06").unwrap(), None));
    assert_eq!(entry.meta().minutes, 5);
    assert_eq!(entry.meta().pubdate.to_string(), "2021-07-06T23:59:59+09:00");
    assert_eq!(entry.meta().title, "TITLE1");
    let entry = find_by_date("2021-07-07").unwrap();
    assert_eq!(entry.content(), "CONTENT2");
    assert_eq!(
        entry.id(),
        &EntryId::new(Date::from_str("2021-07-07").unwrap(), Some("id1".to_string()))
    );
    assert_eq!(entry.meta().minutes, 6);
    assert_eq!(entry.meta().title, "TITLE2");
    assert!(find_by_date("2021-07-08").is_none());
}
