use bbn::date::Date;
use bbn::entry_id::EntryId;
use bbn::listing::{
    entry_url, list_output, sitemap_urls, sort_by_id, view_format, view_meta_line, view_summary_line,
    view_text,
    ViewFormat,
};
use std::str::FromStr;

fn eid(s: &str) -> EntryId {
    EntryId::from_str(s).unwrap()
}

#[test]
fn entry_url_of_date() {
    assert_eq!(
        entry_url(&eid("2021-02-03-ID_TITLE")),
        "https://blog.bouzuya.net/2021/02/03/"
    );
    assert_eq!(
        sitemap_urls(&vec![eid("2021-02-03"), eid("0001-12-31")]),
        vec![
            "https://blog.bouzuya.net/2021/02/03/".to_string(),
            "https://blog.bouzuya.net/0001/12/31/".to_string()
        ]
    );
}

#[test]
fn list_output_newest_first() {
    let entries = vec![
        (eid("2021-02-03"), "TITLE1".to_string()),
        (eid("2021-02-04-x"), "TITLE2".to_string()),
    ];
    assert_eq!(
        list_output(entries, false),
        "2021-02-04 TITLE2 <https://blog.bouzuya.net/2021/02/04/>\n2021-02-03 TITLE1 <https://blog.bouzuya.net/2021/02/03/>"
    );
    let entries = vec![(eid("2021-02-03"), "T".to_string())];
    assert_eq!(
        list_output(entries, true),
        r#"[{"date":"2021-02-03","title":"T","url":"https://blog.bouzuya.net/2021/02/03/"}]"#
    );
    assert_eq!(list_output(vec![], true), "[]");
    assert_eq!(list_output(vec![], false), "");
}

#[test]
fn sort_by_entry_id() {
    let items = vec![
        (eid("2021-02-03-b"), 1),
        (eid("2020-12-31"), 2),
        (eid("2021-02-03"), 3),
        (eid("2021-02-03-a"), 4),
    ];
    let ascending: Vec<i32> = sort_by_id(items.clone(), false).into_iter().map(|p| p.1).collect();
    assert_eq!(ascending, vec![2, 3, 4, 1]);
    let descending: Vec<i32> = sort_by_id(items, true).into_iter().map(|p| p.1).collect();
    assert_eq!(descending, vec![1, 4, 3, 2]);
}

#[test]
fn view_formats() {
    assert_eq!(view_format(false, false, false), ViewFormat::TextSummary);
    assert_eq!(view_format(true, false, false), ViewFormat::TextContent);
    assert_eq!(view_format(false, true, false), ViewFormat::TextMeta);
    assert_eq!(view_format(true, true, false), ViewFormat::TextContentMeta);
    assert_eq!(view_format(false, false, true), ViewFormat::JsonContent);
    assert_eq!(view_format(true, false, true), ViewFormat::JsonContent);
    assert_eq!(view_format(false, true, true), ViewFormat::JsonMeta);
    assert_eq!(view_format(true, true, true), ViewFormat::JsonContentMeta);
}

#[test]
fn view_texts() {
    let id = eid("2021-02-03-ID_TITLE");
    assert_eq!(
        view_meta_line(&id, "TITLE1"),
        "2021-02-03 ID_TITLE TITLE1 <https://blog.bouzuya.net/2021/02/03/>"
    );
    assert_eq!(
        view_meta_line(&EntryId::new(Date::from_str("2021-02-03").unwrap(), None), "T"),
        "2021-02-03 T <https://blog.bouzuya.net/2021/02/03/>"
    );
    assert_eq!(
        view_text(ViewFormat::TextContentMeta, &id, "TITLE1", "Hello"),
        Some("2021-02-03 ID_TITLE TITLE1 <https://blog.bouzuya.net/2021/02/03/>\nHello".to_string())
    );
    assert_eq!(
        view_text(ViewFormat::TextContent, &id, "TITLE1", "Hello"),
        Some("Hello".to_string())
    );
    assert_eq!(view_text(ViewFormat::JsonMeta, &id, "TITLE1", "Hello"), None);
}

#[test]
fn view_without_flags() {
    let id = eid("2021-02-03-ID_TITLE");
    let format = view_format(false, false, false);
    assert_eq!(
        view_text(format, &id, "TITLE1", "Hello"),
        Some("2021-02-03 ID_TITLE TITLE1 https://blog.bouzuya.net/2021/02/03/\nHello".to_string())
    );
    assert_eq!(
        view_summary_line(&id, "TITLE1"),
        "2021-02-03 ID_TITLE TITLE1 https://blog.bouzuya.net/2021/02/03/"
    );
}
