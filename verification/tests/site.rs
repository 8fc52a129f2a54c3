use bbn::date::Date;
use bbn::entry::{Entry, EntryMeta};
use bbn::entry_id::EntryId;
use bbn::site::{
    build_site, daily_json_file_names, parse_links, split_dash, DailyJson,
    SiteError,
};
use bbn::timestamp::DateTime;
use std::collections::HashSet;
use std::str::FromStr;

#[test]
fn parse_links_test() {
    assert_eq!(
        parse_links(
            "[2021-02-03] [2021-02-04]\n\n[2021-02-03]: https://blog.bouzuya.net/2021/02/03/"
        )
        .into_iter()
        .collect::<HashSet<String>>(),
        {
            let mut set = HashSet::new();
            set.insert("2021-02-03".to_owned());
            set.insert("2021-02-04".to_owned());
            set
        }
    );
}

#[test]
fn parse_links_shapes() {
    assert_eq!(parse_links("[2021-13-03]"), vec!["2021-13-03".to_string()]);
    assert!(parse_links("[2021-23-03]").is_empty());
    assert!(parse_links("[2021-02-43]").is_empty());
    assert!(parse_links("2021-02-03").is_empty());
    assert_eq!(
        parse_links("[[2021-02-03]]x[2020-01-01]"),
        vec!["2020-01-01".to_string(), "2021-02-03".to_string()]
    );
    assert_eq!(parse_links("é[2021-02-03]é"), vec!["2021-02-03".to_string()]);
}

#[test]
fn markdown_html() {
    let site = build_site(vec![entry("2021-02-03", None, 1, &[], "# a")]).unwrap();
    assert_eq!(site.daily[0].html, "<h1>a</h1>\n");
}

#[test]
fn split_at_dashes() {
    assert_eq!(split_dash("2021-02-03"), vec!["2021", "02", "03"]);
    assert_eq!(split_dash(""), vec![""]);
    assert_eq!(split_dash("-a-"), vec!["", "a", ""]);
}

fn daily(date: &str, id_title: Option<&str>) -> DailyJson {
    DailyJson {
        data: "markdown".to_string(),
        date: date.to_string(),
        minutes: 5,
        html: "<p>markdown</p>\n".to_string(),
        id_title: id_title.map(|s| s.to_string()),
        pubdate: "2021-02-03T00:00:00+09:00".to_string(),
        tags: vec![],
        title: "TITLE".to_string(),
    }
}

#[test]
fn daily_json_files() {
    assert_eq!(
        daily_json_file_names(&daily("2021-02-03", Some("TITLE"))),
        vec![
            "2021/02/03.json",
            "2021/02/03/index.json",
            "2021/02/03/TITLE.json",
            "2021/02/03/TITLE/index.json"
        ]
    );
    assert_eq!(
        daily_json_file_names(&daily("2021-02-04", None)),
        vec![
            "2021/02/04.json",
            "2021/02/04/index.json",
            "2021/02/04/diary.json",
            "2021/02/04/diary/index.json"
        ]
    );
}

fn entry(date: &str, id_title: Option<&str>, minutes: u64, tags: &[&str], content: &str) -> Entry {
    Entry::new(
        EntryId::new(Date::from_str(date).unwrap(), id_title.map(|s| s.to_string())),
        EntryMeta::new(
            minutes,
            DateTime::from_str("2021-02-03T00:00:00+09:00").unwrap(),
            tags.iter().map(|t| t.to_string()).collect(),
            format!("title of {}", date),
        ),
        content.to_string(),
    )
}

#[test]
fn build_site_orders_and_counts() {
    let entries = vec![
        entry("2021-02-04", None, 6, &["b", "a"], "good bye"),
        entry("2021-02-03", Some("TITLE"), 5, &["b"], "hello [2021-02-04]"),
    ];
    let site = build_site(entries).unwrap();
    let dates: Vec<&str> = site.all.0.iter().map(|i| i.date.as_str()).collect();
    assert_eq!(dates, vec!["2021-02-03", "2021-02-04"]);
    assert_eq!(site.all.0[0].id_title, Some("TITLE".to_string()));
    assert_eq!(site.all.0[0].minutes, 5);
    assert_eq!(site.all.0[0].pubdate, "2021-02-03T00:00:00+09:00");
    assert_eq!(site.all.0[0].title, "title of 2021-02-03");
    assert_eq!(site.daily[0].data, "hello [2021-02-04]");
    assert_eq!(site.daily[0].html, "<p>hello [2021-02-04]</p>\n");
    assert_eq!(site.daily[1].tags, vec!["b".to_string(), "a".to_string()]);
    let tags: Vec<(&str, u32)> = site.tags.0.iter().map(|t| (t.name.as_str(), t.count)).collect();
    assert_eq!(tags, vec![("a", 1), ("b", 2)]);
    assert_eq!(
        site.linked.0,
        vec![("2021-02-04".to_string(), vec!["2021-02-03".to_string()])]
    );
}

#[test]
fn linked_dates_of_entries() {
    let entries = vec![
        entry("2021-02-05", None, 1, &[], "[2021-02-03] and [2021-02-04]"),
        entry("2021-02-04", None, 1, &[], "see [2021-02-03] [2021-02-03]"),
        entry("2021-02-03", None, 1, &[], "no links"),
    ];
    let site = build_site(entries).unwrap();
    assert_eq!(
        site.linked.0,
        vec![
            (
                "2021-02-03".to_string(),
                vec!["2021-02-04".to_string(), "2021-02-05".to_string()]
            ),
            ("2021-02-04".to_string(), vec!["2021-02-05".to_string()]),
        ]
    );
}

#[test]
fn build_site_minutes_out_of_range() {
    let entries = vec![
        entry("2021-02-03", None, 5, &[], ""),
        entry("2021-02-04", None, 4_294_967_296, &[], ""),
    ];
    assert_eq!(build_site(entries).unwrap_err(), SiteError::MinutesOutOfRange);
    let site = build_site(vec![]).unwrap();
    assert!(site.all.0.is_empty() && site.daily.is_empty() && site.tags.0.is_empty());
}
