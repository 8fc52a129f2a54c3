use bbn::content_diff::DiffKind;
use bbn::date::Date;
use bbn::entry::{Entry, EntryMeta};
use bbn::entry_id::EntryId;
use bbn::hatena_blog::{
    HatenaBlogEntryId, HatenaBlogListEntriesResponse, Indexing, IndexingId, MemberRequestId,
};
use bbn::hatena_sync::{
    compare_contents, diff_action, diff_label, entry_id_to_update, member_request_result,
    member_request_targets,
    merge_entry, same_entry_id, upload_action, upload_prompt, DiffAction, DiffStats,
    HatenaBlogEntry, UploadAction,
};
use bbn::timestamp::{DateTime, Timestamp};
use std::str::FromStr;

#[test]
fn body_conversion_test() {
    let body = "response body";
    assert_eq!(
        HatenaBlogListEntriesResponse::from(body.to_string()).body(),
        body
    );
}

fn id(s: &str) -> HatenaBlogEntryId {
    HatenaBlogEntryId::from(s.to_string())
}

#[test]
fn hatena_blog_entry_ids() {
    let entries = vec![
        (id("c"), Timestamp(30)),
        (id("b"), Timestamp(20)),
        (id("a"), Timestamp(10)),
    ];
    let all = HatenaBlogListEntriesResponse::hatena_blog_entry_ids(&entries, None);
    assert_eq!(all, vec![id("c"), id("b"), id("a")]);
    let since = HatenaBlogListEntriesResponse::hatena_blog_entry_ids(&entries, Some(Timestamp(20)));
    assert_eq!(since, vec![id("c"), id("b")]);
    let none = HatenaBlogListEntriesResponse::hatena_blog_entry_ids(&entries, Some(Timestamp(31)));
    assert!(none.is_empty());
}

#[test]
fn next_page() {
    let published = vec![Timestamp(30), Timestamp(20)];
    let next = Some("page2".to_string());
    assert_eq!(
        HatenaBlogListEntriesResponse::next_page(next.clone(), &published, None),
        Some("page2".to_string())
    );
    assert_eq!(
        HatenaBlogListEntriesResponse::next_page(next.clone(), &published, Some(Timestamp(20))),
        Some("page2".to_string())
    );
    assert_eq!(
        HatenaBlogListEntriesResponse::next_page(next, &published, Some(Timestamp(21))),
        None
    );
    assert_eq!(
        HatenaBlogListEntriesResponse::next_page(None, &published, None),
        None
    );
}

#[test]
fn member_request_id_i64_conversion_test() {
    let test = |i: i64| assert_eq!(i64::from(MemberRequestId::from(i)), i);
    test(-1);
    test(0);
    test(1);
}

#[test]
fn indexing_test() {
    let id = IndexingId::from(1_i64);
    let at = Timestamp::now().unwrap();
    let indexing = Indexing::new(id, at);
    assert_eq!(indexing.id(), id);
    assert_eq!(indexing.at(), at);
}

#[test]
fn indexing_id_i64_conversion_test() {
    assert_eq!(i64::from(IndexingId::from(-1_i64)), -1_i64);
    assert_eq!(i64::from(IndexingId::from(0_i64)), 0_i64);
    assert_eq!(i64::from(IndexingId::from(1_i64)), 1_i64);
}

#[test]
fn entry_id_conversion_test() {
    let entry_id = "ABC".to_string();
    assert_eq!(
        String::from(&HatenaBlogEntryId::from(entry_id.clone())),
        entry_id
    );
}

fn hatena_entry(content: &str, title: &str, updated: &str) -> HatenaBlogEntry {
    let at = DateTime::from_str(updated).unwrap();
    HatenaBlogEntry {
        author_name: "author".to_string(),
        categories: vec![],
        content: content.to_string(),
        draft: false,
        edit_url: "https://example.com/edit".to_string(),
        edited: at,
        id: id("ID1"),
        published: at,
        title: title.to_string(),
        updated: at,
        url: "https://example.com/".to_string(),
    }
}

#[test]
fn entry_conversion_test() {
    let entry_id = EntryId::new(Date::from_str("2021-02-03").unwrap(), None);
    let remote = hatena_entry("remote content", "remote title", "2021-02-03T16:17:18+09:00");
    let created = merge_entry(entry_id.clone(), None, remote.clone());
    assert_eq!(created.id(), &entry_id);
    assert_eq!(created.content(), "remote content");
    assert_eq!(created.meta().minutes, 15);
    assert!(created.meta().tags.is_empty());
    assert_eq!(created.meta().title, "remote title");
    assert_eq!(
        created.meta().pubdate,
        DateTime::from_str("2021-02-03T16:17:18+09:00").unwrap()
    );

    let local_id = EntryId::new(Date::from_str("2021-02-03").unwrap(), Some("x".to_string()));
    let local = Entry::new(
        local_id.clone(),
        EntryMeta::new(
            7,
            DateTime::from_str("2021-02-01T00:00:00Z").unwrap(),
            vec!["tag1".to_string()],
            "local title".to_string(),
        ),
        "local content".to_string(),
    );
    let merged = merge_entry(entry_id, Some(local), remote);
    assert_eq!(merged.id(), &local_id);
    assert_eq!(merged.content(), "remote content");
    assert_eq!(merged.meta().minutes, 7);
    assert_eq!(merged.meta().tags, vec!["tag1".to_string()]);
    assert_eq!(merged.meta().title, "remote title");
}

#[test]
fn compare_and_label() {
    assert_eq!(compare_contents("a", None), None);
    assert_eq!(compare_contents("a", Some("a")), Some(true));
    assert_eq!(compare_contents("a", Some("b")), Some(false));
    assert_eq!(diff_label(Some(true)), "eq");
    assert_eq!(diff_label(Some(false)), "ne");
    assert_eq!(diff_label(None), "no");
}

#[test]
fn diff_stats_counts() {
    let mut stats = DiffStats::new();
    stats.record(false, None);
    stats.record(false, Some(true));
    stats.record(false, Some(true));
    stats.record(false, Some(false));
    stats.record(true, Some(false));
    assert_eq!(
        stats,
        DiffStats {
            no: 1,
            eq: 2,
            ne: 1,
            ignored: 1
        }
    );
}

#[test]
fn upload_creates_or_updates() {
    assert_eq!(upload_action(None), UploadAction::Create);
    assert_eq!(upload_action(Some(id("E1"))), UploadAction::Update(id("E1")));
}

#[test]
fn member_request_targets_sorted_distinct() {
    let pages = vec![
        vec![(id("b"), Timestamp(40)), (id("a"), Timestamp(30))],
        vec![(id("a"), Timestamp(25)), (id("c"), Timestamp(5)), (id("d"), Timestamp(50))],
    ];
    assert_eq!(
        member_request_targets(&pages, Some(Timestamp(20))),
        vec!["a".to_string(), "b".to_string()]
    );
    assert_eq!(
        member_request_targets(&pages, None),
        vec!["a".to_string(), "b".to_string(), "c".to_string(), "d".to_string()]
    );
    let _ = DiffKind::Both;
}

#[test]
fn entry_to_update() {
    let date = Date::from_str("2021-02-03").unwrap();
    let found = EntryId::from_str("2021-02-03-x").unwrap();
    assert_eq!(entry_id_to_update(Some(found.clone()), date, &None), Some(found.clone()));
    assert_eq!(
        entry_id_to_update(None, date, &None),
        Some(EntryId::new(date, None))
    );
    assert_eq!(
        entry_id_to_update(Some(found.clone()), date, &Some(found.clone())),
        Some(found.clone())
    );
    assert_eq!(
        entry_id_to_update(None, date, &Some(found.clone())),
        None
    );
    assert!(same_entry_id(&found, &EntryId::from_str("2021-02-03-x").unwrap()));
    assert!(!same_entry_id(&found, &EntryId::from_str("2021-02-03").unwrap()));
}

#[test]
fn diff_and_upload_prompts() {
    assert_eq!(diff_action(false, Some(true)), DiffAction::Nothing);
    assert_eq!(diff_action(false, Some(false)), DiffAction::Label);
    assert_eq!(diff_action(false, None), DiffAction::Label);
    assert_eq!(diff_action(true, Some(false)), DiffAction::ShowDiff);
    assert_eq!(diff_action(true, None), DiffAction::Nothing);
    assert_eq!(diff_action(true, Some(true)), DiffAction::Nothing);

    assert!(upload_prompt("same", Some("same")).is_none());
    assert_eq!(upload_prompt("new", None), Some(("no", None)));
    let (label, lines) = upload_prompt("a\nB", Some("a\nb")).unwrap();
    assert_eq!(label, "ne");
    let texts: Vec<String> = lines
        .unwrap()
        .iter()
        .map(bbn::content_diff::format_diff_line)
        .collect();
    assert_eq!(texts, vec![" a", "-b", "+B"]);
}

#[test]
fn member_request_results() {
    // the entry was deleted: nothing recorded, go on
    assert_eq!(member_request_result(false, None), (None, false));
    assert_eq!(member_request_result(false, Some(7)), (None, false));
    // the response was stored: its id recorded, go on
    assert_eq!(member_request_result(true, Some(7)), (Some(7), false));
    // storing failed: nothing recorded, stop
    assert_eq!(member_request_result(true, None), (None, true));
}
