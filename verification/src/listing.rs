//! What the `list` and `view` commands print of entries: their order, their
//! URL on the blog and their lines of text. The program reads the entries and
//! prints the text.
use crate::date::{day_number, lemma_day_number_order, text2, text4, valid_ymd};
use crate::entry_id::{EntryId, EntryIdModel};
use crate::post::opt_le;
use crate::text::{bytes_le, bytes_le_x, push_str};
use vstd::multiset::Multiset;
use vstd::prelude::*;
use vstd::utf8::encode_utf8;

verus! {

// ---------------------------------------------------------------------------
// Order

/// `a < b` for dates given as (year, month, day).
pub open spec fn ymd_lt(a: (int, int, int), b: (int, int, int)) -> bool {
    a.0 < b.0 || (a.0 == b.0 && (a.1 < b.1 || (a.1 == b.1 && a.2 < b.2)))
}

/// `a <= b` in the order of `EntryId`: by date, then by title id, with no
/// title id first.
pub open spec fn entry_id_le(a: EntryIdModel, b: EntryIdModel) -> bool {
    if a.0 != b.0 {
        ymd_lt(a.0, b.0)
    } else {
        opt_le(a.1, b.1)
    }
}

/// `a` may stand before `b`: ascending, or descending where `descending`.
pub open spec fn in_order(a: EntryIdModel, b: EntryIdModel, descending: bool) -> bool {
    if descending {
        entry_id_le(b, a)
    } else {
        entry_id_le(a, b)
    }
}

/// Each pair stands in order with the next one by its entry id.
pub open spec fn sorted_by_id<T>(s: Seq<(EntryId, T)>, descending: bool) -> bool {
    forall|i: int|
        0 <= i < s.len() - 1 ==> in_order(#[trigger] s[i].0.model(), s[i + 1].0.model(), descending)
}

/// The order of entry ids follows the calendar: of two dates of the
/// calendar, one is before the other exactly when its day number is smaller,
/// and of two entry ids with different dates the one with the earlier date
/// comes first.
pub proof fn lemma_entry_id_order_is_calendar(a: EntryIdModel, b: EntryIdModel)
    requires
        valid_ymd(a.0.0, a.0.1, a.0.2),
        valid_ymd(b.0.0, b.0.1, b.0.2),
    ensures
        ymd_lt(a.0, b.0) <==> day_number(a.0.0, a.0.1, a.0.2) < day_number(b.0.0, b.0.1, b.0.2),
        a.0 != b.0 ==> (entry_id_le(a, b) <==> day_number(a.0.0, a.0.1, a.0.2) < day_number(
            b.0.0,
            b.0.1,
            b.0.2,
        )),
{
    lemma_day_number_order(a.0.0, a.0.1, a.0.2, b.0.0, b.0.1, b.0.2);
}

/// Of two entry ids with one date, the one without a title id comes first,
/// and two title ids are ordered by their UTF-8 bytes, as `String` orders.
pub proof fn lemma_entry_id_order_same_date(a: EntryIdModel, b: EntryIdModel)
    requires
        a.0 == b.0,
    ensures
        a.1 is None ==> entry_id_le(a, b),
        a.1 is Some && b.1 is None ==> !entry_id_le(a, b),
        a.1 is Some && b.1 is Some ==> (entry_id_le(a, b) <==> bytes_le(
            encode_utf8(a.1.unwrap()),
            encode_utf8(b.1.unwrap()),
        )),
{
}

/// A list sorted newest first never has an entry whose date is later than
/// that of the entry before it.
pub proof fn lemma_sorted_newest_first<T>(s: Seq<(EntryId, T)>)
    requires
        sorted_by_id(s, true),
        forall|i: int|
            0 <= i < s.len() ==> valid_ymd(
                (#[trigger] s[i]).0.model().0.0,
                s[i].0.model().0.1,
                s[i].0.model().0.2,
            ),
    ensures
        forall|i: int|
            0 <= i < s.len() - 1 ==> day_number(
                s[i + 1].0.model().0.0,
                s[i + 1].0.model().0.1,
                s[i + 1].0.model().0.2,
            ) <= day_number(
                (#[trigger] s[i]).0.model().0.0,
                s[i].0.model().0.1,
                s[i].0.model().0.2,
            ),
{
    assert forall|i: int| 0 <= i < s.len() - 1 implies day_number(
        s[i + 1].0.model().0.0,
        s[i + 1].0.model().0.1,
        s[i + 1].0.model().0.2,
    ) <= day_number(
        (#[trigger] s[i]).0.model().0.0,
        s[i].0.model().0.1,
        s[i].0.model().0.2,
    ) by {
        assert(in_order(s[i].0.model(), s[i + 1].0.model(), true));
        assert(valid_ymd(s[i + 1].0.model().0.0, s[i + 1].0.model().0.1, s[i + 1].0.model().0.2));
        lemma_entry_id_order_is_calendar(s[i + 1].0.model(), s[i].0.model());
    }
}

proof fn lemma_entry_id_le_total(a: EntryIdModel, b: EntryIdModel)
    ensures
        entry_id_le(a, b) || entry_id_le(b, a),
{
    match (a.1, b.1) {
        (Some(x), Some(y)) => crate::post::lemma_bytes_le_total(encode_utf8(x), encode_utf8(y)),
        _ => {},
    }
}

fn entry_id_le_x(a: &EntryId, b: &EntryId) -> (r: bool)
    ensures
        r == entry_id_le(a.model(), b.model()),
{
    let (da, db) = (a.date(), b.date());
    if da.year() != db.year() {
        return da.year() < db.year();
    }
    if da.month() != db.month() {
        return da.month() < db.month();
    }
    if da.day_of_month() != db.day_of_month() {
        return da.day_of_month() < db.day_of_month();
    }
    match (a.id_title(), b.id_title()) {
        (None, _) => true,
        (Some(_), None) => false,
        (Some(x), Some(y)) => bytes_le_x(x.as_bytes(), y.as_bytes()),
    }
}

fn in_order_x(a: &EntryId, b: &EntryId, descending: bool) -> (r: bool)
    ensures
        r == in_order(a.model(), b.model(), descending),
{
    if descending {
        entry_id_le_x(b, a)
    } else {
        entry_id_le_x(a, b)
    }
}

/// The pairs in the order of their entry ids, by insertion: ascending, or
/// descending where `descending`.
pub fn sort_by_id<T>(items: Vec<(EntryId, T)>, descending: bool) -> (r: Vec<(EntryId, T)>)
    ensures
        r@.to_multiset() == items@.to_multiset(),
        sorted_by_id(r@, descending),
{
    broadcast use vstd::multiset::group_multiset_axioms;
    broadcast use vstd::seq_lib::group_to_multiset_ensures;
    broadcast use vstd::multiset::lemma_multiset_empty_len;

    let mut rest = items;
    let mut r: Vec<(EntryId, T)> = Vec::new();
    let ghost all = rest@.to_multiset();
    assert(r@.to_multiset() =~= Multiset::<(EntryId, T)>::empty());
    while rest.len() > 0
        invariant
            r@.to_multiset().add(rest@.to_multiset()) == all,
            sorted_by_id(r@, descending),
        decreases rest.len(),
    {
        let ghost before_rest = rest@;
        let ghost before_r = r@;
        let p = rest.remove(0);
        proof {
            vstd::seq_lib::to_multiset_remove(before_rest, 0);
        }
        let mut j: usize = 0;
        while j < r.len() && in_order_x(&r[j].0, &p.0, descending)
            invariant
                j <= r.len(),
                r@ == before_r,
                forall|k: int| 0 <= k < j ==> in_order(#[trigger] r@[k].0.model(), p.0.model(), descending),
            decreases r.len() - j,
        {
            j = j + 1;
        }
        proof {
            if j < r.len() {
                lemma_entry_id_le_total(r@[j as int].0.model(), p.0.model());
            }
        }
        let ghost gp = p;
        r.insert(j, p);
        proof {
            assert(r@ == before_r.insert(j as int, gp));
            assert forall|i: int| 0 <= i < r@.len() - 1 implies in_order(
                #[trigger] r@[i].0.model(),
                r@[i + 1].0.model(),
                descending,
            ) by {
                if i < j - 1 {
                    assert(r@[i] == before_r[i] && r@[i + 1] == before_r[i + 1]);
                } else if i == j - 1 {
                    assert(r@[i] == before_r[i]);
                } else if i == j {
                } else {
                    assert(r@[i] == before_r[i - 1] && r@[i + 1] == before_r[i]);
                }
            }
            vstd::seq_lib::to_multiset_insert(before_r, j as int, gp);
            assert(gp == before_rest[0]);
            assert(before_rest.contains(gp));
            vstd::seq_lib::to_multiset_contains(before_rest, gp);
            assert(before_rest.to_multiset() =~= rest@.to_multiset().insert(gp));
            assert(r@.to_multiset().add(rest@.to_multiset()) =~= all);
        }
    }
    assert(rest@.to_multiset() =~= Multiset::<(EntryId, T)>::empty());
    assert(r@.to_multiset() =~= all);
    r
}

// ---------------------------------------------------------------------------
// Text

/// The blog's base URL.
pub open spec fn blog_url() -> Seq<char> {
    seq!['h', 't', 't', 'p', 's', ':', '/', '/'] + seq![
        'b',
        'l',
        'o',
        'g',
        '.',
        'b',
        'o',
        'u',
        'z',
        'u',
        'y',
        'a',
        '.',
        'n',
        'e',
        't',
        '/',
    ]
}

/// The URL of the entry of a date: `https://blog.bouzuya.net/YYYY/MM/DD/`.
pub open spec fn entry_url_text(ymd: (int, int, int)) -> Seq<char> {
    blog_url() + text4(ymd.0) + seq!['/'] + text2(ymd.1) + seq!['/'] + text2(ymd.2) + seq!['/']
}

/// How a date is written: `YYYY-MM-DD`.
pub open spec fn ymd_text(ymd: (int, int, int)) -> Seq<char> {
    crate::date::date_text(ymd.0, ymd.1, ymd.2)
}

/// The URL of an entry on the blog.
pub fn entry_url(entry_id: &EntryId) -> (r: String)
    ensures
        r@ == entry_url_text(entry_id.model().0),
{
    let text = entry_id.date().to_string();
    let ghost d = entry_id.model().0;
    let year = text.as_str().substring_char(0, 4);
    let month = text.as_str().substring_char(5, 7);
    let day = text.as_str().substring_char(8, 10);
    let mut r = String::new();
    let base = "https://blog.bouzuya.net/";
    proof {
        reveal_strlit("https://blog.bouzuya.net/");
        reveal_strlit("/");
        assert(year@ =~= text4(d.0));
        assert(month@ =~= text2(d.1));
        assert(day@ =~= text2(d.2));
    }
    push_str(&mut r, base);
    push_str(&mut r, year);
    push_str(&mut r, "/");
    push_str(&mut r, month);
    push_str(&mut r, "/");
    push_str(&mut r, day);
    push_str(&mut r, "/");
    assert(base@ =~= blog_url());
    r
}

/// The locations of `sitemap.xml`: the URL of each entry, in order.
pub fn sitemap_urls(entry_ids: &Vec<EntryId>) -> (r: Vec<String>)
    ensures
        r@.len() == entry_ids@.len(),
        forall|i: int| 0 <= i < r@.len() ==> #[trigger] r@[i]@ == entry_url_text(entry_ids@[i].model().0),
{
    let mut r: Vec<String> = Vec::new();
    let mut i: usize = 0;
    while i < entry_ids.len()
        invariant
            i <= entry_ids@.len(),
            r@.len() == i,
            forall|k: int| 0 <= k < i ==> #[trigger] r@[k]@ == entry_url_text(entry_ids@[k].model().0),
        decreases entry_ids.len() - i,
    {
        r.push(entry_url(&entry_ids[i]));
        i = i + 1;
    }
    r
}

/// A line of `bbn list`: `YYYY-MM-DD TITLE <URL>`, or as JSON
/// `{"date":"YYYY-MM-DD","title":"TITLE","url":"URL"}` (the title as it is).
pub open spec fn list_line(id: EntryIdModel, title: Seq<char>, json: bool) -> Seq<char> {
    if json {
        seq!['{', '"', 'd', 'a', 't', 'e', '"', ':', '"'] + ymd_text(id.0) + seq![
            '"',
            ',',
            '"',
            't',
            'i',
            't',
            'l',
            'e',
            '"',
            ':',
            '"',
        ] + title + seq!['"', ',', '"', 'u', 'r', 'l', '"', ':', '"'] + entry_url_text(id.0)
            + seq!['"', '}']
    } else {
        ymd_text(id.0) + seq![' '] + title + seq![' ', '<'] + entry_url_text(id.0) + seq!['>']
    }
}

/// The lines joined: by `,` inside `[` and `]` for JSON, else by new lines.
pub open spec fn join_lines(lines: Seq<Seq<char>>, json: bool) -> Seq<char>
    decreases lines.len(),
{
    if lines.len() == 0 {
        Seq::empty()
    } else if lines.len() == 1 {
        lines[0]
    } else {
        join_lines(lines.drop_last(), json) + if json {
            seq![',']
        } else {
            seq!['\n']
        } + lines.last()
    }
}

/// What `bbn list` prints of entries given in order.
pub open spec fn list_text(entries: Seq<(EntryId, String)>, json: bool) -> Seq<char> {
    let lines = entries.map_values(|e: (EntryId, String)| list_line(e.0.model(), e.1@, json));
    if json {
        seq!['['] + join_lines(lines, json) + seq![']']
    } else {
        join_lines(lines, json)
    }
}

fn push_list_line(s: &mut String, id: &EntryId, title: &str, json: bool)
    ensures
        final(s)@ == old(s)@ + list_line(id.model(), title@, json),
{
    let ghost start = s@;
    let date = id.date().to_string();
    let url = entry_url(id);
    if json {
        proof {
            reveal_strlit("{\"date\":\"");
            reveal_strlit("\",\"title\":\"");
            reveal_strlit("\",\"url\":\"");
            reveal_strlit("\"}");
        }
        push_str(s, "{\"date\":\"");
        push_str(s, date.as_str());
        push_str(s, "\",\"title\":\"");
        push_str(s, title);
        push_str(s, "\",\"url\":\"");
        push_str(s, url.as_str());
        push_str(s, "\"}");
    } else {
        proof {
            reveal_strlit(" ");
            reveal_strlit(" <");
            reveal_strlit(">");
        }
        push_str(s, date.as_str());
        push_str(s, " ");
        push_str(s, title);
        push_str(s, " <");
        push_str(s, url.as_str());
        push_str(s, ">");
    }
    assert(s@ =~= start + list_line(id.model(), title@, json));
}

/// What `bbn list` prints: the entries, each given with its title, newest
/// first.
pub fn list_output(entries: Vec<(EntryId, String)>, json: bool) -> (r: String)
    ensures
        exists|s: Seq<(EntryId, String)>|
            s.to_multiset() == entries@.to_multiset() && sorted_by_id(s, true) && r@ == list_text(
                s,
                json,
            ),
{
    let sorted = sort_by_id(entries, true);
    let ghost lines = sorted@.map_values(
        |e: (EntryId, String)| list_line(e.0.model(), e.1@, json),
    );
    let mut r = String::new();
    if json {
        proof {
            reveal_strlit("[");
        }
        push_str(&mut r, "[");
    }
    let ghost prefix = r@;
    let mut i: usize = 0;
    while i < sorted.len()
        invariant
            i <= sorted@.len(),
            lines == sorted@.map_values(|e: (EntryId, String)| list_line(e.0.model(), e.1@, json)),
            r@ == prefix + join_lines(lines.take(i as int), json),
        decreases sorted.len() - i,
    {
        let ghost before = r@;
        if i > 0 {
            if json {
                proof {
                    reveal_strlit(",");
                }
                push_str(&mut r, ",");
            } else {
                proof {
                    reveal_strlit("\n");
                }
                push_str(&mut r, "\n");
            }
        }
        push_list_line(&mut r, &sorted[i].0, sorted[i].1.as_str(), json);
        proof {
            let t = lines.take(i + 1);
            assert(t.drop_last() =~= lines.take(i as int));
            assert(t.last() == lines[i as int]);
            if i == 0 {
                assert(lines.take(0) =~= Seq::<Seq<char>>::empty());
                assert(r@ =~= prefix + join_lines(t, json));
            } else {
                assert(r@ =~= prefix + join_lines(t, json));
            }
        }
        i = i + 1;
    }
    assert(lines.take(sorted@.len() as int) =~= lines);
    if json {
        proof {
            reveal_strlit("]");
        }
        push_str(&mut r, "]");
    }
    assert(r@ =~= list_text(sorted@, json));
    r
}

// ---------------------------------------------------------------------------
// The `view` command

/// How `bbn view` prints an entry.
#[derive(Clone, Copy, Debug, Eq, PartialEq)]
pub enum ViewFormat {
    /// The date, title id, title and bare URL, then the content: the form
    /// with no flag.
    TextSummary,
    /// The date, title id, title and URL in angle brackets.
    TextMeta,
    /// The Markdown content.
    TextContent,
    /// The line of `TextMeta`, then the content.
    TextContentMeta,
    /// The meta data and URL as a JSON object.
    JsonMeta,
    /// The content as a JSON string.
    JsonContent,
    /// The content, meta data and URL as a JSON object.
    JsonContentMeta,
}

/// The format that the flags `--content`, `--meta` and `--json` choose: with
/// no flag, the summary; with `--json` alone, the content.
pub fn view_format(content: bool, meta: bool, json: bool) -> (r: ViewFormat)
    ensures
        r == (if json {
            if meta && content {
                ViewFormat::JsonContentMeta
            } else if meta {
                ViewFormat::JsonMeta
            } else {
                ViewFormat::JsonContent
            }
        } else {
            if meta && content {
                ViewFormat::TextContentMeta
            } else if meta {
                ViewFormat::TextMeta
            } else if content {
                ViewFormat::TextContent
            } else {
                ViewFormat::TextSummary
            }
        }),
{
    match (content, meta, json) {
        (false, true, false) => ViewFormat::TextMeta,
        (false, false, false) => ViewFormat::TextSummary,
        (true, false, false) => ViewFormat::TextContent,
        (true, true, false) => ViewFormat::TextContentMeta,
        (false, true, true) => ViewFormat::JsonMeta,
        (false, false, true) | (true, false, true) => ViewFormat::JsonContent,
        (true, true, true) => ViewFormat::JsonContentMeta,
    }
}

/// The meta line of `bbn view`: `YYYY-MM-DD[ ID_TITLE] TITLE <URL>`.
pub open spec fn meta_line(id: EntryIdModel, title: Seq<char>) -> Seq<char> {
    ymd_text(id.0) + match id.1 {
        Some(t) => seq![' '] + t,
        None => Seq::empty(),
    } + seq![' '] + title + seq![' ', '<'] + entry_url_text(id.0) + seq!['>']
}

/// The meta line of an entry.
pub fn view_meta_line(entry_id: &EntryId, title: &str) -> (r: String)
    ensures
        r@ == meta_line(entry_id.model(), title@),
{
    let mut r = entry_id.date().to_string();
    let url = entry_url(entry_id);
    proof {
        reveal_strlit(" ");
        reveal_strlit(" <");
        reveal_strlit(">");
    }
    match entry_id.id_title() {
        Some(t) => {
            push_str(&mut r, " ");
            push_str(&mut r, t);
        },
        None => {},
    }
    push_str(&mut r, " ");
    push_str(&mut r, title);
    push_str(&mut r, " <");
    push_str(&mut r, url.as_str());
    push_str(&mut r, ">");
    assert(r@ =~= meta_line(entry_id.model(), title@));
    r
}

/// The summary line of `bbn view`: `YYYY-MM-DD[ ID_TITLE] TITLE URL`.
pub open spec fn summary_line(id: EntryIdModel, title: Seq<char>) -> Seq<char> {
    ymd_text(id.0) + match id.1 {
        Some(t) => seq![' '] + t,
        None => Seq::empty(),
    } + seq![' '] + title + seq![' '] + entry_url_text(id.0)
}

/// The summary line of an entry.
pub fn view_summary_line(entry_id: &EntryId, title: &str) -> (r: String)
    ensures
        r@ == summary_line(entry_id.model(), title@),
{
    let mut r = entry_id.date().to_string();
    let url = entry_url(entry_id);
    proof {
        reveal_strlit(" ");
    }
    match entry_id.id_title() {
        Some(t) => {
            push_str(&mut r, " ");
            push_str(&mut r, t);
        },
        None => {},
    }
    push_str(&mut r, " ");
    push_str(&mut r, title);
    push_str(&mut r, " ");
    push_str(&mut r, url.as_str());
    assert(r@ =~= summary_line(entry_id.model(), title@));
    r
}

/// The text that `bbn view` prints for a text format; `None` for a JSON one.
pub fn view_text(format: ViewFormat, entry_id: &EntryId, title: &str, content: &str) -> (r: Option<
    String,
>)
    ensures
        match format {
            ViewFormat::TextSummary => r matches Some(t) && t@ == summary_line(
                entry_id.model(),
                title@,
            ) + seq!['\n'] + content@,
            ViewFormat::TextMeta => r matches Some(t) && t@ == meta_line(entry_id.model(), title@),
            ViewFormat::TextContent => r matches Some(t) && t@ == content@,
            ViewFormat::TextContentMeta => r matches Some(t) && t@ == meta_line(
                entry_id.model(),
                title@,
            ) + seq!['\n'] + content@,
            _ => r is None,
        },
{
    match format {
        ViewFormat::TextSummary => {
            let mut r = view_summary_line(entry_id, title);
            proof {
                reveal_strlit("\n");
            }
            push_str(&mut r, "\n");
            push_str(&mut r, content);
            Some(r)
        },
        ViewFormat::TextMeta => Some(view_meta_line(entry_id, title)),
        ViewFormat::TextContent => Some(content.to_owned()),
        ViewFormat::TextContentMeta => {
            let mut r = view_meta_line(entry_id, title);
            proof {
                reveal_strlit("\n");
            }
            push_str(&mut r, "\n");
            push_str(&mut r, content);
            Some(r)
        },
        _ => None,
    }
}

} // verus!
