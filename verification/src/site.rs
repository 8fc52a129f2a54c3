//! The JSON files that `bbn json` writes for the blog's site: `posts.json`
//! (all entries), one daily file per entry with its HTML, and `tags.json`
//! (each tag with its count); and the links between entries that a Markdown
//! text makes. The program reads the entries and writes the files.
use crate::date::{text2, text4};
use crate::entry::{Entry, EntryMeta};
use crate::entry_id::{opt_string_view, EntryId, EntryIdModel};
use crate::json_grammar::is_digit;
use crate::listing::{sort_by_id, sorted_by_id, ymd_text};
use crate::names::{count_names, count_names_of, occurrences, sorted_names, strictly_sorted};
use crate::post::views;
use crate::text::{push_char, push_str, to_chars};
use crate::timestamp::rfc3339_text;
use vstd::prelude::*;

verus! {

/// `posts.json`: every entry.
#[derive(Debug)]
pub struct AllJson(pub Vec<AllJsonItem>);

/// An entry of `posts.json`.
#[derive(Debug)]
pub struct AllJsonItem {
    /// `YYYY-MM-DD`.
    pub date: String,
    /// The title id; not written to the file.
    pub id_title: Option<String>,
    pub minutes: u32,
    /// RFC 3339.
    pub pubdate: String,
    pub tags: Vec<String>,
    pub title: String,
}

/// The daily file of an entry.
#[derive(Debug)]
pub struct DailyJson {
    /// The Markdown content.
    pub data: String,
    /// `YYYY-MM-DD`.
    pub date: String,
    pub minutes: u32,
    /// The content as HTML.
    pub html: String,
    /// The title id; not written to the file.
    pub id_title: Option<String>,
    /// RFC 3339.
    pub pubdate: String,
    pub tags: Vec<String>,
    pub title: String,
}

/// `tags.json`: each tag with the number of entries that have it.
#[derive(Debug)]
pub struct TagsJson(pub Vec<TagsJsonItem>);

/// A tag of `tags.json`.
#[derive(Debug)]
pub struct TagsJsonItem {
    pub name: String,
    pub count: u32,
}

/// The three files' contents.
#[derive(Debug)]
pub struct Site {
    pub all: AllJson,
    pub daily: Vec<DailyJson>,
    pub tags: TagsJson,
    pub linked: LinkedJson,
}

/// `linked.json`: for each date that entries link to, the dates of the
/// entries that link to it.
#[derive(Debug)]
pub struct LinkedJson(pub Vec<(String, Vec<String>)>);

/// Why the site could not be made.
#[derive(Clone, Copy, Debug, Eq, PartialEq)]
pub enum SiteError {
    /// An entry's minutes do not fit in a `u32`.
    MinutesOutOfRange,
}

// ---------------------------------------------------------------------------
// Markdown

/// The HTML that pulldown-cmark makes of a Markdown text.
pub uninterp spec fn html_of(markdown: Seq<char>) -> Seq<char>;

/// `pulldown_cmark::html::push_html` on `Parser::new(markdown)`, into an empty
/// string. The contract names the result and says nothing more of it.
#[verifier::external_body]
pub(crate) fn markdown_to_html(markdown: &str) -> (r: String)
    ensures
        r@ == html_of(markdown@),
{
    let mut html_output = String::new();
    pulldown_cmark::html::push_html(&mut html_output, pulldown_cmark::Parser::new(markdown));
    html_output
}

// ---------------------------------------------------------------------------
// Links

/// The pattern of a link to an entry: a date in square brackets.
pub open spec fn link_pattern() -> Seq<char> {
    seq!['\\', '[', '('] + seq!['[', '0', '-', '9', ']', '{', '4', '}', '-'] + seq![
        '[',
        '0',
        '-',
        '1',
        ']',
        '[',
        '0',
        '-',
        '9',
        ']',
        '-',
    ] + seq!['[', '0', '-', '3', ']', '[', '0', '-', '9', ']'] + seq![')', '\\', ']']
}

/// A link `[YYYY-MM-DD]` starts at `p`: twelve characters, the month's first
/// digit `0` or `1` and the day's first digit `0` to `3`.
pub open spec fn link_at(s: Seq<char>, p: int) -> bool {
    &&& 0 <= p && p + 12 <= s.len()
    &&& s[p] == '['
    &&& is_digit(s[p + 1]) && is_digit(s[p + 2]) && is_digit(s[p + 3]) && is_digit(s[p + 4])
    &&& s[p + 5] == '-'
    &&& '0' <= s[p + 6] <= '1' && is_digit(s[p + 7])
    &&& s[p + 8] == '-'
    &&& '0' <= s[p + 9] <= '3' && is_digit(s[p + 10])
    &&& s[p + 11] == ']'
}

/// The dates of the links from `p` on, left to right, none overlapping:
/// where one is found the search goes on after it.
pub open spec fn links_from(s: Seq<char>, p: int) -> Seq<Seq<char>>
    decreases s.len() - p,
{
    if p < 0 || p + 12 > s.len() {
        Seq::empty()
    } else if link_at(s, p) {
        seq![s.subrange(p + 1, p + 11)] + links_from(s, p + 12)
    } else {
        links_from(s, p + 1)
    }
}

/// `Regex::new(pattern)` and `captures_iter(text)`, each capture's first group
/// as a `String`. For the link pattern the regex crate finds the leftmost
/// match, then searches on after it; all its matches are twelve ASCII
/// characters long, so the matches are those of `links_from`.
#[verifier::external_body]
fn first_groups(pattern: &str, text: &str) -> (r: Vec<String>)
    requires
        pattern@ == link_pattern(),
    ensures
        views(r@) == links_from(text@, 0),
{
    let regex = regex::Regex::new(pattern).unwrap();
    regex.captures_iter(text).map(|captures| captures[1].to_owned()).collect()
}

/// The dates of the entries that a Markdown text links to, `[YYYY-MM-DD]`,
/// each once, in ascending order.
pub fn parse_links(markdown: &str) -> (r: Vec<String>)
    ensures
        strictly_sorted(views(r@)),
        forall|x: Seq<char>| views(r@).contains(x) <==> links_from(markdown@, 0).contains(x),
{
    let pattern = "\\[([0-9]{4}-[0-1][0-9]-[0-3][0-9])\\]";
    proof {
        reveal_strlit("\\[([0-9]{4}-[0-1][0-9]-[0-3][0-9])\\]");
        assert(pattern@ =~= link_pattern());
    }
    let links = first_groups(pattern, markdown);
    sorted_names(&links)
}

// ---------------------------------------------------------------------------
// Daily file names

/// A text split at each `-`.
pub open spec fn dash_fields(s: Seq<char>) -> Seq<Seq<char>>
    decreases s.len(),
{
    if s.len() == 0 {
        seq![Seq::empty()]
    } else if s.last() == '-' {
        dash_fields(s.drop_last()).push(Seq::empty())
    } else {
        let f = dash_fields(s.drop_last());
        f.update(f.len() - 1, f.last().push(s.last()))
    }
}

proof fn lemma_dash_fields_len(s: Seq<char>)
    ensures
        dash_fields(s).len() >= 1,
    decreases s.len(),
{
    if s.len() > 0 {
        lemma_dash_fields_len(s.drop_last());
    }
}

/// Splits a text at each `-` (`str::split('-')`).
pub fn split_dash(s: &str) -> (r: Vec<String>)
    ensures
        views(r@) == dash_fields(s@),
{
    let cs = to_chars(s);
    let mut r: Vec<String> = Vec::new();
    r.push(String::new());
    let mut i: usize = 0;
    assert(s@.take(0) =~= Seq::<char>::empty());
    assert(views(r@) =~= dash_fields(s@.take(0)));
    while i < cs.len()
        invariant
            i <= cs@.len(),
            cs@ == s@,
            views(r@) == dash_fields(s@.take(i as int)),
        decreases cs.len() - i,
    {
        let ghost t = s@.take(i + 1);
        proof {
            assert(t.drop_last() =~= s@.take(i as int));
            assert(t.last() == cs@[i as int]);
            lemma_dash_fields_len(s@.take(i as int));
        }
        if cs[i] == '-' {
            r.push(String::new());
            assert(views(r@) =~= dash_fields(t));
        } else {
            let last = r.len() - 1;
            let mut field = r.remove(last);
            push_char(&mut field, cs[i]);
            r.push(field);
            assert(views(r@) =~= dash_fields(t));
        }
        i = i + 1;
    }
    assert(s@.take(cs@.len() as int) =~= s@);
    r
}

/// `diary` where an entry has no title id.
pub open spec fn diary() -> Seq<char> {
    seq!['d', 'i', 'a', 'r', 'y']
}

/// The four files of a daily JSON under the output directory, from the three
/// first `-` fields of its date (`YYYY`, `MM`, `DD`) and its title id:
/// `YYYY/MM/DD.json`, `YYYY/MM/DD/index.json`, `YYYY/MM/DD/ID.json` and
/// `YYYY/MM/DD/ID/index.json`.
pub open spec fn daily_json_paths(date: Seq<char>, id_title: Option<Seq<char>>) -> Seq<Seq<char>> {
    let f = dash_fields(date);
    let dir = f[0] + seq!['/'] + f[1] + seq!['/'] + f[2];
    let id = match id_title {
        Some(t) => t,
        None => diary(),
    };
    let json = seq!['.', 'j', 's', 'o', 'n'];
    let index = seq!['/', 'i', 'n', 'd', 'e', 'x'] + json;
    seq![dir + json, dir + index, dir + seq!['/'] + id + json, dir + seq!['/'] + id + index]
}

/// The files that the daily JSON of an entry is written to.
pub fn daily_json_file_names(daily_json: &DailyJson) -> (r: Vec<String>)
    requires
        dash_fields(daily_json.date@).len() >= 3,
    ensures
        views(r@) == daily_json_paths(daily_json.date@, opt_string_view(daily_json.id_title)),
{
    let fields = split_dash(daily_json.date.as_str());
    let default_id = "diary";
    proof {
        reveal_strlit("diary");
        reveal_strlit("/");
        reveal_strlit(".json");
        reveal_strlit("/index.json");
        assert(views(fields@)[0] == fields@[0]@);
        assert(views(fields@)[1] == fields@[1]@);
        assert(views(fields@)[2] == fields@[2]@);
    }
    let id = match &daily_json.id_title {
        Some(t) => t.as_str(),
        None => default_id,
    };
    let mut dir = fields[0].clone();
    push_str(&mut dir, "/");
    push_str(&mut dir, fields[1].as_str());
    push_str(&mut dir, "/");
    push_str(&mut dir, fields[2].as_str());
    let mut a = dir.clone();
    push_str(&mut a, ".json");
    let mut b = dir.clone();
    push_str(&mut b, "/index.json");
    let mut c = dir.clone();
    push_str(&mut c, "/");
    push_str(&mut c, id);
    push_str(&mut c, ".json");
    let mut d = dir.clone();
    push_str(&mut d, "/");
    push_str(&mut d, id);
    push_str(&mut d, "/index.json");
    let ghost f = dash_fields(daily_json.date@);
    let ghost gdir = f[0] + seq!['/'] + f[1] + seq!['/'] + f[2];
    let ghost gid = match opt_string_view(daily_json.id_title) {
        Some(t) => t,
        None => diary(),
    };
    assert(dir@ =~= gdir);
    assert(id@ == gid);
    let ghost (ga, gb, gc, gd) = (a@, b@, c@, d@);
    let mut r: Vec<String> = Vec::new();
    r.push(a);
    r.push(b);
    r.push(c);
    r.push(d);
    assert(views(r@) =~= seq![ga, gb, gc, gd]);
    assert(ga =~= gdir + seq!['.', 'j', 's', 'o', 'n']);
    assert(gb =~= gdir + seq!['/', 'i', 'n', 'd', 'e', 'x'] + seq!['.', 'j', 's', 'o', 'n']);
    assert(gc =~= gdir + seq!['/'] + gid + seq!['.', 'j', 's', 'o', 'n']);
    assert(gd =~= gdir + seq!['/'] + gid + seq!['/', 'i', 'n', 'd', 'e', 'x'] + seq![
        '.',
        'j',
        's',
        'o',
        'n',
    ]);
    assert(views(r@) =~~= daily_json_paths(daily_json.date@, opt_string_view(daily_json.id_title)));
    r
}

// ---------------------------------------------------------------------------
// The files

/// A copy of a list of names.
pub fn clone_names(v: &Vec<String>) -> (r: Vec<String>)
    ensures
        views(r@) == views(v@),
{
    let mut r: Vec<String> = Vec::new();
    let mut i: usize = 0;
    while i < v.len()
        invariant
            i <= v@.len(),
            views(r@) == views(v@).take(i as int),
        decreases v.len() - i,
    {
        let ghost before = r@;
        let c = v[i].clone();
        assert(c@ == v@[i as int]@);
        r.push(c);
        assert(r@ == before.push(c));
        assert(views(r@) =~= views(before).push(c@));
        assert(views(v@).take(i + 1) =~= views(v@).take(i as int).push(v@[i as int]@));
        i = i + 1;
    }
    assert(views(v@).take(v@.len() as int) =~= views(v@));
    r
}

/// The date-time of meta data as written in the files.
pub open spec fn pubdate_text(meta: EntryMeta) -> Seq<char> {
    rfc3339_text(meta.pubdate.parts().0, meta.pubdate.parts().1)
}

/// An item of `posts.json` stands for an entry.
pub open spec fn all_item_of(item: AllJsonItem, id: EntryIdModel, meta: EntryMeta) -> bool {
    &&& item.date@ == ymd_text(id.0)
    &&& opt_string_view(item.id_title) == id.1
    &&& item.minutes == meta.minutes
    &&& item.pubdate@ == pubdate_text(meta)
    &&& views(item.tags@) == views(meta.tags@)
    &&& item.title@ == meta.title@
}

/// A daily JSON stands for an entry and its content.
pub open spec fn daily_of(
    daily: DailyJson,
    id: EntryIdModel,
    meta: EntryMeta,
    content: Seq<char>,
) -> bool {
    &&& daily.data@ == content
    &&& daily.date@ == ymd_text(id.0)
    &&& daily.minutes == meta.minutes
    &&& daily.html@ == html_of(content)
    &&& opt_string_view(daily.id_title) == id.1
    &&& daily.pubdate@ == pubdate_text(meta)
    &&& views(daily.tags@) == views(meta.tags@)
    &&& daily.title@ == meta.title@
}

/// The tags of entries, one after another.
pub open spec fn all_tags(s: Seq<(EntryId, (EntryMeta, String))>) -> Seq<Seq<char>>
    decreases s.len(),
{
    if s.len() == 0 {
        Seq::empty()
    } else {
        all_tags(s.drop_last()) + views(s.last().1.0.tags@)
    }
}

/// The entries as (id, (meta, content)) pairs.
pub open spec fn entry_pairs(s: Seq<Entry>) -> Seq<(EntryId, (EntryMeta, String))> {
    s.map_values(|e: Entry| (e.parts().0, (e.parts().1, e.parts().2)))
}

/// The links of an entry's content.
pub open spec fn links_of(content: Seq<char>) -> Seq<Seq<char>> {
    links_from(content, 0)
}

/// The dates of the entries, in order, whose content links to `x`.
pub open spec fn linking_dates(s: Seq<(EntryId, (EntryMeta, String))>, x: Seq<char>) -> Seq<
    Seq<char>,
>
    decreases s.len(),
{
    if s.len() == 0 {
        Seq::empty()
    } else if links_of(s.last().1.1@).contains(x) {
        linking_dates(s.drop_last(), x).push(ymd_text(s.last().0.model().0))
    } else {
        linking_dates(s.drop_last(), x)
    }
}

/// Some entry of `s` links to `x`.
pub open spec fn linked_by_some(s: Seq<(EntryId, (EntryMeta, String))>, x: Seq<char>) -> bool {
    exists|i: int| 0 <= i < s.len() && #[trigger] links_of(s[i].1.1@).contains(x)
}

/// `linked.json` of entries: the dates linked to, in ascending order, each
/// with the dates of the entries that link to it.
pub open spec fn linked_of(l: LinkedJson, s: Seq<(EntryId, (EntryMeta, String))>) -> bool {
    let keys = l.0@.map_values(|e: (String, Vec<String>)| e.0@);
    &&& strictly_sorted(keys)
    &&& forall|x: Seq<char>| keys.contains(x) <==> linked_by_some(s, x)
    &&& forall|k: int|
        0 <= k < l.0@.len() ==> views(#[trigger] l.0@[k].1@) == linking_dates(s, l.0@[k].0@)
}

/// Whether a name is in a list.
pub fn contains_name(v: &Vec<String>, x: &str) -> (r: bool)
    ensures
        r == views(v@).contains(x@),
{
    let mut i: usize = 0;
    while i < v.len()
        invariant
            i <= v@.len(),
            forall|k: int| 0 <= k < i ==> v@[k]@ != x@,
        decreases v.len() - i,
    {
        if crate::text::str_eq(v[i].as_str(), x) {
            assert(views(v@)[i as int] == x@);
            return true;
        }
        i = i + 1;
    }
    proof {
        if views(v@).contains(x@) {
            let k = choose|k: int| 0 <= k < views(v@).len() && views(v@)[k] == x@;
            assert(v@[k]@ == x@);
        }
    }
    false
}

/// The links between entries given in the order of their ids.
pub fn linked_json(s: &Vec<(EntryId, (EntryMeta, String))>) -> (r: LinkedJson)
    ensures
        linked_of(r, s@),
{
    let mut entry_links: Vec<Vec<String>> = Vec::new();
    let mut all: Vec<String> = Vec::new();
    let mut j: usize = 0;
    while j < s.len()
        invariant
            j <= s@.len(),
            entry_links@.len() == j,
            forall|k: int, x: Seq<char>|
                0 <= k < j ==> (#[trigger] views(entry_links@[k]@).contains(x) <==> links_of(
                    s@[k].1.1@,
                ).contains(x)),
            forall|x: Seq<char>|
                views(all@).contains(x) <==> linked_by_some(s@.take(j as int), x),
        decreases s.len() - j,
    {
        let links = parse_links(s[j].1.1.as_str());
        let ghost before = views(all@);
        let ghost t = s@.take(j as int);
        let mut i: usize = 0;
        while i < links.len()
            invariant
                i <= links@.len(),
                views(all@) == before + views(links@).take(i as int),
            decreases links.len() - i,
        {
            let ghost prev = all@;
            let c = links[i].clone();
            all.push(c);
            assert(views(all@) =~= views(prev).push(c@));
            assert(views(links@).take(i + 1) =~= views(links@).take(i as int).push(links@[i as int]@));
            i = i + 1;
        }
        proof {
            assert(views(links@).take(links@.len() as int) =~= views(links@));
            let t1 = s@.take(j + 1);
            assert forall|x: Seq<char>| views(all@).contains(x) <==> linked_by_some(t1, x) by {
                if views(all@).contains(x) {
                    let k = choose|k: int| 0 <= k < views(all@).len() && views(all@)[k] == x;
                    if k < before.len() {
                        assert(before[k] == x);
                        assert(before.contains(x));
                        let i0 = choose|i0: int| 0 <= i0 < t.len() && #[trigger] links_of(t[i0].1.1@).contains(x);
                        assert(t1[i0] == t[i0]);
                    } else {
                        assert(views(links@)[k - before.len()] == x);
                        assert(views(links@).contains(x));
                        assert(t1[j as int] == s@[j as int]);
                        assert(links_of(t1[j as int].1.1@).contains(x));
                    }
                }
                if linked_by_some(t1, x) {
                    let i0 = choose|i0: int| 0 <= i0 < t1.len() && #[trigger] links_of(t1[i0].1.1@).contains(x);
                    if i0 < j {
                        assert(t[i0] == t1[i0]);
                        assert(linked_by_some(t, x));
                        assert(before.contains(x));
                        let k = choose|k: int| 0 <= k < before.len() && before[k] == x;
                        assert(views(all@)[k] == x);
                    } else {
                        assert(t1[i0] == s@[j as int]);
                        assert(views(links@).contains(x));
                        let k = choose|k: int| 0 <= k < views(links@).len() && views(links@)[k] == x;
                        assert(views(all@)[before.len() + k] == x);
                    }
                }
            }
        }
        entry_links.push(links);
        j = j + 1;
    }
    assert(s@.take(s@.len() as int) =~= s@);
    let keys = sorted_names(&all);
    let mut out: Vec<(String, Vec<String>)> = Vec::new();
    let mut k: usize = 0;
    while k < keys.len()
        invariant
            k <= keys@.len(),
            entry_links@.len() == s@.len(),
            forall|m: int, x: Seq<char>|
                0 <= m < s@.len() ==> (#[trigger] views(entry_links@[m]@).contains(x) <==> links_of(
                    s@[m].1.1@,
                ).contains(x)),
            out@.len() == k,
            forall|m: int| 0 <= m < k ==> (#[trigger] out@[m]).0@ == keys@[m]@,
            forall|m: int| 0 <= m < k ==> views(#[trigger] out@[m].1@) == linking_dates(s@, out@[m].0@),
        decreases keys.len() - k,
    {
        let key = keys[k].clone();
        let mut dates: Vec<String> = Vec::new();
        let mut j: usize = 0;
        while j < s.len()
            invariant
                j <= s@.len(),
                entry_links@.len() == s@.len(),
                forall|m: int, x: Seq<char>|
                    0 <= m < s@.len() ==> (#[trigger] views(entry_links@[m]@).contains(x)
                        <==> links_of(s@[m].1.1@).contains(x)),
                views(dates@) == linking_dates(s@.take(j as int), key@),
            decreases s.len() - j,
        {
            proof {
                let t1 = s@.take(j + 1);
                assert(t1.drop_last() =~= s@.take(j as int));
                assert(t1.last() == s@[j as int]);
            }
            if contains_name(&entry_links[j], key.as_str()) {
                let ghost prev = dates@;
                let d = s[j].0.date().to_string();
                dates.push(d);
                assert(views(dates@) =~= views(prev).push(d@));
            }
            j = j + 1;
        }
        assert(s@.take(s@.len() as int) =~= s@);
        out.push((key, dates));
        k = k + 1;
    }
    let r = LinkedJson(out);
    proof {
        let ks = r.0@.map_values(|e: (String, Vec<String>)| e.0@);
        assert(ks =~= views(keys@));
    }
    r
}

/// The site made of entries: `s` holds them in the order of their ids, and
/// `tags` all their tags.
pub open spec fn site_of(
    site: Site,
    s: Seq<(EntryId, (EntryMeta, String))>,
    tags: Seq<Seq<char>>,
) -> bool {
    &&& site.all.0@.len() == s.len()
    &&& site.daily@.len() == s.len()
    &&& forall|i: int|
        0 <= i < s.len() ==> all_item_of(#[trigger] site.all.0@[i], s[i].0.model(), s[i].1.0)
    &&& forall|i: int|
        0 <= i < s.len() ==> daily_of(#[trigger] site.daily@[i], s[i].0.model(), s[i].1.0, s[i].1.1@)
    &&& strictly_sorted(site.tags.0@.map_values(|t: TagsJsonItem| t.name@))
    &&& forall|x: Seq<char>|
        site.tags.0@.map_values(|t: TagsJsonItem| t.name@).contains(x) <==> tags.contains(x)
    &&& forall|k: int|
        0 <= k < site.tags.0@.len() ==> #[trigger] site.tags.0@[k].count == occurrences(
            tags,
            site.tags.0@[k].name@,
        )
    &&& linked_of(site.linked, s)
}

/// The contents of the site's files: the entries in the order of their ids,
/// in `posts.json` and one daily file each, with the Markdown as HTML; the
/// tags counted over all entries. An error where an entry's minutes do not
/// fit in a `u32`.
pub fn build_site(entries: Vec<Entry>) -> (r: Result<Site, SiteError>)
    requires
        all_tags(entry_pairs(entries@)).len() <= u32::MAX,
    ensures
        (forall|i: int| 0 <= i < entries@.len() ==> #[trigger] entries@[i].parts().1.minutes
            <= u32::MAX) ==> (r matches Ok(site) && exists|s: Seq<(EntryId, (EntryMeta, String))>|
            s.to_multiset() == entry_pairs(entries@).to_multiset() && sorted_by_id(s, false)
                && site_of(site, s, all_tags(entry_pairs(entries@)))),
        (exists|i: int| 0 <= i < entries@.len() && #[trigger] entries@[i].parts().1.minutes
            > u32::MAX) ==> r == Err::<Site, SiteError>(SiteError::MinutesOutOfRange),
{
    broadcast use vstd::seq_lib::group_to_multiset_ensures;

    let ghost input = entries@;
    let n = entries.len();
    let mut pairs: Vec<(EntryId, (EntryMeta, String))> = Vec::new();
    let mut tags: Vec<String> = Vec::new();
    let mut rest = entries;
    let mut i: usize = 0;
    while rest.len() > 0
        invariant
            i + rest@.len() == input.len(),
            input.len() == n,
            input == entries@,
            rest@ == input.skip(i as int),
            pairs@ == entry_pairs(input.take(i as int)),
            views(tags@) == all_tags(pairs@),
            forall|k: int| 0 <= k < i ==> #[trigger] input[k].parts().1.minutes <= u32::MAX,
        decreases rest.len(),
    {
        let e = rest.remove(0);
        assert(e == input[i as int]);
        assert(rest@ =~= input.skip(i + 1));
        let (id, meta, content) = e.into_parts();
        if meta.minutes > 4294967295 {
            assert(input[i as int].parts().1.minutes > u32::MAX);
            return Err(SiteError::MinutesOutOfRange);
        }
        let ghost before = views(tags@);
        let mut t: usize = 0;
        while t < meta.tags.len()
            invariant
                t <= meta.tags@.len(),
                views(tags@) == before + views(meta.tags@).take(t as int),
            decreases meta.tags.len() - t,
        {
            let ghost prev = tags@;
            let c = meta.tags[t].clone();
            assert(c@ == meta.tags@[t as int]@);
            tags.push(c);
            assert(tags@ == prev.push(c));
            assert(views(tags@) =~= views(prev).push(c@));
            assert(views(meta.tags@).take(t + 1) =~= views(meta.tags@).take(t as int).push(
                meta.tags@[t as int]@,
            ));
            assert(views(tags@) =~= before + views(meta.tags@).take(t + 1));
            t = t + 1;
        }
        assert(views(meta.tags@).take(meta.tags@.len() as int) =~= views(meta.tags@));
        let ghost old_pairs = pairs@;
        pairs.push((id, (meta, content)));
        assert(input.take(i + 1).drop_last() =~= input.take(i as int));
        assert(pairs@ =~= entry_pairs(input.take(i + 1)));
        assert(pairs@.drop_last() =~= old_pairs);
        i = i + 1;
    }
    assert(input.take(input.len() as int) =~= input);
    let ghost unsorted = pairs@;
    let counts = count_names(&tags);
    let sorted = sort_by_id(pairs, false);
    let ghost s = sorted@;
    assert forall|k: int| 0 <= k < s.len() implies #[trigger] s[k].1.0.minutes <= u32::MAX by {
        assert(s.contains(s[k]));
        assert(unsorted.to_multiset().count(s[k]) > 0);
        assert(unsorted.contains(s[k]));
        let m = choose|m: int| 0 <= m < unsorted.len() && unsorted[m] == s[k];
        assert(unsorted[m].1.0 == input[m].parts().1);
    }
    let mut all_items: Vec<AllJsonItem> = Vec::new();
    let mut daily: Vec<DailyJson> = Vec::new();
    let mut j: usize = 0;
    while j < sorted.len()
        invariant
            j <= s.len(),
            sorted@ == s,
            forall|k: int| 0 <= k < s.len() ==> #[trigger] s[k].1.0.minutes <= u32::MAX,
            all_items@.len() == j,
            daily@.len() == j,
            forall|k: int|
                0 <= k < j ==> all_item_of(#[trigger] all_items@[k], s[k].0.model(), s[k].1.0),
            forall|k: int|
                0 <= k < j ==> daily_of(#[trigger] daily@[k], s[k].0.model(), s[k].1.0, s[k].1.1@),
        decreases s.len() - j,
    {
        let id = &sorted[j].0;
        let meta = &sorted[j].1.0;
        let content = &sorted[j].1.1;
        assert(meta.minutes <= u32::MAX);
        let minutes = meta.minutes as u32;
        let date = id.date().to_string();
        let id_title = match id.id_title() {
            Some(t) => Some(t.to_owned()),
            None => None,
        };
        let pubdate = meta.pubdate.to_string();
        all_items.push(
            AllJsonItem {
                date: date.clone(),
                id_title: match id.id_title() {
                    Some(t) => Some(t.to_owned()),
                    None => None,
                },
                minutes,
                pubdate: pubdate.clone(),
                tags: clone_names(&meta.tags),
                title: meta.title.clone(),
            },
        );
        let html = markdown_to_html(content.as_str());
        daily.push(
            DailyJson {
                data: content.clone(),
                date,
                minutes,
                html,
                id_title,
                pubdate,
                tags: clone_names(&meta.tags),
                title: meta.title.clone(),
            },
        );
        j = j + 1;
    }
    let mut items: Vec<TagsJsonItem> = Vec::new();
    let mut k: usize = 0;
    while k < counts.len()
        invariant
            k <= counts@.len(),
            items@.len() == k,
            forall|m: int|
                0 <= m < k ==> (#[trigger] items@[m]).name@ == counts@[m].0@ && items@[m].count
                    == counts@[m].1,
        decreases counts.len() - k,
    {
        items.push(TagsJsonItem { name: counts[k].0.clone(), count: counts[k].1 });
        k = k + 1;
    }
    let linked = linked_json(&sorted);
    let site = Site { all: AllJson(all_items), daily, tags: TagsJson(items), linked };
    proof {
        assert(site.tags.0@.map_values(|t: TagsJsonItem| t.name@) =~= count_names_of(counts@));
    }
    Ok(site)
}

} // verus!
