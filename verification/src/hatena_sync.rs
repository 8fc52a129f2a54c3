//! The decisions of the commands that keep the blog and Hatena Blog in step:
//! whether an entry differs, what a downloaded entry makes of the local one,
//! which entries to request, and whether an upload creates or updates. The
//! program talks to the service and the database.
use crate::entry::{Entry, EntryMeta};
use crate::content_diff::{changes_of, diff_models, line_diff_of, masked, shown, two_line_diff, DiffLine};
use crate::date::Date;
use crate::entry_id::EntryId;
use crate::hatena_blog::{
    passing_prefix_len, HatenaBlogEntryId, HatenaBlogListEntriesResponse,
};
use crate::names::{sorted_names, strictly_sorted};
use crate::post::views;
use crate::timestamp::{DateTime, Timestamp};
use vstd::prelude::*;

verus! {

/// An entry of Hatena Blog.
#[derive(Clone, Debug)]
pub struct HatenaBlogEntry {
    pub author_name: String,
    pub categories: Vec<String>,
    pub content: String,
    pub draft: bool,
    pub edit_url: String,
    pub edited: DateTime,
    pub id: HatenaBlogEntryId,
    pub published: DateTime,
    pub title: String,
    pub updated: DateTime,
    pub url: String,
}

/// How a local entry compares with Hatena Blog's: `None` where Hatena Blog
/// has no such entry, else whether the contents are the same.
pub fn compare_contents(local: &str, remote: Option<&str>) -> (r: Option<bool>)
    ensures
        match remote {
            None => r is None,
            Some(t) => r == Some(local@ == t@),
        },
{
    match remote {
        None => None,
        Some(t) => Some(crate::text::str_eq(local, t)),
    }
}

/// The word for a comparison: `eq`, `ne`, or `no` where Hatena Blog has no
/// such entry.
pub fn diff_label(result: Option<bool>) -> (r: &'static str)
    ensures
        r@ == match result {
            Some(true) => seq!['e', 'q'],
            Some(false) => seq!['n', 'e'],
            None => seq!['n', 'o'],
        },
{
    proof {
        reveal_strlit("eq");
        reveal_strlit("ne");
        reveal_strlit("no");
    }
    match result {
        Some(true) => "eq",
        Some(false) => "ne",
        None => "no",
    }
}

/// The counts of `bbn hatena-blog diff`.
#[derive(Clone, Copy, Debug, Eq, PartialEq, Structural)]
pub struct DiffStats {
    /// Entries that Hatena Blog does not have.
    pub no: i32,
    /// Entries with the same content.
    pub eq: i32,
    /// Entries with another content.
    pub ne: i32,
    /// Entries that are not to be sent to Hatena Blog.
    pub ignored: i32,
}

impl DiffStats {
    /// No entry counted yet.
    pub fn new() -> (r: Self)
        ensures
            r == (DiffStats { no: 0, eq: 0, ne: 0, ignored: 0 }),
    {
        DiffStats { no: 0, eq: 0, ne: 0, ignored: 0 }
    }

    /// Counts an entry: ignored, or by how it compares.
    pub fn record(&mut self, ignored: bool, result: Option<bool>)
        requires
            old(self).no < i32::MAX,
            old(self).eq < i32::MAX,
            old(self).ne < i32::MAX,
            old(self).ignored < i32::MAX,
        ensures
            *final(self) == (if ignored {
                DiffStats { ignored: (old(self).ignored + 1) as i32, ..*old(self) }
            } else {
                match result {
                    None => DiffStats { no: (old(self).no + 1) as i32, ..*old(self) },
                    Some(true) => DiffStats { eq: (old(self).eq + 1) as i32, ..*old(self) },
                    Some(false) => DiffStats { ne: (old(self).ne + 1) as i32, ..*old(self) },
                }
            }),
    {
        if ignored {
            self.ignored = self.ignored + 1;
        } else {
            match result {
                None => self.no = self.no + 1,
                Some(true) => self.eq = self.eq + 1,
                Some(false) => self.ne = self.ne + 1,
            }
        }
    }
}

/// What `bbn hatena-blog diff` prints for an entry that is not ignored.
#[derive(Clone, Copy, Debug, Eq, PartialEq, Structural)]
pub enum DiffAction {
    /// Nothing: the contents are the same.
    Nothing,
    /// A line with the comparison's word and the entry id (for all entries).
    Label,
    /// The line diff of the contents (for the entry of a date).
    ShowDiff,
}

/// What to print of an entry: nothing where the contents are the same; for
/// all entries the word and the id; for the entry of a date its diff, where
/// Hatena Blog has the entry.
pub fn diff_action(for_date: bool, result: Option<bool>) -> (r: DiffAction)
    ensures
        r == (if result == Some(true) {
            DiffAction::Nothing
        } else if !for_date {
            DiffAction::Label
        } else if result is Some {
            DiffAction::ShowDiff
        } else {
            DiffAction::Nothing
        }),
{
    match result {
        Some(true) => DiffAction::Nothing,
        _ => if !for_date {
            DiffAction::Label
        } else if result.is_some() {
            DiffAction::ShowDiff
        } else {
            DiffAction::Nothing
        },
    }
}

/// What `bbn hatena-blog upload --interactive` shows of an entry before it
/// asks: the comparison's word, and the short diff where Hatena Blog has the
/// entry; none where the contents are the same.
pub fn upload_prompt(local: &str, remote: Option<&str>) -> (r: Option<(&'static str, Option<Vec<DiffLine>>)>)
    ensures
        match remote {
            Some(t) => if t@ == local@ {
                r is None
            } else {
                r matches Some((label, Some(lines))) && label@ == seq!['n', 'e'] && diff_models(
                    lines@,
                ) == masked(
                    line_diff_of(t@, local@),
                    Seq::new(
                        line_diff_of(t@, local@).len(),
                        |i: int| shown(changes_of(line_diff_of(t@, local@)), i),
                    ),
                )
            },
            None => r matches Some((label, None)) && label@ == seq!['n', 'o'],
        },
{
    let result = compare_contents(local, remote);
    if result == Some(true) {
        return None;
    }
    let label = diff_label(result);
    match remote {
        Some(t) => Some((label, Some(two_line_diff(t, local)))),
        None => Some((label, None)),
    }
}

/// The local entry that a Hatena Blog entry makes: a new entry of 15 minutes
/// with no tags where there is none, else the local entry with the content,
/// title and date of Hatena Blog's and its own minutes and tags.
pub fn merge_entry(entry_id: EntryId, local: Option<Entry>, remote: HatenaBlogEntry) -> (r: Entry)
    ensures
        r.parts().0 == match local {
            None => entry_id,
            Some(e) => e.parts().0,
        },
        r.parts().2 == remote.content,
        r.parts().1.hatena_blog_entry_id is None,
        r.parts().1.hatena_blog_entry_url is None,
        r.parts().1.hatena_blog_ignore is None,
        r.parts().1.pubdate == remote.updated,
        r.parts().1.title == remote.title,
        match local {
            None => r.parts().1.minutes == 15 && r.parts().1.tags@.len() == 0,
            Some(e) => r.parts().1.minutes == e.parts().1.minutes && r.parts().1.tags
                == e.parts().1.tags,
        },
{
    match local {
        None => Entry::new(
            entry_id,
            EntryMeta::new(15, remote.updated, Vec::new(), remote.title),
            remote.content,
        ),
        Some(e) => {
            let (id, meta, _) = e.into_parts();
            Entry::new(
                id,
                EntryMeta::new(meta.minutes, remote.updated, meta.tags, remote.title),
                remote.content,
            )
        },
    }
}

/// Whether two entry ids are the same.
pub fn same_entry_id(a: &EntryId, b: &EntryId) -> (r: bool)
    ensures
        r == (a.model() == b.model()),
{
    let (da, db) = (a.date(), b.date());
    if da.year() != db.year() || da.month() != db.month() || da.day_of_month()
        != db.day_of_month() {
        return false;
    }
    match (a.id_title(), b.id_title()) {
        (None, None) => true,
        (Some(x), Some(y)) => crate::text::str_eq(x, y),
        _ => false,
    }
}

/// The local entry that a downloaded entry of a date updates: the entry of
/// that date, or a new one with no title id; none where only `target` is to
/// be updated and this is another entry.
pub fn entry_id_to_update(found: Option<EntryId>, date: Date, target: &Option<EntryId>) -> (r:
    Option<EntryId>)
    ensures
        ({
            let id = match found {
                Some(e) => e.model(),
                None => (date.ymd(), None::<Seq<char>>),
            };
            match target {
                Some(t) => if t.model() == id {
                    r matches Some(e) && e.model() == id
                } else {
                    r is None
                },
                None => r matches Some(e) && e.model() == id,
            }
        }),
{
    let entry_id = match found {
        Some(e) => e,
        None => EntryId::new(date, None),
    };
    match target {
        Some(t) => if same_entry_id(t, &entry_id) {
            Some(entry_id)
        } else {
            None
        },
        None => Some(entry_id),
    }
}

/// Whether an upload creates an entry or updates the one Hatena Blog has.
#[derive(Clone, Debug, Eq, PartialEq)]
pub enum UploadAction {
    Create,
    Update(HatenaBlogEntryId),
}

/// An upload creates the entry where Hatena Blog has none with its date, and
/// updates that entry otherwise.
pub fn upload_action(remote: Option<HatenaBlogEntryId>) -> (r: UploadAction)
    ensures
        match remote {
            None => r == UploadAction::Create,
            Some(id) => r == UploadAction::Update(id),
        },
{
    match remote {
        None => UploadAction::Create,
        Some(id) => UploadAction::Update(id),
    }
}

/// What a download records for one member request, and whether it stops.
///
/// `found` says whether Hatena Blog still has the entry; `stored` is the id
/// under which its response was stored, or `None` where storing failed. A
/// deleted entry records no response and goes on; a stored response records
/// its id and goes on; a failed store records no response and stops.
pub fn member_request_result(found: bool, stored: Option<i64>) -> (r: (Option<i64>, bool))
    ensures
        r == (if found { stored } else { None::<i64> }, found && stored is None),
{
    if !found {
        (None, false)
    } else {
        match stored {
            Some(id) => (Some(id), false),
            None => (None, true),
        }
    }
}

/// The ids of the entries of a page that pass, as `hatena_blog_entry_ids`
/// gives them.
pub open spec fn page_ids(page: Seq<(HatenaBlogEntryId, Timestamp)>, since: Option<Timestamp>) -> Seq<
    Seq<char>,
> {
    page.take(
        passing_prefix_len(since, page.map_values(|e: (HatenaBlogEntryId, Timestamp)| e.1.0)) as int,
    ).map_values(|e: (HatenaBlogEntryId, Timestamp)| e.0.0@)
}

/// The ids of the entries of pages that pass, page after page.
pub open spec fn pages_ids(pages: Seq<Vec<(HatenaBlogEntryId, Timestamp)>>, since: Option<Timestamp>) -> Seq<
    Seq<char>,
>
    decreases pages.len(),
{
    if pages.len() == 0 {
        Seq::empty()
    } else {
        pages_ids(pages.drop_last(), since) + page_ids(pages.last()@, since)
    }
}

/// The entries to request after an indexing run: the ids that pass on each
/// page read, each once, in ascending order.
pub fn member_request_targets(
    pages: &Vec<Vec<(HatenaBlogEntryId, Timestamp)>>,
    since: Option<Timestamp>,
) -> (r: Vec<String>)
    ensures
        strictly_sorted(views(r@)),
        forall|x: Seq<char>| views(r@).contains(x) <==> pages_ids(pages@, since).contains(x),
{
    let mut ids: Vec<String> = Vec::new();
    let mut i: usize = 0;
    while i < pages.len()
        invariant
            i <= pages@.len(),
            views(ids@) == pages_ids(pages@.take(i as int), since),
        decreases pages.len() - i,
    {
        let page_ids_vec = HatenaBlogListEntriesResponse::hatena_blog_entry_ids(&pages[i], since);
        let ghost before = views(ids@);
        let ghost page = pages@[i as int]@;
        let ghost want = page_ids(page, since);
        proof {
            let ps = page.map_values(|e: (HatenaBlogEntryId, Timestamp)| e.1.0);
            assert(ps =~= pages@[i as int]@.map_values(|e: (HatenaBlogEntryId, Timestamp)| e.1.0));
            crate::hatena_blog::lemma_passing_prefix_le(since, ps);
        }
        let mut k: usize = 0;
        while k < page_ids_vec.len()
            invariant
                k <= page_ids_vec@.len(),
                i < pages@.len(),
                page_ids_vec@.len() == want.len(),
                want.len() <= page.len(),
                page == pages@[i as int]@,
                want == page_ids(page, since),
                forall|m: int| 0 <= m < page_ids_vec@.len() ==> #[trigger] page_ids_vec@[m].0@ == page[m].0.0@,
                views(ids@) == before + want.take(k as int),
            decreases page_ids_vec.len() - k,
        {
            let ghost prev = ids@;
            proof {
                let n = passing_prefix_len(
                    since,
                    page.map_values(|e: (HatenaBlogEntryId, Timestamp)| e.1.0),
                ) as int;
                crate::hatena_blog::lemma_passing_prefix_le(
                    since,
                    page.map_values(|e: (HatenaBlogEntryId, Timestamp)| e.1.0),
                );
                let t = page.take(n);
                assert(want == t.map_values(|e: (HatenaBlogEntryId, Timestamp)| e.0.0@));
                assert(t[k as int] == page[k as int]);
                assert(want[k as int] == page[k as int].0.0@);
            }
            let s = page_ids_vec[k].0.clone();
            ids.push(s);
            assert(views(ids@) =~= views(prev).push(s@));
            assert(want.take(k + 1) =~= want.take(k as int).push(want[k as int]));
            k = k + 1;
        }
        proof {
            assert(want.take(want.len() as int) =~= want);
            let t = pages@.take(i + 1);
            assert(t.drop_last() =~= pages@.take(i as int));
        }
        i = i + 1;
    }
    assert(pages@.take(pages@.len() as int) =~= pages@);
    sorted_names(&ids)
}

} // verus!
