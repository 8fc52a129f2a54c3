//! What the library keeps of Hatena Blog: entry ids, indexing runs, member
//! requests, and the pages of the entry collection with the rules that decide
//! which entries of a page are new and whether to read the next page.
use crate::timestamp::Timestamp;
use vstd::prelude::*;

verus! {

/// The id of an indexing run.
#[derive(Clone, Copy, Debug, Eq, Hash, Ord, PartialEq, PartialOrd, Structural)]
pub struct IndexingId(pub i64);

impl From<IndexingId> for i64 {
    fn from(indexing_id: IndexingId) -> (r: Self) {
        indexing_id.0
    }
}

impl vstd::std_specs::convert::FromSpecImpl<IndexingId> for i64 {
    open spec fn obeys_from_spec() -> bool {
        true
    }

    open spec fn from_spec(indexing_id: IndexingId) -> Self {
        indexing_id.0
    }
}

impl From<i64> for IndexingId {
    fn from(value: i64) -> (r: Self) {
        IndexingId(value)
    }
}

impl vstd::std_specs::convert::FromSpecImpl<i64> for IndexingId {
    open spec fn obeys_from_spec() -> bool {
        true
    }

    open spec fn from_spec(value: i64) -> Self {
        IndexingId(value)
    }
}

/// The id of a request for one entry.
#[derive(Clone, Copy, Debug, Eq, Ord, PartialEq, PartialOrd, Structural)]
pub struct MemberRequestId(pub i64);

impl From<i64> for MemberRequestId {
    fn from(value: i64) -> (r: Self) {
        MemberRequestId(value)
    }
}

impl vstd::std_specs::convert::FromSpecImpl<i64> for MemberRequestId {
    open spec fn obeys_from_spec() -> bool {
        true
    }

    open spec fn from_spec(value: i64) -> Self {
        MemberRequestId(value)
    }
}

impl From<MemberRequestId> for i64 {
    fn from(id: MemberRequestId) -> (r: Self) {
        id.0
    }
}

impl vstd::std_specs::convert::FromSpecImpl<MemberRequestId> for i64 {
    open spec fn obeys_from_spec() -> bool {
        true
    }

    open spec fn from_spec(id: MemberRequestId) -> Self {
        id.0
    }
}

/// An indexing run: its id and when it started.
#[derive(Clone, Copy, Debug, Eq, PartialEq, Structural)]
pub struct Indexing {
    id: IndexingId,
    at: Timestamp,
}

impl Indexing {
    pub closed spec fn parts(&self) -> (IndexingId, Timestamp) {
        (self.id, self.at)
    }

    pub fn new(id: IndexingId, at: Timestamp) -> (r: Self)
        ensures
            r.parts() == (id, at),
    {
        Self { id, at }
    }

    pub fn at(&self) -> (r: Timestamp)
        ensures
            r == self.parts().1,
    {
        self.at
    }

    pub fn id(&self) -> (r: IndexingId)
        ensures
            r == self.parts().0,
    {
        self.id
    }
}

/// The id of a Hatena Blog entry, as the service writes it.
#[derive(Clone, Debug, Eq, PartialEq)]
pub struct HatenaBlogEntryId(pub String);

impl From<String> for HatenaBlogEntryId {
    fn from(entry_id: String) -> (r: Self) {
        HatenaBlogEntryId(entry_id)
    }
}

impl vstd::std_specs::convert::FromSpecImpl<String> for HatenaBlogEntryId {
    open spec fn obeys_from_spec() -> bool {
        true
    }

    open spec fn from_spec(entry_id: String) -> Self {
        HatenaBlogEntryId(entry_id)
    }
}

impl<'a> From<&'a HatenaBlogEntryId> for String {
    fn from(hatena_blog_entry_id: &'a HatenaBlogEntryId) -> (r: Self) {
        hatena_blog_entry_id.0.clone()
    }
}

impl<'a> vstd::std_specs::convert::FromSpecImpl<&'a HatenaBlogEntryId> for String {
    open spec fn obeys_from_spec() -> bool {
        true
    }

    open spec fn from_spec(hatena_blog_entry_id: &'a HatenaBlogEntryId) -> Self {
        hatena_blog_entry_id.0
    }
}

impl HatenaBlogEntryId {
    pub fn as_str(&self) -> (r: &str)
        ensures
            r@ == self.0@,
    {
        self.0.as_str()
    }
}

/// A request for one entry that has not been answered yet.
#[derive(Clone, Debug, Eq, PartialEq)]
pub struct MemberRequest {
    pub id: MemberRequestId,
    pub at: Timestamp,
    pub hatena_blog_entry_id: HatenaBlogEntryId,
}

/// Why an entry could not be downloaded.
#[derive(Clone, Copy, Debug, Eq, PartialEq)]
pub enum DownloadEntryError {
    NoEntryId,
    NoEntryMeta,
    NoHatenaBlogEntry,
}

/// Why an entry could not be uploaded.
#[derive(Clone, Copy, Debug, Eq, PartialEq)]
pub enum UploadEntryError {
    NoEntryId,
    NoEntry,
}

/// One page of the entry collection, as the service sent it.
#[derive(Clone, Debug, Eq, PartialEq)]
pub struct HatenaBlogListEntriesResponse(pub String);

impl From<String> for HatenaBlogListEntriesResponse {
    fn from(body: String) -> (r: Self) {
        HatenaBlogListEntriesResponse(body)
    }
}

impl vstd::std_specs::convert::FromSpecImpl<String> for HatenaBlogListEntriesResponse {
    open spec fn obeys_from_spec() -> bool {
        true
    }

    open spec fn from_spec(body: String) -> Self {
        HatenaBlogListEntriesResponse(body)
    }
}

/// An entry of a page passes when it was published at `since` or later.
pub open spec fn published_since(since: Option<Timestamp>, published: i64) -> bool {
    match since {
        None => true,
        Some(s) => s.0 <= published,
    }
}

/// How many entries at the head of a page pass, up to the first that does not.
pub open spec fn passing_prefix_len(since: Option<Timestamp>, published: Seq<i64>) -> nat
    decreases published.len(),
{
    if published.len() == 0 {
        0
    } else if published_since(since, published[0]) {
        1 + passing_prefix_len(since, published.drop_first())
    } else {
        0
    }
}

proof fn lemma_passing_prefix(since: Option<Timestamp>, published: Seq<i64>, i: int)
    requires
        0 <= i <= published.len(),
        forall|k: int| 0 <= k < i ==> published_since(since, #[trigger] published[k]),
    ensures
        i == published.len() || !published_since(since, published[i]) ==> passing_prefix_len(
            since,
            published,
        ) == i,
        passing_prefix_len(since, published) >= i,
    decreases i,
{
    if i > 0 {
        let tail = published.drop_first();
        assert forall|k: int| 0 <= k < i - 1 implies published_since(since, #[trigger] tail[k]) by {
            assert(tail[k] == published[k + 1]);
        }
        lemma_passing_prefix(since, tail, i - 1);
        if i < published.len() {
            assert(tail[i - 1] == published[i]);
        }
    } else if published.len() > 0 {
        assert(passing_prefix_len(since, published) >= 0);
    }
}

/// At most every entry of a page passes.
pub proof fn lemma_passing_prefix_le(since: Option<Timestamp>, published: Seq<i64>)
    ensures
        passing_prefix_len(since, published) <= published.len(),
    decreases published.len(),
{
    if published.len() > 0 {
        lemma_passing_prefix_le(since, published.drop_first());
    }
}

impl HatenaBlogListEntriesResponse {
    /// The text of the page.
    pub fn body(self) -> (r: String)
        ensures
            r == self.0,
    {
        self.0
    }

    /// The ids of the entries of a page, newest first, from the head of the
    /// page up to the first entry published before `since`. `entries` holds
    /// each entry's id and its publication time, in the order of the page.
    pub fn hatena_blog_entry_ids(
        entries: &Vec<(HatenaBlogEntryId, Timestamp)>,
        since: Option<Timestamp>,
    ) -> (r: Vec<HatenaBlogEntryId>)
        ensures
            r@.len() == passing_prefix_len(since, entries@.map_values(|e: (HatenaBlogEntryId, Timestamp)| e.1.0)),
            forall|k: int| 0 <= k < r@.len() ==> #[trigger] r@[k].0@ == entries@[k].0.0@,
    {
        let ghost published = entries@.map_values(|e: (HatenaBlogEntryId, Timestamp)| e.1.0);
        let mut r: Vec<HatenaBlogEntryId> = Vec::new();
        let mut i: usize = 0;
        while i < entries.len()
            invariant
                i <= entries.len(),
                published == entries@.map_values(|e: (HatenaBlogEntryId, Timestamp)| e.1.0),
                r@.len() == i,
                forall|k: int| 0 <= k < i ==> #[trigger] r@[k].0@ == entries@[k].0.0@,
                forall|k: int| 0 <= k < i ==> published_since(since, #[trigger] published[k]),
            ensures
                i <= entries.len(),
                r@.len() == i,
                forall|k: int| 0 <= k < i ==> #[trigger] r@[k].0@ == entries@[k].0.0@,
                forall|k: int| 0 <= k < i ==> published_since(since, #[trigger] published[k]),
                i == entries.len() || !published_since(since, published[i as int]),
            decreases entries.len() - i,
        {
            let passes = match since {
                None => true,
                Some(s) => s.0 <= entries[i].1.0,
            };
            if !passes {
                break;
            }
            r.push(HatenaBlogEntryId(entries[i].0.0.clone()));
            i = i + 1;
        }
        proof {
            lemma_passing_prefix(since, published, i as int);
        }
        r
    }

    /// The page to read after this one: the service's next page, where every
    /// entry of this page was published at `since` or later; none otherwise.
    pub fn next_page(next: Option<String>, published: &Vec<Timestamp>, since: Option<Timestamp>) -> (r:
        Option<String>)
        ensures
            match next {
                Some(page) => if passing_prefix_len(since, published@.map_values(|t: Timestamp| t.0))
                    == published@.len() {
                    r matches Some(p) && p@ == page@
                } else {
                    r is None
                },
                None => r is None,
            },
    {
        let ghost ps = published@.map_values(|t: Timestamp| t.0);
        let mut i: usize = 0;
        while i < published.len()
            invariant
                i <= published.len(),
                ps == published@.map_values(|t: Timestamp| t.0),
                forall|k: int| 0 <= k < i ==> published_since(since, #[trigger] ps[k]),
            decreases published.len() - i,
        {
            let passes = match since {
                None => true,
                Some(s) => s.0 <= published[i].0,
            };
            if !passes {
                proof {
                    lemma_passing_prefix(since, ps, i as int);
                }
                return None;
            }
            i = i + 1;
        }
        proof {
            lemma_passing_prefix(since, ps, i as int);
        }
        next
    }
}

} // verus!
