//! The blog's data directory `YYYY/MM/YYYY-MM-DD(-ID_TITLE).{json,md}`: where
//! an entry's files are, and the entry ids that its file names give. The
//! program reads the directory and the files.
use crate::config::{join_path, join_path_x};
use crate::entry::{Entry, EntryMeta};
use crate::timestamp::{parse_rfc3339, rfc3339_of, DateTime};
use crate::date::{date_of, date_text, text2, text4, Date, ParseDateError};
use crate::entry_id::{entry_id_of, entry_id_text, opt_string_view, EntryId, EntryIdModel, ParseEntryId};
use crate::post::{split_file_name, stem_and_extension, Post};
use crate::text::{push_char, push_str, str_eq};
use vstd::prelude::*;

verus! {

/// The blog's data directory.
#[derive(Debug)]
pub struct BbnRepository {
    data_dir: String,
}

/// The entry ids of the `.json` files among `names`, in order; `None` where
/// one of their stems is not an entry id.
pub open spec fn ids_of_json_files(names: Seq<Seq<char>>) -> Option<Seq<EntryIdModel>>
    decreases names.len(),
{
    if names.len() == 0 {
        Some(seq![])
    } else {
        let rest = ids_of_json_files(names.drop_last());
        let (stem, ext) = stem_and_extension(names.last());
        if ext == Some(seq!['j', 's', 'o', 'n']) {
            match (rest, entry_id_of(stem)) {
                (Some(ids), Some(id)) => Some(ids.push(id)),
                _ => None,
            }
        } else {
            rest
        }
    }
}

/// The first id of `ids` with the date `ymd`.
pub open spec fn first_with_date(ids: Seq<EntryIdModel>, ymd: (int, int, int)) -> Option<
    EntryIdModel,
>
    decreases ids.len(),
{
    if ids.len() == 0 {
        None
    } else if ids[0].0 == ymd {
        Some(ids[0])
    } else {
        first_with_date(ids.drop_first(), ymd)
    }
}

/// The entry id that a post stands for.
pub open spec fn post_entry_id(p: crate::post::PostModel) -> Option<EntryIdModel> {
    match date_of(p.0) {
        Some(d) => Some((d, p.2)),
        None => None,
    }
}

/// The fields `minutes` (a `u64`), `pubdate` and `title` (strings) of the
/// JSON object of a text, where it is one and has them.
pub uninterp spec fn json_meta_fields_of(content: Seq<char>) -> Option<(u64, Seq<char>, Seq<char>)>;

/// `serde_json::from_str::<Value>`, then `get` and `as_u64` or `as_str` for
/// each field. Its contract names the result and says nothing more of it.
#[verifier::external_body]
fn json_meta_fields(content: &str) -> (r: Option<(u64, String, String)>)
    ensures
        match r {
            Some((m, p, t)) => json_meta_fields_of(content@) == Some((m, p@, t@)),
            None => json_meta_fields_of(content@) is None,
        },
{
    let value: serde_json::Value = serde_json::from_str(content).ok()?;
    let minutes = value.get("minutes")?.as_u64()?;
    let pubdate = value.get("pubdate")?.as_str()?.to_owned();
    let title = value.get("title")?.as_str()?.to_owned();
    Some((minutes, pubdate, title))
}

/// Why an entry could not be made of its files.
#[derive(Clone, Copy, Debug, Eq, PartialEq)]
pub enum EntryFileError {
    /// The `.json` file has no `minutes`, `pubdate` or `title` of the right kind.
    Meta,
    /// The `pubdate` is not an RFC 3339 date-time.
    Pubdate,
}

/// The entry that the files of an entry make: its `.json` file's minutes,
/// pubdate (read as RFC 3339, at the offset written) and title, and its `.md`
/// file's content; no tags.
pub fn entry_of_files(entry_id: EntryId, meta_json: &str, content: String) -> (r: Result<
    Entry,
    EntryFileError,
>)
    ensures
        match json_meta_fields_of(meta_json@) {
            None => r == Err::<Entry, EntryFileError>(EntryFileError::Meta),
            Some((m, p, t)) => match rfc3339_of(p) {
                None => r == Err::<Entry, EntryFileError>(EntryFileError::Pubdate),
                Some(dt) => r matches Ok(e) && e.parts().0 == entry_id && e.parts().2 == content
                    && e.parts().1.minutes == m && e.parts().1.pubdate.parts() == dt
                    && e.parts().1.title@ == t && e.parts().1.tags@.len() == 0,
            },
        },
{
    match json_meta_fields(meta_json) {
        None => Err(EntryFileError::Meta),
        Some((minutes, pubdate, title)) => match parse_rfc3339(pubdate.as_str()) {
            Some((timestamp, offset)) => {
                let pubdate = DateTime::from_parts(timestamp, offset);
                let meta = EntryMeta::new(minutes, pubdate, Vec::new(), title);
                Ok(Entry::new(entry_id, meta, content))
            },
            None => Err(EntryFileError::Pubdate),
        },
    }
}

impl BbnRepository {
    pub closed spec fn dir(&self) -> Seq<char> {
        self.data_dir@
    }

    pub fn new(data_dir: String) -> (r: Self)
        ensures
            r.dir() == data_dir@,
    {
        Self { data_dir }
    }

    pub fn data_dir(&self) -> (r: &str)
        ensures
            r@ == self.dir(),
    {
        self.data_dir.as_str()
    }

    /// The directory of the entries of a month: `YYYY/MM` in the data directory.
    pub fn entry_dir(&self, date: &Date) -> (r: String)
        ensures
            r@ == join_path(join_path(self.dir(), text4(date.ymd().0)), text2(date.ymd().1)),
    {
        let ghost (y, m, d) = date.ymd();
        let text = date.to_string();
        let year = text.as_str().substring_char(0, 4);
        let month = text.as_str().substring_char(5, 7);
        assert(year@ =~= text4(y));
        assert(month@ =~= text2(m));
        let dir = join_path_x(self.data_dir.as_str(), year);
        join_path_x(dir.as_str(), month)
    }

    /// The file of an entry with an extension: `YYYY/MM/<id>.<ext>`.
    pub fn entry_file(&self, entry_id: &EntryId, ext: &str) -> (r: String)
        ensures
            r@ == join_path(
                join_path(join_path(self.dir(), text4(entry_id.model().0.0)), text2(entry_id.model().0.1)),
                entry_id_text(entry_id.model()) + seq!['.'] + ext@,
            ),
    {
        let dir = self.entry_dir(entry_id.date());
        let mut name = entry_id.to_string();
        push_char(&mut name, '.');
        push_str(&mut name, ext);
        join_path_x(dir.as_str(), name.as_str())
    }

    /// The id of the entry of a date, from the names of the files of its
    /// month directory: the first `.json` file with that date. An error where
    /// the stem of a `.json` file is not an entry id.
    pub fn find_id_by_date(&self, file_names: &Vec<String>, date: &Date) -> (r: Result<
        Option<EntryId>,
        ParseEntryId,
    >)
        ensures
            match ids_of_json_files(file_names@.map_values(|s: String| s@)) {
                None => r is Err,
                Some(ids) => match first_with_date(ids, date.ymd()) {
                    Some(id) => r matches Ok(Some(e)) && e.model() == id,
                    None => r matches Ok(None),
                },
            },
    {
        let ghost names = file_names@.map_values(|s: String| s@);
        let json = "json";
        proof {
            reveal_strlit("json");
            assert(json@ =~= seq!['j', 's', 'o', 'n']);
        }
        let mut ids: Vec<EntryId> = Vec::new();
        let mut i: usize = 0;
        while i < file_names.len()
            invariant
                i <= file_names.len(),
                names == file_names@.map_values(|s: String| s@),
                json@ == seq!['j', 's', 'o', 'n'],
                ids_of_json_files(names.take(i as int)) matches Some(ms) && ms.len() == ids@.len()
                    && forall|k: int| 0 <= k < ms.len() ==> #[trigger] ids@[k].model() == ms[k],
            decreases file_names.len() - i,
        {
            proof {
                let t = names.take(i + 1);
                assert(t.drop_last() =~= names.take(i as int));
                assert(t.last() == file_names@[i as int]@);
            }
            let (stem, ext) = split_file_name(file_names[i].as_str());
            let is_json = match ext {
                Some(e) => str_eq(e, json),
                None => false,
            };
            if is_json {
                match EntryId::parse(stem) {
                    Ok(id) => {
                        ids.push(id);
                    },
                    Err(e) => {
                        proof {
                            lemma_ids_none_extends(names, i as int + 1);
                        }
                        return Err(e);
                    },
                }
            }
            i = i + 1;
        }
        assert(names.take(file_names.len() as int) =~= names);
        assert(ids_of_json_files(names) is Some);
        let ghost ms = ids_of_json_files(names).unwrap();
        assert(ms.skip(0) =~= ms);
        let mut j: usize = 0;
        while j < ids.len()
            invariant
                j <= ids.len(),
                names == file_names@.map_values(|s: String| s@),
                ids_of_json_files(names) == Some(ms),
                ms.len() == ids@.len(),
                forall|k: int| 0 <= k < ms.len() ==> #[trigger] ids@[k].model() == ms[k],
                first_with_date(ms, date.ymd()) == first_with_date(ms.skip(j as int), date.ymd()),
            decreases ids.len() - j,
        {
            let d = ids[j].date();
            if d.year() == date.year() && d.month() == date.month() && d.day_of_month()
                == date.day_of_month() {
                assert(ms.skip(j as int)[0] == ms[j as int]);
                assert(ids@[j as int].model().0 == date.ymd());
                assert(ms.skip(j as int).len() > 0);
                assert(first_with_date(ms.skip(j as int), date.ymd()) == Some(ms[j as int]));
                let found = ids[j].clone_id();
                return Ok(Some(found));
            }
            assert(ms.skip(j as int).drop_first() =~= ms.skip(j + 1));
            j = j + 1;
        }
        Ok(None)
    }

    /// The entry ids of posts, in their order; an error where a post's date is
    /// not a date.
    pub fn find_entry_ids(&self, posts: Vec<Post>) -> (r: Result<Vec<EntryId>, ParseDateError>)
        ensures
            (forall|k: int| 0 <= k < posts@.len() ==> post_entry_id(#[trigger] posts@[k].model()) is Some)
                ==> (r matches Ok(ids) && ids@.len() == posts@.len() && forall|k: int|
                0 <= k < posts@.len() ==> Some(#[trigger] ids@[k].model()) == post_entry_id(
                posts@[k].model(),
            )),
            (exists|k: int| 0 <= k < posts@.len() && post_entry_id(#[trigger] posts@[k].model()) is None)
                ==> r is Err,
    {
        let ghost all = posts@;
        let n = posts.len();
        let mut rest = posts;
        let mut ids: Vec<EntryId> = Vec::new();
        let mut i: usize = 0;
        while rest.len() > 0
            invariant
                all == posts@,
                i + rest@.len() == all.len(),
                all.len() == n,
                rest@ == all.skip(i as int),
                ids@.len() == i,
                forall|k: int| 0 <= k < i ==> Some(#[trigger] ids@[k].model()) == post_entry_id(all[k].model()),
            decreases rest.len(),
        {
            let p = rest.remove(0);
            assert(p == all[i as int]);
            assert(rest@ =~= all.skip(i + 1));
            match Date::parse(p.date.as_str()) {
                Ok(date) => {
                    ids.push(EntryId::new(date, p.id_title));
                },
                Err(e) => {
                    assert(post_entry_id(all[i as int].model()) is None);
                    assert(!(forall|k: int|
                        0 <= k < posts@.len() ==> post_entry_id(#[trigger] posts@[k].model()) is Some));
                    return Err(e);
                },
            }
            i = i + 1;
        }
        assert forall|k: int| 0 <= k < all.len() implies post_entry_id(#[trigger] all[k].model()) is Some by {
            assert(Some(ids@[k].model()) == post_entry_id(all[k].model()));
        }
        Ok(ids)
    }
}

proof fn lemma_ids_none_extends(names: Seq<Seq<char>>, i: int)
    requires
        0 <= i <= names.len(),
        ids_of_json_files(names.take(i)) is None,
    ensures
        ids_of_json_files(names) is None,
    decreases names.len() - i,
{
    if i < names.len() {
        let t = names.take(i + 1);
        assert(t.drop_last() =~= names.take(i));
        lemma_ids_none_extends(names, i + 1);
    } else {
        assert(names.take(i) =~= names);
    }
}

impl EntryId {
    /// A copy of an entry id.
    pub fn clone_id(&self) -> (r: EntryId)
        ensures
            r.model() == self.model(),
    {
        let date = *self.date();
        let id_title = match self.id_title() {
            Some(t) => Some(t.to_owned()),
            None => None,
        };
        EntryId::new(date, id_title)
    }
}

} // verus!
