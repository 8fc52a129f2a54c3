//! Blog entries: their id, their meta data and their Markdown content.
use crate::entry_id::EntryId;
use crate::timestamp::{datetime_from_parts, datetime_of, DateTime, ParseDateTimeError};
use vstd::prelude::*;

verus! {

/// The meta data of an entry, as its `.json` file holds it.
#[derive(Clone, Debug, Eq, PartialEq)]
pub struct EntryMeta {
    pub hatena_blog_entry_id: Option<String>,
    pub hatena_blog_entry_url: Option<String>,
    pub hatena_blog_ignore: Option<bool>,
    pub minutes: u64,
    pub pubdate: DateTime,
    pub tags: Vec<String>,
    pub title: String,
}

impl EntryMeta {
    /// Meta data with no Hatena Blog fields.
    pub fn new(minutes: u64, pubdate: DateTime, tags: Vec<String>, title: String) -> (r: Self)
        ensures
            r.hatena_blog_entry_id is None,
            r.hatena_blog_entry_url is None,
            r.hatena_blog_ignore is None,
            r.minutes == minutes,
            r.pubdate == pubdate,
            r.tags == tags,
            r.title == title,
    {
        Self {
            hatena_blog_entry_id: None,
            hatena_blog_entry_url: None,
            hatena_blog_ignore: None,
            minutes,
            pubdate,
            tags,
            title,
        }
    }
}

impl EntryMeta {
    /// The meta data that the fields of a `.json` file give: the date-time
    /// read from its text, an error where it is none.
    pub fn from_fields(minutes: u64, pubdate: &str, tags: Vec<String>, title: String) -> (r: Result<
        Self,
        ParseDateTimeError,
    >)
        ensures
            match datetime_from_parts(datetime_of(pubdate@)) {
                None => r is Err,
                Some(p) => r matches Ok(m) && m.pubdate.parts() == p && m.minutes == minutes
                    && m.tags == tags && m.title == title && m.hatena_blog_entry_id is None
                    && m.hatena_blog_entry_url is None && m.hatena_blog_ignore is None,
            },
    {
        match DateTime::parse(pubdate) {
            Ok(pubdate) => Ok(EntryMeta::new(minutes, pubdate, tags, title)),
            Err(e) => Err(e),
        }
    }
}

/// An entry.
#[derive(Debug, Eq, PartialEq)]
pub struct Entry {
    id: EntryId,
    meta: EntryMeta,
    content: String,
}

impl Entry {
    pub closed spec fn parts(&self) -> (EntryId, EntryMeta, String) {
        (self.id, self.meta, self.content)
    }

    pub fn new(id: EntryId, meta: EntryMeta, content: String) -> (r: Self)
        ensures
            r.parts() == (id, meta, content),
    {
        Self { id, meta, content }
    }

    pub fn content(&self) -> (r: &str)
        ensures
            r@ == self.parts().2@,
    {
        self.content.as_str()
    }

    pub fn id(&self) -> (r: &EntryId)
        ensures
            *r == self.parts().0,
    {
        &self.id
    }

    pub fn meta(&self) -> (r: &EntryMeta)
        ensures
            *r == self.parts().1,
    {
        &self.meta
    }

    /// The id, the meta data and the content.
    pub fn into_parts(self) -> (r: (EntryId, EntryMeta, String))
        ensures
            r == self.parts(),
    {
        (self.id, self.meta, self.content)
    }

    /// The same entry with a new content and new meta data; the id stays.
    pub fn update(self, content: String, meta: EntryMeta) -> (r: Self)
        ensures
            r.parts() == (self.parts().0, meta, content),
    {
        Self { id: self.id, meta, content }
    }
}

} // verus!
