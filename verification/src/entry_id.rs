//! Entry ids: the date of a post and, for some posts, a title id, written
//! `YYYY-MM-DD` or `YYYY-MM-DD-ID_TITLE`.
use crate::date::{date_of, date_text, lemma_date_text_round_trip, valid_ymd, Date};
use crate::text::{push_char, push_str, to_chars};
use vstd::prelude::*;
use vstd::utf8::{encode_utf8, is_ascii_chars, is_ascii_chars_encode_utf8};

verus! {

/// The id of a blog entry.
#[derive(Clone, Debug, Eq, Ord, PartialEq, PartialOrd)]
pub struct EntryId {
    date: Date,
    id_title: Option<String>,
}

/// The text is not an entry id.
#[derive(Clone, Copy, Debug, Eq, PartialEq)]
pub struct ParseEntryId;

/// An optional text as the contracts see it.
pub open spec fn opt_string_view(o: Option<String>) -> Option<Seq<char>> {
    match o {
        Some(s) => Some(s@),
        None => None,
    }
}

/// An entry id, as the contracts see it: the date and the title id.
pub type EntryIdModel = ((int, int, int), Option<Seq<char>>);

/// The entry id that a text stands for. A text of ten bytes is a date alone;
/// any other text is a date in its first ten characters and a title id from
/// the twelfth character on (the eleventh is skipped).
pub open spec fn entry_id_of(s: Seq<char>) -> Option<EntryIdModel> {
    if encode_utf8(s).len() == 10 {
        match date_of(s) {
            Some(d) => Some((d, None)),
            None => None,
        }
    } else {
        let head = if s.len() <= 10 {
            s
        } else {
            s.subrange(0, 10)
        };
        let tail = if s.len() <= 11 {
            Seq::<char>::empty()
        } else {
            s.subrange(11, s.len() as int)
        };
        match date_of(head) {
            Some(d) => Some((d, Some(tail))),
            None => None,
        }
    }
}

/// How an entry id is written.
pub open spec fn entry_id_text(id: EntryIdModel) -> Seq<char> {
    date_text(id.0.0, id.0.1, id.0.2) + match id.1 {
        Some(t) => seq!['-'] + t,
        None => Seq::<char>::empty(),
    }
}

impl EntryId {
    pub closed spec fn model(&self) -> EntryIdModel {
        (self.date.ymd(), opt_string_view(self.id_title))
    }

    pub fn new(date: Date, id_title: Option<String>) -> (r: Self)
        ensures
            r.model() == (date.ymd(), opt_string_view(id_title)),
    {
        Self { date, id_title }
    }

    pub fn date(&self) -> (r: &Date)
        ensures
            r.ymd() == self.model().0,
    {
        &self.date
    }

    pub fn id_title(&self) -> (r: Option<&str>)
        ensures
            match r {
                Some(t) => self.model().1 == Some(t@),
                None => self.model().1 is None,
            },
    {
        match &self.id_title {
            Some(t) => Some(t.as_str()),
            None => None,
        }
    }

    /// Reads an entry id.
    pub fn parse(s: &str) -> (r: Result<EntryId, ParseEntryId>)
        ensures
            match entry_id_of(s@) {
                Some(m) => r matches Ok(id) && id.model() == m,
                None => r is Err,
            },
    {
        let cs = to_chars(s);
        let n = cs.len();
        if s.as_bytes().len() == 10 {
            assert(cs@.subrange(0, n as int) =~= s@);
            return match Date::parse_chars(&cs, 0, n) {
                Ok(date) => Ok(EntryId { date, id_title: None }),
                Err(_) => Err(ParseEntryId),
            };
        }
        let head_end = if n <= 10 {
            n
        } else {
            10
        };
        assert(cs@.subrange(0, n as int) =~= s@);
        match Date::parse_chars(&cs, 0, head_end) {
            Ok(date) => {
                let tail = if n <= 11 {
                    String::new()
                } else {
                    crate::text::string_of(&cs, 11, n)
                };
                Ok(EntryId { date, id_title: Some(tail) })
            },
            Err(_) => Err(ParseEntryId),
        }
    }

    /// The entry id written `YYYY-MM-DD` or `YYYY-MM-DD-ID_TITLE`.
    pub fn to_string(&self) -> (r: String)
        ensures
            r@ == entry_id_text(self.model()),
            valid_ymd(self.model().0.0, self.model().0.1, self.model().0.2),
    {
        let mut out = self.date.to_string();
        let ghost head = out@;
        match &self.id_title {
            Some(t) => {
                push_char(&mut out, '-');
                push_str(&mut out, t.as_str());
                assert(out@ =~= head + (seq!['-'] + t@));
            },
            None => {
                assert(out@ =~= head + Seq::<char>::empty());
            },
        }
        out
    }
}

impl std::str::FromStr for EntryId {
    type Err = ParseEntryId;

    fn from_str(s: &str) -> (r: Result<Self, Self::Err>)
        ensures
            match entry_id_of(s@) {
                Some(m) => r matches Ok(id) && id.model() == m,
                None => r is Err,
            },
    {
        EntryId::parse(s)
    }
}

proof fn lemma_encode_utf8_len(s: Seq<char>)
    ensures
        encode_utf8(s).len() >= s.len(),
    decreases s.len(),
{
    if s.len() > 0 {
        lemma_encode_utf8_len(s.drop_first());
    }
}

/// Reading the text of an entry id gives that entry id back.
pub proof fn lemma_entry_id_round_trip(id: EntryIdModel)
    requires
        valid_ymd(id.0.0, id.0.1, id.0.2),
    ensures
        entry_id_of(entry_id_text(id)) == Some(id),
{
    let (y, m, d) = id.0;
    let dt = date_text(y, m, d);
    let s = entry_id_text(id);
    lemma_date_text_round_trip(y, m, d);
    assert(s.subrange(0, 10) =~= dt);
    match id.1 {
        Some(t) => {
            lemma_encode_utf8_len(s);
            assert(s.len() == 11 + t.len());
            if s.len() > 11 {
                assert(s.subrange(11, s.len() as int) =~= t);
            } else {
                assert(t =~= Seq::<char>::empty());
            }
        },
        None => {
            assert(s =~= dt);
            assert(is_ascii_chars(dt)) by {
                assert forall|i| 0 <= i < dt.len() implies '\0' <= #[trigger] dt[i] <= '\u{7f}' by {
                    assert(dt[i] == '-' || ('0' <= dt[i] <= '9'));
                }
            }
            is_ascii_chars_encode_utf8(dt);
        },
    }
}

} // verus!
