//! Listing the posts of the data directory `YYYY/MM/YYYY-MM-DD(-ID_TITLE).json`:
//! which year and month directories and which files a query selects, and the
//! posts that the selected files make, in order. The program reads the
//! directories and the files.
use crate::query::{spec_match_date, spec_match_day, spec_match_month, spec_match_year, Query};
use crate::text::{bytes_le, bytes_le_x};
use vstd::multiset::Multiset;
use vstd::prelude::*;
use vstd::string::StringSliceAdditionalSpecFns;
use vstd::utf8::{decode_utf8, encode_utf8, is_char_boundary};

verus! {

/// A post: its date, its title, and its title id where the file name has one.
#[derive(Debug, Eq, Ord, PartialEq, PartialOrd)]
pub struct Post {
    pub date: String,
    pub title: String,
    pub id_title: Option<String>,
}

/// Why the posts could not be listed.
#[derive(Clone, Copy, Debug, Eq, PartialEq)]
pub enum ListPostsError {
    /// A directory or a file could not be read.
    ReadDir,
    /// A selected file holds no JSON object with a string `title`.
    Meta,
}

// ---------------------------------------------------------------------------
// File names

/// `s[i..j]`, as `str::get(i..j)` gives it: the part of `s` between the byte
/// offsets `i` and `j`, where both are character boundaries.
pub(crate) fn str_get(s: &str, i: usize, j: usize) -> (r: Option<&str>)
    ensures
        r is Some <==> (i <= j <= s.spec_bytes().len() && is_char_boundary(s.spec_bytes(), i as int)
            && is_char_boundary(s.spec_bytes(), j as int)),
        r matches Some(t) ==> t.spec_bytes() == s.spec_bytes().subrange(i as int, j as int),
{
    let n = s.as_bytes().len();
    if i <= j && j <= n && s.is_char_boundary(i) && s.is_char_boundary(j) {
        let (head, _) = s.split_at(j);
        proof {
            let b = s.spec_bytes();
            let h = head.spec_bytes();
            vstd::utf8::encode_utf8_valid_utf8(s@);
            vstd::utf8::encode_utf8_valid_utf8(head@);
            if i < j {
                vstd::utf8::is_char_boundary_iff_not_is_continuation_byte(b, i as int);
                vstd::utf8::is_char_boundary_iff_not_is_continuation_byte(h, i as int);
                assert(h[i as int] == b[i as int]);
            } else {
                vstd::utf8::is_char_boundary_start_end_of_seq(h);
            }
        }
        let (_, part) = head.split_at(i);
        assert(part.spec_bytes() =~= s.spec_bytes().subrange(i as int, j as int));
        Some(part)
    } else {
        None
    }
}

/// The index of the last `.` in `s`, or -1.
pub open spec fn last_dot(s: Seq<char>) -> int
    decreases s.len(),
{
    if s.len() == 0 {
        -1
    } else if s[s.len() - 1] == '.' {
        s.len() - 1
    } else {
        last_dot(s.drop_last())
    }
}

/// A file name's stem and extension, as `Path::file_stem` and
/// `Path::extension` give them: split at the last `.`, unless the name is
/// `..`, has no `.`, or has its only `.` first.
pub open spec fn stem_and_extension(name: Seq<char>) -> (Seq<char>, Option<Seq<char>>) {
    if name == seq!['.', '.'] || last_dot(name) <= 0 {
        (name, None)
    } else {
        (name.subrange(0, last_dot(name)), Some(name.subrange(last_dot(name) + 1, name.len() as int)))
    }
}

proof fn lemma_last_dot(s: Seq<char>)
    ensures
        -1 <= last_dot(s) < s.len(),
        last_dot(s) >= 0 ==> s[last_dot(s)] == '.',
        forall|k: int| last_dot(s) < k < s.len() ==> s[k] != '.',
    decreases s.len(),
{
    if s.len() > 0 && s[s.len() - 1] != '.' {
        let t = s.drop_last();
        lemma_last_dot(t);
        assert forall|k: int| last_dot(s) < k < s.len() implies s[k] != '.' by {
            if k < t.len() {
                assert(t[k] == s[k]);
            }
        }
    }
}

/// Splits a file name into its stem and its extension.
pub fn split_file_name(name: &str) -> (r: (&str, Option<&str>))
    ensures
        r.0@ == stem_and_extension(name@).0,
        match stem_and_extension(name@).1 {
            Some(e) => r.1 matches Some(x) && x@ == e,
            None => r.1 is None,
        },
{
    let n = name.unicode_len();
    let mut i = n;
    while i > 0 && name.get_char(i - 1) != '.'
        invariant
            n == name@.len(),
            i <= n,
            forall|k: int| i <= k < n ==> name@[k] != '.',
        decreases i,
    {
        i = i - 1;
    }
    proof {
        lemma_last_dot(name@);
        if i > 0 {
            assert(last_dot(name@) == i - 1) by {
                lemma_last_dot_is(name@, i - 1);
            }
        } else {
            assert(last_dot(name@) == -1) by {
                lemma_last_dot_none(name@);
            }
        }
    }
    let is_dotdot = n == 2 && name.get_char(0) == '.' && name.get_char(1) == '.';
    proof {
        if n == 2 {
            assert(is_dotdot == (name@ =~= seq!['.', '.']));
        } else {
            assert(name@.len() != 2);
            assert(name@ != seq!['.', '.']);
        }
    }
    if is_dotdot || i <= 1 {
        (name, None)
    } else {
        (name.substring_char(0, i - 1), Some(name.substring_char(i, n)))
    }
}

proof fn lemma_last_dot_is(s: Seq<char>, i: int)
    requires
        0 <= i < s.len(),
        s[i] == '.',
        forall|k: int| i < k < s.len() ==> s[k] != '.',
    ensures
        last_dot(s) == i,
    decreases s.len(),
{
    if i < s.len() - 1 {
        let t = s.drop_last();
        assert forall|k: int| i < k < t.len() implies t[k] != '.' by {
            assert(t[k] == s[k]);
        }
        lemma_last_dot_is(t, i);
    }
}

proof fn lemma_last_dot_none(s: Seq<char>)
    requires
        forall|k: int| 0 <= k < s.len() ==> s[k] != '.',
    ensures
        last_dot(s) == -1,
    decreases s.len(),
{
    if s.len() > 0 {
        let t = s.drop_last();
        assert forall|k: int| 0 <= k < t.len() implies t[k] != '.' by {
            assert(t[k] == s[k]);
        }
        lemma_last_dot_none(t);
    }
}

/// The date part of a post's file name: bytes 0 to 10 of its stem.
pub open spec fn date_part(name: Seq<char>) -> Option<Seq<char>> {
    let b = encode_utf8(stem_and_extension(name).0);
    if 10 <= b.len() && is_char_boundary(b, 10) {
        Some(decode_utf8(b.subrange(0, 10)))
    } else {
        None
    }
}

/// The title id part of a post's file name: its stem from byte 11 on.
pub open spec fn id_title_part(name: Seq<char>) -> Option<Seq<char>> {
    let b = encode_utf8(stem_and_extension(name).0);
    if 11 <= b.len() && is_char_boundary(b, 11) {
        Some(decode_utf8(b.subrange(11, b.len() as int)))
    } else {
        None
    }
}

/// The day part of a post's file name: bytes 8 to 10 of its stem.
pub open spec fn day_part(name: Seq<char>) -> Option<Seq<char>> {
    let b = encode_utf8(stem_and_extension(name).0);
    if 10 <= b.len() && is_char_boundary(b, 8) && is_char_boundary(b, 10) {
        Some(decode_utf8(b.subrange(8, 10)))
    } else {
        None
    }
}

fn stem_get(name: &str, i: usize, to_end: bool, j: usize) -> (r: Option<&str>)
    ensures
        ({
            let b = encode_utf8(stem_and_extension(name@).0);
            let e = if to_end {
                b.len() as int
            } else {
                j as int
            };
            &&& r is Some <==> (i <= e <= b.len() && is_char_boundary(b, i as int)
                && is_char_boundary(b, e))
            &&& r matches Some(t) ==> t@ == decode_utf8(b.subrange(i as int, e))
        }),
{
    let (stem, _) = split_file_name(name);
    let end = if to_end {
        stem.as_bytes().len()
    } else {
        j
    };
    let r = str_get(stem, i, end);
    proof {
        if let Some(t) = r {
            vstd::utf8::encode_utf8_decode_utf8(t@);
        }
    }
    r
}

/// The date of a post's file name: `YYYY-MM-DD` at the start of its stem.
pub fn get_date(name: &str) -> (r: Option<&str>)
    ensures
        match date_part(name@) {
            Some(d) => r matches Some(t) && t@ == d,
            None => r is None,
        },
{
    proof {
        vstd::utf8::encode_utf8_valid_utf8(stem_and_extension(name@).0);
        vstd::utf8::is_char_boundary_start_end_of_seq(encode_utf8(stem_and_extension(name@).0));
    }
    stem_get(name, 0, false, 10)
}

/// The title id of a post's file name: its stem after `YYYY-MM-DD-`.
pub fn get_id_title(name: &str) -> (r: Option<&str>)
    ensures
        match id_title_part(name@) {
            Some(d) => r matches Some(t) && t@ == d,
            None => r is None,
        },
{
    proof {
        vstd::utf8::encode_utf8_valid_utf8(stem_and_extension(name@).0);
        vstd::utf8::is_char_boundary_start_end_of_seq(encode_utf8(stem_and_extension(name@).0));
    }
    stem_get(name, 11, true, 0)
}

// ---------------------------------------------------------------------------
// Selecting directories and files

/// The elements of `names` that pass `keep`, in order.
pub open spec fn filter_names(names: Seq<Seq<char>>, keep: spec_fn(Seq<char>) -> bool) -> Seq<
    Seq<char>,
>
    decreases names.len(),
{
    if names.len() == 0 {
        seq![]
    } else if keep(names.last()) {
        filter_names(names.drop_last(), keep).push(names.last())
    } else {
        filter_names(names.drop_last(), keep)
    }
}

/// The texts of a list of strings.
pub open spec fn views(names: Seq<String>) -> Seq<Seq<char>> {
    names.map_values(|s: String| s@)
}

/// A file that the query selects: a `.json` file whose day and date match.
pub open spec fn selects_file(q: crate::query::QueryModel, name: Seq<char>) -> bool {
    &&& stem_and_extension(name).1 == Some(seq!['j', 's', 'o', 'n'])
    &&& day_part(name) matches Some(d) && spec_match_day(q, d)
    &&& date_part(name) matches Some(d) && spec_match_date(q, d)
}

proof fn lemma_filter_step(names: Seq<String>, i: int, keep: spec_fn(Seq<char>) -> bool)
    requires
        0 <= i < names.len(),
    ensures
        filter_names(views(names.take(i + 1)), keep) == if keep(names[i]@) {
            filter_names(views(names.take(i)), keep).push(names[i]@)
        } else {
            filter_names(views(names.take(i)), keep)
        },
{
    let v = views(names.take(i + 1));
    assert(v.drop_last() =~= views(names.take(i)));
    assert(v.last() == names[i]@);
}

/// The year directories that a query selects, in the order given.
pub fn list_posts_year(query: &Query, names: &Vec<String>) -> (r: Vec<String>)
    ensures
        views(r@) == filter_names(views(names@), |y: Seq<char>| spec_match_year(query.model(), y)),
{
    let ghost keep = |y: Seq<char>| spec_match_year(query.model(), y);
    let mut r: Vec<String> = Vec::new();
    let mut i: usize = 0;
    while i < names.len()
        invariant
            i <= names.len(),
            keep == (|y: Seq<char>| spec_match_year(query.model(), y)),
            views(r@) == filter_names(views(names@.take(i as int)), keep),
        decreases names.len() - i,
    {
        proof {
            lemma_filter_step(names@, i as int, keep);
        }
        if query.match_year(names[i].as_str()) {
            r.push(names[i].clone());
            assert(views(r@) =~= filter_names(views(names@.take(i as int)), keep).push(
                names@[i as int]@,
            ));
        }
        i = i + 1;
    }
    assert(names@.take(names@.len() as int) =~= names@);
    r
}

/// The month directories that a query selects, in the order given.
pub fn list_posts_month(query: &Query, names: &Vec<String>) -> (r: Vec<String>)
    ensures
        views(r@) == filter_names(
            views(names@),
            |m: Seq<char>| spec_match_month(query.model(), m),
        ),
{
    let ghost keep = |m: Seq<char>| spec_match_month(query.model(), m);
    let mut r: Vec<String> = Vec::new();
    let mut i: usize = 0;
    while i < names.len()
        invariant
            i <= names.len(),
            keep == (|m: Seq<char>| spec_match_month(query.model(), m)),
            views(r@) == filter_names(views(names@.take(i as int)), keep),
        decreases names.len() - i,
    {
        proof {
            lemma_filter_step(names@, i as int, keep);
        }
        if query.match_month(names[i].as_str()) {
            r.push(names[i].clone());
            assert(views(r@) =~= filter_names(views(names@.take(i as int)), keep).push(
                names@[i as int]@,
            ));
        }
        i = i + 1;
    }
    assert(names@.take(names@.len() as int) =~= names@);
    r
}

fn selects_file_x(query: &Query, name: &str) -> (r: bool)
    ensures
        r == selects_file(query.model(), name@),
{
    let (_, ext) = split_file_name(name);
    let json = "json";
    proof {
        reveal_strlit("json");
        assert(json@ =~= seq!['j', 's', 'o', 'n']);
    }
    match ext {
        Some(e) => {
            if !crate::text::str_eq(e, json) {
                return false;
            }
        },
        None => {
            return false;
        },
    }
    proof {
        vstd::utf8::encode_utf8_valid_utf8(stem_and_extension(name@).0);
    }
    match stem_get(name, 8, false, 10) {
        Some(day) => {
            if !query.match_day(day) {
                return false;
            }
        },
        None => {
            return false;
        },
    }
    let r = match get_date(name) {
        Some(date) => query.match_date(date),
        None => false,
    };
    r
}

/// The post files of a month directory that a query selects, in the order given.
pub fn list_posts_day(query: &Query, names: &Vec<String>) -> (r: Vec<String>)
    ensures
        views(r@) == filter_names(views(names@), |n: Seq<char>| selects_file(query.model(), n)),
{
    let ghost keep = |n: Seq<char>| selects_file(query.model(), n);
    let mut r: Vec<String> = Vec::new();
    let mut i: usize = 0;
    while i < names.len()
        invariant
            i <= names.len(),
            keep == (|n: Seq<char>| selects_file(query.model(), n)),
            views(r@) == filter_names(views(names@.take(i as int)), keep),
        decreases names.len() - i,
    {
        proof {
            lemma_filter_step(names@, i as int, keep);
        }
        if selects_file_x(query, names[i].as_str()) {
            r.push(names[i].clone());
            assert(views(r@) =~= filter_names(views(names@.take(i as int)), keep).push(
                names@[i as int]@,
            ));
        }
        i = i + 1;
    }
    assert(names@.take(names@.len() as int) =~= names@);
    r
}

// ---------------------------------------------------------------------------
// Posts

/// The `title` of a JSON text, as serde_json reads it: the string value of
/// the member `title` of the object.
pub uninterp spec fn json_title_of(content: Seq<char>) -> Option<Seq<char>>;

/// `serde_json::from_str::<Value>`, `get("title")` and `as_str`. Its contract
/// names the result and says nothing more of it.
#[verifier::external_body]
fn meta_title(content: &str) -> (r: Option<String>)
    ensures
        match r {
            Some(t) => json_title_of(content@) == Some(t@),
            None => json_title_of(content@) is None,
        },
{
    let value: serde_json::Value = serde_json::from_str(content).ok()?;
    value.get("title")?.as_str().map(|t| t.to_string())
}

/// A post as the contracts see it: date, title, title id.
pub type PostModel = (Seq<char>, Seq<char>, Option<Seq<char>>);

impl Post {
    pub open spec fn model(&self) -> PostModel {
        (
            self.date@,
            self.title@,
            match self.id_title {
                Some(t) => Some(t@),
                None => None,
            },
        )
    }
}

/// The post that a selected file makes: its date and title id from the file
/// name, its title from the JSON content.
pub open spec fn post_of(name: Seq<char>, content: Seq<char>) -> Option<PostModel> {
    match (date_part(name), json_title_of(content)) {
        (Some(d), Some(t)) => Some((d, t, id_title_part(name))),
        _ => None,
    }
}

/// The post of a file, from its name and its content.
pub fn read_post(name: &str, content: &str) -> (r: Option<Post>)
    ensures
        match post_of(name@, content@) {
            Some(p) => r matches Some(post) && post.model() == p,
            None => r is None,
        },
{
    let date = match get_date(name) {
        Some(d) => d.to_owned(),
        None => return None,
    };
    let title = match meta_title(content) {
        Some(t) => t,
        None => return None,
    };
    let id_title = match get_id_title(name) {
        Some(t) => Some(t.to_owned()),
        None => None,
    };
    Some(Post { date, title, id_title })
}

/// `a <= b` in the order of `Option<String>`: `None` first.
pub open spec fn opt_le(a: Option<Seq<char>>, b: Option<Seq<char>>) -> bool {
    match (a, b) {
        (None, _) => true,
        (Some(_), None) => false,
        (Some(x), Some(y)) => bytes_le(encode_utf8(x), encode_utf8(y)),
    }
}

/// `a <= b` in the order of `Post`: by date, then title, then title id.
pub open spec fn post_le(a: PostModel, b: PostModel) -> bool {
    let (da, db) = (encode_utf8(a.0), encode_utf8(b.0));
    let (ta, tb) = (encode_utf8(a.1), encode_utf8(b.1));
    if da != db {
        bytes_le(da, db)
    } else if ta != tb {
        bytes_le(ta, tb)
    } else {
        opt_le(a.2, b.2)
    }
}

/// Each post comes, in the order of `Post`, no later than the next.
pub open spec fn sorted(ps: Seq<Post>) -> bool {
    forall|i: int| 0 <= i < ps.len() - 1 ==> post_le(#[trigger] ps[i].model(), ps[i + 1].model())
}

/// The order of bytes is total; two sequences each no greater than the other are equal.
pub proof fn lemma_bytes_le_total(a: Seq<u8>, b: Seq<u8>)
    ensures
        bytes_le(a, b) || bytes_le(b, a),
        bytes_le(a, b) && bytes_le(b, a) ==> a == b,
    decreases a.len(),
{
    if a.len() > 0 && b.len() > 0 && a[0] == b[0] {
        lemma_bytes_le_total(a.drop_first(), b.drop_first());
        if bytes_le(a, b) && bytes_le(b, a) {
            assert(a =~= seq![a[0]] + a.drop_first());
            assert(b =~= seq![b[0]] + b.drop_first());
        }
    } else if a.len() == 0 && b.len() == 0 {
        assert(a =~= b);
    }
}

proof fn lemma_post_le_total(a: PostModel, b: PostModel)
    ensures
        !post_le(a, b) ==> post_le(b, a),
{
    lemma_bytes_le_total(encode_utf8(a.0), encode_utf8(b.0));
    lemma_bytes_le_total(encode_utf8(a.1), encode_utf8(b.1));
    match (a.2, b.2) {
        (Some(x), Some(y)) => lemma_bytes_le_total(encode_utf8(x), encode_utf8(y)),
        _ => {},
    }
}

fn opt_le_x(a: &Option<String>, b: &Option<String>) -> (r: bool)
    ensures
        r == opt_le(
            match a {
                Some(t) => Some(t@),
                None => None,
            },
            match b {
                Some(t) => Some(t@),
                None => None,
            },
        ),
{
    match (a, b) {
        (None, _) => true,
        (Some(_), None) => false,
        (Some(x), Some(y)) => bytes_le_x(x.as_str().as_bytes(), y.as_str().as_bytes()),
    }
}

fn post_le_x(a: &Post, b: &Post) -> (r: bool)
    ensures
        r == post_le(a.model(), b.model()),
{
    let da = a.date.as_str().as_bytes();
    let db = b.date.as_str().as_bytes();
    if !crate::text::bytes_eq_x(da, db) {
        return bytes_le_x(da, db);
    }
    let ta = a.title.as_str().as_bytes();
    let tb = b.title.as_str().as_bytes();
    if !crate::text::bytes_eq_x(ta, tb) {
        return bytes_le_x(ta, tb);
    }
    opt_le_x(&a.id_title, &b.id_title)
}

/// The posts as the contracts see them.
pub open spec fn models(ps: Seq<Post>) -> Seq<PostModel> {
    ps.map_values(|p: Post| p.model())
}

/// The posts in the order of `Post`, by insertion.
pub fn sort_posts(posts: Vec<Post>) -> (r: Vec<Post>)
    ensures
        models(r@).to_multiset() == models(posts@).to_multiset(),
        sorted(r@),
{
    broadcast use vstd::multiset::group_multiset_axioms;
    broadcast use vstd::seq_lib::group_to_multiset_ensures;
    broadcast use vstd::multiset::lemma_multiset_empty_len;

    let mut rest = posts;
    let mut r: Vec<Post> = Vec::new();
    let ghost all = models(rest@).to_multiset();
    assert(models(r@).to_multiset() =~= Multiset::<PostModel>::empty());
    while rest.len() > 0
        invariant
            models(r@).to_multiset().add(models(rest@).to_multiset()) == all,
            sorted(r@),
        decreases rest.len(),
    {
        let ghost before_rest = rest@;
        let ghost before_r = r@;
        let p = rest.remove(0);
        proof {
            assert(models(rest@) =~= models(before_rest).remove(0));
            vstd::seq_lib::to_multiset_remove(models(before_rest), 0);
        }
        let mut j: usize = 0;
        while j < r.len() && post_le_x(&r[j], &p)
            invariant
                j <= r.len(),
                r@ == before_r,
                forall|k: int| 0 <= k < j ==> post_le(#[trigger] r@[k].model(), p.model()),
            decreases r.len() - j,
        {
            j = j + 1;
        }
        proof {
            if j < r.len() {
                lemma_post_le_total(r@[j as int].model(), p.model());
            }
        }
        let ghost gp = p;
        r.insert(j, p);
        proof {
            assert(r@ == before_r.insert(j as int, gp));
            assert forall|i: int| 0 <= i < r@.len() - 1 implies post_le(
                #[trigger] r@[i].model(),
                r@[i + 1].model(),
            ) by {
                if i < j - 1 {
                    assert(r@[i] == before_r[i] && r@[i + 1] == before_r[i + 1]);
                } else if i == j - 1 {
                    assert(r@[i] == before_r[i]);
                } else if i == j {
                } else {
                    assert(r@[i] == before_r[i - 1] && r@[i + 1] == before_r[i]);
                }
            }
            assert(models(r@) =~= models(before_r).insert(j as int, gp.model()));
            vstd::seq_lib::to_multiset_insert(models(before_r), j as int, gp.model());
            assert(models(before_r).to_multiset().add(models(before_rest).to_multiset()) == all);
            assert(gp == before_rest[0]);
            assert(models(before_rest)[0] == gp.model());
            assert(models(before_rest).contains(gp.model()));
            vstd::seq_lib::to_multiset_contains(models(before_rest), gp.model());
            assert(models(before_rest).to_multiset().count(gp.model()) > 0);
            assert(models(before_rest).to_multiset() =~= models(rest@).to_multiset().insert(
                gp.model(),
            ));
            assert(models(r@).to_multiset() =~= models(before_r).to_multiset().insert(gp.model()));
            assert(models(r@).to_multiset().add(models(rest@).to_multiset()) =~= all);
        }
    }
    assert(models(rest@).to_multiset() =~= Multiset::<PostModel>::empty());
    assert(models(r@).to_multiset() =~= all);
    r
}

/// The posts of the selected files, given as (file name, content) pairs, in
/// the order of `Post`; `Meta` where a file gives no post.
pub fn list_posts(files: &Vec<(String, String)>) -> (r: Result<Vec<Post>, ListPostsError>)
    ensures
        (forall|i: int|
            0 <= i < files@.len() ==> post_of(#[trigger] files@[i].0@, files@[i].1@) is Some)
            ==> (r matches Ok(ps) && sorted(ps@) && models(ps@).to_multiset() == files@.map_values(
            |f: (String, String)| post_of(f.0@, f.1@).unwrap(),
        ).to_multiset()),
        (exists|i: int|
            0 <= i < files@.len() && post_of(#[trigger] files@[i].0@, files@[i].1@) is None)
            ==> r == Err::<Vec<Post>, ListPostsError>(ListPostsError::Meta),
{
    let mut posts: Vec<Post> = Vec::new();
    let mut i: usize = 0;
    while i < files.len()
        invariant
            i <= files.len(),
            posts@.len() == i,
            forall|k: int|
                0 <= k < i ==> post_of(files@[k].0@, files@[k].1@) == Some(
                    #[trigger] posts@[k].model(),
                ),
        decreases files.len() - i,
    {
        match read_post(files[i].0.as_str(), files[i].1.as_str()) {
            Some(p) => posts.push(p),
            None => {
                assert(post_of(files@[i as int].0@, files@[i as int].1@) is None);
                return Err(ListPostsError::Meta);
            },
        }
        i = i + 1;
    }
    assert forall|k: int| 0 <= k < files@.len() implies post_of(
        #[trigger] files@[k].0@,
        files@[k].1@,
    ) is Some by {
        assert(post_of(files@[k].0@, files@[k].1@) == Some(posts@[k].model()));
    }
    let ghost unsorted = posts@;
    let r = sort_posts(posts);
    proof {
        let want = files@.map_values(|f: (String, String)| post_of(f.0@, f.1@).unwrap());
        assert(models(unsorted) =~= want);
    }
    Ok(r)
}

} // verus!
