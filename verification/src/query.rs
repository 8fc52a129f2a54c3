//! Queries that select blog posts by date: `date:2021-02-03`, `date:2021-02`,
//! `date:2021`, `date:--02-03`, `date:--02`, `date:---03`, or a range
//! `date:2021-02-03/2022-03-04`. The empty query selects every post.
use crate::json_grammar::{at, is_digit};
use crate::text::{
    bytes_eq_range, bytes_le, bytes_le_x, lemma_encode_utf8_concat, push_bytes, push_char,
    push_str, str_eq, to_chars,
};
use vstd::prelude::*;
use vstd::string::StringSliceAdditionalSpecFns;
use vstd::utf8::{encode_utf8, is_char_boundary};

verus! {

/// A query: a date pattern, or a range of dates.
#[derive(Debug, Eq, PartialEq)]
pub enum Query<'a> {
    Date(Date<'a>),
    DateRange(DateRange<'a>),
}

/// A date pattern: year, month and day, each given or left open.
/// A year and a day are never given without the month.
#[derive(Debug, Eq, PartialEq)]
pub struct Date<'a>(Option<&'a str>, Option<&'a str>, Option<&'a str>);

/// A full date `YYYY-MM-DD`, as year, month and day.
#[derive(Debug, Eq, PartialEq)]
pub struct DateRangeDate<'a>(&'a str, &'a str, &'a str);

/// The dates from the first to the second, both included.
#[derive(Debug, Eq, PartialEq)]
pub struct DateRange<'a>(DateRangeDate<'a>, DateRangeDate<'a>);

/// The text is not a query.
#[derive(Debug, Eq, PartialEq)]
pub enum ParseQueryError {
    Parse,
}

/// A query, as the contracts see it.
pub enum QueryModel {
    Date(Option<Seq<char>>, Option<Seq<char>>, Option<Seq<char>>),
    DateRange(Seq<char>, Seq<char>, Seq<char>, Seq<char>, Seq<char>, Seq<char>),
}

/// An optional part as the contracts see it.
pub open spec fn opt_view(o: Option<&str>) -> Option<Seq<char>> {
    match o {
        Some(x) => Some(x@),
        None => None,
    }
}

impl<'a> Date<'a> {
    #[verifier::type_invariant]
    spec fn year_needs_month(self) -> bool {
        !(self.0 is Some && self.1 is None && self.2 is Some)
    }

    pub closed spec fn year(&self) -> Option<Seq<char>> {
        opt_view(self.0)
    }

    pub closed spec fn month(&self) -> Option<Seq<char>> {
        opt_view(self.1)
    }

    pub closed spec fn day(&self) -> Option<Seq<char>> {
        opt_view(self.2)
    }
}

impl<'a> DateRangeDate<'a> {
    pub closed spec fn parts(&self) -> (Seq<char>, Seq<char>, Seq<char>) {
        (self.0@, self.1@, self.2@)
    }
}

impl<'a> DateRange<'a> {
    pub closed spec fn first(&self) -> (Seq<char>, Seq<char>, Seq<char>) {
        self.0.parts()
    }

    pub closed spec fn last(&self) -> (Seq<char>, Seq<char>, Seq<char>) {
        self.1.parts()
    }
}

impl<'a> Query<'a> {
    pub open spec fn model(&self) -> QueryModel {
        match self {
            Query::Date(d) => QueryModel::Date(d.year(), d.month(), d.day()),
            Query::DateRange(r) => QueryModel::DateRange(
                r.first().0,
                r.first().1,
                r.first().2,
                r.last().0,
                r.last().1,
                r.last().2,
            ),
        }
    }
}

// ---------------------------------------------------------------------------
// The grammar

/// `n` digits from `p` on.
pub open spec fn digits_at(s: Seq<char>, p: int, n: int) -> bool {
    0 <= p && p + n <= s.len() && forall|k: int| p <= k < p + n ==> is_digit(#[trigger] s[k])
}

/// `YYYY-MM-DD` from `p` on.
pub open spec fn ymd_at(s: Seq<char>, p: int) -> bool {
    digits_at(s, p, 4) && at(s, p + 4, '-') && digits_at(s, p + 5, 2) && at(s, p + 7, '-')
        && digits_at(s, p + 8, 2)
}

/// `YYYY-MM-DD/YYYY-MM-DD` from `p` on.
pub open spec fn range_at(s: Seq<char>, p: int) -> bool {
    ymd_at(s, p) && at(s, p + 10, '/') && ymd_at(s, p + 11)
}

/// `YYYY-MM` from `p` on.
pub open spec fn ym_at(s: Seq<char>, p: int) -> bool {
    digits_at(s, p, 4) && at(s, p + 4, '-') && digits_at(s, p + 5, 2)
}

/// `--MM-DD` from `p` on.
pub open spec fn md_at(s: Seq<char>, p: int) -> bool {
    at(s, p, '-') && at(s, p + 1, '-') && digits_at(s, p + 2, 2) && at(s, p + 4, '-')
        && digits_at(s, p + 5, 2)
}

/// `--MM` from `p` on.
pub open spec fn m_at(s: Seq<char>, p: int) -> bool {
    at(s, p, '-') && at(s, p + 1, '-') && digits_at(s, p + 2, 2)
}

/// `---DD` from `p` on.
pub open spec fn d_at(s: Seq<char>, p: int) -> bool {
    at(s, p, '-') && at(s, p + 1, '-') && at(s, p + 2, '-') && digits_at(s, p + 3, 2)
}

/// `s` is exactly `n` characters long from `p` on.
pub open spec fn ends_at(s: Seq<char>, p: int, n: int) -> bool {
    s.len() == p + n
}

/// The part of a query after `date:`, at `p`: the first form whose pattern
/// starts there is taken, and it must reach the end of the text.
pub open spec fn query_body_of(s: Seq<char>, p: int) -> Option<QueryModel> {
    let part = |i: int, n: int| s.subrange(p + i, p + i + n);
    if range_at(s, p) {
        if ends_at(s, p, 21) {
            Some(
                QueryModel::DateRange(
                    part(0, 4),
                    part(5, 2),
                    part(8, 2),
                    part(11, 4),
                    part(16, 2),
                    part(19, 2),
                ),
            )
        } else {
            None
        }
    } else if ymd_at(s, p) {
        if ends_at(s, p, 10) {
            Some(QueryModel::Date(Some(part(0, 4)), Some(part(5, 2)), Some(part(8, 2))))
        } else {
            None
        }
    } else if ym_at(s, p) {
        if ends_at(s, p, 7) {
            Some(QueryModel::Date(Some(part(0, 4)), Some(part(5, 2)), None))
        } else {
            None
        }
    } else if digits_at(s, p, 4) {
        if ends_at(s, p, 4) {
            Some(QueryModel::Date(Some(part(0, 4)), None, None))
        } else {
            None
        }
    } else if md_at(s, p) {
        if ends_at(s, p, 7) {
            Some(QueryModel::Date(None, Some(part(2, 2)), Some(part(5, 2))))
        } else {
            None
        }
    } else if m_at(s, p) {
        if ends_at(s, p, 4) {
            Some(QueryModel::Date(None, Some(part(2, 2)), None))
        } else {
            None
        }
    } else if d_at(s, p) {
        if ends_at(s, p, 5) {
            Some(QueryModel::Date(None, None, Some(part(3, 2))))
        } else {
            None
        }
    } else {
        None
    }
}

/// `s` starts with `date:`.
pub open spec fn has_date_tag(s: Seq<char>) -> bool {
    at(s, 0, 'd') && at(s, 1, 'a') && at(s, 2, 't') && at(s, 3, 'e') && at(s, 4, ':')
}

/// The query that a text stands for: the empty text selects everything.
pub open spec fn query_of(s: Seq<char>) -> Option<QueryModel> {
    if s.len() == 0 {
        Some(QueryModel::Date(None, None, None))
    } else if has_date_tag(s) {
        query_body_of(s, 5)
    } else {
        None
    }
}

// ---------------------------------------------------------------------------
// Printing

/// `y-m-d`.
pub open spec fn ymd_text(y: Seq<char>, m: Seq<char>, d: Seq<char>) -> Seq<char> {
    y + seq!['-'] + m + seq!['-'] + d
}

/// How a date pattern is written.
pub open spec fn date_text(y: Option<Seq<char>>, m: Option<Seq<char>>, d: Option<Seq<char>>) -> Seq<
    char,
> {
    match (y, m, d) {
        (None, None, None) => seq![],
        (None, None, Some(dd)) => seq!['-', '-', '-'] + dd,
        (None, Some(mm), None) => seq!['-', '-'] + mm,
        (None, Some(mm), Some(dd)) => seq!['-', '-'] + mm + seq!['-'] + dd,
        (Some(yy), None, None) => yy,
        (Some(_), None, Some(_)) => seq![],
        (Some(yy), Some(mm), None) => yy + seq!['-'] + mm,
        (Some(yy), Some(mm), Some(dd)) => ymd_text(yy, mm, dd),
    }
}

/// How a query is written: `date:` and the date pattern or the range.
pub open spec fn query_text(q: QueryModel) -> Seq<char> {
    seq!['d', 'a', 't', 'e', ':'] + match q {
        QueryModel::Date(y, m, d) => date_text(y, m, d),
        QueryModel::DateRange(y1, m1, d1, y2, m2, d2) => ymd_text(y1, m1, d1) + seq!['/']
            + ymd_text(y2, m2, d2),
    }
}

// ---------------------------------------------------------------------------
// Matching

/// `b[i..j]` as `str::get` gives it: only between character boundaries.
pub open spec fn str_get(b: Seq<u8>, i: int, j: int) -> Option<Seq<u8>> {
    if 0 <= i <= j <= b.len() && is_char_boundary(b, i) && is_char_boundary(b, j) {
        Some(b.subrange(i, j))
    } else {
        None
    }
}

/// A field of a date pattern matches a part: it is open, or equal to the part.
pub open spec fn field_matches(f: Option<Seq<char>>, part: Seq<char>) -> bool {
    match f {
        Some(x) => x == part,
        None => true,
    }
}

/// Same, with the part given in UTF-8.
pub open spec fn field_matches_bytes(f: Option<Seq<char>>, part: Seq<u8>) -> bool {
    match f {
        Some(x) => encode_utf8(x) == part,
        None => true,
    }
}

/// `lo <= x <= hi` in the order of `str`.
pub open spec fn str_between(lo: Seq<char>, x: Seq<char>, hi: Seq<char>) -> bool {
    bytes_le(encode_utf8(lo), encode_utf8(x)) && bytes_le(encode_utf8(x), encode_utf8(hi))
}

/// Whether a query selects a year directory.
pub open spec fn spec_match_year(q: QueryModel, year: Seq<char>) -> bool {
    match q {
        QueryModel::Date(y, _, _) => field_matches(y, year),
        QueryModel::DateRange(y1, _, _, y2, _, _) => str_between(y1, year, y2),
    }
}

/// Whether a query selects a month directory. A range over several years
/// selects every month.
pub open spec fn spec_match_month(q: QueryModel, month: Seq<char>) -> bool {
    match q {
        QueryModel::Date(_, m, _) => field_matches(m, month),
        QueryModel::DateRange(y1, m1, _, y2, m2, _) => y1 != y2 || str_between(m1, month, m2),
    }
}

/// Whether a query selects a day. A range over several months selects every day.
pub open spec fn spec_match_day(q: QueryModel, day: Seq<char>) -> bool {
    match q {
        QueryModel::Date(_, _, d) => field_matches(d, day),
        QueryModel::DateRange(y1, m1, d1, y2, m2, d2) => y1 != y2 || m1 != m2 || str_between(
            d1,
            day,
            d2,
        ),
    }
}

/// Whether a query selects a date `YYYY-MM-DD`. A date pattern reads the
/// year, month and day at bytes 0..4, 5..7 and 8..10 and is false where these
/// are not there; a range compares the whole text with its two ends.
pub open spec fn spec_match_date(q: QueryModel, date: Seq<char>) -> bool {
    let b = encode_utf8(date);
    match q {
        QueryModel::Date(y, m, d) => match (str_get(b, 0, 4), str_get(b, 5, 7), str_get(b, 8, 10)) {
            (Some(yb), Some(mb), Some(db)) => field_matches_bytes(y, yb) && field_matches_bytes(
                m,
                mb,
            ) && field_matches_bytes(d, db),
            _ => false,
        },
        QueryModel::DateRange(y1, m1, d1, y2, m2, d2) => str_between(
            ymd_text(y1, m1, d1),
            date,
            ymd_text(y2, m2, d2),
        ),
    }
}

// ---------------------------------------------------------------------------
// Parsing

fn digits_at_x(cs: &Vec<char>, p: usize, n: usize) -> (r: bool)
    requires
        p <= 100,
        n <= 100,
    ensures
        r == digits_at(cs@, p as int, n as int),
{
    if p + n > cs.len() {
        return false;
    }
    let mut k = p;
    while k < p + n
        invariant
            p <= k <= p + n <= cs.len(),
            forall|i: int| p <= i < k ==> is_digit(#[trigger] cs@[i]),
        decreases p + n - k,
    {
        if !('0' <= cs[k] && cs[k] <= '9') {
            return false;
        }
        k = k + 1;
    }
    true
}

fn at_x(cs: &Vec<char>, p: usize, c: char) -> (r: bool)
    ensures
        r == at(cs@, p as int, c),
{
    p < cs.len() && cs[p] == c
}

fn ymd_at_x(cs: &Vec<char>, p: usize) -> (r: bool)
    requires
        p <= 50,
    ensures
        r == ymd_at(cs@, p as int),
{
    digits_at_x(cs, p, 4) && at_x(cs, p + 4, '-') && digits_at_x(cs, p + 5, 2) && at_x(
        cs,
        p + 7,
        '-',
    ) && digits_at_x(cs, p + 8, 2)
}

/// Reads a query. The empty text is the query that selects every post.
pub fn parse<'a>(s: &'a str) -> (res: Result<Query<'a>, ParseQueryError>)
    ensures
        match query_of(s@) {
            Some(q) => res matches Ok(v) && v.model() == q,
            None => res == Err::<Query<'a>, ParseQueryError>(ParseQueryError::Parse),
        },
{
    let cs = to_chars(s);
    let n = cs.len();
    if n == 0 {
        return Ok(Query::Date(Date(None, None, None)));
    }
    if !(at_x(&cs, 0, 'd') && at_x(&cs, 1, 'a') && at_x(&cs, 2, 't') && at_x(&cs, 3, 'e')
        && at_x(&cs, 4, ':')) {
        return Err(ParseQueryError::Parse);
    }
    let p: usize = 5;
    if ymd_at_x(&cs, p) && at_x(&cs, p + 10, '/') && ymd_at_x(&cs, p + 11) {
        if n == p + 21 {
            let first = DateRangeDate(
                s.substring_char(p, p + 4),
                s.substring_char(p + 5, p + 7),
                s.substring_char(p + 8, p + 10),
            );
            let last = DateRangeDate(
                s.substring_char(p + 11, p + 15),
                s.substring_char(p + 16, p + 18),
                s.substring_char(p + 19, p + 21),
            );
            return Ok(Query::DateRange(DateRange(first, last)));
        }
        return Err(ParseQueryError::Parse);
    }
    if ymd_at_x(&cs, p) {
        if n == p + 10 {
            return Ok(
                Query::Date(
                    Date(
                        Some(s.substring_char(p, p + 4)),
                        Some(s.substring_char(p + 5, p + 7)),
                        Some(s.substring_char(p + 8, p + 10)),
                    ),
                ),
            );
        }
        return Err(ParseQueryError::Parse);
    }
    if digits_at_x(&cs, p, 4) && at_x(&cs, p + 4, '-') && digits_at_x(&cs, p + 5, 2) {
        if n == p + 7 {
            return Ok(
                Query::Date(
                    Date(
                        Some(s.substring_char(p, p + 4)),
                        Some(s.substring_char(p + 5, p + 7)),
                        None,
                    ),
                ),
            );
        }
        return Err(ParseQueryError::Parse);
    }
    if digits_at_x(&cs, p, 4) {
        if n == p + 4 {
            return Ok(Query::Date(Date(Some(s.substring_char(p, p + 4)), None, None)));
        }
        return Err(ParseQueryError::Parse);
    }
    if at_x(&cs, p, '-') && at_x(&cs, p + 1, '-') && digits_at_x(&cs, p + 2, 2) && at_x(
        &cs,
        p + 4,
        '-',
    ) && digits_at_x(&cs, p + 5, 2) {
        if n == p + 7 {
            return Ok(
                Query::Date(
                    Date(
                        None,
                        Some(s.substring_char(p + 2, p + 4)),
                        Some(s.substring_char(p + 5, p + 7)),
                    ),
                ),
            );
        }
        return Err(ParseQueryError::Parse);
    }
    if at_x(&cs, p, '-') && at_x(&cs, p + 1, '-') && digits_at_x(&cs, p + 2, 2) {
        if n == p + 4 {
            return Ok(Query::Date(Date(None, Some(s.substring_char(p + 2, p + 4)), None)));
        }
        return Err(ParseQueryError::Parse);
    }
    if at_x(&cs, p, '-') && at_x(&cs, p + 1, '-') && at_x(&cs, p + 2, '-') && digits_at_x(
        &cs,
        p + 3,
        2,
    ) {
        if n == p + 5 {
            return Ok(Query::Date(Date(None, None, Some(s.substring_char(p + 3, p + 5)))));
        }
        return Err(ParseQueryError::Parse);
    }
    Err(ParseQueryError::Parse)
}

impl<'a> std::convert::TryFrom<&'a str> for Query<'a> {
    type Error = ParseQueryError;

    fn try_from(value: &'a str) -> (r: Result<Self, Self::Error>)
        ensures
            match query_of(value@) {
                Some(q) => r matches Ok(v) && v.model() == q,
                None => r == Err::<Query<'a>, ParseQueryError>(ParseQueryError::Parse),
            },
    {
        parse(value)
    }
}

impl<'a> vstd::std_specs::convert::TryFromSpecImpl<&'a str> for Query<'a> {
    /// A query is told by its model only, not by the string slices that
    /// hold it, so `try_from` is held to `try_from_spec` through its model:
    /// that is stated on `try_from` itself.
    open spec fn obeys_try_from_spec() -> bool {
        false
    }

    /// A query whose model is what `query_of` reads, or the parse error.
    open spec fn try_from_spec(v: &'a str) -> Result<Self, ParseQueryError> {
        match query_of(v@) {
            Some(m) => Ok(choose|q: Query<'a>| q.model() == m),
            None => Err(ParseQueryError::Parse),
        }
    }
}

// ---------------------------------------------------------------------------
// Printing and matching

fn ymd_string(out: &mut String, y: &str, m: &str, d: &str)
    ensures
        final(out)@ == old(out)@ + ymd_text(y@, m@, d@),
{
    push_str(out, y);
    push_char(out, '-');
    push_str(out, m);
    push_char(out, '-');
    push_str(out, d);
    assert(out@ =~= old(out)@ + ymd_text(y@, m@, d@));
}

fn ymd_bytes(y: &str, m: &str, d: &str) -> (v: Vec<u8>)
    ensures
        v@ == encode_utf8(ymd_text(y@, m@, d@)),
{
    let dash = "-";
    proof {
        reveal_strlit("-");
        lemma_encode_utf8_concat(y@ + seq!['-'] + m@ + seq!['-'], d@);
        lemma_encode_utf8_concat(y@ + seq!['-'] + m@, seq!['-']);
        lemma_encode_utf8_concat(y@ + seq!['-'], m@);
        lemma_encode_utf8_concat(y@, seq!['-']);
    }
    let mut v: Vec<u8> = Vec::new();
    push_bytes(&mut v, y.as_bytes());
    push_bytes(&mut v, dash.as_bytes());
    push_bytes(&mut v, m.as_bytes());
    push_bytes(&mut v, dash.as_bytes());
    push_bytes(&mut v, d.as_bytes());
    assert(dash@ == seq!['-']);
    assert(v@ =~= encode_utf8(ymd_text(y@, m@, d@)));
    v
}

fn str_between_x(lo: &[u8], x: &[u8], hi: &[u8]) -> (r: bool)
    ensures
        r == (bytes_le(lo@, x@) && bytes_le(x@, hi@)),
{
    bytes_le_x(lo, x) && bytes_le_x(x, hi)
}

fn field_matches_x(f: Option<&str>, part: &str) -> (r: bool)
    ensures
        r == field_matches(opt_view(f), part@),
{
    match f {
        Some(x) => str_eq(x, part),
        None => true,
    }
}

fn field_matches_bytes_x(f: Option<&str>, b: &[u8], i: usize, j: usize) -> (r: bool)
    requires
        i <= j <= b@.len(),
    ensures
        r == field_matches_bytes(opt_view(f), b@.subrange(i as int, j as int)),
{
    match f {
        Some(x) => bytes_eq_range(x.as_bytes(), b, i, j),
        None => true,
    }
}

fn str_get_ok(s: &str, i: usize, j: usize) -> (r: bool)
    ensures
        r == (str_get(s.spec_bytes(), i as int, j as int) is Some),
{
    proof {
        vstd::utf8::encode_utf8_valid_utf8(s@);
    }
    let n = s.as_bytes().len();
    if i <= j && j <= n {
        let a = s.is_char_boundary(i);
        let b = s.is_char_boundary(j);
        a && b
    } else {
        false
    }
}

impl<'a> Date<'a> {
    fn match_date(&self, date: &str) -> (r: bool)
        ensures
            r == spec_match_date(QueryModel::Date(self.year(), self.month(), self.day()), date@),
    {
        let b = date.as_bytes();
        if !(str_get_ok(date, 0, 4) && str_get_ok(date, 5, 7) && str_get_ok(date, 8, 10)) {
            return false;
        }
        field_matches_bytes_x(self.0, b, 0, 4) && field_matches_bytes_x(self.1, b, 5, 7)
            && field_matches_bytes_x(self.2, b, 8, 10)
    }
}

impl<'a> Query<'a> {
    /// Whether the query selects the year directory `year`.
    pub fn match_year(&self, year: &str) -> (r: bool)
        ensures
            r == spec_match_year(self.model(), year@),
    {
        match self {
            Query::Date(d) => field_matches_x(d.0, year),
            Query::DateRange(r) => str_between_x(r.0.0.as_bytes(), year.as_bytes(), r.1.0.as_bytes()),
        }
    }

    /// Whether the query selects the month directory `month`.
    pub fn match_month(&self, month: &str) -> (r: bool)
        ensures
            r == spec_match_month(self.model(), month@),
    {
        match self {
            Query::Date(d) => field_matches_x(d.1, month),
            Query::DateRange(r) => {
                if !str_eq(r.0.0, r.1.0) {
                    return true;
                }
                str_between_x(r.0.1.as_bytes(), month.as_bytes(), r.1.1.as_bytes())
            },
        }
    }

    /// Whether the query selects the day `day` (the `DD` of a file name).
    pub fn match_day(&self, day: &str) -> (r: bool)
        ensures
            r == spec_match_day(self.model(), day@),
    {
        match self {
            Query::Date(d) => field_matches_x(d.2, day),
            Query::DateRange(r) => {
                if !str_eq(r.0.0, r.1.0) || !str_eq(r.0.1, r.1.1) {
                    return true;
                }
                str_between_x(r.0.2.as_bytes(), day.as_bytes(), r.1.2.as_bytes())
            },
        }
    }

    /// Whether the query selects the date `date` (`YYYY-MM-DD`).
    pub fn match_date(&self, date: &str) -> (r: bool)
        ensures
            r == spec_match_date(self.model(), date@),
    {
        match self {
            Query::Date(d) => d.match_date(date),
            Query::DateRange(r) => {
                let lo = ymd_bytes(r.0.0, r.0.1, r.0.2);
                let hi = ymd_bytes(r.1.0, r.1.1, r.1.2);
                str_between_x(lo.as_slice(), date.as_bytes(), hi.as_slice())
            },
        }
    }

    /// The query as text, as `parse` reads it: `date:` and the pattern or the range.
    pub fn to_string(&self) -> (r: String)
        ensures
            r@ == query_text(self.model()),
    {
        let mut out = String::new();
        push_char(&mut out, 'd');
        push_char(&mut out, 'a');
        push_char(&mut out, 't');
        push_char(&mut out, 'e');
        push_char(&mut out, ':');
        let ghost head = out@;
        assert(head =~= seq!['d', 'a', 't', 'e', ':']);
        match self {
            Query::Date(d) => {
                match (d.0, d.1, d.2) {
                    (None, None, None) => {},
                    (None, None, Some(dd)) => {
                        push_char(&mut out, '-');
                        push_char(&mut out, '-');
                        push_char(&mut out, '-');
                        push_str(&mut out, dd);
                    },
                    (None, Some(mm), None) => {
                        push_char(&mut out, '-');
                        push_char(&mut out, '-');
                        push_str(&mut out, mm);
                    },
                    (None, Some(mm), Some(dd)) => {
                        push_char(&mut out, '-');
                        push_char(&mut out, '-');
                        push_str(&mut out, mm);
                        push_char(&mut out, '-');
                        push_str(&mut out, dd);
                    },
                    (Some(yy), None, None) => {
                        push_str(&mut out, yy);
                    },
                    (Some(_), None, Some(_)) => {},
                    (Some(yy), Some(mm), None) => {
                        push_str(&mut out, yy);
                        push_char(&mut out, '-');
                        push_str(&mut out, mm);
                    },
                    (Some(yy), Some(mm), Some(dd)) => {
                        ymd_string(&mut out, yy, mm, dd);
                    },
                }
                assert(out@ =~= head + date_text(d.year(), d.month(), d.day()));
            },
            Query::DateRange(r) => {
                ymd_string(&mut out, r.0.0, r.0.1, r.0.2);
                push_char(&mut out, '/');
                ymd_string(&mut out, r.1.0, r.1.1, r.1.2);
                assert(out@ =~= head + (ymd_text(r.0.0@, r.0.1@, r.0.2@) + seq!['/'] + ymd_text(
                    r.1.0@,
                    r.1.1@,
                    r.1.2@,
                )));
            },
        }
        out
    }
}

/// A query that `parse` reads from a non-empty text is written back as that text.
pub proof fn lemma_query_text_round_trip(s: Seq<char>)
    requires
        s.len() > 0,
        query_of(s) is Some,
    ensures
        query_text(query_of(s).unwrap()) == s,
{
    let q = query_of(s).unwrap();
    assert(query_text(q) =~= s);
}

} // verus!
