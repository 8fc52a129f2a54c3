//! What the matchers of a query promise together: a date that a query
//! selects lies in a year directory and a month directory that it selects,
//! and its day is selected too, so the walk of the data directory misses no
//! selected post.
use crate::json_grammar::is_digit;
use crate::names::lemma_key_injective;
use crate::post::lemma_bytes_le_total;
use crate::query::{
    d_at, date_text, digits_at, md_at, m_at, query_body_of, query_of, query_text, range_at,
    spec_match_date, str_get, ym_at, ymd_at, spec_match_day, spec_match_month, spec_match_year,
    ymd_text, QueryModel,
};
use crate::text::{bytes_le, lemma_encode_utf8_concat};
use vstd::prelude::*;
use vstd::utf8::{
    encode_utf8, encode_utf8_valid_utf8, is_ascii_chars, is_ascii_chars_encode_utf8,
    is_char_boundary, is_char_boundary_iff_not_is_continuation_byte,
    is_char_boundary_start_end_of_seq,
};

verus! {

/// `s` is `n` digits.
pub open spec fn digit_text(s: Seq<char>, n: int) -> bool {
    s.len() == n && digits_at(s, 0, n)
}

/// The parts of a range are digits: four for a year, two for a month or a day.
pub open spec fn well_formed(q: QueryModel) -> bool {
    match q {
        QueryModel::Date(_, _, _) => true,
        QueryModel::DateRange(y1, m1, d1, y2, m2, d2) => digit_text(y1, 4) && digit_text(m1, 2)
            && digit_text(d1, 2) && digit_text(y2, 4) && digit_text(m2, 2) && digit_text(d2, 2),
    }
}

proof fn lemma_digits_encode(s: Seq<char>)
    requires
        digits_at(s, 0, s.len() as int),
    ensures
        encode_utf8(s).len() == s.len(),
{
    assert(is_ascii_chars(s)) by {
        assert forall|i: int| 0 <= i < s.len() implies '\0' <= #[trigger] s[i] <= '\u{7f}' by {
            assert(is_digit(s[i]));
        }
    }
    is_ascii_chars_encode_utf8(s);
}

proof fn lemma_bytes_le_refl(a: Seq<u8>)
    ensures
        bytes_le(a, a),
    decreases a.len(),
{
    if a.len() > 0 {
        lemma_bytes_le_refl(a.drop_first());
    }
}

/// Comparing two texts whose first parts have one length: the first parts
/// decide where they differ, else the rests do.
proof fn lemma_bytes_le_concat(x: Seq<u8>, x2: Seq<u8>, y: Seq<u8>, y2: Seq<u8>)
    requires
        x.len() == x2.len(),
    ensures
        bytes_le(x + y, x2 + y2) == if x == x2 {
            bytes_le(y, y2)
        } else {
            bytes_le(x, x2)
        },
    decreases x.len(),
{
    if x.len() == 0 {
        assert(x + y =~= y);
        assert(x2 + y2 =~= y2);
        assert(x =~= x2);
    } else {
        assert((x + y)[0] == x[0]);
        assert((x2 + y2)[0] == x2[0]);
        assert((x + y).drop_first() =~= x.drop_first() + y);
        assert((x2 + y2).drop_first() =~= x2.drop_first() + y2);
        lemma_bytes_le_concat(x.drop_first(), x2.drop_first(), y, y2);
        if x[0] == x2[0] {
            if x.drop_first() == x2.drop_first() {
                assert forall|k: int| 0 <= k < x.len() implies x[k] == x2[k] by {
                    if k > 0 {
                        assert(x[k] == x.drop_first()[k - 1]);
                        assert(x2[k] == x2.drop_first()[k - 1]);
                    }
                }
                assert(x =~= x2);
            } else {
                assert(x != x2);
            }
        }
    }
}

/// The UTF-8 of `y-m-d`, split at the year.
proof fn lemma_encode_ymd(y: Seq<char>, m: Seq<char>, d: Seq<char>)
    ensures
        encode_utf8(ymd_text(y, m, d)) == encode_utf8(y) + (seq![45u8] + (encode_utf8(m) + (
        seq![45u8] + encode_utf8(d)))),
{
    let dash = seq!['-'];
    assert(is_ascii_chars(dash));
    is_ascii_chars_encode_utf8(dash);
    assert(encode_utf8(dash) =~= seq![45u8]);
    lemma_encode_utf8_concat(dash, d);
    lemma_encode_utf8_concat(m, dash + d);
    lemma_encode_utf8_concat(dash, m + (dash + d));
    lemma_encode_utf8_concat(y, dash + (m + (dash + d)));
    assert(ymd_text(y, m, d) =~= y + (dash + (m + (dash + d))));
}

/// `lo <= x` for two dates `y-m-d` split into their parts: where the years
/// differ they decide, else the months, else the days.
proof fn lemma_ymd_le(y1: Seq<char>, m1: Seq<char>, d1: Seq<char>, y: Seq<char>, m: Seq<char>, d: Seq<char>)
    requires
        digit_text(y1, 4),
        digit_text(m1, 2),
        digit_text(y, 4),
        digit_text(m, 2),
    ensures
        bytes_le(encode_utf8(ymd_text(y1, m1, d1)), encode_utf8(ymd_text(y, m, d))) == if y1 != y {
            bytes_le(encode_utf8(y1), encode_utf8(y))
        } else if m1 != m {
            bytes_le(encode_utf8(m1), encode_utf8(m))
        } else {
            bytes_le(encode_utf8(d1), encode_utf8(d))
        },
{
    let (ey1, em1, ed1) = (encode_utf8(y1), encode_utf8(m1), encode_utf8(d1));
    let (ey, em, ed) = (encode_utf8(y), encode_utf8(m), encode_utf8(d));
    lemma_digits_encode(y1);
    lemma_digits_encode(m1);
    lemma_digits_encode(y);
    lemma_digits_encode(m);
    lemma_encode_ymd(y1, m1, d1);
    lemma_encode_ymd(y, m, d);
    lemma_key_injective(y1, y);
    lemma_key_injective(m1, m);
    let dash = seq![45u8];
    lemma_bytes_le_concat(ey1, ey, dash + (em1 + (dash + ed1)), dash + (em + (dash + ed)));
    lemma_bytes_le_concat(dash, dash, em1 + (dash + ed1), em + (dash + ed));
    lemma_bytes_le_concat(em1, em, dash + ed1, dash + ed);
    lemma_bytes_le_concat(dash, dash, ed1, ed);
}

/// A date `y-m-d` that a well-formed query selects has its year, its month
/// and its day selected.
pub proof fn lemma_date_selects_parts(q: QueryModel, y: Seq<char>, m: Seq<char>, d: Seq<char>)
    requires
        well_formed(q),
        digit_text(y, 4),
        digit_text(m, 2),
        digit_text(d, 2),
        spec_match_date(q, ymd_text(y, m, d)),
    ensures
        spec_match_year(q, y),
        spec_match_month(q, m),
        spec_match_day(q, d),
{
    let (ey, em, ed) = (encode_utf8(y), encode_utf8(m), encode_utf8(d));
    lemma_digits_encode(y);
    lemma_digits_encode(m);
    lemma_digits_encode(d);
    lemma_encode_ymd(y, m, d);
    let b = encode_utf8(ymd_text(y, m, d));
    let dash = seq![45u8];
    assert(b =~= ey + dash + em + dash + ed);
    match q {
        QueryModel::Date(yo, mo, dox) => {
            assert(b.subrange(0, 4) =~= ey);
            assert(b.subrange(5, 7) =~= em);
            assert(b.subrange(8, 10) =~= ed);
            if let Some(x) = yo {
                lemma_key_injective(x, y);
            }
            if let Some(x) = mo {
                lemma_key_injective(x, m);
            }
            if let Some(x) = dox {
                lemma_key_injective(x, d);
            }
        },
        QueryModel::DateRange(y1, m1, d1, y2, m2, d2) => {
            lemma_ymd_le(y1, m1, d1, y, m, d);
            lemma_ymd_le(y, m, d, y2, m2, d2);
            lemma_digits_encode(y1);
            lemma_digits_encode(m1);
            lemma_digits_encode(d1);
            lemma_digits_encode(y2);
            lemma_digits_encode(m2);
            lemma_digits_encode(d2);
            lemma_bytes_le_refl(ey);
            lemma_bytes_le_refl(em);
            lemma_bytes_le_refl(ed);
            lemma_bytes_le_total(encode_utf8(y1), ey);
            lemma_bytes_le_total(ey, encode_utf8(y2));
            lemma_bytes_le_total(encode_utf8(m1), em);
            lemma_bytes_le_total(em, encode_utf8(m2));
            lemma_key_injective(y1, y);
            lemma_key_injective(y, y2);
            lemma_key_injective(m1, m);
            lemma_key_injective(m, m2);
            lemma_key_injective(y1, y2);
            lemma_key_injective(m1, m2);
        },
    }
}

/// The digits of a text are ASCII, one byte each, each byte the digit's.
proof fn lemma_digit_bytes(s: Seq<char>)
    requires
        digits_at(s, 0, s.len() as int),
    ensures
        encode_utf8(s).len() == s.len(),
        forall|i: int| 0 <= i < s.len() ==> 48 <= #[trigger] encode_utf8(s)[i] <= 57,
{
    assert(is_ascii_chars(s)) by {
        assert forall|i: int| 0 <= i < s.len() implies '\0' <= #[trigger] s[i] <= '\u{7f}' by {
            assert(is_digit(s[i]));
        }
    }
    is_ascii_chars_encode_utf8(s);
    assert forall|i: int| 0 <= i < s.len() implies 48 <= #[trigger] encode_utf8(s)[i] <= 57 by {
        assert(is_digit(s[i]));
        assert(s[i] as u8 == encode_utf8(s)[i]);
    }
}

/// A date pattern selects a date `YYYY-MM-DD` exactly when each field that
/// it gives equals the date's part: its year the year, its month the month,
/// its day the day. A field it leaves open matches any part, whichever of
/// the others are given.
pub proof fn lemma_date_pattern_selects(
    yo: Option<Seq<char>>,
    mo: Option<Seq<char>>,
    dox: Option<Seq<char>>,
    y: Seq<char>,
    m: Seq<char>,
    d: Seq<char>,
)
    requires
        digit_text(y, 4),
        digit_text(m, 2),
        digit_text(d, 2),
    ensures
        spec_match_date(QueryModel::Date(yo, mo, dox), ymd_text(y, m, d)) <==> ((yo is None || yo
            == Some(y)) && (mo is None || mo == Some(m)) && (dox is None || dox == Some(d))),
{
    let (ey, em, ed) = (encode_utf8(y), encode_utf8(m), encode_utf8(d));
    lemma_digit_bytes(y);
    lemma_digit_bytes(m);
    lemma_digit_bytes(d);
    lemma_encode_ymd(y, m, d);
    let b = encode_utf8(ymd_text(y, m, d));
    let dash = seq![45u8];
    assert(b =~= ey + dash + em + dash + ed);
    assert(b.len() == 10);
    encode_utf8_valid_utf8(ymd_text(y, m, d));
    is_char_boundary_start_end_of_seq(b);
    assert(b[4] == 45u8 && b[7] == 45u8);
    assert(b[5] == em[0] && b[8] == ed[0]);
    is_char_boundary_iff_not_is_continuation_byte(b, 4);
    is_char_boundary_iff_not_is_continuation_byte(b, 5);
    is_char_boundary_iff_not_is_continuation_byte(b, 7);
    is_char_boundary_iff_not_is_continuation_byte(b, 8);
    assert(is_char_boundary(b, 0) && is_char_boundary(b, 10));
    assert(b.subrange(0, 4) =~= ey);
    assert(b.subrange(5, 7) =~= em);
    assert(b.subrange(8, 10) =~= ed);
    assert(str_get(b, 0, 4) == Some(ey));
    assert(str_get(b, 5, 7) == Some(em));
    assert(str_get(b, 8, 10) == Some(ed));
    if let Some(x) = yo {
        lemma_key_injective(x, y);
    }
    if let Some(x) = mo {
        lemma_key_injective(x, m);
    }
    if let Some(x) = dox {
        lemma_key_injective(x, d);
    }
}

/// The fields of a query that can be written: a date pattern with a year of
/// four digits, a month and a day of two, a day only where the month is
/// given or the year is not, and at least one field; or a well-formed range.
pub open spec fn printable(q: QueryModel) -> bool {
    match q {
        QueryModel::Date(y, m, d) => {
            &&& (y matches Some(x) ==> digit_text(x, 4))
            &&& (m matches Some(x) ==> digit_text(x, 2))
            &&& (d matches Some(x) ==> digit_text(x, 2))
            &&& !(y is Some && m is None && d is Some)
            &&& !(y is None && m is None && d is None)
        },
        QueryModel::DateRange(..) => well_formed(q),
    }
}

/// Reading a printed query gives the query back: `date:YYYY-MM-DD`,
/// `date:YYYY-MM`, `date:YYYY`, `date:--MM-DD`, `date:--MM`, `date:---DD`
/// and `date:YYYY-MM-DD/YYYY-MM-DD` each read as the fields they write.
pub proof fn lemma_query_text_round_trip(q: QueryModel)
    requires
        printable(q),
    ensures
        query_of(query_text(q)) == Some(q),
{
    let s = query_text(q);
    let tag = seq!['d', 'a', 't', 'e', ':'];
    assert(s.subrange(0, 5) =~= tag);
    assert(s[0] == 'd' && s[1] == 'a' && s[2] == 't' && s[3] == 'e' && s[4] == ':');
    match q {
        QueryModel::Date(yo, mo, dox) => {
            match (yo, mo, dox) {
                (Some(y), Some(m), Some(d)) => {
                    assert(s =~= tag + y + seq!['-'] + m + seq!['-'] + d);
                    assert(s.subrange(5, 9) =~= y);
                    assert(s.subrange(10, 12) =~= m);
                    assert(s.subrange(13, 15) =~= d);
                    assert(digits_at(s, 5, 4) && digits_at(s, 10, 2) && digits_at(s, 13, 2)) by {
                        assert forall|k: int| 0 <= k < 4 implies is_digit(#[trigger] s[5 + k]) by {
                            assert(s[5 + k] == y[k]);
                        }
                        assert forall|k: int| 0 <= k < 2 implies is_digit(#[trigger] s[10 + k]) by {
                            assert(s[10 + k] == m[k]);
                        }
                        assert forall|k: int| 0 <= k < 2 implies is_digit(#[trigger] s[13 + k]) by {
                            assert(s[13 + k] == d[k]);
                        }
                    }
                    assert(!range_at(s, 5));
                    assert(ymd_at(s, 5));
                },
                (Some(y), Some(m), None) => {
                    assert(s =~= tag + y + seq!['-'] + m);
                    assert(s.subrange(5, 9) =~= y);
                    assert(s.subrange(10, 12) =~= m);
                    assert(digits_at(s, 5, 4) && digits_at(s, 10, 2)) by {
                        assert forall|k: int| 0 <= k < 4 implies is_digit(#[trigger] s[5 + k]) by {
                            assert(s[5 + k] == y[k]);
                        }
                        assert forall|k: int| 0 <= k < 2 implies is_digit(#[trigger] s[10 + k]) by {
                            assert(s[10 + k] == m[k]);
                        }
                    }
                    assert(!range_at(s, 5));
                    assert(!ymd_at(s, 5));
                    assert(ym_at(s, 5));
                },
                (Some(y), None, None) => {
                    assert(s =~= tag + y);
                    assert(s.subrange(5, 9) =~= y);
                    assert(digits_at(s, 5, 4)) by {
                        assert forall|k: int| 0 <= k < 4 implies is_digit(#[trigger] s[5 + k]) by {
                            assert(s[5 + k] == y[k]);
                        }
                    }
                    assert(!range_at(s, 5));
                    assert(!ymd_at(s, 5));
                    assert(!ym_at(s, 5));
                },
                (None, Some(m), Some(d)) => {
                    assert(s =~= tag + seq!['-', '-'] + m + seq!['-'] + d);
                    assert(s.subrange(7, 9) =~= m);
                    assert(s.subrange(10, 12) =~= d);
                    assert(digits_at(s, 7, 2) && digits_at(s, 10, 2)) by {
                        assert forall|k: int| 0 <= k < 2 implies is_digit(#[trigger] s[7 + k]) by {
                            assert(s[7 + k] == m[k]);
                        }
                        assert forall|k: int| 0 <= k < 2 implies is_digit(#[trigger] s[10 + k]) by {
                            assert(s[10 + k] == d[k]);
                        }
                    }
                    assert(!is_digit(s[5]));
                    assert(!range_at(s, 5) && !ymd_at(s, 5) && !ym_at(s, 5) && !digits_at(s, 5, 4));
                    assert(md_at(s, 5));
                },
                (None, Some(m), None) => {
                    assert(s =~= tag + seq!['-', '-'] + m);
                    assert(s.subrange(7, 9) =~= m);
                    assert(digits_at(s, 7, 2)) by {
                        assert forall|k: int| 0 <= k < 2 implies is_digit(#[trigger] s[7 + k]) by {
                            assert(s[7 + k] == m[k]);
                        }
                    }
                    assert(!is_digit(s[5]));
                    assert(!range_at(s, 5) && !ymd_at(s, 5) && !ym_at(s, 5) && !digits_at(s, 5, 4));
                    assert(!md_at(s, 5));
                    assert(m_at(s, 5));
                },
                (None, None, Some(d)) => {
                    assert(s =~= tag + seq!['-', '-', '-'] + d);
                    assert(s.subrange(8, 10) =~= d);
                    assert(digits_at(s, 8, 2)) by {
                        assert forall|k: int| 0 <= k < 2 implies is_digit(#[trigger] s[8 + k]) by {
                            assert(s[8 + k] == d[k]);
                        }
                    }
                    assert(!is_digit(s[5]) && !is_digit(s[7]));
                    assert(!range_at(s, 5) && !ymd_at(s, 5) && !ym_at(s, 5) && !digits_at(s, 5, 4));
                    assert(!md_at(s, 5));
                    assert(!m_at(s, 5));
                    assert(d_at(s, 5));
                },
                _ => {},
            }
        },
        QueryModel::DateRange(y1, m1, d1, y2, m2, d2) => {
            assert(s =~= tag + y1 + seq!['-'] + m1 + seq!['-'] + d1 + seq!['/'] + y2 + seq!['-']
                + m2 + seq!['-'] + d2);
            assert(s.subrange(5, 9) =~= y1);
            assert(s.subrange(10, 12) =~= m1);
            assert(s.subrange(13, 15) =~= d1);
            assert(s.subrange(16, 20) =~= y2);
            assert(s.subrange(21, 23) =~= m2);
            assert(s.subrange(24, 26) =~= d2);
            assert forall|k: int| 0 <= k < 4 implies is_digit(#[trigger] s[5 + k]) && is_digit(
                s[16 + k],
            ) by {
                assert(s[5 + k] == y1[k]);
                assert(s[16 + k] == y2[k]);
            }
            assert forall|k: int| 0 <= k < 2 implies is_digit(#[trigger] s[10 + k]) && is_digit(
                s[13 + k],
            ) && is_digit(s[21 + k]) && is_digit(s[24 + k]) by {
                assert(s[10 + k] == m1[k]);
                assert(s[13 + k] == d1[k]);
                assert(s[21 + k] == m2[k]);
                assert(s[24 + k] == d2[k]);
            }
            assert(range_at(s, 5));
        },
    }
}

/// A query that a text stands for is well formed.
pub proof fn lemma_query_of_well_formed(s: Seq<char>)
    ensures
        query_of(s) matches Some(q) ==> well_formed(q),
{
    if let Some(QueryModel::DateRange(y1, m1, d1, y2, m2, d2)) = query_of(s) {
        let p = 5int;
        assert forall|i: int, n: int|
            0 <= i && 0 <= n && digits_at(s, p + i, n) implies #[trigger] digit_text(
            s.subrange(p + i, p + i + n),
            n,
        ) by {
            let part = s.subrange(p + i, p + i + n);
            assert forall|k: int| 0 <= k < n implies is_digit(#[trigger] part[k]) by {
                assert(part[k] == s[p + i + k]);
            }
        }
        assert(digit_text(s.subrange(p, p + 4), 4));
        assert(digit_text(s.subrange(p + 5, p + 7), 2));
        assert(digit_text(s.subrange(p + 8, p + 10), 2));
        assert(digit_text(s.subrange(p + 11, p + 15), 4));
        assert(digit_text(s.subrange(p + 16, p + 18), 2));
        assert(digit_text(s.subrange(p + 19, p + 21), 2));
    }
}

/// The walk of the data directory misses no selected post: for a query read
/// from a text, a date `YYYY-MM-DD` that it selects has its year directory,
/// its month directory and its day selected.
pub proof fn lemma_walk_finds_selected_dates(s: Seq<char>, y: Seq<char>, m: Seq<char>, d: Seq<char>)
    requires
        query_of(s) is Some,
        digit_text(y, 4),
        digit_text(m, 2),
        digit_text(d, 2),
        spec_match_date(query_of(s).unwrap(), ymd_text(y, m, d)),
    ensures
        spec_match_year(query_of(s).unwrap(), y),
        spec_match_month(query_of(s).unwrap(), m),
        spec_match_day(query_of(s).unwrap(), d),
{
    lemma_query_of_well_formed(s);
    lemma_date_selects_parts(query_of(s).unwrap(), y, m, d);
}

} // verus!
