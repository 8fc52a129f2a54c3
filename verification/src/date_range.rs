//! The range of ISO weeks that a month of the blog covers: each month takes
//! four weeks but October, which takes five, and the thirteenth week of each
//! of the first three quarters is left out.
use crate::date::{date_of_week_date, date_text, digit_value, number2, number4, text2, Date};
use crate::json_grammar::{at, is_digit};
use crate::query::digits_at;
use crate::text::{push_char, push_str, to_chars};
use vstd::prelude::*;

verus! {

/// Why a date range could not be given.
#[derive(Clone, Debug, Eq, PartialEq)]
pub enum BbnDateRangeError {
    /// The input is not `YYYY-MM`.
    Parse,
    /// The month is not from `01` to `12`.
    InvalidMonth(String),
    /// The week date is not a date.
    InvalidWeekDate(String),
}

/// A `BbnDateRangeError`, as the contracts see it.
pub enum DateRangeErrorModel {
    Parse,
    InvalidMonth(Seq<char>),
    InvalidWeekDate(Seq<char>),
}

impl BbnDateRangeError {
    pub open spec fn model(&self) -> DateRangeErrorModel {
        match self {
            BbnDateRangeError::Parse => DateRangeErrorModel::Parse,
            BbnDateRangeError::InvalidMonth(m) => DateRangeErrorModel::InvalidMonth(m@),
            BbnDateRangeError::InvalidWeekDate(w) => DateRangeErrorModel::InvalidWeekDate(w@),
        }
    }
}

/// The first and last week of month `m`.
pub open spec fn week_range(m: int) -> Option<(int, int)> {
    if m == 1 {
        Some((1, 4))
    } else if m == 2 {
        Some((5, 8))
    } else if m == 3 {
        Some((9, 12))
    } else if m == 4 {
        Some((14, 17))
    } else if m == 5 {
        Some((18, 21))
    } else if m == 6 {
        Some((22, 25))
    } else if m == 7 {
        Some((27, 30))
    } else if m == 8 {
        Some((31, 34))
    } else if m == 9 {
        Some((35, 38))
    } else if m == 10 {
        Some((40, 44))
    } else if m == 11 {
        Some((45, 48))
    } else if m == 12 {
        Some((49, 52))
    } else {
        None
    }
}

/// Whether week `w` lies in the range of some month.
pub open spec fn week_covered(w: int) -> bool {
    exists|m: int| 1 <= m <= 12 && (#[trigger] week_range(m)).unwrap().0 <= w <= week_range(m).unwrap().1
}

/// The week table splits the year into months: a month has a range exactly
/// when it is one of `1` to `12`, each range runs forward and holds four
/// weeks (October's five), the ranges come in the order of their months
/// without overlapping, and together they hold every week from 1 to 52 but
/// weeks 13, 26 and 39.
pub proof fn lemma_week_ranges_cover()
    ensures
        forall|m: int| (#[trigger] week_range(m) is Some) <==> 1 <= m <= 12,
        forall|m: int|
            1 <= m <= 12 ==> (#[trigger] week_range(m)).unwrap().0 <= week_range(m).unwrap().1,
        forall|i: int, j: int|
            1 <= i < j <= 12 ==> (#[trigger] week_range(i)).unwrap().1 < (#[trigger] week_range(
                j,
            )).unwrap().0,
        forall|w: int|
            #[trigger] week_covered(w) <==> (1 <= w <= 52 && w != 13 && w != 26 && w != 39),
        forall|m: int|
            1 <= m <= 12 ==> (#[trigger] week_range(m)).unwrap().1 - week_range(m).unwrap().0 + 1
                == (if m == 10 {
                5int
            } else {
                4int
            }),
{
    assert forall|w: int| 1 <= w <= 52 && w != 13 && w != 26 && w != 39 implies #[trigger] week_covered(w) by {
        let m: int = if w <= 4 {
            1
        } else if w <= 8 {
            2
        } else if w <= 12 {
            3
        } else if w <= 17 {
            4
        } else if w <= 21 {
            5
        } else if w <= 25 {
            6
        } else if w <= 30 {
            7
        } else if w <= 34 {
            8
        } else if w <= 38 {
            9
        } else if w <= 44 {
            10
        } else if w <= 48 {
            11
        } else {
            12
        };
        assert(1 <= m <= 12 && week_range(m).unwrap().0 <= w <= week_range(m).unwrap().1);
    }
}

/// The month that a two-digit text `MM` stands for.
pub open spec fn month_of(m: Seq<char>) -> Option<int> {
    if digits_at(m, 0, 2) && m.len() == 2 && week_range(number2(m, 0)) is Some {
        Some(number2(m, 0))
    } else {
        None
    }
}

/// `n`, from 0 to 99, written with two digits reads back as `n`.
proof fn lemma_text2_reads_back(n: int)
    requires
        0 <= n <= 99,
    ensures
        text2(n).len() == 2,
        digits_at(text2(n), 0, 2),
        number2(text2(n), 0) == n,
{
    let t = text2(n);
    assert(0 <= n / 10 <= 9 && 0 <= n % 10 <= 9);
    assert(digit_value(t[0]) == n / 10);
    assert(digit_value(t[1]) == n % 10);
}

/// The month texts that have a week range are exactly `01` to `12`, and the
/// weeks of a month are written with two digits that read back as the weeks
/// of `week_range`; with `lemma_week_ranges_cover`, the texts that
/// `week_range_try_from_month` gives run forward, come in month order and
/// cover every week but 13, 26 and 39.
pub proof fn lemma_week_range_texts(m: Seq<char>)
    ensures
        month_of(m) is Some <==> exists|k: int| 1 <= k <= 12 && m == #[trigger] text2(k),
        month_of(m) matches Some(k) ==> {
            let (f, l) = week_range(k).unwrap();
            &&& 1 <= k <= 12
            &&& m == text2(k)
            &&& text2(f).len() == 2 && digits_at(text2(f), 0, 2) && number2(text2(f), 0) == f
            &&& text2(l).len() == 2 && digits_at(text2(l), 0, 2) && number2(text2(l), 0) == l
        },
{
    if month_of(m) is Some {
        let k = number2(m, 0);
        assert(1 <= k <= 12);
        lemma_text2_reads_back(k);
        assert(is_digit(m[0]) && is_digit(m[1]));
        assert(m[0] == text2(k)[0]);
        assert(m[1] == text2(k)[1]);
        assert(m =~= text2(k));
        let (f, l) = week_range(k).unwrap();
        lemma_text2_reads_back(f);
        lemma_text2_reads_back(l);
    }
    if exists|k: int| 1 <= k <= 12 && m == #[trigger] text2(k) {
        let k = choose|k: int| 1 <= k <= 12 && m == #[trigger] text2(k);
        lemma_text2_reads_back(k);
    }
}

/// The first and last week of a month written `MM`, each written with two digits.
pub fn week_range_try_from_month(m: &str) -> (r: Option<(&'static str, &'static str)>)
    ensures
        match month_of(m@) {
            Some(k) => r matches Some((f, l)) && f@ == text2(week_range(k).unwrap().0) && l@
                == text2(week_range(k).unwrap().1),
            None => r is None,
        },
{
    let cs = to_chars(m);
    if cs.len() != 2 || !('0' <= cs[0] && cs[0] <= '9' && '0' <= cs[1] && cs[1] <= '9') {
        return None;
    }
    let k = (cs[0] as u32 - '0' as u32) * 10 + (cs[1] as u32 - '0' as u32);
    assert(digits_at(m@, 0, 2));
    assert(k == number2(m@, 0));
    if k == 1 {
        proof {
            reveal_strlit("01");
            reveal_strlit("04");
        }
        return Some(("01", "04"));
    }
    if k == 2 {
        proof {
            reveal_strlit("05");
            reveal_strlit("08");
        }
        return Some(("05", "08"));
    }
    if k == 3 {
        proof {
            reveal_strlit("09");
            reveal_strlit("12");
        }
        return Some(("09", "12"));
    }
    if k == 4 {
        proof {
            reveal_strlit("14");
            reveal_strlit("17");
        }
        return Some(("14", "17"));
    }
    if k == 5 {
        proof {
            reveal_strlit("18");
            reveal_strlit("21");
        }
        return Some(("18", "21"));
    }
    if k == 6 {
        proof {
            reveal_strlit("22");
            reveal_strlit("25");
        }
        return Some(("22", "25"));
    }
    if k == 7 {
        proof {
            reveal_strlit("27");
            reveal_strlit("30");
        }
        return Some(("27", "30"));
    }
    if k == 8 {
        proof {
            reveal_strlit("31");
            reveal_strlit("34");
        }
        return Some(("31", "34"));
    }
    if k == 9 {
        proof {
            reveal_strlit("35");
            reveal_strlit("38");
        }
        return Some(("35", "38"));
    }
    if k == 10 {
        proof {
            reveal_strlit("40");
            reveal_strlit("44");
        }
        return Some(("40", "44"));
    }
    if k == 11 {
        proof {
            reveal_strlit("45");
            reveal_strlit("48");
        }
        return Some(("45", "48"));
    }
    if k == 12 {
        proof {
            reveal_strlit("49");
            reveal_strlit("52");
        }
        return Some(("49", "52"));
    }
    None
}

/// `YYYY-MM`, the whole input: the year and the month as written.
pub fn year_month(s: &str) -> (r: Result<(&str, (&str, &str)), BbnDateRangeError>)
    ensures
        if s@.len() == 7 && digits_at(s@, 0, 4) && at(s@, 4, '-') && digits_at(s@, 5, 2) {
            r matches Ok((rest, (y, m))) && rest@ == Seq::<char>::empty() && y@ == s@.subrange(
                0,
                4,
            ) && m@ == s@.subrange(5, 7)
        } else {
            r == Err::<(&str, (&str, &str)), BbnDateRangeError>(BbnDateRangeError::Parse)
        },
{
    let cs = to_chars(s);
    if cs.len() != 7 || cs[4] != '-' {
        return Err(BbnDateRangeError::Parse);
    }
    let mut k: usize = 0;
    while k < 7
        invariant
            cs@ == s@,
            cs@.len() == 7,
            k <= 7,
            forall|i: int| 0 <= i < k && i != 4 ==> crate::json_grammar::is_digit(#[trigger] cs@[i]),
        decreases 7 - k,
    {
        if k != 4 && !('0' <= cs[k] && cs[k] <= '9') {
            return Err(BbnDateRangeError::Parse);
        }
        k = k + 1;
    }
    let rest = s.substring_char(7, 7);
    assert(rest@ =~= Seq::<char>::empty());
    Ok((rest, (s.substring_char(0, 4), s.substring_char(5, 7))))
}

/// The text of a week date: the year, `-W`, the week and `-` and the weekday.
pub open spec fn week_date_text(y: Seq<char>, w: Seq<char>, d: char) -> Seq<char> {
    y + seq!['-', 'W'] + w + seq!['-', d]
}

fn week_date_string(y: &str, w: &str, d: char) -> (r: String)
    ensures
        r@ == week_date_text(y@, w@, d),
{
    let mut out = String::new();
    push_str(&mut out, y);
    push_char(&mut out, '-');
    push_char(&mut out, 'W');
    push_str(&mut out, w);
    push_char(&mut out, '-');
    push_char(&mut out, d);
    assert(out@ =~= week_date_text(y@, w@, d));
    out
}

/// The date range of a month `YYYY-MM`: from the Monday of its first week to
/// the Sunday of its last week, written as week dates or as calendar dates,
/// `first/last`.
pub open spec fn date_range_of(s: Seq<char>, week_date: bool) -> Result<
    Seq<char>,
    DateRangeErrorModel,
> {
    if !(s.len() == 7 && digits_at(s, 0, 4) && at(s, 4, '-') && digits_at(s, 5, 2)) {
        Err(DateRangeErrorModel::Parse)
    } else {
        match month_of(s.subrange(5, 7)) {
            None => Err(DateRangeErrorModel::InvalidMonth(s.subrange(5, 7))),
            Some(k) => {
                let y = number4(s, 0);
                let (f, l) = week_range(k).unwrap();
                let first = week_date_text(s.subrange(0, 4), text2(f), '1');
                let last = week_date_text(s.subrange(0, 4), text2(l), '7');
                match (date_of_week_date(y, f, 1), date_of_week_date(y, l, 7)) {
                    (Some(a), Some(b)) => Ok(
                        if week_date {
                            first + seq!['/'] + last
                        } else {
                            date_text(a.0, a.1, a.2) + seq!['/'] + date_text(b.0, b.1, b.2)
                        },
                    ),
                    (None, _) => Err(DateRangeErrorModel::InvalidWeekDate(first)),
                    (Some(_), None) => Err(DateRangeErrorModel::InvalidWeekDate(last)),
                }
            },
        }
    }
}

/// The date range of a month `YYYY-MM`, as `bbn date-range` prints it.
pub fn bbn_date_range(month: &str, week_date: bool) -> (r: Result<String, BbnDateRangeError>)
    ensures
        match date_range_of(month@, week_date) {
            Ok(t) => r matches Ok(u) && u@ == t,
            Err(e) => r matches Err(f) && f.model() == e,
        },
{
    let (y, m) = match year_month(month) {
        Ok((_, ym)) => ym,
        Err(e) => return Err(e),
    };
    let (f, l) = match week_range_try_from_month(m) {
        Some(fl) => fl,
        None => return Err(BbnDateRangeError::InvalidMonth(m.to_owned())),
    };
    let first_text = week_date_string(y, f, '1');
    let last_text = week_date_string(y, l, '7');
    let cs = to_chars(y);
    let year = (((cs[0] as u32 - '0' as u32) * 10 + (cs[1] as u32 - '0' as u32)) * 10 + (cs[2] as u32
        - '0' as u32)) * 10 + (cs[3] as u32 - '0' as u32);
    let fc = to_chars(f);
    let lc = to_chars(l);
    let fw = ((fc[0] as u32 - '0' as u32) * 10 + (fc[1] as u32 - '0' as u32)) as u8;
    let lw = ((lc[0] as u32 - '0' as u32) * 10 + (lc[1] as u32 - '0' as u32)) as u8;
    proof {
        assert(y@ =~= month@.subrange(0, 4));
        assert(year == number4(month@, 0));
    }
    if year == 0 {
        return Err(BbnDateRangeError::InvalidWeekDate(first_text));
    }
    let first = match Date::from_week_date(year as u16, fw, 1) {
        Some(d) => d,
        None => return Err(BbnDateRangeError::InvalidWeekDate(first_text)),
    };
    let last = match Date::from_week_date(year as u16, lw, 7) {
        Some(d) => d,
        None => return Err(BbnDateRangeError::InvalidWeekDate(last_text)),
    };
    let mut out = if week_date {
        first_text
    } else {
        first.to_string()
    };
    push_char(&mut out, '/');
    if week_date {
        push_str(&mut out, last_text.as_str());
    } else {
        let t = last.to_string();
        push_str(&mut out, t.as_str());
    }
    Ok(out)
}

/// `bbn date-range`: the date range of a month.
pub fn date_range(month: String, week_date: bool) -> (r: Result<String, BbnDateRangeError>)
    ensures
        match date_range_of(month@, week_date) {
            Ok(t) => r matches Ok(u) && u@ == t,
            Err(e) => r matches Err(f) && f.model() == e,
        },
{
    bbn_date_range(month.as_str(), week_date)
}

} // verus!
