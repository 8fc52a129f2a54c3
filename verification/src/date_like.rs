//! Dates given on the command line: a calendar date `YYYY-MM-DD` or an ISO
//! week date `YYYY-Www-D`, the year with an optional `+` sign.
use crate::date::{date_of, date_of_week_date, digit_value, number2, number4, Date};
use crate::json_grammar::at;
use crate::query::digits_at;
use crate::text::to_chars;
use vstd::prelude::*;

verus! {

/// A date given as a calendar date or as an ISO week date.
#[derive(Clone, Debug, Eq, PartialEq)]
pub struct DateLike(pub Date);

/// The text is neither a calendar date nor an ISO week date.
#[derive(Clone, Copy, Debug, Eq, PartialEq)]
pub struct ParseDateLikeError;

impl From<DateLike> for Date {
    fn from(date_like: DateLike) -> (r: Self) {
        date_like.0
    }
}

impl vstd::std_specs::convert::FromSpecImpl<DateLike> for Date {
    open spec fn obeys_from_spec() -> bool {
        true
    }

    open spec fn from_spec(date_like: DateLike) -> Self {
        date_like.0
    }
}

/// The text without its leading `+`, if it has one.
pub open spec fn without_plus(s: Seq<char>) -> Seq<char> {
    if s.len() > 0 && s[0] == '+' {
        s.drop_first()
    } else {
        s
    }
}

/// The year, week and weekday of a text `YYYY-Www-D`, the weekday from 1 to 7.
pub open spec fn week_date_text_of(s: Seq<char>) -> Option<(int, int, int)> {
    if s.len() == 10 && digits_at(s, 0, 4) && at(s, 4, '-') && at(s, 5, 'W') && digits_at(s, 6, 2)
        && at(s, 8, '-') && '1' <= s[9] && s[9] <= '7' {
        Some((number4(s, 0), number2(s, 6), digit_value(s[9])))
    } else {
        None
    }
}

/// The date that a text stands for: as a week date where it is a valid one,
/// and as a calendar date otherwise.
pub open spec fn date_like_of(s: Seq<char>) -> Option<(int, int, int)> {
    let t = without_plus(s);
    match week_date_text_of(t) {
        Some((y, w, d)) => match date_of_week_date(y, w, d) {
            Some(ymd) => Some(ymd),
            None => date_of(t),
        },
        None => date_of(t),
    }
}

fn digit_at(cs: &Vec<char>, p: usize) -> (r: Option<u8>)
    ensures
        r matches Some(k) ==> p < cs@.len() && crate::json_grammar::is_digit(cs@[p as int]) && k
            == digit_value(cs@[p as int]),
        r is None ==> !(p < cs@.len() && crate::json_grammar::is_digit(cs@[p as int])),
{
    if p < cs.len() && '0' <= cs[p] && cs[p] <= '9' {
        Some((cs[p] as u32 - '0' as u32) as u8)
    } else {
        None
    }
}

impl DateLike {
    /// Reads a calendar date or an ISO week date.
    pub fn parse(s: &str) -> (r: Result<DateLike, ParseDateLikeError>)
        ensures
            match date_like_of(s@) {
                Some(ymd) => r matches Ok(d) && d.0.ymd() == ymd,
                None => r is Err,
            },
    {
        let cs = to_chars(s);
        let n = cs.len();
        let start: usize = if n > 0 && cs[0] == '+' {
            1
        } else {
            0
        };
        let ghost t = without_plus(s@);
        assert(cs@.subrange(start as int, n as int) =~= t);
        if n - start == 10 && cs[start + 4] == '-' && cs[start + 5] == 'W' && cs[start + 8] == '-' {
            let y0 = digit_at(&cs, start);
            let y1 = digit_at(&cs, start + 1);
            let y2 = digit_at(&cs, start + 2);
            let y3 = digit_at(&cs, start + 3);
            let w0 = digit_at(&cs, start + 6);
            let w1 = digit_at(&cs, start + 7);
            let wd = digit_at(&cs, start + 9);
            match (y0, y1, y2, y3, w0, w1, wd) {
                (Some(y0), Some(y1), Some(y2), Some(y3), Some(w0), Some(w1), Some(wd)) => {
                    assert(digits_at(t, 0, 4) && digits_at(t, 6, 2)) by {
                        assert forall|k: int| 0 <= k < 4 implies crate::json_grammar::is_digit(
                            #[trigger] t[k],
                        ) by {
                            assert(t[k] == cs@[start + k]);
                        }
                        assert forall|k: int| 6 <= k < 8 implies crate::json_grammar::is_digit(
                            #[trigger] t[k],
                        ) by {
                            assert(t[k] == cs@[start + k]);
                        }
                    }
                    if 1 <= wd && wd <= 7 {
                        let year = ((y0 as u16 * 10 + y1 as u16) * 10 + y2 as u16) * 10
                            + y3 as u16;
                        let week = w0 * 10 + w1;
                        assert(week_date_text_of(t) == Some(
                            (year as int, week as int, wd as int),
                        ));
                        if 1 <= year {
                            if let Some(d) = Date::from_week_date(year, week, wd) {
                                return Ok(DateLike(d));
                            }
                        }
                    }
                },
                _ => {},
            }
        }
        match Date::parse_chars(&cs, start, n) {
            Ok(d) => Ok(DateLike(d)),
            Err(_) => Err(ParseDateLikeError),
        }
    }
}

impl std::str::FromStr for DateLike {
    type Err = ParseDateLikeError;

    fn from_str(s: &str) -> (r: Result<Self, Self::Err>)
        ensures
            match date_like_of(s@) {
                Some(ymd) => r matches Ok(d) && d.0.ymd() == ymd,
                None => r is Err,
            },
    {
        DateLike::parse(s)
    }
}

} // verus!
