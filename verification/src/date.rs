//! Calendar dates `YYYY-MM-DD` of the proleptic Gregorian calendar, years 0001 to 9999.
use crate::json_grammar::{at, is_digit};
use crate::query::digits_at;
use crate::text::{push_char, to_chars};
use vstd::prelude::*;

verus! {

/// A calendar date.
#[derive(Clone, Copy, Debug, Eq, Hash, Ord, PartialEq, PartialOrd)]
pub struct Date {
    year: u16,
    month: u8,
    day: u8,
}

/// The text is not a date `YYYY-MM-DD`.
#[derive(Clone, Copy, Debug, Eq, PartialEq)]
pub struct ParseDateError;

/// A leap year of the Gregorian calendar.
pub open spec fn is_leap_year(y: int) -> bool {
    y % 4 == 0 && (y % 100 != 0 || y % 400 == 0)
}

/// The number of days of month `m` of year `y`.
pub open spec fn days_in_month(y: int, m: int) -> int {
    if m == 2 {
        if is_leap_year(y) {
            29
        } else {
            28
        }
    } else if m == 4 || m == 6 || m == 9 || m == 11 {
        30
    } else {
        31
    }
}

/// `y-m-d` is a date of the calendar, with a four-digit year.
pub open spec fn valid_ymd(y: int, m: int, d: int) -> bool {
    1 <= y <= 9999 && 1 <= m <= 12 && 1 <= d <= days_in_month(y, m)
}

/// The value of a digit.
pub open spec fn digit_value(c: char) -> int {
    (c as int) - ('0' as int)
}

/// The number written by the digits `s[p..p+2]`.
pub open spec fn number2(s: Seq<char>, p: int) -> int {
    digit_value(s[p]) * 10 + digit_value(s[p + 1])
}

/// The number written by the digits `s[p..p+4]`.
pub open spec fn number4(s: Seq<char>, p: int) -> int {
    number2(s, p) * 100 + number2(s, p + 2)
}

/// The date that a text `YYYY-MM-DD` stands for.
pub open spec fn date_of(s: Seq<char>) -> Option<(int, int, int)> {
    if s.len() == 10 && digits_at(s, 0, 4) && at(s, 4, '-') && digits_at(s, 5, 2) && at(s, 7, '-')
        && digits_at(s, 8, 2) && valid_ymd(number4(s, 0), number2(s, 5), number2(s, 8)) {
        Some((number4(s, 0), number2(s, 5), number2(s, 8)))
    } else {
        None
    }
}

/// The digit that writes `n`, for `0 <= n <= 9`.
pub open spec fn digit_char(n: int) -> char {
    ((n + 48) as u32) as char
}

/// `n` written with two digits.
pub open spec fn text2(n: int) -> Seq<char> {
    seq![digit_char(n / 10), digit_char(n % 10)]
}

/// `n` written with four digits.
pub open spec fn text4(n: int) -> Seq<char> {
    text2(n / 100) + text2(n % 100)
}

/// How a date is written: `YYYY-MM-DD`.
pub open spec fn date_text(y: int, m: int, d: int) -> Seq<char> {
    text4(y) + seq!['-'] + text2(m) + seq!['-'] + text2(d)
}

impl Date {
    #[verifier::type_invariant]
    spec fn is_calendar_date(self) -> bool {
        valid_ymd(self.year as int, self.month as int, self.day as int)
    }

    pub closed spec fn ymd(self) -> (int, int, int) {
        (self.year as int, self.month as int, self.day as int)
    }

    /// The date `year-month-day`, where it is one.
    pub fn from_ymd(year: u16, month: u8, day: u8) -> (r: Option<Date>)
        ensures
            valid_ymd(year as int, month as int, day as int) ==> (r matches Some(d) && d.ymd() == (
            year as int, month as int, day as int)),
            !valid_ymd(year as int, month as int, day as int) ==> r is None,
    {
        if !(1 <= year && year <= 9999 && 1 <= month && month <= 12 && 1 <= day) {
            return None;
        }
        let leap = year % 4 == 0 && (year % 100 != 0 || year % 400 == 0);
        let days: u8 = if month == 2 {
            if leap {
                29
            } else {
                28
            }
        } else if month == 4 || month == 6 || month == 9 || month == 11 {
            30
        } else {
            31
        };
        if day <= days {
            Some(Date { year, month, day })
        } else {
            None
        }
    }

    pub fn year(&self) -> (r: u16)
        ensures
            r == self.ymd().0,
    {
        self.year
    }

    pub fn month(&self) -> (r: u8)
        ensures
            r == self.ymd().1,
    {
        self.month
    }

    pub fn day_of_month(&self) -> (r: u8)
        ensures
            r == self.ymd().2,
    {
        self.day
    }

    /// Reads a date `YYYY-MM-DD`.
    pub fn parse(s: &str) -> (r: Result<Date, ParseDateError>)
        ensures
            match date_of(s@) {
                Some(ymd) => r matches Ok(d) && d.ymd() == ymd,
                None => r is Err,
            },
    {
        let cs = to_chars(s);
        assert(cs@.subrange(0, cs@.len() as int) =~= s@);
        Self::parse_chars(&cs, 0, cs.len())
    }

    /// Reads a date `YYYY-MM-DD` that is all of `cs[from..to]`.
    pub fn parse_chars(cs: &Vec<char>, from: usize, to: usize) -> (r: Result<Date, ParseDateError>)
        requires
            from <= to <= cs.len(),
        ensures
            match date_of(cs@.subrange(from as int, to as int)) {
                Some(ymd) => r matches Ok(d) && d.ymd() == ymd,
                None => r is Err,
            },
    {
        let ghost s = cs@.subrange(from as int, to as int);
        if to - from != 10 {
            return Err(ParseDateError);
        }
        let mut k: usize = 0;
        while k < 10
            invariant
                to - from == 10,
                to <= cs.len(),
                s == cs@.subrange(from as int, to as int),
                k <= 10,
                forall|i: int|
                    0 <= i < k ==> (if i == 4 || i == 7 {
                        s[i] == '-'
                    } else {
                        is_digit(#[trigger] s[i])
                    }),
            decreases 10 - k,
        {
            let c = cs[from + k];
            if k == 4 || k == 7 {
                if c != '-' {
                    return Err(ParseDateError);
                }
            } else if !('0' <= c && c <= '9') {
                return Err(ParseDateError);
            }
            k = k + 1;
        }
        assert(digits_at(s, 0, 4) && digits_at(s, 5, 2) && digits_at(s, 8, 2));
        let d0 = (cs[from] as u32 - '0' as u32) as u16;
        let d1 = (cs[from + 1] as u32 - '0' as u32) as u16;
        let d2 = (cs[from + 2] as u32 - '0' as u32) as u16;
        let d3 = (cs[from + 3] as u32 - '0' as u32) as u16;
        let m0 = (cs[from + 5] as u32 - '0' as u32) as u8;
        let m1 = (cs[from + 6] as u32 - '0' as u32) as u8;
        let e0 = (cs[from + 8] as u32 - '0' as u32) as u8;
        let e1 = (cs[from + 9] as u32 - '0' as u32) as u8;
        let year = ((d0 * 10 + d1) * 10 + d2) * 10 + d3;
        let month = m0 * 10 + m1;
        let day = e0 * 10 + e1;
        assert(year == number4(s, 0));
        assert(month == number2(s, 5));
        assert(day == number2(s, 8));
        match Date::from_ymd(year, month, day) {
            Some(d) => Ok(d),
            None => Err(ParseDateError),
        }
    }

    /// The date written `YYYY-MM-DD`.
    pub fn to_string(&self) -> (r: String)
        ensures
            r@ == date_text(self.ymd().0, self.ymd().1, self.ymd().2),
            valid_ymd(self.ymd().0, self.ymd().1, self.ymd().2),
    {
        proof {
            use_type_invariant(self);
        }
        let mut out = String::new();
        let y = self.year;
        push_char(&mut out, digit(((y / 100) / 10) as u8));
        push_char(&mut out, digit(((y / 100) % 10) as u8));
        push_char(&mut out, digit(((y % 100) / 10) as u8));
        push_char(&mut out, digit(((y % 100) % 10) as u8));
        push_char(&mut out, '-');
        push_char(&mut out, digit(self.month / 10));
        push_char(&mut out, digit(self.month % 10));
        push_char(&mut out, '-');
        push_char(&mut out, digit(self.day / 10));
        push_char(&mut out, digit(self.day % 10));
        assert(out@ =~= date_text(self.ymd().0, self.ymd().1, self.ymd().2));
        out
    }
}

impl std::str::FromStr for Date {
    type Err = ParseDateError;

    fn from_str(s: &str) -> (r: Result<Self, Self::Err>)
        ensures
            match date_of(s@) {
                Some(ymd) => r matches Ok(d) && d.ymd() == ymd,
                None => r is Err,
            },
    {
        Date::parse(s)
    }
}

/// The days from 0001-01-01 (a Monday) to the first day of year `y`.
pub open spec fn days_before_year(y: int) -> int {
    365 * (y - 1) + (y - 1) / 4 - (y - 1) / 100 + (y - 1) / 400
}

/// The days from January 1st to the first day of month `m` of year `y`.
pub open spec fn days_before_month(y: int, m: int) -> int
    decreases m,
{
    if m <= 1 {
        0
    } else {
        days_before_month(y, m - 1) + days_in_month(y, m - 1)
    }
}

/// The days from 0001-01-01 to `y-m-d`: 0 for a Monday, modulo 7.
pub open spec fn day_number(y: int, m: int, d: int) -> int {
    days_before_year(y) + days_before_month(y, m) + d - 1
}

/// The Monday of ISO week 1 of year `y`: the week that holds January 4th.
pub open spec fn iso_week_one(y: int) -> int {
    day_number(y, 1, 4) - day_number(y, 1, 4) % 7
}

/// The number of ISO weeks of year `y`: 52 or 53.
pub open spec fn iso_weeks_in_year(y: int) -> int {
    (iso_week_one(y + 1) - iso_week_one(y)) / 7
}

/// The day of weekday `wd` (1 for Monday) of ISO week `w` of year `y`.
pub open spec fn iso_week_day(y: int, w: int, wd: int) -> int {
    iso_week_one(y) + 7 * (w - 1) + (wd - 1)
}

/// `time::Date::from_iso_week_date`, with `year()`, `month()` and `day()` of
/// the date it makes: the date of the ISO week date (the date whose day
/// number is that of the week date) where the week is one of the year's and
/// the date is no later than 9999-12-31, none otherwise.
#[verifier::external_body]
pub(crate) fn calendar_of_iso_week_date(year: i32, week: u8, weekday: u8) -> (r: Option<(i32, u8, u8)>)
    requires
        1 <= year <= 9999,
        1 <= weekday <= 7,
    ensures
        r is Some <==> (1 <= week <= iso_weeks_in_year(year as int) && iso_week_day(
            year as int,
            week as int,
            weekday as int,
        ) <= day_number(9999, 12, 31)),
        r matches Some((y, m, d)) ==> 1 <= m <= 12 && 1 <= d <= days_in_month(y as int, m as int)
            && day_number(y as int, m as int, d as int) == iso_week_day(
            year as int,
            week as int,
            weekday as int,
        ),
{
    let weekday = time::Weekday::Sunday.nth_next(weekday);
    let date = time::Date::from_iso_week_date(year, week, weekday);
    date.ok().map(|d| (d.year(), u8::from(d.month()), d.day()))
}

/// `year-Wweek-weekday` is an ISO week date of a year of this calendar whose
/// date is no later than 9999-12-31.
pub open spec fn week_date_exists(year: int, week: int, weekday: int) -> bool {
    &&& 1 <= year <= 9999
    &&& 1 <= weekday <= 7
    &&& 1 <= week <= iso_weeks_in_year(year)
    &&& iso_week_day(year, week, weekday) <= day_number(9999, 12, 31)
}

/// The date of an ISO week date: the date of this calendar whose day number
/// is that of the week date, which `lemma_day_number_injective` shows is one.
pub open spec fn date_of_week_date(year: int, week: int, weekday: int) -> Option<(int, int, int)> {
    if week_date_exists(year, week, weekday) {
        Some(
            choose|t: (int, int, int)|
                valid_ymd(t.0, t.1, t.2) && day_number(t.0, t.1, t.2) == iso_week_day(
                    year,
                    week,
                    weekday,
                ),
        )
    } else {
        None
    }
}

/// `y-m-d` names a day of year `y`: a month of the year and a day of it.
pub open spec fn day_of_year(y: int, m: int, d: int) -> bool {
    1 <= m <= 12 && 1 <= d <= days_in_month(y, m)
}

/// The number of days of year `y`.
pub open spec fn days_in_year(y: int) -> int {
    if is_leap_year(y) {
        366
    } else {
        365
    }
}

proof fn lemma_days_before_month_grows(y: int, m1: int, m2: int)
    requires
        1 <= m1 < m2 <= 13,
    ensures
        days_before_month(y, m1) + days_in_month(y, m1) <= days_before_month(y, m2),
    decreases m2,
{
    if m2 > m1 + 1 {
        lemma_days_before_month_grows(y, m1, m2 - 1);
    }
}

proof fn lemma_days_before_month_of_year(y: int)
    ensures
        days_before_month(y, 1) == 0,
        days_before_month(y, 12) == 334 + days_in_year(y) - 365,
        days_before_month(y, 13) == days_in_year(y),
{
    reveal_with_fuel(days_before_month, 13);
}

proof fn lemma_days_before_year_step(y: int)
    ensures
        days_before_year(y + 1) == days_before_year(y) + days_in_year(y),
{
    let x = y - 1;
    assert(y / 4 == x / 4 + (if y % 4 == 0 { 1int } else { 0int }));
    assert(y / 100 == x / 100 + (if y % 100 == 0 { 1int } else { 0int }));
    assert(y / 400 == x / 400 + (if y % 400 == 0 { 1int } else { 0int }));
    assert(y % 400 == 0 ==> y % 100 == 0 && y % 4 == 0);
    assert(y % 100 == 0 ==> y % 4 == 0);
}

proof fn lemma_days_before_year_grows(a: int, b: int)
    requires
        a < b,
    ensures
        days_before_year(a) + days_in_year(a) <= days_before_year(b),
    decreases b - a,
{
    lemma_days_before_year_step(a);
    if b > a + 1 {
        lemma_days_before_year_grows(a + 1, b);
    }
}

proof fn lemma_day_number_in_year(y: int, m: int, d: int)
    requires
        day_of_year(y, m, d),
    ensures
        days_before_year(y) + days_before_month(y, m) <= day_number(y, m, d),
        day_number(y, m, d) < days_before_year(y) + days_before_month(y, m) + days_in_month(y, m),
        days_before_year(y) <= day_number(y, m, d) < days_before_year(y + 1),
{
    lemma_days_before_month_of_year(y);
    lemma_days_before_year_step(y);
    if m > 1 {
        lemma_days_before_month_grows(y, 1, m);
    }
    lemma_days_before_month_grows(y, m, 13);
}

/// Two days of the calendar with the same day number are the same day.
pub proof fn lemma_day_number_injective(y1: int, m1: int, d1: int, y2: int, m2: int, d2: int)
    requires
        day_of_year(y1, m1, d1),
        day_of_year(y2, m2, d2),
        day_number(y1, m1, d1) == day_number(y2, m2, d2),
    ensures
        y1 == y2 && m1 == m2 && d1 == d2,
{
    lemma_day_number_in_year(y1, m1, d1);
    lemma_day_number_in_year(y2, m2, d2);
    if y1 < y2 {
        if y1 + 1 < y2 {
            lemma_days_before_year_grows(y1 + 1, y2);
        }
        assert(false);
    } else if y2 < y1 {
        if y2 + 1 < y1 {
            lemma_days_before_year_grows(y2 + 1, y1);
        }
        assert(false);
    } else if m1 < m2 {
        lemma_days_before_month_grows(y1, m1, m2);
        assert(false);
    } else if m2 < m1 {
        lemma_days_before_month_grows(y1, m2, m1);
        assert(false);
    }
}

/// Day numbers follow the calendar: one day comes before another (an
/// earlier year, or the same year and an earlier month, or the same month
/// and an earlier day) exactly when its day number is smaller.
pub proof fn lemma_day_number_order(y1: int, m1: int, d1: int, y2: int, m2: int, d2: int)
    requires
        day_of_year(y1, m1, d1),
        day_of_year(y2, m2, d2),
    ensures
        (y1 < y2 || (y1 == y2 && (m1 < m2 || (m1 == m2 && d1 < d2)))) <==> day_number(y1, m1, d1)
            < day_number(y2, m2, d2),
{
    lemma_day_number_in_year(y1, m1, d1);
    lemma_day_number_in_year(y2, m2, d2);
    if y1 < y2 {
        if y1 + 1 < y2 {
            lemma_days_before_year_grows(y1 + 1, y2);
        }
    } else if y2 < y1 {
        if y2 + 1 < y1 {
            lemma_days_before_year_grows(y2 + 1, y1);
        }
    } else if m1 < m2 {
        lemma_days_before_month_grows(y1, m1, m2);
    } else if m2 < m1 {
        lemma_days_before_month_grows(y1, m2, m1);
    }
}

/// A day of the calendar whose day number lies from that of 0001-01-01 to
/// that of 9999-12-31 has a year from 1 to 9999.
proof fn lemma_day_number_year(y: int, m: int, d: int)
    requires
        day_of_year(y, m, d),
        0 <= day_number(y, m, d) <= day_number(9999, 12, 31),
    ensures
        1 <= y <= 9999,
{
    lemma_day_number_in_year(y, m, d);
    lemma_days_before_month_of_year(9999);
    if y < 1 {
        if y + 1 < 1 {
            lemma_days_before_year_grows(y + 1, 1);
        }
        assert(false);
    }
    if y > 9999 {
        lemma_days_before_year_step(9999);
        if y > 10000 {
            lemma_days_before_year_grows(10000, y);
        }
        assert(false);
    }
}

/// The day of an ISO week date of a year from 1 on, weeks and weekdays
/// counted from 1, is no earlier than 0001-01-01.
proof fn lemma_iso_week_day_nonnegative(year: int, week: int, weekday: int)
    requires
        year >= 1,
        week >= 1,
        weekday >= 1,
    ensures
        iso_week_day(year, week, weekday) >= 0,
{
    if year > 1 {
        lemma_days_before_year_grows(1, year);
    }
    lemma_days_before_month_of_year(year);
    let n = day_number(year, 1, 4);
    assert(n >= 0);
    assert(n - n % 7 == 7 * (n / 7));
}

impl Date {
    /// The date of an ISO week date `year-Wweek-weekday`, where it is one: the
    /// date whose day number is that of the week date, where the week is one
    /// of the year's and the date is no later than 9999-12-31.
    pub fn from_week_date(year: u16, week: u8, weekday: u8) -> (r: Option<Date>)
        requires
            1 <= year <= 9999,
            1 <= weekday <= 7,
        ensures
            r is Some <==> week_date_exists(year as int, week as int, weekday as int),
            r matches Some(d) ==> day_number(d.ymd().0, d.ymd().1, d.ymd().2) == iso_week_day(
                year as int,
                week as int,
                weekday as int,
            ),
            match date_of_week_date(year as int, week as int, weekday as int) {
                Some(ymd) => r matches Some(d) && d.ymd() == ymd,
                None => r is None,
            },
    {
        match calendar_of_iso_week_date(year as i32, week, weekday) {
            Some((y, m, d)) => {
                proof {
                    lemma_iso_week_day_nonnegative(year as int, week as int, weekday as int);
                    lemma_day_number_year(y as int, m as int, d as int);
                    let t = choose|t: (int, int, int)|
                        valid_ymd(t.0, t.1, t.2) && day_number(t.0, t.1, t.2) == iso_week_day(
                            year as int,
                            week as int,
                            weekday as int,
                        );
                    assert(valid_ymd(y as int, m as int, d as int));
                    lemma_day_number_injective(t.0, t.1, t.2, y as int, m as int, d as int);
                }
                if 1 <= y && y <= 9999 {
                    Date::from_ymd(y as u16, m, d)
                } else {
                    None
                }
            },
            None => None,
        }
    }
}

fn digit(n: u8) -> (c: char)
    requires
        n <= 9,
    ensures
        c == digit_char(n as int),
{
    (n + 48) as char
}

/// Reading the text of a date gives that date back.
pub proof fn lemma_date_text_round_trip(y: int, m: int, d: int)
    requires
        valid_ymd(y, m, d),
    ensures
        date_of(date_text(y, m, d)) == Some((y, m, d)),
{
    let s = date_text(y, m, d);
    assert(s.len() == 10);
    assert(y == (y / 100 / 10) * 1000 + (y / 100 % 10) * 100 + (y % 100 / 10) * 10 + y % 100
        % 10) by (nonlinear_arith)
        requires
            1 <= y <= 9999,
    ;
    assert(0 <= y / 100 / 10 <= 9 && 0 <= y / 100 % 10 <= 9 && 0 <= y % 100 / 10 <= 9) by (
    nonlinear_arith)
        requires
            1 <= y <= 9999,
    ;
    assert(m == (m / 10) * 10 + m % 10 && 0 <= m / 10 <= 9) by (nonlinear_arith)
        requires
            1 <= m <= 12,
    ;
    assert(d == (d / 10) * 10 + d % 10 && 0 <= d / 10 <= 9) by (nonlinear_arith)
        requires
            1 <= d <= 31,
    ;
    assert(digits_at(s, 0, 4));
    assert(digits_at(s, 5, 2));
    assert(digits_at(s, 8, 2));
}

} // verus!
