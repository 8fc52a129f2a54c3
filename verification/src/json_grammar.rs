//! The bejson grammar, stated as spec functions.
//!
//! bejson is JSON (<https://www.json.org/json-en.html>) with one more kind of
//! value, the command string `` $`...` ``. Each production is a function of the
//! input characters `s` and a start position `p`. Text productions give the
//! position where they stop (their text is the input between the two
//! positions); value productions give that position and the value read.
//! A choice between alternatives takes the first that succeeds, and a
//! repetition takes as many items as it can.
use vstd::prelude::*;

verus! {

/// A bejson value, as the contracts see it.
pub enum Json {
    CommandString(Seq<char>),
    Object(Seq<(Seq<char>, Json)>),
    Array(Seq<Json>),
    Str(Seq<char>),
    Number(Seq<char>),
    True,
    False,
    Null,
}

/// `s[p] == c`, with `p` inside `s`.
pub open spec fn at(s: Seq<char>, p: int, c: char) -> bool {
    0 <= p < s.len() && s[p] == c
}

/// `0` to `9`.
pub open spec fn is_digit(c: char) -> bool {
    '0' <= c && c <= '9'
}

/// `1` to `9`.
pub open spec fn is_onenine(c: char) -> bool {
    '1' <= c && c <= '9'
}

/// A hexadecimal digit.
pub open spec fn is_hex(c: char) -> bool {
    is_digit(c) || ('A' <= c && c <= 'F') || ('a' <= c && c <= 'f')
}

/// Whitespace: space, line feed, carriage return or tab.
pub open spec fn is_ws(c: char) -> bool {
    c == ' ' || c == '\n' || c == '\r' || c == '\t'
}

/// A character that stands for itself inside a string.
pub open spec fn is_plain(c: char) -> bool {
    (c as u32) >= 0x20 && c != '"' && c != '\\'
}

/// A character that stands for itself inside a command string.
pub open spec fn is_cmd_plain(c: char) -> bool {
    (c as u32) >= 0x20 && c != '`' && c != '\\'
}

/// The letters allowed after a backslash in a string.
pub open spec fn is_escape_letter(c: char) -> bool {
    c == '"' || c == '\\' || c == '/' || c == 'b' || c == 'f' || c == 'n' || c == 'r' || c == 't'
}

/// The letters allowed after a backslash in a command string.
pub open spec fn is_cmd_escape_letter(c: char) -> bool {
    is_escape_letter(c) || c == '`'
}

/// `ws`: the end of the run of whitespace that starts at `p`.
pub open spec fn ws_end(s: Seq<char>, p: int) -> int
    decreases s.len() - p,
{
    if 0 <= p < s.len() && is_ws(s[p]) {
        ws_end(s, p + 1)
    } else {
        p
    }
}

/// The end of the run of digits that starts at `p`.
pub open spec fn digit_run_end(s: Seq<char>, p: int) -> int
    decreases s.len() - p,
{
    if 0 <= p < s.len() && is_digit(s[p]) {
        digit_run_end(s, p + 1)
    } else {
        p
    }
}

/// `digits`: one digit or more.
pub open spec fn digits_end(s: Seq<char>, p: int) -> Option<int> {
    let e = digit_run_end(s, p);
    if e > p {
        Some(e)
    } else {
        None
    }
}

/// `'u' hex hex hex hex`, starting at `p`.
pub open spec fn unicode_escape_end(s: Seq<char>, p: int) -> Option<int> {
    if at(s, p, 'u') && p + 4 < s.len() && is_hex(s[p + 1]) && is_hex(s[p + 2]) && is_hex(
        s[p + 3],
    ) && is_hex(s[p + 4]) {
        Some(p + 5)
    } else {
        None
    }
}

/// `escape`: what follows a backslash in a string.
pub open spec fn escape_end(s: Seq<char>, p: int) -> Option<int> {
    if 0 <= p < s.len() && is_escape_letter(s[p]) {
        Some(p + 1)
    } else {
        unicode_escape_end(s, p)
    }
}

/// `command_string_escape`: what follows a backslash in a command string.
pub open spec fn cmd_escape_end(s: Seq<char>, p: int) -> Option<int> {
    if 0 <= p < s.len() && is_cmd_escape_letter(s[p]) {
        Some(p + 1)
    } else {
        unicode_escape_end(s, p)
    }
}

/// `character`: one plain character, or a backslash and an escape.
pub open spec fn character_end(s: Seq<char>, p: int) -> Option<int> {
    if 0 <= p < s.len() && is_plain(s[p]) {
        Some(p + 1)
    } else if at(s, p, '\\') {
        escape_end(s, p + 1)
    } else {
        None
    }
}

/// `command_string_character`.
pub open spec fn cmd_character_end(s: Seq<char>, p: int) -> Option<int> {
    if 0 <= p < s.len() && is_cmd_plain(s[p]) {
        Some(p + 1)
    } else if at(s, p, '\\') {
        cmd_escape_end(s, p + 1)
    } else {
        None
    }
}

/// `characters`: as many `character`s as there are.
pub open spec fn characters_end(s: Seq<char>, p: int) -> int
    decreases s.len() - p,
{
    match character_end(s, p) {
        Some(q) => if p < q <= s.len() {
            characters_end(s, q)
        } else {
            p
        },
        None => p,
    }
}

/// `command_string_characters`.
pub open spec fn cmd_characters_end(s: Seq<char>, p: int) -> int
    decreases s.len() - p,
{
    match cmd_character_end(s, p) {
        Some(q) => if p < q <= s.len() {
            cmd_characters_end(s, q)
        } else {
            p
        },
        None => p,
    }
}

/// `integer`: `'-' onenine digits`, `'-' digit`, `onenine digits` or `digit`.
pub open spec fn integer_end(s: Seq<char>, p: int) -> Option<int> {
    if at(s, p, '-') && p + 1 < s.len() && is_onenine(s[p + 1]) && digits_end(s, p + 2).is_some() {
        digits_end(s, p + 2)
    } else if at(s, p, '-') && p + 1 < s.len() && is_digit(s[p + 1]) {
        Some(p + 2)
    } else if 0 <= p < s.len() && is_onenine(s[p]) && digits_end(s, p + 1).is_some() {
        digits_end(s, p + 1)
    } else if 0 <= p < s.len() && is_digit(s[p]) {
        Some(p + 1)
    } else {
        None
    }
}

/// `fraction`: `'.' digits`, or nothing.
pub open spec fn fraction_end(s: Seq<char>, p: int) -> int {
    if at(s, p, '.') && digits_end(s, p + 1).is_some() {
        digits_end(s, p + 1).unwrap()
    } else {
        p
    }
}

/// Where the digits of an exponent start, after `E` or `e` and an optional sign.
pub open spec fn exponent_digits_start(s: Seq<char>, p: int) -> int {
    if 0 <= p + 1 < s.len() && (s[p + 1] == '+' || s[p + 1] == '-') {
        p + 2
    } else {
        p + 1
    }
}

/// `exponent`: `('E' | 'e') sign digits`, or nothing.
pub open spec fn exponent_end(s: Seq<char>, p: int) -> int {
    if 0 <= p < s.len() && (s[p] == 'E' || s[p] == 'e') && digits_end(
        s,
        exponent_digits_start(s, p),
    ).is_some() {
        digits_end(s, exponent_digits_start(s, p)).unwrap()
    } else {
        p
    }
}

/// `number`: `integer fraction exponent`.
pub open spec fn number_end(s: Seq<char>, p: int) -> Option<int> {
    match integer_end(s, p) {
        Some(i) => Some(exponent_end(s, fraction_end(s, i))),
        None => None,
    }
}

/// `string`: `'"' characters '"'`; its value is the text between the quotes.
pub open spec fn string_at(s: Seq<char>, p: int) -> Option<(int, Seq<char>)> {
    if at(s, p, '"') && at(s, characters_end(s, p + 1), '"') {
        Some((characters_end(s, p + 1) + 1, s.subrange(p + 1, characters_end(s, p + 1))))
    } else {
        None
    }
}

/// `command_string`: `'$' '`' command_string_characters '`'`.
pub open spec fn command_string_at(s: Seq<char>, p: int) -> Option<(int, Seq<char>)> {
    if at(s, p, '$') && at(s, p + 1, '`') && at(s, cmd_characters_end(s, p + 2), '`') {
        Some(
            (
                cmd_characters_end(s, p + 2) + 1,
                s.subrange(p + 2, cmd_characters_end(s, p + 2)),
            ),
        )
    } else {
        None
    }
}

/// `s[p..p+4] == [a, b, c, d]`.
pub open spec fn at4(s: Seq<char>, p: int, a: char, b: char, c: char, d: char) -> bool {
    at(s, p, a) && at(s, p + 1, b) && at(s, p + 2, c) && at(s, p + 3, d)
}

/// The keywords `true`, `false` and `null`.
pub open spec fn keyword_at(s: Seq<char>, p: int) -> Option<(int, Json)> {
    if at4(s, p, 't', 'r', 'u', 'e') {
        Some((p + 4, Json::True))
    } else if at4(s, p, 'f', 'a', 'l', 's') && at(s, p + 4, 'e') {
        Some((p + 5, Json::False))
    } else if at4(s, p, 'n', 'u', 'l', 'l') {
        Some((p + 4, Json::Null))
    } else {
        None
    }
}

/// `value`: command string, object, array, string, number or keyword, in that order.
pub open spec fn value_at(s: Seq<char>, p: int) -> Option<(int, Json)>
    decreases s.len() - p, 1int,
{
    if !(0 <= p <= s.len()) {
        None
    } else {
        match command_string_at(s, p) {
            Some((q, t)) => Some((q, Json::CommandString(t))),
            None => match object_at(s, p) {
                Some(r) => Some(r),
                None => match array_at(s, p) {
                    Some(r) => Some(r),
                    None => match string_at(s, p) {
                        Some((q, t)) => Some((q, Json::Str(t))),
                        None => match number_end(s, p) {
                            Some(q) => Some((q, Json::Number(s.subrange(p, q)))),
                            None => keyword_at(s, p),
                        },
                    },
                },
            },
        }
    }
}

/// `object`: `'{' ws '}'` or `'{' members '}'`.
pub open spec fn object_at(s: Seq<char>, p: int) -> Option<(int, Json)>
    decreases s.len() - p, 0int,
{
    if !(0 <= p < s.len()) || s[p] != '{' {
        None
    } else {
        proof {
            lemma_ws_end_bounds(s, p + 1);
        }
        if at(s, ws_end(s, p + 1), '}') {
            Some((ws_end(s, p + 1) + 1, Json::Object(seq![])))
        } else {
            match members_at(s, p + 1) {
                Some((q, ms)) => if at(s, q, '}') {
                    Some((q + 1, Json::Object(ms)))
                } else {
                    None
                },
                None => None,
            }
        }
    }
}

/// `members`: `member ',' members`, or `member`.
pub open spec fn members_at(s: Seq<char>, p: int) -> Option<(int, Seq<(Seq<char>, Json)>)>
    decreases s.len() - p, 4int,
{
    if !(0 <= p <= s.len()) {
        None
    } else {
        match member_at(s, p) {
            Some((q, m)) => if p <= q && at(s, q, ',') {
                match members_at(s, q + 1) {
                    Some((r, ms)) => Some((r, seq![m] + ms)),
                    None => Some((q, seq![m])),
                }
            } else {
                Some((q, seq![m]))
            },
            None => None,
        }
    }
}

/// `member`: `ws string ws ':' element`.
pub open spec fn member_at(s: Seq<char>, p: int) -> Option<(int, (Seq<char>, Json))>
    decreases s.len() - p, 3int,
{
    if !(0 <= p <= s.len()) {
        None
    } else {
        proof {
            lemma_ws_end_bounds(s, p);
        }
        match string_at(s, ws_end(s, p)) {
            Some((q, k)) => {
                proof {
                    lemma_string_at_bounds(s, ws_end(s, p));
                    lemma_ws_end_bounds(s, q);
                }
                if at(s, ws_end(s, q), ':') {
                    match element_at(s, ws_end(s, q) + 1) {
                        Some((r, v)) => Some((r, (k, v))),
                        None => None,
                    }
                } else {
                    None
                }
            },
            None => None,
        }
    }
}

/// `array`: `'[' ws ']'` or `'[' elements ']'`.
pub open spec fn array_at(s: Seq<char>, p: int) -> Option<(int, Json)>
    decreases s.len() - p, 0int,
{
    if !(0 <= p < s.len()) || s[p] != '[' {
        None
    } else {
        proof {
            lemma_ws_end_bounds(s, p + 1);
        }
        if at(s, ws_end(s, p + 1), ']') {
            Some((ws_end(s, p + 1) + 1, Json::Array(seq![])))
        } else {
            match elements_at(s, p + 1) {
                Some((q, vs)) => if at(s, q, ']') {
                    Some((q + 1, Json::Array(vs)))
                } else {
                    None
                },
                None => None,
            }
        }
    }
}

/// `elements`: `element ',' elements`, or `element`.
pub open spec fn elements_at(s: Seq<char>, p: int) -> Option<(int, Seq<Json>)>
    decreases s.len() - p, 4int,
{
    if !(0 <= p <= s.len()) {
        None
    } else {
        match element_at(s, p) {
            Some((q, v)) => if p <= q && at(s, q, ',') {
                match elements_at(s, q + 1) {
                    Some((r, vs)) => Some((r, seq![v] + vs)),
                    None => Some((q, seq![v])),
                }
            } else {
                Some((q, seq![v]))
            },
            None => None,
        }
    }
}

/// `element`: `ws value ws`.
pub open spec fn element_at(s: Seq<char>, p: int) -> Option<(int, Json)>
    decreases s.len() - p, 2int,
{
    if !(0 <= p <= s.len()) {
        None
    } else {
        proof {
            lemma_ws_end_bounds(s, p);
        }
        match value_at(s, ws_end(s, p)) {
            Some((q, v)) => Some((ws_end(s, q), v)),
            None => None,
        }
    }
}

/// `json`: an element that takes the whole input.
pub open spec fn json_of(s: Seq<char>) -> Option<Json> {
    match element_at(s, 0) {
        Some((q, v)) => if q == s.len() {
            Some(v)
        } else {
            None
        },
        None => None,
    }
}

/// How a value is written: without whitespace, strings and command strings as
/// read, members and elements separated by commas.
pub open spec fn print(j: Json) -> Seq<char>
    decreases j,
{
    match j {
        Json::CommandString(t) => seq!['$', '`'] + t + seq!['`'],
        Json::Object(ms) => seq!['{'] + print_members(ms) + seq!['}'],
        Json::Array(vs) => seq!['['] + print_values(vs) + seq![']'],
        Json::Str(t) => seq!['"'] + t + seq!['"'],
        Json::Number(n) => n,
        Json::True => seq!['t', 'r', 'u', 'e'],
        Json::False => seq!['f', 'a', 'l', 's', 'e'],
        Json::Null => seq!['n', 'u', 'l', 'l'],
    }
}

/// The members of an object, each as `"key":value`, separated by commas.
pub open spec fn print_members(ms: Seq<(Seq<char>, Json)>) -> Seq<char>
    decreases ms,
{
    if ms.len() == 0 {
        seq![]
    } else {
        let last = ms[ms.len() - 1];
        let item = seq!['"'] + last.0 + seq!['"', ':'] + print(last.1);
        if ms.len() == 1 {
            item
        } else {
            print_members(ms.subrange(0, ms.len() - 1)) + seq![','] + item
        }
    }
}

/// The elements of an array, separated by commas.
pub open spec fn print_values(vs: Seq<Json>) -> Seq<char>
    decreases vs,
{
    if vs.len() == 0 {
        seq![]
    } else {
        let item = print(vs[vs.len() - 1]);
        if vs.len() == 1 {
            item
        } else {
            print_values(vs.subrange(0, vs.len() - 1)) + seq![','] + item
        }
    }
}

/// Whitespace ends between its start and the end of the text.
pub proof fn lemma_ws_end_bounds(s: Seq<char>, p: int)
    requires
        0 <= p <= s.len(),
    ensures
        p <= ws_end(s, p) <= s.len(),
    decreases s.len() - p,
{
    if 0 <= p < s.len() && is_ws(s[p]) {
        lemma_ws_end_bounds(s, p + 1);
    }
}

/// A run of digits ends between its start and the end of the text.
pub proof fn lemma_digit_run_end_bounds(s: Seq<char>, p: int)
    requires
        0 <= p <= s.len(),
    ensures
        p <= digit_run_end(s, p) <= s.len(),
    decreases s.len() - p,
{
    if 0 <= p < s.len() && is_digit(s[p]) {
        lemma_digit_run_end_bounds(s, p + 1);
    }
}

/// The characters of a string end between their start and the end of the text.
pub proof fn lemma_characters_end_bounds(s: Seq<char>, p: int)
    requires
        0 <= p <= s.len(),
    ensures
        p <= characters_end(s, p) <= s.len(),
    decreases s.len() - p,
{
    match character_end(s, p) {
        Some(q) => if p < q <= s.len() {
            lemma_characters_end_bounds(s, q);
        },
        None => {},
    }
}

/// The characters of a command string end between their start and the end of the text.
pub proof fn lemma_cmd_characters_end_bounds(s: Seq<char>, p: int)
    requires
        0 <= p <= s.len(),
    ensures
        p <= cmd_characters_end(s, p) <= s.len(),
    decreases s.len() - p,
{
    match cmd_character_end(s, p) {
        Some(q) => if p < q <= s.len() {
            lemma_cmd_characters_end_bounds(s, q);
        },
        None => {},
    }
}

/// A string that is read ends after its start, inside the text.
pub proof fn lemma_string_at_bounds(s: Seq<char>, p: int)
    requires
        0 <= p <= s.len(),
    ensures
        string_at(s, p) matches Some((q, _)) ==> p < q <= s.len(),
{
    if at(s, p, '"') {
        lemma_characters_end_bounds(s, p + 1);
    }
}

} // verus!
