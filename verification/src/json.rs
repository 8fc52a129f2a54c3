//! The bejson reader: values, and the parsers of each production of the grammar.
//!
//! Each public parser takes the input text and, on success, gives back the text
//! that it did not read and what it read, like a parser combinator would.
use crate::json_grammar::{
    at, at4, character_end, characters_end, cmd_character_end, cmd_characters_end,
    cmd_escape_end, command_string_at, digit_run_end, digits_end, element_at, elements_at,
    escape_end, exponent_end, fraction_end, integer_end, is_cmd_plain, is_digit, is_escape_letter,
    is_hex, is_onenine, is_plain, is_ws, json_of, keyword_at, member_at, members_at, number_end,
    object_at, array_at, print, print_members, print_values, string_at, unicode_escape_end, value_at,
    ws_end, Json,
};
use crate::text::{push_char, push_str, rest_of, string_of, to_chars};
use vstd::prelude::*;

verus! {

/// A member of an object: its key and its value.
pub type Member = (JsonString, JsonValue);

/// A bejson value.
#[derive(Debug, Eq, PartialEq)]
pub enum JsonValue {
    CommandString(JsonCommandString),
    Object(Vec<Member>),
    Array(Vec<JsonValue>),
    String(JsonString),
    Number(String),
    True,
    False,
    Null,
}

/// The text of a command string, between the backquotes, as written.
#[derive(Clone, Debug, Eq, Ord, PartialEq, PartialOrd)]
pub struct JsonCommandString(pub String);

/// The text of a string, between the quotes, as written (escapes are kept).
#[derive(Clone, Debug, Eq, Ord, PartialEq, PartialOrd)]
pub struct JsonString(pub String);

/// The input is not what the production reads.
#[derive(Clone, Copy, Debug, Eq, PartialEq)]
pub struct ParseError;

/// The value that a `JsonValue` stands for.
pub open spec fn model(v: JsonValue) -> Json
    decreases v,
{
    match v {
        JsonValue::CommandString(c) => Json::CommandString(c.0@),
        JsonValue::Object(o) => Json::Object(members_model(o@)),
        JsonValue::Array(a) => Json::Array(values_model(a@)),
        JsonValue::String(t) => Json::Str(t.0@),
        JsonValue::Number(n) => Json::Number(n@),
        JsonValue::True => Json::True,
        JsonValue::False => Json::False,
        JsonValue::Null => Json::Null,
    }
}

/// The members of an object, as the contracts see them.
pub open spec fn members_model(ms: Seq<Member>) -> Seq<(Seq<char>, Json)>
    decreases ms,
{
    if ms.len() == 0 {
        seq![]
    } else {
        seq![(ms[0].0.0@, model(ms[0].1))] + members_model(ms.subrange(1, ms.len() as int))
    }
}

/// The elements of an array, as the contracts see them.
pub open spec fn values_model(vs: Seq<JsonValue>) -> Seq<Json>
    decreases vs,
{
    if vs.len() == 0 {
        seq![]
    } else {
        seq![model(vs[0])] + values_model(vs.subrange(1, vs.len() as int))
    }
}

proof fn lemma_members_model_cons(m: Member, ms: Seq<Member>)
    ensures
        members_model(seq![m] + ms) == seq![(m.0.0@, model(m.1))] + members_model(ms),
{
    let l = seq![m] + ms;
    assert(l.subrange(1, l.len() as int) =~= ms);
}

proof fn lemma_values_model_cons(v: JsonValue, vs: Seq<JsonValue>)
    ensures
        values_model(seq![v] + vs) == seq![model(v)] + values_model(vs),
{
    let l = seq![v] + vs;
    assert(l.subrange(1, l.len() as int) =~= vs);
}

proof fn lemma_members_model_one(m: Member)
    ensures
        members_model(seq![m]) == seq![(m.0.0@, model(m.1))],
{
    lemma_members_model_cons(m, seq![]);
    assert(seq![m] + Seq::<Member>::empty() =~= seq![m]);
    assert(seq![(m.0.0@, model(m.1))] + Seq::<(Seq<char>, Json)>::empty() =~= seq![
        (m.0.0@, model(m.1)),
    ]);
}

proof fn lemma_values_model_one(v: JsonValue)
    ensures
        values_model(seq![v]) == seq![model(v)],
{
    lemma_values_model_cons(v, seq![]);
    assert(seq![v] + Seq::<JsonValue>::empty() =~= seq![v]);
    assert(seq![model(v)] + Seq::<Json>::empty() =~= seq![model(v)]);
}

// ---------------------------------------------------------------------------
// Character classes
fn is_digit_x(c: char) -> (b: bool)
    ensures
        b == is_digit(c),
{
    '0' <= c && c <= '9'
}

fn is_onenine_x(c: char) -> (b: bool)
    ensures
        b == is_onenine(c),
{
    '1' <= c && c <= '9'
}

fn is_hex_x(c: char) -> (b: bool)
    ensures
        b == is_hex(c),
{
    is_digit_x(c) || ('A' <= c && c <= 'F') || ('a' <= c && c <= 'f')
}

fn is_ws_x(c: char) -> (b: bool)
    ensures
        b == is_ws(c),
{
    c == ' ' || c == '\n' || c == '\r' || c == '\t'
}

fn is_plain_x(c: char) -> (b: bool)
    ensures
        b == is_plain(c),
{
    (c as u32) >= 0x20 && c != '"' && c != '\\'
}

fn is_cmd_plain_x(c: char) -> (b: bool)
    ensures
        b == is_cmd_plain(c),
{
    (c as u32) >= 0x20 && c != '`' && c != '\\'
}

fn is_escape_letter_x(c: char) -> (b: bool)
    ensures
        b == is_escape_letter(c),
{
    c == '"' || c == '\\' || c == '/' || c == 'b' || c == 'f' || c == 'n' || c == 'r' || c == 't'
}

fn at_x(cs: &Vec<char>, p: usize, c: char) -> (b: bool)
    ensures
        b == at(cs@, p as int, c),
{
    p < cs.len() && cs[p] == c
}

// ---------------------------------------------------------------------------
// Text productions, on a character vector and a start position
fn ws_end_x(cs: &Vec<char>, p: usize) -> (r: usize)
    requires
        p <= cs.len(),
    ensures
        r == ws_end(cs@, p as int),
        p <= r <= cs.len(),
{
    let mut i = p;
    while i < cs.len() && is_ws_x(cs[i])
        invariant
            p <= i <= cs.len(),
            ws_end(cs@, i as int) == ws_end(cs@, p as int),
        decreases cs.len() - i,
    {
        i = i + 1;
    }
    i
}

fn digit_run_end_x(cs: &Vec<char>, p: usize) -> (r: usize)
    requires
        p <= cs.len(),
    ensures
        r == digit_run_end(cs@, p as int),
        p <= r <= cs.len(),
{
    let mut i = p;
    while i < cs.len() && is_digit_x(cs[i])
        invariant
            p <= i <= cs.len(),
            digit_run_end(cs@, i as int) == digit_run_end(cs@, p as int),
        decreases cs.len() - i,
    {
        i = i + 1;
    }
    i
}

fn digits_end_x(cs: &Vec<char>, p: usize) -> (r: Option<usize>)
    requires
        p <= cs.len(),
    ensures
        r matches Some(q) ==> digits_end(cs@, p as int) == Some(q as int) && p < q <= cs.len(),
        r is None ==> digits_end(cs@, p as int) is None,
{
    let e = digit_run_end_x(cs, p);
    if e > p {
        Some(e)
    } else {
        None
    }
}

fn unicode_escape_end_x(cs: &Vec<char>, p: usize) -> (r: Option<usize>)
    requires
        p <= cs.len(),
    ensures
        r matches Some(q) ==> unicode_escape_end(cs@, p as int) == Some(q as int) && p < q
            <= cs.len(),
        r is None ==> unicode_escape_end(cs@, p as int) is None,
{
    if at_x(cs, p, 'u') && cs.len() - p > 4 && is_hex_x(cs[p + 1]) && is_hex_x(cs[p + 2])
        && is_hex_x(cs[p + 3]) && is_hex_x(cs[p + 4]) {
        Some(p + 5)
    } else {
        None
    }
}

fn escape_end_x(cs: &Vec<char>, p: usize, in_command: bool) -> (r: Option<usize>)
    requires
        p <= cs.len(),
    ensures
        in_command ==> (r matches Some(q) ==> cmd_escape_end(cs@, p as int) == Some(q as int)),
        in_command ==> (r is None ==> cmd_escape_end(cs@, p as int) is None),
        !in_command ==> (r matches Some(q) ==> escape_end(cs@, p as int) == Some(q as int)),
        !in_command ==> (r is None ==> escape_end(cs@, p as int) is None),
        r matches Some(q) ==> p < q <= cs.len(),
{
    if p < cs.len() && (is_escape_letter_x(cs[p]) || (in_command && cs[p] == '`')) {
        Some(p + 1)
    } else {
        unicode_escape_end_x(cs, p)
    }
}

fn character_end_x(cs: &Vec<char>, p: usize, in_command: bool) -> (r: Option<usize>)
    requires
        p <= cs.len(),
    ensures
        in_command ==> (r matches Some(q) ==> cmd_character_end(cs@, p as int) == Some(
            q as int,
        )),
        in_command ==> (r is None ==> cmd_character_end(cs@, p as int) is None),
        !in_command ==> (r matches Some(q) ==> character_end(cs@, p as int) == Some(q as int)),
        !in_command ==> (r is None ==> character_end(cs@, p as int) is None),
        r matches Some(q) ==> p < q <= cs.len(),
{
    if p < cs.len() && ((!in_command && is_plain_x(cs[p])) || (in_command && is_cmd_plain_x(
        cs[p],
    ))) {
        Some(p + 1)
    } else if at_x(cs, p, '\\') {
        escape_end_x(cs, p + 1, in_command)
    } else {
        None
    }
}

fn characters_end_x(cs: &Vec<char>, p: usize, in_command: bool) -> (r: usize)
    requires
        p <= cs.len(),
    ensures
        in_command ==> r == cmd_characters_end(cs@, p as int),
        !in_command ==> r == characters_end(cs@, p as int),
        p <= r <= cs.len(),
{
    let mut i = p;
    loop
        invariant
            p <= i <= cs.len(),
            in_command ==> cmd_characters_end(cs@, i as int) == cmd_characters_end(cs@, p as int),
            !in_command ==> characters_end(cs@, i as int) == characters_end(cs@, p as int),
        decreases cs.len() - i,
    {
        match character_end_x(cs, i, in_command) {
            Some(q) => {
                i = q;
            },
            None => {
                return i;
            },
        }
    }
}

fn integer_end_x(cs: &Vec<char>, p: usize) -> (r: Option<usize>)
    requires
        p <= cs.len(),
    ensures
        r matches Some(q) ==> integer_end(cs@, p as int) == Some(q as int) && p < q <= cs.len(),
        r is None ==> integer_end(cs@, p as int) is None,
{
    let n = cs.len();
    if at_x(cs, p, '-') && n - p > 1 && is_onenine_x(cs[p + 1]) {
        if let Some(e) = digits_end_x(cs, p + 2) {
            return Some(e);
        }
    }
    if at_x(cs, p, '-') && n - p > 1 && is_digit_x(cs[p + 1]) {
        return Some(p + 2);
    }
    if p < n && is_onenine_x(cs[p]) {
        if let Some(e) = digits_end_x(cs, p + 1) {
            return Some(e);
        }
    }
    if p < n && is_digit_x(cs[p]) {
        Some(p + 1)
    } else {
        None
    }
}

fn fraction_end_x(cs: &Vec<char>, p: usize) -> (r: usize)
    requires
        p <= cs.len(),
    ensures
        r == fraction_end(cs@, p as int),
        p <= r <= cs.len(),
{
    if at_x(cs, p, '.') {
        match digits_end_x(cs, p + 1) {
            Some(e) => e,
            None => p,
        }
    } else {
        p
    }
}

fn exponent_end_x(cs: &Vec<char>, p: usize) -> (r: usize)
    requires
        p <= cs.len(),
    ensures
        r == exponent_end(cs@, p as int),
        p <= r <= cs.len(),
{
    if p < cs.len() && (cs[p] == 'E' || cs[p] == 'e') {
        let start = if p + 1 < cs.len() && (cs[p + 1] == '+' || cs[p + 1] == '-') {
            p + 2
        } else {
            p + 1
        };
        match digits_end_x(cs, start) {
            Some(e) => e,
            None => p,
        }
    } else {
        p
    }
}

fn number_end_x(cs: &Vec<char>, p: usize) -> (r: Option<usize>)
    requires
        p <= cs.len(),
    ensures
        r matches Some(q) ==> number_end(cs@, p as int) == Some(q as int) && p < q <= cs.len(),
        r is None ==> number_end(cs@, p as int) is None,
{
    match integer_end_x(cs, p) {
        Some(i) => {
            let f = fraction_end_x(cs, i);
            Some(exponent_end_x(cs, f))
        },
        None => None,
    }
}

// ---------------------------------------------------------------------------
// Value productions
fn string_at_x(cs: &Vec<char>, p: usize) -> (r: Option<(usize, String)>)
    requires
        p <= cs.len(),
    ensures
        r matches Some((q, t)) ==> string_at(cs@, p as int) == Some((q as int, t@)) && p < q
            <= cs.len(),
        r is None ==> string_at(cs@, p as int) is None,
{
    if at_x(cs, p, '"') {
        let e = characters_end_x(cs, p + 1, false);
        if at_x(cs, e, '"') {
            return Some((e + 1, string_of(cs, p + 1, e)));
        }
    }
    None
}

fn command_string_at_x(cs: &Vec<char>, p: usize) -> (r: Option<(usize, String)>)
    requires
        p <= cs.len(),
    ensures
        r matches Some((q, t)) ==> command_string_at(cs@, p as int) == Some((q as int, t@)) && p
            < q <= cs.len(),
        r is None ==> command_string_at(cs@, p as int) is None,
{
    if at_x(cs, p, '$') && at_x(cs, p + 1, '`') {
        let e = characters_end_x(cs, p + 2, true);
        if at_x(cs, e, '`') {
            return Some((e + 1, string_of(cs, p + 2, e)));
        }
    }
    None
}

fn at4_x(cs: &Vec<char>, p: usize, a: char, b: char, c: char, d: char) -> (r: bool)
    ensures
        r == at4(cs@, p as int, a, b, c, d),
{
    p < cs.len() && cs.len() - p >= 4 && cs[p] == a && cs[p + 1] == b && cs[p + 2] == c && cs[p
        + 3] == d
}

fn keyword_at_x(cs: &Vec<char>, p: usize) -> (r: Option<(usize, JsonValue)>)
    requires
        p <= cs.len(),
    ensures
        r matches Some((q, v)) ==> keyword_at(cs@, p as int) == Some((q as int, model(v))) && p
            < q <= cs.len(),
        r is None ==> keyword_at(cs@, p as int) is None,
{
    if at4_x(cs, p, 't', 'r', 'u', 'e') {
        Some((p + 4, JsonValue::True))
    } else if at4_x(cs, p, 'f', 'a', 'l', 's') && at_x(cs, p + 4, 'e') {
        Some((p + 5, JsonValue::False))
    } else if at4_x(cs, p, 'n', 'u', 'l', 'l') {
        Some((p + 4, JsonValue::Null))
    } else {
        None
    }
}

fn value_at_x(cs: &Vec<char>, p: usize) -> (r: Option<(usize, JsonValue)>)
    requires
        p <= cs.len(),
    ensures
        r matches Some((q, v)) ==> value_at(cs@, p as int) == Some((q as int, model(v))) && p
            <= q <= cs.len(),
        r is None ==> value_at(cs@, p as int) is None,
    decreases cs.len() - p, 1nat,
{
    if let Some((q, t)) = command_string_at_x(cs, p) {
        return Some((q, JsonValue::CommandString(JsonCommandString(t))));
    }
    if let Some(r) = object_at_x(cs, p) {
        return Some(r);
    }
    if let Some(r) = array_at_x(cs, p) {
        return Some(r);
    }
    if let Some((q, t)) = string_at_x(cs, p) {
        return Some((q, JsonValue::String(JsonString(t))));
    }
    if let Some(q) = number_end_x(cs, p) {
        return Some((q, JsonValue::Number(string_of(cs, p, q))));
    }
    keyword_at_x(cs, p)
}

fn object_at_x(cs: &Vec<char>, p: usize) -> (r: Option<(usize, JsonValue)>)
    requires
        p <= cs.len(),
    ensures
        r matches Some((q, v)) ==> object_at(cs@, p as int) == Some((q as int, model(v))) && p
            <= q <= cs.len(),
        r is None ==> object_at(cs@, p as int) is None,
    decreases cs.len() - p, 0nat,
{
    if !at_x(cs, p, '{') {
        return None;
    }
    let w = ws_end_x(cs, p + 1);
    if at_x(cs, w, '}') {
        let v = JsonValue::Object(Vec::new());
        proof {
            assert(members_model(Seq::<Member>::empty()) =~= seq![]);
        }
        return Some((w + 1, v));
    }
    match members_at_x(cs, p + 1) {
        Some((q, ms)) => {
            if at_x(cs, q, '}') {
                Some((q + 1, JsonValue::Object(ms)))
            } else {
                None
            }
        },
        None => None,
    }
}

fn members_at_x(cs: &Vec<char>, p: usize) -> (r: Option<(usize, Vec<Member>)>)
    requires
        p <= cs.len(),
    ensures
        r matches Some((q, ms)) ==> members_at(cs@, p as int) == Some(
            (q as int, members_model(ms@)),
        ) && p <= q <= cs.len(),
        r is None ==> members_at(cs@, p as int) is None,
    decreases cs.len() - p, 4nat,
{
    match member_at_x(cs, p) {
        Some((q, m)) => {
            let ghost mm = (m.0.0@, model(m.1));
            if at_x(cs, q, ',') {
                match members_at_x(cs, q + 1) {
                    Some((r, ms)) => {
                        let ghost old_ms = ms@;
                        let mut ms = ms;
                        ms.insert(0, m);
                        proof {
                            assert(ms@ =~= seq![m] + old_ms);
                            lemma_members_model_cons(m, old_ms);
                        }
                        Some((r, ms))
                    },
                    None => {
                        let v = vec![m];
                        proof {
                            assert(v@ =~= seq![m]);
                            lemma_members_model_one(m);
                        }
                        Some((q, v))
                    },
                }
            } else {
                let v = vec![m];
                proof {
                    assert(v@ =~= seq![m]);
                    lemma_members_model_one(m);
                }
                Some((q, v))
            }
        },
        None => None,
    }
}

fn member_at_x(cs: &Vec<char>, p: usize) -> (r: Option<(usize, Member)>)
    requires
        p <= cs.len(),
    ensures
        r matches Some((q, m)) ==> member_at(cs@, p as int) == Some(
            (q as int, (m.0.0@, model(m.1))),
        ) && p <= q <= cs.len(),
        r is None ==> member_at(cs@, p as int) is None,
    decreases cs.len() - p, 3nat,
{
    let a = ws_end_x(cs, p);
    match string_at_x(cs, a) {
        Some((q, k)) => {
            let c = ws_end_x(cs, q);
            if at_x(cs, c, ':') {
                match element_at_x(cs, c + 1) {
                    Some((r, v)) => Some((r, (JsonString(k), v))),
                    None => None,
                }
            } else {
                None
            }
        },
        None => None,
    }
}

fn array_at_x(cs: &Vec<char>, p: usize) -> (r: Option<(usize, JsonValue)>)
    requires
        p <= cs.len(),
    ensures
        r matches Some((q, v)) ==> array_at(cs@, p as int) == Some((q as int, model(v))) && p
            <= q <= cs.len(),
        r is None ==> array_at(cs@, p as int) is None,
    decreases cs.len() - p, 0nat,
{
    if !at_x(cs, p, '[') {
        return None;
    }
    let w = ws_end_x(cs, p + 1);
    if at_x(cs, w, ']') {
        let v = JsonValue::Array(Vec::new());
        proof {
            assert(values_model(Seq::<JsonValue>::empty()) =~= seq![]);
        }
        return Some((w + 1, v));
    }
    match elements_at_x(cs, p + 1) {
        Some((q, vs)) => {
            if at_x(cs, q, ']') {
                Some((q + 1, JsonValue::Array(vs)))
            } else {
                None
            }
        },
        None => None,
    }
}

fn elements_at_x(cs: &Vec<char>, p: usize) -> (r: Option<(usize, Vec<JsonValue>)>)
    requires
        p <= cs.len(),
    ensures
        r matches Some((q, vs)) ==> elements_at(cs@, p as int) == Some(
            (q as int, values_model(vs@)),
        ) && p <= q <= cs.len(),
        r is None ==> elements_at(cs@, p as int) is None,
    decreases cs.len() - p, 4nat,
{
    match element_at_x(cs, p) {
        Some((q, v)) => {
            if at_x(cs, q, ',') {
                match elements_at_x(cs, q + 1) {
                    Some((r, vs)) => {
                        let ghost old_vs = vs@;
                        let mut vs = vs;
                        vs.insert(0, v);
                        proof {
                            assert(vs@ =~= seq![v] + old_vs);
                            lemma_values_model_cons(v, old_vs);
                        }
                        Some((r, vs))
                    },
                    None => {
                        let ghost gv = v;
                        let vs = vec![v];
                        proof {
                            assert(vs@ =~= seq![gv]);
                            lemma_values_model_one(gv);
                        }
                        Some((q, vs))
                    },
                }
            } else {
                let ghost gv = v;
                let vs = vec![v];
                proof {
                    assert(vs@ =~= seq![gv]);
                    lemma_values_model_one(gv);
                }
                Some((q, vs))
            }
        },
        None => None,
    }
}

fn element_at_x(cs: &Vec<char>, p: usize) -> (r: Option<(usize, JsonValue)>)
    requires
        p <= cs.len(),
    ensures
        r matches Some((q, v)) ==> element_at(cs@, p as int) == Some((q as int, model(v))) && p
            <= q <= cs.len(),
        r is None ==> element_at(cs@, p as int) is None,
    decreases cs.len() - p, 2nat,
{
    let a = ws_end_x(cs, p);
    match value_at_x(cs, a) {
        Some((q, v)) => Some((ws_end_x(cs, q), v)),
        None => None,
    }
}

// ---------------------------------------------------------------------------
// The productions, on text

/// `rest` is what is left of `s` once its first `q` characters are read.
pub open spec fn rest_after(s: Seq<char>, q: int, rest: Seq<char>) -> bool {
    0 <= q <= s.len() && rest == s.subrange(q, s.len() as int)
}

/// `text` is the first `q` characters of `s`, and `rest` the others.
pub open spec fn read_as(s: Seq<char>, q: int, rest: Seq<char>, text: Seq<char>) -> bool {
    rest_after(s, q, rest) && text == s.subrange(0, q)
}

/// `json`: one element that takes the whole input.
pub fn json(s: &str) -> (res: Result<(&str, JsonValue), ParseError>)
    ensures
        match json_of(s@) {
            Some(j) => res matches Ok((rest, v)) && rest@ == Seq::<char>::empty() && model(v) == j,
            None => res is Err,
        },
{
    let cs = to_chars(s);
    match element_at_x(&cs, 0) {
        Some((q, v)) => {
            if q == cs.len() {
                let rest = rest_of(s, cs.len(), q);
                assert(rest@ =~= Seq::<char>::empty());
                Ok((rest, v))
            } else {
                Err(ParseError)
            }
        },
        None => Err(ParseError),
    }
}

/// `value`.
pub fn json_value(s: &str) -> (res: Result<(&str, JsonValue), ParseError>)
    ensures
        match value_at(s@, 0) {
            Some((q, j)) => res matches Ok((rest, v)) && rest_after(s@, q, rest@) && model(v) == j,
            None => res is Err,
        },
{
    let cs = to_chars(s);
    match value_at_x(&cs, 0) {
        Some((q, v)) => Ok((rest_of(s, cs.len(), q), v)),
        None => Err(ParseError),
    }
}

/// `command_string`.
pub fn json_command_string(s: &str) -> (res: Result<(&str, JsonValue), ParseError>)
    ensures
        match command_string_at(s@, 0) {
            Some((q, t)) => res matches Ok((rest, v)) && rest_after(s@, q, rest@) && model(v)
                == Json::CommandString(t),
            None => res is Err,
        },
{
    let cs = to_chars(s);
    match command_string_at_x(&cs, 0) {
        Some((q, t)) => Ok(
            (rest_of(s, cs.len(), q), JsonValue::CommandString(JsonCommandString(t))),
        ),
        None => Err(ParseError),
    }
}

/// `command_string_characters`: always succeeds, possibly reading nothing.
pub fn json_command_string_characters(s: &str) -> (res: Result<(&str, String), ParseError>)
    ensures
        res matches Ok((rest, t)) && read_as(s@, cmd_characters_end(s@, 0), rest@, t@),
{
    let cs = to_chars(s);
    let q = characters_end_x(&cs, 0, true);
    Ok((rest_of(s, cs.len(), q), string_of(&cs, 0, q)))
}

/// `command_string_character`.
pub fn json_command_string_character(s: &str) -> (res: Result<(&str, String), ParseError>)
    ensures
        match cmd_character_end(s@, 0) {
            Some(q) => res matches Ok((rest, t)) && read_as(s@, q, rest@, t@),
            None => res is Err,
        },
{
    let cs = to_chars(s);
    match character_end_x(&cs, 0, true) {
        Some(q) => Ok((rest_of(s, cs.len(), q), string_of(&cs, 0, q))),
        None => Err(ParseError),
    }
}

/// `command_string_escape`.
pub fn json_command_string_escape(s: &str) -> (res: Result<(&str, String), ParseError>)
    ensures
        match cmd_escape_end(s@, 0) {
            Some(q) => res matches Ok((rest, t)) && read_as(s@, q, rest@, t@),
            None => res is Err,
        },
{
    let cs = to_chars(s);
    match escape_end_x(&cs, 0, true) {
        Some(q) => Ok((rest_of(s, cs.len(), q), string_of(&cs, 0, q))),
        None => Err(ParseError),
    }
}

/// `object`.
pub fn json_object(s: &str) -> (res: Result<(&str, JsonValue), ParseError>)
    ensures
        match object_at(s@, 0) {
            Some((q, j)) => res matches Ok((rest, v)) && rest_after(s@, q, rest@) && model(v) == j,
            None => res is Err,
        },
{
    let cs = to_chars(s);
    match object_at_x(&cs, 0) {
        Some((q, v)) => Ok((rest_of(s, cs.len(), q), v)),
        None => Err(ParseError),
    }
}

/// `members`.
pub fn json_members(s: &str) -> (res: Result<(&str, Vec<Member>), ParseError>)
    ensures
        match members_at(s@, 0) {
            Some((q, j)) => res matches Ok((rest, ms)) && rest_after(s@, q, rest@)
                && members_model(ms@) == j,
            None => res is Err,
        },
{
    let cs = to_chars(s);
    match members_at_x(&cs, 0) {
        Some((q, ms)) => Ok((rest_of(s, cs.len(), q), ms)),
        None => Err(ParseError),
    }
}

/// `member`.
pub fn json_member(s: &str) -> (res: Result<(&str, Member), ParseError>)
    ensures
        match member_at(s@, 0) {
            Some((q, j)) => res matches Ok((rest, m)) && rest_after(s@, q, rest@) && (
            m.0.0@, model(m.1)) == j,
            None => res is Err,
        },
{
    let cs = to_chars(s);
    match member_at_x(&cs, 0) {
        Some((q, m)) => Ok((rest_of(s, cs.len(), q), m)),
        None => Err(ParseError),
    }
}

/// `array`.
pub fn json_array(s: &str) -> (res: Result<(&str, JsonValue), ParseError>)
    ensures
        match array_at(s@, 0) {
            Some((q, j)) => res matches Ok((rest, v)) && rest_after(s@, q, rest@) && model(v) == j,
            None => res is Err,
        },
{
    let cs = to_chars(s);
    match array_at_x(&cs, 0) {
        Some((q, v)) => Ok((rest_of(s, cs.len(), q), v)),
        None => Err(ParseError),
    }
}

/// `elements`.
pub fn json_elements(s: &str) -> (res: Result<(&str, Vec<JsonValue>), ParseError>)
    ensures
        match elements_at(s@, 0) {
            Some((q, j)) => res matches Ok((rest, vs)) && rest_after(s@, q, rest@)
                && values_model(vs@) == j,
            None => res is Err,
        },
{
    let cs = to_chars(s);
    match elements_at_x(&cs, 0) {
        Some((q, vs)) => Ok((rest_of(s, cs.len(), q), vs)),
        None => Err(ParseError),
    }
}

/// `element`.
pub fn json_element(s: &str) -> (res: Result<(&str, JsonValue), ParseError>)
    ensures
        match element_at(s@, 0) {
            Some((q, j)) => res matches Ok((rest, v)) && rest_after(s@, q, rest@) && model(v) == j,
            None => res is Err,
        },
{
    let cs = to_chars(s);
    match element_at_x(&cs, 0) {
        Some((q, v)) => Ok((rest_of(s, cs.len(), q), v)),
        None => Err(ParseError),
    }
}

/// `string`.
pub fn json_string(s: &str) -> (res: Result<(&str, JsonValue), ParseError>)
    ensures
        match string_at(s@, 0) {
            Some((q, t)) => res matches Ok((rest, v)) && rest_after(s@, q, rest@) && model(v)
                == Json::Str(t),
            None => res is Err,
        },
{
    let cs = to_chars(s);
    match string_at_x(&cs, 0) {
        Some((q, t)) => Ok((rest_of(s, cs.len(), q), JsonValue::String(JsonString(t)))),
        None => Err(ParseError),
    }
}

/// `characters`: always succeeds, possibly reading nothing.
pub fn json_characters(s: &str) -> (res: Result<(&str, String), ParseError>)
    ensures
        res matches Ok((rest, t)) && read_as(s@, characters_end(s@, 0), rest@, t@),
{
    let cs = to_chars(s);
    let q = characters_end_x(&cs, 0, false);
    Ok((rest_of(s, cs.len(), q), string_of(&cs, 0, q)))
}

/// `character`.
pub fn json_character(s: &str) -> (res: Result<(&str, String), ParseError>)
    ensures
        match character_end(s@, 0) {
            Some(q) => res matches Ok((rest, t)) && read_as(s@, q, rest@, t@),
            None => res is Err,
        },
{
    let cs = to_chars(s);
    match character_end_x(&cs, 0, false) {
        Some(q) => Ok((rest_of(s, cs.len(), q), string_of(&cs, 0, q))),
        None => Err(ParseError),
    }
}

/// `escape`.
pub fn json_escape(s: &str) -> (res: Result<(&str, String), ParseError>)
    ensures
        match escape_end(s@, 0) {
            Some(q) => res matches Ok((rest, t)) && read_as(s@, q, rest@, t@),
            None => res is Err,
        },
{
    let cs = to_chars(s);
    match escape_end_x(&cs, 0, false) {
        Some(q) => Ok((rest_of(s, cs.len(), q), string_of(&cs, 0, q))),
        None => Err(ParseError),
    }
}


/// `hex`: a digit or a letter from `A` to `F` or from `a` to `f`.
pub fn json_hex(s: &str) -> (res: Result<(&str, char), ParseError>)
    ensures
        if s@.len() > 0 && is_hex(s@[0]) {
            res matches Ok((rest, c)) && c == s@[0] && rest_after(s@, 1, rest@)
        } else {
            res is Err
        },
{
    let cs = to_chars(s);
    if cs.len() > 0 && is_hex_x(cs[0]) {
        Ok((rest_of(s, cs.len(), 1), cs[0]))
    } else {
        Err(ParseError)
    }
}

/// `number`: `integer fraction exponent`; its value is the text read.
pub fn json_number(s: &str) -> (res: Result<(&str, JsonValue), ParseError>)
    ensures
        match number_end(s@, 0) {
            Some(q) => res matches Ok((rest, v)) && rest_after(s@, q, rest@) && model(v)
                == Json::Number(s@.subrange(0, q)),
            None => res is Err,
        },
{
    let cs = to_chars(s);
    match number_end_x(&cs, 0) {
        Some(q) => Ok((rest_of(s, cs.len(), q), JsonValue::Number(string_of(&cs, 0, q)))),
        None => Err(ParseError),
    }
}

/// `integer`.
pub fn json_integer(s: &str) -> (res: Result<(&str, String), ParseError>)
    ensures
        match integer_end(s@, 0) {
            Some(q) => res matches Ok((rest, t)) && read_as(s@, q, rest@, t@),
            None => res is Err,
        },
{
    let cs = to_chars(s);
    match integer_end_x(&cs, 0) {
        Some(q) => Ok((rest_of(s, cs.len(), q), string_of(&cs, 0, q))),
        None => Err(ParseError),
    }
}

/// `digits`: one digit or more.
pub fn json_digits(s: &str) -> (res: Result<(&str, Vec<char>), ParseError>)
    ensures
        match digits_end(s@, 0) {
            Some(q) => res matches Ok((rest, ds)) && read_as(s@, q, rest@, ds@),
            None => res is Err,
        },
{
    let cs = to_chars(s);
    match digits_end_x(&cs, 0) {
        Some(q) => {
            let mut ds: Vec<char> = Vec::new();
            let mut i: usize = 0;
            while i < q
                invariant
                    q <= cs.len(),
                    i <= q,
                    ds@ == cs@.subrange(0, i as int),
                decreases q - i,
            {
                ds.push(cs[i]);
                i = i + 1;
                assert(ds@ =~= cs@.subrange(0, i as int));
            }
            Ok((rest_of(s, cs.len(), q), ds))
        },
        None => Err(ParseError),
    }
}

/// `digit`: from `0` to `9`.
pub fn json_digit(s: &str) -> (res: Result<(&str, char), ParseError>)
    ensures
        if s@.len() > 0 && is_digit(s@[0]) {
            res matches Ok((rest, c)) && c == s@[0] && rest_after(s@, 1, rest@)
        } else {
            res is Err
        },
{
    let cs = to_chars(s);
    if cs.len() > 0 && is_digit_x(cs[0]) {
        Ok((rest_of(s, cs.len(), 1), cs[0]))
    } else {
        Err(ParseError)
    }
}

/// `onenine`: from `1` to `9`.
pub fn json_onenine(s: &str) -> (res: Result<(&str, char), ParseError>)
    ensures
        if s@.len() > 0 && is_onenine(s@[0]) {
            res matches Ok((rest, c)) && c == s@[0] && rest_after(s@, 1, rest@)
        } else {
            res is Err
        },
{
    let cs = to_chars(s);
    if cs.len() > 0 && is_onenine_x(cs[0]) {
        Ok((rest_of(s, cs.len(), 1), cs[0]))
    } else {
        Err(ParseError)
    }
}

/// `fraction`: always succeeds, possibly reading nothing.
pub fn json_fraction(s: &str) -> (res: Result<(&str, String), ParseError>)
    ensures
        res matches Ok((rest, t)) && read_as(s@, fraction_end(s@, 0), rest@, t@),
{
    let cs = to_chars(s);
    let q = fraction_end_x(&cs, 0);
    Ok((rest_of(s, cs.len(), q), string_of(&cs, 0, q)))
}

/// `exponent`: always succeeds, possibly reading nothing.
pub fn json_exponent(s: &str) -> (res: Result<(&str, String), ParseError>)
    ensures
        res matches Ok((rest, t)) && read_as(s@, exponent_end(s@, 0), rest@, t@),
{
    let cs = to_chars(s);
    let q = exponent_end_x(&cs, 0);
    Ok((rest_of(s, cs.len(), q), string_of(&cs, 0, q)))
}

/// `sign`: `+`, `-`, or nothing; always succeeds.
pub fn json_sign(s: &str) -> (res: Result<(&str, Option<char>), ParseError>)
    ensures
        if s@.len() > 0 && (s@[0] == '+' || s@[0] == '-') {
            res matches Ok((rest, c)) && c == Some(s@[0]) && rest_after(s@, 1, rest@)
        } else {
            res matches Ok((rest, c)) && c is None && rest@ == s@
        },
{
    let cs = to_chars(s);
    if cs.len() > 0 && (cs[0] == '+' || cs[0] == '-') {
        Ok((rest_of(s, cs.len(), 1), Some(cs[0])))
    } else {
        Ok((s, None))
    }
}

/// `ws`: always succeeds, possibly reading nothing.
pub fn json_ws(s: &str) -> (res: Result<(&str, String), ParseError>)
    ensures
        res matches Ok((rest, t)) && read_as(s@, ws_end(s@, 0), rest@, t@),
{
    let cs = to_chars(s);
    let q = ws_end_x(&cs, 0);
    Ok((rest_of(s, cs.len(), q), string_of(&cs, 0, q)))
}

// ---------------------------------------------------------------------------
// Printing

proof fn lemma_members_model_index(ms: Seq<Member>)
    ensures
        members_model(ms).len() == ms.len(),
        forall|i: int|
            0 <= i < ms.len() ==> #[trigger] members_model(ms)[i] == (ms[i].0.0@, model(ms[i].1)),
    decreases ms.len(),
{
    if ms.len() > 0 {
        let tail = ms.subrange(1, ms.len() as int);
        lemma_members_model_index(tail);
        assert forall|i: int| 0 <= i < ms.len() implies #[trigger] members_model(ms)[i] == (
        ms[i].0.0@, model(ms[i].1)) by {
            if i > 0 {
                assert(ms[i] == tail[i - 1]);
            }
        }
    }
}

proof fn lemma_values_model_index(vs: Seq<JsonValue>)
    ensures
        values_model(vs).len() == vs.len(),
        forall|i: int| 0 <= i < vs.len() ==> #[trigger] values_model(vs)[i] == model(vs[i]),
    decreases vs.len(),
{
    if vs.len() > 0 {
        let tail = vs.subrange(1, vs.len() as int);
        lemma_values_model_index(tail);
        assert forall|i: int| 0 <= i < vs.len() implies #[trigger] values_model(vs)[i] == model(
            vs[i],
        ) by {
            if i > 0 {
                assert(vs[i] == tail[i - 1]);
            }
        }
    }
}

proof fn lemma_print_members_step(x: Seq<(Seq<char>, Json)>, i: int)
    requires
        0 <= i < x.len(),
    ensures
        print_members(x.take(i + 1)) == print_members(x.take(i)) + (if i == 0 {
            Seq::<char>::empty()
        } else {
            seq![',']
        }) + (seq!['"'] + x[i].0 + seq!['"', ':'] + print(x[i].1)),
{
    let t = x.take(i + 1);
    assert(t.subrange(0, t.len() - 1) =~= x.take(i));
    if i == 0 {
        assert(print_members(x.take(0)) =~= Seq::<char>::empty());
        assert(print_members(t) =~= Seq::<char>::empty() + Seq::<char>::empty() + print_members(
            t,
        ));
    }
}

proof fn lemma_print_values_step(x: Seq<Json>, i: int)
    requires
        0 <= i < x.len(),
    ensures
        print_values(x.take(i + 1)) == print_values(x.take(i)) + (if i == 0 {
            Seq::<char>::empty()
        } else {
            seq![',']
        }) + print(x[i]),
{
    let t = x.take(i + 1);
    assert(t.subrange(0, t.len() - 1) =~= x.take(i));
    if i == 0 {
        assert(print_values(x.take(0)) =~= Seq::<char>::empty());
        assert(print_values(t) =~= Seq::<char>::empty() + Seq::<char>::empty() + print_values(t));
    }
}

fn push_chars4(out: &mut String, a: char, b: char, c: char, d: char)
    ensures
        final(out)@ == old(out)@ + seq![a, b, c, d],
{
    push_char(out, a);
    push_char(out, b);
    push_char(out, c);
    push_char(out, d);
    assert(out@ =~= old(out)@ + seq![a, b, c, d]);
}

impl JsonValue {
    /// The value written as bejson text: no whitespace, strings and command
    /// strings as they were read, members and elements separated by commas.
    pub fn to_string(&self) -> (r: String)
        ensures
            r@ == print(model(*self)),
        decreases self,
    {
        let mut out = String::new();
        match self {
            JsonValue::CommandString(c) => {
                push_char(&mut out, '$');
                push_char(&mut out, '`');
                push_str(&mut out, c.0.as_str());
                push_char(&mut out, '`');
                assert(out@ =~= seq!['$', '`'] + c.0@ + seq!['`']);
            },
            JsonValue::Object(o) => {
                let ghost x = members_model(o@);
                proof {
                    lemma_members_model_index(o@);
                }
                push_char(&mut out, '{');
                let mut i: usize = 0;
                assert(out@ =~= seq!['{'] + print_members(x.take(0)));
                while i < o.len()
                    invariant
                        i <= o.len(),
                        *self == JsonValue::Object(*o),
                        x == members_model(o@),
                        x.len() == o@.len(),
                        forall|k: int|
                            0 <= k < o@.len() ==> #[trigger] x[k] == (o@[k].0.0@, model(o@[k].1)),
                        out@ == seq!['{'] + print_members(x.take(i as int)),
                    decreases o.len() - i,
                {
                    let ghost before = out@;
                    if i > 0 {
                        push_char(&mut out, ',');
                    }
                    push_char(&mut out, '"');
                    push_str(&mut out, o[i].0.0.as_str());
                    push_char(&mut out, '"');
                    push_char(&mut out, ':');
                    proof {
                        assert(decreases_to!(*self => (*self)->Object_0));
                        assert(decreases_to!(*o => o@));
                        assert(decreases_to!(o@ => o@[i as int]));
                        assert(decreases_to!(o@[i as int] => o@[i as int].1));
                        assert(decreases_to!(*self => o@[i as int].1));
                    }
                    let t = o[i].1.to_string();
                    push_str(&mut out, t.as_str());
                    proof {
                        lemma_print_members_step(x, i as int);
                        let sep = if i == 0 {
                            Seq::<char>::empty()
                        } else {
                            seq![',']
                        };
                        assert(out@ =~= before + sep + (seq!['"'] + x[i as int].0 + seq!['"', ':']
                            + print(x[i as int].1)));
                    }
                    i = i + 1;
                }
                push_char(&mut out, '}');
                assert(x.take(o@.len() as int) =~= x);
            },
            JsonValue::Array(a) => {
                let ghost x = values_model(a@);
                proof {
                    lemma_values_model_index(a@);
                }
                push_char(&mut out, '[');
                let mut i: usize = 0;
                assert(out@ =~= seq!['['] + print_values(x.take(0)));
                while i < a.len()
                    invariant
                        i <= a.len(),
                        *self == JsonValue::Array(*a),
                        x == values_model(a@),
                        x.len() == a@.len(),
                        forall|k: int| 0 <= k < a@.len() ==> #[trigger] x[k] == model(a@[k]),
                        out@ == seq!['['] + print_values(x.take(i as int)),
                    decreases a.len() - i,
                {
                    let ghost before = out@;
                    if i > 0 {
                        push_char(&mut out, ',');
                    }
                    proof {
                        assert(decreases_to!(*self => (*self)->Array_0));
                        assert(decreases_to!(*a => a@));
                        assert(decreases_to!(a@ => a@[i as int]));
                        assert(decreases_to!(*self => a@[i as int]));
                    }
                    let t = a[i].to_string();
                    push_str(&mut out, t.as_str());
                    proof {
                        lemma_print_values_step(x, i as int);
                        let sep = if i == 0 {
                            Seq::<char>::empty()
                        } else {
                            seq![',']
                        };
                        assert(out@ =~= before + sep + print(x[i as int]));
                    }
                    i = i + 1;
                }
                push_char(&mut out, ']');
                assert(x.take(a@.len() as int) =~= x);
            },
            JsonValue::String(t) => {
                push_char(&mut out, '"');
                push_str(&mut out, t.0.as_str());
                push_char(&mut out, '"');
                assert(out@ =~= seq!['"'] + t.0@ + seq!['"']);
            },
            JsonValue::Number(n) => {
                push_str(&mut out, n.as_str());
                assert(out@ =~= n@);
            },
            JsonValue::True => {
                push_chars4(&mut out, 't', 'r', 'u', 'e');
                assert(out@ =~= seq!['t', 'r', 'u', 'e']);
            },
            JsonValue::False => {
                push_chars4(&mut out, 'f', 'a', 'l', 's');
                push_char(&mut out, 'e');
                assert(out@ =~= seq!['f', 'a', 'l', 's', 'e']);
            },
            JsonValue::Null => {
                push_chars4(&mut out, 'n', 'u', 'l', 'l');
                assert(out@ =~= seq!['n', 'u', 'l', 'l']);
            },
        }
        out
    }
}

impl std::str::FromStr for JsonValue {
    type Err = &'static str;

    fn from_str(s: &str) -> (r: Result<Self, Self::Err>)
        ensures
            match json_of(s@) {
                Some(j) => r matches Ok(v) && model(v) == j,
                None => r is Err,
            },
    {
        match json(s) {
            Ok((_, v)) => Ok(v),
            Err(_) => Err("parse error"),
        }
    }
}

} // verus!