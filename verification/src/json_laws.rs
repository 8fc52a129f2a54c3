//! What the printer and the reader of bejson promise together: a value that
//! is printed is read back as the same value.
use crate::json_grammar::{
    lemma_characters_end_bounds, lemma_cmd_characters_end_bounds, lemma_digit_run_end_bounds,
    lemma_string_at_bounds, lemma_ws_end_bounds, array_at, at, character_end, characters_end, cmd_character_end, cmd_characters_end,
    command_string_at, digit_run_end, digits_end, element_at, elements_at, exponent_end,
    fraction_end, integer_end, is_digit, is_ws, json_of, keyword_at, member_at, members_at, number_end,
    object_at, print, print_members, print_values, string_at, value_at, ws_end, Json,
};
use vstd::prelude::*;

verus! {

/// The text of a string reads, alone, as characters to its end.
pub open spec fn valid_chars(t: Seq<char>) -> bool {
    characters_end(t, 0) == t.len()
}

/// The text of a command string reads, alone, as characters to its end.
pub open spec fn valid_cmd_chars(t: Seq<char>) -> bool {
    cmd_characters_end(t, 0) == t.len()
}

/// The text of a number reads, alone, as a number to its end.
pub open spec fn valid_number(n: Seq<char>) -> bool {
    number_end(n, 0) == Some(n.len() as int)
}

/// A value whose texts are what the grammar reads: the values that the
/// reader gives, and those that can be printed and read back.
pub open spec fn valid(j: Json) -> bool
    decreases j,
{
    match j {
        Json::CommandString(t) => valid_cmd_chars(t),
        Json::Object(ms) => valid_members(ms),
        Json::Array(vs) => valid_values(vs),
        Json::Str(t) => valid_chars(t),
        Json::Number(n) => valid_number(n),
        _ => true,
    }
}

/// Each member has a valid key and a valid value.
pub open spec fn valid_members(ms: Seq<(Seq<char>, Json)>) -> bool
    decreases ms,
{
    if ms.len() == 0 {
        true
    } else {
        valid_chars(ms[0].0) && valid(ms[0].1) && valid_members(ms.subrange(1, ms.len() as int))
    }
}

/// Each element is valid.
pub open spec fn valid_values(vs: Seq<Json>) -> bool
    decreases vs,
{
    if vs.len() == 0 {
        true
    } else {
        valid(vs[0]) && valid_values(vs.subrange(1, vs.len() as int))
    }
}

/// `t` stands in `s` from `p` on.
pub open spec fn placed(s: Seq<char>, p: int, t: Seq<char>) -> bool {
    0 <= p && p + t.len() <= s.len() && s.subrange(p, p + t.len()) == t
}

/// What may follow a value in printed text: nothing, a comma or a closing
/// bracket.
pub open spec fn stops(s: Seq<char>, q: int) -> bool {
    q == s.len() || (0 <= q < s.len() && (s[q] == ',' || s[q] == ']' || s[q] == '}'))
}

/// How a member is printed.
pub open spec fn member_text(m: (Seq<char>, Json)) -> Seq<char> {
    seq!['"'] + m.0 + seq!['"', ':'] + print(m.1)
}

proof fn lemma_placed_index(s: Seq<char>, p: int, t: Seq<char>)
    requires
        placed(s, p, t),
    ensures
        forall|k: int| 0 <= k < t.len() ==> s[p + k] == #[trigger] t[k],
{
    assert forall|k: int| 0 <= k < t.len() implies s[p + k] == #[trigger] t[k] by {
        assert(s.subrange(p, p + t.len())[k] == s[p + k]);
    }
}

proof fn lemma_placed_at(s: Seq<char>, p: int, t: Seq<char>, k: int)
    requires
        placed(s, p, t),
        0 <= k < t.len(),
    ensures
        s[p + k] == t[k],
{
    assert(s.subrange(p, p + t.len())[k] == s[p + k]);
}

proof fn lemma_placed_split(s: Seq<char>, p: int, a: Seq<char>, b: Seq<char>)
    requires
        placed(s, p, a + b),
    ensures
        placed(s, p, a),
        placed(s, p + a.len(), b),
{
    lemma_placed_index(s, p, a + b);
    assert(s.subrange(p, p + a.len()) =~= a) by {
        assert forall|k: int| 0 <= k < a.len() implies s.subrange(p, p + a.len())[k] == a[k] by {
            assert((a + b)[k] == a[k]);
        }
    }
    assert(s.subrange(p + a.len(), p + a.len() + b.len()) =~= b) by {
        assert forall|k: int| 0 <= k < b.len() implies s.subrange(
            p + a.len(),
            p + a.len() + b.len(),
        )[k] == b[k] by {
            assert((a + b)[a.len() + k] == b[k]);
        }
    }
}

// ---------------------------------------------------------------------------
// Texts

proof fn lemma_chars_in(s: Seq<char>, p: int, t: Seq<char>, i: int)
    requires
        placed(s, p, t),
        p + t.len() < s.len(),
        s[p + t.len()] == '"',
        0 <= i <= t.len(),
        characters_end(t, i) == t.len(),
    ensures
        characters_end(s, p + i) == p + t.len(),
    decreases t.len() - i,
{
    lemma_placed_index(s, p, t);
    if i < t.len() {
        let q = character_end(t, i).unwrap();
        assert(i < q <= t.len());
        assert(character_end(s, p + i) == Some(p + q)) by {
            assert(s[p + i] == t[i]);
            if i + 1 < t.len() {
                assert(s[p + i + 1] == t[i + 1]);
            }
            if i + 5 < t.len() {
                assert(s[p + i + 2] == t[i + 2]);
                assert(s[p + i + 3] == t[i + 3]);
                assert(s[p + i + 4] == t[i + 4]);
                assert(s[p + i + 5] == t[i + 5]);
            }
        }
        lemma_chars_in(s, p, t, q);
    }
}

proof fn lemma_cmd_chars_in(s: Seq<char>, p: int, t: Seq<char>, i: int)
    requires
        placed(s, p, t),
        p + t.len() < s.len(),
        s[p + t.len()] == '`',
        0 <= i <= t.len(),
        cmd_characters_end(t, i) == t.len(),
    ensures
        cmd_characters_end(s, p + i) == p + t.len(),
    decreases t.len() - i,
{
    lemma_placed_index(s, p, t);
    if i < t.len() {
        let q = cmd_character_end(t, i).unwrap();
        assert(i < q <= t.len());
        assert(cmd_character_end(s, p + i) == Some(p + q)) by {
            assert(s[p + i] == t[i]);
            if i + 1 < t.len() {
                assert(s[p + i + 1] == t[i + 1]);
            }
            if i + 5 < t.len() {
                assert(s[p + i + 2] == t[i + 2]);
                assert(s[p + i + 3] == t[i + 3]);
                assert(s[p + i + 4] == t[i + 4]);
                assert(s[p + i + 5] == t[i + 5]);
            }
        }
        lemma_cmd_chars_in(s, p, t, q);
    }
}

/// A string's text, placed between quotes, is read as that string.
proof fn lemma_string_in(s: Seq<char>, p: int, t: Seq<char>)
    requires
        placed(s, p, seq!['"'] + t + seq!['"']),
        valid_chars(t),
    ensures
        string_at(s, p) == Some((p + t.len() + 2, t)),
{
    lemma_placed_split(s, p, seq!['"'] + t, seq!['"']);
    lemma_placed_split(s, p, seq!['"'], t);
    lemma_placed_at(s, p, seq!['"'], 0);
    lemma_placed_at(s, p + 1 + t.len(), seq!['"'], 0);
    lemma_chars_in(s, p + 1, t, 0);
    assert(s.subrange(p + 1, p + 1 + t.len()) == t);
}

proof fn lemma_digit_run_in(s: Seq<char>, p: int, n: Seq<char>, i: int)
    requires
        placed(s, p, n),
        stops(s, p + n.len()),
        0 <= i <= n.len(),
    ensures
        digit_run_end(s, p + i) == p + digit_run_end(n, i),
    decreases n.len() - i,
{
    lemma_placed_index(s, p, n);
    if i < n.len() {
        lemma_digit_run_in(s, p, n, i + 1);
    }
}

/// A number's text, followed by what may follow a value, is read as that
/// number.
proof fn lemma_number_in(s: Seq<char>, p: int, n: Seq<char>)
    requires
        placed(s, p, n),
        stops(s, p + n.len()),
        valid_number(n),
    ensures
        number_end(s, p) == Some(p + n.len()),
{
    lemma_placed_index(s, p, n);
    if n.len() >= 1 {
        lemma_digit_run_in(s, p, n, 1);
    }
    if n.len() >= 2 {
        lemma_digit_run_in(s, p, n, 2);
    }
    let ie = integer_end(n, 0).unwrap();
    assert(integer_end(s, p) == Some(p + ie));
    assert(0 <= ie <= n.len());
    if ie + 1 <= n.len() {
        lemma_digit_run_in(s, p, n, ie + 1);
    }
    let fe = fraction_end(n, ie);
    assert(fraction_end(s, p + ie) == p + fe);
    assert(fe <= n.len());
    if fe + 1 <= n.len() {
        lemma_digit_run_in(s, p, n, fe + 1);
    }
    if fe + 2 <= n.len() {
        lemma_digit_run_in(s, p, n, fe + 2);
    }
    assert(exponent_end(s, p + fe) == p + exponent_end(n, fe));
}

// ---------------------------------------------------------------------------
// Values

proof fn lemma_print_members_cons(m: (Seq<char>, Json), rest: Seq<(Seq<char>, Json)>)
    requires
        rest.len() >= 1,
    ensures
        print_members(seq![m] + rest) == member_text(m) + seq![','] + print_members(rest),
    decreases rest.len(),
{
    let l = seq![m] + rest;
    let init = rest.subrange(0, rest.len() - 1);
    let last = rest[rest.len() - 1];
    assert(l.subrange(0, l.len() - 1) =~= seq![m] + init);
    assert(l[l.len() - 1] == last);
    assert(print_members(l) == print_members(seq![m] + init) + seq![','] + member_text(last));
    if rest.len() == 1 {
        assert(seq![m] + init =~= seq![m]);
        assert(print_members(seq![m]) == member_text(m));
        assert(print_members(rest) == member_text(last));
    } else {
        lemma_print_members_cons(m, init);
        assert(print_members(rest) == print_members(init) + seq![','] + member_text(last));
    }
    assert(print_members(l) =~= member_text(m) + seq![','] + print_members(rest));
}

proof fn lemma_print_values_cons(v: Json, rest: Seq<Json>)
    requires
        rest.len() >= 1,
    ensures
        print_values(seq![v] + rest) == print(v) + seq![','] + print_values(rest),
    decreases rest.len(),
{
    let l = seq![v] + rest;
    let init = rest.subrange(0, rest.len() - 1);
    let last = rest[rest.len() - 1];
    assert(l.subrange(0, l.len() - 1) =~= seq![v] + init);
    assert(l[l.len() - 1] == last);
    assert(print_values(l) == print_values(seq![v] + init) + seq![','] + print(last));
    if rest.len() == 1 {
        assert(seq![v] + init =~= seq![v]);
        assert(print_values(seq![v]) == print(v));
        assert(print_values(rest) == print(last));
    } else {
        lemma_print_values_cons(v, init);
        assert(print_values(rest) == print_values(init) + seq![','] + print(last));
    }
    assert(print_values(l) =~= print(v) + seq![','] + print_values(rest));
}

/// The first character of a printed valid value, which is no whitespace.
proof fn lemma_print_first(j: Json)
    requires
        valid(j),
    ensures
        print(j).len() >= 1,
        !is_ws(print(j)[0]),
        print(j)[0] != ',' && print(j)[0] != ']' && print(j)[0] != '}',
        print(j)[0] == '$' <==> j is CommandString,
        print(j)[0] == '{' <==> j is Object,
        print(j)[0] == '[' <==> j is Array,
        print(j)[0] == '"' <==> j is Str,
        (j is True || j is False || j is Null) ==> (print(j)[0] == 't' || print(j)[0] == 'f'
            || print(j)[0] == 'n'),
        j is Number ==> (print(j)[0] == '-' || ('0' <= print(j)[0] && print(j)[0] <= '9')),
{
    if let Json::Number(n) = j {
        assert(integer_end(n, 0) is Some);
    }
}

/// A printed valid value, followed by what may follow a value, is read as
/// that value.
proof fn lemma_value_in(s: Seq<char>, p: int, j: Json)
    requires
        valid(j),
        placed(s, p, print(j)),
        stops(s, p + print(j).len()),
    ensures
        value_at(s, p) == Some((p + print(j).len(), j)),
    decreases j, 1int,
{
    lemma_print_first(j);
    lemma_placed_index(s, p, print(j));
    assert(s[p] == print(j)[0]);
    match j {
        Json::CommandString(t) => {
            lemma_placed_split(s, p, seq!['$', '`'] + t, seq!['`']);
            lemma_placed_split(s, p, seq!['$', '`'], t);
            lemma_placed_at(s, p, seq!['$', '`'], 0);
            lemma_placed_at(s, p, seq!['$', '`'], 1);
            lemma_placed_at(s, p + 2 + t.len(), seq!['`'], 0);
            lemma_cmd_chars_in(s, p + 2, t, 0);
            assert(s.subrange(p + 2, p + 2 + t.len()) == t);
        },
        Json::Object(ms) => {
            lemma_object_in(s, p, ms);
        },
        Json::Array(vs) => {
            lemma_array_in(s, p, vs);
        },
        Json::Str(t) => {
            lemma_string_in(s, p, t);
        },
        Json::Number(n) => {
            lemma_number_in(s, p, n);
            assert(s.subrange(p, p + n.len()) == n);
        },
        Json::True => {},
        Json::False => {},
        Json::Null => {},
    }
}

proof fn lemma_element_in(s: Seq<char>, p: int, j: Json)
    requires
        valid(j),
        placed(s, p, print(j)),
        stops(s, p + print(j).len()),
    ensures
        element_at(s, p) == Some((p + print(j).len(), j)),
    decreases j, 2int,
{
    lemma_print_first(j);
    lemma_placed_index(s, p, print(j));
    assert(ws_end(s, p) == p);
    lemma_value_in(s, p, j);
    assert(ws_end(s, p + print(j).len()) == p + print(j).len());
}

proof fn lemma_object_in(s: Seq<char>, p: int, ms: Seq<(Seq<char>, Json)>)
    requires
        valid_members(ms),
        placed(s, p, print(Json::Object(ms))),
        stops(s, p + print(Json::Object(ms)).len()),
    ensures
        object_at(s, p) == Some((p + print(Json::Object(ms)).len(), Json::Object(ms))),
    decreases ms, 5int,
{
    let body = print_members(ms);
    lemma_placed_split(s, p, seq!['{'] + body, seq!['}']);
    lemma_placed_split(s, p, seq!['{'], body);
    lemma_placed_at(s, p, seq!['{'], 0);
    lemma_placed_at(s, p + 1 + body.len(), seq!['}'], 0);
    if ms.len() == 0 {
        assert(body.len() == 0);
        assert(ws_end(s, p + 1) == p + 1);
        assert(ms =~= seq![]);
    } else {
        lemma_members_first(ms);
        lemma_placed_at(s, p + 1, body, 0);
        assert(s[p + 1] == '"');
        assert(ws_end(s, p + 1) == p + 1);
        lemma_members_in(s, p + 1, ms);
    }
}

proof fn lemma_array_in(s: Seq<char>, p: int, vs: Seq<Json>)
    requires
        valid_values(vs),
        placed(s, p, print(Json::Array(vs))),
        stops(s, p + print(Json::Array(vs)).len()),
    ensures
        array_at(s, p) == Some((p + print(Json::Array(vs)).len(), Json::Array(vs))),
    decreases vs, 5int,
{
    let body = print_values(vs);
    lemma_placed_split(s, p, seq!['['] + body, seq![']']);
    lemma_placed_split(s, p, seq!['['], body);
    lemma_placed_at(s, p, seq!['['], 0);
    lemma_placed_at(s, p + 1 + body.len(), seq![']'], 0);
    if vs.len() == 0 {
        assert(body.len() == 0);
        assert(ws_end(s, p + 1) == p + 1);
        assert(vs =~= seq![]);
    } else {
        lemma_values_first(vs);
        lemma_placed_at(s, p + 1, body, 0);
        assert(ws_end(s, p + 1) == p + 1);
        assert(s[p + 1] != ']');
        lemma_elements_in(s, p + 1, vs);
    }
}

proof fn lemma_members_first(ms: Seq<(Seq<char>, Json)>)
    requires
        ms.len() >= 1,
    ensures
        print_members(ms).len() >= 1,
        print_members(ms)[0] == '"',
    decreases ms.len(),
{
    if ms.len() > 1 {
        lemma_members_first(ms.subrange(0, ms.len() - 1));
    }
}

proof fn lemma_values_first(vs: Seq<Json>)
    requires
        vs.len() >= 1,
        valid_values(vs),
    ensures
        print_values(vs).len() >= 1,
        print_values(vs)[0] != ']',
        !is_ws(print_values(vs)[0]),
    decreases vs.len(),
{
    let rest = vs.subrange(1, vs.len() as int);
    lemma_print_first(vs[0]);
    if vs.len() > 1 {
        assert(vs =~= seq![vs[0]] + rest);
        lemma_print_values_cons(vs[0], rest);
    } else {
        assert(vs.subrange(0, 0) =~= Seq::<Json>::empty());
    }
}

proof fn lemma_member_in(s: Seq<char>, p: int, m: (Seq<char>, Json))
    requires
        valid_chars(m.0),
        valid(m.1),
        placed(s, p, member_text(m)),
        stops(s, p + member_text(m).len()),
    ensures
        member_at(s, p) == Some((p + member_text(m).len(), m)),
    decreases m.1, 3int,
{
    let key = seq!['"'] + m.0 + seq!['"'];
    assert(member_text(m) =~= key + seq![':'] + print(m.1));
    lemma_placed_split(s, p, key + seq![':'], print(m.1));
    lemma_placed_split(s, p, key, seq![':']);
    lemma_placed_at(s, p, key, 0);
    lemma_placed_at(s, p + key.len(), seq![':'], 0);
    assert(ws_end(s, p) == p);
    lemma_string_in(s, p, m.0);
    assert(ws_end(s, p + key.len()) == p + key.len());
    lemma_element_in(s, p + key.len() + 1, m.1);
}

proof fn lemma_members_in(s: Seq<char>, p: int, ms: Seq<(Seq<char>, Json)>)
    requires
        ms.len() >= 1,
        valid_members(ms),
        placed(s, p, print_members(ms)),
        p + print_members(ms).len() < s.len(),
        s[p + print_members(ms).len()] == '}',
    ensures
        members_at(s, p) == Some((p + print_members(ms).len(), ms)),
    decreases ms, 4int,
{
    let m = ms[0];
    let rest = ms.subrange(1, ms.len() as int);
    assert(decreases_to!(ms => m));
    assert(decreases_to!(m => m.1));
    if ms.len() == 1 {
        assert(print_members(ms) == member_text(m));
        lemma_member_in(s, p, m);
        assert(ms =~= seq![m]);
    } else {
        assert(ms =~= seq![m] + rest);
        lemma_print_members_cons(m, rest);
        lemma_placed_split(s, p, member_text(m) + seq![','], print_members(rest));
        lemma_placed_split(s, p, member_text(m), seq![',']);
        lemma_placed_at(s, p + member_text(m).len(), seq![','], 0);
        lemma_member_in(s, p, m);
        lemma_members_in(s, p + member_text(m).len() + 1, rest);
    }
}

proof fn lemma_elements_in(s: Seq<char>, p: int, vs: Seq<Json>)
    requires
        vs.len() >= 1,
        valid_values(vs),
        placed(s, p, print_values(vs)),
        p + print_values(vs).len() < s.len(),
        s[p + print_values(vs).len()] == ']',
    ensures
        elements_at(s, p) == Some((p + print_values(vs).len(), vs)),
    decreases vs, 4int,
{
    let v = vs[0];
    let rest = vs.subrange(1, vs.len() as int);
    if vs.len() == 1 {
        assert(print_values(vs) == print(v));
        lemma_element_in(s, p, v);
        assert(vs =~= seq![v]);
    } else {
        assert(vs =~= seq![v] + rest);
        lemma_print_values_cons(v, rest);
        lemma_placed_split(s, p, print(v) + seq![','], print_values(rest));
        lemma_placed_split(s, p, print(v), seq![',']);
        lemma_placed_at(s, p + print(v).len(), seq![','], 0);
        lemma_element_in(s, p, v);
        lemma_elements_in(s, p + print(v).len() + 1, rest);
    }
}

/// A value that is printed is read back as that value.
pub proof fn lemma_print_then_read(j: Json)
    requires
        valid(j),
    ensures
        json_of(print(j)) == Some(j),
{
    let s = print(j);
    assert(s.subrange(0, s.len() as int) =~= s);
    lemma_element_in(s, 0, j);
}

// ---------------------------------------------------------------------------
// What the reader gives

proof fn lemma_chars_back(s: Seq<char>, p: int, e: int, i: int)
    requires
        0 <= p <= i <= e <= s.len(),
        characters_end(s, i) == e,
    ensures
        characters_end(s.subrange(p, e), i - p) == e - p,
    decreases e - i,
{
    let t = s.subrange(p, e);
    if i < e {
        let q = character_end(s, i).unwrap();
        lemma_characters_end_bounds(s, q);
        assert(i < q <= e);
        assert(character_end(t, i - p) == Some(q - p)) by {
            assert(t[i - p] == s[i]);
            if i + 1 < e {
                assert(t[i - p + 1] == s[i + 1]);
            }
            if i + 5 < e {
                assert(t[i - p + 2] == s[i + 2]);
                assert(t[i - p + 3] == s[i + 3]);
                assert(t[i - p + 4] == s[i + 4]);
                assert(t[i - p + 5] == s[i + 5]);
            }
        }
        lemma_chars_back(s, p, e, q);
    }
}

proof fn lemma_cmd_chars_back(s: Seq<char>, p: int, e: int, i: int)
    requires
        0 <= p <= i <= e <= s.len(),
        cmd_characters_end(s, i) == e,
    ensures
        cmd_characters_end(s.subrange(p, e), i - p) == e - p,
    decreases e - i,
{
    let t = s.subrange(p, e);
    if i < e {
        let q = cmd_character_end(s, i).unwrap();
        lemma_cmd_characters_end_bounds(s, q);
        assert(i < q <= e);
        assert(cmd_character_end(t, i - p) == Some(q - p)) by {
            assert(t[i - p] == s[i]);
            if i + 1 < e {
                assert(t[i - p + 1] == s[i + 1]);
            }
            if i + 5 < e {
                assert(t[i - p + 2] == s[i + 2]);
                assert(t[i - p + 3] == s[i + 3]);
                assert(t[i - p + 4] == s[i + 4]);
                assert(t[i - p + 5] == s[i + 5]);
            }
        }
        lemma_cmd_chars_back(s, p, e, q);
    }
}

proof fn lemma_digit_run_back(s: Seq<char>, p: int, q: int, i: int)
    requires
        0 <= p <= i <= q <= s.len(),
        digit_run_end(s, i) <= q,
    ensures
        digit_run_end(s.subrange(p, q), i - p) == digit_run_end(s, i) - p,
    decreases q - i,
{
    let n = s.subrange(p, q);
    if i < q {
        assert(n[i - p] == s[i]);
        if is_digit(s[i]) {
            lemma_digit_run_back(s, p, q, i + 1);
        }
    } else {
        lemma_digit_run_end_bounds(s, i);
    }
}

proof fn lemma_number_back(s: Seq<char>, p: int, q: int)
    requires
        0 <= p <= s.len(),
        number_end(s, p) == Some(q),
    ensures
        p < q <= s.len(),
        valid_number(s.subrange(p, q)),
{
    let n = s.subrange(p, q);
    if p + 1 <= s.len() {
        lemma_digit_run_end_bounds(s, p + 1);
    }
    if p + 2 <= s.len() {
        lemma_digit_run_end_bounds(s, p + 2);
    }
    let ie = integer_end(s, p).unwrap();
    let fe = fraction_end(s, ie);
    assert(p < ie <= s.len());
    if ie + 1 <= s.len() {
        lemma_digit_run_end_bounds(s, ie + 1);
    }
    assert(ie <= fe <= s.len());
    if fe + 1 <= s.len() {
        lemma_digit_run_end_bounds(s, fe + 1);
    }
    if fe + 2 <= s.len() {
        lemma_digit_run_end_bounds(s, fe + 2);
    }
    assert(fe <= q <= s.len());
    assert forall|k: int| 0 <= k < n.len() implies n[k] == #[trigger] s[p + k] by {}
    if p + 1 <= s.len() {
        lemma_digit_run_end_bounds(s, p + 1);
    }
    if p + 2 <= s.len() {
        lemma_digit_run_end_bounds(s, p + 2);
    }
    if p + 1 <= q && digit_run_end(s, p + 1) <= q {
        lemma_digit_run_back(s, p, q, p + 1);
    }
    if p + 2 <= q && digit_run_end(s, p + 2) <= q {
        lemma_digit_run_back(s, p, q, p + 2);
    }
    assert(integer_end(n, 0) == Some(ie - p));
    if ie + 1 <= q && digit_run_end(s, ie + 1) <= q {
        lemma_digit_run_back(s, p, q, ie + 1);
    }
    assert(fraction_end(n, ie - p) == fe - p);
    if fe + 1 <= q && digit_run_end(s, fe + 1) <= q {
        lemma_digit_run_back(s, p, q, fe + 1);
    }
    if fe + 2 <= q && digit_run_end(s, fe + 2) <= q {
        lemma_digit_run_back(s, p, q, fe + 2);
    }
    assert(exponent_end(n, fe - p) == q - p);
}

proof fn lemma_string_back(s: Seq<char>, p: int)
    requires
        0 <= p <= s.len(),
    ensures
        string_at(s, p) matches Some((q, t)) ==> valid_chars(t) && p < q <= s.len(),
{
    lemma_string_at_bounds(s, p);
    if let Some((q, t)) = string_at(s, p) {
        let e = characters_end(s, p + 1);
        lemma_characters_end_bounds(s, p + 1);
        lemma_chars_back(s, p + 1, e, p + 1);
    }
}

proof fn lemma_value_valid(s: Seq<char>, p: int)
    requires
        0 <= p <= s.len(),
    ensures
        value_at(s, p) matches Some((q, j)) ==> valid(j) && p < q <= s.len(),
    decreases s.len() - p, 1int,
{
    if let Some((q, j)) = command_string_at(s, p) {
        let e = cmd_characters_end(s, p + 2);
        lemma_cmd_characters_end_bounds(s, p + 2);
        lemma_cmd_chars_back(s, p + 2, e, p + 2);
    } else if let Some((q, j)) = object_at(s, p) {
        lemma_object_valid(s, p);
    } else if let Some((q, j)) = array_at(s, p) {
        lemma_array_valid(s, p);
    } else if let Some((q, t)) = string_at(s, p) {
        lemma_string_back(s, p);
    } else if let Some(q) = number_end(s, p) {
        lemma_number_back(s, p, q);
    }
}

proof fn lemma_object_valid(s: Seq<char>, p: int)
    requires
        0 <= p <= s.len(),
    ensures
        object_at(s, p) matches Some((q, j)) ==> valid(j) && p < q <= s.len(),
    decreases s.len() - p, 0int,
{
    if 0 <= p < s.len() && s[p] == '{' {
        lemma_ws_end_bounds(s, p + 1);
        if !at(s, ws_end(s, p + 1), '}') {
            lemma_members_valid(s, p + 1);
        }
    }
}

proof fn lemma_array_valid(s: Seq<char>, p: int)
    requires
        0 <= p <= s.len(),
    ensures
        array_at(s, p) matches Some((q, j)) ==> valid(j) && p < q <= s.len(),
    decreases s.len() - p, 0int,
{
    if 0 <= p < s.len() && s[p] == '[' {
        lemma_ws_end_bounds(s, p + 1);
        if !at(s, ws_end(s, p + 1), ']') {
            lemma_elements_valid(s, p + 1);
        }
    }
}

proof fn lemma_members_valid(s: Seq<char>, p: int)
    requires
        0 <= p <= s.len(),
    ensures
        members_at(s, p) matches Some((q, ms)) ==> valid_members(ms) && ms.len() >= 1 && p <= q
            <= s.len(),
    decreases s.len() - p, 4int,
{
    lemma_member_valid(s, p);
    if let Some((q, m)) = member_at(s, p) {
        if p <= q && at(s, q, ',') {
            lemma_members_valid(s, q + 1);
            if let Some((r, ms)) = members_at(s, q + 1) {
                let l = seq![m] + ms;
                assert(l.subrange(1, l.len() as int) =~= ms);
                assert(l[0] == m);
                assert(valid_members(l));
            } else {
                assert(seq![m].subrange(1, 1) =~= Seq::<(Seq<char>, Json)>::empty());
                assert(seq![m][0] == m);
                assert(valid_members(Seq::<(Seq<char>, Json)>::empty()));
                assert(valid_members(seq![m]));
            }
        } else {
            assert(seq![m].subrange(1, 1) =~= Seq::<(Seq<char>, Json)>::empty());
            assert(seq![m][0] == m);
            assert(valid_members(Seq::<(Seq<char>, Json)>::empty()));
            assert(valid_members(seq![m]));
        }
    }
}

proof fn lemma_member_valid(s: Seq<char>, p: int)
    requires
        0 <= p <= s.len(),
    ensures
        member_at(s, p) matches Some((q, m)) ==> valid_chars(m.0) && valid(m.1) && p < q
            <= s.len(),
    decreases s.len() - p, 3int,
{
    lemma_ws_end_bounds(s, p);
    let k = ws_end(s, p);
    lemma_string_back(s, k);
    if let Some((q, key)) = string_at(s, k) {
        lemma_ws_end_bounds(s, q);
        if at(s, ws_end(s, q), ':') {
            lemma_element_valid(s, ws_end(s, q) + 1);
        }
    }
}

proof fn lemma_elements_valid(s: Seq<char>, p: int)
    requires
        0 <= p <= s.len(),
    ensures
        elements_at(s, p) matches Some((q, vs)) ==> valid_values(vs) && vs.len() >= 1 && p <= q
            <= s.len(),
    decreases s.len() - p, 4int,
{
    lemma_element_valid(s, p);
    if let Some((q, v)) = element_at(s, p) {
        if p <= q && at(s, q, ',') {
            lemma_elements_valid(s, q + 1);
            if let Some((r, vs)) = elements_at(s, q + 1) {
                let l = seq![v] + vs;
                assert(l.subrange(1, l.len() as int) =~= vs);
                assert(l[0] == v);
                assert(valid_values(l));
            } else {
                assert(seq![v].subrange(1, 1) =~= Seq::<Json>::empty());
                assert(seq![v][0] == v);
                assert(valid_values(Seq::<Json>::empty()));
                assert(valid_values(seq![v]));
            }
        } else {
            assert(seq![v].subrange(1, 1) =~= Seq::<Json>::empty());
            assert(seq![v][0] == v);
            assert(valid_values(Seq::<Json>::empty()));
            assert(valid_values(seq![v]));
        }
    }
}

proof fn lemma_element_valid(s: Seq<char>, p: int)
    requires
        0 <= p <= s.len(),
    ensures
        element_at(s, p) matches Some((q, j)) ==> valid(j) && p < q <= s.len(),
    decreases s.len() - p, 2int,
{
    lemma_ws_end_bounds(s, p);
    lemma_value_valid(s, ws_end(s, p));
    if let Some((q, j)) = value_at(s, ws_end(s, p)) {
        lemma_ws_end_bounds(s, q);
    }
}

/// Every value that the reader gives is valid.
pub proof fn lemma_read_valid(s: Seq<char>)
    ensures
        json_of(s) matches Some(j) ==> valid(j),
{
    lemma_element_valid(s, 0);
}

/// A text that reads as a value, printed again, reads as the same value.
pub proof fn lemma_read_print_read(s: Seq<char>)
    ensures
        json_of(s) matches Some(j) ==> json_of(print(j)) == Some(j),
{
    lemma_read_valid(s);
    if let Some(j) = json_of(s) {
        lemma_print_then_read(j);
    }
}

} // verus!
