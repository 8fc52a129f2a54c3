use bbn::json::{
    json_array, json_character, json_characters, json_command_string,
    json_command_string_character, json_command_string_characters, json_command_string_escape,
    json_digit, json_digits, json_element, json_elements, json_escape, json_exponent,
    json_fraction, json_hex, json_integer, json_member, json_members, json_number, json_object,
    json_onenine, json_sign, json_string, json_value, json_ws, JsonCommandString, JsonString,
    JsonValue, Member,
};
use std::str::FromStr;

fn m(k: &str, v: JsonValue) -> Member {
    (JsonString(k.to_string()), v)
}

fn vcs(s: &str) -> JsonValue {
    JsonValue::CommandString(JsonCommandString(s.to_string()))
}

fn vo(o: Vec<Member>) -> JsonValue {
    JsonValue::Object(o)
}

fn va(a: Vec<JsonValue>) -> JsonValue {
    JsonValue::Array(a)
}

fn vs(s: &str) -> JsonValue {
    JsonValue::String(JsonString(s.to_string()))
}

fn vn(n: &str) -> JsonValue {
    JsonValue::Number(n.to_string())
}

fn vt() -> JsonValue {
    JsonValue::True
}

fn vf() -> JsonValue {
    JsonValue::False
}

fn vnull() -> JsonValue {
    JsonValue::Null
}

#[test]
fn json_test() {
    // json
    //   element
    let f = json_value;
    assert_eq!(
        f(r#"{"abc": 123, "def": [123.456, true, false, null]}"#),
        Ok((
            "",
            vo(vec![
                m("abc", vn("123")),
                m("def", va(vec![vn("123.456"), vt(), vf(), vnull()]))
            ])
        ))
    );
}

#[test]
fn json_value_test() {
    // value
    //   command_string
    //   object
    //   array
    //   string
    //   number
    //   "true"
    //   "false"
    //   "null"
    let f = json_value;
    assert_eq!(f(r#"$``"#), Ok(("", vcs(""))));
    assert_eq!(f(r#"{}"#), Ok(("", vo(vec![]))));
    assert_eq!(f(r#"[]"#), Ok(("", va(vec![]))));
    assert_eq!(f(r#""abc""#), Ok(("", vs("abc"))));
    assert_eq!(f(r#"123"#), Ok(("", vn("123"))));
    assert_eq!(f(r#"123.456"#), Ok(("", vn("123.456"))));
    assert_eq!(f(r#"true"#), Ok(("", vt())));
    assert_eq!(f(r#"false"#), Ok(("", vf())));
    assert_eq!(f(r#"null"#), Ok(("", vnull())));
}

#[test]
fn json_command_string_test() {
    // command_string
    //   "$`" command_string_characters '`'
    let f = json_command_string;
    assert_eq!(
        f(r#"$`echo "\`hello\`"`"#),
        Ok(("", vcs(r#"echo "\`hello\`""#)))
    );
}

#[test]
fn json_command_string_characters_test() {
    // command_string_characters
    //   ""
    //   command_string_character command_string_characters
    let f = json_command_string_characters;
    assert_eq!(f(""), Ok(("", "".to_string())));
    assert_eq!(f("abc"), Ok(("", "abc".to_string())));
}

#[test]
fn json_command_string_character_test() {
    // command_string_character
    //   '0020' . '10FFFF' - '`' - '\'
    //   '\' command_string_escape
    let f = json_command_string_character;
    let s = |s: &str| s.to_string();
    assert_eq!(f("\u{0020}"), Ok(("", s("\u{0020}"))));
    assert_eq!(f("\u{10FFFF}"), Ok(("", s("\u{10FFFF}"))));
    assert_eq!(f(r#"`"#).is_err(), true);
    assert_eq!(f(r#"\`"#), Ok(("", s(r#"\`"#))));
    assert_eq!(f(r#"""#), Ok(("", s(r#"""#))));
    assert_eq!(f(r#"\""#), Ok(("", s(r#"\""#))));
    assert_eq!(f(r#"\"#).is_err(), true);
    assert_eq!(f(r#"\\"#), Ok(("", s(r#"\\"#))));
    assert_eq!(f(r#"\/"#), Ok(("", s(r#"\/"#))));
    assert_eq!(f(r#"\b"#), Ok(("", s(r#"\b"#))));
    assert_eq!(f(r#"\f"#), Ok(("", s(r#"\f"#))));
    assert_eq!(f(r#"\n"#), Ok(("", s(r#"\n"#))));
    assert_eq!(f(r#"\r"#), Ok(("", s(r#"\r"#))));
    assert_eq!(f(r#"\t"#), Ok(("", s(r#"\t"#))));
    assert_eq!(f(r#"\u0020"#), Ok(("", s(r#"\u0020"#))));
    assert_eq!(f(r#"\u002"#).is_err(), true);
    assert_eq!(f(r#"\u005A"#), Ok(("", s(r#"\u005A"#))));
    assert_eq!(f(r#"\u10FFFF"#), Ok(("FF", s(r#"\u10FF"#))));
}

#[test]
fn json_command_string_escape_test() {
    // command_string_escape
    //   '`'
    //   '"'
    //   '\'
    //   '/'
    //   'b'
    //   'f'
    //   'n'
    //   'r'
    //   't'
    //   'u' hex hex hex hex
    let f = json_command_string_escape;
    let s = |s: &str| s.to_string();
    assert_eq!(f(r#"`"#), Ok(("", s(r#"`"#))));
    assert_eq!(f(r#"""#), Ok(("", s(r#"""#))));
    assert_eq!(f(r#"\"#), Ok(("", s(r#"\"#))));
    assert_eq!(f(r#"/"#), Ok(("", s(r#"/"#))));
    assert_eq!(f(r#"b"#), Ok(("", s(r#"b"#))));
    assert_eq!(f(r#"f"#), Ok(("", s(r#"f"#))));
    assert_eq!(f(r#"n"#), Ok(("", s(r#"n"#))));
    assert_eq!(f(r#"r"#), Ok(("", s(r#"r"#))));
    assert_eq!(f(r#"t"#), Ok(("", s(r#"t"#))));
    assert_eq!(f(r#"u0000"#), Ok(("", s(r#"u0000"#))));
    assert_eq!(f(r#"uffff"#), Ok(("", s(r#"uffff"#))));
}

#[test]
fn json_object_test() {
    // object
    //   '{' ws '}'
    //   '{' members '}'
    let f = json_object;
    assert_eq!(f(r#"{ }"#), Ok(("", vo(vec![]))));
    assert_eq!(
        f(r#"{ "abc" : 123 , "def" : 456 }"#),
        Ok(("", vo(vec![m("abc", vn("123")), m("def", vn("456"))])))
    );
}

#[test]
fn json_members_test() {
    // members
    //   member
    //   member ',' members
    let f = json_members;
    assert_eq!(f(r#" "abc" : null"#), Ok(("", vec![m("abc", vnull())])));
    assert_eq!(
        f(r#" "abc" : null, "def" : null"#),
        Ok(("", vec![m("abc", vnull()), m("def", vnull())]))
    );
}

#[test]
fn json_member_test() {
    // member
    //   ws string ws ':' element
    let f = json_member;
    assert_eq!(f(r#" "abc" : null"#), Ok(("", m("abc", vnull()))));
}

#[test]
fn json_array_test() {
    // array
    //   '[' ws ']'
    //   '[' elements ']'
    let f = json_array;
    assert_eq!(f(r#"[ ]"#), Ok(("", va(vec![]))));
    assert_eq!(f(r#"[ "a" , 1 ]"#), Ok(("", va(vec![vs("a"), vn("1")]))));
}

#[test]
fn json_elements_test() {
    // elements
    //   element
    //   element ',' elements
    let f = json_elements;
    assert_eq!(f(r#""a""#), Ok(("", vec![vs("a")])));
    assert_eq!(f(r#""a", 1"#), Ok(("", vec![vs("a"), vn("1")])));
}

#[test]
fn json_element_test() {
    // element
    //   ws value ws
    let f = json_element;
    assert_eq!(f(r#" "abc" "#), Ok(("", vs("abc"))));
    assert_eq!(f(r#" 123 "#), Ok(("", vn("123"))));
}

#[test]
fn json_string_test() {
    // string
    //   '"' characters '"'
    let f = json_string;
    assert_eq!(f(r#""#).is_err(), true);
    assert_eq!(f(r#""a""#), Ok(("", vs("a"))));
    assert_eq!(f(r#""ab""#), Ok(("", vs("ab"))));
    assert_eq!(f(r#""a\"b""#), Ok(("", vs(r#"a\"b"#))));
    assert_eq!(f("\"\u{0020}\""), Ok(("", vs("\u{0020}"))));
    assert_eq!(f("\"\u{10FFFF}\""), Ok(("", vs("\u{10FFFF}"))));
    assert_eq!(f(r#"""#).is_err(), true);
    assert_eq!(f(r#""""#), Ok(("", vs(r#""#))));
    assert_eq!(f(r#""\"""#), Ok(("", vs(r#"\""#))));
    assert_eq!(f(r#""\\""#), Ok(("", vs(r#"\\"#))));
    assert_eq!(f(r#""\/""#), Ok(("", vs(r#"\/"#))));
    assert_eq!(f(r#""\b""#), Ok(("", vs(r#"\b"#))));
    assert_eq!(f(r#""\f""#), Ok(("", vs(r#"\f"#))));
    assert_eq!(f(r#""\n""#), Ok(("", vs(r#"\n"#))));
    assert_eq!(f(r#""\r""#), Ok(("", vs(r#"\r"#))));
    assert_eq!(f(r#""\t""#), Ok(("", vs(r#"\t"#))));
    assert_eq!(f(r#""\u0020""#), Ok(("", vs(r#"\u0020"#))));
    assert_eq!(f(r#""\u002""#).is_err(), true);
    assert_eq!(f(r#""\u005A""#), Ok(("", vs(r#"\u005A"#))));
    assert_eq!(f(r#""\u10FFFF""#), Ok(("", vs(r#"\u10FFFF"#))));
}

#[test]
fn json_characters_test() {
    // characters
    //   ""
    //   character characters
    let f = json_characters;
    let s = |s: &str| s.to_string();
    assert_eq!(f(""), Ok(("", s(""))));
    assert_eq!(f("\u{0020}"), Ok(("", s("\u{0020}"))));
    assert_eq!(f("\u{10FFFF}"), Ok(("", s("\u{10FFFF}"))));
    assert_eq!(f(r#"""#), Ok(("\"", s(""))));
    assert_eq!(f(r#"\""#), Ok(("", s(r#"\""#))));
    assert_eq!(f(r#"\"#), Ok(("\\", s(""))));
    assert_eq!(f(r#"\\"#), Ok(("", s(r#"\\"#))));
    assert_eq!(f(r#"\/"#), Ok(("", s(r#"\/"#))));
    assert_eq!(f(r#"\b"#), Ok(("", s(r#"\b"#))));
    assert_eq!(f(r#"\f"#), Ok(("", s(r#"\f"#))));
    assert_eq!(f(r#"\n"#), Ok(("", s(r#"\n"#))));
    assert_eq!(f(r#"\r"#), Ok(("", s(r#"\r"#))));
    assert_eq!(f(r#"\t"#), Ok(("", s(r#"\t"#))));
    assert_eq!(f(r#"\u0020"#), Ok(("", s(r#"\u0020"#))));
    assert_eq!(f(r#"\u002"#), Ok((r#"\u002"#, s(""))));
    assert_eq!(f(r#"\u005A"#), Ok(("", s(r#"\u005A"#))));
    assert_eq!(f(r#"\u10FFFF"#), Ok(("", s(r#"\u10FFFF"#))));
}

#[test]
fn json_character_test() {
    // character
    //   '0020' . '10FFFF' - '"' - '\'
    //   '\' escape
    let f = json_character;
    let s = |s: &str| s.to_string();
    assert_eq!(f("").is_err(), true);
    assert_eq!(f("\u{0020}"), Ok(("", s("\u{0020}"))));
    assert_eq!(f("\u{10FFFF}"), Ok(("", s("\u{10FFFF}"))));
    assert_eq!(f(r#"""#).is_err(), true);
    assert_eq!(f(r#"\""#), Ok(("", s(r#"\""#))));
    assert_eq!(f(r#"\"#).is_err(), true);
    assert_eq!(f(r#"\\"#), Ok(("", s(r#"\\"#))));
    assert_eq!(f(r#"\/"#), Ok(("", s(r#"\/"#))));
    assert_eq!(f(r#"\b"#), Ok(("", s(r#"\b"#))));
    assert_eq!(f(r#"\f"#), Ok(("", s(r#"\f"#))));
    assert_eq!(f(r#"\n"#), Ok(("", s(r#"\n"#))));
    assert_eq!(f(r#"\r"#), Ok(("", s(r#"\r"#))));
    assert_eq!(f(r#"\t"#), Ok(("", s(r#"\t"#))));
    assert_eq!(f(r#"\u0020"#), Ok(("", s(r#"\u0020"#))));
    assert_eq!(f(r#"\u002"#).is_err(), true);
    assert_eq!(f(r#"\u005A"#), Ok(("", s(r#"\u005A"#))));
    assert_eq!(f(r#"\u10FFFF"#), Ok(("FF", s(r#"\u10FF"#))));
}

#[test]
fn json_escape_test() {
    // escape
    //   '"'
    //   '\'
    //   '/'
    //   'b'
    //   'f'
    //   'n'
    //   'r'
    //   't'
    //   'u' hex hex hex hex
    let f = json_escape;
    let s = |s: &str| s.to_string();
    assert_eq!(f(r#"""#), Ok(("", s(r#"""#))));
    assert_eq!(f(r#"\"#), Ok(("", s(r#"\"#))));
    assert_eq!(f(r#"/"#), Ok(("", s(r#"/"#))));
    assert_eq!(f(r#"b"#), Ok(("", s(r#"b"#))));
    assert_eq!(f(r#"f"#), Ok(("", s(r#"f"#))));
    assert_eq!(f(r#"n"#), Ok(("", s(r#"n"#))));
    assert_eq!(f(r#"r"#), Ok(("", s(r#"r"#))));
    assert_eq!(f(r#"t"#), Ok(("", s(r#"t"#))));
    assert_eq!(f(r#"u0000"#), Ok(("", s(r#"u0000"#))));
    assert_eq!(f(r#"uffff"#), Ok(("", s(r#"uffff"#))));
}

#[test]
fn json_hex_test() {
    // hex
    //   digit
    //   'A' . 'F'
    //   'a' . 'f'
    let f = json_hex;
    assert_eq!(f("0"), Ok(("", '0')));
    assert_eq!(f("1"), Ok(("", '1')));
    assert_eq!(f("9"), Ok(("", '9')));
    assert_eq!(f("A"), Ok(("", 'A')));
    assert_eq!(f("F"), Ok(("", 'F')));
    assert_eq!(f("G").is_err(), true);
    assert_eq!(f("a"), Ok(("", 'a')));
    assert_eq!(f("f"), Ok(("", 'f')));
    assert_eq!(f("g").is_err(), true);
}

#[test]
fn json_number_test() {
    // number
    //   integer fraction exponent
    let f = json_number;
    assert_eq!(f("").is_err(), true);
    assert_eq!(f("0"), Ok(("", vn("0"))));
    assert_eq!(f("1"), Ok(("", vn("1"))));
    assert_eq!(f("10"), Ok(("", vn("10"))));
    assert_eq!(f("12"), Ok(("", vn("12"))));
    assert_eq!(f("-0"), Ok(("", vn("-0"))));
    assert_eq!(f("-1"), Ok(("", vn("-1"))));
    assert_eq!(f("-10"), Ok(("", vn("-10"))));
    assert_eq!(f("-12"), Ok(("", vn("-12"))));
    assert_eq!(f("0.0"), Ok(("", vn("0.0"))));
    assert_eq!(f("0.1"), Ok(("", vn("0.1"))));
    assert_eq!(f("0.01"), Ok(("", vn("0.01"))));
    assert_eq!(f("0.1e5"), Ok(("", vn("0.1e5"))));
    assert_eq!(f("0.1e+5"), Ok(("", vn("0.1e+5"))));
    assert_eq!(f("0.1e-5"), Ok(("", vn("0.1e-5"))));
    assert_eq!(f("1e-5"), Ok(("", vn("1e-5"))));
}

#[test]
fn json_integer_test() {
    // integer
    //   digit
    //   onenine digits
    //   '-' digit
    //   '-' onenine digits
    let f = json_integer;
    assert_eq!(f("").is_err(), true);
    assert_eq!(f("0"), Ok(("", "0".to_string())));
    assert_eq!(f("1"), Ok(("", "1".to_string())));
    assert_eq!(f("10"), Ok(("", "10".to_string())));
    assert_eq!(f("12"), Ok(("", "12".to_string())));
    assert_eq!(f("-0"), Ok(("", "-0".to_string())));
    assert_eq!(f("-1"), Ok(("", "-1".to_string())));
    assert_eq!(f("-10"), Ok(("", "-10".to_string())));
    assert_eq!(f("-12"), Ok(("", "-12".to_string())));
}

#[test]
fn json_digits_test() {
    // digits
    //   digit
    //   digit digits
    let f = json_digits;
    assert_eq!(f("").is_err(), true);
    assert_eq!(f("0"), Ok(("", vec!['0'])));
    assert_eq!(f("1"), Ok(("", vec!['1'])));
    assert_eq!(f("01"), Ok(("", vec!['0', '1'])));
}

#[test]
fn json_digit_test() {
    // digit
    //   '0'
    //   onenine
    let f = json_digit;
    assert_eq!(f("").is_err(), true);
    assert_eq!(f("0"), Ok(("", '0')));
    assert_eq!(f("1"), Ok(("", '1')));
    assert_eq!(f("01"), Ok(("1", '0')));
}

#[test]
fn json_onenine_test() {
    // onenine
    //   '1' . '9'
    let f = json_onenine;
    assert_eq!(f("").is_err(), true);
    assert_eq!(f("0").is_err(), true);
    assert_eq!(f("1"), Ok(("", '1')));
    assert_eq!(f("12"), Ok(("2", '1')));
}

#[test]
fn json_fraction_test() {
    // fraction
    //   ""
    //   '.' digits
    let f = json_fraction;
    assert_eq!(f(""), Ok(("", "".to_string())));
    assert_eq!(f("a"), Ok(("a", "".to_string())));
    assert_eq!(f("."), Ok((".", "".to_string())));
    assert_eq!(f(".123"), Ok(("", ".123".to_string())));
}

#[test]
fn json_exponent_test() {
    // exponent
    //   ""
    //   'E' sign digits
    //   'e' sign digits
    let f = json_exponent;
    assert_eq!(f(""), Ok(("", "".to_string())));
    assert_eq!(f("E123"), Ok(("", "E123".to_string())));
    assert_eq!(f("e123"), Ok(("", "e123".to_string())));
    assert_eq!(f("a"), Ok(("a", "".to_string())));
    assert_eq!(f("E"), Ok(("E", "".to_string())));
    assert_eq!(f("e"), Ok(("e", "".to_string())));
}

#[test]
fn json_sign_test() {
    // sign
    //   ""
    //   '+'
    //   '-'
    let f = json_sign;
    assert_eq!(f(""), Ok(("", None)));
    assert_eq!(f("+"), Ok(("", Some('+'))));
    assert_eq!(f("-"), Ok(("", Some('-'))));
    assert_eq!(f("a"), Ok(("a", None)));
}

#[test]
fn json_ws_test() {
    // ws
    //   ""
    //   '0020' ws
    //   '000A' ws
    //   '000D' ws
    //   '0009' ws
    let f = json_ws;
    let s = |s: &str| s.to_string();
    assert_eq!(f(""), Ok(("", s(""))));
    assert_eq!(f("\u{0020}"), Ok(("", s("\u{0020}"))));
    assert_eq!(f("\u{000A}"), Ok(("", s("\u{000A}"))));
    assert_eq!(f("\u{000D}"), Ok(("", s("\u{000D}"))));
    assert_eq!(f("\u{0009}"), Ok(("", s("\u{0009}"))));
    assert_eq!(f("\u{0020}\u{000A}"), Ok(("", s("\u{0020}\u{000A}"))));
}

#[test]
fn printed_value_reads_back() {
    let text = r#" { "abc" : [ 1 , -2.5e+3 , "x\"y" ] , "cmd" : $`echo \`hi\`` , "n" : null , "e" : { } , "t" : [ true , false ] } "#;
    let value = JsonValue::from_str(text).unwrap();
    let printed = value.to_string();
    assert_eq!(
        printed,
        r#"{"abc":[1,-2.5e+3,"x\"y"],"cmd":$`echo \`hi\``,"n":null,"e":{},"t":[true,false]}"#
    );
    assert_eq!(JsonValue::from_str(&printed).unwrap(), value);
}

#[test]
fn reader_rejects_trailing_text() {
    assert!(JsonValue::from_str("1 2").is_err());
    assert!(JsonValue::from_str("[1,]").is_err());
    assert!(JsonValue::from_str("{\"a\" 1}").is_err());
    assert!(JsonValue::from_str("01").is_err());
}
