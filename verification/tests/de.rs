use std::collections::{BTreeMap, HashMap};

use json_with_comments::de::access::jsonc::JsoncDeserializer;
use json_with_comments::de::access::string::StringValue;
use json_with_comments::de::token::str::StrTokenizer;
use json_with_comments::de::{value_from_str, value_from_str_raw};
use json_with_comments::error::{ErrorKind, SemanticError, SyntaxError};
use json_with_comments::value::number::Number;
use json_with_comments::value::JsoncValue;

fn bool_from_str(s: &str) -> bool {
    let mut de = JsoncDeserializer::new(StrTokenizer::new(s));
    let v = de.deserialize_bool().unwrap();
    de.finish().unwrap();
    v
}

fn unit_from_str(s: &str) {
    let mut de = JsoncDeserializer::new(StrTokenizer::new(s));
    de.deserialize_unit().unwrap();
    de.finish().unwrap();
}

fn number_from_str<N: json_with_comments::de::access::number::FromNumberBuilder>(s: &str) -> N {
    let mut de = JsoncDeserializer::new(StrTokenizer::new(s));
    let v = de.deserialize_number::<N>().unwrap();
    de.finish().unwrap();
    v
}

#[test]
fn de_test_deserialize_literal() {
    assert_eq!(bool_from_str("true"), true);
    assert_eq!(bool_from_str("false"), false);
    assert_eq!(unit_from_str("null"), ());
}

#[test]
fn de_test_deserialize_number() {
    assert_eq!(number_from_str::<u64>("57"), 57);
    assert_eq!(number_from_str::<i128>("-99999999999999999"), -99999999999999999);
    assert_eq!(number_from_str::<String>("3.1415926535").parse::<f32>().unwrap(), 3.1415926535);
    assert_eq!(number_from_str::<String>("6.02214076e23").parse::<f64>().unwrap(), 6.02214076E23);
}

#[test]
fn access_test_deserialize_literal() {
    assert_eq!(bool_from_str("true"), true);
    assert_eq!(bool_from_str("false"), false);
    assert_eq!(unit_from_str("null"), ());
}

#[test]
fn access_test_deserialize_number() {
    assert_eq!(number_from_str::<u64>("57"), 57);
    assert_eq!(number_from_str::<i128>("-99999999999999999"), -99999999999999999);
    assert_eq!(number_from_str::<String>("3.1415926535").parse::<f32>().unwrap(), 3.1415926535);
    assert_eq!(number_from_str::<String>("6.02214076e23").parse::<f64>().unwrap(), 6.02214076E23);
}

#[test]
fn behavior_from_str() {
    let value = value_from_str(r#"{"a": [1, 2.5, "x", true, null], /* c */ "b": {},}"#).unwrap();
    match value {
        JsoncValue::Object(m) => {
            assert_eq!(m.len(), 2);
            match m.get("a").unwrap() {
                JsoncValue::Array(a) => {
                    assert_eq!(a.len(), 5);
                    assert_eq!(a[0], JsoncValue::Number(Number::Integer(1)));
                    assert_eq!(a[1], JsoncValue::Number(Number::Float("2.5".to_string())));
                    assert_eq!(a[2], JsoncValue::String("x".to_string()));
                    assert_eq!(a[3], JsoncValue::Bool(true));
                    assert_eq!(a[4], JsoncValue::Null);
                }
                _ => unreachable!(),
            }
            assert!(matches!(m.get("b").unwrap(), JsoncValue::Object(o) if o.is_empty()));
        }
        _ => unreachable!(),
    }
}

#[test]
fn value_duplicated_key_keeps_place_takes_later_value() {
    let value = value_from_str(r#"{"k": 1, "j": 2, "k": 3}"#).unwrap();
    match value {
        JsoncValue::Object(m) => {
            let e = m.entries();
            assert_eq!(e.len(), 2);
            assert_eq!(e[0].0, "k");
            assert_eq!(e[0].1, JsoncValue::Number(Number::Integer(3)));
            assert_eq!(e[1].0, "j");
        }
        _ => unreachable!(),
    }
}

#[test]
fn value_errors() {
    assert!(matches!(
        value_from_str("").unwrap_err().into_inner(),
        ErrorKind::Syntax(SyntaxError::EofWhileStartParsingValue)
    ));
    assert!(matches!(
        value_from_str("[,]").unwrap_err().into_inner(),
        ErrorKind::Syntax(SyntaxError::UnexpectedTokenWhileParsingValue { found: b',', .. })
    ));
    assert!(matches!(
        value_from_str("{,}").unwrap_err().into_inner(),
        ErrorKind::Syntax(SyntaxError::UnexpectedTokenWhileParsingObjectKey { found: b',', .. })
    ));
    assert!(matches!(
        value_from_str("[1 2]").unwrap_err().into_inner(),
        ErrorKind::Syntax(SyntaxError::UnexpectedTokenWhileParsingArrayValue { found: b'2', .. })
    ));
    assert!(matches!(
        value_from_str(r#"{"a" 1}"#).unwrap_err().into_inner(),
        ErrorKind::Syntax(SyntaxError::UnexpectedTokenWhileStartParsingObjectValue { found: b'1', .. })
    ));
    assert!(matches!(
        value_from_str(r#"{"a": 1 "b": 2}"#).unwrap_err().into_inner(),
        ErrorKind::Syntax(SyntaxError::UnexpectedTokenWhileEndParsingObjectValue { found: b'"', .. })
    ));
    assert!(matches!(
        value_from_str("[1").unwrap_err().into_inner(),
        ErrorKind::Syntax(SyntaxError::EofWhileEndParsingArray)
    ));
    assert!(matches!(
        value_from_str("null null").unwrap_err().into_inner(),
        ErrorKind::Syntax(SyntaxError::ExpectedEof { pos: (0, 5), found: b'n' })
    ));
    assert!(matches!(
        value_from_str("99999999999999999999").unwrap_err().into_inner(),
        ErrorKind::Semantic(SemanticError::InvalidNumber { .. })
    ));
    assert!(matches!(
        value_from_str("nul").unwrap_err().into_inner(),
        ErrorKind::Syntax(SyntaxError::UnexpectedIdent { .. })
    ));
}

#[test]
fn value_raw_strings_keep_escapes() {
    assert_eq!(value_from_str_raw(r#""a\nb""#).unwrap(), JsoncValue::String("a\\nb".to_string()));
    assert_eq!(value_from_str(r#""a\nb""#).unwrap(), JsoncValue::String("a\nb".to_string()));
}

#[test]
fn finish_rejects_trailing_text() {
    let mut de = JsoncDeserializer::new(StrTokenizer::new("true // ok\n x"));
    assert_eq!(de.deserialize_bool().unwrap(), true);
    assert!(matches!(
        de.finish().unwrap_err().into_inner(),
        ErrorKind::Syntax(SyntaxError::ExpectedEof { pos: (1, 1), found: b'x' })
    ));
}

type De<'a> = JsoncDeserializer<'a, StrTokenizer<'a>>;

fn from_str_with<'a, T>(s: &'a str, read: impl FnOnce(&mut De<'a>) -> T) -> T {
    let mut de = JsoncDeserializer::new(StrTokenizer::new(s));
    let v = read(&mut de);
    de.finish().unwrap();
    v
}

fn read_string(de: &mut De<'_>) -> String {
    de.deserialize_string().unwrap().into_string()
}

fn read_str<'a>(de: &mut De<'a>) -> &'a str {
    match de.deserialize_string().unwrap() {
        StringValue::Borrowed(s) => s,
        StringValue::Owned(s) => panic!("expected a borrowed string, got {:?}", s),
    }
}

fn read_elements<'a, T>(de: &mut De<'a>, mut element: impl FnMut(&mut De<'a>) -> T) -> Vec<T> {
    de.seq_start().unwrap();
    let mut out = Vec::new();
    while de.seq_next().unwrap() {
        out.push(element(de));
        de.seq_element_end().unwrap();
    }
    de.seq_end().unwrap();
    out
}

fn read_members<'a, K, V>(
    de: &mut De<'a>,
    mut key: impl FnMut(&mut De<'a>) -> K,
    mut value: impl FnMut(&mut De<'a>) -> V,
) -> Vec<(K, V)> {
    de.map_start().unwrap();
    let mut out = Vec::new();
    while de.map_next_key().unwrap() {
        let k = key(de);
        de.map_value_start().unwrap();
        let v = value(de);
        de.map_value_end().unwrap();
        out.push((k, v));
    }
    de.map_end().unwrap();
    out
}

fn read_number_key<'a>(de: &mut De<'a>) -> i64 {
    de.key_quote().unwrap();
    let n = de.deserialize_number::<i64>().unwrap();
    de.key_quote().unwrap();
    n
}

fn check_deserialize_string() {
    assert_eq!(from_str_with(r#""hello world""#, read_string), "hello world".to_string());
    assert_eq!(from_str_with(r#""12345""#, read_str), "12345");
    assert_eq!(from_str_with(r#""🥒💯""#, read_string), "🥒💯".to_string());

    assert_eq!(from_str_with(r#""linefeed\n""#, read_string), "linefeed\n");
    assert_eq!(from_str_with(r#""tab\tspace""#, read_string), "tab\tspace");
    assert_eq!(from_str_with(r#""linefeed\u000A""#, read_string), "linefeed\n");
    assert_eq!(from_str_with(r#""null\u0000""#, read_string), "null\u{0000}");
    assert_eq!(from_str_with(r#""del\u007f""#, read_string), "del\u{007F}");
}

fn check_deserialize_seq() {
    assert_eq!(from_str_with("[]", |de| read_elements(de, |de| de.deserialize_unit().unwrap())), vec![]);
    assert_eq!(from_str_with("[1,2,3]", |de| read_elements(de, |de| de.deserialize_number::<i32>().unwrap())), vec![1, 2, 3]);

    let tuple = from_str_with(r#"[null, true, "string"]"#, |de| {
        de.seq_start().unwrap();
        assert!(de.seq_next().unwrap());
        let unit = de.deserialize_unit().unwrap();
        de.seq_element_end().unwrap();
        assert!(de.seq_next().unwrap());
        let b = de.deserialize_bool().unwrap();
        de.seq_element_end().unwrap();
        assert!(de.seq_next().unwrap());
        let s = read_string(de);
        de.seq_element_end().unwrap();
        assert!(!de.seq_next().unwrap());
        de.seq_end().unwrap();
        (unit, b, s)
    });
    assert_eq!(tuple, ((), true, "string".to_string()));

    let nested = from_str_with(r#"[null, [false, true]]"#, |de| {
        de.seq_start().unwrap();
        assert!(de.seq_next().unwrap());
        let unit = de.deserialize_unit().unwrap();
        de.seq_element_end().unwrap();
        assert!(de.seq_next().unwrap());
        let bools = read_elements(de, |de| de.deserialize_bool().unwrap());
        de.seq_element_end().unwrap();
        assert!(!de.seq_next().unwrap());
        de.seq_end().unwrap();
        (unit, bools)
    });
    assert_eq!(nested, ((), vec![false, true]));
}

fn check_deserialize_map() {
    let empty: HashMap<(), ()> =
        from_str_with("{}", |de| read_members(de, |de| de.deserialize_unit().unwrap(), |de| de.deserialize_unit().unwrap()))
            .into_iter()
            .collect();
    assert_eq!(empty, HashMap::new());

    let strings: HashMap<String, String> =
        from_str_with(r#"{"key":"value"}"#, |de| read_members(de, read_string, read_string)).into_iter().collect();
    assert_eq!(strings, HashMap::from([("key".to_string(), "value".to_string())]));

    let numbers: BTreeMap<i64, &str> =
        from_str_with(r#"{"1": "one", "2": "two", "3": "three"}"#, |de| read_members(de, read_number_key, read_str))
            .into_iter()
            .collect();
    assert_eq!(numbers, BTreeMap::from([(1, "one"), (2, "two"), (3, "three")]));

    let nested: BTreeMap<&str, HashMap<&str, &str>> =
        from_str_with(r#"{"hoge":{"fuga":"piyo"},"foo":{"bar":"baz"}}"#, |de| {
            read_members(de, read_str, |de| read_members(de, read_str, read_str).into_iter().collect())
        })
        .into_iter()
        .collect();
    assert_eq!(
        nested,
        BTreeMap::from([("hoge", HashMap::from([("fuga", "piyo")])), ("foo", HashMap::from([("bar", "baz")]))])
    );
}

#[test]
fn de_test_deserialize_string() {
    check_deserialize_string();
}

#[test]
fn access_test_deserialize_string() {
    check_deserialize_string();
}

#[test]
fn de_test_deserialize_seq() {
    check_deserialize_seq();
}

#[test]
fn access_test_deserialize_seq() {
    check_deserialize_seq();
}

#[test]
fn de_test_deserialize_map() {
    check_deserialize_map();
}

#[test]
fn access_test_deserialize_map() {
    check_deserialize_map();
}
