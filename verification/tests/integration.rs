use std::collections::{BTreeMap, HashMap};

use json_with_comments::de::access::jsonc::JsoncDeserializer;
use json_with_comments::de::access::string::StringValue;
use json_with_comments::de::token::raw::RawTokenizer;
use json_with_comments::de::token::str::StrTokenizer;
use json_with_comments::de::token::Tokenizer;
use json_with_comments::de::value_from_str;
use json_with_comments::error::{ErrorKind, SyntaxError};
use json_with_comments::ser::access::jsonc::JsoncSerializer;
use json_with_comments::ser::access::map::{MapKeySerializer, MapSerializer};
use json_with_comments::ser::access::seq::SeqSerializer;
use json_with_comments::ser::formatter::minify::MinifyFormatter;
use json_with_comments::ser::formatter::pretty::PrettyFormatter;
use json_with_comments::ser::formatter::JsoncFormatter;
use json_with_comments::ser::{value_to_string, value_to_string_pretty};
use json_with_comments::value::number::Number;
use json_with_comments::value::{JsoncValue, MapImpl};

type De<'a> = JsoncDeserializer<'a, StrTokenizer<'a>>;

fn from_str_with<'a, T>(s: &'a str, read: impl FnOnce(&mut De<'a>) -> T) -> T {
    let mut de = JsoncDeserializer::new(StrTokenizer::new(s));
    let v = read(&mut de);
    de.finish().unwrap();
    v
}

fn syntax_error<'a, T: std::fmt::Debug>(s: &'a str, read: impl FnOnce(&mut De<'a>) -> Result<T, ErrorKind>) -> SyntaxError {
    let mut de = JsoncDeserializer::new(StrTokenizer::new(s));
    let kind = match read(&mut de) {
        Ok(_) => de.finish().unwrap_err().into_inner(),
        Err(kind) => kind,
    };
    match kind {
        ErrorKind::Syntax(e) => e,
        other => panic!("expected a syntax error, got {:?}", other),
    }
}

fn read_string<'a, T: Tokenizer<'a>>(de: &mut JsoncDeserializer<'a, T>) -> String {
    de.deserialize_string().unwrap().into_string()
}

fn read_str<'a, T: Tokenizer<'a>>(de: &mut JsoncDeserializer<'a, T>) -> &'a str {
    match de.deserialize_string().unwrap() {
        StringValue::Borrowed(s) => s,
        StringValue::Owned(s) => panic!("expected a borrowed string, got {:?}", s),
    }
}

fn read_i32(de: &mut De<'_>) -> i32 {
    de.deserialize_number::<i32>().unwrap()
}

fn read_float(de: &mut De<'_>) -> f64 {
    de.deserialize_number::<String>().unwrap().parse().unwrap()
}

fn read_elements<'a, T>(de: &mut De<'a>, mut element: impl FnMut(&mut De<'a>) -> T) -> Vec<T> {
    de.seq_start().unwrap();
    let mut out = Vec::new();
    while de.seq_next().unwrap() {
        out.push(element(de));
        de.seq_element_end().unwrap();
    }
    de.seq_end().unwrap();
    out
}

fn read_members<'a, K, V>(
    de: &mut De<'a>,
    mut key: impl FnMut(&mut De<'a>) -> K,
    mut value: impl FnMut(&mut De<'a>) -> V,
) -> Vec<(K, V)> {
    de.map_start().unwrap();
    let mut out = Vec::new();
    while de.map_next_key().unwrap() {
        let k = key(de);
        de.map_value_start().unwrap();
        let v = value(de);
        de.map_value_end().unwrap();
        out.push((k, v));
    }
    de.map_end().unwrap();
    out
}

fn quoted_key<'a, T>(de: &mut De<'a>, read: impl FnOnce(&mut De<'a>) -> T) -> T {
    de.key_quote().unwrap();
    let k = read(de);
    de.key_quote().unwrap();
    k
}

fn minified(write: impl FnOnce(&mut JsoncSerializer<MinifyFormatter>)) -> String {
    let mut ser = JsoncSerializer::new(Vec::new(), MinifyFormatter);
    write(&mut ser);
    String::from_utf8(ser.into_inner()).unwrap()
}

fn prettified(write: impl FnOnce(&mut JsoncSerializer<PrettyFormatter>)) -> String {
    let mut ser = JsoncSerializer::new(Vec::new(), PrettyFormatter::new());
    write(&mut ser);
    String::from_utf8(ser.into_inner()).unwrap()
}

fn write_elements<F: JsoncFormatter, T>(
    ser: &mut JsoncSerializer<F>,
    items: Vec<T>,
    mut write: impl FnMut(&mut JsoncSerializer<F>, T),
) {
    let mut seq = SeqSerializer::start(ser, Some(items.len()));
    for item in items {
        seq.element_start(ser);
        write(ser, item);
        seq.element_end(ser);
    }
    seq.end(ser);
}

fn write_members<F: JsoncFormatter, K, V>(
    ser: &mut JsoncSerializer<F>,
    members: Vec<(K, V)>,
    mut key: impl FnMut(&mut JsoncSerializer<F>, K),
    mut value: impl FnMut(&mut JsoncSerializer<F>, V),
) {
    let mut map = MapSerializer::start(ser, Some(members.len()));
    for (k, v) in members {
        map.key_start(ser);
        key(ser, k);
        map.key_end(ser);
        value(ser, v);
        map.value_end(ser);
    }
    map.end(ser);
}

fn float_text(f: f64) -> String {
    ryu::Buffer::new().format(f).to_string()
}

fn integer(i: i64) -> JsoncValue {
    JsoncValue::Number(Number::Integer(i))
}

fn string(s: &str) -> JsoncValue {
    JsoncValue::String(s.to_string())
}

fn object(members: Vec<(&str, JsoncValue)>) -> JsoncValue {
    let mut map = MapImpl::new();
    for (k, v) in members {
        map.insert(k.to_string(), v);
    }
    JsoncValue::Object(map)
}

#[test]
fn test_deserialize_serialize_null_as_value() {
    let target = r#"null"#;
    let value = value_from_str(target).unwrap();
    assert_eq!(value, JsoncValue::Null);

    let null = value_to_string(&value).unwrap();
    assert_eq!(null, target);
}

#[test]
fn test_deserialize_serialize_bool_as_value() {
    let target = r#"true"#;
    let value = value_from_str(target).unwrap();
    assert_eq!(value, JsoncValue::Bool(true));

    let tru = value_to_string(&value).unwrap();
    assert_eq!(tru, target);
}

#[test]
fn test_deserialize_serialize_number_as_value() {
    let target = r#"9"#;
    let value = value_from_str(target).unwrap();
    assert_eq!(value, integer(9));

    let num = value_to_string(&value).unwrap();
    assert_eq!(num, target);
}

#[test]
fn test_deserialize_serialize_string_as_value() {
    let target = r#""string""#;
    let value = value_from_str(target).unwrap();
    assert_eq!(value, string("string"));

    let s = value_to_string(&value).unwrap();
    assert_eq!(s, target);
}

#[test]
fn test_deserialize_serialize_array_as_value() {
    let target = r#"[null,true,"false",10]"#;
    let value = value_from_str(target).unwrap();
    assert_eq!(value, JsoncValue::Array(vec![JsoncValue::Null, JsoncValue::Bool(true), string("false"), integer(10)]));

    let array = value_to_string(&value).unwrap();
    assert_eq!(array, target);
}

#[test]
fn test_deserialize_serialize_object_as_value() {
    let target = r#"{"null":null,"number":10000000000,"float":1.5}"#;
    let value = value_from_str(target).unwrap();
    assert_eq!(
        value,
        object(vec![
            ("null", JsoncValue::Null),
            ("number", integer(10000000000)),
            ("float", JsoncValue::Number(Number::Float("1.5".to_string()))),
        ])
    );

    let obj = value_to_string(&value).unwrap();
    assert_eq!(obj, target);
}

#[test]
fn test_roundtrip_preserve_order_str() {
    let target = r#"{"hoge":1,"fuga":2,"piyo":3}"#;
    let value = value_from_str(target).unwrap();
    assert_eq!(value, object(vec![("hoge", integer(1)), ("fuga", integer(2)), ("piyo", integer(3))]));

    let jsonc = value_to_string(&value).unwrap();
    assert_eq!(jsonc, target);
}

#[test]
fn test_roundtrip_preserve_order_value() {
    let target = object(vec![
        ("hoge", JsoncValue::Bool(false)),
        ("fuga", integer(1)),
        (
            "piyo",
            object(vec![
                ("foo", integer(0)),
                ("bar", string("one")),
                ("baz", JsoncValue::Array(vec![JsoncValue::Array(vec![]), JsoncValue::Array(vec![JsoncValue::Array(vec![])])])),
            ]),
        ),
    ]);
    let jsonc = value_to_string(&target).unwrap();
    assert_eq!(jsonc, r#"{"hoge":false,"fuga":1,"piyo":{"foo":0,"bar":"one","baz":[[],[[]]]}}"#);

    let value = value_from_str(&jsonc).unwrap();
    assert_eq!(value, target);
}

#[test]
fn test_cannot_deserialize_empty() {
    let target = "";
    let err = syntax_error(target, |de| de.option_is_null().map_err(|e| e.into_inner()));
    assert!(matches!(err, SyntaxError::EofWhileStartParsingValue));
}

#[test]
fn test_deserialize_multiple_jsonc() {
    let target = r#"
        {
            "hoge": "fuga"
        }
        {
            "foo": "bar"
        }
    "#;
    let err = syntax_error(target, |de| Ok(read_members(de, read_string, read_string)));
    assert!(matches!(err, SyntaxError::ExpectedEof { .. }));
}

#[test]
fn test_deserialize_empty_object() {
    let target = "{}";
    let data: HashMap<(), ()> =
        from_str_with(target, |de| read_members(de, |de| de.deserialize_unit().unwrap(), |de| de.deserialize_unit().unwrap()))
            .into_iter()
            .collect();
    assert_eq!(data, HashMap::new());

    let target2 = "{  }";
    let data: HashMap<(), ()> =
        from_str_with(target2, |de| read_members(de, |de| de.deserialize_unit().unwrap(), |de| de.deserialize_unit().unwrap()))
            .into_iter()
            .collect();
    assert_eq!(data, HashMap::new());
}

#[test]
fn test_serialize_empty_object() {
    let object = minified(|ser| write_members(ser, Vec::<((), ())>::new(), |ser, ()| ser.serialize_unit(), |ser, ()| ser.serialize_unit()));
    assert_eq!(object, "{}");
}

#[test]
fn test_cannot_deserialize_only_comma_object() {
    let target = "{,}";
    let mut de = JsoncDeserializer::new(StrTokenizer::new(target));
    de.map_start().unwrap();
    assert!(de.map_next_key().is_err());
}

#[test]
fn test_deserialize_empty_array() {
    let target = "[]";
    let data: Vec<()> = from_str_with(target, |de| read_elements(de, |de| de.deserialize_unit().unwrap()));
    assert_eq!(data, vec![]);

    let target2 = "[  ]";
    let data: Vec<()> = from_str_with(target2, |de| read_elements(de, |de| de.deserialize_unit().unwrap()));
    assert_eq!(data, vec![]);
}

#[test]
fn test_serialize_empty_array() {
    let array = minified(|ser| write_elements(ser, Vec::<()>::new(), |ser, ()| ser.serialize_unit()));
    assert_eq!(array, "[]");
}

#[test]
fn test_cannot_deserialize_only_comma_array() {
    let target = "[,]";
    let mut de = JsoncDeserializer::new(StrTokenizer::new(target));
    de.seq_start().unwrap();
    assert!(de.seq_next().unwrap());
    assert!(de.deserialize_string().is_err());
}

#[test]
fn test_deserialize_recursive_object() {
    let target = r#"
        {
            "value": "foo",
            "next": {
                "value": "bar",
                "next": {
                    "value": "baz",
                    "next": null
                }
            }
        }
    "#;
    let root = value_from_str(target).unwrap();
    assert_eq!(root.query("value"), Some(&string("foo")));

    let next = root.query("next").unwrap();
    assert_eq!(next.query("value"), Some(&string("bar")));

    let last = next.query("next").unwrap();
    assert_eq!(last.query("value"), Some(&string("baz")));
    assert_eq!(last.query("next"), Some(&JsoncValue::Null));
}

#[test]
fn test_deserialize_recursive_array() {
    let target = r#"[[],[[]],[[],[[]]]]"#;
    let data: Vec<Vec<Vec<Vec<()>>>> = from_str_with(target, |de| {
        read_elements(de, |de| {
            read_elements(de, |de| read_elements(de, |de| read_elements(de, |de| de.deserialize_unit().unwrap())))
        })
    });
    assert_eq!(data, vec![vec![], vec![vec![]], vec![vec![], vec![vec![]]]]);
}

#[test]
fn test_deserialize_single_null_literal() {
    let target_null = "null";
    let data: () = from_str_with(target_null, |de| de.deserialize_unit().unwrap());
    assert_eq!(data, ());

    let target_null2 = "null";
    let data: Option<u64> = from_str_with(target_null2, |de| {
        if de.option_is_null().unwrap() {
            None
        } else {
            Some(de.deserialize_number::<u64>().unwrap())
        }
    });
    assert_eq!(data, None);

    let target_null3 = "null";
    let data: Option<()> = from_str_with(target_null3, |de| {
        if de.option_is_null().unwrap() {
            None
        } else {
            Some(de.deserialize_unit().unwrap())
        }
    });
    assert_eq!(data, None);
}

#[test]
fn test_serialize_single_null_literal() {
    assert_eq!(minified(|ser| ser.serialize_unit()), "null");
    let none = None::<u64>;
    assert_eq!(
        minified(|ser| match none {
            Some(n) => ser.serialize_number(n),
            None => ser.serialize_unit(),
        }),
        "null"
    );
    let some_unit = Some(());
    assert_eq!(
        minified(|ser| match some_unit {
            Some(()) => ser.serialize_unit(),
            None => ser.serialize_unit(),
        }),
        "null"
    );
}

#[test]
fn test_deserialize_single_bool_literal() {
    assert_eq!(from_str_with("true", |de| de.deserialize_bool().unwrap()), true);
    assert_eq!(from_str_with("false", |de| de.deserialize_bool().unwrap()), false);
}

#[test]
fn test_serialize_single_bool_literal() {
    assert_eq!(minified(|ser| ser.serialize_bool(true)), "true");
    assert_eq!(minified(|ser| ser.serialize_bool(false)), "false");
}

#[test]
fn test_deserialize_single_string_literal() {
    assert_eq!(from_str_with("\"\"", read_string), "");
    assert_eq!(from_str_with("\"hello\"", read_str), "hello");
}

#[test]
fn test_serialize_single_string_literal() {
    assert_eq!(minified(|ser| ser.serialize_str("")), "\"\"");
    assert_eq!(minified(|ser| ser.serialize_str("hello")), "\"hello\"");
}

#[test]
fn test_deserialize_single_number_literal() {
    assert_eq!(from_str_with("0", |de| de.deserialize_number::<u32>().unwrap()), 0);
    assert_eq!(from_str_with("100", |de| de.deserialize_number::<u32>().unwrap()), 100);
    assert_eq!(from_str_with("-100", read_i32), -100);
    assert_eq!(from_str_with("100.0", read_float), 100.0);
}

#[test]
fn test_serialize_single_number_literal() {
    assert_eq!(minified(|ser| ser.serialize_number(0)), "0");
    assert_eq!(minified(|ser| ser.serialize_number(100u32)), "100");
    assert_eq!(minified(|ser| ser.serialize_number(-100)), "-100");
    assert_eq!(minified(|ser| ser.serialize_number(float_text(0.5))), "0.5");
}

#[test]
fn test_cannot_deserialize_empty_comment() {
    let err = syntax_error("//", |de| de.option_is_null().map_err(|e| e.into_inner()));
    assert!(matches!(err, SyntaxError::EofWhileStartParsingValue));

    let err = syntax_error("/* this JSON will be empty */", |de| de.option_is_null().map_err(|e| e.into_inner()));
    assert!(matches!(err, SyntaxError::EofWhileStartParsingValue));
}

#[test]
fn test_deserialize_comment_inside_string() {
    assert_eq!(
        from_str_with("\"// this is not comment, but string\"", read_string),
        "// this is not comment, but string"
    );
    assert_eq!(
        from_str_with("\"/* this is not comment, but string */\"", read_string),
        "/* this is not comment, but string */"
    );
}

#[test]
fn test_deserialize_comment_with_eof() {
    assert_eq!(from_str_with("1 //", read_i32), 1);
    assert_eq!(from_str_with("1 // one", read_i32), 1);
    assert_eq!(from_str_with("1 /* one */", read_i32), 1);
}

#[test]
fn test_cannot_deserialize_eof_while_comment() {
    let err = syntax_error("12 /* comment not terminate", |de| de.deserialize_number::<i32>().map_err(|e| e.into_inner()));
    assert!(matches!(err, SyntaxError::UnterminatedComment));

    let err = syntax_error("12 /* comment not terminate *", |de| de.deserialize_number::<i32>().map_err(|e| e.into_inner()));
    assert!(matches!(err, SyntaxError::UnterminatedComment));
}

#[test]
fn test_deserialize_special_comment() {
    let target_too_many_slash = "\"too many slash\"/////////////////////////////////////////////////////";
    assert_eq!(from_str_with(target_too_many_slash, read_str), "too many slash");

    let target_too_many_asterisk = "\"too many asterisk\"/*****************************************************/";
    assert_eq!(from_str_with(target_too_many_asterisk, read_str), "too many asterisk");

    let target_contain_control_character = "\"control character\" // terminator \u{009C} null \u{0000} escape \x1b";
    assert_eq!(from_str_with(target_contain_control_character, read_str), "control character");
}

#[test]
fn test_deserialize_str() {
    let unescaped = r#""string without linefeed""#;
    assert_eq!(from_str_with(unescaped, read_string), "string without linefeed");
    assert_eq!(from_str_with(unescaped, |de| de.deserialize_string().unwrap().as_str().to_string()), "string without linefeed");
    assert_eq!(from_str_with(unescaped, read_str), "string without linefeed");
    let raw = |s: &'static str| JsoncDeserializer::new(RawTokenizer::new(s.as_bytes()));
    assert_eq!(read_string(&mut raw(unescaped)), r#"string without linefeed"#);
    assert_eq!(raw(unescaped).deserialize_string().unwrap().as_str(), r#"string without linefeed"#);
    assert_eq!(read_str(&mut raw(unescaped)), r#"string without linefeed"#);

    let escaped = r#""string with linefeed\n""#;
    assert_eq!(from_str_with(escaped, read_string), "string with linefeed\n");
    assert_eq!(from_str_with(escaped, |de| de.deserialize_string().unwrap().as_str().to_string()), "string with linefeed\n");
    assert!(
        !from_str_with(escaped, |de| de.deserialize_string().unwrap().is_borrowed()),
        "borrowed string that has escape cannot be deserialized (lifetime)"
    );
    assert_eq!(read_string(&mut raw(escaped)), r#"string with linefeed\n"#);
    assert_eq!(raw(escaped).deserialize_string().unwrap().as_str(), r#"string with linefeed\n"#);
    assert_eq!(read_str(&mut raw(escaped)), r#"string with linefeed\n"#);
}

#[test]
fn test_null() {
    let none = None::<()>;
    let string = minified(|ser| match none {
        Some(()) => ser.serialize_unit(),
        None => ser.serialize_unit(),
    });
    assert_eq!(string, "null");
    let re: Option<()> = from_str_with(&string, |de| if de.option_is_null().unwrap() { None } else { Some(()) });
    assert_eq!(re, None);

    let some_unit = Some(());
    let string = minified(|ser| match some_unit {
        Some(()) => ser.serialize_unit(),
        None => ser.serialize_unit(),
    });
    assert_eq!(string, "null");
    let re: Option<()> = from_str_with(&string, |de| if de.option_is_null().unwrap() { None } else { Some(()) });
    assert_eq!(re, None);
}

#[test]
fn test_not_string_map_key() {
    let target_bool = r#"{
        "false": 0,
        "true": 1,
    }"#;
    let map: BTreeMap<bool, i32> =
        from_str_with(target_bool, |de| read_members(de, |de| quoted_key(de, |de| de.deserialize_bool().unwrap()), read_i32))
            .into_iter()
            .collect();
    assert_eq!(map, BTreeMap::from([(true, 1), (false, 0)]));
    let jsonc = prettified(|ser| {
        write_members(
            ser,
            map.into_iter().collect(),
            |ser, k| MapKeySerializer::new().serialize_bool(ser, k),
            |ser, v| ser.serialize_number(v),
        )
    });
    for (tl, jl) in target_bool.lines().zip(jsonc.lines()) {
        assert_eq!(tl.trim(), jl.trim());
    }

    let target_number_key = r#"{
        "1": false,
        "2": true,
        "3": true,
        "4": false,
        "5": true,
    }"#;
    let map: BTreeMap<u64, bool> = from_str_with(target_number_key, |de| {
        read_members(de, |de| quoted_key(de, |de| de.deserialize_number::<u64>().unwrap()), |de| de.deserialize_bool().unwrap())
    })
    .into_iter()
    .collect();
    assert_eq!(map, BTreeMap::from([(1, false), (2, true), (3, true), (4, false), (5, true)]));
    let jsonc = prettified(|ser| {
        write_members(
            ser,
            map.into_iter().collect(),
            |ser, k| MapKeySerializer::new().serialize_number(ser, k),
            |ser, v| ser.serialize_bool(v),
        )
    });
    for (tl, jl) in target_number_key.lines().zip(jsonc.lines()) {
        assert_eq!(tl.trim(), jl.trim());
    }

    let target_unit_key = r#"{
        "null": false,
    }"#;
    let map: HashMap<(), bool> = from_str_with(target_unit_key, |de| {
        read_members(de, |de| quoted_key(de, |de| de.deserialize_unit().unwrap()), |de| de.deserialize_bool().unwrap())
    })
    .into_iter()
    .collect();
    assert_eq!(map, HashMap::from([((), false)]));
    let jsonc = prettified(|ser| {
        write_members(
            ser,
            map.into_iter().collect(),
            |ser, ()| MapKeySerializer::new().serialize_unit(ser),
            |ser, v| ser.serialize_bool(v),
        )
    });
    for (tl, jl) in target_unit_key.lines().zip(jsonc.lines()) {
        assert_eq!(tl.trim(), jl.trim());
    }
}

#[test]
fn test_can_deserialize_duplicated_map_key() {
    let target = r#"{
        "hello": "world",
        "hello": "world!"
    }"#;

    let value = value_from_str(target).unwrap();
    assert_eq!(value, object(vec![("hello", string("world!"))]));

    let jsonc = value_to_string(&value).unwrap();
    assert_eq!(jsonc, r#"{"hello":"world!"}"#);
}

#[test]
fn test_roundtrip_unit() {
    let jsonc = minified(|ser| ser.serialize_unit());
    assert_eq!(jsonc, "null");
    let unit = from_str_with(&jsonc, |de| de.deserialize_unit().unwrap());
    assert_eq!(unit, ());
}

#[test]
fn test_roundtrip_bool() {
    let target = true;
    let jsonc = minified(|ser| ser.serialize_bool(target));
    assert_eq!(jsonc, "true");
    let tru = from_str_with(&jsonc, |de| de.deserialize_bool().unwrap());
    assert_eq!(tru, target);

    let target = false;
    let jsonc = minified(|ser| ser.serialize_bool(target));
    assert_eq!(jsonc, "false");
    let fal = from_str_with(&jsonc, |de| de.deserialize_bool().unwrap());
    assert_eq!(fal, target);
}

#[test]
fn test_roundtrip_number() {
    let target = 42;
    let jsonc = minified(|ser| ser.serialize_number(target));
    assert_eq!(jsonc, "42");
    assert_eq!(from_str_with(&jsonc, read_i32), target);

    let target = -42;
    let jsonc = minified(|ser| ser.serialize_number(target));
    assert_eq!(jsonc, "-42");
    assert_eq!(from_str_with(&jsonc, read_i32), target);

    let target = 42.75;
    let jsonc = minified(|ser| ser.serialize_number(float_text(target)));
    assert_eq!(jsonc, "42.75");
    let fraction: f32 = from_str_with(&jsonc, |de| de.deserialize_number::<String>().unwrap().parse().unwrap());
    assert_eq!(fraction, target as f32);

    let target = 6.02E23;
    let jsonc = minified(|ser| ser.serialize_number(float_text(target)));
    assert_eq!(jsonc, "6.02e23");
    assert_eq!(from_str_with(&jsonc, read_float), target);
}

#[test]
fn test_roundtrip_string() {
    let target = "hello";
    let jsonc = minified(|ser| ser.serialize_str(target));
    assert_eq!(jsonc, r#""hello""#);
    assert_eq!(from_str_with(&jsonc, read_string), target);

    let target = "hello\nworld";
    let jsonc = minified(|ser| ser.serialize_str(target));
    assert_eq!(jsonc, r#""hello\nworld""#);
    assert_eq!(from_str_with(&jsonc, read_string), target);
}

#[test]
fn test_roundtrip_seq() {
    let target = vec!["hoge", "fuga", "piyo"];
    let jsonc = minified(|ser| write_elements(ser, target.clone(), |ser, s| ser.serialize_str(s)));
    assert_eq!(jsonc, r#"["hoge","fuga","piyo"]"#);
    let metasyntactic = from_str_with(&jsonc, |de| read_elements(de, read_str));
    assert_eq!(metasyntactic, target);

    let jsonc = minified(|ser| {
        let mut seq = SeqSerializer::start(ser, Some(3));
        seq.element_start(ser);
        ser.serialize_bool(false);
        seq.element_end(ser);
        seq.element_start(ser);
        ser.serialize_number(1);
        seq.element_end(ser);
        seq.element_start(ser);
        let mut inner = SeqSerializer::start(ser, Some(2));
        inner.element_start(ser);
        ser.serialize_unit();
        inner.element_end(ser);
        inner.element_start(ser);
        write_elements(ser, vec![()], |ser, ()| ser.serialize_unit());
        inner.element_end(ser);
        inner.end(ser);
        seq.element_end(ser);
        seq.end(ser);
    });
    assert_eq!(jsonc, r#"[false,1,[null,[null]]]"#);
    let natural = from_str_with(&jsonc, |de| {
        de.seq_start().unwrap();
        assert!(de.seq_next().unwrap());
        let b = de.deserialize_bool().unwrap();
        de.seq_element_end().unwrap();
        assert!(de.seq_next().unwrap());
        let n = read_i32(de);
        de.seq_element_end().unwrap();
        assert!(de.seq_next().unwrap());
        de.seq_start().unwrap();
        assert!(de.seq_next().unwrap());
        let unit = de.deserialize_unit().unwrap();
        de.seq_element_end().unwrap();
        assert!(de.seq_next().unwrap());
        let units = read_elements(de, |de| de.deserialize_unit().unwrap());
        de.seq_element_end().unwrap();
        assert!(!de.seq_next().unwrap());
        de.seq_end().unwrap();
        de.seq_element_end().unwrap();
        assert!(!de.seq_next().unwrap());
        de.seq_end().unwrap();
        (b, n, (unit, units))
    });
    assert_eq!(natural, (false, 1, ((), vec![()])));
}

#[test]
fn test_roundtrip_map() {
    let target = HashMap::from([("foo", "bar"), ("baz", "qux")]);
    let jsonc = minified(|ser| {
        write_members(
            ser,
            target.clone().into_iter().collect(),
            |ser, k| MapKeySerializer::new().serialize_str(ser, k),
            |ser, v| ser.serialize_str(v),
        )
    });
    assert!(jsonc == r#"{"foo":"bar","baz":"qux"}"# || jsonc == r#"{"baz":"qux","foo":"bar"}"#);
    let foobar: HashMap<&str, &str> = from_str_with(&jsonc, |de| read_members(de, read_str, read_str)).into_iter().collect();
    assert_eq!(foobar, target);

    let target = BTreeMap::from([("one", 1), ("two", 2), ("three", 3)]);
    let jsonc = minified(|ser| {
        write_members(
            ser,
            target.clone().into_iter().collect(),
            |ser, k| MapKeySerializer::new().serialize_str(ser, k),
            |ser, v| ser.serialize_number(v),
        )
    });
    assert_eq!(jsonc, r#"{"one":1,"three":3,"two":2}"#);
    let ott: BTreeMap<&str, i32> = from_str_with(&jsonc, |de| read_members(de, read_str, read_i32)).into_iter().collect();
    assert_eq!(ott, target);
}

#[test]
fn test_roundtrip_option() {
    let write_option = |target: Option<i32>| {
        minified(|ser| match target {
            Some(n) => ser.serialize_number(n),
            None => ser.serialize_unit(),
        })
    };
    let read_option = |de: &mut De<'_>| if de.option_is_null().unwrap() { None } else { Some(read_i32(de)) };

    let target = Some(42);
    let jsonc = write_option(target);
    assert_eq!(jsonc, "42");
    assert_eq!(from_str_with(&jsonc, read_option), target);

    let target = None;
    let jsonc = write_option(target);
    assert_eq!(jsonc, "null");
    assert_eq!(from_str_with(&jsonc, read_option), target);
}

#[test]
fn reread_of_written_value_gives_value_read() {
    let text = r#"
    // a configuration
    {
        "name": "jsonc", /* the name */
        "version": [1, 2.50, -3e+2,],
        "nested": {"a": null, "b": true, "a": "\u00e9\n",},
    }"#;
    let value = value_from_str(text).unwrap();
    let compact = value_to_string(&value).unwrap();
    assert_eq!(compact, "{\"name\":\"jsonc\",\"version\":[1,2.50,-3e+2],\"nested\":{\"a\":\"é\\n\",\"b\":true}}");
    assert_eq!(value_from_str(&compact).unwrap(), value);
    let pretty = value_to_string_pretty(&value).unwrap();
    assert_eq!(value_from_str(&pretty).unwrap(), value);
}

#[test]
fn strings_with_quotes_read_back() {
    let mut map = MapImpl::new();
    map.insert("say \"hi\"".to_string(), JsoncValue::String("\"".to_string()));
    map.insert("path".to_string(), JsoncValue::String("a\\\"b\n".to_string()));
    let value = JsoncValue::Object(map);
    let compact = value_to_string(&value).unwrap();
    assert_eq!(compact, r#"{"say \"hi\"":"\"","path":"a\\\"b\n"}"#);
    assert_eq!(value_from_str(&compact).unwrap(), value);
    let pretty = value_to_string_pretty(&value).unwrap();
    assert_eq!(value_from_str(&pretty).unwrap(), value);
    let read = value_from_str(r#"["\"", "x\"y"]"#).unwrap();
    assert_eq!(value_from_str(&value_to_string(&read).unwrap()).unwrap(), read);
}

#[test]
fn exponent_without_digits_is_no_number() {
    let err = json_with_comments::de::value_from_slice(b"1e+").unwrap_err();
    assert_eq!(
        err.into_inner(),
        ErrorKind::Semantic(json_with_comments::error::SemanticError::InvalidNumber { pos: (0, 0), rep: "1e+".to_string() })
    );
    let err = value_from_str("[2.5E-]").unwrap_err();
    assert_eq!(
        err.into_inner(),
        ErrorKind::Semantic(json_with_comments::error::SemanticError::InvalidNumber { pos: (0, 1), rep: "2.5E-".to_string() })
    );
    assert_eq!(value_from_str("1e+2").unwrap(), JsoncValue::Number(Number::Float("1e+2".to_string())));
}
