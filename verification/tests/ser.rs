use json_with_comments::de::value_from_str;
use json_with_comments::ser::access::jsonc::JsoncSerializer;
use json_with_comments::ser::access::map::{MapKeySerializer, MapSerializer};
use json_with_comments::ser::access::seq::SeqSerializer;
use json_with_comments::ser::access::variant::{Delegate, EnumSerializer};
use json_with_comments::ser::formatter::JsoncFormatter;
use json_with_comments::ser::formatter::minify::MinifyFormatter;
use json_with_comments::ser::formatter::pretty::PrettyFormatter;
use json_with_comments::ser::{value_to_string, value_to_string_pretty};

#[test]
fn minify_value() {
    let v = value_from_str(r#"{ "name": "Japan", "code": 81, "regions": ["Hokkaido", "Kanto",], "f": 1.5e3, "n": null, "b": false }"#)
        .unwrap();
    assert_eq!(
        value_to_string(&v).unwrap(),
        r#"{"name":"Japan","code":81,"regions":["Hokkaido","Kanto"],"f":1.5e3,"n":null,"b":false}"#
    );
}

#[test]
fn pretty_value() {
    let v = value_from_str(r#"{"name": "Japan", "code": 81, "regions": ["Hokkaido", "Kanto", "Kyushu-Okinawa"]}"#).unwrap();
    let pretty = r#"{
  "name": "Japan",
  "code": 81,
  "regions": [
    "Hokkaido",
    "Kanto",
    "Kyushu-Okinawa",
  ],
}"#;
    assert_eq!(value_to_string_pretty(&v).unwrap(), pretty);
}

#[test]
fn empty_containers() {
    assert_eq!(value_to_string(&value_from_str("[]").unwrap()).unwrap(), "[]");
    assert_eq!(value_to_string(&value_from_str("{}").unwrap()).unwrap(), "{}");
    assert_eq!(value_to_string_pretty(&value_from_str("[]").unwrap()).unwrap(), "[\n]");
}

#[test]
fn string_escapes() {
    let mut ser = JsoncSerializer::new(Vec::new(), MinifyFormatter);
    ser.serialize_str("a\\b\n\t\u{1}\u{7f}\u{85}é/\"");
    assert_eq!(String::from_utf8(ser.into_inner()).unwrap(), "\"a\\\\b\\n\\t\\u0001\\u007F\\u0085é/\\\"\"");
}

#[test]
fn numbers_in_decimal() {
    let mut ser = JsoncSerializer::new(Vec::new(), PrettyFormatter::new());
    ser.serialize_number(-170141183460469231731687303715884105728i128);
    ser.serialize_number(u128::MAX);
    ser.serialize_number(0u8);
    assert_eq!(
        String::from_utf8(ser.into_inner()).unwrap(),
        "-170141183460469231731687303715884105728340282366920938463463374607431768211455" .to_string() + "0"
    );
}

#[test]
fn roundtrip_value() {
    let text = r#"{"event":"party\u0F12\nhappy new year🎉","members":[{"name":"json","adult":true,"height":1.7}],"empty":[]}"#;
    let v = value_from_str(text).unwrap();
    let again = value_from_str(&value_to_string(&v).unwrap()).unwrap();
    assert_eq!(v, again);
    let pretty = value_from_str(&value_to_string_pretty(&v).unwrap()).unwrap();
    assert_eq!(v, pretty);
}

fn minified(write: impl FnOnce(&mut JsoncSerializer<MinifyFormatter>)) -> String {
    let mut ser = JsoncSerializer::new(Vec::new(), MinifyFormatter);
    write(&mut ser);
    String::from_utf8(ser.into_inner()).unwrap()
}

fn prettified(write: impl FnOnce(&mut JsoncSerializer<PrettyFormatter>)) -> String {
    let mut ser = JsoncSerializer::new(Vec::new(), PrettyFormatter::new());
    write(&mut ser);
    String::from_utf8(ser.into_inner()).unwrap()
}

fn write_elements<F: JsoncFormatter, T>(ser: &mut JsoncSerializer<F>, items: Vec<T>, mut write: impl FnMut(&mut JsoncSerializer<F>, T)) {
    let mut seq = SeqSerializer::start(ser, Some(items.len()));
    for item in items {
        seq.element_start(ser);
        write(ser, item);
        seq.element_end(ser);
    }
    seq.end(ser);
}

fn write_members<F: JsoncFormatter, V>(ser: &mut JsoncSerializer<F>, members: Vec<(&str, V)>, mut write: impl FnMut(&mut JsoncSerializer<F>, V)) {
    let mut map = MapSerializer::start(ser, Some(members.len()));
    for (key, value) in members {
        map.key_start(ser);
        MapKeySerializer::new().serialize_str(ser, key);
        map.key_end(ser);
        write(ser, value);
        map.value_end(ser);
    }
    map.end(ser);
}

fn float_text(f: f64) -> String {
    ryu::Buffer::new().format(f).to_string()
}

#[test]
fn test_serialize_literal() {
    assert_eq!(minified(|ser| ser.serialize_unit()), "null");
    assert_eq!(minified(|ser| ser.serialize_bool(false)), "false");
    assert_eq!(minified(|ser| ser.serialize_bool(true)), "true");
}

#[test]
fn test_serialize_string() {
    assert_eq!(minified(|ser| ser.serialize_str("str")), r#""str""#);
    assert_eq!(minified(|ser| ser.serialize_str(&"string".to_string())), r#""string""#);

    assert_eq!(minified(|ser| ser.serialize_str("linefeed\n")), r#""linefeed\n""#);
    assert_eq!(minified(|ser| ser.serialize_str("linefeed\u{000A}")), r#""linefeed\n""#);
    assert_eq!(minified(|ser| ser.serialize_str("null\u{0000}")), r#""null\u0000""#);
    assert_eq!(minified(|ser| ser.serialize_str("del\u{007f}")), r#""del\u007F""#);
}

#[test]
fn test_serialize_number() {
    assert_eq!(minified(|ser| ser.serialize_number(123)), "123");
    assert_eq!(minified(|ser| ser.serialize_number(float_text(123.45))), "123.45");
    assert_eq!(minified(|ser| ser.serialize_number(-119)), "-119");
    assert_eq!(minified(|ser| ser.serialize_number(float_text(100.0))), "100.0");
    assert_eq!(minified(|ser| ser.serialize_number(float_text(6.02214076E23))), "6.02214076e23");
    assert_eq!(minified(|ser| ser.serialize_number(float_text(0.0000000000000001))), "1e-16");
}

#[test]
fn test_serialize_seq() {
    assert_eq!(minified(|ser| write_elements(ser, vec![1, 2, 3], |ser, n| ser.serialize_number(n))), "[1,2,3]");
    assert_eq!(minified(|ser| write_elements(ser, vec!["str", "string"], |ser, s| ser.serialize_str(s))), r#"["str","string"]"#);
    assert_eq!(
        minified(|ser| write_elements(ser, vec![vec![], vec![false], vec![true, false]], |ser, v| {
            write_elements(ser, v, |ser, b| ser.serialize_bool(b))
        })),
        "[[],[false],[true,false]]"
    );

    assert_eq!(
        minified(|ser| {
            let mut seq = SeqSerializer::start(ser, Some(3));
            seq.element_start(ser);
            ser.serialize_unit();
            seq.element_end(ser);
            seq.element_start(ser);
            ser.serialize_bool(true);
            seq.element_end(ser);
            seq.element_start(ser);
            ser.serialize_number(2);
            seq.element_end(ser);
            seq.end(ser);
        }),
        "[null,true,2]"
    );
    assert_eq!(
        minified(|ser| {
            let mut seq = SeqSerializer::start(ser, Some(3));
            seq.element_start(ser);
            ser.serialize_unit();
            seq.element_end(ser);
            seq.element_start(ser);
            ser.serialize_bool(true);
            seq.element_end(ser);
            seq.element_start(ser);
            let mut inner = SeqSerializer::start(ser, Some(2));
            inner.element_start(ser);
            ser.serialize_unit();
            inner.element_end(ser);
            inner.element_start(ser);
            write_elements(ser, vec![()], |ser, ()| ser.serialize_unit());
            inner.element_end(ser);
            inner.end(ser);
            seq.element_end(ser);
            seq.end(ser);
        }),
        "[null,true,[null,[null]]]"
    );
    assert_eq!(
        minified(|ser| {
            let mut seq = SeqSerializer::start(ser, Some(3));
            seq.element_start(ser);
            ser.serialize_bool(false);
            seq.element_end(ser);
            seq.element_start(ser);
            ser.serialize_number(1);
            seq.element_end(ser);
            seq.element_start(ser);
            ser.serialize_str("two");
            seq.element_end(ser);
            seq.end(ser);
        }),
        r#"[false,1,"two"]"#
    );
}

#[test]
fn test_serialize_pretty() {
    assert_eq!(
        prettified(|ser| write_elements(ser, vec!["string", "string", "string", "string", "string", "string"], |ser, s| {
            ser.serialize_str(s)
        })),
        [
            r#"["#,
            r#"  "string","#,
            r#"  "string","#,
            r#"  "string","#,
            r#"  "string","#,
            r#"  "string","#,
            r#"  "string","#,
            r#"]"#
        ]
        .join("\n")
    );

    assert_eq!(
        prettified(|ser| {
            let mut seq = SeqSerializer::start(ser, Some(5));
            seq.element_start(ser);
            ser.serialize_unit();
            seq.element_end(ser);
            seq.element_start(ser);
            ser.serialize_number(1);
            seq.element_end(ser);
            seq.element_start(ser);
            ser.serialize_str("two");
            seq.element_end(ser);
            seq.element_start(ser);
            write_members(ser, vec![("hoge", vec![("fuga", "piyo")])], |ser, inner| {
                write_members(ser, inner, |ser, s| ser.serialize_str(s))
            });
            seq.element_end(ser);
            seq.element_start(ser);
            write_elements(ser, vec![true, false], |ser, b| ser.serialize_bool(b));
            seq.element_end(ser);
            seq.end(ser);
        }),
        [
            r#"["#,
            r#"  null,"#,
            r#"  1,"#,
            r#"  "two","#,
            r#"  {"#,
            r#"    "hoge": {"#,
            r#"      "fuga": "piyo","#,
            r#"    },"#,
            r#"  },"#,
            r#"  ["#,
            r#"    true,"#,
            r#"    false,"#,
            r#"  ],"#,
            r#"]"#,
        ]
        .join("\n")
    );
}

fn write_tuple_variant<F: JsoncFormatter>(ser: &mut JsoncSerializer<F>, variant: &str, fields: Vec<i64>) {
    let e = EnumSerializer::start_tuple_variant(ser, variant, fields.len());
    match e.into_delegate() {
        Delegate::Tuple(mut seq) => {
            for f in fields {
                seq.element_start(ser);
                ser.serialize_number(f);
                seq.element_end(ser);
            }
            seq.end(ser);
            ser.write_object_end();
        }
        Delegate::Struct(_) => unreachable!(),
    }
}

fn write_struct<F: JsoncFormatter>(ser: &mut JsoncSerializer<F>, fields: Vec<(&str, Field)>) {
    let mut map = MapSerializer::start(ser, Some(fields.len()));
    for (key, value) in fields {
        map.key_start(ser);
        MapKeySerializer::new().serialize_str(ser, key);
        map.key_end(ser);
        value.write(ser);
        map.value_end(ser);
    }
    map.end(ser);
}

enum Field {
    Int(i64),
    Str(&'static str),
    Bool(bool),
    Null,
    Struct(Vec<(&'static str, Field)>),
}

impl Field {
    fn write<F: JsoncFormatter>(self, ser: &mut JsoncSerializer<F>) {
        match self {
            Field::Int(i) => ser.serialize_number(i),
            Field::Str(s) => ser.serialize_str(s),
            Field::Bool(b) => ser.serialize_bool(b),
            Field::Null => ser.serialize_unit(),
            Field::Struct(fields) => write_struct(ser, fields),
        }
    }
}

#[test]
fn test_serialize_map() {
    assert_eq!(minified(|ser| write_struct(ser, vec![])), "{}");
    assert_eq!(minified(|ser| write_struct(ser, vec![("key", Field::Str("value"))])), r#"{"key":"value"}"#);
    assert_eq!(
        minified(|ser| write_struct(
            ser,
            vec![("map1", Field::Struct(vec![("map2", Field::Struct(vec![("map3", Field::Struct(vec![("nest", Field::Int(3))]))]))]))]
        )),
        r#"{"map1":{"map2":{"map3":{"nest":3}}}}"#
    );
    assert_eq!(
        minified(|ser| write_struct(
            ser,
            vec![
                ("data", Field::Int(1)),
                (
                    "next",
                    Field::Struct(vec![
                        ("data", Field::Int(2)),
                        ("next", Field::Struct(vec![("data", Field::Int(3)), ("next", Field::Null)]))
                    ])
                )
            ]
        )),
        r#"{"data":1,"next":{"data":2,"next":{"data":3,"next":null}}}"#
    );
}

#[test]
fn test_serialize_struct() {
    assert_eq!(minified(|ser| ser.serialize_unit()), "null");
    assert_eq!(minified(|ser| write_elements(ser, vec![1, 2], |ser, n| ser.serialize_number(n))), "[1,2]");
    assert_eq!(
        minified(|ser| write_elements(ser, vec![vec![1, 2], vec![3, 4]], |ser, v| {
            write_elements(ser, v, |ser, n| ser.serialize_number(n))
        })),
        "[[1,2],[3,4]]"
    );
    assert_eq!(
        minified(|ser| write_struct(ser, vec![("name", Field::Str("Alice")), ("age", Field::Null)])),
        r#"{"name":"Alice","age":null}"#
    );
    assert_eq!(
        minified(|ser| write_struct(ser, vec![("name", Field::Str("Bob")), ("age", Field::Int(42))])),
        r#"{"name":"Bob","age":42}"#
    );
}

#[test]
fn test_serialize_enum() {
    let newtype = |variant: &'static str, n: i64| {
        minified(move |ser| {
            EnumSerializer::start_newtype_variant(ser, variant);
            ser.serialize_number(n);
            EnumSerializer::end_newtype_variant(ser);
        })
    };
    assert_eq!(newtype("D1", 3), r#"{"D1":3}"#);
    assert_eq!(minified(|ser| write_tuple_variant(ser, "D2", vec![3, 5])), r#"{"D2":[3,5]}"#);
    assert_eq!(minified(|ser| write_tuple_variant(ser, "D3", vec![3, 5, 7])), r#"{"D3":[3,5,7]}"#);

    assert_eq!(minified(|ser| ser.serialize_str("Unit")), r#""Unit""#);
    assert_eq!(
        minified(|ser| {
            let e = EnumSerializer::start_tuple_variant(ser, "Tuple", 3);
            match e.into_delegate() {
                Delegate::Tuple(mut seq) => {
                    seq.element_start(ser);
                    ser.serialize_number(1usize as u64);
                    seq.element_end(ser);
                    seq.element_start(ser);
                    ser.serialize_number(-2isize as i64);
                    seq.element_end(ser);
                    seq.element_start(ser);
                    ser.serialize_str("three");
                    seq.element_end(ser);
                    seq.end(ser);
                    ser.write_object_end();
                }
                Delegate::Struct(_) => unreachable!(),
            }
        }),
        r#"{"Tuple":[1,-2,"three"]}"#
    );
    assert_eq!(
        minified(|ser| {
            let e = EnumSerializer::start_struct_variant(ser, "Struct", 3);
            match e.into_delegate() {
                Delegate::Struct(mut map) => {
                    for (key, value) in [("num", Field::Int(1)), ("text", Field::Str("two")), ("bool", Field::Bool(true))] {
                        map.key_start(ser);
                        MapKeySerializer::new().serialize_str(ser, key);
                        map.key_end(ser);
                        value.write(ser);
                        map.value_end(ser);
                    }
                    map.end(ser);
                    ser.write_object_end();
                }
                Delegate::Tuple(_) => unreachable!(),
            }
        }),
        r#"{"Struct":{"num":1,"text":"two","bool":true}}"#
    );
}

#[test]
fn pretty_indent_follows_open_arrays_and_objects() {
    let mut f = PrettyFormatter::new();
    let mut out = Vec::new();
    assert_eq!(f.indent(), b"");
    f.write_array_start(&mut out);
    f.write_object_start(&mut out);
    assert_eq!(f.indent(), b"    ");
    f.write_object_end(&mut out);
    assert_eq!(f.indent(), b"  ");
    f.write_array_end(&mut out);
    assert_eq!(f.indent(), b"");
    assert_eq!(out, b"[\n{\n  }]");
}

#[test]
fn serializer_reports_room_and_closing() {
    let mut ser = JsoncSerializer::new(Vec::new(), PrettyFormatter::new());
    assert_eq!(ser.room(), usize::MAX / 2);
    assert!(!ser.can_close());
    ser.write_array_start();
    assert_eq!(ser.room(), usize::MAX / 2 - 1);
    assert!(ser.can_close());
    assert!(ser.can_close_after_value(0, Some(1)));
    let compact = JsoncSerializer::new(Vec::new(), MinifyFormatter);
    assert_eq!(compact.room(), usize::MAX);
    assert!(compact.can_close());
}
