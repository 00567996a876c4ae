use json_with_comments::error::ConvertError;
use json_with_comments::value::de::number::FromNumber;
use json_with_comments::value::ser::number::ToNumber;
use json_with_comments::value::ser::serializer::ValueSerializer;
use json_with_comments::error::SemanticError;
use json_with_comments::value::ser::map::ValueMapKeySerializer;
use json_with_comments::de::value_from_str;
use json_with_comments::ser::value_to_vec;
use json_with_comments::de::value_from_slice;
use json_with_comments::value::number::Number;
use json_with_comments::error::{ErrorKind, InvalidRepresentsValue};
use json_with_comments::value::{JsoncValue, MapImpl};

fn readme() -> JsoncValue {
    value_from_str(
        r#"{
    "name": "John Doe", // John Doe is a fictional character
    "address": {
        "street": "Main",
        "number": 42, /* trailing comma */
    },
}"#,
    )
    .unwrap()
}

#[test]
fn readme_access() {
    let data = readme();
    assert_eq!(data.get("name"), Some(&JsoncValue::String("John Doe".into())));
    assert_eq!(
        data.get("address").unwrap().get("street"),
        Some(&JsoncValue::String("Main".into()))
    );
    assert_eq!(data.query("address.number"), Some(&JsoncValue::Number(Number::Integer(42))));
    assert_eq!(data.query("address.missing"), None);
    assert_eq!(data.query("name.0"), None);
}

#[test]
fn query_into_arrays() {
    let data = value_from_str(r#"{"keywords": ["JSON with comments", "JSONC", "trailing comma"]}"#).unwrap();
    assert_eq!(data.query("keywords.1"), Some(&JsoncValue::String("JSONC".into())));
    assert_eq!(data.query("keywords.3"), None);
    assert_eq!(data.query("keywords.x"), None);
    assert_eq!(data.query("keywords").unwrap().as_array().unwrap().len(), 3);
}

fn keywords() -> JsoncValue {
    value_from_str(
        r#"{
    "name": "json-with-comments",
    "keywords": [
        "JSON with comments",
        "JSONC",
        "trailing comma",
    ],
}"#,
    )
    .unwrap()
}

fn keywords_with(name: JsoncValue, words: [&str; 3]) -> JsoncValue {
    object(vec![
        ("name", name),
        ("keywords", JsoncValue::Array(words.iter().map(|w| JsoncValue::from(w.to_string())).collect())),
    ])
}

#[test]
fn take_swap_replace() {
    let mut value = keywords();
    let name = value.get_mut("name").unwrap().take();
    assert_eq!(name, JsoncValue::from("json-with-comments".to_string()));
    assert_eq!(value, keywords_with(JsoncValue::Null, ["JSON with comments", "JSONC", "trailing comma"]));

    let mut value = keywords();
    let mut lower = JsoncValue::from("jsonc".to_string());
    value.get_mut("keywords").unwrap().get_mut(1).unwrap().swap(&mut lower);
    assert_eq!(lower, JsoncValue::from("JSONC".to_string()));
    assert_eq!(
        value,
        keywords_with(JsoncValue::from("json-with-comments".to_string()), ["JSON with comments", "jsonc", "trailing comma"])
    );

    let mut value = keywords();
    let upper = JsoncValue::from("JSON WITH COMMENTS".to_string());
    let original = value.get_mut("keywords").unwrap().get_mut(0).unwrap().replace(upper);
    assert_eq!(original, JsoncValue::from("JSON with comments".to_string()));
    assert_eq!(
        value,
        keywords_with(JsoncValue::from("json-with-comments".to_string()), ["JSON WITH COMMENTS", "JSONC", "trailing comma"])
    );
}

#[test]
fn value_types() {
    assert_eq!(value_from_str(r#"{"key": "value"}"#).unwrap().value_type(), "Object");
    assert_eq!(value_from_str("[1, 2, 3]").unwrap().value_type(), "Array");
    assert_eq!(value_from_str("true").unwrap().value_type(), "Boolean");
    assert_eq!(value_from_str("null").unwrap().value_type(), "Null");
    assert_eq!(value_from_str(r#""string""#).unwrap().value_type(), "String");
    assert_eq!(value_from_str("123").unwrap().value_type(), "Number");
    assert_eq!(value_from_str("123.45").unwrap().value_type(), "Number");
}

#[test]
fn accessors() {
    let v = value_from_str(r#"[{}, [], true, null, "s", 1, 1.5]"#).unwrap();
    let a = v.as_array().unwrap();
    assert!(a[0].is_object() && a[0].as_object().unwrap().is_empty());
    assert!(a[1].is_array() && a[1].as_array().unwrap().is_empty());
    assert_eq!(a[2].as_bool(), Some(&true));
    assert_eq!(a[3].as_null(), Some(()));
    assert_eq!(a[4].as_str(), Some("s"));
    assert_eq!(a[5].as_integer(), Some(&1));
    assert_eq!(a[6].as_float(), Some(&"1.5".to_string()));
    assert!(a[5].is_number() && a[5].is_integer() && !a[5].is_float());
    assert!(a[6].is_number() && a[6].is_float());
    assert_eq!(v.get(4), Some(&JsoncValue::String("s".into())));
    assert_eq!(v.get(7), None);
    assert!(!a[4].is_null() && !a[4].is_bool());
}

#[test]
fn map_insert_then_get() {
    let mut m: MapImpl<i32> = MapImpl::new();
    assert_eq!(m.insert("a".into(), 1), None);
    assert_eq!(m.insert("b".into(), 2), None);
    assert_eq!(m.insert("a".into(), 3), Some(1));
    assert_eq!(m.get("a"), Some(&3));
    assert_eq!(m.get("b"), Some(&2));
    assert_eq!(m.get("c"), None);
    assert!(m.contains_key("b"));
    assert_eq!(m.len(), 2);
    assert_eq!(m.entries()[0].0, "a");
    assert_eq!(m.entries()[1].0, "b");
}

#[test]
fn reread_written_value() {
    for text in [
        r#"{"a":[1,-2,0,{"b":null}],"c":"x\ny\u0001","d":6.02214076e23,"e":true}"#,
        "[]",
        "{}",
        r#""\u0085 \\ /""#,
        "-9223372036854775808",
    ] {
        let v = value_from_str(text).unwrap();
        let bytes = value_to_vec(&v);
        assert_eq!(value_from_slice(&bytes).unwrap(), v);
    }
}

fn object(members: Vec<(&str, JsoncValue)>) -> JsoncValue {
    JsoncValue::from(map(members))
}

fn map(members: Vec<(&str, JsoncValue)>) -> MapImpl<JsoncValue> {
    let mut m = MapImpl::new();
    for (k, v) in members {
        m.insert(k.to_string(), v);
    }
    m
}

fn string(s: &str) -> JsoncValue {
    JsoncValue::from(s.to_string())
}

fn package() -> JsoncValue {
    object(vec![
        ("name", string("json-with-comments")),
        ("keywords", JsoncValue::from(vec![string("JSON with comments"), string("parser"), string("serde")])),
    ])
}

#[test]
fn test_index_and_get() {
    let value = package();
    assert_eq!(value.get("name").unwrap(), &JsoncValue::String("json-with-comments".to_string()));
    assert_eq!(value.get("keywords").unwrap().get(0).unwrap(), &JsoncValue::String("JSON with comments".to_string()));

    assert_eq!(value.get("name"), Some(&JsoncValue::String("json-with-comments".to_string())));
    assert_eq!(value.get("version"), None);
    assert_eq!(value.get("keywords").and_then(|k| k.get(1)), Some(&JsoncValue::String("parser".to_string())));
    assert_eq!(value.get("keywords").and_then(|k| k.get(100)), None);
    assert_eq!(value.get("keywords").and_then(|k| k.get("one")), None);
}

#[test]
fn test_index_mut_and_get_mut() {
    let mut value = package();

    *value.get_mut("name").unwrap() = JsoncValue::String("JSON with comments".to_string());
    *value.get_mut("keywords").unwrap().get_mut(0).unwrap() =
        JsoncValue::Array(vec![string("JSON"), string("with"), string("comments")]);
    assert_eq!(
        value,
        object(vec![
            ("name", string("JSON with comments")),
            (
                "keywords",
                JsoncValue::from(vec![
                    JsoncValue::from(vec![string("JSON"), string("with"), string("comments")]),
                    string("parser"),
                    string("serde"),
                ])
            ),
        ])
    );

    value.get_mut("keywords").unwrap().get_mut(0).unwrap().as_array_mut().unwrap().push(string("!"));
    assert_eq!(
        value,
        object(vec![
            ("name", string("JSON with comments")),
            (
                "keywords",
                JsoncValue::from(vec![
                    JsoncValue::from(vec![string("JSON"), string("with"), string("comments"), string("!")]),
                    string("parser"),
                    string("serde"),
                ])
            ),
        ])
    );
}

#[test]
fn test_nested_index_and_nested_get() {
    let value = object(vec![(
        "object1",
        object(vec![("object2", object(vec![("array", JsoncValue::from(vec![JsoncValue::from(false), JsoncValue::from(true)]))]))]),
    )]);
    assert_eq!(
        value.get("object1").unwrap().get("object2").unwrap().get("array").unwrap().get(1).unwrap(),
        &JsoncValue::Bool(true)
    );
    assert_eq!(
        ["object1", "object2", "array"].iter().fold(&value, |val, &key| val.get(key).unwrap()),
        &JsoncValue::Array(vec![JsoncValue::Bool(false), JsoncValue::Bool(true)])
    );

    assert_eq!(
        ["object1", "object2", "array"].iter().try_fold(&value, |val, &key| val.get(key)),
        Some(&JsoncValue::Array(vec![JsoncValue::Bool(false), JsoncValue::Bool(true)]))
    );
}

#[test]
#[should_panic]
fn test_index_unmatched_type() {
    let value = object(vec![("version", JsoncValue::from(1i64))]);
    _ = value.get(1).unwrap();
}

#[test]
#[should_panic]
fn test_index_number_by_number() {
    let value = object(vec![("version", JsoncValue::from(1i64))]);
    _ = value.get("version").unwrap().get(3).unwrap();
}

fn kinds(v: &JsoncValue) -> [bool; 8] {
    [v.is_object(), v.is_array(), v.is_bool(), v.is_null(), v.is_string(), v.is_number(), v.is_integer(), v.is_float()]
}

fn views(v: &JsoncValue) -> [bool; 8] {
    [
        v.as_object().is_some(),
        v.as_array().is_some(),
        v.as_bool().is_some(),
        v.as_null().is_some(),
        v.as_str().is_some(),
        v.as_number().is_some(),
        v.as_integer().is_some(),
        v.as_float().is_some(),
    ]
}

#[test]
fn test_value_as_object() {
    let mut v: JsoncValue = r#"{ "null": null }"#.parse().unwrap();
    assert_eq!(kinds(&v), [true, false, false, false, false, false, false, false]);
    assert_eq!(views(&v), [true, false, false, false, false, false, false, false]);
    assert_eq!(v.as_object().unwrap(), &map(vec![("null", JsoncValue::Null)]));

    let muted = {
        let mv = v.as_object_mut().unwrap();
        *mv.get_mut(&"null".to_string()).unwrap() = string("null");
        mv.insert("key".to_string(), string("value"));
        assert_eq!(mv, &mut map(vec![("null", string("null")), ("key", string("value"))]));
        mv.clone()
    };

    let owned_map: MapImpl<JsoncValue> = v.try_into().unwrap();
    assert_eq!(muted, owned_map);
}

#[test]
fn test_value_as_array() {
    let mut v: JsoncValue = r#"[ null, "null", false, 123, 3.14 ]"#.parse().unwrap();
    assert_eq!(kinds(&v), [false, true, false, false, false, false, false, false]);
    assert_eq!(views(&v), [false, true, false, false, false, false, false, false]);
    assert_eq!(
        v.as_array().unwrap(),
        &[
            JsoncValue::Null,
            JsoncValue::String("null".to_string()),
            JsoncValue::Bool(false),
            JsoncValue::Number(Number::Integer(123)),
            JsoncValue::Number(Number::Float("3.14".to_string())),
        ]
    );

    let muted = {
        let mv = v.as_array_mut().unwrap();
        *mv.get_mut(0).unwrap() = string("null");
        mv.remove(1);
        assert_eq!(
            mv,
            &mut [
                JsoncValue::String("null".to_string()),
                JsoncValue::Bool(false),
                JsoncValue::Number(Number::Integer(123)),
                JsoncValue::Number(Number::Float("3.14".to_string())),
            ]
        );
        mv.clone()
    };

    let owned_vec: Vec<JsoncValue> = v.try_into().unwrap();
    assert_eq!(muted, owned_vec);
}

#[test]
fn test_value_as_boolean() {
    let mut v: JsoncValue = r#"false"#.parse().unwrap();
    assert_eq!(kinds(&v), [false, false, true, false, false, false, false, false]);
    assert_eq!(views(&v), [false, false, true, false, false, false, false, false]);
    assert_eq!(v.as_bool().unwrap(), &false);

    let muted = {
        let mv = v.as_bool_mut().unwrap();
        *mv = true;
        assert_eq!(mv, &mut true);
        *mv
    };

    let owned_bool: bool = v.try_into().unwrap();
    assert_eq!(muted, owned_bool);
}

#[test]
fn test_value_as_null() {
    let v: JsoncValue = r#"null"#.parse().unwrap();
    assert_eq!(kinds(&v), [false, false, false, true, false, false, false, false]);
    assert_eq!(views(&v), [false, false, false, true, false, false, false, false]);
    assert_eq!(v.as_null().unwrap(), ());

    let owned_null: () = v.try_into().unwrap();
    assert_eq!(owned_null, ());
}

#[test]
fn test_value_as_number() {
    let mut v: JsoncValue = "123".parse().unwrap();
    assert_eq!(kinds(&v), [false, false, false, false, false, true, true, false]);
    assert_eq!(views(&v), [false, false, false, false, false, true, true, false]);
    assert_eq!(v.as_number().unwrap(), &Number::Integer(123));

    let muted = {
        let mv = v.as_number_mut().unwrap();
        *mv = Number::Float("3.14".to_string());
        assert_eq!(mv, &Number::Float("3.14".to_string()));
        mv.clone()
    };

    let owned_number: Number<i64, String> = v.clone().try_into().unwrap();
    assert_eq!(muted, owned_number);

    assert_eq!(kinds(&v), [false, false, false, false, false, true, false, true]);
    assert_eq!(views(&v), [false, false, false, false, false, true, false, true]);
}

#[test]
fn value_as_string_and_mutable_views() {
    let mut v: JsoncValue = r#""str""#.parse().unwrap();
    assert_eq!(kinds(&v), [false, false, false, false, true, false, false, false]);
    assert_eq!(views(&v), [false, false, false, false, true, false, false, false]);
    assert_eq!(v.as_str().unwrap(), "str");
    v.as_str_mut().unwrap().make_ascii_uppercase();
    assert_eq!(v.as_str(), Some("STR"));
    let owned: String = v.try_into().unwrap();
    assert_eq!(owned, "STR");

    let mut n = JsoncValue::from(7i64);
    *n.as_integer_mut().unwrap() += 1;
    assert_eq!(n, JsoncValue::from(8i64));
    assert!(n.as_float_mut().is_none() && n.as_bool_mut().is_none() && n.as_object_mut().is_none());

    let mut f: JsoncValue = "1.5".parse().unwrap();
    f.as_float_mut().unwrap().push('0');
    assert_eq!(f, JsoncValue::Number(Number::Float("1.50".to_string())));
}

#[test]
fn taking_a_value_as_another_kind_fails() {
    let v = JsoncValue::from(true);
    let err = String::try_from(v).unwrap_err();
    assert_eq!(err.into_inner(), ErrorKind::InvalidRepresents(InvalidRepresentsValue::ShouldString));
    let err = MapImpl::<JsoncValue>::try_from(JsoncValue::Null).unwrap_err();
    assert_eq!(err.into_inner(), ErrorKind::InvalidRepresents(InvalidRepresentsValue::ShouldObject));
    let err = Vec::<JsoncValue>::try_from(JsoncValue::Null).unwrap_err();
    assert_eq!(err.into_inner(), ErrorKind::InvalidRepresents(InvalidRepresentsValue::ShouldArray));
    let err = bool::try_from(JsoncValue::Null).unwrap_err();
    assert_eq!(err.into_inner(), ErrorKind::InvalidRepresents(InvalidRepresentsValue::ShouldBool));
    let err = <()>::try_from(JsoncValue::Bool(false)).unwrap_err();
    assert_eq!(err.into_inner(), ErrorKind::InvalidRepresents(InvalidRepresentsValue::ShouldNull));
    let err = Number::<i64, String>::try_from(JsoncValue::Null).unwrap_err();
    assert_eq!(err.into_inner(), ErrorKind::InvalidRepresents(InvalidRepresentsValue::ShouldNumber));
    assert_eq!(JsoncValue::from(()), JsoncValue::Null);
    assert_eq!(JsoncValue::from(Number::Integer(3)), JsoncValue::Number(Number::Integer(3)));
    assert_eq!(i64::try_from(JsoncValue::from(-7i64)).unwrap(), -7);
    let float: JsoncValue = "1.5".parse().unwrap();
    let err = i64::try_from(float).unwrap_err();
    assert_eq!(err.into_inner(), ErrorKind::InvalidRepresents(InvalidRepresentsValue::ShouldNumber));
}

#[test]
fn integers_to_and_from_numbers() {

    assert_eq!(200u8.to_number().unwrap(), Number::Integer(200));
    assert_eq!((-5i128).to_number().unwrap(), Number::Integer(-5));
    assert_eq!(
        u64::MAX.to_number().unwrap_err().into_inner(),
        ErrorKind::Convert(ConvertError::InvalidIntegerConvert)
    );
    assert_eq!(
        i128::MIN.to_number().unwrap_err().into_inner(),
        ErrorKind::Convert(ConvertError::InvalidIntegerConvert)
    );
    assert_eq!(ValueSerializer::new().serialize_number_value(7u16).unwrap(), JsoncValue::Number(Number::Integer(7)));

    assert_eq!(u8::from_number(&Number::Integer(255)).unwrap(), 255);
    assert_eq!(
        u8::from_number(&Number::Integer(256)).unwrap_err().into_inner(),
        ErrorKind::Convert(ConvertError::InvalidIntegerConvert)
    );
    assert_eq!(
        u64::from_number(&Number::Integer(-1)).unwrap_err().into_inner(),
        ErrorKind::Convert(ConvertError::InvalidIntegerConvert)
    );
    assert_eq!(i8::from_number(&Number::Integer(-128)).unwrap(), -128);
    assert_eq!(i128::from_number(&Number::Integer(i64::MIN)).unwrap(), i64::MIN as i128);
    assert_eq!(
        i32::from_number(&Number::Float("1.5".to_string())).unwrap_err().into_inner(),
        ErrorKind::Convert(ConvertError::CannotConvertFloatToInteger)
    );
}

#[test]
fn keys_of_values_made_from_data() {

    let keys = ValueMapKeySerializer::new();
    assert_eq!(keys.serialize_bool(true), "true");
    assert_eq!(keys.serialize_bool(false), "false");
    assert_eq!(keys.serialize_unit(), "null");
    assert_eq!(keys.serialize_number(-42i32).unwrap(), "-42");
    assert_eq!(keys.serialize_str("key"), "key");
    assert_eq!(keys.reject().into_inner(), ErrorKind::Semantic(SemanticError::AnyMapKey));
}

fn obj_arr() -> JsoncValue {
    let arr: Vec<JsoncValue> = vec![false.into(), true.into(), 2i64.into(), 3i64.into()];
    let mut inner = MapImpl::new();
    inner.insert("arr".to_string(), JsoncValue::from(arr));
    let mut outer = MapImpl::new();
    outer.insert("obj".to_string(), JsoncValue::from(inner));
    JsoncValue::from(outer)
}

#[test]
fn test_deserialize_value() {
    let target = r#"{"obj":{"arr":[false,true,2,3]}}"#;
    let v = value_from_str(target).unwrap();
    assert_eq!(v, obj_arr());
}

#[test]
fn test_serialize_value() {
    let target = obj_arr();
    assert_eq!(
        json_with_comments::ser::value_to_string(&target).unwrap(),
        r#"{"obj":{"arr":[false,true,2,3]}}"#
    );
}

#[test]
fn ranges_pick_runs_of_elements() {
    let value = keywords();
    let words = value.get("keywords").unwrap();
    assert_eq!(
        words.get(0..2),
        Some(&[JsoncValue::String("JSON with comments".into()), JsoncValue::String("JSONC".into())][..])
    );
    assert_eq!(words.get(3..3), Some(&[][..]));
    assert_eq!(words.get(2..4), None);
    assert_eq!(words.get(2..1), None);
    assert_eq!(value.get(0..1), None);

    let mut value = keywords();
    let run = value.get_mut("keywords").unwrap().get_mut(1..3).unwrap();
    run[0] = JsoncValue::Null;
    run[1] = JsoncValue::from(true);
    assert_eq!(
        value.get("keywords").unwrap().get(0..3),
        Some(&[JsoncValue::String("JSON with comments".into()), JsoncValue::Null, JsoncValue::from(true)][..])
    );
}
