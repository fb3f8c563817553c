use json_env::coerce::{coerce, to_json_text};
use json_env::value::JsonValue;

#[test]
fn string_coerces_to_its_bare_content() {
    assert_eq!(coerce(&JsonValue::Str("foo".to_string())), "foo");
    assert_eq!(coerce(&JsonValue::Str("".to_string())), "");
    assert_eq!(coerce(&JsonValue::Str("with \"quotes\"".to_string())), "with \"quotes\"");
}

#[test]
fn scalars_coerce_to_canonical_text() {
    assert_eq!(coerce(&JsonValue::Num("42".to_string())), "42");
    assert_eq!(coerce(&JsonValue::Num("-1.25".to_string())), "-1.25");
    assert_eq!(coerce(&JsonValue::Bool(true)), "true");
    assert_eq!(coerce(&JsonValue::Bool(false)), "false");
    assert_eq!(coerce(&JsonValue::Null), "null");
}

#[test]
fn arrays_keep_serialized_form() {
    let arr = JsonValue::Arr(vec![
        JsonValue::Num("1".to_string()),
        JsonValue::Str("two".to_string()),
        JsonValue::Null,
    ]);
    assert_eq!(coerce(&arr), "[1,\"two\",null]");
    assert_eq!(coerce(&JsonValue::Arr(vec![])), "[]");
}

#[test]
fn objects_keep_serialized_form() {
    let obj = JsonValue::Obj(vec![
        ("a".to_string(), JsonValue::Num("1".to_string())),
        ("b".to_string(), JsonValue::Bool(false)),
    ]);
    assert_eq!(coerce(&obj), "{\"a\":1,\"b\":false}");
    assert_eq!(coerce(&JsonValue::Obj(vec![])), "{}");
}

#[test]
fn nested_values_serialize_recursively() {
    let nested = JsonValue::Obj(vec![(
        "outer".to_string(),
        JsonValue::Arr(vec![JsonValue::Obj(vec![(
            "inner".to_string(),
            JsonValue::Str("x".to_string()),
        )])]),
    )]);
    assert_eq!(to_json_text(&nested), "{\"outer\":[{\"inner\":\"x\"}]}");
}

#[test]
fn string_content_is_escaped_only_inside_serialization() {
    let tricky = "a\"b\\c\nd\te\r\u{8}\u{c}\u{1}";
    let quoted = to_json_text(&JsonValue::Str(tricky.to_string()));
    assert_eq!(quoted, "\"a\\\"b\\\\c\\nd\\te\\r\\b\\f\\u0001\"");
    assert_eq!(coerce(&JsonValue::Str(tricky.to_string())), tricky);
}

#[test]
fn serialization_agrees_with_the_parser_crate() {
    let text = "{\"k\":[1,\"a\\nb\",null,true]}";
    let reparsed: serde_json::Value = serde_json::from_str(text).unwrap();
    assert_eq!(serde_json::to_string(&reparsed).unwrap(), text);
    let obj = JsonValue::Obj(vec![(
        "k".to_string(),
        JsonValue::Arr(vec![
            JsonValue::Num("1".to_string()),
            JsonValue::Str("a\nb".to_string()),
            JsonValue::Null,
            JsonValue::Bool(true),
        ]),
    )]);
    assert_eq!(to_json_text(&obj), text);
}
