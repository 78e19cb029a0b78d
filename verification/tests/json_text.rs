use void_core::json::{get_field, get_str, get_u64, is_true, parse_json, parse_json_result, take_field, to_json_string, JsonValue};

fn obj(members: Vec<(&str, JsonValue)>) -> JsonValue {
    JsonValue::Object(members.into_iter().map(|(k, v)| (k.to_string(), v)).collect())
}

#[test]
fn object_text_keeps_member_order() {
    let v = obj(vec![
        ("z", JsonValue::UInt(1)),
        ("a", JsonValue::Str("x\"y".to_string())),
        ("m", JsonValue::Bool(false)),
    ]);
    assert_eq!(to_json_string(&v), r#"{"z":1,"a":"x\"y","m":false}"#);
}

#[test]
fn scalar_texts() {
    assert_eq!(to_json_string(&JsonValue::Null), "null");
    assert_eq!(to_json_string(&JsonValue::OtherNumber), "null");
    assert_eq!(to_json_string(&JsonValue::Bool(true)), "true");
    assert_eq!(to_json_string(&JsonValue::UInt(18446744073709551615)), "18446744073709551615");
    assert_eq!(to_json_string(&JsonValue::NegInt(-42)), "-42");
    assert_eq!(to_json_string(&JsonValue::NegInt(i64::MIN)), "-9223372036854775808");
    assert_eq!(to_json_string(&JsonValue::Str("a\nb".to_string())), "\"a\\nb\"");
}

#[test]
fn nested_array_text() {
    let v = JsonValue::Array(vec![
        JsonValue::Array(vec![]),
        obj(vec![]),
        JsonValue::UInt(0),
    ]);
    assert_eq!(to_json_string(&v), "[[],{},0]");
}

#[test]
fn text_matches_serde() {
    let v = obj(vec![
        ("k", JsonValue::Str("ü\u{1}".to_string())),
        ("n", JsonValue::Array(vec![JsonValue::NegInt(-1), JsonValue::Null])),
    ]);
    let ours = to_json_string(&v);
    let serde: serde_json::Value = serde_json::from_str(&ours).unwrap();
    assert_eq!(serde.to_string(), ours);
}

#[test]
fn parse_and_read_fields() {
    let v = parse_json(r#"{"ok": true, "n": 7, "s": "t", "neg": -3, "f": 1.5}"#).unwrap();
    assert!(is_true(&v, "ok"));
    assert_eq!(get_u64(&v, "n"), Some(7));
    assert_eq!(get_str(&v, "s"), Some("t".to_string()));
    assert!(matches!(get_field(&v, "neg"), Some(JsonValue::NegInt(-3))));
    assert!(matches!(get_field(&v, "f"), Some(JsonValue::OtherNumber)));
    assert!(get_field(&v, "missing").is_none());
    assert!(!is_true(&v, "s"));
}

#[test]
fn parse_failure_gives_error_text() {
    assert!(parse_json("{").is_none());
    let e = parse_json_result("{").err().unwrap();
    assert!(!e.is_empty());
}

#[test]
fn take_field_moves_member_out() {
    let v = parse_json(r#"{"a":[1,2],"b":null}"#).unwrap();
    match take_field(v, "a") {
        Some(JsonValue::Array(items)) => assert_eq!(items.len(), 2),
        _ => panic!("no array"),
    }
    assert!(take_field(JsonValue::UInt(1), "a").is_none());
}

#[test]
fn flat_object_reads_back() {
    let v = obj(vec![("x", JsonValue::Str("1".into())), ("y", JsonValue::UInt(2)), ("z", JsonValue::Bool(true))]);
    let text = to_json_string(&v);
    let back = parse_json(&text).unwrap();
    assert_eq!(get_str(&back, "x"), Some("1".to_string()));
    assert_eq!(get_u64(&back, "y"), Some(2));
    assert!(is_true(&back, "z"));
}
