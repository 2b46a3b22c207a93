use webresult::json::json_to_string;
use webresult::json::JsonValue;
use webresult::ListOptions;

#[test]
fn scalars_encode_canonically() {
    assert_eq!("null", json_to_string(&JsonValue::Null));
    assert_eq!("true", json_to_string(&JsonValue::Bool(true)));
    assert_eq!("false", json_to_string(&JsonValue::Bool(false)));
    assert_eq!("0", json_to_string(&JsonValue::Int(0)));
    assert_eq!("42", json_to_string(&JsonValue::Int(42)));
    assert_eq!("-7", json_to_string(&JsonValue::Int(-7)));
    assert_eq!(
        "-9223372036854775808",
        json_to_string(&JsonValue::Int(i64::MIN))
    );
    assert_eq!(
        "9223372036854775807",
        json_to_string(&JsonValue::Int(i64::MAX))
    );
}

#[test]
fn strings_are_escaped() {
    let s = JsonValue::Str("a\"b\\c\nd\te\r\u{8}\u{c}\u{1}!".to_owned());
    assert_eq!(r#""a\"b\\c\nd\te\r\b\f\u0001!""#, json_to_string(&s));
}

#[test]
fn escapes_agree_with_serde_json() {
    let text = "quote\" back\\ nl\n tab\t cr\r \u{8}\u{c}\u{1f} plain ünïcode";
    let mine = json_to_string(&JsonValue::Str(text.to_owned()));
    let parsed: serde_json::Value = serde_json::from_str(&mine).unwrap();
    assert_eq!(serde_json::Value::String(text.to_owned()), parsed);
}

#[test]
fn arrays_and_objects_nest() {
    let v = JsonValue::Object(vec![
        (
            "a".to_owned(),
            JsonValue::Array(vec![
                JsonValue::Int(1),
                JsonValue::Object(vec![("b".to_owned(), JsonValue::Null)]),
            ]),
        ),
        ("c".to_owned(), JsonValue::Array(vec![])),
    ]);
    assert_eq!(r#"{"a":[1,{"b":null}],"c":[]}"#, json_to_string(&v));
}

#[test]
fn list_options_default_limit_is_100() {
    let o = ListOptions::default();
    assert_eq!(None, o.offset);
    assert_eq!(Some(100), o.limit);
    assert!(o.order.is_none());
    assert_eq!(None, o.sort);
}
