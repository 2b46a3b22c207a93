use webresult::json::json_to_string;
use webresult::json::JsonValue;
use webresult::responses::error_from_json;
use webresult::responses::error_response_from_json;
use webresult::responses::error_response_to_json;
use webresult::responses::error_to_json;
use webresult::responses::ErrorResponse;
use webresult::responses::ErrorWithMessage;
use webresult::responses::JsObj;

fn meta_obj() -> JsObj {
    JsObj::new(vec![("hint".to_owned(), JsonValue::Str("retry later".to_owned()))])
}

fn full_error() -> ErrorWithMessage {
    ErrorWithMessage {
        detail: "boom".to_owned(),
        title: Some("Broken".to_owned()),
        meta: Some(meta_obj()),
        id: Some("e-1".to_owned()),
        links: Some(JsObj::new(vec![(
            "about".to_owned(),
            JsonValue::Str("/help".to_owned()),
        )])),
        status: 503,
        code: Some("E42".to_owned()),
        source: Some(JsObj::new(vec![(
            "pointer".to_owned(),
            JsonValue::Str("/data".to_owned()),
        )])),
    }
}

#[test]
fn round_trip_keeps_every_field() {
    let resp = ErrorResponse { errors: vec![full_error(), ErrorWithMessage::str("plain")] };
    let j = error_response_to_json(&resp);
    let back = error_response_from_json(&j).unwrap();
    assert_eq!(resp, back);
}

#[test]
fn round_trip_of_one_error() {
    let e = full_error();
    let j = error_to_json(&e);
    let back = error_from_json(&j).unwrap();
    assert_eq!(e, back);
}

#[test]
fn absent_fields_are_omitted_not_null() {
    let e = ErrorWithMessage::str("just detail");
    let j = error_to_json(&e);
    let text = json_to_string(&j);
    assert_eq!(r#"{"detail":"just detail","status":"500"}"#, text);
    assert!(!text.contains("null"));
    assert!(!text.contains("title"));
    assert!(!text.contains("meta"));
    assert!(!text.contains("links"));
    assert!(!text.contains("code"));
    assert!(!text.contains("source"));
}

#[test]
fn empty_detail_is_omitted() {
    let mut e = ErrorWithMessage::str("");
    e.status = 418;
    let text = json_to_string(&error_to_json(&e));
    assert_eq!(r#"{"status":"418"}"#, text);
}

#[test]
fn default_error_has_status_200() {
    let e = ErrorWithMessage::default();
    assert_eq!(200, e.status);
    let text = json_to_string(&error_to_json(&e));
    assert_eq!(r#"{"status":"200"}"#, text);
}

#[test]
fn decode_rejects_wrong_shapes() {
    // not an object at all
    assert_eq!(None, error_from_json(&JsonValue::Int(3)));
    // detail of the wrong type
    let j = JsonValue::Object(vec![("detail".to_owned(), JsonValue::Int(1))]);
    assert_eq!(None, error_from_json(&j));
    // status not a string
    let j = JsonValue::Object(vec![("status".to_owned(), JsonValue::Int(404))]);
    assert_eq!(None, error_from_json(&j));
    // status string out of canonical form
    for bad in ["abc", "99", "1000", "04x", ""] {
        let j = JsonValue::Object(vec![(
            "status".to_owned(),
            JsonValue::Str(bad.to_owned()),
        )]);
        assert_eq!(None, error_from_json(&j), "status {:?} must be rejected", bad);
    }
}

#[test]
fn decode_defaults_for_absent_members() {
    let j = JsonValue::Object(vec![]);
    let e = error_from_json(&j).unwrap();
    assert_eq!("", e.detail);
    assert_eq!(200, e.status);
    assert_eq!(None, e.title);
}

#[test]
fn decode_response_needs_errors_array() {
    assert_eq!(None, error_response_from_json(&JsonValue::Object(vec![])));
    let j = JsonValue::Object(vec![("errors".to_owned(), JsonValue::Int(1))]);
    assert_eq!(None, error_response_from_json(&j));
    let j = JsonValue::Object(vec![("errors".to_owned(), JsonValue::Array(vec![]))]);
    let r = error_response_from_json(&j).unwrap();
    assert_eq!(0, r.errors.len());
}

#[test]
fn try_from_value_accepts_objects_only() {
    assert!(JsObj::try_from_value(JsonValue::Object(vec![])).is_some());
    assert!(JsObj::try_from_value(JsonValue::Int(1)).is_none());
    assert!(JsObj::try_from_value(JsonValue::Str("x".to_owned())).is_none());
}

#[test]
fn json_constructor_attaches_meta() {
    let v = JsonValue::Object(vec![("k".to_owned(), JsonValue::Bool(true))]);
    let e = ErrorWithMessage::json("msg".to_owned(), v);
    assert_eq!("msg", e.detail);
    assert_eq!(200, e.status);
    let text = json_to_string(&error_to_json(&e));
    assert_eq!(r#"{"detail":"msg","meta":{"k":true},"status":"200"}"#, text);
}

#[test]
fn constructors_set_status_500() {
    assert_eq!(500, ErrorWithMessage::new("a".to_owned()).status);
    assert_eq!(500, ErrorWithMessage::str("b").status);
    let r = ErrorResponse::from_single(ErrorWithMessage::str("c"));
    assert_eq!(1, r.errors.len());
    assert_eq!("c", r.errors[0].detail);
}
