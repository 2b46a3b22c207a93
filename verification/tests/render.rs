use webresult::json::JsonValue;
use webresult::responses::ErrorResponse;
use webresult::responses::ErrorWithMessage;
use webresult::responses::WebResult;

fn failure(errors: Vec<ErrorWithMessage>) -> WebResult {
    WebResult::Failure(ErrorResponse { errors })
}

fn error(detail: &str, status: u16) -> ErrorWithMessage {
    let mut e = ErrorWithMessage::str(detail);
    e.status = status;
    e
}

#[test]
fn single_not_found_error() {
    let w = failure(vec![error("not found", 404)]);
    let r = w.render();
    assert_eq!(404, r.status);
    assert_eq!(r#"{"errors":[{"detail":"not found","status":"404"}]}"#, r.body);
    assert_eq!(None, r.total_count);
}

#[test]
fn max_status_wins_and_order_is_kept() {
    let w = failure(vec![error("bad field", 400), error("db down", 503)]);
    let r = w.render();
    assert_eq!(503, r.status);
    assert_eq!(
        r#"{"errors":[{"detail":"bad field","status":"400"},{"detail":"db down","status":"503"}]}"#,
        r.body
    );
}

#[test]
fn success_with_full_count_sets_header() {
    let v = JsonValue::Object(vec![
        (
            "items".to_owned(),
            JsonValue::Array(vec![JsonValue::Int(1), JsonValue::Int(2), JsonValue::Int(3)]),
        ),
        ("full_count".to_owned(), JsonValue::Int(42)),
    ]);
    let w = WebResult::Success(v);
    let r = w.render();
    assert_eq!(200, r.status);
    assert_eq!(Some("42".to_owned()), r.total_count);
    let parsed: serde_json::Value = serde_json::from_str(&r.body).unwrap();
    let expected: serde_json::Value =
        serde_json::from_str(r#"{"items":[1,2,3],"full_count":42}"#).unwrap();
    assert_eq!(expected, parsed);
}

#[test]
fn empty_failure_is_internal_server_error() {
    let w = failure(vec![]);
    let r = w.render();
    assert_eq!(500, r.status);
    assert_eq!(r#"{"errors":[]}"#, r.body);
}

#[test]
fn success_body_is_the_payload() {
    let w = WebResult::Success(JsonValue::Str("hello".to_owned()));
    let r = w.render();
    assert_eq!(200, r.status);
    assert_eq!(r#""hello""#, r.body);
    assert_eq!(None, r.total_count);
}

#[test]
fn header_absent_without_full_count() {
    let v = JsonValue::Object(vec![("items".to_owned(), JsonValue::Array(vec![]))]);
    let r = WebResult::Success(v).render();
    assert_eq!(None, r.total_count);
    let r2 = WebResult::Success(JsonValue::Array(vec![JsonValue::Int(7)])).render();
    assert_eq!(None, r2.total_count);
}

#[test]
fn rendering_twice_is_byte_identical() {
    let w = failure(vec![error("flaky", 502), error("", 400)]);
    let a = w.render();
    let b = w.render();
    assert_eq!(a.status, b.status);
    assert_eq!(a.total_count, b.total_count);
    assert_eq!(a.body.as_bytes(), b.body.as_bytes());

    let s = WebResult::Success(JsonValue::Object(vec![(
        "full_count".to_owned(),
        JsonValue::Int(7),
    )]));
    let a = s.render();
    let b = s.render();
    assert_eq!(a.status, b.status);
    assert_eq!(a.total_count, b.total_count);
    assert_eq!(a.body.as_bytes(), b.body.as_bytes());
}

#[test]
fn first_full_count_entry_wins() {
    let v = JsonValue::Object(vec![
        ("full_count".to_owned(), JsonValue::Int(1)),
        ("full_count".to_owned(), JsonValue::Int(2)),
    ]);
    let r = WebResult::Success(v).render();
    assert_eq!(Some("1".to_owned()), r.total_count);
}

#[test]
fn from_result_maps_losslessly() {
    let ok = WebResult::from_result(Ok(JsonValue::Bool(true)));
    assert_eq!(200, ok.render().status);
    let err = WebResult::from_result(Err(ErrorResponse { errors: vec![error("gone", 410)] }));
    assert_eq!(410, err.render().status);
}
