//! The response envelope model: JSON:API-style error objects, the error
//! response holding them, and the success/failure result envelope.
//!
//! The wire form of an error response is pinned down by [`error_json`]
//! and [`response_json`]; [`decode_response`] is the strict inverse,
//! and [`lemma_response_round_trip`] shows that reading an encoded
//! response back yields the errors unchanged.

use vstd::prelude::*;

use crate::json::dec_int;
use crate::json::dec_nat;
use crate::json::dval;
use crate::json::is_dec_digit;
use crate::json::json_model;
use crate::json::json_model_entries;
use crate::json::json_model_seq;
use crate::json::obj_lookup;
use crate::json::JsonModel;
use crate::json::JsonValue;

verus! {

broadcast use vstd::string::group_string_axioms;

/// A JSON object wrapper: entries of string keys and JSON values.
///
/// This is the only shape accepted for the `meta`, `links` and `source`
/// members of an error object.
#[derive(Debug, PartialEq)]
pub struct JsObj {
    properties: Vec<(String, JsonValue)>,
}

impl View for JsObj {
    type V = Seq<(Seq<char>, JsonModel)>;

    closed spec fn view(&self) -> Seq<(Seq<char>, JsonModel)> {
        json_model_entries(self.properties@)
    }
}

impl JsObj {
    /// Wrap object entries.
    pub fn new(properties: Vec<(String, JsonValue)>) -> (r: Self)
        ensures
            r@ == json_model_entries(properties@),
    {
        JsObj { properties }
    }

    /// The object-shaped view of `v`: its entries when it is a JSON
    /// object, and nothing otherwise.
    pub fn try_from_value(v: JsonValue) -> (r: Option<JsObj>)
        ensures
            match r {
                Some(o) => v@ matches JsonModel::Object(m) && o@ == m,
                None => !(v@ is Object),
            },
    {
        match v {
            JsonValue::Object(properties) => Some(JsObj { properties }),
            _ => None,
        }
    }

    /// The entries of this object.
    pub fn properties(&self) -> (r: &Vec<(String, JsonValue)>)
        ensures
            json_model_entries(r@) == self@,
    {
        &self.properties
    }
}

/// The spec-level value of an optional string field.
pub open spec fn opt_str_model(o: Option<String>) -> Option<Seq<char>> {
    match o {
        Some(s) => Some(s@),
        None => None,
    }
}

/// The spec-level value of an optional object field.
pub open spec fn opt_obj_model(o: Option<JsObj>) -> Option<Seq<(Seq<char>, JsonModel)>> {
    match o {
        Some(j) => Some(j@),
        None => None,
    }
}

/// The mathematical value of an [`ErrorWithMessage`].
#[verifier::ext_equal]
pub struct ErrorModel {
    pub detail: Seq<char>,
    pub title: Option<Seq<char>>,
    pub meta: Option<Seq<(Seq<char>, JsonModel)>>,
    pub id: Option<Seq<char>>,
    pub links: Option<Seq<(Seq<char>, JsonModel)>>,
    pub status: int,
    pub code: Option<Seq<char>>,
    pub source: Option<Seq<(Seq<char>, JsonModel)>>,
}

/// The standard singular error object as per JSON:API.
///
/// `detail` and `status` are always present in memory; every other field
/// is optional and absent from the wire form when unset.
#[derive(Debug, PartialEq)]
pub struct ErrorWithMessage {
    /// A human-readable explanation specific to this occurrence of the
    /// problem.  Omitted from the wire form when empty.
    pub detail: String,
    /// A short, human-readable summary of the problem that should not
    /// change from occurrence to occurrence.
    pub title: Option<String>,
    /// A meta object carrying non-standard information about the error.
    pub meta: Option<JsObj>,
    /// A unique identifier for this particular occurrence of the problem.
    pub id: Option<String>,
    /// A links object for related resources.
    pub links: Option<JsObj>,
    /// The HTTP status code applicable to this problem; written to the
    /// wire as a string value.
    pub status: u16,
    /// An application-specific error code.
    pub code: Option<String>,
    /// References to the source of the error.
    pub source: Option<JsObj>,
}

impl View for ErrorWithMessage {
    type V = ErrorModel;

    open spec fn view(&self) -> ErrorModel {
        ErrorModel {
            detail: self.detail@,
            title: opt_str_model(self.title),
            meta: opt_obj_model(self.meta),
            id: opt_str_model(self.id),
            links: opt_obj_model(self.links),
            status: self.status as int,
            code: opt_str_model(self.code),
            source: opt_obj_model(self.source),
        }
    }
}

impl Default for ErrorWithMessage {
    /// The all-unset error object.  Its status is 200, mirroring the
    /// default of the HTTP status type this field models.
    fn default() -> (r: Self)
        ensures
            r@.detail.len() == 0,
            r@.title is None,
            r@.meta is None,
            r@.id is None,
            r@.links is None,
            r@.status == 200,
            r@.code is None,
            r@.source is None,
    {
        ErrorWithMessage {
            detail: String::new(),
            title: None,
            meta: None,
            id: None,
            links: None,
            status: 200,
            code: None,
            source: None,
        }
    }
}

impl ErrorWithMessage {
    /// An error object carrying `message` as its detail, with status 500.
    pub fn new(message: String) -> (r: Self)
        ensures
            r@.detail == message@,
            r@.title is None,
            r@.meta is None,
            r@.id is None,
            r@.links is None,
            r@.status == 500,
            r@.code is None,
            r@.source is None,
    {
        ErrorWithMessage {
            detail: message,
            title: None,
            meta: None,
            id: None,
            links: None,
            status: 500,
            code: None,
            source: None,
        }
    }

    /// An error object carrying `msg` as its detail, with status 500.
    pub fn str(msg: &str) -> (r: Self)
        ensures
            r@.detail == msg@,
            r@.title is None,
            r@.meta is None,
            r@.id is None,
            r@.links is None,
            r@.status == 500,
            r@.code is None,
            r@.source is None,
    {
        Self::new(msg.to_owned())
    }

    /// An error object carrying `message` as its detail and `meta` as its
    /// meta object; the status is the 200 default.
    pub fn with_meta(message: String, meta: JsObj) -> (r: Self)
        ensures
            r@.detail == message@,
            r@.title is None,
            r@.meta == Some(meta@),
            r@.id is None,
            r@.links is None,
            r@.status == 200,
            r@.code is None,
            r@.source is None,
    {
        ErrorWithMessage {
            detail: message,
            title: None,
            meta: Some(meta),
            id: None,
            links: None,
            status: 200,
            code: None,
            source: None,
        }
    }

    /// An error object carrying `message` as its detail and the entries
    /// of `v`, which must be a JSON object, as its meta object; the
    /// status is the 200 default.
    pub fn json(message: String, v: JsonValue) -> (r: Self)
        requires
            v@ is Object,
        ensures
            r@.detail == message@,
            r@.title is None,
            r@.meta == Some(v@->Object_0),
            r@.id is None,
            r@.links is None,
            r@.status == 200,
            r@.code is None,
            r@.source is None,
    {
        match JsObj::try_from_value(v) {
            Some(meta) => Self::with_meta(message, meta),
            None => vstd::pervasive::unreached(),
        }
    }
}

/// Error objects are returned as an array keyed by `errors` at the top
/// level of the response body.
#[derive(Debug, PartialEq)]
pub struct ErrorResponse {
    pub errors: Vec<ErrorWithMessage>,
}

impl View for ErrorResponse {
    type V = Seq<ErrorModel>;

    open spec fn view(&self) -> Seq<ErrorModel> {
        Seq::new(self.errors@.len(), |i: int| self.errors@[i]@)
    }
}

impl ErrorResponse {
    /// The error response holding exactly one error object.
    pub fn from_single(e: ErrorWithMessage) -> (r: Self)
        ensures
            r@.len() == 1,
            r@[0] == e@,
    {
        ErrorResponse { errors: vec![e] }
    }
}

/// The mathematical value of a [`WebResult`].
pub enum WebResultModel {
    Success(JsonModel),
    Failure(Seq<ErrorModel>),
}

/// The result envelope: either a success JSON payload or an error
/// response, the single point of interchange between application logic
/// and a renderer.
#[derive(Debug, PartialEq)]
#[must_use]
pub enum WebResult {
    /// Contains the success value.
    Success(JsonValue),
    /// Contains the error value.
    Failure(ErrorResponse),
}

impl View for WebResult {
    type V = WebResultModel;

    open spec fn view(&self) -> WebResultModel {
        match self {
            WebResult::Success(v) => WebResultModel::Success(v@),
            WebResult::Failure(e) => WebResultModel::Failure(e@),
        }
    }
}

impl WebResult {
    /// The lossless mapping from a value-or-error result: a success value
    /// passes through unchanged, an error response becomes the failure
    /// variant.
    pub fn from_result(res: Result<JsonValue, ErrorResponse>) -> (r: Self)
        ensures
            match res {
                Ok(v) => r@ == WebResultModel::Success(v@),
                Err(e) => r@ == WebResultModel::Failure(e@),
            },
    {
        match res {
            Ok(v) => WebResult::Success(v),
            Err(e) => WebResult::Failure(e),
        }
    }
}

/// The `detail` wire entry: omitted when the detail text is empty.
pub open spec fn ef_detail(e: ErrorModel) -> Seq<(Seq<char>, JsonModel)> {
    if e.detail.len() > 0 {
        seq![("detail"@, JsonModel::Str(e.detail))]
    } else {
        Seq::empty()
    }
}

/// The `title` wire entry: omitted when unset.
pub open spec fn ef_title(e: ErrorModel) -> Seq<(Seq<char>, JsonModel)> {
    match e.title {
        Some(t) => seq![("title"@, JsonModel::Str(t))],
        None => Seq::empty(),
    }
}

/// The `meta` wire entry: omitted when unset.
pub open spec fn ef_meta(e: ErrorModel) -> Seq<(Seq<char>, JsonModel)> {
    match e.meta {
        Some(m) => seq![("meta"@, JsonModel::Object(m))],
        None => Seq::empty(),
    }
}

/// The `id` wire entry: omitted when unset.
pub open spec fn ef_id(e: ErrorModel) -> Seq<(Seq<char>, JsonModel)> {
    match e.id {
        Some(t) => seq![("id"@, JsonModel::Str(t))],
        None => Seq::empty(),
    }
}

/// The `links` wire entry: omitted when unset.
pub open spec fn ef_links(e: ErrorModel) -> Seq<(Seq<char>, JsonModel)> {
    match e.links {
        Some(m) => seq![("links"@, JsonModel::Object(m))],
        None => Seq::empty(),
    }
}

/// The `status` wire entry: always present, as a decimal string.
pub open spec fn ef_status(e: ErrorModel) -> Seq<(Seq<char>, JsonModel)> {
    seq![("status"@, JsonModel::Str(dec_int(e.status)))]
}

/// The `code` wire entry: omitted when unset.
pub open spec fn ef_code(e: ErrorModel) -> Seq<(Seq<char>, JsonModel)> {
    match e.code {
        Some(t) => seq![("code"@, JsonModel::Str(t))],
        None => Seq::empty(),
    }
}

/// The `source` wire entry: omitted when unset.
pub open spec fn ef_source(e: ErrorModel) -> Seq<(Seq<char>, JsonModel)> {
    match e.source {
        Some(m) => seq![("source"@, JsonModel::Object(m))],
        None => Seq::empty(),
    }
}

/// The wire entries of one error object, in declaration order: `detail`
/// (omitted when empty), `title`, `meta`, `id`, `links`, `status`
/// (always present, as a decimal string), `code`, `source`.  Unset
/// optional members contribute no entry at all.
pub open spec fn error_fields(e: ErrorModel) -> Seq<(Seq<char>, JsonModel)> {
    ef_detail(e) + ef_title(e) + ef_meta(e) + ef_id(e) + ef_links(e) + ef_status(e) + ef_code(e)
        + ef_source(e)
}

/// The wire form of one error object.
pub open spec fn error_json(e: ErrorModel) -> JsonModel {
    JsonModel::Object(error_fields(e))
}

/// The wire forms of a sequence of error objects.
pub open spec fn errors_array(errs: Seq<ErrorModel>) -> Seq<JsonModel> {
    Seq::new(errs.len(), |i: int| error_json(errs[i]))
}

/// The wire form of an error response: `{"errors": [...]}`.
pub open spec fn response_json(errs: Seq<ErrorModel>) -> JsonModel {
    JsonModel::Object(seq![("errors"@, JsonModel::Array(errors_array(errs)))])
}

/// The JSON value of one error object, exactly [`error_json`] of its model.
#[verifier::rlimit(100)]
pub fn error_to_json(e: &ErrorWithMessage) -> (j: JsonValue)
    ensures
        j@ == error_json(e@),
{
    let ghost em = e@;
    let mut fields: Vec<(String, JsonValue)> = Vec::new();
    proof {
        assert(json_model_entries(fields@) =~= Seq::<(Seq<char>, JsonModel)>::empty());
    }
    if !e.detail.as_str().is_empty() {
        let ghost prev = fields@;
        fields.push((String::from_str("detail"), JsonValue::Str(e.detail.clone())));
        proof {
            crate::json::lemma_json_model_entries_push(prev, fields@[fields@.len() - 1]);
        }
    }
    proof {
        assert(json_model_entries(fields@) =~= ef_detail(em));
    }
    match &e.title {
        Some(t) => {
            let ghost prev = fields@;
            fields.push((String::from_str("title"), JsonValue::Str(t.clone())));
            proof {
                crate::json::lemma_json_model_entries_push(prev, fields@[fields@.len() - 1]);
            }
        },
        None => {},
    }
    proof {
        assert(json_model_entries(fields@) =~= ef_detail(em) + ef_title(em));
    }
    match &e.meta {
        Some(o) => {
            let ghost prev = fields@;
            let p = o.properties();
            fields.push(
                (String::from_str("meta"), JsonValue::Object(crate::json::clone_entries(p, p.len()))),
            );
            proof {
                assert(p@.take(p@.len() as int) =~= p@);
                crate::json::lemma_json_model_entries_push(prev, fields@[fields@.len() - 1]);
            }
        },
        None => {},
    }
    proof {
        assert(json_model_entries(fields@) =~= ef_detail(em) + ef_title(em) + ef_meta(em));
    }
    match &e.id {
        Some(t) => {
            let ghost prev = fields@;
            fields.push((String::from_str("id"), JsonValue::Str(t.clone())));
            proof {
                crate::json::lemma_json_model_entries_push(prev, fields@[fields@.len() - 1]);
            }
        },
        None => {},
    }
    proof {
        assert(json_model_entries(fields@) =~= ef_detail(em) + ef_title(em) + ef_meta(em) + ef_id(
            em,
        ));
    }
    match &e.links {
        Some(o) => {
            let ghost prev = fields@;
            let p = o.properties();
            fields.push(
                (String::from_str("links"), JsonValue::Object(crate::json::clone_entries(p, p.len()))),
            );
            proof {
                assert(p@.take(p@.len() as int) =~= p@);
                crate::json::lemma_json_model_entries_push(prev, fields@[fields@.len() - 1]);
            }
        },
        None => {},
    }
    proof {
        assert(json_model_entries(fields@) =~= ef_detail(em) + ef_title(em) + ef_meta(em) + ef_id(
            em,
        ) + ef_links(em));
    }
    let ghost prev_s = fields@;
    fields.push(
        (String::from_str("status"), JsonValue::Str(crate::json::u64_to_string(e.status as u64))),
    );
    proof {
        crate::json::lemma_json_model_entries_push(prev_s, fields@[fields@.len() - 1]);
        assert(dec_nat(e.status as nat) == dec_int(em.status));
        assert(json_model_entries(fields@) =~= ef_detail(em) + ef_title(em) + ef_meta(em) + ef_id(
            em,
        ) + ef_links(em) + ef_status(em));
    }
    match &e.code {
        Some(t) => {
            let ghost prev = fields@;
            fields.push((String::from_str("code"), JsonValue::Str(t.clone())));
            proof {
                crate::json::lemma_json_model_entries_push(prev, fields@[fields@.len() - 1]);
            }
        },
        None => {},
    }
    proof {
        assert(json_model_entries(fields@) =~= ef_detail(em) + ef_title(em) + ef_meta(em) + ef_id(
            em,
        ) + ef_links(em) + ef_status(em) + ef_code(em));
    }
    match &e.source {
        Some(o) => {
            let ghost prev = fields@;
            let p = o.properties();
            fields.push(
                (
                    String::from_str("source"),
                    JsonValue::Object(crate::json::clone_entries(p, p.len())),
                ),
            );
            proof {
                assert(p@.take(p@.len() as int) =~= p@);
                crate::json::lemma_json_model_entries_push(prev, fields@[fields@.len() - 1]);
            }
        },
        None => {},
    }
    proof {
        assert(json_model_entries(fields@) =~= error_fields(em));
    }
    JsonValue::Object(fields)
}

/// The JSON value of a whole error response, exactly [`response_json`]
/// of its model.
pub fn error_response_to_json(r: &ErrorResponse) -> (j: JsonValue)
    ensures
        j@ == response_json(r@),
{
    let ghost rm = r@;
    let n = r.errors.len();
    let mut arr: Vec<JsonValue> = Vec::new();
    proof {
        assert(json_model_seq(arr@) =~= errors_array(rm).take(0int));
    }
    let mut i: usize = 0;
    while i < n
        invariant
            i <= n,
            n == r.errors@.len(),
            rm == r@,
            rm.len() == n,
            json_model_seq(arr@) == errors_array(rm).take(i as int),
        decreases n - i,
    {
        let v = error_to_json(&r.errors[i]);
        let ghost vv = v;
        let ghost prev = arr@;
        arr.push(v);
        proof {
            crate::json::lemma_json_model_seq_push(prev, vv);
            assert(errors_array(rm).take(i as int + 1) =~= errors_array(rm).take(i as int).push(
                error_json(rm[i as int]),
            ));
        }
        i = i + 1;
    }
    let mut fields: Vec<(String, JsonValue)> = Vec::new();
    let ghost prev = fields@;
    fields.push((String::from_str("errors"), JsonValue::Array(arr)));
    proof {
        assert(errors_array(rm).take(n as int) =~= errors_array(rm));
        crate::json::lemma_json_model_entries_push(prev, fields@[fields@.len() - 1]);
        assert(json_model_entries(prev) =~= Seq::<(Seq<char>, JsonModel)>::empty());
        assert(json_model_entries(fields@) =~= seq![
            ("errors"@, JsonModel::Array(errors_array(rm))),
        ]);
    }
    JsonValue::Object(fields)
}

/// Where each wire key of an error object leads: present optional
/// members are found under their key, absent ones have no entry at all
/// (in particular, never an explicit null), and `status` is always
/// present as a decimal string.
pub proof fn lemma_error_fields_lookup(e: ErrorModel)
    ensures
        obj_lookup(error_fields(e), "detail"@) == if e.detail.len() > 0 {
            Some(JsonModel::Str(e.detail))
        } else {
            None::<JsonModel>
        },
        obj_lookup(error_fields(e), "title"@) == match e.title {
            Some(t) => Some(JsonModel::Str(t)),
            None => None::<JsonModel>,
        },
        obj_lookup(error_fields(e), "meta"@) == match e.meta {
            Some(m) => Some(JsonModel::Object(m)),
            None => None::<JsonModel>,
        },
        obj_lookup(error_fields(e), "id"@) == match e.id {
            Some(t) => Some(JsonModel::Str(t)),
            None => None::<JsonModel>,
        },
        obj_lookup(error_fields(e), "links"@) == match e.links {
            Some(m) => Some(JsonModel::Object(m)),
            None => None::<JsonModel>,
        },
        obj_lookup(error_fields(e), "status"@) == Some(JsonModel::Str(dec_int(e.status))),
        obj_lookup(error_fields(e), "code"@) == match e.code {
            Some(t) => Some(JsonModel::Str(t)),
            None => None::<JsonModel>,
        },
        obj_lookup(error_fields(e), "source"@) == match e.source {
            Some(m) => Some(JsonModel::Object(m)),
            None => None::<JsonModel>,
        },
{
    reveal_with_fuel(crate::json::obj_lookup, 3);
    reveal_with_fuel(crate::json::has_key, 3);
    reveal_strlit("detail");
    reveal_strlit("title");
    reveal_strlit("meta");
    reveal_strlit("id");
    reveal_strlit("links");
    reveal_strlit("status");
    reveal_strlit("code");
    reveal_strlit("source");
    assert("detail"@.len() == 6);
    assert("title"@.len() == 5);
    assert("meta"@.len() == 4);
    assert("id"@.len() == 2);
    assert("links"@.len() == 5);
    assert("status"@.len() == 6);
    assert("code"@.len() == 4);
    assert("source"@.len() == 6);
    assert("detail"@ != "status"@) by {
        assert("detail"@[0] == 'd');
        assert("status"@[0] == 's');
    }
    assert("detail"@ != "source"@) by {
        assert("detail"@[0] == 'd');
        assert("source"@[0] == 's');
    }
    assert("status"@ != "source"@) by {
        assert("status"@[1] == 't');
        assert("source"@[1] == 'o');
    }
    assert("title"@ != "links"@) by {
        assert("title"@[0] == 't');
        assert("links"@[0] == 'l');
    }
    assert("meta"@ != "code"@) by {
        assert("meta"@[0] == 'm');
        assert("code"@[0] == 'c');
    }
    let s1 = ef_detail(e);
    let s2 = ef_title(e);
    let s3 = ef_meta(e);
    let s4 = ef_id(e);
    let s5 = ef_links(e);
    let s6 = ef_status(e);
    let s7 = ef_code(e);
    let s8 = ef_source(e);
    crate::json::lemma_obj_lookup_append_all(s1, s2);
    crate::json::lemma_obj_lookup_append_all(s1 + s2, s3);
    crate::json::lemma_obj_lookup_append_all(s1 + s2 + s3, s4);
    crate::json::lemma_obj_lookup_append_all(s1 + s2 + s3 + s4, s5);
    crate::json::lemma_obj_lookup_append_all(s1 + s2 + s3 + s4 + s5, s6);
    crate::json::lemma_obj_lookup_append_all(s1 + s2 + s3 + s4 + s5 + s6, s7);
    crate::json::lemma_obj_lookup_append_all(s1 + s2 + s3 + s4 + s5 + s6 + s7, s8);
    assert(error_fields(e) == s1 + s2 + s3 + s4 + s5 + s6 + s7 + s8);
    assert(obj_lookup(error_fields(e), "detail"@) == if e.detail.len() > 0 {
        Some(JsonModel::Str(e.detail))
    } else {
        None::<JsonModel>
    }) by {
        crate::json::lemma_obj_lookup_append(s1, s2, "detail"@);
        crate::json::lemma_obj_lookup_append(s1 + s2, s3, "detail"@);
        crate::json::lemma_obj_lookup_append(s1 + s2 + s3, s4, "detail"@);
        crate::json::lemma_obj_lookup_append(s1 + s2 + s3 + s4, s5, "detail"@);
        crate::json::lemma_obj_lookup_append(s1 + s2 + s3 + s4 + s5, s6, "detail"@);
        crate::json::lemma_obj_lookup_append(s1 + s2 + s3 + s4 + s5 + s6, s7, "detail"@);
        crate::json::lemma_obj_lookup_append(s1 + s2 + s3 + s4 + s5 + s6 + s7, s8, "detail"@);
    }
    assert(obj_lookup(error_fields(e), "title"@) == match e.title {
        Some(t) => Some(JsonModel::Str(t)),
        None => None::<JsonModel>,
    }) by {
        crate::json::lemma_obj_lookup_append(s1, s2, "title"@);
        crate::json::lemma_obj_lookup_append(s1 + s2, s3, "title"@);
        crate::json::lemma_obj_lookup_append(s1 + s2 + s3, s4, "title"@);
        crate::json::lemma_obj_lookup_append(s1 + s2 + s3 + s4, s5, "title"@);
        crate::json::lemma_obj_lookup_append(s1 + s2 + s3 + s4 + s5, s6, "title"@);
        crate::json::lemma_obj_lookup_append(s1 + s2 + s3 + s4 + s5 + s6, s7, "title"@);
        crate::json::lemma_obj_lookup_append(s1 + s2 + s3 + s4 + s5 + s6 + s7, s8, "title"@);
    }
}

/// A decoded string-valued member: outer `None` means a present entry of
/// the wrong shape; `Some(None)` means the entry is absent.
pub open spec fn dec_str_field(m: Seq<(Seq<char>, JsonModel)>, key: Seq<char>) -> Option<
    Option<Seq<char>>,
> {
    match obj_lookup(m, key) {
        Option::None => Option::Some(Option::None),
        Option::Some(JsonModel::Str(s)) => Option::Some(Option::Some(s)),
        Option::Some(_) => Option::None,
    }
}

/// A decoded object-valued member, as [`dec_str_field`].
pub open spec fn dec_obj_field(m: Seq<(Seq<char>, JsonModel)>, key: Seq<char>) -> Option<
    Option<Seq<(Seq<char>, JsonModel)>>,
> {
    match obj_lookup(m, key) {
        Option::None => Option::Some(Option::None),
        Option::Some(JsonModel::Object(o)) => Option::Some(Option::Some(o)),
        Option::Some(_) => Option::None,
    }
}

/// A decoded status string: exactly three decimal digits without a
/// leading zero, the canonical form of the codes 100 through 999.
pub open spec fn status_from_chars(s: Seq<char>) -> Option<int> {
    if s.len() == 3 && is_dec_digit(s[0]) && is_dec_digit(s[1]) && is_dec_digit(s[2]) && s[0]
        != '0' {
        Some(dval(s[0]) * 100 + dval(s[1]) * 10 + dval(s[2]))
    } else {
        None
    }
}

/// The decoded `status` member: 200 when absent, mirroring the default.
pub open spec fn dec_status_field(m: Seq<(Seq<char>, JsonModel)>) -> Option<int> {
    match obj_lookup(m, "status"@) {
        Option::None => Option::Some(200int),
        Option::Some(JsonModel::Str(s)) => status_from_chars(s),
        Option::Some(_) => Option::None,
    }
}

/// The error object read back from its wire form, if it is well-shaped.
pub open spec fn decode_error(j: JsonModel) -> Option<ErrorModel> {
    match j {
        JsonModel::Object(m) => {
            if dec_str_field(m, "detail"@) is Some && dec_str_field(m, "title"@) is Some
                && dec_obj_field(m, "meta"@) is Some && dec_str_field(m, "id"@) is Some
                && dec_obj_field(m, "links"@) is Some && dec_status_field(m) is Some
                && dec_str_field(m, "code"@) is Some && dec_obj_field(m, "source"@) is Some {
                Some(
                    ErrorModel {
                        detail: match dec_str_field(m, "detail"@)->Some_0 {
                            Some(s) => s,
                            None => Seq::empty(),
                        },
                        title: dec_str_field(m, "title"@)->Some_0,
                        meta: dec_obj_field(m, "meta"@)->Some_0,
                        id: dec_str_field(m, "id"@)->Some_0,
                        links: dec_obj_field(m, "links"@)->Some_0,
                        status: dec_status_field(m)->Some_0,
                        code: dec_str_field(m, "code"@)->Some_0,
                        source: dec_obj_field(m, "source"@)->Some_0,
                    },
                )
            } else {
                None
            }
        },
        _ => None,
    }
}

/// The error objects read back from a wire array, if every element is
/// well-shaped.
pub open spec fn decode_errors_seq(a: Seq<JsonModel>) -> Option<Seq<ErrorModel>>
    decreases a.len(),
{
    if a.len() == 0 {
        Some(Seq::empty())
    } else {
        match (decode_errors_seq(a.subrange(0, a.len() - 1)), decode_error(a[a.len() - 1])) {
            (Some(p), Some(e)) => Some(p.push(e)),
            _ => None,
        }
    }
}

/// The error response read back from its wire form: the array under the
/// `errors` key, decoded element by element.
pub open spec fn decode_response(j: JsonModel) -> Option<Seq<ErrorModel>> {
    match j {
        JsonModel::Object(m) => match obj_lookup(m, "errors"@) {
            Option::Some(JsonModel::Array(a)) => decode_errors_seq(a),
            _ => None,
        },
        _ => None,
    }
}

/// Whether `s` is an HTTP status code.
pub open spec fn valid_status(s: int) -> bool {
    100 <= s <= 999
}

/// The canonical decimal form of a status code decodes to that code.
pub proof fn lemma_status_round_trip(n: int)
    requires
        valid_status(n),
    ensures
        status_from_chars(dec_int(n)) == Some(n),
{
    crate::json::lemma_dec_nat_three_digits(n as nat);
    crate::json::lemma_dec_digit_val(n / 100);
    crate::json::lemma_dec_digit_val((n / 10) % 10);
    crate::json::lemma_dec_digit_val(n % 10);
    assert(n / 10 / 10 == n / 100) by {
        vstd::arithmetic::div_mod::lemma_div_denominator(n, 10, 10);
    }
    assert(100 * (n / 100) + 10 * ((n / 10) % 10) + n % 10 == n);
}

/// Encoding one error object and reading it back yields the object
/// unchanged, for every valid status.
pub proof fn lemma_error_round_trip(e: ErrorModel)
    requires
        valid_status(e.status),
    ensures
        decode_error(error_json(e)) == Some(e),
{
    lemma_error_fields_lookup(e);
    lemma_status_round_trip(e.status);
    let m = error_fields(e);
    let d = decode_error(error_json(e));
    assert(d is Some);
    if e.detail.len() == 0 {
        assert(d->Some_0.detail =~= e.detail);
    }
    assert(d->Some_0 =~= e);
}

/// Encoding a whole error response and reading it back yields the same
/// sequence of error objects: same length, same order, every field kept.
pub proof fn lemma_response_round_trip(errs: Seq<ErrorModel>)
    requires
        forall|i: int| 0 <= i < errs.len() ==> valid_status(#[trigger] errs[i].status),
    ensures
        decode_response(response_json(errs)) == Some(errs),
{
    reveal_strlit("errors");
    let m = seq![("errors"@, JsonModel::Array(errors_array(errs)))];
    assert(obj_lookup(m, "errors"@) == Some(JsonModel::Array(errors_array(errs))));
    lemma_errors_seq_round_trip(errs);
    assert(decode_errors_seq(errors_array(errs)) == Some(errs));
}

proof fn lemma_errors_seq_round_trip(errs: Seq<ErrorModel>)
    requires
        forall|i: int| 0 <= i < errs.len() ==> valid_status(#[trigger] errs[i].status),
    ensures
        decode_errors_seq(errors_array(errs)) == Some(errs),
    decreases errs.len(),
{
    let a = errors_array(errs);
    if errs.len() == 0 {
        assert(decode_errors_seq(a) == Some(Seq::<ErrorModel>::empty()));
        assert(errs =~= Seq::<ErrorModel>::empty());
    } else {
        let prefix = errs.subrange(0, errs.len() - 1);
        lemma_errors_seq_round_trip(prefix);
        lemma_error_round_trip(errs[errs.len() - 1]);
        assert(a.subrange(0, a.len() - 1) =~= errors_array(prefix));
        assert(a[a.len() - 1] == error_json(errs[errs.len() - 1]));
        assert(prefix.push(errs[errs.len() - 1]) =~= errs);
    }
}

fn digit_val(c: char) -> (r: Option<u16>)
    ensures
        match r {
            Some(d) => is_dec_digit(c) && dval(c) == d as int && d <= 9,
            None => !is_dec_digit(c),
        },
{
    if c == '0' {
        Some(0)
    } else if c == '1' {
        Some(1)
    } else if c == '2' {
        Some(2)
    } else if c == '3' {
        Some(3)
    } else if c == '4' {
        Some(4)
    } else if c == '5' {
        Some(5)
    } else if c == '6' {
        Some(6)
    } else if c == '7' {
        Some(7)
    } else if c == '8' {
        Some(8)
    } else if c == '9' {
        Some(9)
    } else {
        None
    }
}

/// Parse a status string in its canonical three-digit form.
pub fn parse_status(s: &String) -> (r: Option<u16>)
    ensures
        match r {
            Some(n) => status_from_chars(s@) == Some(n as int),
            None => status_from_chars(s@) is None,
        },
{
    let st = s.as_str();
    let n = st.unicode_len();
    if n != 3 {
        return None;
    }
    let c0 = st.get_char(0);
    let c1 = st.get_char(1);
    let c2 = st.get_char(2);
    match (digit_val(c0), digit_val(c1), digit_val(c2)) {
        (Some(d0), Some(d1), Some(d2)) => {
            if c0 != '0' {
                Some(d0 * 100 + d1 * 10 + d2)
            } else {
                None
            }
        },
        _ => None,
    }
}

/// Read one error object back from its JSON value; exactly the inverse
/// described by [`decode_error`].
pub fn error_from_json(j: &JsonValue) -> (r: Option<ErrorWithMessage>)
    ensures
        match r {
            Some(e) => decode_error(j@) == Some(e@),
            None => decode_error(j@) is None,
        },
{
    let entries = match j {
        JsonValue::Object(m) => m,
        _ => {
            return None;
        },
    };
    let detail: String = match crate::json::lookup(entries, &String::from_str("detail")) {
        None => String::new(),
        Some(JsonValue::Str(s)) => s.clone(),
        Some(_) => {
            return None;
        },
    };
    let title: Option<String> = match crate::json::lookup(entries, &String::from_str("title")) {
        None => None,
        Some(JsonValue::Str(s)) => Some(s.clone()),
        Some(_) => {
            return None;
        },
    };
    let meta: Option<JsObj> = match crate::json::lookup(entries, &String::from_str("meta")) {
        None => None,
        Some(JsonValue::Object(mm)) => {
            let c = crate::json::clone_entries(mm, mm.len());
            proof {
                assert(mm@.take(mm@.len() as int) =~= mm@);
            }
            Some(JsObj::new(c))
        },
        Some(_) => {
            return None;
        },
    };
    let id: Option<String> = match crate::json::lookup(entries, &String::from_str("id")) {
        None => None,
        Some(JsonValue::Str(s)) => Some(s.clone()),
        Some(_) => {
            return None;
        },
    };
    let links: Option<JsObj> = match crate::json::lookup(entries, &String::from_str("links")) {
        None => None,
        Some(JsonValue::Object(mm)) => {
            let c = crate::json::clone_entries(mm, mm.len());
            proof {
                assert(mm@.take(mm@.len() as int) =~= mm@);
            }
            Some(JsObj::new(c))
        },
        Some(_) => {
            return None;
        },
    };
    let status: u16 = match crate::json::lookup(entries, &String::from_str("status")) {
        None => 200,
        Some(JsonValue::Str(s)) => match parse_status(s) {
            Some(n) => n,
            None => {
                return None;
            },
        },
        Some(_) => {
            return None;
        },
    };
    let code: Option<String> = match crate::json::lookup(entries, &String::from_str("code")) {
        None => None,
        Some(JsonValue::Str(s)) => Some(s.clone()),
        Some(_) => {
            return None;
        },
    };
    let source: Option<JsObj> = match crate::json::lookup(entries, &String::from_str("source")) {
        None => None,
        Some(JsonValue::Object(mm)) => {
            let c = crate::json::clone_entries(mm, mm.len());
            proof {
                assert(mm@.take(mm@.len() as int) =~= mm@);
            }
            Some(JsObj::new(c))
        },
        Some(_) => {
            return None;
        },
    };
    let e = ErrorWithMessage { detail, title, meta, id, links, status, code, source };
    proof {
        assert(decode_error(j@) is Some);
        assert(decode_error(j@)->Some_0 =~= e@);
    }
    Some(e)
}

proof fn lemma_decode_errors_seq_fail(a: Seq<JsonModel>, i: int)
    requires
        0 <= i < a.len(),
        decode_error(a[i]) is None,
    ensures
        decode_errors_seq(a) is None,
    decreases a.len(),
{
    if i < a.len() - 1 {
        lemma_decode_errors_seq_fail(a.subrange(0, a.len() - 1), i);
    }
}

/// Read a whole error response back from its JSON value; exactly the
/// inverse described by [`decode_response`].
pub fn error_response_from_json(j: &JsonValue) -> (r: Option<ErrorResponse>)
    ensures
        match r {
            Some(resp) => decode_response(j@) == Some(resp@),
            None => decode_response(j@) is None,
        },
{
    let entries = match j {
        JsonValue::Object(m) => m,
        _ => {
            return None;
        },
    };
    let arr = match crate::json::lookup(entries, &String::from_str("errors")) {
        Some(JsonValue::Array(a)) => a,
        Some(_) => {
            return None;
        },
        None => {
            return None;
        },
    };
    let ghost am = json_model_seq(arr@);
    proof {
        crate::json::lemma_json_model_seq(arr@);
    }
    let n = arr.len();
    let mut errors: Vec<ErrorWithMessage> = Vec::new();
    proof {
        assert(am.take(0int) =~= Seq::<JsonModel>::empty());
        assert(Seq::new(errors@.len(), |k: int| errors@[k]@) =~= Seq::<ErrorModel>::empty());
    }
    let mut i: usize = 0;
    while i < n
        invariant
            i <= n,
            n == arr@.len(),
            am == json_model_seq(arr@),
            am.len() == n,
            decode_response(j@) == decode_errors_seq(am),
            forall|k: int| 0 <= k < n ==> am[k] == json_model(arr@[k]),
            decode_errors_seq(am.take(i as int)) == Some(
                Seq::new(errors@.len(), |k: int| errors@[k]@),
            ),
        decreases n - i,
    {
        match error_from_json(&arr[i]) {
            Some(e) => {
                let ghost prev = Seq::new(errors@.len(), |k: int| errors@[k]@);
                errors.push(e);
                proof {
                    let t = am.take(i as int + 1);
                    assert(t.subrange(0, t.len() - 1) =~= am.take(i as int));
                    assert(t[t.len() - 1] == am[i as int]);
                    assert(Seq::new(errors@.len(), |k: int| errors@[k]@) =~= prev.push(
                        errors@[errors@.len() - 1]@,
                    ));
                }
            },
            None => {
                proof {
                    lemma_decode_errors_seq_fail(am, i as int);
                }
                return None;
            },
        }
        i = i + 1;
    }
    proof {
        assert(am.take(n as int) =~= am);
    }
    let resp = ErrorResponse { errors };
    proof {
        assert(resp@ =~= Seq::new(resp.errors@.len(), |k: int| resp.errors@[k]@));
    }
    Some(resp)
}

} // verus!
