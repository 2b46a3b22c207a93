//! The framework-neutral renderer: it turns a [`WebResult`] into an HTTP
//! status code, an optional `X-Total-Count` header value, and a JSON
//! body.  Adapters for concrete web frameworks only need to copy these
//! three plain values into their native response type.

use vstd::prelude::*;

use crate::json::json_text;
use crate::json::json_to_string;
use crate::json::obj_lookup;
use crate::json::JsonModel;
use crate::json::JsonValue;
use crate::responses::error_response_to_json;
use crate::responses::response_json;
use crate::responses::ErrorModel;
use crate::responses::ErrorWithMessage;
use crate::responses::WebResult;
use crate::responses::WebResultModel;

verus! {

/// The overall HTTP status of a sequence of error objects: the maximum
/// of their statuses, or 500 when there are none.
pub open spec fn resolved_status(errs: Seq<ErrorModel>) -> int
    decreases errs.len(),
{
    if errs.len() == 0 {
        500
    } else if errs.len() == 1 {
        errs[0].status
    } else {
        let prev = resolved_status(errs.subrange(0, errs.len() - 1));
        if errs[errs.len() - 1].status >= prev {
            errs[errs.len() - 1].status
        } else {
            prev
        }
    }
}

/// The resolved status dominates every per-error status, and is carried
/// by one of the error objects whenever there is at least one of them;
/// an empty collection resolves to 500.
pub proof fn lemma_resolved_status_is_max(errs: Seq<ErrorModel>)
    ensures
        errs.len() == 0 ==> resolved_status(errs) == 500,
        forall|i: int| 0 <= i < errs.len() ==> #[trigger] errs[i].status <= resolved_status(errs),
        errs.len() > 0 ==> exists|i: int|
            0 <= i < errs.len() && #[trigger] errs[i].status == resolved_status(errs),
    decreases errs.len(),
{
    if errs.len() > 1 {
        let prefix = errs.subrange(0, errs.len() - 1);
        lemma_resolved_status_is_max(prefix);
        assert forall|i: int| 0 <= i < errs.len() implies #[trigger] errs[i].status
            <= resolved_status(errs) by {
            if i < errs.len() - 1 {
                assert(prefix[i] == errs[i]);
                assert(prefix[i].status <= resolved_status(prefix));
            }
        }
        if errs[errs.len() - 1].status < resolved_status(prefix) {
            let j = choose|i: int|
                0 <= i < prefix.len() && #[trigger] prefix[i].status == resolved_status(prefix);
            assert(errs[j].status == resolved_status(errs));
        }
    }
}

/// The `X-Total-Count` header of a success payload: the JSON text of the
/// value under `full_count` when the payload is an object carrying that
/// key, and nothing otherwise.
pub open spec fn total_count_header(v: JsonModel) -> Option<Seq<char>> {
    match v {
        JsonModel::Object(m) => match obj_lookup(m, "full_count"@) {
            Some(t) => Some(json_text(t)),
            None => None,
        },
        _ => None,
    }
}

/// The mathematical value of a [`RenderedResponse`].
#[verifier::ext_equal]
pub struct RenderedModel {
    pub status: int,
    pub total_count: Option<Seq<char>>,
    pub body: Seq<char>,
}

/// A rendered response: what every framework adapter needs, as plain
/// values.
#[derive(Debug, PartialEq)]
pub struct RenderedResponse {
    /// The HTTP status code of the response line.
    pub status: u16,
    /// The value of the `X-Total-Count` header, when it is to be set.
    pub total_count: Option<String>,
    /// The JSON body.
    pub body: String,
}

impl View for RenderedResponse {
    type V = RenderedModel;

    open spec fn view(&self) -> RenderedModel {
        RenderedModel {
            status: self.status as int,
            total_count: match self.total_count {
                Some(s) => Some(s@),
                None => None,
            },
            body: self.body@,
        }
    }
}

/// What rendering an envelope yields: on success, status 200, the body
/// is the payload's JSON text, and the header carries `full_count` when
/// present; on failure, the resolved status and the error response body.
pub open spec fn spec_render(w: WebResultModel) -> RenderedModel {
    match w {
        WebResultModel::Success(v) => RenderedModel {
            status: 200,
            total_count: total_count_header(v),
            body: json_text(v),
        },
        WebResultModel::Failure(errs) => RenderedModel {
            status: resolved_status(errs),
            total_count: None,
            body: json_text(response_json(errs)),
        },
    }
}

/// Rendering is a function of the envelope's value alone: two renderings
/// of the same envelope are identical, byte for byte.
pub proof fn lemma_render_deterministic(w: WebResultModel, a: RenderedModel, b: RenderedModel)
    requires
        a == spec_render(w),
        b == spec_render(w),
    ensures
        a == b,
{
}

fn overall_status(errors: &Vec<ErrorWithMessage>) -> (s: u16)
    ensures
        s as int == resolved_status(
            Seq::new(errors@.len(), |i: int| errors@[i]@),
        ),
{
    let ghost em = Seq::new(errors@.len(), |i: int| errors@[i]@);
    let n = errors.len();
    if n == 0 {
        proof {
            assert(em.len() == 0);
        }
        return 500;
    }
    let mut best: u16 = errors[0].status;
    proof {
        assert(em.take(1int) =~= seq![em[0]]);
    }
    let mut i: usize = 1;
    while i < n
        invariant
            1 <= i <= n,
            n == errors@.len(),
            em == Seq::new(errors@.len(), |k: int| errors@[k]@),
            best as int == resolved_status(em.take(i as int)),
        decreases n - i,
    {
        let s = errors[i].status;
        proof {
            let t = em.take(i as int + 1);
            assert(t.subrange(0, t.len() - 1) =~= em.take(i as int));
            assert(t[t.len() - 1] == em[i as int]);
            assert(t.len() >= 2);
        }
        if s >= best {
            best = s;
        }
        i = i + 1;
    }
    proof {
        assert(em.take(n as int) =~= em);
    }
    best
}

impl WebResult {
    /// Render this envelope into the plain values of an HTTP response;
    /// the result is exactly [`spec_render`] of the envelope's value.
    pub fn render(&self) -> (r: RenderedResponse)
        ensures
            r@ == spec_render(self@),
    {
        match self {
            WebResult::Success(v) => {
                let total_count: Option<String> = match v {
                    JsonValue::Object(m) => {
                        match crate::json::lookup(m, &String::from_str("full_count")) {
                            Some(t) => Some(json_to_string(t)),
                            None => None,
                        }
                    },
                    _ => None,
                };
                let r = RenderedResponse { status: 200, total_count, body: json_to_string(v) };
                proof {
                    assert(r@ =~= spec_render(self@));
                }
                r
            },
            WebResult::Failure(e) => {
                let status = overall_status(&e.errors);
                let j = error_response_to_json(e);
                let r = RenderedResponse { status, total_count: None, body: json_to_string(&j) };
                proof {
                    assert(r@ =~= spec_render(self@));
                }
                r
            },
        }
    }
}

} // verus!
