//! The query endpoint, the cross-origin policy, and the translation of
//! rejected requests into HTTP responses.

use vstd::prelude::*;

use crate::json;
use crate::json::render_array;
use crate::store::Store;

verus! {

/// The query-string parameters the endpoint recognizes. Only `start` is
/// read; it is accepted and then ignored, so it never filters the result.
#[derive(Clone, Debug)]
pub struct QueryParams {
    pub start: Option<String>,
}

/// An HTTP status code and response body.
#[derive(Clone, Debug)]
pub struct HttpResponse {
    pub status: u16,
    pub body: String,
}

/// A request that produced no successful response: either the cross-origin
/// policy rejected it, or no specific cause is known, an unmatched route
/// above all.
#[derive(Clone, Debug)]
pub enum Rejection {
    /// The request violated the cross-origin policy; the message describes
    /// the violation.
    CorsForbidden { message: String },
    /// Any other cause, an unmatched route above all.
    Other,
}

/// Lists every record of the store as a JSON array, ignoring the query
/// parameters.
#[allow(unused_variables)]
pub fn get_questions(params: &QueryParams, store: &Store) -> (r: HttpResponse)
    ensures
        r.status == 200,
        r.body@ == render_array(store@),
{
    let body = json::render_questions_array(store.snapshot_all());
    HttpResponse { status: 200, body }
}

/// The endpoint is read-only and ignores its query parameters: any two
/// responses computed from the same store are identical, whatever each
/// call's parameters were.
pub proof fn lemma_query_idempotent(
    store: Store,
    p1: QueryParams,
    p2: QueryParams,
    r1: HttpResponse,
    r2: HttpResponse,
)
    requires
        r1.status == 200 && r1.body@ == render_array(store@),
        r2.status == 200 && r2.body@ == render_array(store@),
    ensures
        r1.status == r2.status,
        r1.body@ == r2.body@,
{
}

/// The status a rejection translates to: 403 for a cross-origin denial, 404
/// for everything else.
pub open spec fn rejection_status(r: Rejection) -> u16 {
    match r {
        Rejection::CorsForbidden { message } => 403,
        Rejection::Other => 404,
    }
}

/// The body a rejection translates to: the policy's message for a
/// cross-origin denial, a fixed note for everything else.
pub open spec fn rejection_body(r: Rejection) -> Seq<char> {
    match r {
        Rejection::CorsForbidden { message } => message@,
        Rejection::Other => "Route not found"@,
    }
}

/// Renders a rejected request as an HTTP response: a cross-origin denial
/// becomes 403 with the policy's message, and every other cause becomes 404
/// with the body `Route not found`.
pub fn return_error(r: &Rejection) -> (resp: HttpResponse)
    ensures
        resp.status == rejection_status(*r),
        resp.body@ == rejection_body(*r),
{
    match r {
        Rejection::CorsForbidden { message } => HttpResponse {
            status: 403,
            body: message.clone(),
        },
        Rejection::Other => HttpResponse { status: 404, body: "Route not found".to_owned() },
    }
}

/// The methods the cross-origin policy allows on every route.
pub open spec fn spec_allowed_methods() -> Seq<Seq<char>> {
    seq!["PUT"@, "DELETE"@, "GET"@, "POST"@]
}

/// The cross-origin policy allows the method. The policy places no
/// condition on the request's origin: every origin is allowed.
pub open spec fn method_allowed(m: Seq<char>) -> bool {
    spec_allowed_methods().contains(m)
}

/// The methods the cross-origin policy allows, for the transport layer to
/// enforce.
pub fn allowed_methods() -> (r: Vec<&'static str>)
    ensures
        r@.len() == spec_allowed_methods().len(),
        forall|i: int| 0 <= i < r@.len() ==> r@[i]@ == spec_allowed_methods()[i],
{
    let mut r: Vec<&'static str> = Vec::new();
    r.push("PUT");
    r.push("DELETE");
    r.push("GET");
    r.push("POST");
    proof {
        assert forall|i: int| 0 <= i < r@.len() implies r@[i]@ == spec_allowed_methods()[i] by {
            if i == 0 {
            } else if i == 1 {
            } else if i == 2 {
            } else {
                assert(i == 3);
            }
        }
    }
    r
}

/// The one request header the cross-origin policy allows.
pub fn allowed_header() -> (r: &'static str)
    ensures
        r@ == "content-type"@,
{
    "content-type"
}

/// Decides whether the cross-origin policy allows a method.
pub fn is_method_allowed(m: &str) -> (r: bool)
    ensures
        r == method_allowed(m@),
{
    let r = json::str_eq(m, "PUT") || json::str_eq(m, "DELETE") || json::str_eq(m, "GET")
        || json::str_eq(m, "POST");
    proof {
        if r {
            assert(spec_allowed_methods().contains(m@)) by {
                if m@ == "PUT"@ {
                    assert(spec_allowed_methods()[0] == m@);
                } else if m@ == "DELETE"@ {
                    assert(spec_allowed_methods()[1] == m@);
                } else if m@ == "GET"@ {
                    assert(spec_allowed_methods()[2] == m@);
                } else {
                    assert(spec_allowed_methods()[3] == m@);
                }
            }
        } else {
            assert(!spec_allowed_methods().contains(m@)) by {
                if spec_allowed_methods().contains(m@) {
                    let i = choose|i: int|
                        0 <= i < spec_allowed_methods().len() && spec_allowed_methods()[i] == m@;
                    assert(i == 0 || i == 1 || i == 2 || i == 3);
                }
            }
        }
    }
    r
}

} // verus!
