//! The dispatcher's decision logic: route a request to a callback, and turn
//! the awaited outcome into exactly one HTTP response.

use crate::methods::Methods;
use crate::read_only::{lookup_spec_ok, Router};
use crate::response::{spec_render, HttpResponseData, JsResponse};
use vstd::prelude::*;
use vstd::utf8::encode_utf8;

verus! {

/// The budget, in seconds, the dispatcher waits on the response channel
/// before answering 408.
pub const CALLBACK_TIMEOUT_SECS: u64 = 10;

/// What awaiting the response channel can end in: the callback's record, a
/// dropped producer (the callback never sent), or the timeout.
pub enum DispatchOutcome {
    Completed(JsResponse),
    ProducerDropped,
    TimedOut,
}

/// The body of the not-found answer for a literal request path.
pub open spec fn not_found_body(path: Seq<char>) -> Seq<char> {
    "{\"error\":\"Route not found\",\"path\":\""@ + path + "\"}"@
}

/// The not-found answer: 404 with a JSON body naming the path.
pub fn not_found_response(path: &str) -> (r: HttpResponseData)
    ensures
        r.deep_view().status == 404,
        r.deep_view().content_type == "application/json"@,
        r.deep_view().headers.len() == 0,
        r.deep_view().body == encode_utf8(not_found_body(path@)),
{
    let mut body = String::from_str("{\"error\":\"Route not found\",\"path\":\"");
    body.append(path);
    body.append("\"}");
    let r = HttpResponseData {
        status: 404,
        content_type: String::from_str("application/json"),
        headers: Vec::new(),
        body: body.as_str().as_bytes_vec(),
    };
    assert(body@ == not_found_body(path@));
    r
}

/// The body sent when the callback dropped the channel without answering.
pub open spec fn producer_dropped_body() -> Seq<char> {
    "{\"error\":\"JavaScript callback did not send response\"}"@
}

/// The body sent when the callback exceeded the timeout budget.
pub open spec fn timeout_body() -> Seq<char> {
    "{\"error\":\"Request timeout - JavaScript callback took too long\"}"@
}

/// Turn the awaited outcome into the one HTTP response of this request: the
/// callback's record rendered, 500 when the producer vanished, 408 on
/// timeout.
pub fn completion_to_response(o: DispatchOutcome) -> (r: HttpResponseData)
    ensures
        o matches DispatchOutcome::Completed(resp) ==> r.deep_view() == spec_render(
            resp.deep_view(),
        ),
        o is ProducerDropped ==> r.deep_view().status == 500 && r.deep_view().content_type
            == "application/json"@ && r.deep_view().headers.len() == 0 && r.deep_view().body
            == encode_utf8(producer_dropped_body()),
        o is TimedOut ==> r.deep_view().status == 408 && r.deep_view().content_type
            == "application/json"@ && r.deep_view().headers.len() == 0 && r.deep_view().body
            == encode_utf8(timeout_body()),
{
    match o {
        DispatchOutcome::Completed(resp) => resp.into_http_response(),
        DispatchOutcome::ProducerDropped => HttpResponseData {
            status: 500,
            content_type: String::from_str("application/json"),
            headers: Vec::new(),
            body: String::from_str("{\"error\":\"JavaScript callback did not send response\"}")
                .as_str()
                .as_bytes_vec(),
        },
        DispatchOutcome::TimedOut => HttpResponseData {
            status: 408,
            content_type: String::from_str("application/json"),
            headers: Vec::new(),
            body: String::from_str(
                "{\"error\":\"Request timeout - JavaScript callback took too long\"}",
            )
                .as_str()
                .as_bytes_vec(),
        },
    }
}

/// The routing step of one request: find the callback and the captured
/// parameters, through the cache; an unknown method is a miss.
pub fn dispatch_route(router: &mut Router, method_str: &str, path: &str) -> (r: Option<
    (u64, Vec<(String, String)>),
>)
    requires
        old(router).wf(),
    ensures
        final(router).wf(),
        final(router).store == old(router).store,
        final(router).reader == old(router).reader,
        match Methods::spec_from_str(method_str@) {
            Option::Some(m) => lookup_spec_ok(
                old(router).reader.routes(m),
                path@,
                r.deep_view(),
            ),
            Option::None => r is None,
        },
{
    match Methods::convert_from_str(method_str) {
        Some(m) => router.get_route_with_params_cached(path, m),
        None => None,
    }
}

} // verus!
