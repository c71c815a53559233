//! The response record a callback produces, and its translation into plain
//! HTTP response data (status, content type, headers, body).

use vstd::prelude::*;
use vstd::utf8::encode_utf8;

verus! {

/// The payload variants a callback can send.
pub enum InnerResp {
    Text(String),
    Json(String),
    Raw(Vec<u8>),
    EmptyString,
    ServerError,
    ServerErrorWithMessage(String),
}

/// The mathematical value of a payload.
pub enum InnerRespView {
    Text(Seq<char>),
    Json(Seq<char>),
    Raw(Seq<u8>),
    EmptyString,
    ServerError,
    ServerErrorWithMessage(Seq<char>),
}

impl DeepView for InnerResp {
    type V = InnerRespView;

    open spec fn deep_view(&self) -> InnerRespView {
        match self {
            InnerResp::Text(t) => InnerRespView::Text(t@),
            InnerResp::Json(j) => InnerRespView::Json(j@),
            InnerResp::Raw(b) => InnerRespView::Raw(b@),
            InnerResp::EmptyString => InnerRespView::EmptyString,
            InnerResp::ServerError => InnerRespView::ServerError,
            InnerResp::ServerErrorWithMessage(m) => InnerRespView::ServerErrorWithMessage(m@),
        }
    }
}

/// The record the callback hands back over the response channel: payload,
/// optional status override, optional ordered custom headers.
pub struct JsResponse {
    pub inner: InnerResp,
    pub status_code: Option<u16>,
    pub headers: Option<Vec<(String, String)>>,
}

/// The mathematical value of a response record.
pub struct JsResponseView {
    pub inner: InnerRespView,
    pub status_code: Option<u16>,
    pub headers: Option<Seq<(Seq<char>, Seq<char>)>>,
}

impl DeepView for JsResponse {
    type V = JsResponseView;

    open spec fn deep_view(&self) -> JsResponseView {
        JsResponseView {
            inner: self.inner.deep_view(),
            status_code: self.status_code,
            headers: match &self.headers {
                Option::Some(hs) => Some(hs.deep_view()),
                Option::None => None,
            },
        }
    }
}

/// A rendered HTTP response as plain data, ready for the HTTP layer.
pub struct HttpResponseData {
    pub status: u16,
    pub content_type: String,
    pub headers: Vec<(String, String)>,
    pub body: Vec<u8>,
}

/// The mathematical value of a rendered response.
pub struct HttpResponseView {
    pub status: u16,
    pub content_type: Seq<char>,
    pub headers: Seq<(Seq<char>, Seq<char>)>,
    pub body: Seq<u8>,
}

impl DeepView for HttpResponseData {
    type V = HttpResponseView;

    open spec fn deep_view(&self) -> HttpResponseView {
        HttpResponseView {
            status: self.status,
            content_type: self.content_type@,
            headers: self.headers.deep_view(),
            body: self.body@,
        }
    }
}

// ---------------------------------------------------------------------------
// Header validity (HTTP field rules)
// ---------------------------------------------------------------------------
/// A token character, as HTTP allows in a header name.
pub open spec fn is_tchar(c: char) -> bool {
    ||| ('a' <= c && c <= 'z')
    ||| ('A' <= c && c <= 'Z')
    ||| ('0' <= c && c <= '9')
    ||| c == '!'
    ||| c == '#'
    ||| c == '$'
    ||| c == '%'
    ||| c == '&'
    ||| c == '\''
    ||| c == '*'
    ||| c == '+'
    ||| c == '-'
    ||| c == '.'
    ||| c == '^'
    ||| c == '_'
    ||| c == '`'
    ||| c == '|'
    ||| c == '~'
}

pub open spec fn spec_header_name_ok(s: Seq<char>) -> bool {
    s.len() > 0 && forall|i: int| 0 <= i < s.len() ==> is_tchar(#[trigger] s[i])
}

/// A header value may hold horizontal tab and any character but the other
/// controls; a malformed value makes the pair be skipped.
pub open spec fn spec_header_value_ok(s: Seq<char>) -> bool {
    forall|i: int|
        0 <= i < s.len() ==> (#[trigger] s[i] == '\t' || (s[i] as u32 >= 32 && s[i] as u32 != 127))
}

#[verifier::loop_isolation(false)]
fn header_name_ok(s: &str) -> (r: bool)
    ensures
        r == spec_header_name_ok(s@),
{
    let n = s.unicode_len();
    if n == 0 {
        return false;
    }
    let mut i: usize = 0;
    while i < n
        invariant
            n == s@.len(),
            0 <= i <= n,
            forall|j: int| 0 <= j < i ==> is_tchar(#[trigger] s@[j]),
        decreases n - i,
    {
        let c = s.get_char(i);
        let ok = ('a' <= c && c <= 'z') || ('A' <= c && c <= 'Z') || ('0' <= c && c <= '9') || c
            == '!' || c == '#' || c == '$' || c == '%' || c == '&' || c == '\'' || c == '*' || c
            == '+' || c == '-' || c == '.' || c == '^' || c == '_' || c == '`' || c == '|' || c
            == '~';
        if !ok {
            assert(!is_tchar(s@[i as int]));
            return false;
        }
        i = i + 1;
    }
    true
}

#[verifier::loop_isolation(false)]
fn header_value_ok(s: &str) -> (r: bool)
    ensures
        r == spec_header_value_ok(s@),
{
    let n = s.unicode_len();
    let mut i: usize = 0;
    while i < n
        invariant
            n == s@.len(),
            0 <= i <= n,
            forall|j: int|
                0 <= j < i ==> (#[trigger] s@[j] == '\t' || (s@[j] as u32 >= 32 && s@[j] as u32
                    != 127)),
        decreases n - i,
    {
        let c = s.get_char(i);
        let u = c as u32;
        if !(c == '\t' || (u >= 32 && u != 127)) {
            assert(!(s@[i as int] == '\t' || (s@[i as int] as u32 >= 32 && s@[i as int] as u32
                != 127)));
            return false;
        }
        i = i + 1;
    }
    true
}

/// One header pair survives when both its name and its value are well
/// formed.
pub open spec fn header_pair_ok(p: (Seq<char>, Seq<char>)) -> bool {
    spec_header_name_ok(p.0) && spec_header_value_ok(p.1)
}

/// The custom headers that survive, in their original order.
pub open spec fn spec_filter_headers(hs: Seq<(Seq<char>, Seq<char>)>) -> Seq<
    (Seq<char>, Seq<char>),
>
    decreases hs.len(),
{
    if hs.len() == 0 {
        Seq::empty()
    } else {
        spec_filter_headers(hs.drop_last()) + (if header_pair_ok(hs.last()) {
            seq![hs.last()]
        } else {
            Seq::empty()
        })
    }
}

proof fn lemma_filter_take_step(hs: Seq<(Seq<char>, Seq<char>)>, k: int)
    requires
        0 <= k < hs.len(),
    ensures
        spec_filter_headers(hs.subrange(0, k + 1)) == spec_filter_headers(hs.subrange(0, k)) + (
        if header_pair_ok(hs[k]) {
            seq![hs[k]]
        } else {
            Seq::<(Seq<char>, Seq<char>)>::empty()
        }),
{
    let h1 = hs.subrange(0, k + 1);
    assert(h1.drop_last() =~= hs.subrange(0, k));
    assert(h1.last() == hs[k]);
}

#[verifier::loop_isolation(false)]
fn filter_headers(hs: &Vec<(String, String)>) -> (r: Vec<(String, String)>)
    ensures
        r.deep_view() == spec_filter_headers(hs.deep_view()),
{
    let ghost hv = hs.deep_view();
    let mut out: Vec<(String, String)> = Vec::new();
    let mut i: usize = 0;
    while i < hs.len()
        invariant
            hv == hs.deep_view(),
            hs@.len() == hv.len(),
            0 <= i <= hv.len(),
            out.deep_view() =~= spec_filter_headers(hv.subrange(0, i as int)),
        decreases hs.len() - i,
    {
        assert(hv[i as int] == (hs@[i as int].0@, hs@[i as int].1@));
        if header_name_ok(hs[i].0.as_str()) && header_value_ok(hs[i].1.as_str()) {
            let name = hs[i].0.clone();
            let value = hs[i].1.clone();
            let ghost prev = out.deep_view();
            out.push((name, value));
            assert(out@.len() == prev.len() + 1);
            assert(out.deep_view()[prev.len() as int] == hv[i as int]);
            proof {
                lemma_filter_take_step(hv, i as int);
            }
            assert(out.deep_view() =~= spec_filter_headers(hv.subrange(0, i + 1)));
        } else {
            proof {
                lemma_filter_take_step(hv, i as int);
            }
            assert(out.deep_view() =~= spec_filter_headers(hv.subrange(0, i + 1)));
        }
        i = i + 1;
    }
    assert(hv.subrange(0, hv.len() as int) =~= hv);
    out
}

// ---------------------------------------------------------------------------
// Rendering
// ---------------------------------------------------------------------------
/// The status the response is written with: the override when it is a
/// plausible HTTP status, 200 otherwise.
pub open spec fn spec_effective_status(status: Option<u16>) -> u16 {
    match status {
        Option::Some(c) => if 100 <= c && c < 1000 {
            c
        } else {
            200
        },
        Option::None => 200,
    }
}

/// What the HTTP layer must write for one response record: the content type
/// follows the payload variant, the error variants force status 500 with a
/// plain-text body, and every variant keeps the status override (where it
/// applies) and the surviving custom headers, appended in order.
pub open spec fn spec_render(v: JsResponseView) -> HttpResponseView {
    let custom = match v.headers {
        Option::Some(hs) => spec_filter_headers(hs),
        Option::None => Seq::empty(),
    };
    match v.inner {
        InnerRespView::Text(t) => HttpResponseView {
            status: spec_effective_status(v.status_code),
            content_type: "text/plain; charset=utf-8"@,
            headers: custom,
            body: encode_utf8(t),
        },
        InnerRespView::EmptyString => HttpResponseView {
            status: spec_effective_status(v.status_code),
            content_type: "text/plain; charset=utf-8"@,
            headers: custom,
            body: Seq::empty(),
        },
        InnerRespView::Json(j) => HttpResponseView {
            status: spec_effective_status(v.status_code),
            content_type: "application/json; charset=utf-8"@,
            headers: custom,
            body: encode_utf8(j),
        },
        InnerRespView::Raw(b) => HttpResponseView {
            status: spec_effective_status(v.status_code),
            content_type: "application/octet-stream"@,
            headers: custom,
            body: b,
        },
        InnerRespView::ServerError => HttpResponseView {
            status: 500,
            content_type: "text/plain"@,
            headers: custom,
            body: encode_utf8("Internal Server Error"@),
        },
        InnerRespView::ServerErrorWithMessage(m) => HttpResponseView {
            status: 500,
            content_type: "text/plain"@,
            headers: custom,
            body: encode_utf8(m),
        },
    }
}

impl JsResponse {
    /// The status this record is written with.
    pub fn get_status_code(&self) -> (r: u16)
        ensures
            r == spec_effective_status(self.status_code),
    {
        match self.status_code {
            Some(code) => {
                if 100 <= code && code < 1000 {
                    code
                } else {
                    200
                }
            },
            None => 200,
        }
    }

    /// Translate the record into plain HTTP response data.
    pub fn into_http_response(self) -> (r: HttpResponseData)
        ensures
            r.deep_view() == spec_render(self.deep_view()),
    {
        let ghost sv = self.deep_view();
        let status = self.get_status_code();
        let custom: Vec<(String, String)> = match &self.headers {
            Some(hs) => filter_headers(hs),
            None => Vec::new(),
        };
        let r = match self.inner {
            InnerResp::Text(t) => HttpResponseData {
                status,
                content_type: String::from_str("text/plain; charset=utf-8"),
                headers: custom,
                body: t.as_str().as_bytes_vec(),
            },
            InnerResp::EmptyString => HttpResponseData {
                status,
                content_type: String::from_str("text/plain; charset=utf-8"),
                headers: custom,
                body: Vec::new(),
            },
            InnerResp::Json(j) => HttpResponseData {
                status,
                content_type: String::from_str("application/json; charset=utf-8"),
                headers: custom,
                body: j.as_str().as_bytes_vec(),
            },
            InnerResp::Raw(b) => HttpResponseData {
                status,
                content_type: String::from_str("application/octet-stream"),
                headers: custom,
                body: b,
            },
            InnerResp::ServerError => HttpResponseData {
                status: 500,
                content_type: String::from_str("text/plain"),
                headers: custom,
                body: String::from_str("Internal Server Error").as_str().as_bytes_vec(),
            },
            InnerResp::ServerErrorWithMessage(m) => HttpResponseData {
                status: 500,
                content_type: String::from_str("text/plain"),
                headers: custom,
                body: m.as_str().as_bytes_vec(),
            },
        };
        assert(r.deep_view().headers =~= spec_render(sv).headers);
        assert(r.deep_view().body =~= spec_render(sv).body);
        r
    }
}

} // verus!
