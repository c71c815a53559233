//! The detached request: a self-contained view of one HTTP request, safe to
//! hand to the host-runtime callback, with its query, JSON and form data
//! precomputed at construction, and the one-shot response side with its
//! at-most-once terminal send.

use crate::multipart::{spec_parse_multipart, MultipartPart, PartView};
use crate::query::{query_pairs_chars, spec_assoc_get};
use crate::strutil::{bytes_to_string_lossy, chars_of_bytes, spec_find, string_push};
use vstd::prelude::*;
use vstd::utf8::encode_utf8;

verus! {

// ---------------------------------------------------------------------------
// Form data
// ---------------------------------------------------------------------------
/// What an uploaded file turns into: where it was stored and what it was.
pub struct FileInfo {
    /// Always the word `file`; tells file fields apart from text fields.
    pub kind: String,
    pub original_name: String,
    pub filename: String,
    pub path: String,
    pub content_type: Option<String>,
    pub size: u32,
}

/// The mathematical value of a file descriptor.
#[verifier::ext_equal]
pub struct FileInfoView {
    pub kind: Seq<char>,
    pub original_name: Seq<char>,
    pub filename: Seq<char>,
    pub path: Seq<char>,
    pub content_type: Option<Seq<char>>,
    pub size: u32,
}

impl DeepView for FileInfo {
    type V = FileInfoView;

    open spec fn deep_view(&self) -> FileInfoView {
        FileInfoView {
            kind: self.kind@,
            original_name: self.original_name@,
            filename: self.filename@,
            path: self.path@,
            content_type: match &self.content_type {
                Option::Some(c) => Some(c@),
                Option::None => None,
            },
            size: self.size,
        }
    }
}

/// One form field: a text value, or an uploaded file's descriptor.
pub enum FormField {
    Text(String),
    File(FileInfo),
}

#[verifier::ext_equal]
pub enum FormFieldView {
    Text(Seq<char>),
    File(FileInfoView),
}

impl DeepView for FormField {
    type V = FormFieldView;

    open spec fn deep_view(&self) -> FormFieldView {
        match self {
            FormField::Text(t) => FormFieldView::Text(t@),
            FormField::File(f) => FormFieldView::File(f.deep_view()),
        }
    }
}

/// A file the embedder still has to persist: the multipart parser decides
/// the target path, the file system work stays outside the core.
pub struct FileToWrite {
    pub path: String,
    pub contents: Vec<u8>,
}

#[verifier::ext_equal]
pub struct FileToWriteView {
    pub path: Seq<char>,
    pub contents: Seq<u8>,
}

impl DeepView for FileToWrite {
    type V = FileToWriteView;

    open spec fn deep_view(&self) -> FileToWriteView {
        FileToWriteView { path: self.path@, contents: self.contents@ }
    }
}

// ---------------------------------------------------------------------------
// Target file names
// ---------------------------------------------------------------------------
/// The position of the last dot of a name.
pub open spec fn spec_last_dot(s: Seq<char>) -> Option<int>
    decreases s.len(),
{
    if s.len() == 0 {
        None
    } else if s.last() == '.' {
        Some(s.len() - 1)
    } else {
        spec_last_dot(s.drop_last())
    }
}

/// The extension of an uploaded name: what follows the last dot, provided
/// the dot neither opens the name nor closes it.
pub open spec fn spec_ext_of(s: Seq<char>) -> Option<Seq<char>> {
    match spec_last_dot(s) {
        Option::Some(i) => if 0 < i && i + 1 < s.len() {
            Some(s.subrange(i + 1, s.len() as int))
        } else {
            None
        },
        Option::None => None,
    }
}

/// The stored name for an upload: the fresh token, the original extension
/// kept.
pub open spec fn spec_target_name(original: Seq<char>, token: Seq<char>) -> Seq<char> {
    match spec_ext_of(original) {
        Option::Some(e) => token + "."@ + e,
        Option::None => token,
    }
}

/// Where an upload is stored, relative to the working directory.
pub open spec fn spec_target_path(original: Seq<char>, token: Seq<char>) -> Seq<char> {
    "static/"@ + spec_target_name(original, token)
}

/// Compute the stored file name and path for an uploaded name and a fresh
/// token.
#[verifier::loop_isolation(false)]
pub fn file_target_name(original: &str, token: &str) -> (r: (String, String))
    ensures
        r.0@ == spec_target_name(original@, token@),
        r.1@ == spec_target_path(original@, token@),
{
    let n = original.unicode_len();
    let ghost ov = original@;
    let mut dot: Option<usize> = None;
    let mut i: usize = 0;
    while i < n
        invariant
            n == ov.len(),
            0 <= i <= n,
            spec_last_dot(ov.subrange(0, i as int)) == (match dot {
                Option::Some(d) => Some(d as int),
                Option::None => None::<int>,
            }),
            dot matches Some(d) ==> d < i,
        decreases n - i,
    {
        let ghost pre = ov.subrange(0, i + 1);
        assert(pre.drop_last() =~= ov.subrange(0, i as int));
        assert(pre.last() == ov[i as int]);
        if original.get_char(i) == '.' {
            dot = Some(i);
        }
        i = i + 1;
    }
    assert(ov.subrange(0, n as int) =~= ov);
    let name = match dot {
        Some(d) => {
            if 0 < d && d + 1 < n {
                let ext = original.substring_char(d + 1, n);
                let mut name = String::from_str(token);
                name.append(".");
                name.append(ext);
                name
            } else {
                String::from_str(token)
            }
        },
        None => String::from_str(token),
    };
    let mut path = String::from_str("static/");
    path.append(name.as_str());
    (name, path)
}


// ---------------------------------------------------------------------------
// Content-type detection
// ---------------------------------------------------------------------------
/// ASCII-lowercased bytes.
pub open spec fn spec_lower_bytes(b: Seq<u8>) -> Seq<u8> {
    Seq::new(b.len(), |i: int| crate::multipart::lower_b(b[i]))
}

/// Whether the lowercased value contains the (lowercase) pattern.
pub open spec fn spec_value_contains(v: Seq<char>, pat: Seq<u8>) -> bool {
    spec_find(spec_lower_bytes(encode_utf8(v)), pat, 0) is Some
}

/// The request asks for JSON parsing: its content-type names
/// `application/json`.
pub open spec fn spec_is_json_ct(hv: Seq<(Seq<char>, Seq<char>)>) -> bool {
    match spec_assoc_get(hv, "content-type"@) {
        Option::Some(v) => spec_value_contains(v, encode_utf8("application/json"@)),
        Option::None => false,
    }
}

pub open spec fn spec_is_urlenc_ct(hv: Seq<(Seq<char>, Seq<char>)>) -> bool {
    match spec_assoc_get(hv, "content-type"@) {
        Option::Some(v) => spec_value_contains(
            v,
            encode_utf8("application/x-www-form-urlencoded"@),
        ),
        Option::None => false,
    }
}

pub open spec fn spec_is_multipart_ct(hv: Seq<(Seq<char>, Seq<char>)>) -> bool {
    match spec_assoc_get(hv, "content-type"@) {
        Option::Some(v) => spec_value_contains(v, encode_utf8("multipart/form-data"@)),
        Option::None => false,
    }
}

/// The request carries a form: url-encoded or multipart.
pub open spec fn spec_is_form_ct(hv: Seq<(Seq<char>, Seq<char>)>) -> bool {
    spec_is_urlenc_ct(hv) || spec_is_multipart_ct(hv)
}

#[verifier::loop_isolation(false)]
fn lower_bytes(b: &[u8]) -> (r: Vec<u8>)
    ensures
        r@ == spec_lower_bytes(b@),
{
    let n = b.len();
    let mut out: Vec<u8> = Vec::new();
    let mut i: usize = 0;
    while i < n
        invariant
            n == b@.len(),
            0 <= i <= n,
            out@.len() == i,
            forall|j: int| 0 <= j < i ==> out@[j] == crate::multipart::lower_b(#[trigger] b@[j]),
        decreases n - i,
    {
        let x = b[i];
        let lx = if 65 <= x && x <= 90 {
            x + 32
        } else {
            x
        };
        out.push(lx);
        i = i + 1;
    }
    assert(out@ =~= spec_lower_bytes(b@));
    out
}

/// Whether a header value contains a lowercase pattern, letter case of the
/// value ignored.
fn value_contains(v: &str, pat: &[u8]) -> (r: bool)
    ensures
        r == spec_value_contains(v@, pat@),
{
    let vb = v.as_bytes_vec();
    let lowered = lower_bytes(vb.as_slice());
    match crate::strutil::bytes_find(lowered.as_slice(), pat, 0) {
        Some(_) => true,
        None => false,
    }
}

// ---------------------------------------------------------------------------
// Assembling form data
// ---------------------------------------------------------------------------
/// The form an url-encoded body denotes: every field is text.
pub open spec fn spec_urlenc_form(b: Seq<u8>) -> Seq<(Seq<char>, FormFieldView)> {
    Seq::new(
        query_pairs_chars(b).len(),
        |i: int| (query_pairs_chars(b)[i].0, FormFieldView::Text(query_pairs_chars(b)[i].1)),
    )
}

/// The descriptor of one uploaded part, for the token its stored name got.
pub open spec fn spec_file_view(p: PartView, token: Seq<char>) -> FileInfoView {
    let original = chars_of_bytes(p.filename->Some_0);
    FileInfoView {
        kind: "file"@,
        original_name: original,
        filename: spec_target_name(original, token),
        path: spec_target_path(original, token),
        content_type: match p.content_type {
            Option::Some(c) => Some(chars_of_bytes(c)),
            Option::None => None,
        },
        size: p.content.len() as u32,
    }
}

/// The fields and pending file writes of the first `k` parts; `toks[i]` is
/// the token part `i` would store its file under.
pub open spec fn spec_mp_prefix(parts: Seq<PartView>, toks: Seq<Seq<char>>, k: int) -> (
    Seq<(Seq<char>, FormFieldView)>,
    Seq<FileToWriteView>,
)
    decreases k,
{
    if k <= 0 || k > parts.len() || k > toks.len() {
        (Seq::empty(), Seq::empty())
    } else {
        let prev = spec_mp_prefix(parts, toks, k - 1);
        let p = parts[k - 1];
        match p.filename {
            Option::None => (
                prev.0.push((chars_of_bytes(p.name), FormFieldView::Text(chars_of_bytes(p.content)))),
                prev.1,
            ),
            Option::Some(_) => (
                prev.0.push((chars_of_bytes(p.name), FormFieldView::File(spec_file_view(p, toks[k - 1])))),
                prev.1.push(
                    FileToWriteView {
                        path: spec_target_path(chars_of_bytes(p.filename->Some_0), toks[k - 1]),
                        contents: p.content,
                    },
                ),
            ),
        }
    }
}

/// The whole multipart form and its pending writes, for one token list.
pub open spec fn spec_multipart_form(parts: Seq<PartView>, toks: Seq<Seq<char>>) -> (
    Seq<(Seq<char>, FormFieldView)>,
    Seq<FileToWriteView>,
) {
    spec_mp_prefix(parts, toks, parts.len() as int)
}

/// Relies on uuid::Uuid::new_v4 and its hyphenated rendering: a freshly
/// drawn random identifier, 36 characters long.
#[verifier::external_body]
fn fresh_token() -> (r: String)
    ensures
        r@.len() == 36,
{
    uuid::Uuid::new_v4().to_string()
}

/// Turn parsed multipart parts into form fields, drawing a fresh stored
/// name for each file part. The returned writes are what the embedder must
/// persist; a failed write is then dropped from the form with
/// `drop_form_field`.
#[verifier::loop_isolation(false)]
pub fn assemble_multipart_form(parts: &Vec<MultipartPart>) -> (r: (
    Vec<(String, FormField)>,
    Vec<FileToWrite>,
))
    ensures
        exists|toks: Seq<Seq<char>>|
            toks.len() == parts.deep_view().len() && (r.0.deep_view(), r.1.deep_view())
                == #[trigger] spec_multipart_form(parts.deep_view(), toks),
{
    let ghost pv = parts.deep_view();
    let mut fields: Vec<(String, FormField)> = Vec::new();
    let mut writes: Vec<FileToWrite> = Vec::new();
    let mut i: usize = 0;
    let ghost mut toks: Seq<Seq<char>> = Seq::empty();
    while i < parts.len()
        invariant
            pv == parts.deep_view(),
            parts@.len() == pv.len(),
            0 <= i <= pv.len(),
            toks.len() == i,
            (fields.deep_view(), writes.deep_view()) == spec_mp_prefix(pv, toks, i as int),
        decreases parts.len() - i,
    {
        assert(pv[i as int] == parts@[i as int].deep_view());
        let part = &parts[i];
        let name = bytes_to_string_lossy(part.name.as_slice());
        let ghost prev_fields = fields.deep_view();
        let ghost prev_writes = writes.deep_view();
        match &part.filename {
            Some(fnm) => {
                let original = bytes_to_string_lossy(fnm.as_slice());
                let token = fresh_token();
                let (stored, path) = file_target_name(original.as_str(), token.as_str());
                let ct: Option<String> = match &part.content_type {
                    Some(c) => Some(bytes_to_string_lossy(c.as_slice())),
                    None => None,
                };
                let size: u32 = #[verifier::truncate] (part.content.len() as u32);
                let info = FileInfo {
                    kind: String::from_str("file"),
                    original_name: original,
                    filename: stored,
                    path: path.clone(),
                    content_type: ct,
                    size,
                };
                let contents = crate::strutil::bytes_range(
                    part.content.as_slice(),
                    0,
                    part.content.len(),
                );
                assert(contents@ =~= part.content@);
                assert(info.deep_view() == spec_file_view(pv[i as int], token@));
                fields.push((name, FormField::File(info)));
                writes.push(FileToWrite { path, contents });
                proof {
                    let prev_toks = toks;
                    toks = toks.push(token@);
                    assert(toks.drop_last() =~= prev_toks);
                    assert(toks[i as int] == token@);
                    assert(fields.deep_view()[prev_fields.len() as int] == (
                        chars_of_bytes(pv[i as int].name),
                        FormFieldView::File(spec_file_view(pv[i as int], toks[i as int])),
                    ));
                    assert(writes.deep_view()[prev_writes.len() as int] == (FileToWriteView {
                        path: spec_target_path(
                            chars_of_bytes(pv[i as int].filename->Some_0),
                            toks[i as int],
                        ),
                        contents: pv[i as int].content,
                    }));
                    assert(fields.deep_view().len() == prev_fields.len() + 1);
                    assert(writes.deep_view().len() == prev_writes.len() + 1);
                    assert(forall|k: int|
                        0 <= k < prev_fields.len() ==> #[trigger] fields.deep_view()[k]
                            == prev_fields[k]);
                    assert(forall|k: int|
                        0 <= k < prev_writes.len() ==> #[trigger] writes.deep_view()[k]
                            == prev_writes[k]);
                    assert(spec_mp_prefix(pv, toks, i as int) == spec_mp_prefix(
                        pv,
                        toks.drop_last(),
                        i as int,
                    )) by {
                        lemma_mp_prefix_more_toks(pv, toks, i as int);
                    }
                    assert(fields.deep_view() =~~= spec_mp_prefix(pv, toks, i + 1).0);
                    assert(writes.deep_view() =~~= spec_mp_prefix(pv, toks, i + 1).1);
                }
            },
            None => {
                let text = bytes_to_string_lossy(part.content.as_slice());
                fields.push((name, FormField::Text(text)));
                proof {
                    let prev_toks = toks;
                    toks = toks.push(Seq::empty());
                    assert(toks.drop_last() =~= prev_toks);
                    assert(fields.deep_view()[prev_fields.len() as int] == (
                        chars_of_bytes(pv[i as int].name),
                        FormFieldView::Text(chars_of_bytes(pv[i as int].content)),
                    ));
                    assert(fields.deep_view().len() == prev_fields.len() + 1);
                    assert(forall|k: int|
                        0 <= k < prev_fields.len() ==> #[trigger] fields.deep_view()[k]
                            == prev_fields[k]);
                    assert(spec_mp_prefix(pv, toks, i as int) == spec_mp_prefix(
                        pv,
                        toks.drop_last(),
                        i as int,
                    )) by {
                        lemma_mp_prefix_more_toks(pv, toks, i as int);
                    }
                    assert(fields.deep_view() =~~= spec_mp_prefix(pv, toks, i + 1).0);
                    assert(writes.deep_view() =~~= spec_mp_prefix(pv, toks, i + 1).1);
                }
            },
        }
        i = i + 1;
    }
    assert((fields.deep_view(), writes.deep_view()) == spec_multipart_form(pv, toks));
    (fields, writes)
}

/// A prefix only reads the tokens of its own parts.
proof fn lemma_mp_prefix_more_toks(parts: Seq<PartView>, toks: Seq<Seq<char>>, k: int)
    requires
        0 <= k < toks.len(),
        toks.len() <= parts.len() + 1,
    ensures
        spec_mp_prefix(parts, toks, k) == spec_mp_prefix(parts, toks.drop_last(), k),
    decreases k,
{
    if k > 0 && k <= parts.len() && k <= toks.len() - 1 {
        lemma_mp_prefix_more_toks(parts, toks, k - 1);
        assert(toks.drop_last()[k - 1] == toks[k - 1]);
    }
}


// ---------------------------------------------------------------------------
// Trusted items around the detached request
// ---------------------------------------------------------------------------
#[verifier::external_type_specification]
#[verifier::external_body]
pub struct ExSerdeValue(serde_json::Value);

/// Whether a byte buffer parses as JSON under serde_json.
pub uninterp spec fn serde_accepts(b: Seq<u8>) -> bool;

/// Relies on serde_json::from_slice::<Value>: succeeds exactly on the
/// buffers serde_json accepts as JSON.
#[verifier::external_body]
pub(crate) fn parse_json_value(b: &[u8]) -> (r: Option<serde_json::Value>)
    ensures
        r is Some == serde_accepts(b@),
{
    serde_json::from_slice::<serde_json::Value>(b).ok()
}

/// Relies on <serde_json::Value as Clone>::clone: an equal value comes
/// back.
#[verifier::external_body]
fn clone_json_value(v: &serde_json::Value) -> (r: serde_json::Value)
    ensures
        r == *v,
{
    v.clone()
}

/// Relies on serde_json::to_string: the serialized text of a value. What
/// the text is depends on the opaque value, so nothing is promised of it.
#[verifier::external_body]
fn json_value_to_string(v: &serde_json::Value) -> (r: Option<String>) {
    serde_json::to_string(v).ok()
}

#[verifier::external_type_specification]
#[verifier::external_body]
#[verifier::reject_recursive_types(T)]
pub struct ExOneshotSender<T>(tokio::sync::oneshot::Sender<T>);

/// Relies on tokio::sync::oneshot::Sender::send: delivery fails only when
/// the receiver is gone, and then the record comes back unchanged.
#[verifier::external_body]
fn oneshot_send(
    s: tokio::sync::oneshot::Sender<crate::response::JsResponse>,
    r: crate::response::JsResponse,
) -> (res: Result<(), crate::response::JsResponse>)
    ensures
        res matches Err(v) ==> v == r,
{
    s.send(r)
}

// ---------------------------------------------------------------------------
// Small helpers
// ---------------------------------------------------------------------------
/// The ASCII lowercase of a character.
pub open spec fn lower_char(c: char) -> char {
    if 65 <= c as u32 && c as u32 <= 90 {
        (((c as u32 + 32) as u8) as char)
    } else {
        c
    }
}

pub open spec fn lower_chars(s: Seq<char>) -> Seq<char> {
    Seq::new(s.len(), |i: int| lower_char(s[i]))
}

/// Header pairs with their names lowercased, order kept.
pub open spec fn spec_lower_headers(hv: Seq<(Seq<char>, Seq<char>)>) -> Seq<
    (Seq<char>, Seq<char>),
> {
    Seq::new(hv.len(), |i: int| (lower_chars(hv[i].0), hv[i].1))
}

#[verifier::loop_isolation(false)]
fn to_lower_ascii(s: &str) -> (r: String)
    ensures
        r@ == lower_chars(s@),
{
    let n = s.unicode_len();
    let mut out = String::new();
    let mut i: usize = 0;
    while i < n
        invariant
            n == s@.len(),
            0 <= i <= n,
            out@ =~= lower_chars(s@).subrange(0, i as int),
        decreases n - i,
    {
        let c = s.get_char(i);
        let u = c as u32;
        if 65 <= u && u <= 90 {
            string_push(&mut out, ((u + 32) as u8) as char);
        } else {
            string_push(&mut out, c);
        }
        assert(out@ =~= lower_chars(s@).subrange(0, i + 1));
        i = i + 1;
    }
    assert(out@ =~= lower_chars(s@));
    out
}


/// Last-wins lookup among form fields.
pub open spec fn spec_field_get(m: Seq<(Seq<char>, FormFieldView)>, k: Seq<char>) -> Option<
    FormFieldView,
>
    decreases m.len(),
{
    if m.len() == 0 {
        None
    } else if m.last().0 == k {
        Some(m.last().1)
    } else {
        spec_field_get(m.drop_last(), k)
    }
}

fn clone_field(f: &FormField) -> (r: FormField)
    ensures
        r.deep_view() == f.deep_view(),
{
    match f {
        FormField::Text(t) => FormField::Text(t.clone()),
        FormField::File(info) => FormField::File(
            FileInfo {
                kind: info.kind.clone(),
                original_name: info.original_name.clone(),
                filename: info.filename.clone(),
                path: info.path.clone(),
                content_type: match &info.content_type {
                    Some(c) => Some(c.clone()),
                    None => None,
                },
                size: info.size,
            },
        ),
    }
}

#[verifier::loop_isolation(false)]
fn clone_form(fs: &Vec<(String, FormField)>) -> (r: Vec<(String, FormField)>)
    ensures
        r.deep_view() == fs.deep_view(),
{
    let mut out: Vec<(String, FormField)> = Vec::new();
    let mut i: usize = 0;
    while i < fs.len()
        invariant
            0 <= i <= fs@.len(),
            out.deep_view() =~= fs.deep_view().subrange(0, i as int),
        decreases fs.len() - i,
    {
        let name = fs[i].0.clone();
        let field = clone_field(&fs[i].1);
        let ghost prev = out.deep_view();
        out.push((name, field));
        assert(out@.len() == prev.len() + 1);
        assert(out.deep_view()[i as int] == fs.deep_view()[i as int]);
        assert(out.deep_view() =~= fs.deep_view().subrange(0, i + 1));
        i = i + 1;
    }
    assert(out.deep_view() =~= fs.deep_view());
    out
}

// ---------------------------------------------------------------------------
// The detached request
// ---------------------------------------------------------------------------
/// Why a send call failed: a terminal send already succeeded, or the
/// object could not be serialized.
#[derive(Clone, Copy, PartialEq, Eq, Structural, Debug)]
pub enum SendError {
    AlreadySent,
    SerializeFailed,
}

/// A self-contained request. Every field is captured eagerly at
/// construction; the getters read the captured state and never recompute
/// it, so repeated reads agree until the request is dropped.
pub struct DetachedRequestWrapper {
    pub path: String,
    pub method: String,
    pub query_string: String,
    pub uri: String,
    /// Lowercased names in arrival order; lookups take the last pair with
    /// the asked-for name.
    pub headers: Vec<(String, String)>,
    pub body: Option<Vec<u8>>,
    pub path_params: Vec<(String, String)>,
    pub response_sender: Option<tokio::sync::oneshot::Sender<crate::response::JsResponse>>,
    pub sent: bool,
    pub status_code: Option<u16>,
    pub response_headers: Vec<(String, String)>,
    pub cached_query_params: Option<Vec<(String, String)>>,
    pub cached_json: Option<serde_json::Value>,
    pub cached_form_data: Option<Vec<(String, FormField)>>,
    /// The record this request's one successful terminal send produced.
    pub delivered: Ghost<Option<crate::response::JsResponseView>>,
}

impl DetachedRequestWrapper {
    pub open spec fn headers_view(&self) -> Seq<(Seq<char>, Seq<char>)> {
        self.headers.deep_view()
    }

    /// What construction guarantees and every method preserves: the caches
    /// exist exactly for the content types that call for them, and a
    /// delivered record implies the sent flag.
    pub open spec fn wf(&self) -> bool {
        &&& (match self.cached_query_params {
            Option::Some(ps) => self.query_string@.len() > 0 && ps.deep_view()
                == query_pairs_chars(encode_utf8(self.query_string@)),
            Option::None => self.query_string@.len() == 0,
        })
        &&& (self.cached_json is Some <==> (self.body matches Some(b) && spec_is_json_ct(
            self.headers_view(),
        ) && serde_accepts(b@)))
        &&& (match self.cached_form_data {
            Option::Some(_) => self.body is Some && spec_is_form_ct(self.headers_view()),
            Option::None => !(self.body is Some && spec_is_form_ct(self.headers_view())),
        })
        &&& (self.delivered@ is Some ==> self.sent)
    }
}



/// The multipart parts a body denotes under a header list's content type.
pub open spec fn spec_mp_parts_of(hv: Seq<(Seq<char>, Seq<char>)>, b: Seq<u8>) -> Seq<PartView> {
    spec_parse_multipart(b, spec_lower_bytes(encode_utf8(spec_ct_of(hv)->Some_0)))
}

/// What construction promises of the form cache and the pending writes,
/// for a request that carries a body.
pub open spec fn form_post(
    hv: Seq<(Seq<char>, Seq<char>)>,
    b: Seq<u8>,
    form: Option<Vec<(String, FormField)>>,
    writes: Vec<FileToWrite>,
) -> bool {
    &&& (spec_is_urlenc_ct(hv) ==> (form matches Some(f) && f.deep_view() == spec_urlenc_form(b)))
    &&& ((!spec_is_urlenc_ct(hv) && spec_is_multipart_ct(hv)) ==> (exists|toks: Seq<Seq<char>>|
        toks.len() == spec_mp_parts_of(hv, b).len() && (form matches Some(f) && (
        f.deep_view(),
        writes.deep_view(),
        ) == #[trigger] spec_multipart_form(spec_mp_parts_of(hv, b), toks))))
    &&& (!spec_is_form_ct(hv) ==> writes@.len() == 0)
}

/// The content-type header of a lowercased header list.
pub open spec fn spec_ct_of(hv: Seq<(Seq<char>, Seq<char>)>) -> Option<Seq<char>> {
    spec_assoc_get(hv, "content-type"@)
}

impl DetachedRequestWrapper {
    /// Build a detached request from the plain parts of an HTTP request,
    /// eagerly capturing headers (names lowercased), body, path parameters,
    /// and precomputing query parameters, the JSON body and the form data.
    /// The second result is the uploads the embedder must persist.
    #[verifier::loop_isolation(false)]
    pub fn new_detached(
        path: String,
        method: String,
        query_string: String,
        uri: String,
        header_pairs: Vec<(String, String)>,
        body: Option<Vec<u8>>,
        path_params: Vec<(String, String)>,
    ) -> (r: (DetachedRequestWrapper, Vec<FileToWrite>))
        ensures
            r.0.wf(),
            r.0.path == path && r.0.method == method && r.0.query_string == query_string
                && r.0.uri == uri,
            r.0.headers.deep_view() == spec_lower_headers(header_pairs.deep_view()),
            r.0.body == body,
            r.0.path_params.deep_view() == path_params.deep_view(),
            r.0.response_sender is None && r.0.sent == false && r.0.status_code is None
                && r.0.response_headers@.len() == 0 && r.0.delivered@ is None,
            r.0.cached_json is Some <==> (body matches Some(b) && spec_is_json_ct(
                spec_lower_headers(header_pairs.deep_view()),
            ) && serde_accepts(b@)),
            body matches Some(b) ==> form_post(
                spec_lower_headers(header_pairs.deep_view()),
                b@,
                r.0.cached_form_data,
                r.1,
            ),
    {
        let ghost hp = header_pairs.deep_view();
        let mut headers: Vec<(String, String)> = Vec::new();
        let mut i: usize = 0;
        while i < header_pairs.len()
            invariant
                hp == header_pairs.deep_view(),
                header_pairs@.len() == hp.len(),
                0 <= i <= hp.len(),
                headers.deep_view() =~= spec_lower_headers(hp).subrange(0, i as int),
            decreases header_pairs.len() - i,
        {
            assert(hp[i as int] == (header_pairs@[i as int].0@, header_pairs@[i as int].1@));
            let lname = to_lower_ascii(header_pairs[i].0.as_str());
            let value = header_pairs[i].1.clone();
            let ghost prev = headers.deep_view();
            headers.push((lname, value));
            assert(headers@.len() == prev.len() + 1);
            assert(headers.deep_view()[i as int] == spec_lower_headers(hp)[i as int]);
            assert(headers.deep_view() =~= spec_lower_headers(hp).subrange(0, i + 1));
            i = i + 1;
        }
        assert(headers.deep_view() =~= spec_lower_headers(hp));
        let ghost hv = headers.deep_view();
        let cached_query_params: Option<Vec<(String, String)>> = if query_string.as_str().unicode_len() > 0 {
            let qb = query_string.as_str().as_bytes_vec();
            Some(crate::query::parse_query_params(qb.as_slice()))
        } else {
            None
        };
        let ct_value: Option<String> = crate::query::assoc_get(&headers, "content-type");
        let is_json: bool = match &ct_value {
            Some(v) => {
                let pat = "application/json".as_bytes_vec();
                value_contains(v.as_str(), pat.as_slice())
            },
            None => false,
        };
        let is_urlenc: bool = match &ct_value {
            Some(v) => {
                let pat = "application/x-www-form-urlencoded".as_bytes_vec();
                value_contains(v.as_str(), pat.as_slice())
            },
            None => false,
        };
        let is_multipart: bool = match &ct_value {
            Some(v) => {
                let pat = "multipart/form-data".as_bytes_vec();
                value_contains(v.as_str(), pat.as_slice())
            },
            None => false,
        };
        assert(is_json == spec_is_json_ct(hv));
        assert(is_urlenc == spec_is_urlenc_ct(hv));
        assert(is_multipart == spec_is_multipart_ct(hv));
        let cached_json: Option<serde_json::Value> = match &body {
            Some(b) => {
                if is_json {
                    parse_json_value(b.as_slice())
                } else {
                    None
                }
            },
            None => None,
        };
        let mut writes: Vec<FileToWrite> = Vec::new();
        let cached_form_data: Option<Vec<(String, FormField)>> = match &body {
            Some(b) => {
                if is_urlenc {
                    let pairs = crate::query::parse_query_params(b.as_slice());
                    let ghost pv = pairs.deep_view();
                    let mut fields: Vec<(String, FormField)> = Vec::new();
                    let mut k: usize = 0;
                    while k < pairs.len()
                        invariant
                            pv == pairs.deep_view(),
                            pairs@.len() == pv.len(),
                            pv == query_pairs_chars(b@),
                            0 <= k <= pv.len(),
                            fields.deep_view() =~~= spec_urlenc_form(b@).subrange(0, k as int),
                        decreases pairs.len() - k,
                    {
                        assert(pv[k as int] == (pairs@[k as int].0@, pairs@[k as int].1@));
                        let name = pairs[k].0.clone();
                        let text = pairs[k].1.clone();
                        let ghost prev = fields.deep_view();
                        fields.push((name, FormField::Text(text)));
                        assert(fields@.len() == prev.len() + 1);
                        assert(fields.deep_view()[k as int] == spec_urlenc_form(b@)[k as int]);
                        assert(fields.deep_view() =~~= spec_urlenc_form(b@).subrange(0, k + 1));
                        k = k + 1;
                    }
                    assert(fields.deep_view() =~~= spec_urlenc_form(b@));
                    Some(fields)
                } else if is_multipart {
                    match &ct_value {
                        Some(cv) => {
                            let ctb = cv.as_str().as_bytes_vec();
                            let lowered = lower_bytes(ctb.as_slice());
                            let parts = crate::multipart::parse_multipart(
                                b.as_slice(),
                                lowered.as_slice(),
                            );
                            let (fields, w) = assemble_multipart_form(&parts);
                            proof {
                                let toks0 = choose|toks: Seq<Seq<char>>|
                                    toks.len() == parts.deep_view().len() && (
                                    fields.deep_view(),
                                    w.deep_view(),
                                    ) == #[trigger] spec_multipart_form(parts.deep_view(), toks);
                                assert(ctb@ == encode_utf8(cv@));
                                assert(spec_ct_of(hv) == Some(cv@));
                                assert(parts.deep_view() == spec_mp_parts_of(hv, b@));
                                assert(toks0.len() == spec_mp_parts_of(hv, b@).len() && (
                                fields.deep_view(),
                                w.deep_view(),
                                ) == spec_multipart_form(spec_mp_parts_of(hv, b@), toks0));
                            }
                            writes = w;
                            Some(fields)
                        },
                        None => {
                            proof {
                                assert(false);
                            }
                            None
                        },
                    }
                } else {
                    None
                }
            },
            None => None,
        };
        let req = DetachedRequestWrapper {
            path,
            method,
            query_string,
            uri,
            headers,
            body,
            path_params,
            response_sender: None,
            sent: false,
            status_code: None,
            response_headers: Vec::new(),
            cached_query_params,
            cached_json,
            cached_form_data,
            delivered: Ghost(None),
        };
        (req, writes)
    }
}


impl DetachedRequestWrapper {
    /// Attach the one-shot sender the dispatcher awaits.
    pub fn set_response_sender(
        &mut self,
        sender: tokio::sync::oneshot::Sender<crate::response::JsResponse>,
    )
        ensures
            final(self).response_sender is Some,
            final(self).path == old(self).path,
            final(self).method == old(self).method,
            final(self).query_string == old(self).query_string,
            final(self).uri == old(self).uri,
            final(self).headers == old(self).headers,
            final(self).body == old(self).body,
            final(self).path_params == old(self).path_params,
            final(self).sent == old(self).sent,
            final(self).status_code == old(self).status_code,
            final(self).response_headers == old(self).response_headers,
            final(self).cached_query_params == old(self).cached_query_params,
            final(self).cached_json == old(self).cached_json,
            final(self).cached_form_data == old(self).cached_form_data,
            final(self).delivered == old(self).delivered,
    {
        self.response_sender = Some(sender);
    }

    pub fn get_path(&self) -> (r: String)
        ensures
            r@ == self.path@,
    {
        self.path.clone()
    }

    pub fn get_method(&self) -> (r: String)
        ensures
            r@ == self.method@,
    {
        self.method.clone()
    }

    pub fn get_query_string(&self) -> (r: String)
        ensures
            r@ == self.query_string@,
    {
        self.query_string.clone()
    }

    pub fn get_uri(&self) -> (r: String)
        ensures
            r@ == self.uri@,
    {
        self.uri.clone()
    }

    /// The precomputed query parameters, in query-string order.
    pub fn get_query_params(&self) -> (r: Vec<(String, String)>)
        ensures
            r.deep_view() == (match self.cached_query_params {
                Option::Some(ps) => ps.deep_view(),
                Option::None => Seq::<(Seq<char>, Seq<char>)>::empty(),
            }),
    {
        match &self.cached_query_params {
            Some(ps) => crate::strutil::clone_pairs(ps),
            None => Vec::new(),
        }
    }

    /// The body decoded as text, lossily; empty without a body.
    pub fn get_body_string(&self) -> (r: String)
        ensures
            r@ == (match self.body {
                Option::Some(b) => chars_of_bytes(b@),
                Option::None => Seq::<char>::empty(),
            }),
    {
        match &self.body {
            Some(b) => bytes_to_string_lossy(b.as_slice()),
            None => String::new(),
        }
    }

    pub fn has_body(&self) -> (r: bool)
        ensures
            r == (self.body matches Some(b) && b@.len() > 0),
    {
        match &self.body {
            Some(b) => b.len() > 0,
            None => false,
        }
    }

    /// The body's length in bytes, clipped to the u32 range.
    pub fn get_body_size(&self) -> (r: u32)
        ensures
            r == (match self.body {
                Option::Some(b) => b@.len() as u32,
                Option::None => 0u32,
            }),
    {
        match &self.body {
            Some(b) => #[verifier::truncate] (b.len() as u32),
            None => 0,
        }
    }

    /// A copy of the raw body bytes, if the request carried a body.
    pub fn get_body_bytes(&self) -> (r: Option<Vec<u8>>)
        ensures
            r is Some <==> self.body is Some,
            r matches Some(b) ==> self.body matches Some(b0) && b@ == b0@,
    {
        match &self.body {
            Some(b) => {
                let copy = crate::strutil::bytes_range(b.as_slice(), 0, b.len());
                assert(copy@ =~= b@);
                Some(copy)
            },
            None => None,
        }
    }

    /// The JSON value the body parsed to at construction, if any.
    pub fn get_body_json(&self) -> (r: Option<serde_json::Value>)
        ensures
            r is Some <==> self.cached_json is Some,
            r matches Some(v) ==> self.cached_json matches Some(c) && v == c,
    {
        match &self.cached_json {
            Some(v) => Some(clone_json_value(v)),
            None => None,
        }
    }

    /// One header, by its lowercased name; the last arrival wins.
    pub fn get_header(&self, name: String) -> (r: Option<String>)
        ensures
            match spec_assoc_get(self.headers_view(), name@) {
                Option::Some(v) => r matches Some(s) && s@ == v,
                Option::None => r is None,
            },
    {
        crate::query::assoc_get(&self.headers, name.as_str())
    }

    /// All captured headers, lowercased names, arrival order.
    pub fn get_headers(&self) -> (r: Vec<(String, String)>)
        ensures
            r.deep_view() == self.headers_view(),
    {
        crate::strutil::clone_pairs(&self.headers)
    }

    /// The parameters the route pattern captured, in pattern order.
    pub fn get_path_params(&self) -> (r: Vec<(String, String)>)
        ensures
            r.deep_view() == self.path_params.deep_view(),
    {
        crate::strutil::clone_pairs(&self.path_params)
    }

    pub fn get_path_param(&self, name: String) -> (r: Option<String>)
        ensures
            match spec_assoc_get(self.path_params.deep_view(), name@) {
                Option::Some(v) => r matches Some(s) && s@ == v,
                Option::None => r is None,
            },
    {
        crate::query::assoc_get(&self.path_params, name.as_str())
    }

    /// The precomputed form data; empty for a request without a form.
    pub fn get_form_data_async(&self) -> (r: Vec<(String, FormField)>)
        ensures
            r.deep_view() == (match self.cached_form_data {
                Option::Some(f) => f.deep_view(),
                Option::None => Seq::<(Seq<char>, FormFieldView)>::empty(),
            }),
    {
        match &self.cached_form_data {
            Some(f) => clone_form(f),
            None => Vec::new(),
        }
    }

    /// One form field by name; the last field with the name wins.
    #[verifier::loop_isolation(false)]
    pub fn get_form_value_async(&self, key: String) -> (r: Option<FormField>)
        ensures
            match self.cached_form_data {
                Option::Some(f) => (match spec_field_get(f.deep_view(), key@) {
                    Option::Some(v) => r matches Some(rf) && rf.deep_view() == v,
                    Option::None => r is None,
                }),
                Option::None => r is None,
            },
    {
        let f = match &self.cached_form_data {
            Some(f) => f,
            None => {
                return None;
            },
        };
        let ghost fv = f.deep_view();
        let mut i: usize = f.len();
        assert(fv.subrange(0, fv.len() as int) =~= fv);
        while i > 0
            invariant
                fv == f.deep_view(),
                f@.len() == fv.len(),
                0 <= i <= fv.len(),
                spec_field_get(fv, key@) == spec_field_get(fv.subrange(0, i as int), key@),
            decreases i,
        {
            i = i - 1;
            assert(fv[i as int] == (f@[i as int].0@, f@[i as int].1.deep_view()));
            let ghost cur = fv.subrange(0, i + 1);
            assert(cur.last() == fv[i as int]);
            assert(cur.drop_last() =~= fv.subrange(0, i as int));
            if crate::strutil::str_eq(f[i].0.as_str(), key.as_str()) {
                let v = clone_field(&f[i].1);
                assert(spec_field_get(fv, key@) == Some(fv[i as int].1));
                return Some(v);
            }
        }
        assert(fv.subrange(0, 0) =~= Seq::<(Seq<char>, FormFieldView)>::empty());
        None
    }

    /// Drop every field with this name from the form, as is done when an
    /// upload could not be persisted; the rest of the form stays.
    #[verifier::loop_isolation(false)]
    pub fn drop_form_field(&mut self, name: &str)
        requires
            old(self).wf(),
        ensures
            final(self).wf(),
            final(self).cached_form_data is Some <==> old(self).cached_form_data is Some,
            final(self).cached_form_data matches Some(f) ==> (old(self).cached_form_data
                matches Some(f0) && spec_field_get(f.deep_view(), name@) is None && forall|
                k: Seq<char>,
            |
                k != name@ ==> #[trigger] spec_field_get(f.deep_view(), k) == spec_field_get(
                    f0.deep_view(),
                    k,
                )),
            final(self).headers == old(self).headers,
            final(self).body == old(self).body,
            final(self).sent == old(self).sent,
            final(self).delivered == old(self).delivered,
            final(self).cached_json == old(self).cached_json,
            final(self).query_string == old(self).query_string,
            final(self).cached_query_params == old(self).cached_query_params,
            final(self).path == old(self).path,
            final(self).method == old(self).method,
            final(self).uri == old(self).uri,
            final(self).path_params == old(self).path_params,
            final(self).status_code == old(self).status_code,
            final(self).response_headers == old(self).response_headers,
            final(self).response_sender == old(self).response_sender,
    {
        let f = match &self.cached_form_data {
            Some(f) => f,
            None => {
                return ;
            },
        };
        let ghost fv = f.deep_view();
        let mut kept: Vec<(String, FormField)> = Vec::new();
        let mut i: usize = 0;
        while i < f.len()
            invariant
                self.cached_form_data matches Some(ff) && ff == *f,
                fv == f.deep_view(),
                f@.len() == fv.len(),
                0 <= i <= fv.len(),
                kept.deep_view() =~~= spec_drop_field(fv.subrange(0, i as int), name@),
            decreases f.len() - i,
        {
            assert(fv[i as int] == (f@[i as int].0@, f@[i as int].1.deep_view()));
            let ghost cur = fv.subrange(0, i + 1);
            assert(cur.drop_last() =~= fv.subrange(0, i as int));
            assert(cur.last() == fv[i as int]);
            if !crate::strutil::str_eq(f[i].0.as_str(), name) {
                let nm = f[i].0.clone();
                let fldc = clone_field(&f[i].1);
                let ghost prev = kept.deep_view();
                kept.push((nm, fldc));
                assert(kept@.len() == prev.len() + 1);
                assert(kept.deep_view()[prev.len() as int] == fv[i as int]);
                assert(forall|k: int|
                    0 <= k < prev.len() ==> #[trigger] kept.deep_view()[k] == prev[k]);
            }
            assert(kept.deep_view() =~~= spec_drop_field(fv.subrange(0, i + 1), name@));
            i = i + 1;
        }
        assert(fv.subrange(0, fv.len() as int) =~= fv);
        assert(kept.deep_view() =~~= spec_drop_field(fv, name@));
        proof {
            lemma_drop_field_get(fv, name@);
        }
        self.cached_form_data = Some(kept);
    }
}

/// The form without the fields of one name, order kept.
pub open spec fn spec_drop_field(m: Seq<(Seq<char>, FormFieldView)>, k: Seq<char>) -> Seq<
    (Seq<char>, FormFieldView),
>
    decreases m.len(),
{
    if m.len() == 0 {
        Seq::empty()
    } else {
        spec_drop_field(m.drop_last(), k) + (if m.last().0 == k {
            Seq::empty()
        } else {
            seq![m.last()]
        })
    }
}

/// Dropping a name removes exactly that name's fields from lookups.
pub proof fn lemma_drop_field_get(m: Seq<(Seq<char>, FormFieldView)>, k: Seq<char>)
    ensures
        spec_field_get(spec_drop_field(m, k), k) is None,
        forall|k2: Seq<char>|
            k2 != k ==> #[trigger] spec_field_get(spec_drop_field(m, k), k2) == spec_field_get(
                m,
                k2,
            ),
    decreases m.len(),
{
    if m.len() > 0 {
        lemma_drop_field_get(m.drop_last(), k);
        if m.last().0 == k {
        } else {
            assert forall|k2: Seq<char>|
                k2 != k implies #[trigger] spec_field_get(spec_drop_field(m, k), k2)
                == spec_field_get(m, k2) by {
                let d = spec_drop_field(m, k);
                assert(d == spec_drop_field(m.drop_last(), k) + seq![m.last()]);
                assert(d.len() > 0 && d.last() == m.last());
                assert(d.drop_last() =~= spec_drop_field(m.drop_last(), k));
                assert(spec_field_get(spec_drop_field(m.drop_last(), k), k2) == spec_field_get(
                    m.drop_last(),
                    k2,
                ));
                if d.last().0 == k2 {
                    assert(spec_field_get(d, k2) == Some(d.last().1));
                    assert(spec_field_get(m, k2) == Some(m.last().1));
                } else {
                    assert(spec_field_get(d, k2) == spec_field_get(d.drop_last(), k2));
                    assert(spec_field_get(m, k2) == spec_field_get(m.drop_last(), k2));
                }
            }
            assert(spec_field_get(spec_drop_field(m, k), k) is None) by {
                let d = spec_drop_field(m, k);
                assert(d.last() == m.last());
                assert(d.drop_last() =~= spec_drop_field(m.drop_last(), k));
            }
        }
    }
}


// ---------------------------------------------------------------------------
// The response side: at most one terminal send
// ---------------------------------------------------------------------------

/// The captured request state, which no response-side change touches.
pub open spec fn request_core_unchanged(
    pre: DetachedRequestWrapper,
    post: DetachedRequestWrapper,
) -> bool {
    &&& post.path == pre.path
    &&& post.method == pre.method
    &&& post.query_string == pre.query_string
    &&& post.uri == pre.uri
    &&& post.headers == pre.headers
    &&& post.body == pre.body
    &&& post.path_params == pre.path_params
    &&& post.cached_query_params == pre.cached_query_params
    &&& post.cached_json == pre.cached_json
    &&& post.cached_form_data == pre.cached_form_data
}

/// The record a terminal send builds from the request's response state.
pub open spec fn spec_response_record(
    pre: DetachedRequestWrapper,
    inner: crate::response::InnerRespView,
) -> crate::response::JsResponseView {
    crate::response::JsResponseView {
        inner,
        status_code: pre.status_code,
        headers: if pre.response_headers@.len() == 0 {
            None
        } else {
            Some(pre.response_headers.deep_view())
        },
    }
}

/// What one terminal send does: fail without any effect when a send
/// already succeeded, otherwise raise the sent flag and hand exactly the
/// built record to the response channel.
pub open spec fn send_transition(
    pre: DetachedRequestWrapper,
    post: DetachedRequestWrapper,
    inner: crate::response::InnerRespView,
    r: Result<(), SendError>,
) -> bool {
    &&& (pre.sent ==> (r matches Err(e) && e == SendError::AlreadySent) && post == pre)
    &&& (!pre.sent ==> r is Ok && post.sent && post.delivered@ == Some(
        spec_response_record(pre, inner),
    ) && post.response_sender is None && post.path == pre.path && post.method == pre.method
        && post.query_string == pre.query_string && post.uri == pre.uri && post.headers
        == pre.headers && post.body == pre.body && post.path_params == pre.path_params
        && post.status_code == pre.status_code && post.response_headers == pre.response_headers
        && post.cached_query_params == pre.cached_query_params && post.cached_json
        == pre.cached_json && post.cached_form_data == pre.cached_form_data)
}

/// Once a terminal send has succeeded, every further terminal send fails
/// with `AlreadySent` and leaves the request as it was; the one delivered
/// record is the first send's.
pub proof fn lemma_at_most_once_send(
    d0: DetachedRequestWrapper,
    d1: DetachedRequestWrapper,
    d2: DetachedRequestWrapper,
    i1: crate::response::InnerRespView,
    i2: crate::response::InnerRespView,
    r1: Result<(), SendError>,
    r2: Result<(), SendError>,
)
    requires
        send_transition(d0, d1, i1, r1),
        send_transition(d1, d2, i2, r2),
        r1 is Ok,
    ensures
        r2 matches Err(e) && e == SendError::AlreadySent,
        d2 == d1,
        d1.delivered@ == Some(spec_response_record(d0, i1)),
{
}

impl DetachedRequestWrapper {
    fn send_response(&mut self, inner: crate::response::InnerResp) -> (r: Result<(), SendError>)
        requires
            old(self).wf(),
        ensures
            final(self).wf(),
            send_transition(*old(self), *final(self), inner.deep_view(), r),
    {
        if self.sent {
            return Err(SendError::AlreadySent);
        }
        self.sent = true;
        let headers: Option<Vec<(String, String)>> = if self.response_headers.len() == 0 {
            None
        } else {
            Some(crate::strutil::clone_pairs(&self.response_headers))
        };
        let record = crate::response::JsResponse {
            inner,
            status_code: self.status_code,
            headers,
        };
        let ghost rv = record.deep_view();
        assert(rv == spec_response_record(*old(self), record.inner.deep_view()));
        self.delivered = Ghost(Some(rv));
        let sender = self.response_sender.take();
        match sender {
            Some(s) => {
                let _ = oneshot_send(s, record);
            },
            None => {},
        }
        Ok(())
    }

    /// Send a plain-text response; the one terminal send of this request,
    /// if none succeeded before.
    pub fn send_text_async(&mut self, text: String) -> (r: Result<(), SendError>)
        requires
            old(self).wf(),
        ensures
            final(self).wf(),
            send_transition(
                *old(self),
                *final(self),
                crate::response::InnerRespView::Text(text@),
                r,
            ),
    {
        self.send_response(crate::response::InnerResp::Text(text))
    }

    /// Send a JSON response from already-serialized text.
    pub fn send_json_async(&mut self, json: String) -> (r: Result<(), SendError>)
        requires
            old(self).wf(),
        ensures
            final(self).wf(),
            send_transition(
                *old(self),
                *final(self),
                crate::response::InnerRespView::Json(json@),
                r,
            ),
    {
        self.send_response(crate::response::InnerResp::Json(json))
    }

    /// Serialize a JSON value, then send it as a JSON response. A value the
    /// serializer refuses fails without touching the request.
    pub fn send_object_async(&mut self, obj: serde_json::Value) -> (r: Result<(), SendError>)
        requires
            old(self).wf(),
        ensures
            final(self).wf(),
            r matches Err(e) && e == SendError::SerializeFailed ==> *final(self) == *old(self),
            !(r matches Err(e) && e == SendError::SerializeFailed) ==> (exists|j: Seq<char>|
                #[trigger] send_transition(
                    *old(self),
                    *final(self),
                    crate::response::InnerRespView::Json(j),
                    r,
                )),
    {
        match json_value_to_string(&obj) {
            Some(text) => {
                let r = self.send_response(crate::response::InnerResp::Json(text));
                assert(send_transition(
                    *old(self),
                    *self,
                    crate::response::InnerRespView::Json(text@),
                    r,
                ));
                r
            },
            None => Err(SendError::SerializeFailed),
        }
    }

    /// Send the empty response.
    pub fn send_empty_async(&mut self) -> (r: Result<(), SendError>)
        requires
            old(self).wf(),
        ensures
            final(self).wf(),
            send_transition(
                *old(self),
                *final(self),
                crate::response::InnerRespView::EmptyString,
                r,
            ),
    {
        self.send_response(crate::response::InnerResp::EmptyString)
    }

    /// Send a server error, with or without a message.
    pub fn send_error_async(&mut self, message: Option<String>) -> (r: Result<(), SendError>)
        requires
            old(self).wf(),
        ensures
            final(self).wf(),
            message matches Some(m) ==> send_transition(
                *old(self),
                *final(self),
                crate::response::InnerRespView::ServerErrorWithMessage(m@),
                r,
            ),
            message is None ==> send_transition(
                *old(self),
                *final(self),
                crate::response::InnerRespView::ServerError,
                r,
            ),
    {
        match message {
            Some(msg) => self.send_response(
                crate::response::InnerResp::ServerErrorWithMessage(msg),
            ),
            None => self.send_response(crate::response::InnerResp::ServerError),
        }
    }

    /// Override the response status. Refused outside 100..999 and after a
    /// successful send; then nothing changes.
    pub fn set_status_code_async(&mut self, status: u16) -> (r: bool)
        requires
            old(self).wf(),
        ensures
            final(self).wf(),
            r == (!old(self).sent && 100 <= status && status < 1000),
            r ==> final(self).status_code == Some(status) && final(self).sent == old(self).sent
                && final(self).delivered == old(self).delivered && final(self).response_headers
                == old(self).response_headers && final(self).response_sender
                == old(self).response_sender && request_core_unchanged(*old(self), *final(self)),
            !r ==> *final(self) == *old(self),
    {
        if self.sent {
            return false;
        }
        if !(100 <= status && status < 1000) {
            return false;
        }
        self.status_code = Some(status);
        true
    }

    /// Append a custom response header; a no-op after a successful send.
    pub fn add_header_async(&mut self, key: String, value: String)
        requires
            old(self).wf(),
        ensures
            final(self).wf(),
            !old(self).sent ==> final(self).response_headers.deep_view() == old(
                self,
            ).response_headers.deep_view().push((key@, value@)) && final(self).sent == old(
                self,
            ).sent && final(self).delivered == old(self).delivered && final(self).status_code
                == old(self).status_code && final(self).response_sender
                == old(self).response_sender && request_core_unchanged(*old(self), *final(self)),
            old(self).sent ==> *final(self) == *old(self),
    {
        if !self.sent {
            let ghost prev = self.response_headers.deep_view();
            self.response_headers.push((key, value));
            assert(self.response_headers@.len() == prev.len() + 1);
            assert(self.response_headers.deep_view() =~= prev.push((key@, value@)));
        }
    }
}


/// Parsing happens once, at construction: in a well-formed request the
/// JSON and form caches exist exactly for the content the captured headers
/// and body call for, and the getters serve the caches verbatim, so
/// repeated reads yield the same values for the life of the request.
pub proof fn lemma_parses_computed_once(d: DetachedRequestWrapper)
    requires
        d.wf(),
    ensures
        d.cached_json is Some <==> (d.body matches Some(b) && spec_is_json_ct(d.headers_view())
            && serde_accepts(b@)),
        d.cached_form_data is Some <==> (d.body is Some && spec_is_form_ct(d.headers_view())),
{
}

/// Detached-request immutability: every reader's answer is a function of
/// the captured fields alone, so two requests that captured the same state
/// answer every read alike, and reads of one request agree until it is
/// dropped.
pub proof fn lemma_reads_deterministic(a: DetachedRequestWrapper, b: DetachedRequestWrapper)
    requires
        a.path == b.path,
        a.method == b.method,
        a.query_string == b.query_string,
        a.uri == b.uri,
        a.headers == b.headers,
        a.body == b.body,
        a.path_params == b.path_params,
        a.cached_query_params == b.cached_query_params,
        a.cached_json == b.cached_json,
        a.cached_form_data == b.cached_form_data,
    ensures
        a.headers_view() == b.headers_view(),
        forall|k: Seq<char>| spec_assoc_get(a.headers_view(), k) == spec_assoc_get(
            b.headers_view(),
            k,
        ),
        a.path_params.deep_view() == b.path_params.deep_view(),
        (match a.body {
            Option::Some(bd) => chars_of_bytes(bd@),
            Option::None => Seq::<char>::empty(),
        }) == (match b.body {
            Option::Some(bd) => chars_of_bytes(bd@),
            Option::None => Seq::<char>::empty(),
        }),
{
}

} // verus!
