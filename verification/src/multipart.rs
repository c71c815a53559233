//! The multipart/form-data grammar: boundary extraction from the
//! content-type header, part splitting over the raw byte buffer, and the
//! part headers (Content-Disposition, Content-Type). The boundary search
//! works on bytes, never on a decoded string, so binary payloads survive.

use crate::query::{spec_bfind, spec_bsplit_from};
use crate::strutil::{
    bytes_find, bytes_range, bytes_starts_with, is_match_at, spec_find, spec_starts_with,
};
use vstd::prelude::*;

verus! {

/// ASCII whitespace, as the parser trims it.
pub open spec fn is_ws(b: u8) -> bool {
    b == 9 || b == 10 || b == 13 || b == 32
}

/// A part made only of whitespace carries nothing.
pub open spec fn spec_is_blank(s: Seq<u8>) -> bool {
    forall|i: int| 0 <= i < s.len() ==> is_ws(#[trigger] s[i])
}

#[verifier::loop_isolation(false)]
fn is_blank_bytes(s: &[u8]) -> (r: bool)
    ensures
        r == spec_is_blank(s@),
{
    let n = s.len();
    let mut i: usize = 0;
    while i < n
        invariant
            n == s@.len(),
            0 <= i <= n,
            forall|j: int| 0 <= j < i ==> is_ws(#[trigger] s@[j]),
        decreases n - i,
    {
        let b = s[i];
        if !(b == 9 || b == 10 || b == 13 || b == 32) {
            assert(!is_ws(s@[i as int]));
            return false;
        }
        i = i + 1;
    }
    true
}

/// The ASCII lowercase of one byte.
pub open spec fn lower_b(b: u8) -> u8 {
    if 65 <= b && b <= 90 {
        (b + 32) as u8
    } else {
        b
    }
}

/// Whether `s` starts with the (lowercase) pattern, letter case ignored.
pub open spec fn spec_istarts(s: Seq<u8>, pat: Seq<u8>) -> bool {
    s.len() >= pat.len() && forall|i: int| 0 <= i < pat.len() ==> lower_b(s[i]) == #[trigger] pat[i]
}

#[verifier::loop_isolation(false)]
fn istarts_lower(s: &[u8], pat: &[u8]) -> (r: bool)
    ensures
        r == spec_istarts(s@, pat@),
{
    let plen = pat.len();
    if s.len() < plen {
        return false;
    }
    let mut i: usize = 0;
    while i < plen
        invariant
            plen == pat@.len(),
            plen <= s@.len(),
            0 <= i <= plen,
            forall|j: int| 0 <= j < i ==> lower_b(s@[j]) == #[trigger] pat@[j],
        decreases plen - i,
    {
        let b = s[i];
        let lb = if 65 <= b && b <= 90 {
            b + 32
        } else {
            b
        };
        if lb != pat[i] {
            assert(lower_b(s@[i as int]) != pat@[i as int]);
            return false;
        }
        i = i + 1;
    }
    true
}

// ---------------------------------------------------------------------------
// Trimming
// ---------------------------------------------------------------------------
/// Drop one kind of byte from the front, repeatedly.
pub open spec fn spec_trim_start_ws(s: Seq<u8>) -> Seq<u8>
    decreases s.len(),
{
    if s.len() > 0 && is_ws(s[0]) {
        spec_trim_start_ws(s.skip(1))
    } else {
        s
    }
}

/// Drop whitespace from the back, repeatedly.
pub open spec fn spec_trim_end_ws(s: Seq<u8>) -> Seq<u8>
    decreases s.len(),
{
    if s.len() > 0 && is_ws(s.last()) {
        spec_trim_end_ws(s.drop_last())
    } else {
        s
    }
}

pub open spec fn spec_trim_ws(s: Seq<u8>) -> Seq<u8> {
    spec_trim_end_ws(spec_trim_start_ws(s))
}

/// Drop double quotes from both ends, repeatedly.
pub open spec fn spec_trim_start_q(s: Seq<u8>) -> Seq<u8>
    decreases s.len(),
{
    if s.len() > 0 && s[0] == 34 {
        spec_trim_start_q(s.skip(1))
    } else {
        s
    }
}

pub open spec fn spec_trim_end_q(s: Seq<u8>) -> Seq<u8>
    decreases s.len(),
{
    if s.len() > 0 && s.last() == 34 {
        spec_trim_end_q(s.drop_last())
    } else {
        s
    }
}

pub open spec fn spec_trim_q(s: Seq<u8>) -> Seq<u8> {
    spec_trim_end_q(spec_trim_start_q(s))
}

/// Trim a byte range `[lo, hi)` of `s`: first quotes, then whitespace, as
/// the boundary parameter tolerates both.
#[verifier::loop_isolation(false)]
fn trim_q_ws(s: &[u8], lo0: usize, hi0: usize) -> (r: Vec<u8>)
    requires
        lo0 <= hi0 <= s@.len(),
    ensures
        r@ == spec_trim_ws(spec_trim_q(s@.subrange(lo0 as int, hi0 as int))),
{
    let mut lo = lo0;
    let mut hi = hi0;
    let ghost orig = s@.subrange(lo0 as int, hi0 as int);
    assert(orig =~= s@.subrange(lo as int, hi as int));
    while lo < hi && s[lo] == 34
        invariant
            lo0 <= lo <= hi <= hi0 <= s@.len(),
            hi == hi0,
            spec_trim_start_q(orig) == spec_trim_start_q(s@.subrange(lo as int, hi as int)),
        decreases hi - lo,
    {
        assert(s@.subrange(lo as int, hi as int).skip(1) =~= s@.subrange(lo + 1, hi as int));
        lo = lo + 1;
    }
    assert(spec_trim_start_q(orig) == s@.subrange(lo as int, hi as int));
    let ghost t1 = spec_trim_start_q(orig);
    while hi > lo && s[hi - 1] == 34
        invariant
            lo0 <= lo <= hi <= hi0 <= s@.len(),
            spec_trim_end_q(t1) == spec_trim_end_q(s@.subrange(lo as int, hi as int)),
        decreases hi - lo,
    {
        assert(s@.subrange(lo as int, hi as int).drop_last() =~= s@.subrange(lo as int, hi - 1));
        hi = hi - 1;
    }
    assert(spec_trim_q(orig) == s@.subrange(lo as int, hi as int));
    let ghost t2 = spec_trim_q(orig);
    while lo < hi && (s[lo] == 9 || s[lo] == 10 || s[lo] == 13 || s[lo] == 32)
        invariant
            lo0 <= lo <= hi <= hi0 <= s@.len(),
            spec_trim_start_ws(t2) == spec_trim_start_ws(s@.subrange(lo as int, hi as int)),
        decreases hi - lo,
    {
        assert(s@.subrange(lo as int, hi as int).skip(1) =~= s@.subrange(lo + 1, hi as int));
        lo = lo + 1;
    }
    assert(spec_trim_start_ws(t2) == s@.subrange(lo as int, hi as int));
    let ghost t3 = spec_trim_start_ws(t2);
    while hi > lo && (s[hi - 1] == 9 || s[hi - 1] == 10 || s[hi - 1] == 13 || s[hi - 1] == 32)
        invariant
            lo0 <= lo <= hi <= hi0 <= s@.len(),
            spec_trim_end_ws(t3) == spec_trim_end_ws(s@.subrange(lo as int, hi as int)),
        decreases hi - lo,
    {
        assert(s@.subrange(lo as int, hi as int).drop_last() =~= s@.subrange(lo as int, hi - 1));
        hi = hi - 1;
    }
    assert(spec_trim_ws(spec_trim_q(orig)) == s@.subrange(lo as int, hi as int));
    bytes_range(s, lo, hi)
}

/// Drop trailing `\r\n` pairs, then trailing `\n` bytes, as the part
/// content is served.
pub open spec fn spec_trim_end_crlf(s: Seq<u8>) -> Seq<u8>
    decreases s.len(),
{
    if s.len() >= 2 && s[s.len() - 2] == 13 && s[s.len() - 1] == 10 {
        spec_trim_end_crlf(s.take(s.len() - 2))
    } else {
        s
    }
}

pub open spec fn spec_trim_end_nl(s: Seq<u8>) -> Seq<u8>
    decreases s.len(),
{
    if s.len() >= 1 && s.last() == 10 {
        spec_trim_end_nl(s.drop_last())
    } else {
        s
    }
}

#[verifier::loop_isolation(false)]
fn trim_content(s: &[u8], from: usize) -> (r: Vec<u8>)
    requires
        from <= s@.len(),
    ensures
        r@ == spec_trim_end_nl(spec_trim_end_crlf(s@.subrange(from as int, s@.len() as int))),
{
    let ghost orig = s@.subrange(from as int, s@.len() as int);
    let mut hi = s.len();
    assert(orig =~= s@.subrange(from as int, hi as int));
    while hi - from >= 2 && s[hi - 2] == 13 && s[hi - 1] == 10
        invariant
            from <= hi <= s@.len(),
            spec_trim_end_crlf(orig) == spec_trim_end_crlf(s@.subrange(from as int, hi as int)),
        decreases hi,
    {
        assert(s@.subrange(from as int, hi as int).take(hi - from - 2) =~= s@.subrange(
            from as int,
            hi - 2,
        ));
        hi = hi - 2;
    }
    assert(spec_trim_end_crlf(orig) == s@.subrange(from as int, hi as int));
    let ghost t1 = spec_trim_end_crlf(orig);
    while hi > from && s[hi - 1] == 10
        invariant
            from <= hi <= s@.len(),
            spec_trim_end_nl(t1) == spec_trim_end_nl(s@.subrange(from as int, hi as int)),
        decreases hi,
    {
        assert(s@.subrange(from as int, hi as int).drop_last() =~= s@.subrange(from as int, hi - 1));
        hi = hi - 1;
    }
    assert(spec_trim_end_nl(t1) == s@.subrange(from as int, hi as int));
    bytes_range(s, from, hi)
}


// ---------------------------------------------------------------------------
// Splitting on a multi-byte delimiter
// ---------------------------------------------------------------------------
/// The pieces of `s` from `from` on, split at the delimiter `d`.
pub open spec fn spec_msplit_from(s: Seq<u8>, d: Seq<u8>, from: int) -> Seq<Seq<u8>>
    decreases s.len() + 1 - from,
{
    if from < 0 || from > s.len() || d.len() == 0 {
        Seq::empty()
    } else {
        match spec_find(s, d, from) {
            Option::None => seq![s.subrange(from, s.len() as int)],
            Option::Some(i) => if from <= i && i + d.len() <= s.len() {
                seq![s.subrange(from, i)] + spec_msplit_from(s, d, i + d.len())
            } else {
                // `spec_find` never answers outside this range; the guard
                // only makes the recursion visibly bounded.
                Seq::empty()
            },
        }
    }
}

/// Split a byte buffer at a delimiter.
#[verifier::loop_isolation(false)]
pub fn msplit(s: &[u8], d: &[u8]) -> (r: Vec<Vec<u8>>)
    requires
        d@.len() > 0,
    ensures
        r.deep_view() == spec_msplit_from(s@, d@, 0),
{
    let n = s.len();
    let dlen = d.len();
    let mut out: Vec<Vec<u8>> = Vec::new();
    let mut seg_start: usize = 0;
    let mut finished: bool = false;
    while !finished
        invariant
            n == s@.len(),
            dlen == d@.len(),
            dlen > 0,
            seg_start <= n,
            !finished ==> spec_msplit_from(s@, d@, 0) == out.deep_view() + spec_msplit_from(
                s@,
                d@,
                seg_start as int,
            ),
            finished ==> out.deep_view() == spec_msplit_from(s@, d@, 0),
        decreases n - seg_start + (if finished {
            0int
        } else {
            1int
        }),
    {
        match bytes_find(s, d, seg_start) {
            Some(i) => {
                proof {
                    crate::strutil::lemma_find_props(s@, d@, seg_start as int);
                }
                assert(is_match_at(s@, d@, i as int));
                let seg = bytes_range(s, seg_start, i);
                let ghost prev = out.deep_view();
                out.push(seg);
                assert(out@.len() == prev.len() + 1);
                assert(out.deep_view()[prev.len() as int] == s@.subrange(
                    seg_start as int,
                    i as int,
                ));
                assert(forall|k: int|
                    0 <= k < prev.len() ==> #[trigger] out.deep_view()[k] == prev[k]);
                assert(out.deep_view() =~= prev + seq![
                    s@.subrange(seg_start as int, i as int),
                ]);
                seg_start = i + dlen;
                proof {
                    assert(spec_msplit_from(s@, d@, 0) =~= out.deep_view() + spec_msplit_from(
                        s@,
                        d@,
                        seg_start as int,
                    ));
                }
            },
            None => {
                let seg = bytes_range(s, seg_start, n);
                let ghost prev = out.deep_view();
                out.push(seg);
                assert(out@.len() == prev.len() + 1);
                assert(out.deep_view()[prev.len() as int] == s@.subrange(
                    seg_start as int,
                    n as int,
                ));
                assert(forall|k: int|
                    0 <= k < prev.len() ==> #[trigger] out.deep_view()[k] == prev[k]);
                assert(out.deep_view() =~= prev + seq![s@.subrange(seg_start as int, n as int)]);
                finished = true;
                assert(out.deep_view() =~= spec_msplit_from(s@, d@, 0));
            },
        }
    }
    out
}

// ---------------------------------------------------------------------------
// Part headers
// ---------------------------------------------------------------------------
/// One parsed multipart part. A part without a filename is a text field; a
/// part with one describes an uploaded file.
pub struct MultipartPart {
    pub name: Vec<u8>,
    pub filename: Option<Vec<u8>>,
    pub content_type: Option<Vec<u8>>,
    pub content: Vec<u8>,
}

/// The mathematical value of a part.
pub struct PartView {
    pub name: Seq<u8>,
    pub filename: Option<Seq<u8>>,
    pub content_type: Option<Seq<u8>>,
    pub content: Seq<u8>,
}

impl DeepView for MultipartPart {
    type V = PartView;

    open spec fn deep_view(&self) -> PartView {
        PartView {
            name: self.name@,
            filename: match &self.filename {
                Option::Some(f) => Some(f@),
                Option::None => None,
            },
            content_type: match &self.content_type {
                Option::Some(c) => Some(c@),
                Option::None => None,
            },
            content: self.content@,
        }
    }
}

/// A header line without its trailing carriage return.
pub open spec fn spec_strip_cr(l: Seq<u8>) -> Seq<u8> {
    if l.len() > 0 && l.last() == 13 {
        l.drop_last()
    } else {
        l
    }
}

/// The header lines of a part, split at line feeds.
pub open spec fn spec_lines(h: Seq<u8>) -> Seq<Seq<u8>> {
    Seq::new(
        spec_bsplit_from(h, 10, 0).len(),
        |i: int| spec_strip_cr(spec_bsplit_from(h, 10, 0)[i]),
    )
}

#[verifier::loop_isolation(false)]
fn lines_of(h: &[u8]) -> (r: Vec<Vec<u8>>)
    ensures
        r.deep_view() == spec_lines(h@),
{
    let raw = crate::query::bsplit(h, 10);
    let ghost rv = raw.deep_view();
    let mut out: Vec<Vec<u8>> = Vec::new();
    let mut i: usize = 0;
    while i < raw.len()
        invariant
            rv == raw.deep_view(),
            raw@.len() == rv.len(),
            0 <= i <= rv.len(),
            out.deep_view().len() == i,
            forall|k: int|
                0 <= k < i ==> #[trigger] out.deep_view()[k] == spec_strip_cr(rv[k]),
        decreases raw.len() - i,
    {
        assert(rv[i as int] == raw@[i as int]@);
        let line: &Vec<u8> = &raw[i];
        let llen = line.len();
        let stripped = if llen > 0 && line[llen - 1] == 13 {
            bytes_range(line.as_slice(), 0, llen - 1)
        } else {
            bytes_range(line.as_slice(), 0, llen)
        };
        assert(stripped@ =~= spec_strip_cr(rv[i as int]));
        let ghost prev = out.deep_view();
        out.push(stripped);
        assert(out@.len() == prev.len() + 1);
        assert(forall|k: int| 0 <= k < prev.len() ==> #[trigger] out.deep_view()[k] == prev[k]);
        i = i + 1;
    }
    assert(out.deep_view() =~= spec_lines(h@));
    out
}

/// The `content-disposition:` pattern, lowercase.
pub open spec fn cd_pat() -> Seq<u8> {
    vstd::utf8::encode_utf8("content-disposition:"@)
}

/// The `content-type:` pattern, lowercase.
pub open spec fn ctl_pat() -> Seq<u8> {
    vstd::utf8::encode_utf8("content-type:"@)
}

/// The `name="` pattern.
pub open spec fn name_pat() -> Seq<u8> {
    vstd::utf8::encode_utf8("name=\""@)
}

/// The `filename="` pattern.
pub open spec fn filename_pat() -> Seq<u8> {
    vstd::utf8::encode_utf8("filename=\""@)
}

/// The quoted value after the first occurrence of `key` in `line`, up to
/// the next double quote.
pub open spec fn spec_quoted_after(line: Seq<u8>, key: Seq<u8>) -> Option<Seq<u8>> {
    match spec_find(line, key, 0) {
        Option::None => None,
        Option::Some(i) => {
            let vstart = i + key.len();
            match spec_find(line, seq![34u8], vstart) {
                Option::None => None,
                Option::Some(e) => if 0 <= vstart <= e <= line.len() {
                    Some(line.subrange(vstart, e))
                } else {
                    None
                },
            }
        },
    }
}

#[verifier::loop_isolation(false)]
fn quoted_after(line: &[u8], key: &[u8]) -> (r: Option<Vec<u8>>)
    ensures
        match spec_quoted_after(line@, key@) {
            Option::Some(v) => r matches Some(rv) && rv@ == v,
            Option::None => r is None,
        },
{
    match bytes_find(line, key, 0) {
        Some(i) => {
            proof {
                crate::strutil::lemma_find_props(line@, key@, 0);
            }
            assert(is_match_at(line@, key@, i as int));
            let llen = line.len();
            assert(i + key@.len() <= llen);
            let vstart = i + key.len();
            let mut quote: Vec<u8> = Vec::new();
            quote.push(34);
            assert(quote@ =~= seq![34u8]);
            match bytes_find(line, quote.as_slice(), vstart) {
                Some(e) => {
                    proof {
                        crate::strutil::lemma_find_props(line@, seq![34u8], vstart as int);
                    }
                    assert(is_match_at(line@, seq![34u8], e as int));
                    Some(bytes_range(line, vstart, e))
                },
                None => None,
            }
        },
        None => None,
    }
}

/// The first `Content-Disposition` line that carries the quoted key, and
/// its value.
pub open spec fn spec_extract_quoted(lines: Seq<Seq<u8>>, idx: int, key: Seq<u8>) -> Option<
    Seq<u8>,
>
    decreases lines.len() + 1 - idx,
{
    if idx < 0 || idx >= lines.len() {
        None
    } else if spec_istarts(lines[idx], cd_pat()) && spec_quoted_after(lines[idx], key) is Some {
        spec_quoted_after(lines[idx], key)
    } else {
        spec_extract_quoted(lines, idx + 1, key)
    }
}

#[verifier::loop_isolation(false)]
fn extract_quoted(lines: &Vec<Vec<u8>>, key: &[u8]) -> (r: Option<Vec<u8>>)
    ensures
        match spec_extract_quoted(lines.deep_view(), 0, key@) {
            Option::Some(v) => r matches Some(rv) && rv@ == v,
            Option::None => r is None,
        },
{
    let ghost lv = lines.deep_view();
    let cd = "content-disposition:".as_bytes_vec();
    let mut i: usize = 0;
    while i < lines.len()
        invariant
            lv == lines.deep_view(),
            lines@.len() == lv.len(),
            cd@ == cd_pat(),
            0 <= i <= lv.len(),
            spec_extract_quoted(lv, 0, key@) == spec_extract_quoted(lv, i as int, key@),
        decreases lines.len() - i,
    {
        assert(lv[i as int] == lines@[i as int]@);
        if istarts_lower(lines[i].as_slice(), cd.as_slice()) {
            match quoted_after(lines[i].as_slice(), key) {
                Some(v) => {
                    return Some(v);
                },
                None => {},
            }
        }
        i = i + 1;
    }
    None
}

/// The first `Content-Type` line of a part's headers, its value trimmed.
pub open spec fn spec_extract_ct(lines: Seq<Seq<u8>>, idx: int) -> Option<Seq<u8>>
    decreases lines.len() + 1 - idx,
{
    if idx < 0 || idx >= lines.len() {
        None
    } else if spec_istarts(lines[idx], ctl_pat()) {
        Some(
            spec_trim_end_ws(
                spec_trim_start_ws(
                    lines[idx].subrange(ctl_pat().len() as int, lines[idx].len() as int),
                ),
            ),
        )
    } else {
        spec_extract_ct(lines, idx + 1)
    }
}

#[verifier::loop_isolation(false)]
fn trim_ws_range(s: &[u8], lo0: usize, hi0: usize) -> (r: Vec<u8>)
    requires
        lo0 <= hi0 <= s@.len(),
    ensures
        r@ == spec_trim_end_ws(spec_trim_start_ws(s@.subrange(lo0 as int, hi0 as int))),
{
    let mut lo = lo0;
    let mut hi = hi0;
    let ghost orig = s@.subrange(lo0 as int, hi0 as int);
    assert(orig =~= s@.subrange(lo as int, hi as int));
    while lo < hi && (s[lo] == 9 || s[lo] == 10 || s[lo] == 13 || s[lo] == 32)
        invariant
            lo0 <= lo <= hi <= hi0 <= s@.len(),
            hi == hi0,
            spec_trim_start_ws(orig) == spec_trim_start_ws(s@.subrange(lo as int, hi as int)),
        decreases hi - lo,
    {
        assert(s@.subrange(lo as int, hi as int).skip(1) =~= s@.subrange(lo + 1, hi as int));
        lo = lo + 1;
    }
    assert(spec_trim_start_ws(orig) == s@.subrange(lo as int, hi as int));
    let ghost t1 = spec_trim_start_ws(orig);
    while hi > lo && (s[hi - 1] == 9 || s[hi - 1] == 10 || s[hi - 1] == 13 || s[hi - 1] == 32)
        invariant
            lo0 <= lo <= hi <= hi0 <= s@.len(),
            spec_trim_end_ws(t1) == spec_trim_end_ws(s@.subrange(lo as int, hi as int)),
        decreases hi - lo,
    {
        assert(s@.subrange(lo as int, hi as int).drop_last() =~= s@.subrange(lo as int, hi - 1));
        hi = hi - 1;
    }
    assert(spec_trim_end_ws(t1) == s@.subrange(lo as int, hi as int));
    bytes_range(s, lo, hi)
}

#[verifier::loop_isolation(false)]
fn extract_ct(lines: &Vec<Vec<u8>>) -> (r: Option<Vec<u8>>)
    ensures
        match spec_extract_ct(lines.deep_view(), 0) {
            Option::Some(v) => r matches Some(rv) && rv@ == v,
            Option::None => r is None,
        },
{
    let ghost lv = lines.deep_view();
    let ctp = "content-type:".as_bytes_vec();
    let mut i: usize = 0;
    while i < lines.len()
        invariant
            lv == lines.deep_view(),
            lines@.len() == lv.len(),
            ctp@ == ctl_pat(),
            0 <= i <= lv.len(),
            spec_extract_ct(lv, 0) == spec_extract_ct(lv, i as int),
        decreases lines.len() - i,
    {
        assert(lv[i as int] == lines@[i as int]@);
        if istarts_lower(lines[i].as_slice(), ctp.as_slice()) {
            let v = trim_ws_range(lines[i].as_slice(), ctp.len(), lines[i].len());
            return Some(v);
        }
        i = i + 1;
    }
    None
}


// ---------------------------------------------------------------------------
// One part
// ---------------------------------------------------------------------------
/// Where a part's headers end and its content starts: at the first blank
/// line, with either line ending accepted.
pub open spec fn spec_header_split(p: Seq<u8>) -> Option<(int, int)> {
    match spec_find(p, seq![13u8, 10u8, 13u8, 10u8], 0) {
        Option::Some(he) => Some((he, he + 4)),
        Option::None => match spec_find(p, seq![10u8, 10u8], 0) {
            Option::Some(he) => Some((he, he + 2)),
            Option::None => None,
        },
    }
}

/// What one split piece contributes: nothing for the blank or closing
/// pieces, or for one without headers or a field name; otherwise the named
/// part with its trimmed content.
pub open spec fn spec_process_part(p: Seq<u8>) -> Option<PartView> {
    if spec_is_blank(p) || spec_starts_with(p, seq![45u8, 45u8]) {
        None
    } else {
        match spec_header_split(p) {
            Option::None => None,
            Option::Some(hc) => if 0 <= hc.0 && hc.0 <= hc.1 <= p.len() {
                let h = p.subrange(0, hc.0);
                match spec_extract_quoted(spec_lines(h), 0, name_pat()) {
                    Option::None => None,
                    Option::Some(nm) => Some(
                        PartView {
                            name: nm,
                            filename: spec_extract_quoted(spec_lines(h), 0, filename_pat()),
                            content_type: spec_extract_ct(spec_lines(h), 0),
                            content: spec_trim_end_nl(
                                spec_trim_end_crlf(p.subrange(hc.1, p.len() as int)),
                            ),
                        },
                    ),
                }
            } else {
                None
            },
        }
    }
}

#[verifier::loop_isolation(false)]
fn process_part(p: &Vec<u8>) -> (r: Option<MultipartPart>)
    ensures
        match spec_process_part(p@) {
            Option::Some(v) => r matches Some(rp) && rp.deep_view() == v,
            Option::None => r is None,
        },
{
    let plen = p.len();
    let mut dd: Vec<u8> = Vec::new();
    dd.push(45);
    dd.push(45);
    assert(dd@ =~= seq![45u8, 45u8]);
    if is_blank_bytes(p.as_slice()) || bytes_starts_with(p.as_slice(), dd.as_slice()) {
        return None;
    }
    let mut crlf2: Vec<u8> = Vec::new();
    crlf2.push(13);
    crlf2.push(10);
    crlf2.push(13);
    crlf2.push(10);
    assert(crlf2@ =~= seq![13u8, 10u8, 13u8, 10u8]);
    let mut nl2: Vec<u8> = Vec::new();
    nl2.push(10);
    nl2.push(10);
    assert(nl2@ =~= seq![10u8, 10u8]);
    let hc: (usize, usize) = match bytes_find(p.as_slice(), crlf2.as_slice(), 0) {
        Some(he) => {
            proof {
                crate::strutil::lemma_find_props(p@, seq![13u8, 10u8, 13u8, 10u8], 0);
            }
            assert(he + 4 <= plen);
            (he, he + 4)
        },
        None => {
            match bytes_find(p.as_slice(), nl2.as_slice(), 0) {
                Some(he) => {
                    proof {
                        crate::strutil::lemma_find_props(p@, seq![10u8, 10u8], 0);
                    }
                    assert(he + 2 <= plen);
                    (he, he + 2)
                },
                None => {
                    return None;
                },
            }
        },
    };
    assert(spec_header_split(p@) == Some((hc.0 as int, hc.1 as int)));
    let h = bytes_range(p.as_slice(), 0, hc.0);
    let lines = lines_of(h.as_slice());
    assert(lines.deep_view() == spec_lines(p@.subrange(0, hc.0 as int)));
    let namek = "name=\"".as_bytes_vec();
    assert(namek@ == name_pat());
    let name = match extract_quoted(&lines, namek.as_slice()) {
        Some(nm) => nm,
        None => {
            return None;
        },
    };
    let filek = "filename=\"".as_bytes_vec();
    assert(filek@ == filename_pat());
    let filename = extract_quoted(&lines, filek.as_slice());
    let content_type = extract_ct(&lines);
    let content = trim_content(p.as_slice(), hc.1);
    let part = MultipartPart { name, filename, content_type, content };
    assert(spec_process_part(p@) matches Some(v) && part.deep_view() == v);
    Some(part)
}

/// The parts the split pieces carry, the leading preamble piece skipped.
pub open spec fn spec_collect(parts: Seq<Seq<u8>>, from: int) -> Seq<PartView>
    decreases parts.len() + 1 - from,
{
    if from < 0 || from >= parts.len() {
        Seq::empty()
    } else {
        (match spec_process_part(parts[from]) {
            Option::Some(v) => seq![v],
            Option::None => Seq::empty(),
        }) + spec_collect(parts, from + 1)
    }
}

// ---------------------------------------------------------------------------
// The boundary
// ---------------------------------------------------------------------------
/// The `boundary=` pattern of the content-type header.
pub open spec fn bnd_pat() -> Seq<u8> {
    vstd::utf8::encode_utf8("boundary="@)
}

/// The boundary the content-type header names: the bytes after
/// `boundary=`, up to the next `;`, quotes and whitespace trimmed.
pub open spec fn spec_extract_boundary(ctb: Seq<u8>) -> Option<Seq<u8>> {
    match spec_find(ctb, bnd_pat(), 0) {
        Option::None => None,
        Option::Some(i) => {
            let vstart = i + bnd_pat().len();
            if 0 <= vstart <= ctb.len() {
                let piece = match spec_bfind(ctb, 59, vstart) {
                    Option::Some(e) => if vstart <= e <= ctb.len() {
                        ctb.subrange(vstart, e)
                    } else {
                        ctb.subrange(vstart, ctb.len() as int)
                    },
                    Option::None => ctb.subrange(vstart, ctb.len() as int),
                };
                Some(spec_trim_ws(spec_trim_q(piece)))
            } else {
                None
            }
        },
    }
}

/// The boundary actually used: the one on the body's first line when the
/// body opens with `--`, else the one the header names.
pub open spec fn spec_actual_boundary(body: Seq<u8>, hdr: Seq<u8>) -> Seq<u8> {
    if spec_starts_with(body, seq![45u8, 45u8]) {
        match spec_find(body, seq![13u8, 10u8], 0) {
            Option::Some(e) => if 2 <= e <= body.len() {
                body.subrange(2, e)
            } else {
                hdr
            },
            Option::None => match spec_bfind(body, 10, 0) {
                Option::Some(e) => if 2 <= e <= body.len() {
                    body.subrange(2, e)
                } else {
                    hdr
                },
                Option::None => hdr,
            },
        }
    } else {
        hdr
    }
}

/// Everything a multipart body carries, for one content-type header (given
/// as its UTF-8 bytes): the named parts between the boundary delimiters.
pub open spec fn spec_parse_multipart(body: Seq<u8>, ctb: Seq<u8>) -> Seq<PartView> {
    match spec_extract_boundary(ctb) {
        Option::None => Seq::empty(),
        Option::Some(b) => if b.len() == 0 {
            Seq::empty()
        } else {
            spec_collect(
                spec_msplit_from(body, seq![45u8, 45u8] + spec_actual_boundary(body, b), 0),
                1,
            )
        },
    }
}

/// Parse a multipart body against its content-type header (given as
/// bytes). The boundary search runs over the raw bytes.
#[verifier::loop_isolation(false)]
pub fn parse_multipart(body: &[u8], ctb: &[u8]) -> (r: Vec<MultipartPart>)
    ensures
        r.deep_view() == spec_parse_multipart(body@, ctb@),
{
    let ghost ctv = ctb@;
    let bp = "boundary=".as_bytes_vec();
    assert(bp@ == bnd_pat());
    let hdr_boundary: Vec<u8> = match bytes_find(ctb, bp.as_slice(), 0) {
        Some(i) => {
            proof {
                crate::strutil::lemma_find_props(ctv, bnd_pat(), 0);
            }
            let clen = ctb.len();
            assert(i + bp@.len() <= clen);
            let vstart = i + bp.len();
            let upto: usize = {
                let mut semi: Vec<u8> = Vec::new();
                semi.push(59);
                assert(semi@ =~= seq![59u8]);
                match bytes_find(ctb, semi.as_slice(), vstart) {
                    Some(e) => {
                        proof {
                            crate::strutil::lemma_find_props(ctv, seq![59u8], vstart as int);
                            crate::query::lemma_bfind_vs_find_pub(ctv, 59, vstart as int);
                        }
                        e
                    },
                    None => {
                        proof {
                            crate::query::lemma_bfind_vs_find_pub(ctv, 59, vstart as int);
                        }
                        clen
                    },
                }
            };
            trim_q_ws(ctb, vstart, upto)
        },
        None => {
            return Vec::new();
        },
    };
    assert(spec_extract_boundary(ctv) == Some(hdr_boundary@));
    if hdr_boundary.len() == 0 {
        return Vec::new();
    }
    // the boundary actually used, checked against the body's first line
    let mut dd: Vec<u8> = Vec::new();
    dd.push(45);
    dd.push(45);
    assert(dd@ =~= seq![45u8, 45u8]);
    let actual: Vec<u8> = if bytes_starts_with(body, dd.as_slice()) {
        let mut crlf: Vec<u8> = Vec::new();
        crlf.push(13);
        crlf.push(10);
        assert(crlf@ =~= seq![13u8, 10u8]);
        match bytes_find(body, crlf.as_slice(), 0) {
            Some(e) => {
                proof {
                    crate::strutil::lemma_find_props(body@, seq![13u8, 10u8], 0);
                }
                if e >= 2 {
                    bytes_range(body, 2, e)
                } else {
                    hdr_boundary
                }
            },
            None => {
                let mut nl: Vec<u8> = Vec::new();
                nl.push(10);
                assert(nl@ =~= seq![10u8]);
                match bytes_find(body, nl.as_slice(), 0) {
                    Some(e) => {
                        proof {
                            crate::strutil::lemma_find_props(body@, seq![10u8], 0);
                            crate::query::lemma_bfind_vs_find_pub(body@, 10, 0);
                        }
                        if e >= 2 {
                            bytes_range(body, 2, e)
                        } else {
                            hdr_boundary
                        }
                    },
                    None => {
                        proof {
                            crate::query::lemma_bfind_vs_find_pub(body@, 10, 0);
                        }
                        hdr_boundary
                    },
                }
            },
        }
    } else {
        hdr_boundary
    };
    let ghost hb = spec_extract_boundary(ctv)->Some_0;
    assert(actual@ == spec_actual_boundary(body@, hb));
    let mut delim: Vec<u8> = Vec::new();
    delim.push(45);
    delim.push(45);
    let mut k: usize = 0;
    #[verifier::loop_isolation(false)]
    while k < actual.len()
        invariant
            0 <= k <= actual@.len(),
            delim@ =~= seq![45u8, 45u8] + actual@.subrange(0, k as int),
        decreases actual.len() - k,
    {
        delim.push(actual[k]);
        assert(delim@ =~= seq![45u8, 45u8] + actual@.subrange(0, k + 1));
        k = k + 1;
    }
    assert(actual@.subrange(0, actual@.len() as int) =~= actual@);
    assert(delim@ == seq![45u8, 45u8] + actual@);
    let pieces = msplit(body, delim.as_slice());
    let ghost pv = pieces.deep_view();
    let mut out: Vec<MultipartPart> = Vec::new();
    let mut i: usize = 1;
    while i < pieces.len()
        invariant
            pv == pieces.deep_view(),
            pieces@.len() == pv.len(),
            1 <= i <= pv.len() || (pv.len() < 1 && i == 1),
            out.deep_view() + spec_collect(pv, i as int) =~= spec_collect(pv, 1),
        decreases pieces.len() - i,
    {
        assert(pv[i as int] == pieces@[i as int]@);
        match process_part(&pieces[i]) {
            Some(part) => {
                let ghost prev = out.deep_view();
                out.push(part);
                assert(out@.len() == prev.len() + 1);
                assert(forall|k2: int|
                    0 <= k2 < prev.len() ==> #[trigger] out.deep_view()[k2] == prev[k2]);
                assert(out.deep_view() =~= prev + seq![
                    spec_process_part(pv[i as int])->Some_0,
                ]);
            },
            None => {},
        }
        i = i + 1;
    }
    assert(spec_collect(pv, i as int) =~= Seq::<PartView>::empty());
    assert(out.deep_view() =~= spec_parse_multipart(body@, ctv));
    out
}

} // verus!
