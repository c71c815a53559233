//! Query strings and url-encoded forms: `key=value&key=value` with
//! percent-decoding, plus the small association maps the request object
//! serves its headers, query and path parameters from.

use crate::strutil::bytes_to_string_lossy;
use crate::strutil::chars_of_bytes;
use vstd::prelude::*;

verus! {

// ---------------------------------------------------------------------------
// Percent-decoding
// ---------------------------------------------------------------------------
/// The value of one hex digit byte.
pub open spec fn hex_val(b: u8) -> Option<u8> {
    if 48 <= b && b <= 57 {
        Some((b - 48) as u8)
    } else if 97 <= b && b <= 102 {
        Some((b - 87) as u8)
    } else if 65 <= b && b <= 70 {
        Some((b - 55) as u8)
    } else {
        None
    }
}

/// Standard form decoding: `+` is a space, `%xy` is the byte the two hex
/// digits spell, anything else stands for itself.
pub open spec fn spec_pct_decode(b: Seq<u8>) -> Seq<u8>
    decreases b.len(),
{
    if b.len() == 0 {
        Seq::empty()
    } else if b[0] == 43 {
        seq![32u8] + spec_pct_decode(b.skip(1))
    } else if b[0] == 37 && b.len() >= 3 && hex_val(b[1]) is Some && hex_val(b[2]) is Some {
        seq![((hex_val(b[1])->Some_0 * 16) + hex_val(b[2])->Some_0) as u8] + spec_pct_decode(
            b.skip(3),
        )
    } else {
        seq![b[0]] + spec_pct_decode(b.skip(1))
    }
}

fn hex_digit(b: u8) -> (r: Option<u8>)
    ensures
        r == hex_val(b),
{
    if 48 <= b && b <= 57 {
        Some(b - 48)
    } else if 97 <= b && b <= 102 {
        Some(b - 87)
    } else if 65 <= b && b <= 70 {
        Some(b - 55)
    } else {
        None
    }
}

/// Percent-decode a byte buffer.
#[verifier::loop_isolation(false)]
pub fn pct_decode(b: &[u8]) -> (r: Vec<u8>)
    ensures
        r@ == spec_pct_decode(b@),
{
    let n = b.len();
    let mut out: Vec<u8> = Vec::new();
    let mut i: usize = 0;
    assert(b@.skip(0) =~= b@);
    while i < n
        invariant
            n == b@.len(),
            0 <= i <= n,
            spec_pct_decode(b@) == out@ + spec_pct_decode(b@.skip(i as int)),
        decreases n - i,
    {
        let ghost rest = b@.skip(i as int);
        assert(rest[0] == b@[i as int]);
        if b[i] == 43 {
            out.push(32);
            assert(rest.skip(1) =~= b@.skip(i + 1));
        } else if b[i] == 37 && n - i >= 3 {
            assert(rest.len() >= 3 && rest[1] == b@[i + 1] && rest[2] == b@[i + 2]);
            let h1 = hex_digit(b[i + 1]);
            let h2 = hex_digit(b[i + 2]);
            match (h1, h2) {
                (Some(v1), Some(v2)) => {
                    out.push(v1 * 16 + v2);
                    assert(rest.skip(3) =~= b@.skip(i + 3));
                    i = i + 2;
                },
                _ => {
                    out.push(b[i]);
                    assert(rest.skip(1) =~= b@.skip(i + 1));
                },
            }
        } else {
            out.push(b[i]);
            assert(rest.skip(1) =~= b@.skip(i + 1));
        }
        i = i + 1;
    }
    assert(b@.skip(n as int) =~= Seq::<u8>::empty());
    assert(out@ =~= spec_pct_decode(b@));
    out
}

// ---------------------------------------------------------------------------
// Splitting byte buffers on a separator
// ---------------------------------------------------------------------------
/// First position of `sep` in `s` at or after `from`.
pub open spec fn spec_bfind(s: Seq<u8>, sep: u8, from: int) -> Option<int>
    decreases s.len() + 1 - from,
{
    if from >= s.len() || from < 0 {
        None
    } else if s[from] == sep {
        Some(from)
    } else {
        spec_bfind(s, sep, from + 1)
    }
}

proof fn lemma_bfind_exact(s: Seq<u8>, sep: u8, from: int, i: int)
    requires
        0 <= from <= i < s.len(),
        s[i] == sep,
        forall|j: int| from <= j < i ==> s[j] != sep,
    ensures
        spec_bfind(s, sep, from) == Some(i),
    decreases i - from,
{
    if from < i {
        lemma_bfind_exact(s, sep, from + 1, i);
    }
}

proof fn lemma_bfind_in_range(s: Seq<u8>, sep: u8, from: int)
    requires
        0 <= from,
    ensures
        spec_bfind(s, sep, from) matches Some(i) ==> from <= i < s.len() && s[i] == sep,
    decreases s.len() + 1 - from,
{
    if from < s.len() && s[from] != sep {
        lemma_bfind_in_range(s, sep, from + 1);
    }
}

proof fn lemma_bfind_none(s: Seq<u8>, sep: u8, from: int)
    requires
        0 <= from,
        forall|j: int| from <= j < s.len() ==> s[j] != sep,
    ensures
        spec_bfind(s, sep, from) is None,
    decreases s.len() + 1 - from,
{
    if from < s.len() {
        lemma_bfind_none(s, sep, from + 1);
    }
}

/// The pieces of `s` from `from` on, split at `sep`.
pub open spec fn spec_bsplit_from(s: Seq<u8>, sep: u8, from: int) -> Seq<Seq<u8>>
    decreases s.len() + 1 - from,
{
    if from < 0 || from > s.len() {
        Seq::empty()
    } else {
        match spec_bfind(s, sep, from) {
            Option::None => seq![s.subrange(from, s.len() as int)],
            Option::Some(i) => if from <= i < s.len() {
                seq![s.subrange(from, i)] + spec_bsplit_from(s, sep, i + 1)
            } else {
                // `spec_bfind` never answers outside this range; the guard
                // only makes the recursion visibly bounded.
                Seq::empty()
            },
        }
    }
}

/// Split a byte buffer at a separator byte.
#[verifier::loop_isolation(false)]
pub fn bsplit(s: &[u8], sep: u8) -> (r: Vec<Vec<u8>>)
    ensures
        r.deep_view() == spec_bsplit_from(s@, sep, 0),
{
    let n = s.len();
    let mut out: Vec<Vec<u8>> = Vec::new();
    let mut seg_start: usize = 0;
    let mut i: usize = 0;
    while i < n
        invariant
            n == s@.len(),
            0 <= seg_start <= i <= n,
            forall|j: int| seg_start <= j < i ==> s@[j] != sep,
            spec_bsplit_from(s@, sep, 0) == out.deep_view() + spec_bsplit_from(
                s@,
                sep,
                seg_start as int,
            ),
        decreases n - i,
    {
        if s[i] == sep {
            proof {
                lemma_bfind_exact(s@, sep, seg_start as int, i as int);
            }
            let seg = crate::strutil::bytes_range(s, seg_start, i);
            let ghost prev = out.deep_view();
            out.push(seg);
            assert(out@.len() == prev.len() + 1);
            assert(out.deep_view()[prev.len() as int] == s@.subrange(seg_start as int, i as int));
            assert(forall|k: int| 0 <= k < prev.len() ==> #[trigger] out.deep_view()[k] == prev[k]);
            assert(out.deep_view() =~= prev + seq![s@.subrange(seg_start as int, i as int)]);
            seg_start = i + 1;
            proof {
                assert(spec_bsplit_from(s@, sep, 0) =~= out.deep_view() + spec_bsplit_from(
                    s@,
                    sep,
                    seg_start as int,
                ));
            }
        }
        i = i + 1;
    }
    proof {
        lemma_bfind_none(s@, sep, seg_start as int);
    }
    let last = crate::strutil::bytes_range(s, seg_start, n);
    let ghost prev = out.deep_view();
    out.push(last);
    assert(out@.len() == prev.len() + 1);
    assert(out.deep_view()[prev.len() as int] == s@.subrange(seg_start as int, n as int));
    assert(forall|k: int| 0 <= k < prev.len() ==> #[trigger] out.deep_view()[k] == prev[k]);
    assert(out.deep_view() =~= prev + seq![s@.subrange(seg_start as int, n as int)]);
    assert(out.deep_view() =~= spec_bsplit_from(s@, sep, 0));
    out
}

// ---------------------------------------------------------------------------
// Query strings
// ---------------------------------------------------------------------------
/// What one `key=value` piece contributes: pieces without `=` are skipped;
/// key and value are decoded separately.
pub open spec fn spec_parse_pair(p: Seq<u8>) -> Option<(Seq<u8>, Seq<u8>)> {
    match spec_bfind(p, 61, 0) {
        Option::None => None,
        Option::Some(i) => Some(
            (spec_pct_decode(p.subrange(0, i)), spec_pct_decode(p.subrange(i + 1, p.len() as int))),
        ),
    }
}

/// The decoded pairs of the pieces, in order.
pub open spec fn spec_pairs_of(pieces: Seq<Seq<u8>>) -> Seq<(Seq<u8>, Seq<u8>)>
    decreases pieces.len(),
{
    if pieces.len() == 0 {
        Seq::empty()
    } else {
        spec_pairs_of(pieces.drop_last()) + (match spec_parse_pair(pieces.last()) {
            Option::Some(p) => seq![p],
            Option::None => Seq::empty(),
        })
    }
}

/// The decoded pairs of a whole query string.
pub open spec fn spec_parse_query(q: Seq<u8>) -> Seq<(Seq<u8>, Seq<u8>)> {
    spec_pairs_of(spec_bsplit_from(q, 38, 0))
}

/// The same pairs as character strings, the way the request object serves
/// them.
pub open spec fn query_pairs_chars(q: Seq<u8>) -> Seq<(Seq<char>, Seq<char>)> {
    Seq::new(
        spec_parse_query(q).len(),
        |i: int|
            (
                chars_of_bytes(spec_parse_query(q)[i].0),
                chars_of_bytes(spec_parse_query(q)[i].1),
            ),
    )
}

proof fn lemma_pairs_take_step(pieces: Seq<Seq<u8>>, k: int)
    requires
        0 <= k < pieces.len(),
    ensures
        spec_pairs_of(pieces.subrange(0, k + 1)) == spec_pairs_of(pieces.subrange(0, k)) + (
        match spec_parse_pair(pieces[k]) {
            Option::Some(p) => seq![p],
            Option::None => Seq::<(Seq<u8>, Seq<u8>)>::empty(),
        }),
{
    let p1 = pieces.subrange(0, k + 1);
    assert(p1.drop_last() =~= pieces.subrange(0, k));
    assert(p1.last() == pieces[k]);
}

/// Parse a query string (or an url-encoded form body) into decoded pairs.
#[verifier::loop_isolation(false)]
pub fn parse_query_params(q: &[u8]) -> (r: Vec<(String, String)>)
    ensures
        r.deep_view() == query_pairs_chars(q@),
{
    let pieces = bsplit(q, 38);
    let ghost pv = pieces.deep_view();
    let ghost pairs = spec_parse_query(q@);
    let mut out: Vec<(String, String)> = Vec::new();
    let mut i: usize = 0;
    while i < pieces.len()
        invariant
            pv == pieces.deep_view(),
            pieces@.len() == pv.len(),
            pairs == spec_parse_query(q@),
            pairs == spec_pairs_of(pv),
            0 <= i <= pv.len(),
            out.deep_view().len() == spec_pairs_of(pv.subrange(0, i as int)).len(),
            forall|k: int|
                0 <= k < out.deep_view().len() ==> #[trigger] out.deep_view()[k] == (
                    chars_of_bytes(spec_pairs_of(pv.subrange(0, i as int))[k].0),
                    chars_of_bytes(spec_pairs_of(pv.subrange(0, i as int))[k].1),
                ),
        decreases pieces.len() - i,
    {
        assert(pv[i as int] == pieces@[i as int]@);
        let piece: &Vec<u8> = &pieces[i];
        let mut eq_needle: Vec<u8> = Vec::new();
        eq_needle.push(61);
        assert(eq_needle@ =~= seq![61u8]);
        let eq_pos = crate::strutil::bytes_find(piece.as_slice(), eq_needle.as_slice(), 0);
        proof {
            lemma_pairs_take_step(pv, i as int);
        }
        match eq_pos {
            Some(e) => {
                proof {
                    lemma_bfind_vs_find_pub(piece@, 61, 0);
                    lemma_bfind_in_range(piece@, 61, 0);
                }
                assert(e < piece@.len());
                let plen = piece.len();
                assert(e < plen);
                let key_bytes = pct_decode(
                    crate::strutil::bytes_range(piece.as_slice(), 0, e).as_slice(),
                );
                let val_bytes = pct_decode(
                    crate::strutil::bytes_range(piece.as_slice(), e + 1, plen).as_slice(),
                );
                let key = bytes_to_string_lossy(key_bytes.as_slice());
                let value = bytes_to_string_lossy(val_bytes.as_slice());
                let ghost prev = out.deep_view();
                out.push((key, value));
                assert(out@.len() == prev.len() + 1);
                assert(forall|k: int|
                    0 <= k < prev.len() ==> #[trigger] out.deep_view()[k] == prev[k]);
                assert(spec_parse_pair(pv[i as int]) matches Some(dp) && out.deep_view()[
                    prev.len() as int] == (chars_of_bytes(dp.0), chars_of_bytes(dp.1)));
            },
            None => {
                proof {
                    lemma_bfind_vs_find_pub(piece@, 61, 0);
                }
                assert(spec_parse_pair(pv[i as int]) is None);
            },
        }
        i = i + 1;
    }
    proof {
        assert(pv.subrange(0, pv.len() as int) =~= pv);
        assert(out.deep_view() =~= query_pairs_chars(q@));
    }
    out
}

/// Finding a single byte agrees between the two search functions.
pub proof fn lemma_bfind_vs_find_pub(s: Seq<u8>, sep: u8, from: int)
    requires
        0 <= from,
    ensures
        crate::strutil::spec_find(s, seq![sep], from) == spec_bfind(s, sep, from),
    decreases s.len() + 1 - from,
{
    if from < s.len() {
        assert(s.subrange(from, from + 1) =~= seq![s[from]]);
        if s[from] == sep {
            assert(crate::strutil::is_match_at(s, seq![sep], from));
        } else {
            assert(!crate::strutil::is_match_at(s, seq![sep], from)) by {
                if crate::strutil::is_match_at(s, seq![sep], from) {
                    assert(s.subrange(from, from + 1)[0] == sep);
                }
            }
            lemma_bfind_vs_find_pub(s, sep, from + 1);
        }
    }
}

// ---------------------------------------------------------------------------
// Association maps with last-wins lookup
// ---------------------------------------------------------------------------
/// Last-wins lookup in an association list.
pub open spec fn spec_assoc_get(m: Seq<(Seq<char>, Seq<char>)>, k: Seq<char>) -> Option<Seq<char>>
    decreases m.len(),
{
    if m.len() == 0 {
        None
    } else if m.last().0 == k {
        Some(m.last().1)
    } else {
        spec_assoc_get(m.drop_last(), k)
    }
}

/// Look a key up, the last pair with that key winning.
#[verifier::loop_isolation(false)]
pub fn assoc_get(m: &Vec<(String, String)>, k: &str) -> (r: Option<String>)
    ensures
        match spec_assoc_get(m.deep_view(), k@) {
            Option::Some(v) => r matches Some(s) && s@ == v,
            Option::None => r is None,
        },
{
    let ghost mv = m.deep_view();
    let mut i: usize = m.len();
    assert(mv.subrange(0, mv.len() as int) =~= mv);
    while i > 0
        invariant
            mv == m.deep_view(),
            m@.len() == mv.len(),
            0 <= i <= mv.len(),
            spec_assoc_get(mv, k@) == spec_assoc_get(mv.subrange(0, i as int), k@),
        decreases i,
    {
        i = i - 1;
        assert(mv[i as int] == (m@[i as int].0@, m@[i as int].1@));
        let ghost cur = mv.subrange(0, i + 1);
        assert(cur.last() == mv[i as int]);
        assert(cur.drop_last() =~= mv.subrange(0, i as int));
        if crate::strutil::str_eq(m[i].0.as_str(), k) {
            let v = m[i].1.clone();
            assert(spec_assoc_get(mv, k@) == Some(mv[i as int].1));
            return Some(v);
        }
    }
    assert(mv.subrange(0, 0) =~= Seq::<(Seq<char>, Seq<char>)>::empty());
    None
}

} // verus!
