//! Small verified utilities on strings and byte buffers that the parsers
//! and the router are built from.

use vstd::prelude::*;
use vstd::utf8::{decode_utf8, valid_utf8};

verus! {

/// Relies on String::push: appends one character at the end.
#[verifier::external_body]
pub(crate) fn string_push(s: &mut String, c: char)
    ensures
        final(s)@ == old(s)@.push(c),
{
    s.push(c);
}

/// Character-wise string equality, phrased over the views.
#[verifier::loop_isolation(false)]
pub fn str_eq(a: &str, b: &str) -> (r: bool)
    ensures
        r == (a@ == b@),
{
    let alen = a.unicode_len();
    let blen = b.unicode_len();
    if alen != blen {
        assert(a@.len() != b@.len());
        return false;
    }
    let mut i: usize = 0;
    while i < alen
        invariant
            alen == a@.len(),
            alen == b@.len(),
            0 <= i <= alen,
            forall|j: int| 0 <= j < i ==> a@[j] == b@[j],
        decreases alen - i,
    {
        if a.get_char(i) != b.get_char(i) {
            assert(a@[i as int] != b@[i as int]);
            assert(a@ != b@);
            return false;
        }
        i = i + 1;
    }
    assert(a@ =~= b@);
    true
}

/// Whether `needle` occurs in `hay` starting at position `at`.
pub open spec fn is_match_at(hay: Seq<u8>, needle: Seq<u8>, at: int) -> bool {
    &&& 0 <= at
    &&& at + needle.len() <= hay.len()
    &&& hay.subrange(at, at + needle.len() as int) == needle
}

/// The first position at or after `from` where `needle` occurs in `hay`.
pub open spec fn spec_find(hay: Seq<u8>, needle: Seq<u8>, from: int) -> Option<int>
    decreases hay.len() + 1 - from,
{
    if from + needle.len() > hay.len() {
        None
    } else if is_match_at(hay, needle, from) {
        Some(from)
    } else {
        spec_find(hay, needle, from + 1)
    }
}

/// Find the first occurrence of `needle` in `hay` at or after `from`.
#[verifier::loop_isolation(false)]
pub fn bytes_find(hay: &[u8], needle: &[u8], from: usize) -> (r: Option<usize>)
    ensures
        r matches Some(i) ==> from <= i && spec_find(hay@, needle@, from as int) == Some(
            i as int,
        ),
        r is None ==> spec_find(hay@, needle@, from as int) is None,
{
    let hlen = hay.len();
    let nlen = needle.len();
    if nlen > hlen {
        return None;
    }
    let mut i: usize = from;
    while i <= hlen - nlen
        invariant
            hlen == hay@.len(),
            nlen == needle@.len(),
            nlen <= hlen,
            from <= i,
            spec_find(hay@, needle@, from as int) == spec_find(hay@, needle@, i as int),
        decreases hlen - i,
    {
        let mut k: usize = 0;
        let mut matched: bool = true;
        while k < nlen
            invariant
                hlen == hay@.len(),
                nlen == needle@.len(),
                i + nlen <= hlen,
                0 <= k <= nlen,
                matched == (forall|j: int| 0 <= j < k ==> hay@[i + j] == needle@[j]),
            decreases nlen - k,
        {
            if hay[i + k] != needle[k] {
                matched = false;
                assert(hay@[i + k as int] != needle@[k as int]);
                k = nlen;
            } else {
                k = k + 1;
            }
        }
        if matched {
            assert(hay@.subrange(i as int, i + nlen as int) =~= needle@);
            assert(is_match_at(hay@, needle@, i as int));
            assert(spec_find(hay@, needle@, i as int) == Some(i as int));
            return Some(i);
        }
        assert(!is_match_at(hay@, needle@, i as int)) by {
            if is_match_at(hay@, needle@, i as int) {
                let j = choose|j: int| 0 <= j < nlen && hay@[i + j] != needle@[j];
                assert(hay@.subrange(i as int, i + nlen as int)[j] == hay@[i + j]);
            }
        }
        assert(spec_find(hay@, needle@, i as int) == spec_find(hay@, needle@, i + 1));
        i = i + 1;
    }
    assert(spec_find(hay@, needle@, i as int) is None);
    None
}

/// Where `spec_find` answers, there is a match.
pub proof fn lemma_find_props(hay: Seq<u8>, needle: Seq<u8>, from: int)
    requires
        0 <= from,
    ensures
        spec_find(hay, needle, from) matches Some(i) ==> from <= i && is_match_at(
            hay,
            needle,
            i,
        ),
    decreases hay.len() + 1 - from,
{
    if from + needle.len() <= hay.len() && !is_match_at(hay, needle, from) {
        lemma_find_props(hay, needle, from + 1);
    }
}

/// Whether `b` starts with `prefix`.
pub open spec fn spec_starts_with(b: Seq<u8>, prefix: Seq<u8>) -> bool {
    is_match_at(b, prefix, 0)
}

#[verifier::loop_isolation(false)]
pub fn bytes_starts_with(b: &[u8], prefix: &[u8]) -> (r: bool)
    ensures
        r == spec_starts_with(b@, prefix@),
{
    let plen = prefix.len();
    if plen > b.len() {
        return false;
    }
    let mut k: usize = 0;
    while k < plen
        invariant
            plen == prefix@.len(),
            plen <= b@.len(),
            0 <= k <= plen,
            forall|j: int| 0 <= j < k ==> b@[j] == prefix@[j],
        decreases plen - k,
    {
        if b[k] != prefix[k] {
            assert(b@[k as int] != prefix@[k as int]);
            assert(!spec_starts_with(b@, prefix@)) by {
                if spec_starts_with(b@, prefix@) {
                    assert(b@.subrange(0, plen as int)[k as int] == b@[k as int]);
                }
            }
            return false;
        }
        k = k + 1;
    }
    assert(b@.subrange(0, plen as int) =~= prefix@);
    true
}

/// Copy a byte range out of a slice.
#[verifier::loop_isolation(false)]
pub fn bytes_range(b: &[u8], from: usize, to: usize) -> (r: Vec<u8>)
    requires
        from <= to <= b@.len(),
    ensures
        r@ == b@.subrange(from as int, to as int),
{
    let mut out: Vec<u8> = Vec::new();
    let mut i: usize = from;
    while i < to
        invariant
            from <= i <= to <= b@.len(),
            out@ =~= b@.subrange(from as int, i as int),
        decreases to - i,
    {
        out.push(b[i]);
        assert(out@ =~= b@.subrange(from as int, i + 1));
        i = i + 1;
    }
    out
}


/// What `String::from_utf8_lossy` makes of an invalid buffer.
pub uninterp spec fn lossy_of(b: Seq<u8>) -> Seq<char>;

/// The characters a byte buffer is served as: exact UTF-8 decoding when the
/// buffer is valid, the replacement-character decoding otherwise.
pub open spec fn chars_of_bytes(b: Seq<u8>) -> Seq<char> {
    if valid_utf8(b) {
        decode_utf8(b)
    } else {
        lossy_of(b)
    }
}

/// Relies on String::from_utf8_lossy: exact UTF-8 decoding on valid input,
/// a deterministic replacement-character decoding otherwise.
#[verifier::external_body]
pub(crate) fn bytes_to_string_lossy(b: &[u8]) -> (r: String)
    ensures
        r@ == chars_of_bytes(b@),
        !valid_utf8(b@) ==> r@ == lossy_of(b@),
{
    String::from_utf8_lossy(b).into_owned()
}


/// Copy a list of string pairs.
#[verifier::loop_isolation(false)]
pub(crate) fn clone_pairs(ps: &Vec<(String, String)>) -> (r: Vec<(String, String)>)
    ensures
        r.deep_view() == ps.deep_view(),
{
    let mut out: Vec<(String, String)> = Vec::new();
    let mut i: usize = 0;
    while i < ps.len()
        invariant
            0 <= i <= ps@.len(),
            out.deep_view() =~= ps.deep_view().subrange(0, i as int),
        decreases ps.len() - i,
    {
        let name = ps[i].0.clone();
        let value = ps[i].1.clone();
        let ghost prev = out.deep_view();
        out.push((name, value));
        assert(out@.len() == prev.len() + 1);
        assert(out.deep_view()[i as int] == ps.deep_view()[i as int]);
        assert(out.deep_view() =~= ps.deep_view().subrange(0, i + 1));
        i = i + 1;
    }
    assert(out.deep_view() =~= ps.deep_view());
    out
}

} // verus!
