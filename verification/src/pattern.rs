//! Route patterns: the `/a/b/:p/c` grammar, path splitting, matching with
//! parameter capture, and the priority order between patterns (static
//! segments outrank parameter segments).

use vstd::prelude::*;

verus! {

// ---------------------------------------------------------------------------
// Splitting a string on '/'
// ---------------------------------------------------------------------------
/// First position of `c` in `s` at or after `from`.
pub open spec fn spec_cfind(s: Seq<char>, c: char, from: int) -> Option<int>
    decreases s.len() + 1 - from,
{
    if from >= s.len() || from < 0 {
        None
    } else if s[from] == c {
        Some(from)
    } else {
        spec_cfind(s, c, from + 1)
    }
}

pub proof fn lemma_cfind_exact(s: Seq<char>, c: char, from: int, i: int)
    requires
        0 <= from <= i < s.len(),
        s[i] == c,
        forall|j: int| from <= j < i ==> s[j] != c,
    ensures
        spec_cfind(s, c, from) == Some(i),
    decreases i - from,
{
    if from < i {
        lemma_cfind_exact(s, c, from + 1, i);
    }
}

pub proof fn lemma_cfind_none(s: Seq<char>, c: char, from: int)
    requires
        0 <= from,
        forall|j: int| from <= j < s.len() ==> s[j] != c,
    ensures
        spec_cfind(s, c, from) is None,
    decreases s.len() + 1 - from,
{
    if from < s.len() {
        lemma_cfind_none(s, c, from + 1);
    }
}

/// The segments of `s` from position `from` on, split at `/`.
pub open spec fn spec_split_from(s: Seq<char>, from: int) -> Seq<Seq<char>>
    decreases s.len() + 1 - from,
{
    if from < 0 || from > s.len() {
        Seq::empty()
    } else {
        match spec_cfind(s, '/', from) {
            Option::None => seq![s.subrange(from, s.len() as int)],
            Option::Some(i) => if from <= i < s.len() {
                seq![s.subrange(from, i)] + spec_split_from(s, i + 1)
            } else {
                // `spec_cfind` never answers outside this range; the guard
                // only makes the recursion visibly bounded.
                Seq::empty()
            },
        }
    }
}

/// Split the characters of `s` from position `from` on at `/`.
#[verifier::loop_isolation(false)]
pub fn split_slash(s: &str, from: usize) -> (r: Vec<String>)
    requires
        from <= s@.len(),
    ensures
        r.deep_view() == spec_split_from(s@, from as int),
{
    let n = s.unicode_len();
    let mut out: Vec<String> = Vec::new();
    let mut seg_start: usize = from;
    let mut i: usize = from;
    while i < n
        invariant
            n == s@.len(),
            from <= seg_start <= i <= n,
            forall|j: int| seg_start <= j < i ==> s@[j] != '/',
            spec_split_from(s@, from as int) == out.deep_view() + spec_split_from(
                s@,
                seg_start as int,
            ),
        decreases n - i,
    {
        if s.get_char(i) == '/' {
            proof {
                lemma_cfind_exact(s@, '/', seg_start as int, i as int);
            }
            let seg = String::from_str(s.substring_char(seg_start, i));
            out.push(seg);
            assert(out.deep_view() =~= out.deep_view().subrange(0, out.deep_view().len() - 1)
                + seq![s@.subrange(seg_start as int, i as int)]);
            seg_start = i + 1;
            proof {
                assert(spec_split_from(s@, from as int) =~= out.deep_view() + spec_split_from(
                    s@,
                    seg_start as int,
                ));
            }
        }
        i = i + 1;
    }
    proof {
        lemma_cfind_none(s@, '/', seg_start as int);
    }
    let last = String::from_str(s.substring_char(seg_start, n));
    out.push(last);
    proof {
        assert(out.deep_view() =~= spec_split_from(s@, from as int));
    }
    out
}

// ---------------------------------------------------------------------------
// Segments and patterns
// ---------------------------------------------------------------------------
/// One segment of a route pattern: a literal, or a named `:param` capture.
pub enum Segment {
    Lit(String),
    Param(String),
}

/// The mathematical value of a segment.
pub enum SegView {
    Lit(Seq<char>),
    Param(Seq<char>),
}

impl View for Segment {
    type V = SegView;

    open spec fn view(&self) -> SegView {
        match self {
            Segment::Lit(s) => SegView::Lit(s@),
            Segment::Param(s) => SegView::Param(s@),
        }
    }
}

impl DeepView for Segment {
    type V = SegView;

    open spec fn deep_view(&self) -> SegView {
        self.view()
    }
}

/// The segment a raw pattern piece denotes: `:name` is a capture, the rest
/// are literals.
pub open spec fn seg_of_raw(raw: Seq<char>) -> SegView {
    if raw.len() > 0 && raw[0] == ':' {
        SegView::Param(raw.subrange(1, raw.len() as int))
    } else {
        SegView::Lit(raw)
    }
}

pub open spec fn segs_of_raws(raws: Seq<Seq<char>>) -> Seq<SegView> {
    Seq::new(raws.len(), |i: int| seg_of_raw(raws[i]))
}

/// The capture name of a segment, empty for literals.
pub open spec fn seg_param_name(g: SegView) -> Seq<char> {
    match g {
        SegView::Lit(_) => Seq::empty(),
        SegView::Param(n) => n,
    }
}

/// A valid pattern starts with `/`, every capture has a non-empty name, and
/// no two captures share a name.
pub open spec fn spec_pattern_valid(raw: Seq<char>) -> bool {
    let segs = segs_of_raws(spec_split_from(raw, 1));
    &&& raw.len() > 0
    &&& raw[0] == '/'
    &&& forall|i: int|
        0 <= i < segs.len() ==> (#[trigger] segs[i] matches SegView::Param(n) ==> n.len() > 0)
    &&& forall|i: int, j: int|
        0 <= i < j < segs.len() && #[trigger] segs[i] is Param && #[trigger] segs[j] is Param
            ==> seg_param_name(segs[i]) != seg_param_name(segs[j])
}

/// A parsed route pattern, kept with its raw text.
pub struct RoutePattern {
    pub raw: String,
    pub segs: Vec<Segment>,
}

impl RoutePattern {
    /// The pattern's well-formedness ties the parsed segments to the raw text.
    pub open spec fn wf(&self) -> bool {
        &&& spec_pattern_valid(self.raw@)
        &&& self.segs.deep_view() == segs_of_raws(spec_split_from(self.raw@, 1))
    }

    /// Parse and validate a raw pattern. Returns `None` exactly on invalid
    /// patterns.
    #[verifier::loop_isolation(false)]
    pub fn parse(raw: &str) -> (r: Option<RoutePattern>)
        ensures
            r matches Some(p) ==> p.wf() && p.raw@ == raw@ && spec_pattern_valid(raw@),
            r is None ==> !spec_pattern_valid(raw@),
    {
        let n = raw.unicode_len();
        if n == 0 || raw.get_char(0) != '/' {
            return None;
        }
        let pieces = split_slash(raw, 1);
        let ghost model = segs_of_raws(spec_split_from(raw@, 1));
        let mut segs: Vec<Segment> = Vec::new();
        let mut i: usize = 0;
        while i < pieces.len()
            invariant
                model == segs_of_raws(spec_split_from(raw@, 1)),
                pieces.deep_view() == spec_split_from(raw@, 1),
                0 <= i <= pieces.len(),
                segs.deep_view() =~= model.subrange(0, i as int),
                forall|k: int|
                    0 <= k < i ==> (#[trigger] model[k] matches SegView::Param(nm) ==> nm.len()
                        > 0),
            decreases pieces.len() - i,
        {
            assert(pieces.deep_view()[i as int] == pieces[i as int]@);
            let piece: &String = &pieces[i];
            let plen = piece.as_str().unicode_len();
            if plen > 0 && piece.as_str().get_char(0) == ':' {
                assert(piece@ == pieces.deep_view()[i as int]);
                assert(model[i as int] == seg_of_raw(piece@));
                assert(piece@.len() == plen && piece@[0] == ':');
                if plen == 1 {
                    assert(model[i as int] matches SegView::Param(nm) && nm.len() == 0);
                    return None;
                }
                let name = String::from_str(piece.as_str().substring_char(1, plen));
                assert(name@ == piece@.subrange(1, plen as int));
                assert(model[i as int] == SegView::Param(name@));
                let ghost prev = segs.deep_view();
                segs.push(Segment::Param(name));
                assert(segs@.len() == prev.len() + 1);
                assert(segs.deep_view()[i as int] == model[i as int]);
                assert(forall|k: int| 0 <= k < i ==> segs.deep_view()[k] == prev[k]);
                assert(segs.deep_view() =~= model.subrange(0, i + 1));
            } else {
                assert(piece@ == pieces.deep_view()[i as int]);
                assert(model[i as int] == seg_of_raw(piece@));
                assert(model[i as int] == SegView::Lit(piece@));
                let lit = String::from_str(piece.as_str());
                let ghost prev = segs.deep_view();
                segs.push(Segment::Lit(lit));
                assert(segs@.len() == prev.len() + 1);
                assert(segs.deep_view()[i as int] == model[i as int]);
                assert(forall|k: int| 0 <= k < i ==> segs.deep_view()[k] == prev[k]);
                assert(segs.deep_view() =~= model.subrange(0, i + 1));
            }
            i = i + 1;
        }
        assert(segs.deep_view() =~= model);
        // check that capture names are pairwise distinct
        let mut a: usize = 0;
        while a < segs.len()
            invariant
                model == segs_of_raws(spec_split_from(raw@, 1)),
                segs.deep_view() =~= model,
                0 <= a <= segs.len(),
                forall|i2: int, j2: int|
                    0 <= i2 < j2 < segs.len() && i2 < a && #[trigger] model[i2] is Param
                        && #[trigger] model[j2] is Param ==> seg_param_name(model[i2])
                        != seg_param_name(model[j2]),
            decreases segs.len() - a,
        {
            if let Segment::Param(na) = &segs[a] {
                assert(model[a as int] matches SegView::Param(nm) && nm == na@);
                let mut b: usize = a + 1;
                while b < segs.len()
                    invariant
                        model == segs_of_raws(spec_split_from(raw@, 1)),
                        segs.deep_view() =~= model,
                        0 <= a < b <= segs.len(),
                        segs[a as int] is Param,
                        model[a as int] matches SegView::Param(nm) && nm == na@,
                        forall|j2: int|
                            a < j2 < b && #[trigger] model[j2] is Param ==> seg_param_name(
                                model[a as int],
                            ) != seg_param_name(model[j2]),
                    decreases segs.len() - b,
                {
                    if let Segment::Param(nb) = &segs[b] {
                        assert(model[b as int] matches SegView::Param(nm2) && nm2 == nb@);
                        if crate::strutil::str_eq(na.as_str(), nb.as_str()) {
                            assert(!spec_pattern_valid(raw@));
                            return None;
                        }
                    }
                    b = b + 1;
                }
            }
            a = a + 1;
        }
        let p = RoutePattern { raw: String::from_str(raw), segs };
        assert(p.wf());
        Some(p)
    }
}

// ---------------------------------------------------------------------------
// Matching a path against a pattern
// ---------------------------------------------------------------------------
/// The segments of a request path, or `None` when it does not start with `/`.
pub open spec fn spec_path_segs(path: Seq<char>) -> Option<Seq<Seq<char>>> {
    if path.len() > 0 && path[0] == '/' {
        Some(spec_split_from(path, 1))
    } else {
        None
    }
}

/// Split a request path; `None` when it does not start with `/`.
pub fn path_segments(path: &str) -> (r: Option<Vec<String>>)
    ensures
        r matches Some(v) ==> spec_path_segs(path@) == Some(v.deep_view()),
        r is None ==> spec_path_segs(path@) is None,
{
    let n = path.unicode_len();
    if n == 0 || path.get_char(0) != '/' {
        return None;
    }
    Some(split_slash(path, 1))
}

/// Whether one pattern segment accepts one path segment: a literal must be
/// equal, a capture accepts exactly one non-empty segment.
pub open spec fn seg_matches(g: SegView, s: Seq<char>) -> bool {
    match g {
        SegView::Lit(l) => l == s,
        SegView::Param(_) => s.len() > 0,
    }
}

/// Whether a whole pattern accepts a whole split path.
pub open spec fn segs_match(p: Seq<SegView>, segs: Seq<Seq<char>>) -> bool {
    &&& p.len() == segs.len()
    &&& forall|i: int| 0 <= i < p.len() ==> seg_matches(#[trigger] p[i], segs[i])
}

/// The parameters a matching pattern captures, in pattern order.
pub open spec fn spec_captures(p: Seq<SegView>, segs: Seq<Seq<char>>) -> Seq<
    (Seq<char>, Seq<char>),
>
    decreases p.len(),
{
    if p.len() == 0 {
        Seq::empty()
    } else {
        spec_captures(p.drop_last(), segs) + (match p.last() {
            SegView::Param(n) => {
                if p.len() - 1 < segs.len() {
                    seq![(n, segs[p.len() - 1])]
                } else {
                    Seq::empty()
                }
            },
            SegView::Lit(_) => Seq::empty(),
        })
    }
}

proof fn lemma_captures_take_step(p: Seq<SegView>, segs: Seq<Seq<char>>, k: int)
    requires
        0 <= k < p.len(),
    ensures
        spec_captures(p.subrange(0, k + 1), segs) == spec_captures(p.subrange(0, k), segs)
            + (match p[k] {
            SegView::Param(n) => {
                if k < segs.len() {
                    seq![(n, segs[k])]
                } else {
                    Seq::empty()
                }
            },
            SegView::Lit(_) => Seq::empty(),
        }),
{
    let pk1 = p.subrange(0, k + 1);
    assert(pk1.drop_last() =~= p.subrange(0, k));
    assert(pk1.last() == p[k]);
}

/// Match a pattern against split path segments, collecting captures.
#[verifier::loop_isolation(false)]
pub fn match_segments(pat: &Vec<Segment>, segs: &Vec<String>) -> (r: Option<
    Vec<(String, String)>,
>)
    ensures
        r matches Some(ps) ==> segs_match(pat.deep_view(), segs.deep_view())
            && ps.deep_view() == spec_captures(pat.deep_view(), segs.deep_view()),
        r is None ==> !segs_match(pat.deep_view(), segs.deep_view()),
{
    let ghost pv = pat.deep_view();
    let ghost sv = segs.deep_view();
    if pat.len() != segs.len() {
        return None;
    }
    let mut out: Vec<(String, String)> = Vec::new();
    let mut i: usize = 0;
    while i < pat.len()
        invariant
            pv == pat.deep_view(),
            sv == segs.deep_view(),
            pv.len() == sv.len(),
            pat.len() == pv.len(),
            segs.len() == sv.len(),
            0 <= i <= pv.len(),
            forall|j: int| 0 <= j < i ==> seg_matches(#[trigger] pv[j], sv[j]),
            out.deep_view() =~= spec_captures(pv.subrange(0, i as int), sv),
        decreases pat.len() - i,
    {
        assert(pv[i as int] == pat[i as int]@);
        assert(sv[i as int] == segs[i as int]@);
        match &pat[i] {
            Segment::Lit(l) => {
                if !crate::strutil::str_eq(l.as_str(), segs[i].as_str()) {
                    assert(!seg_matches(pv[i as int], sv[i as int]));
                    return None;
                }
                proof {
                    lemma_captures_take_step(pv, sv, i as int);
                }
            },
            Segment::Param(n) => {
                if segs[i].as_str().unicode_len() == 0 {
                    assert(!seg_matches(pv[i as int], sv[i as int]));
                    return None;
                }
                let name = n.clone();
                let value = segs[i].clone();
                out.push((name, value));
                proof {
                    lemma_captures_take_step(pv, sv, i as int);
                    assert(out.deep_view() =~= spec_captures(pv.subrange(0, i + 1), sv));
                }
            },
        }
        i = i + 1;
    }
    assert(pv.subrange(0, pv.len() as int) =~= pv);
    assert(segs_match(pv, sv));
    Some(out)
}

// ---------------------------------------------------------------------------
// Priority between patterns: static segments outrank captures
// ---------------------------------------------------------------------------
/// The kind of each segment: `true` for a capture, `false` for a literal.
pub open spec fn kindseq(p: Seq<SegView>) -> Seq<bool> {
    Seq::new(p.len(), |i: int| p[i] is Param)
}

/// First position at or after `from` where `a` and `b` disagree.
pub open spec fn first_diff(a: Seq<bool>, b: Seq<bool>, from: int) -> Option<int>
    decreases a.len() + 1 - from,
{
    if from < 0 || from >= a.len() || from >= b.len() {
        None
    } else if a[from] != b[from] {
        Some(from)
    } else {
        first_diff(a, b, from + 1)
    }
}

/// Lexicographic order on kind sequences, literal before capture: the more
/// static pattern is the smaller one.
pub open spec fn lex_lt(a: Seq<bool>, b: Seq<bool>) -> bool {
    match first_diff(a, b, 0) {
        Option::Some(i) => !a[i],
        Option::None => false,
    }
}

pub proof fn lemma_first_diff_props(a: Seq<bool>, b: Seq<bool>, from: int)
    requires
        0 <= from,
    ensures
        match first_diff(a, b, from) {
            Option::Some(i) => from <= i < a.len() && i < b.len() && a[i] != b[i] && forall|j: int|
                from <= j < i ==> a[j] == b[j],
            Option::None => forall|j: int|
                from <= j < a.len() && j < b.len() ==> a[j] == b[j],
        },
    decreases a.len() + 1 - from,
{
    if !(from >= a.len() || from >= b.len()) && a[from] == b[from] {
        lemma_first_diff_props(a, b, from + 1);
    }
}

pub proof fn lemma_first_diff_exact(a: Seq<bool>, b: Seq<bool>, from: int, i: int)
    requires
        0 <= from <= i < a.len(),
        i < b.len(),
        a[i] != b[i],
        forall|j: int| from <= j < i ==> a[j] == b[j],
    ensures
        first_diff(a, b, from) == Some(i),
    decreases i - from,
{
    if from < i {
        lemma_first_diff_exact(a, b, from + 1, i);
    }
}

pub proof fn lemma_first_diff_sym(a: Seq<bool>, b: Seq<bool>, from: int)
    requires
        0 <= from,
    ensures
        first_diff(a, b, from) == first_diff(b, a, from),
    decreases a.len() + 1 - from,
{
    if !(from >= a.len() || from >= b.len()) && a[from] == b[from] {
        lemma_first_diff_sym(a, b, from + 1);
    }
}

/// The order is strict: two kind sequences cannot each precede the other.
pub proof fn lemma_lex_asym(a: Seq<bool>, b: Seq<bool>)
    ensures
        !(lex_lt(a, b) && lex_lt(b, a)),
{
    lemma_first_diff_sym(a, b, 0);
    lemma_first_diff_props(a, b, 0);
}

/// The order is transitive over equal-length kind sequences.
pub proof fn lemma_lex_trans(a: Seq<bool>, b: Seq<bool>, c: Seq<bool>)
    requires
        a.len() == b.len(),
        b.len() == c.len(),
        lex_lt(a, b),
        lex_lt(b, c),
    ensures
        lex_lt(a, c),
{
    lemma_first_diff_props(a, b, 0);
    lemma_first_diff_props(b, c, 0);
    let i = first_diff(a, b, 0)->Some_0;
    let j = first_diff(b, c, 0)->Some_0;
    if i < j {
        assert(c[i] == b[i]);
        lemma_first_diff_exact(a, c, 0, i);
    } else if j < i {
        assert(a[j] == b[j]);
        lemma_first_diff_exact(a, c, 0, j);
    } else {
        assert(!a[i] && b[i] && !b[j]);
    }
}

/// Shape equality ignores capture names: literal segments must agree, any two
/// captures coincide. Two same-shaped patterns accept exactly the same paths,
/// so a second registration of such a pattern is a duplicate.
pub open spec fn shape_eq_seg(g1: SegView, g2: SegView) -> bool {
    match (g1, g2) {
        (SegView::Lit(l1), SegView::Lit(l2)) => l1 == l2,
        (SegView::Param(_), SegView::Param(_)) => true,
        _ => false,
    }
}

pub open spec fn same_shape(a: Seq<SegView>, b: Seq<SegView>) -> bool {
    &&& a.len() == b.len()
    &&& forall|i: int| 0 <= i < a.len() ==> shape_eq_seg(#[trigger] a[i], b[i])
}

/// Two patterns that match the same path and have equal kinds are
/// shape-equal: at literal positions both equal the path segment.
pub proof fn lemma_matchers_kinds_shape(a: Seq<SegView>, b: Seq<SegView>, s: Seq<Seq<char>>)
    requires
        segs_match(a, s),
        segs_match(b, s),
        !same_shape(a, b),
    ensures
        lex_lt(kindseq(a), kindseq(b)) || lex_lt(kindseq(b), kindseq(a)),
{
    let ka = kindseq(a);
    let kb = kindseq(b);
    assert(a.len() == b.len());
    if first_diff(ka, kb, 0) is None {
        lemma_first_diff_props(ka, kb, 0);
        assert forall|i: int| 0 <= i < a.len() implies shape_eq_seg(#[trigger] a[i], b[i]) by {
            assert(seg_matches(a[i], s[i]));
            assert(seg_matches(b[i], s[i]));
            assert(ka[i] == kb[i]);
        }
        assert(same_shape(a, b));
    } else {
        let i = first_diff(ka, kb, 0)->Some_0;
        lemma_first_diff_props(ka, kb, 0);
        lemma_first_diff_sym(ka, kb, 0);
        assert(lex_lt(ka, kb) || lex_lt(kb, ka));
    }
}

/// Decide the priority order between two parsed patterns.
#[verifier::loop_isolation(false)]
pub fn shape_lt(a: &Vec<Segment>, b: &Vec<Segment>) -> (r: bool)
    ensures
        r == lex_lt(kindseq(a.deep_view()), kindseq(b.deep_view())),
{
    let ghost ka = kindseq(a.deep_view());
    let ghost kb = kindseq(b.deep_view());
    let alen = a.len();
    let blen = b.len();
    let n = if alen < blen {
        alen
    } else {
        blen
    };
    let mut i: usize = 0;
    while i < n
        invariant
            ka == kindseq(a.deep_view()),
            kb == kindseq(b.deep_view()),
            alen == a@.len(),
            blen == b@.len(),
            n == if alen < blen {
                alen as int
            } else {
                blen as int
            },
            0 <= i <= n,
            forall|j: int| 0 <= j < i ==> ka[j] == kb[j],
        decreases n - i,
    {
        let pa = matches!(&a[i], Segment::Param(_));
        let pb = matches!(&b[i], Segment::Param(_));
        proof {
            assert(a.deep_view()[i as int] == a@[i as int].deep_view());
            assert(b.deep_view()[i as int] == b@[i as int].deep_view());
        }
        assert(pa == ka[i as int]);
        assert(pb == kb[i as int]);
        if pa != pb {
            proof {
                lemma_first_diff_exact(ka, kb, 0, i as int);
            }
            return !pa;
        }
        i = i + 1;
    }
    proof {
        lemma_first_diff_props(ka, kb, 0);
        if first_diff(ka, kb, 0) is Some {
            let d = first_diff(ka, kb, 0)->Some_0;
            assert(ka[d] == kb[d]);
        }
    }
    false
}

/// Decide shape equality between two parsed patterns.
#[verifier::loop_isolation(false)]
pub fn shapes_equal(a: &Vec<Segment>, b: &Vec<Segment>) -> (r: bool)
    ensures
        r == same_shape(a.deep_view(), b.deep_view()),
{
    if a.len() != b.len() {
        return false;
    }
    let mut i: usize = 0;
    while i < a.len()
        invariant
            a@.len() == b@.len(),
            0 <= i <= a@.len(),
            forall|j: int|
                0 <= j < i ==> shape_eq_seg(#[trigger] a.deep_view()[j], b.deep_view()[j]),
        decreases a.len() - i,
    {
        proof {
            assert(a.deep_view()[i as int] == a@[i as int].deep_view());
            assert(b.deep_view()[i as int] == b@[i as int].deep_view());
        }
        let ok = match (&a[i], &b[i]) {
            (Segment::Lit(l1), Segment::Lit(l2)) => crate::strutil::str_eq(
                l1.as_str(),
                l2.as_str(),
            ),
            (Segment::Param(_), Segment::Param(_)) => true,
            _ => false,
        };
        if !ok {
            assert(!shape_eq_seg(a.deep_view()[i as int], b.deep_view()[i as int]));
            return false;
        }
        i = i + 1;
    }
    true
}

} // verus!
