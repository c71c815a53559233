//! The writer side of the route registry: five per-method pattern tables,
//! duplicate detection, and snapshot production.

use crate::methods::Methods;
use crate::pattern::{
    same_shape, segs_of_raws, shapes_equal, spec_pattern_valid, spec_split_from, RoutePattern,
    SegView, Segment,
};
use vstd::prelude::*;

verus! {

/// Errors a registration can raise.
#[derive(Clone, Copy, PartialEq, Eq, Structural, Debug)]
pub enum RouterError {
    /// The pattern does not follow the `/a/b/:p` grammar.
    InvalidPattern,
    /// A pattern of the same shape is already registered for this method.
    DuplicateRoute,
    /// The retired registration surface was called; only the
    /// callback-handle surface registers routes.
    LegacyRoute,
}

/// One registered route: a parsed pattern and the callback handle it fires.
/// The callback handle is an opaque identifier chosen by the embedder.
pub struct RouteEntry {
    pub pattern: RoutePattern,
    pub callback: u64,
}

/// The mathematical value of a route entry.
pub struct EntryView {
    pub raw: Seq<char>,
    pub segs: Seq<SegView>,
    pub callback: u64,
}

impl DeepView for RouteEntry {
    type V = EntryView;

    open spec fn deep_view(&self) -> EntryView {
        EntryView {
            raw: self.pattern.raw@,
            segs: self.pattern.segs.deep_view(),
            callback: self.callback,
        }
    }
}

impl EntryView {
    pub open spec fn wf(&self) -> bool {
        &&& spec_pattern_valid(self.raw)
        &&& self.segs == segs_of_raws(spec_split_from(self.raw, 1))
    }
}

impl Clone for RouteEntry {
    fn clone(&self) -> (r: Self)
        ensures
            r.deep_view() == self.deep_view(),
    {
        let r = RouteEntry {
            pattern: RoutePattern {
                raw: self.pattern.raw.clone(),
                segs: clone_segments(&self.pattern.segs),
            },
            callback: self.callback,
        };
        assert(r.deep_view().segs =~= self.deep_view().segs);
        r
    }
}

#[verifier::loop_isolation(false)]
fn clone_segments(segs: &Vec<Segment>) -> (r: Vec<Segment>)
    ensures
        r.deep_view() == segs.deep_view(),
{
    let mut out: Vec<Segment> = Vec::new();
    let mut i: usize = 0;
    while i < segs.len()
        invariant
            0 <= i <= segs@.len(),
            out.deep_view() =~= segs.deep_view().subrange(0, i as int),
        decreases segs.len() - i,
    {
        let c = match &segs[i] {
            Segment::Lit(s) => Segment::Lit(s.clone()),
            Segment::Param(s) => Segment::Param(s.clone()),
        };
        assert(c.deep_view() == segs@[i as int].deep_view());
        let ghost prev = out.deep_view();
        out.push(c);
        assert(out@.len() == prev.len() + 1);
        assert(out.deep_view()[i as int] == segs.deep_view()[i as int]);
        assert(forall|k: int| 0 <= k < i ==> out.deep_view()[k] == prev[k]);
        assert(out.deep_view() =~= segs.deep_view().subrange(0, i + 1));
        i = i + 1;
    }
    assert(out.deep_view() =~= segs.deep_view());
    out
}

/// Copy a route list; the snapshot publication works on such copies.
#[verifier::loop_isolation(false)]
pub fn clone_routes(rs: &Vec<RouteEntry>) -> (r: Vec<RouteEntry>)
    ensures
        r.deep_view() == rs.deep_view(),
{
    let mut out: Vec<RouteEntry> = Vec::new();
    let mut i: usize = 0;
    while i < rs.len()
        invariant
            0 <= i <= rs@.len(),
            out.deep_view() =~= rs.deep_view().subrange(0, i as int),
        decreases rs.len() - i,
    {
        let c = rs[i].clone();
        assert(c.deep_view() == rs@[i as int].deep_view());
        let ghost prev = out.deep_view();
        out.push(c);
        assert(out@.len() == prev.len() + 1);
        assert(out.deep_view()[i as int] == rs.deep_view()[i as int]);
        assert(forall|k: int| 0 <= k < i ==> out.deep_view()[k] == prev[k]);
        assert(out.deep_view() =~= rs.deep_view().subrange(0, i + 1));
        i = i + 1;
    }
    assert(out.deep_view() =~= rs.deep_view());
    out
}

/// Whether some entry of `rs` already has the shape of `segs`.
pub open spec fn has_shape_conflict(rs: Seq<EntryView>, segs: Seq<SegView>) -> bool {
    exists|i: int| 0 <= i < rs.len() && same_shape(#[trigger] rs[i].segs, segs)
}

/// A route list is well formed when each entry is, and no two entries share
/// a shape: this is what keeps the best match unique.
pub open spec fn routes_wf(rs: Seq<EntryView>) -> bool {
    &&& forall|i: int| 0 <= i < rs.len() ==> (#[trigger] rs[i]).wf()
    &&& forall|i: int, j: int|
        0 <= i < j < rs.len() ==> !same_shape(#[trigger] rs[i].segs, #[trigger] rs[j].segs)
}

/// The five writer tables, one per HTTP method.
pub struct RouteTable {
    pub get: Vec<RouteEntry>,
    pub post: Vec<RouteEntry>,
    pub put: Vec<RouteEntry>,
    pub patch: Vec<RouteEntry>,
    pub delete: Vec<RouteEntry>,
}

impl RouteTable {
    pub open spec fn routes(&self, m: Methods) -> Seq<EntryView> {
        match m {
            Methods::GET => self.get.deep_view(),
            Methods::POST => self.post.deep_view(),
            Methods::PUT => self.put.deep_view(),
            Methods::PATCH => self.patch.deep_view(),
            Methods::DELETE => self.delete.deep_view(),
        }
    }

    pub open spec fn wf(&self) -> bool {
        forall|m: Methods| routes_wf(#[trigger] self.routes(m))
    }

    pub fn new() -> (r: RouteTable)
        ensures
            r.wf(),
            forall|m: Methods| #[trigger] r.routes(m).len() == 0,
    {
        let r = RouteTable {
            get: Vec::new(),
            post: Vec::new(),
            put: Vec::new(),
            patch: Vec::new(),
            delete: Vec::new(),
        };
        assert(forall|m: Methods| #[trigger] r.routes(m).len() == 0);
        r
    }

    /// Register a pattern for a method. Fails with `InvalidPattern` exactly
    /// on grammar violations and with `DuplicateRoute` exactly when a
    /// same-shaped pattern is already present for this method.
    pub fn insert(&mut self, route: &str, method: Methods, function: u64) -> (r: Result<
        (),
        RouterError,
    >)
        requires
            old(self).wf(),
        ensures
            final(self).wf(),
            r matches Err(e) ==> *final(self) == *old(self) && ((e == RouterError::InvalidPattern
                && !spec_pattern_valid(route@)) || (e == RouterError::DuplicateRoute
                && spec_pattern_valid(route@) && has_shape_conflict(
                old(self).routes(method),
                segs_of_raws(spec_split_from(route@, 1)),
            ))),
            r is Ok ==> spec_pattern_valid(route@) && !has_shape_conflict(
                old(self).routes(method),
                segs_of_raws(spec_split_from(route@, 1)),
            ) && final(self).routes(method) == old(self).routes(method).push(
                EntryView {
                    raw: route@,
                    segs: segs_of_raws(spec_split_from(route@, 1)),
                    callback: function,
                },
            ) && forall|m2: Methods| m2 != method ==> #[trigger] final(self).routes(m2) == old(
                self,
            ).routes(m2),
    {
        let parsed = match RoutePattern::parse(route) {
            Some(p) => p,
            None => {
                return Err(RouterError::InvalidPattern);
            },
        };
        let entry = RouteEntry { pattern: parsed, callback: function };
        assert(routes_wf(self.routes(method)));
        let r = match method {
            Methods::GET => insert_entry(&mut self.get, entry),
            Methods::POST => insert_entry(&mut self.post, entry),
            Methods::PUT => insert_entry(&mut self.put, entry),
            Methods::PATCH => insert_entry(&mut self.patch, entry),
            Methods::DELETE => insert_entry(&mut self.delete, entry),
        };
        proof {
            assert forall|m2: Methods| routes_wf(#[trigger] self.routes(m2)) by {
                if m2 != method {
                    assert(self.routes(m2) == old(self).routes(m2));
                }
            }
        }
        r
    }

    /// Drop every registered route.
    pub fn cleanup(&mut self)
        ensures
            final(self).wf(),
            forall|m: Methods| #[trigger] final(self).routes(m).len() == 0,
    {
        self.get = Vec::new();
        self.post = Vec::new();
        self.put = Vec::new();
        self.patch = Vec::new();
        self.delete = Vec::new();
        assert(forall|m: Methods| #[trigger] self.routes(m).len() == 0);
    }
}

#[verifier::loop_isolation(false)]
fn insert_entry(rs: &mut Vec<RouteEntry>, entry: RouteEntry) -> (r: Result<(), RouterError>)
    requires
        routes_wf(old(rs).deep_view()),
        entry.deep_view().wf(),
    ensures
        routes_wf(final(rs).deep_view()),
        r matches Err(e) ==> *final(rs) == *old(rs) && e == RouterError::DuplicateRoute
            && has_shape_conflict(old(rs).deep_view(), entry.deep_view().segs),
        r is Ok ==> !has_shape_conflict(old(rs).deep_view(), entry.deep_view().segs)
            && final(rs).deep_view() == old(rs).deep_view().push(entry.deep_view()),
{
    let ghost rv = rs.deep_view();
    let ghost esegs = entry.deep_view().segs;
    let mut i: usize = 0;
    while i < rs.len()
        invariant
            rv == rs.deep_view(),
            esegs == entry.deep_view().segs,
            0 <= i <= rv.len(),
            rs@.len() == rv.len(),
            forall|j: int| 0 <= j < i ==> !same_shape(#[trigger] rv[j].segs, esegs),
        decreases rs.len() - i,
    {
        assert(rs.deep_view()[i as int] == rs@[i as int].deep_view());
        if shapes_equal(&rs[i].pattern.segs, &entry.pattern.segs) {
            assert(same_shape(rv[i as int].segs, esegs));
            return Err(RouterError::DuplicateRoute);
        }
        i = i + 1;
    }
    let ghost prev = rs.deep_view();
    rs.push(entry);
    assert(rs@.len() == prev.len() + 1);
    assert(rs.deep_view() =~= prev.push(entry.deep_view()));
    assert(routes_wf(rs.deep_view())) by {
        assert(forall|j: int|
            0 <= j < prev.len() ==> #[trigger] rs.deep_view()[j] == prev[j]);
        assert(rs.deep_view()[prev.len() as int] == entry.deep_view());
        assert(forall|j: int|
            0 <= j < prev.len() ==> !same_shape(
                #[trigger] prev[j].segs,
                entry.deep_view().segs,
            ));
    }
    Ok(())
}

} // verus!
