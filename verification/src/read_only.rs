//! The reader side of the registry: an immutable snapshot of the five route
//! tables, best-match lookup with parameter capture, and the per-method
//! bounded LRU match cache in front of it.

use crate::methods::Methods;
use crate::pattern::{
    kindseq, lemma_lex_asym, lemma_lex_trans, lemma_matchers_kinds_shape, lex_lt, path_segments,
    same_shape, segs_match, segs_of_raws, shape_lt, spec_captures, spec_path_segs,
    spec_pattern_valid, spec_split_from,
};
use crate::store::{clone_routes, routes_wf, EntryView, RouteEntry, RouteTable};
use vstd::prelude::*;

verus! {

/// A published snapshot of the five per-method route tables. A lookup reads
/// exactly one snapshot; publication replaces the snapshot as a whole, so a
/// torn mix of two snapshots cannot be observed.
pub struct ReadRoutes {
    pub get: Vec<RouteEntry>,
    pub post: Vec<RouteEntry>,
    pub put: Vec<RouteEntry>,
    pub patch: Vec<RouteEntry>,
    pub delete: Vec<RouteEntry>,
}

impl ReadRoutes {
    pub open spec fn routes(&self, m: Methods) -> Seq<EntryView> {
        match m {
            Methods::GET => self.get.deep_view(),
            Methods::POST => self.post.deep_view(),
            Methods::PUT => self.put.deep_view(),
            Methods::PATCH => self.patch.deep_view(),
            Methods::DELETE => self.delete.deep_view(),
        }
    }

    pub open spec fn wf(&self) -> bool {
        forall|m: Methods| routes_wf(#[trigger] self.routes(m))
    }

    /// An empty snapshot.
    pub fn new() -> (r: ReadRoutes)
        ensures
            r.wf(),
            forall|m: Methods| #[trigger] r.routes(m).len() == 0,
    {
        let r = ReadRoutes {
            get: Vec::new(),
            post: Vec::new(),
            put: Vec::new(),
            patch: Vec::new(),
            delete: Vec::new(),
        };
        assert(forall|m: Methods| #[trigger] r.routes(m).len() == 0);
        r
    }
}

/// Build a snapshot of the current writer tables.
pub fn snapshot_of(table: &RouteTable) -> (r: ReadRoutes)
    ensures
        forall|m: Methods| #[trigger] r.routes(m) == table.routes(m),
{
    let r = ReadRoutes {
        get: clone_routes(&table.get),
        post: clone_routes(&table.post),
        put: clone_routes(&table.put),
        patch: clone_routes(&table.patch),
        delete: clone_routes(&table.delete),
    };
    assert(forall|m: Methods| #[trigger] r.routes(m) == table.routes(m));
    r
}

/// `rs[i]` matches the split path and outranks every other matching entry.
pub open spec fn is_best(rs: Seq<EntryView>, segs: Seq<Seq<char>>, i: int) -> bool {
    &&& 0 <= i < rs.len()
    &&& segs_match(rs[i].segs, segs)
    &&& forall|j: int|
        0 <= j < rs.len() && j != i && segs_match(#[trigger] rs[j].segs, segs) ==> lex_lt(
            kindseq(rs[i].segs),
            kindseq(rs[j].segs),
        )
}

/// In a well-formed table the best match is unique.
pub proof fn lemma_best_unique(rs: Seq<EntryView>, segs: Seq<Seq<char>>, i: int, j: int)
    requires
        is_best(rs, segs, i),
        is_best(rs, segs, j),
    ensures
        i == j,
{
    if i != j {
        lemma_lex_asym(kindseq(rs[i].segs), kindseq(rs[j].segs));
    }
}

/// What a lookup answer must be, relative to one route table and the literal
/// request path: the captures of the unique best-matching pattern, or `None`
/// when nothing matches.
pub open spec fn lookup_spec_ok(
    rs: Seq<EntryView>,
    path: Seq<char>,
    r: Option<(u64, Seq<(Seq<char>, Seq<char>)>)>,
) -> bool {
    match spec_path_segs(path) {
        Option::None => r is None,
        Option::Some(segs) => match r {
            Option::Some(p) => exists|i: int|
                #[trigger] is_best(rs, segs, i) && p.0 == rs[i].callback && p.1 == spec_captures(
                    rs[i].segs,
                    segs,
                ),
            Option::None => forall|i: int|
                0 <= i < rs.len() ==> !segs_match(#[trigger] rs[i].segs, segs),
        },
    }
}

/// Linear scan for the best-matching route.
#[verifier::loop_isolation(false)]
fn find_route(rs: &Vec<RouteEntry>, segs: &Vec<String>) -> (r: Option<(u64, Vec<(String, String)>)>)
    requires
        routes_wf(rs.deep_view()),
    ensures
        r matches Some(p) ==> exists|i: int|
            #![auto]
            is_best(rs.deep_view(), segs.deep_view(), i) && p.0 == rs.deep_view()[i].callback
                && p.1.deep_view() == spec_captures(rs.deep_view()[i].segs, segs.deep_view()),
        r is None ==> forall|i: int|
            0 <= i < rs.deep_view().len() ==> !segs_match(
                #[trigger] rs.deep_view()[i].segs,
                segs.deep_view(),
            ),
{
    let ghost rv = rs.deep_view();
    let ghost sv = segs.deep_view();
    let mut best_idx: usize = 0;
    let mut best: Option<Vec<(String, String)>> = None;
    let mut i: usize = 0;
    while i < rs.len()
        invariant
            0 <= i <= rv.len(),
            rs@.len() == rv.len(),
            best is None ==> forall|j: int|
                0 <= j < i ==> !segs_match(#[trigger] rv[j].segs, sv),
            best matches Some(ps) ==> best_idx < i && segs_match(rv[best_idx as int].segs, sv)
                && ps.deep_view() == spec_captures(rv[best_idx as int].segs, sv) && forall|j: int|
                0 <= j < i && j != best_idx && segs_match(#[trigger] rv[j].segs, sv) ==> lex_lt(
                kindseq(rv[best_idx as int].segs),
                kindseq(rv[j].segs),
            ),
        decreases rs.len() - i,
    {
        assert(rv[i as int] == rs@[i as int].deep_view());
        let m = crate::pattern::match_segments(&rs[i].pattern.segs, segs);
        match m {
            Some(ps) => {
                if best.is_none() {
                    best_idx = i;
                    best = Some(ps);
                } else {
                    if shape_lt(&rs[i].pattern.segs, &rs[best_idx].pattern.segs) {
                        proof {
                            let ghost ob = best_idx as int;
                            assert forall|j: int|
                                0 <= j < i + 1 && j != i && segs_match(
                                    #[trigger] rv[j].segs,
                                    sv,
                                ) implies lex_lt(kindseq(rv[i as int].segs), kindseq(rv[j].segs)) by {
                                if j != ob {
                                    lemma_lex_trans(
                                        kindseq(rv[i as int].segs),
                                        kindseq(rv[ob].segs),
                                        kindseq(rv[j].segs),
                                    );
                                }
                            }
                        }
                        best_idx = i;
                        best = Some(ps);
                    } else {
                        proof {
                            let ghost ob = best_idx as int;
                            assert(!same_shape(rv[ob].segs, rv[i as int].segs));
                            lemma_matchers_kinds_shape(rv[ob].segs, rv[i as int].segs, sv);
                        }
                    }
                }
            },
            None => {},
        }
        i = i + 1;
    }
    match best {
        Some(ps) => {
            assert(is_best(rv, sv, best_idx as int));
            Some((rs[best_idx].callback, ps))
        },
        None => None,
    }
}

/// Look a path up in one snapshot table: split the path, then scan.
#[verifier::loop_isolation(false)]
fn lookup_in(rs: &Vec<RouteEntry>, route: &str) -> (r: Option<(u64, Vec<(String, String)>)>)
    requires
        routes_wf(rs.deep_view()),
    ensures
        lookup_spec_ok(rs.deep_view(), route@, r.deep_view()),
{
    match path_segments(route) {
        Some(segs) => {
            let r = find_route(rs, &segs);
            proof {
                let rvv = rs.deep_view();
                let sv = segs.deep_view();
                match &r {
                    Option::Some(p) => {
                        assert(exists|i: int|
                            #![auto]
                            is_best(rvv, sv, i) && p.0 == rvv[i].callback && p.1.deep_view()
                                == spec_captures(rvv[i].segs, sv));
                        let i = choose|i: int|
                            #![auto]
                            is_best(rvv, sv, i) && p.0 == rvv[i].callback && p.1.deep_view()
                                == spec_captures(rvv[i].segs, sv);
                        let q = r.deep_view()->Some_0;
                        assert(q.0 == p.0 && q.1 == p.1.deep_view());
                        assert(spec_path_segs(route@) == Some(sv));
                        let segs2 = spec_path_segs(route@)->Some_0;
                        assert(segs2 == sv);
                        assert(is_best(rvv, segs2, i) && q.0 == rvv[i].callback && q.1
                            == spec_captures(rvv[i].segs, segs2));
                        assert(lookup_spec_ok(rvv, route@, r.deep_view()));
                    },
                    Option::None => {
                        assert(r.deep_view() is None);
                    },
                }
            }
            r
        },
        None => None,
    }
}

// ---------------------------------------------------------------------------
// The bounded per-method match cache, backed by lru::LruCache
// ---------------------------------------------------------------------------
/// A cached successful match: the callback handle and the captured params.
#[derive(Clone)]
pub struct CachedRoute {
    pub callback: u64,
    pub params: Vec<(String, String)>,
}

#[verifier::external_type_specification]
#[verifier::external_body]
#[verifier::reject_recursive_types(K)]
#[verifier::reject_recursive_types(V)]
#[verifier::reject_recursive_types(S)]
pub struct ExLruCache<K, V, S>(lru::LruCache<K, V, S>);

/// The contents of one LRU cache, as a map from literal path to the cached
/// callback handle and captures.
pub uninterp spec fn cache_view(c: lru::LruCache<String, CachedRoute>) -> Map<
    Seq<char>,
    (u64, Seq<(Seq<char>, Seq<char>)>),
>;

/// The empty cache contents.
pub open spec fn empty_cache_map() -> Map<Seq<char>, (u64, Seq<(Seq<char>, Seq<char>)>)> {
    Map::empty()
}

/// Relies on lru::LruCache::new: a fresh cache is empty.
#[verifier::external_body]
fn cache_new(cap: usize) -> (c: lru::LruCache<String, CachedRoute>)
    requires
        cap >= 1,
    ensures
        cache_view(c) == empty_cache_map(),
{
    lru::LruCache::new(std::num::NonZeroUsize::new(cap).unwrap())
}

/// Relies on lru::LruCache::get: answers from the contents; it only moves
/// the entry to most-recently-used, the contents stay as they were.
#[verifier::external_body]
fn cache_get(c: &mut lru::LruCache<String, CachedRoute>, k: &String) -> (r: Option<CachedRoute>)
    ensures
        cache_view(*final(c)) == cache_view(*old(c)),
        r matches Some(v) ==> cache_view(*old(c)).contains_key(k@) && cache_view(*old(c))[k@] == (
            v.callback,
            v.params.deep_view(),
        ),
        r is None ==> !cache_view(*old(c)).contains_key(k@),
{
    c.get(k).cloned()
}

/// Relies on lru::LruCache::put: inserts the pair; at capacity the least
/// recently used entry leaves; every other surviving entry is unchanged.
#[verifier::external_body]
fn cache_put(c: &mut lru::LruCache<String, CachedRoute>, k: String, v: CachedRoute)
    ensures
        cache_view(*final(c)).contains_key(k@),
        cache_view(*final(c))[k@] == (v.callback, v.params.deep_view()),
        forall|k2: Seq<char>|
            k2 != k@ && #[trigger] cache_view(*final(c)).contains_key(k2) ==> cache_view(
                *old(c),
            ).contains_key(k2) && cache_view(*final(c))[k2] == cache_view(*old(c))[k2],
{
    c.put(k, v);
}

/// Relies on lru::LruCache::clear: drops every entry.
#[verifier::external_body]
fn cache_clear(c: &mut lru::LruCache<String, CachedRoute>)
    ensures
        cache_view(*final(c)) == empty_cache_map(),
{
    c.clear();
}

/// The five bounded per-method caches, keyed by the literal request path.
/// Only successful matches are stored; misses are never cached.
pub struct RouteCache {
    pub get_cache: lru::LruCache<String, CachedRoute>,
    pub post_cache: lru::LruCache<String, CachedRoute>,
    pub put_cache: lru::LruCache<String, CachedRoute>,
    pub patch_cache: lru::LruCache<String, CachedRoute>,
    pub delete_cache: lru::LruCache<String, CachedRoute>,
}

impl RouteCache {
    pub open spec fn view_of(&self, m: Methods) -> Map<Seq<char>, (u64, Seq<(Seq<char>, Seq<char>)>)> {
        match m {
            Methods::GET => cache_view(self.get_cache),
            Methods::POST => cache_view(self.post_cache),
            Methods::PUT => cache_view(self.put_cache),
            Methods::PATCH => cache_view(self.patch_cache),
            Methods::DELETE => cache_view(self.delete_cache),
        }
    }

    pub fn new(capacity: usize) -> (r: RouteCache)
        requires
            capacity >= 1,
        ensures
            forall|m: Methods| #[trigger] r.view_of(m) == empty_cache_map(),
    {
        let r = RouteCache {
            get_cache: cache_new(capacity),
            post_cache: cache_new(capacity),
            put_cache: cache_new(capacity),
            patch_cache: cache_new(capacity),
            delete_cache: cache_new(capacity),
        };
        assert(forall|m: Methods| #[trigger] r.view_of(m) == empty_cache_map());
        r
    }

    pub fn get(&mut self, route: &String, method: Methods) -> (r: Option<CachedRoute>)
        ensures
            forall|m: Methods| #[trigger] final(self).view_of(m) == old(self).view_of(m),
            r matches Some(v) ==> old(self).view_of(method).contains_key(route@) && old(
                self,
            ).view_of(method)[route@] == (v.callback, v.params.deep_view()),
            r is None ==> !old(self).view_of(method).contains_key(route@),
    {
        match method {
            Methods::GET => cache_get(&mut self.get_cache, route),
            Methods::POST => cache_get(&mut self.post_cache, route),
            Methods::PUT => cache_get(&mut self.put_cache, route),
            Methods::PATCH => cache_get(&mut self.patch_cache, route),
            Methods::DELETE => cache_get(&mut self.delete_cache, route),
        }
    }

    pub fn put(&mut self, route: String, method: Methods, entry: CachedRoute)
        ensures
            final(self).view_of(method).contains_key(route@),
            final(self).view_of(method)[route@] == (entry.callback, entry.params.deep_view()),
            forall|k2: Seq<char>|
                k2 != route@ && #[trigger] final(self).view_of(method).contains_key(k2) ==> old(
                    self,
                ).view_of(method).contains_key(k2) && final(self).view_of(method)[k2] == old(
                    self,
                ).view_of(method)[k2],
            forall|m2: Methods| m2 != method ==> #[trigger] final(self).view_of(m2) == old(
                self,
            ).view_of(m2),
    {
        match method {
            Methods::GET => cache_put(&mut self.get_cache, route, entry),
            Methods::POST => cache_put(&mut self.post_cache, route, entry),
            Methods::PUT => cache_put(&mut self.put_cache, route, entry),
            Methods::PATCH => cache_put(&mut self.patch_cache, route, entry),
            Methods::DELETE => cache_put(&mut self.delete_cache, route, entry),
        }
    }

    pub fn clear(&mut self)
        ensures
            forall|m: Methods| #[trigger] final(self).view_of(m) == empty_cache_map(),
    {
        cache_clear(&mut self.get_cache);
        cache_clear(&mut self.post_cache);
        cache_clear(&mut self.put_cache);
        cache_clear(&mut self.patch_cache);
        cache_clear(&mut self.delete_cache);
        assert(forall|m: Methods| #[trigger] self.view_of(m) == empty_cache_map());
    }
}

/// Every cached entry agrees with what a fresh lookup in the published
/// snapshot would answer: the cache never serves a stale or invented match.
pub open spec fn cache_coherent(cache: &RouteCache, reader: &ReadRoutes) -> bool {
    forall|m: Methods, k: Seq<char>|
        #[trigger] cache.view_of(m).contains_key(k) ==> lookup_spec_ok(
            reader.routes(m),
            k,
            Some(cache.view_of(m)[k]),
        )
}

// ---------------------------------------------------------------------------
// The router: writer tables, published snapshot, cache, and hit counter
// ---------------------------------------------------------------------------
/// Default capacity of each per-method match cache.
pub const DEFAULT_CACHE_CAPACITY: usize = 1000;

/// The whole routing state: the writer tables, the published reader
/// snapshot, the match caches in front of the snapshot, and a counter of
/// cache hits.
pub struct Router {
    pub store: RouteTable,
    pub reader: ReadRoutes,
    pub cache: RouteCache,
    pub cache_hits: u64,
}

impl Router {
    /// Every table is well formed and the cache never disagrees with the
    /// published snapshot.
    pub open spec fn wf(&self) -> bool {
        &&& self.store.wf()
        &&& self.reader.wf()
        &&& cache_coherent(&self.cache, &self.reader)
    }

    /// The published snapshot shows exactly the writer tables.
    pub open spec fn published(&self) -> bool {
        forall|m: Methods| #[trigger] self.reader.routes(m) == self.store.routes(m)
    }

    pub fn new() -> (r: Router)
        ensures
            r.wf(),
            r.published(),
            forall|m: Methods| #[trigger] r.store.routes(m).len() == 0,
            r.cache_hits == 0,
    {
        let r = Router {
            store: RouteTable::new(),
            reader: ReadRoutes::new(),
            cache: RouteCache::new(DEFAULT_CACHE_CAPACITY),
            cache_hits: 0,
        };
        assert(r.published()) by {
            assert(forall|m: Methods| #[trigger] r.reader.routes(m).len() == 0
                && r.store.routes(m).len() == 0);
            assert forall|m: Methods| #[trigger] r.reader.routes(m) == r.store.routes(m) by {
                assert(r.reader.routes(m) =~= r.store.routes(m));
            }
        }
        r
    }

    /// Publish a snapshot, replacing the previous one as a whole, and clear
    /// the caches so no entry of the old snapshot survives.
    pub fn write_reader(&mut self, new_reader: ReadRoutes)
        requires
            old(self).wf(),
            new_reader.wf(),
        ensures
            final(self).wf(),
            final(self).reader == new_reader,
            final(self).store == old(self).store,
            final(self).cache_hits == old(self).cache_hits,
            forall|m: Methods| #[trigger] final(self).cache.view_of(m) == empty_cache_map(),
    {
        self.reader = new_reader;
        self.cache.clear();
    }

    /// Publish the current writer tables (done on server start and after
    /// every change to the tables).
    pub fn initialise_reader(&mut self)
        requires
            old(self).wf(),
        ensures
            final(self).wf(),
            final(self).published(),
            final(self).store == old(self).store,
            final(self).cache_hits == old(self).cache_hits,
            forall|m: Methods| #[trigger] final(self).cache.view_of(m) == empty_cache_map(),
    {
        let snap = snapshot_of(&self.store);
        assert(snap.wf());
        self.write_reader(snap);
    }

    /// Register a route and publish the new snapshot. Exactly the invalid
    /// patterns are refused with `InvalidPattern`; exactly a same-shaped
    /// existing pattern makes `DuplicateRoute`; on success the new table is
    /// the old one with the entry appended, and the snapshot and caches are
    /// refreshed before the call returns.
    pub fn add_new_route(&mut self, route: &str, method: Methods, function: u64) -> (r: Result<
        (),
        crate::store::RouterError,
    >)
        requires
            old(self).wf(),
        ensures
            final(self).wf(),
            register_transition(*old(self), *final(self), route@, method, function, r),
    {
        let r = self.store.insert(route, method, function);
        match &r {
            Ok(_) => {
                self.initialise_reader();
            },
            Err(_) => {},
        }
        r
    }

    /// Drop all routes, publish the now-empty snapshot and clear the caches.
    pub fn cleanup_route(&mut self)
        requires
            old(self).wf(),
        ensures
            final(self).wf(),
            final(self).published(),
            forall|m: Methods| #[trigger] final(self).store.routes(m).len() == 0,
            forall|m: Methods| #[trigger] final(self).cache.view_of(m) == empty_cache_map(),
    {
        self.store.cleanup();
        self.initialise_reader();
    }

    /// Clear the match caches alone.
    pub fn clear_route_cache(&mut self)
        requires
            old(self).wf(),
        ensures
            final(self).wf(),
            final(self).store == old(self).store,
            final(self).reader == old(self).reader,
            final(self).cache_hits == old(self).cache_hits,
            forall|m: Methods| #[trigger] final(self).cache.view_of(m) == empty_cache_map(),
    {
        self.cache.clear();
    }

    /// Cache-fronted lookup: consult the method's cache first; on a miss,
    /// match against the snapshot and remember a successful match. The
    /// answer always equals a fresh lookup in the published snapshot.
    pub fn get_route_with_params_cached(&mut self, route: &str, method: Methods) -> (r: Option<
        (u64, Vec<(String, String)>),
    >)
        requires
            old(self).wf(),
        ensures
            final(self).wf(),
            final(self).store == old(self).store,
            final(self).reader == old(self).reader,
            lookup_spec_ok(old(self).reader.routes(method), route@, r.deep_view()),
            r matches Some(p) ==> final(self).cache.view_of(method).contains_key(route@)
                && final(self).cache.view_of(method)[route@] == (p.0, p.1.deep_view()),
            r is None ==> forall|m2: Methods| #[trigger] final(self).cache.view_of(m2) == old(
                self,
            ).cache.view_of(m2),
            old(self).cache.view_of(method).contains_key(route@) && old(self).cache_hits
                < u64::MAX ==> final(self).cache_hits == old(self).cache_hits + 1,
            !old(self).cache.view_of(method).contains_key(route@) ==> final(self).cache_hits
                == old(self).cache_hits,
    {
        let key = String::from_str(route);
        let cached = self.cache.get(&key, method);
        match cached {
            Some(entry) => {
                if self.cache_hits < u64::MAX {
                    self.cache_hits = self.cache_hits + 1;
                }
                proof {
                    assert(old(self).cache.view_of(method).contains_key(route@));
                    assert(lookup_spec_ok(
                        self.reader.routes(method),
                        route@,
                        Some(old(self).cache.view_of(method)[route@]),
                    ));
                }
                let r = Some((entry.callback, entry.params));
                assert(r.deep_view() matches Some(q) && q
                    == old(self).cache.view_of(method)[route@]);
                r
            },
            None => {
                assert(routes_wf(self.reader.routes(method)));
                let found = match method {
                    Methods::GET => lookup_in(&self.reader.get, route),
                    Methods::POST => lookup_in(&self.reader.post, route),
                    Methods::PUT => lookup_in(&self.reader.put, route),
                    Methods::PATCH => lookup_in(&self.reader.patch, route),
                    Methods::DELETE => lookup_in(&self.reader.delete, route),
                };
                assert(lookup_spec_ok(self.reader.routes(method), route@, found.deep_view()));
                match found {
                    Some(p) => {
                        let cb = p.0;
                        let params_copy = crate::strutil::clone_pairs(&p.1);
                        let entry = CachedRoute { callback: cb, params: params_copy };
                        let ghost oldcache = self.cache;
                        self.cache.put(key, method, entry);
                        proof {
                            assert(cache_view_entry_ok(self, method, route@));
                            assert(cache_coherent(&self.cache, &self.reader));
                        }
                        let r = Some((cb, p.1));
                        assert(r.deep_view() == found.deep_view());
                        r
                    },
                    None => None,
                }
            },
        }
    }

    /// Same lookup, through the cache (kept beside the cached one as in the
    /// public surface of the registry), with the same cache effects.
    pub fn get_route_with_params(&mut self, route: &str, method: Methods) -> (r: Option<
        (u64, Vec<(String, String)>),
    >)
        requires
            old(self).wf(),
        ensures
            final(self).wf(),
            final(self).store == old(self).store,
            final(self).reader == old(self).reader,
            lookup_spec_ok(old(self).reader.routes(method), route@, r.deep_view()),
            r matches Some(p) ==> final(self).cache.view_of(method).contains_key(route@)
                && final(self).cache.view_of(method)[route@] == (p.0, p.1.deep_view()),
            r is None ==> forall|m2: Methods| #[trigger] final(self).cache.view_of(m2) == old(
                self,
            ).cache.view_of(m2),
            old(self).cache.view_of(method).contains_key(route@) && old(self).cache_hits
                < u64::MAX ==> final(self).cache_hits == old(self).cache_hits + 1,
            !old(self).cache.view_of(method).contains_key(route@) ==> final(self).cache_hits
                == old(self).cache_hits,
    {
        self.get_route_with_params_cached(route, method)
    }

    /// Lookup without touching the cache, returning the callback alone.
    pub fn get_route(&self, route: &str, method: Methods) -> (r: Option<u64>)
        requires
            self.wf(),
        ensures
            r matches Some(cb) ==> exists|p: (u64, Seq<(Seq<char>, Seq<char>)>)|
                #![auto]
                lookup_spec_ok(self.reader.routes(method), route@, Some(p)) && p.0 == cb,
            r is None ==> lookup_spec_ok(self.reader.routes(method), route@, None),
    {
        assert(routes_wf(self.reader.routes(method)));
        let found = match method {
            Methods::GET => lookup_in(&self.reader.get, route),
            Methods::POST => lookup_in(&self.reader.post, route),
            Methods::PUT => lookup_in(&self.reader.put, route),
            Methods::PATCH => lookup_in(&self.reader.patch, route),
            Methods::DELETE => lookup_in(&self.reader.delete, route),
        };
        match found {
            Some(p) => {
                let ghost w = found.deep_view()->Some_0;
                assert(lookup_spec_ok(self.reader.routes(method), route@, Some(w)) && w.0 == p.0);
                Some(p.0)
            },
            None => None,
        }
    }

    /// Lookup without touching the cache, returning the captures alone.
    pub fn get_params(&self, route: &str, method: Methods) -> (r: Option<Vec<(String, String)>>)
        requires
            self.wf(),
        ensures
            r matches Some(ps) ==> exists|p: (u64, Seq<(Seq<char>, Seq<char>)>)|
                #![auto]
                lookup_spec_ok(self.reader.routes(method), route@, Some(p)) && p.1
                    == ps.deep_view(),
            r is None ==> lookup_spec_ok(self.reader.routes(method), route@, None),
    {
        assert(routes_wf(self.reader.routes(method)));
        let found = match method {
            Methods::GET => lookup_in(&self.reader.get, route),
            Methods::POST => lookup_in(&self.reader.post, route),
            Methods::PUT => lookup_in(&self.reader.put, route),
            Methods::PATCH => lookup_in(&self.reader.patch, route),
            Methods::DELETE => lookup_in(&self.reader.delete, route),
        };
        match found {
            Some(p) => {
                let ghost w = found.deep_view()->Some_0;
                assert(lookup_spec_ok(self.reader.routes(method), route@, Some(w)) && w.1
                    == p.1.deep_view());
                Some(p.1)
            },
            None => None,
        }
    }
}

/// The freshly inserted cache entry answers as a lookup would.
pub open spec fn cache_view_entry_ok(r: &Router, m: Methods, k: Seq<char>) -> bool {
    r.cache.view_of(m).contains_key(k) ==> lookup_spec_ok(
        r.reader.routes(m),
        k,
        Some(r.cache.view_of(m)[k]),
    )
}


/// What one registration does: exactly the invalid patterns are refused
/// with `InvalidPattern`, exactly a same-shaped existing pattern makes
/// `DuplicateRoute`, and a success appends the entry, publishes the new
/// snapshot and clears the caches before returning. A duplicate is decided
/// by shape, not by text: `/a/:x` after `/a/:y` is refused too, since two
/// same-shaped patterns accept exactly the same paths and would make the
/// best match ambiguous.
pub open spec fn register_transition(
    pre: Router,
    post: Router,
    route: Seq<char>,
    method: Methods,
    function: u64,
    r: Result<(), crate::store::RouterError>,
) -> bool {
    &&& (r matches Err(e) ==> post.store == pre.store && post.reader == pre.reader
        && post.cache == pre.cache && post.cache_hits == pre.cache_hits && ((e
        == crate::store::RouterError::InvalidPattern && !spec_pattern_valid(route)) || (e
        == crate::store::RouterError::DuplicateRoute && spec_pattern_valid(route)
        && crate::store::has_shape_conflict(
        pre.store.routes(method),
        segs_of_raws(spec_split_from(route, 1)),
    ))))
    &&& (r is Ok ==> spec_pattern_valid(route) && !crate::store::has_shape_conflict(
        pre.store.routes(method),
        segs_of_raws(spec_split_from(route, 1)),
    ) && post.store.routes(method) == pre.store.routes(method).push(
        EntryView {
            raw: route,
            segs: segs_of_raws(spec_split_from(route, 1)),
            callback: function,
        },
    ) && (forall|m2: Methods| m2 != method ==> #[trigger] post.store.routes(m2) == pre.store.routes(
        m2,
    )) && post.published() && post.cache_hits == pre.cache_hits && (forall|m: Methods|
        #[trigger] post.cache.view_of(m) == empty_cache_map()))
}

/// Route uniqueness: a successful registration leaves a same-shaped entry
/// in the table, so registering the same pattern again for the same method
/// answers `DuplicateRoute`.
pub proof fn lemma_route_uniqueness(
    r0: Router,
    r1: Router,
    r2: Router,
    route: Seq<char>,
    m: Methods,
    c1: u64,
    c2: u64,
    res1: Result<(), crate::store::RouterError>,
    res2: Result<(), crate::store::RouterError>,
)
    requires
        register_transition(r0, r1, route, m, c1, res1),
        register_transition(r1, r2, route, m, c2, res2),
        res1 is Ok,
    ensures
        res2 matches Err(e) && e == crate::store::RouterError::DuplicateRoute,
{
    let segs = segs_of_raws(spec_split_from(route, 1));
    let rs1 = r1.store.routes(m);
    assert(rs1.last().segs == segs);
    assert(same_shape(segs, segs)) by {
        assert(forall|i: int|
            0 <= i < segs.len() ==> crate::pattern::shape_eq_seg(#[trigger] segs[i], segs[i]));
    }
    assert(crate::store::has_shape_conflict(rs1, segs)) by {
        assert(same_shape(rs1[rs1.len() - 1].segs, segs));
    }
}

/// Snapshot atomicity, as a reader observes it: a lookup's answer depends
/// on the published snapshot alone, and publication replaces the snapshot
/// as one value, so every lookup answers for exactly one snapshot, never a
/// mix of two.
pub proof fn lemma_lookup_reads_one_snapshot(
    a: Router,
    b: Router,
    m: Methods,
    path: Seq<char>,
    r: Option<(u64, Seq<(Seq<char>, Seq<char>)>)>,
)
    requires
        a.reader.routes(m) == b.reader.routes(m),
        lookup_spec_ok(a.reader.routes(m), path, r),
    ensures
        lookup_spec_ok(b.reader.routes(m), path, r),
{
}

/// Cache coherence: in a well-formed router whose snapshot is published,
/// any answer that is right for the snapshot is right for the writer
/// registry itself; no stale cache entry survives a write, because every
/// write clears the caches and republishes.
pub proof fn lemma_cache_coherence(
    r: Router,
    m: Methods,
    path: Seq<char>,
    res: Option<(u64, Seq<(Seq<char>, Seq<char>)>)>,
)
    requires
        r.wf(),
        r.published(),
        lookup_spec_ok(r.reader.routes(m), path, res),
    ensures
        lookup_spec_ok(r.store.routes(m), path, res),
{
    assert(r.reader.routes(m) == r.store.routes(m));
}

} // verus!
