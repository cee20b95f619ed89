//! Path parameters, and the route table that dispatches a request to the
//! handler of its best route.

use vstd::prelude::*;
use vstd::string::StringExecFns;
use crate::method::Method;
use crate::pairs::{lemma_pairs_map_keys, lemma_pairs_map_suffix, pairs_map};
use crate::route::{
    all_wf, best_route, lemma_select_is_candidate, lemma_token_in_range, segments, select, Route,
    RouteToken, TokenSpec,
};
use crate::text::{char_views, chars_of, split_chars, split_on, str_eq, string_of, trim_chars, trim_slashes};

verus! {

/// Parameter bindings of a matched route: name to path segment.
#[derive(Debug)]
pub struct Params {
    entries: Vec<(String, String)>,
}

/// The character values of string pairs.
pub open spec fn pair_views(v: Seq<(String, String)>) -> Seq<(Seq<char>, Seq<char>)> {
    v.map_values(|e: (String, String)| (e.0@, e.1@))
}

impl View for Params {
    type V = Map<Seq<char>, Seq<char>>;

    closed spec fn view(&self) -> Map<Seq<char>, Seq<char>> {
        pairs_map(pair_views(self.entries@))
    }
}

impl Params {
    pub fn new() -> (r: Params)
        ensures
            r@ == Map::<Seq<char>, Seq<char>>::empty(),
    {
        let r = Params { entries: Vec::new() };
        assert(pair_views(r.entries@) =~= Seq::<(Seq<char>, Seq<char>)>::empty());
        r
    }

    /// Binds `name` to `value`; a later binding of a name replaces an earlier one.
    pub fn insert(&mut self, name: String, value: String)
        ensures
            final(self)@ == old(self)@.insert(name@, value@),
    {
        let ghost before = pair_views(self.entries@);
        self.entries.push((name, value));
        assert(pair_views(self.entries@).drop_last() =~= before);
    }

    /// The value bound to `name`.
    pub fn get(&self, name: &str) -> (r: Option<&String>)
        ensures
            match r {
                Some(v) => self@.contains_key(name@) && self@[name@] == v@,
                None => !self@.contains_key(name@),
            },
    {
        let ghost ps = pair_views(self.entries@);
        let mut j: usize = self.entries.len();
        while j > 0
            invariant
                ps == pair_views(self.entries@),
                0 <= j <= ps.len(),
                forall|t: int| j <= t < ps.len() ==> (#[trigger] ps[t]).0 != name@,
            decreases j,
        {
            let e = &self.entries[j - 1];
            assert(ps[j - 1] == (e.0@, e.1@));
            if str_eq(e.0.as_str(), name) {
                proof {
                    lemma_pairs_map_suffix(ps, j as int, name@);
                    assert(ps.take(j as int).drop_last() =~= ps.take(j - 1));
                }
                return Some(&e.1);
            }
            j = j - 1;
        }
        proof {
            lemma_pairs_map_keys(ps, name@);
        }
        None
    }

    /// Whether nothing is bound.
    pub fn is_empty(&self) -> (r: bool)
        ensures
            r == (self@ == Map::<Seq<char>, Seq<char>>::empty()),
    {
        let ghost ps = pair_views(self.entries@);
        proof {
            if ps.len() > 0 {
                assert(self@.contains_key(ps.last().0));
            } else {
                assert(self@ =~= Map::<Seq<char>, Seq<char>>::empty());
            }
        }
        self.entries.len() == 0
    }
}

/// The bindings made by the first `n` tokens: each parameter token binds
/// its name to the segment at its index.
pub open spec fn bind_prefix(toks: Seq<TokenSpec>, path: Seq<Seq<char>>, n: int) -> Map<
    Seq<char>,
    Seq<char>,
>
    decreases n,
{
    if n <= 0 {
        Map::empty()
    } else {
        let m = bind_prefix(toks, path, n - 1);
        match toks[n - 1] {
            TokenSpec::Parameter(name) => m.insert(name, path[n - 1]),
            _ => m,
        }
    }
}

/// The parameter bindings of a route's tokens on a split path.
pub open spec fn bind_params(toks: Seq<TokenSpec>, path: Seq<Seq<char>>) -> Map<Seq<char>, Seq<char>> {
    bind_prefix(toks, path, toks.len() as int)
}

/// Every parameter token stands at an index of the path.
pub open spec fn params_in_range(toks: Seq<TokenSpec>, path_len: int) -> bool {
    forall|i: int| 0 <= i < toks.len() && (#[trigger] toks[i]) is Parameter ==> i < path_len
}

impl Route {
    /// Binds each parameter of this route to the path segment at its index.
    pub fn params(&self, path: &Vec<&str>) -> (r: Params)
        requires
            params_in_range(self.tokens(), path@.len() as int),
        ensures
            r@ == bind_params(self.tokens(), segments(path@)),
    {
        let ghost toks = self.tokens();
        let ghost segs = segments(path@);
        let mut params = Params::new();
        let n = self.1.len();
        let mut i: usize = 0;
        while i < n
            invariant
                n == self.1@.len(),
                toks == self.tokens(),
                segs == segments(path@),
                params_in_range(toks, path@.len() as int),
                0 <= i <= n,
                params@ == bind_prefix(toks, segs, i as int),
            decreases n - i,
        {
            assert(toks[i as int] == self.1@[i as int]@);
            if let RouteToken::PARAMETER(name) = &self.1[i] {
                params.insert(name.clone(), String::from_str(path[i]));
            }
            i = i + 1;
        }
        params
    }
}

/// The segments of a request path: without leading and trailing `/`,
/// split on `/`. The root path `/` gives one empty segment.
pub open spec fn path_segments(path: Seq<char>) -> Seq<Seq<char>> {
    split_on(trim_slashes(path), '/')
}

/// `r` is what resolving owes for `method` on `path`: the handler of the
/// chosen route and the bindings of its parameters, or nothing when no
/// route serves the request or the path has `usize::MAX` segments or more.
pub open spec fn resolve_outcome<H>(
    router: &Router<H>,
    method: Method,
    path: Seq<char>,
    r: Option<(&H, Params)>,
) -> bool {
    let segs = path_segments(path);
    if segs.len() >= usize::MAX {
        r is None
    } else {
        match select(method, segs, router.routes()) {
            None => r is None,
            Some((i, _)) => r matches Some((h, ps)) && *h == router.handlers()[i] && ps@
                == bind_params(router.routes()[i].tokens(), segs),
        }
    }
}

/// A route table: routes in registration order, each with its handler.
pub struct Router<H> {
    routes: Vec<Route>,
    handlers: Vec<H>,
}

/// Two routes with the same method and tokens are the same route.
pub open spec fn same_route(a: Route, b: Route) -> bool {
    a.0 == b.0 && a.tokens() == b.tokens()
}

fn same_route_exec(a: &Route, b: &Route) -> (r: bool)
    ensures
        r == same_route(*a, *b),
{
    assert(a.tokens().len() == a.1@.len() && b.tokens().len() == b.1@.len());
    if a.0 != b.0 || a.1.len() != b.1.len() {
        return false;
    }
    let n = a.1.len();
    let mut i: usize = 0;
    while i < n
        invariant
            n == a.1@.len(),
            n == b.1@.len(),
            0 <= i <= n,
            forall|k: int| 0 <= k < i ==> a.tokens()[k] == b.tokens()[k],
        decreases n - i,
    {
        assert(a.tokens()[i as int] == a.1@[i as int]@);
        assert(b.tokens()[i as int] == b.1@[i as int]@);
        let same = match (&a.1[i], &b.1[i]) {
            (RouteToken::PATH(x), RouteToken::PATH(y)) => str_eq(x.as_str(), y.as_str()),
            (RouteToken::PARAMETER(x), RouteToken::PARAMETER(y)) => str_eq(x.as_str(), y.as_str()),
            (RouteToken::WILDCARD, RouteToken::WILDCARD) => true,
            _ => false,
        };
        if !same {
            return false;
        }
        i = i + 1;
    }
    assert(a.tokens() =~= b.tokens());
    true
}

impl<H> Router<H> {
    /// The registered routes, in order.
    pub closed spec fn routes(&self) -> Seq<Route> {
        self.routes@
    }

    /// The handler of each registered route.
    pub closed spec fn handlers(&self) -> Seq<H> {
        self.handlers@
    }

    /// One handler per route, and every wildcard last.
    pub closed spec fn wf(&self) -> bool {
        self.routes@.len() == self.handlers@.len() && all_wf(self.routes@)
    }

    pub fn new() -> (r: Router<H>)
        ensures
            r.wf(),
            r.routes() == Seq::<Route>::empty(),
            r.handlers() == Seq::<H>::empty(),
    {
        Router { routes: Vec::new(), handlers: Vec::new() }
    }

    /// Registers `handler` for `route`; a route registered before with the
    /// same method and tokens keeps its place and gets the new handler.
    pub fn add(&mut self, route: Route, handler: H)
        requires
            old(self).wf(),
            route.wf(),
        ensures
            final(self).wf(),
            match find_same(old(self).routes(), route) {
                Some(i) => final(self).routes() == old(self).routes() && final(self).handlers()
                    == old(self).handlers().update(i, handler),
                None => final(self).routes() == old(self).routes().push(route)
                    && final(self).handlers() == old(self).handlers().push(handler),
            },
    {
        let n = self.routes.len();
        let mut i: usize = 0;
        while i < n
            invariant
                n == self.routes@.len(),
                *self == *old(self),
                self.wf(),
                0 <= i <= n,
                forall|k: int| 0 <= k < i ==> !same_route(#[trigger] self.routes@[k], route),
            decreases n - i,
        {
            if same_route_exec(&self.routes[i], &route) {
                proof {
                    lemma_find_same(self.routes@, route, i as int);
                }
                self.handlers.set(i, handler);
                return;
            }
            i = i + 1;
        }
        proof {
            lemma_find_same_none(self.routes@, route);
        }
        let ghost before = self.routes@;
        self.routes.push(route);
        self.handlers.push(handler);
        assert forall|k: int| 0 <= k < self.routes@.len() implies (#[trigger] self.routes@[k]).wf() by {
            if k < before.len() {
                assert(self.routes@[k] == before[k]);
            }
        }
    }

    /// Finds the handler of the route that serves `method` on `path`, as
    /// `match_route` picks it, with the bindings of its parameters. A path of
    /// `usize::MAX` segments or more finds nothing.
    pub fn resolve(&self, method: Method, path: &str) -> (r: Option<(&H, Params)>)
        requires
            self.wf(),
        ensures
            resolve_outcome(self, method, path@, r),
    {
        let trimmed = trim_chars(chars_of(path).as_slice(), false);
        let parts = split_chars(trimmed.as_slice(), '/');
        let ghost segs = path_segments(path@);
        if parts.len() == usize::MAX {
            return None;
        }
        let mut owned: Vec<String> = Vec::new();
        let mut k: usize = 0;
        while k < parts.len()
            invariant
                char_views(parts@) == segs,
                0 <= k <= parts@.len(),
                owned@.len() == k,
                forall|t: int| 0 <= t < k ==> (#[trigger] owned@[t])@ == segs[t],
            decreases parts@.len() - k,
        {
            owned.push(string_of(parts[k].as_slice()));
            k = k + 1;
        }
        let mut refs: Vec<&str> = Vec::new();
        let mut k: usize = 0;
        while k < owned.len()
            invariant
                0 <= k <= owned@.len(),
                refs@.len() == k,
                forall|t: int| 0 <= t < k ==> (#[trigger] refs@[t])@ == owned@[t]@,
            decreases owned@.len() - k,
        {
            refs.push(owned[k].as_str());
            k = k + 1;
        }
        assert(segments(refs@) =~= segs);
        match best_route(method, &refs, self.routes.as_slice()) {
            None => None,
            Some((i, _, _, _)) => {
                proof {
                    lemma_select_is_candidate(method, segs, self.routes@);
                    let toks = self.routes@[i as int].tokens();
                    assert(self.routes@[i as int].wf());
                    assert forall|t: int| 0 <= t < toks.len() && (#[trigger] toks[t]) is Parameter implies t
                        < refs@.len() by {
                        lemma_token_in_range(toks, t);
                    }
                }
                let params = self.routes[i].params(&refs);
                Some((&self.handlers[i], params))
            },
        }
    }
}

/// The index of the first route that is the same as `route`.
pub open spec fn find_same(routes: Seq<Route>, route: Route) -> Option<int>
    decreases routes.len(),
{
    if routes.len() == 0 {
        None
    } else {
        match find_same(routes.drop_last(), route) {
            Some(i) => Some(i),
            None => if same_route(routes.last(), route) {
                Some(routes.len() - 1)
            } else {
                None
            },
        }
    }
}

proof fn lemma_find_same(routes: Seq<Route>, route: Route, i: int)
    requires
        0 <= i < routes.len(),
        same_route(routes[i], route),
        forall|k: int| 0 <= k < i ==> !same_route(#[trigger] routes[k], route),
    ensures
        find_same(routes, route) == Some(i),
    decreases routes.len(),
{
    if i < routes.len() - 1 {
        let q = routes.drop_last();
        assert(q[i] == routes[i]);
        assert forall|k: int| 0 <= k < i implies !same_route(#[trigger] q[k], route) by {
            assert(q[k] == routes[k]);
        }
        lemma_find_same(q, route, i);
    } else {
        lemma_find_same_none(routes.drop_last(), route);
    }
}

proof fn lemma_find_same_none(routes: Seq<Route>, route: Route)
    requires
        forall|k: int| 0 <= k < routes.len() ==> !same_route(#[trigger] routes[k], route),
    ensures
        find_same(routes, route) is None,
    decreases routes.len(),
{
    if routes.len() > 0 {
        let q = routes.drop_last();
        assert forall|k: int| 0 <= k < q.len() implies !same_route(#[trigger] q[k], route) by {
            assert(q[k] == routes[k]);
        }
        lemma_find_same_none(q, route);
        assert(routes[routes.len() - 1] == routes.last());
    }
}

} // verus!
