//! Routes, their tokens, and the matcher that picks the most specific
//! route for a request path.

use vstd::prelude::*;
use crate::method::Method;
use crate::text::str_eq;

verus! {

/// One segment-matching unit of a route.
#[derive(Debug, PartialEq, Eq, PartialOrd, Ord)]
pub enum RouteToken {
    /// Matches exactly this path segment.
    PATH(String),
    /// Matches any segment and binds it to this name.
    PARAMETER(String),
    /// Matches the rest of the path, zero or more segments.
    WILDCARD,
}

/// The mathematical value of a route token.
pub enum TokenSpec {
    Path(Seq<char>),
    Parameter(Seq<char>),
    Wildcard,
}

impl View for RouteToken {
    type V = TokenSpec;

    open spec fn view(&self) -> TokenSpec {
        match self {
            RouteToken::PATH(s) => TokenSpec::Path(s@),
            RouteToken::PARAMETER(s) => TokenSpec::Parameter(s@),
            RouteToken::WILDCARD => TokenSpec::Wildcard,
        }
    }
}

/// A method together with the ordered tokens its paths must match.
#[derive(Debug, PartialEq, Eq, PartialOrd, Ord)]
pub struct Route(pub Method, pub Vec<RouteToken>);

/// The token values of a token vector.
pub open spec fn token_specs(tokens: Seq<RouteToken>) -> Seq<TokenSpec> {
    tokens.map_values(|t: RouteToken| t@)
}

/// The segment values of a split request path.
pub open spec fn segments(path: Seq<&str>) -> Seq<Seq<char>> {
    path.map_values(|s: &str| s@)
}

/// A wildcard may only stand as the last token.
pub open spec fn wildcard_last(toks: Seq<TokenSpec>) -> bool {
    forall|i: int| 0 <= i < toks.len() - 1 ==> !(#[trigger] toks[i] is Wildcard)
}

impl Route {
    /// The token values of this route.
    pub open spec fn tokens(&self) -> Seq<TokenSpec> {
        token_specs(self.1@)
    }

    /// The route keeps any wildcard in last position.
    pub open spec fn wf(&self) -> bool {
        wildcard_last(self.tokens())
    }

    pub fn new(method: Method, tokens: Vec<RouteToken>) -> (r: Self)
        ensures
            r.0 == method,
            r.1 == tokens,
    {
        Route(method, tokens)
    }

    /// Whether any wildcard of this route stands last.
    pub fn is_well_formed(&self) -> (r: bool)
        ensures
            r == self.wf(),
    {
        let n = self.1.len();
        let mut i: usize = 0;
        while n > 0 && i < n - 1
            invariant
                n == self.1@.len(),
                0 <= i <= n,
                forall|j: int| 0 <= j < i ==> !(#[trigger] self.tokens()[j] is Wildcard),
            decreases n - i,
        {
            if let RouteToken::WILDCARD = &self.1[i] {
                assert(self.tokens()[i as int] is Wildcard);
                return false;
            }
            i = i + 1;
        }
        true
    }
}

/// The number of tokens among the first `n` that are not wildcards.
pub open spec fn required_count(toks: Seq<TokenSpec>, n: int) -> int
    decreases n,
{
    if n <= 0 {
        0
    } else {
        required_count(toks, n - 1) + if toks[n - 1] is Wildcard {
            0int
        } else {
            1int
        }
    }
}

/// Over the first `n` tokens: the literal matches, the parameter matches, and
/// the wildcard score, where a wildcard at index `i` scores
/// `path_len + 1 - i`.
pub open spec fn counts(toks: Seq<TokenSpec>, path_len: int, n: int) -> (int, int, int)
    decreases n,
{
    if n <= 0 {
        (0, 0, 0)
    } else {
        let (p, q, w) = counts(toks, path_len, n - 1);
        match toks[n - 1] {
            TokenSpec::Path(_) => (p + 1, q, w),
            TokenSpec::Parameter(_) => (p, q + 1, w),
            TokenSpec::Wildcard => (p, q, w + path_len + 1 - (n - 1)),
        }
    }
}

/// Every literal token equals the path segment at its index.
pub open spec fn literals_match(toks: Seq<TokenSpec>, path: Seq<Seq<char>>) -> bool {
    forall|i: int|
        0 <= i < toks.len() ==> (#[trigger] toks[i] matches TokenSpec::Path(lit) ==> i < path.len()
            && lit == path[i])
}

/// The score of a route against a request, or `None` when it cannot serve it.
pub open spec fn candidate(method: Method, path: Seq<Seq<char>>, route: Route) -> Option<
    (int, int, int),
> {
    let toks = route.tokens();
    let (p, q, w) = counts(toks, path.len() as int, toks.len() as int);
    if route.0 != method {
        None
    } else if path.len() < required_count(toks, toks.len() as int) {
        None
    } else if !literals_match(toks, path) {
        None
    } else if (path.len() > p + q && w == 0) || (p == 0 && q == 0 && w == 0) {
        None
    } else {
        Some((p, q, w))
    }
}

/// A score `s` strictly improves on the best score `b` found so far.
pub open spec fn improves(s: (int, int, int), b: (int, int, int)) -> bool {
    ||| s.0 > b.0
    ||| (s.0 == b.0 && s.1 > b.1)
    ||| (s.0 == b.0 && s.1 == b.1 && s.2 < b.2)
    ||| (s.0 == 0 && b.0 == 0 && s.1 == 0 && b.1 == 0 && s.2 > b.2)
}

/// The score that a new candidate has to improve on.
pub open spec fn best_score(best: Option<(int, (int, int, int))>) -> (int, int, int) {
    match best {
        Some((_, s)) => s,
        None => (0, 0, 0),
    }
}

/// The index and score of the route chosen among `routes`: scanning in
/// order, a candidate replaces the best so far only when it strictly
/// improves on it.
pub open spec fn select(method: Method, path: Seq<Seq<char>>, routes: Seq<Route>) -> Option<
    (int, (int, int, int)),
>
    decreases routes.len(),
{
    if routes.len() == 0 {
        None
    } else {
        let prev = select(method, path, routes.drop_last());
        match candidate(method, path, routes.last()) {
            Some(s) => if improves(s, best_score(prev)) {
                Some((routes.len() - 1, s))
            } else {
                prev
            },
            None => prev,
        }
    }
}

/// The chosen route is a candidate, and its score is its own.
pub proof fn lemma_select_is_candidate(method: Method, path: Seq<Seq<char>>, routes: Seq<Route>)
    ensures
        select(method, path, routes) matches Some((i, s)) ==> 0 <= i < routes.len() && candidate(
            method,
            path,
            routes[i],
        ) == Some(s),
    decreases routes.len(),
{
    if routes.len() > 0 {
        lemma_select_is_candidate(method, path, routes.drop_last());
        if let Some((i, s)) = select(method, path, routes) {
            if i < routes.len() - 1 {
                assert(routes.drop_last()[i] == routes[i]);
            }
        }
    }
}

/// The routes of `method` keep any wildcard last.
pub open spec fn method_wf(routes: Seq<Route>, method: Method) -> bool {
    forall|i: int| 0 <= i < routes.len() && (#[trigger] routes[i]).0 == method ==> routes[i].wf()
}

/// All routes keep any wildcard last.
pub open spec fn all_wf(routes: Seq<Route>) -> bool {
    forall|i: int| 0 <= i < routes.len() ==> (#[trigger] routes[i]).wf()
}

pub(crate) proof fn lemma_required_monotone(toks: Seq<TokenSpec>, a: int, b: int)
    requires
        a <= b,
    ensures
        required_count(toks, a) <= required_count(toks, b),
    decreases b - a,
{
    if a < b {
        lemma_required_monotone(toks, a, b - 1);
    }
}

pub(crate) proof fn lemma_required_prefix(toks: Seq<TokenSpec>, n: int)
    requires
        0 <= n <= toks.len(),
        forall|j: int| 0 <= j < n ==> !(#[trigger] toks[j] is Wildcard),
    ensures
        required_count(toks, n) == n,
    decreases n,
{
    if n > 0 {
        lemma_required_prefix(toks, n - 1);
    }
}

/// A token other than a wildcard stands at an index below the required count.
pub(crate) proof fn lemma_token_in_range(toks: Seq<TokenSpec>, i: int)
    requires
        wildcard_last(toks),
        0 <= i < toks.len(),
        !(toks[i] is Wildcard),
    ensures
        i < required_count(toks, toks.len() as int),
{
    assert forall|j: int| 0 <= j < i + 1 implies !(#[trigger] toks[j] is Wildcard) by {
        if j < i {
            assert(j < toks.len() - 1);
        }
    }
    lemma_required_prefix(toks, i + 1);
    lemma_required_monotone(toks, i + 1, toks.len() as int);
}

/// The score of one route, or `None` where it cannot serve the request.
fn route_score(method: Method, path: &Vec<&str>, route: &Route) -> (r: Option<(usize, usize, usize)>)
    requires
        route.0 == method ==> route.wf(),
        path@.len() < usize::MAX,
    ensures
        match r {
            None => candidate(method, segments(path@), *route) is None,
            Some((p, q, w)) => candidate(method, segments(path@), *route) == Some(
                (p as int, q as int, w as int),
            ),
        },
{
    let ghost toks = route.tokens();
    let ghost segs = segments(path@);
    if route.0 != method {
        return None;
    }
    let n = route.1.len();
    let mut required: usize = 0;
    let mut i: usize = 0;
    while i < n
        invariant
            n == route.1@.len(),
            toks == route.tokens(),
            0 <= i <= n,
            required == required_count(toks, i as int),
            required <= i,
        decreases n - i,
    {
        if let RouteToken::WILDCARD = &route.1[i] {
        } else {
            required = required + 1;
        }
        i = i + 1;
    }
    if path.len() < required {
        return None;
    }
    let mut p: usize = 0;
    let mut q: usize = 0;
    let mut w: usize = 0;
    let mut i: usize = 0;
    while i < n
        invariant
            n == route.1@.len(),
            toks == route.tokens(),
            segs == segments(path@),
            route.wf(),
            path@.len() < usize::MAX,
            required == required_count(toks, n as int),
            required <= path@.len(),
            0 <= i <= n,
            (p as int, q as int, w as int) == counts(toks, path@.len() as int, i as int),
            p + q <= i,
            i < n ==> w == 0,
            w <= path@.len() + 1,
            forall|j: int|
                0 <= j < i ==> (#[trigger] toks[j] matches TokenSpec::Path(lit) ==> j < segs.len()
                    && lit == segs[j]),
        decreases n - i,
    {
        match &route.1[i] {
            RouteToken::PATH(lit) => {
                proof {
                    lemma_token_in_range(toks, i as int);
                }
                if str_eq(lit.as_str(), path[i]) {
                    p = p + 1;
                } else {
                    assert(!literals_match(toks, segs)) by {
                        assert(toks[i as int] matches TokenSpec::Path(l) && l != segs[i as int]);
                    }
                    return None;
                }
            },
            RouteToken::PARAMETER(_) => {
                q = q + 1;
            },
            RouteToken::WILDCARD => {
                assert(i == n - 1);
                proof {
                    assert forall|j: int| 0 <= j < i implies !(#[trigger] toks[j] is Wildcard) by {
                        assert(j < toks.len() - 1);
                    }
                    lemma_required_prefix(toks, i as int);
                    lemma_required_monotone(toks, i as int, n as int);
                }
                w = w + (path.len() + 1 - i);
            },
        }
        i = i + 1;
    }
    assert(literals_match(toks, segs));
    if (path.len() > p + q && w == 0) || (p == 0 && q == 0 && w == 0) {
        return None;
    }
    Some((p, q, w))
}

/// `r` is what the matcher owes for `method` on `path` over `routes`: the
/// chosen route, with its literal, parameter and wildcard counts.
pub open spec fn match_outcome(
    method: Method,
    path: Seq<&str>,
    routes: Seq<Route>,
    r: Option<(&Route, usize, usize, usize)>,
) -> bool {
    match select(method, segments(path), routes) {
        None => r is None,
        Some((i, s)) => r matches Some((route, p, q, w)) && *route == routes[i] && s == (
            p as int,
            q as int,
            w as int,
        ),
    }
}

/// The index and scores of the route that serves `method` on `path`.
pub(crate) fn best_route(method: Method, path: &Vec<&str>, routes: &[Route]) -> (r: Option<
    (usize, usize, usize, usize),
>)
    requires
        method_wf(routes@, method),
        path@.len() < usize::MAX,
    ensures
        match select(method, segments(path@), routes@) {
            None => r is None,
            Some((i, s)) => r matches Some((j, p, q, w)) && j == i && i < routes@.len() && s == (
                p as int,
                q as int,
                w as int,
            ),
        },
{
    let mut best: Option<usize> = None;
    let mut bp: usize = 0;
    let mut bq: usize = 0;
    let mut bw: usize = 0;
    let n = routes.len();
    let mut k: usize = 0;
    while k < n
        invariant
            n == routes@.len(),
            method_wf(routes@, method),
            path@.len() < usize::MAX,
            0 <= k <= n,
            match select(method, segments(path@), routes@.take(k as int)) {
                None => best is None && bp == 0 && bq == 0 && bw == 0,
                Some((i, s)) => best == Some(i as usize) && 0 <= i < k && s == (
                    bp as int,
                    bq as int,
                    bw as int,
                ),
            },
        decreases n - k,
    {
        let ghost prefix = routes@.take(k as int);
        assert(routes@.take(k + 1).drop_last() == prefix);
        assert(routes@.take(k + 1).last() == routes@[k as int]);
        match route_score(method, path, &routes[k]) {
            Some((p, q, w)) => {
                if p > bp || (p == bp && q > bq) || (p == bp && q == bq && w < bw) || (p == 0 && bp
                    == 0 && q == 0 && bq == 0 && w > bw) {
                    best = Some(k);
                    bp = p;
                    bq = q;
                    bw = w;
                }
            },
            None => {},
        }
        k = k + 1;
    }
    assert(routes@.take(n as int) == routes@);
    match best {
        Some(i) => Some((i, bp, bq, bw)),
        None => None,
    }
}

/// Picks the route that serves `method` on the split request `path` (the
/// request path with leading and trailing `/` removed, split on `/`).
///
/// Among the routes of that method which can serve the path, a route with
/// more literal matches wins; then one with more parameter matches; then
/// one with a smaller wildcard score; and among routes with neither literal
/// nor parameter matches, the larger wildcard score wins. On a tie the
/// earlier route stays. The result carries the route and its literal,
/// parameter and wildcard counts.
pub fn match_route<'a>(method: Method, path: Vec<&str>, routes: &'a [Route]) -> (r: Option<
    (&'a Route, usize, usize, usize),
>)
    requires
        method_wf(routes@, method),
        path@.len() < usize::MAX,
    ensures
        match_outcome(method, path@, routes@, r),
{
    match best_route(method, &path, routes) {
        Some((i, p, q, w)) => Some((&routes[i], p, q, w)),
        None => None,
    }
}

} // verus!
