//! What the route selection guarantees: exact literal routes win, more
//! literal matches win, a catch-all wildcard serves what nothing else does,
//! and the choice is a function of the request and the table.

use vstd::prelude::*;
use crate::method::Method;
use crate::router::{resolve_outcome, Params, Router};
use crate::route::{
    method_wf, best_score, candidate, counts, improves, lemma_select_is_candidate, literals_match,
    lemma_required_monotone, lemma_required_prefix, match_outcome, required_count, select, Route,
    TokenSpec,
};

verus! {

/// The literal and parameter matches together are the tokens that are not
/// wildcards.
proof fn lemma_counts_required(toks: Seq<TokenSpec>, len: int, n: int)
    requires
        0 <= n <= toks.len(),
    ensures
        counts(toks, len, n).0 + counts(toks, len, n).1 == required_count(toks, n),
        counts(toks, len, n).0 >= 0 && counts(toks, len, n).1 >= 0,
        counts(toks, len, n).1 == 0 ==> forall|t: int| 0 <= t < n ==> !(#[trigger] toks[t] is Parameter),
    decreases n,
{
    if n > 0 {
        lemma_counts_required(toks, len, n - 1);
    }
}

/// With no wildcard among the first `n` tokens the wildcard score is zero,
/// and a wildcard at index `t <= len` scores at least one.
proof fn lemma_counts_wildcard(toks: Seq<TokenSpec>, len: int, n: int)
    requires
        0 <= n <= toks.len(),
        forall|t: int| 0 <= t < n && #[trigger] toks[t] is Wildcard ==> t <= len,
    ensures
        counts(toks, len, n).2 >= 0,
        counts(toks, len, n).2 == 0 ==> forall|t: int| 0 <= t < n ==> !(#[trigger] toks[t] is Wildcard),
    decreases n,
{
    if n > 0 {
        lemma_counts_wildcard(toks, len, n - 1);
    }
}

/// A candidate has no more literal and parameter matches than segments,
/// and no score below zero.
proof fn lemma_candidate_bound(method: Method, path: Seq<Seq<char>>, route: Route)
    requires
        route.0 == method ==> route.wf(),
        candidate(method, path, route) is Some,
    ensures
        candidate(method, path, route) matches Some((p, q, w)) && p + q <= path.len() && p >= 0
            && q >= 0 && w >= 0,
{
    let toks = route.tokens();
    let n = toks.len() as int;
    let len = path.len() as int;
    lemma_counts_required(toks, len, n);
    assert forall|t: int| 0 <= t < n && #[trigger] toks[t] is Wildcard implies t <= len by {
        assert forall|j: int| 0 <= j < t implies !(#[trigger] toks[j] is Wildcard) by {
            assert(j < toks.len() - 1);
        }
        lemma_required_prefix(toks, t);
        lemma_required_monotone(toks, t, n);
    }
    lemma_counts_wildcard(toks, len, n);
}

/// Every literal names the segment at its index, and the lengths agree.
pub open spec fn literal_route(toks: Seq<TokenSpec>, path: Seq<Seq<char>>) -> bool {
    toks.len() == path.len() && forall|j: int| 0 <= j < toks.len() ==> #[trigger] toks[j]
        == TokenSpec::Path(path[j])
}

/// A candidate that matches every segment literally, with no parameter and
/// no wildcard, is a literal route of the path.
proof fn lemma_full_literal_candidate(method: Method, path: Seq<Seq<char>>, route: Route)
    requires
        route.0 == method ==> route.wf(),
        candidate(method, path, route) == Some((path.len() as int, 0int, 0int)),
    ensures
        literal_route(route.tokens(), path),
{
    let toks = route.tokens();
    let n = toks.len() as int;
    let len = path.len() as int;
    lemma_counts_required(toks, len, n);
    assert forall|t: int| 0 <= t < n && #[trigger] toks[t] is Wildcard implies t <= len by {
        assert forall|j: int| 0 <= j < t implies !(#[trigger] toks[j] is Wildcard) by {
            assert(j < toks.len() - 1);
        }
        lemma_required_prefix(toks, t);
        lemma_required_monotone(toks, t, n);
    }
    lemma_counts_wildcard(toks, len, n);
    lemma_required_prefix(toks, n);
    assert forall|j: int| 0 <= j < n implies #[trigger] toks[j] == TokenSpec::Path(path[j]) by {
        assert(!(toks[j] is Parameter));
        assert(!(toks[j] is Wildcard));
        assert(literals_match(toks, path));
    }
}

/// A route made only of the path's segments, as literals, is a candidate
/// with every segment matched literally.
proof fn lemma_literal_candidate(method: Method, path: Seq<Seq<char>>, route: Route)
    requires
        route.0 == method,
        path.len() >= 1,
        literal_route(route.tokens(), path),
    ensures
        candidate(method, path, route) == Some((path.len() as int, 0int, 0int)),
{
    let toks = route.tokens();
    let len = path.len() as int;
    lemma_literal_counts(toks, path, toks.len() as int);
    assert forall|i: int| 0 <= i < toks.len() implies (#[trigger] toks[i] matches TokenSpec::Path(
        lit,
    ) ==> i < path.len() && lit == path[i]) by {
        assert(toks[i] == TokenSpec::Path(path[i]));
    }
    assert(literals_match(toks, path));
}

proof fn lemma_literal_counts(toks: Seq<TokenSpec>, path: Seq<Seq<char>>, n: int)
    requires
        literal_route(toks, path),
        0 <= n <= toks.len(),
    ensures
        counts(toks, path.len() as int, n) == (n, 0int, 0int),
        required_count(toks, n) == n,
    decreases n,
{
    if n > 0 {
        lemma_literal_counts(toks, path, n - 1);
        assert(toks[n - 1] == TokenSpec::Path(path[n - 1]));
    }
}

/// Among routes of only literal segments: when one of them spells the path
/// segment for segment, the chosen route spells the path too, with every
/// segment matched literally. A route with a parameter or a wildcard is
/// never chosen over it.
pub proof fn lemma_literal_route_wins(
    method: Method,
    path: Seq<Seq<char>>,
    routes: Seq<Route>,
    i: int,
)
    requires
        method_wf(routes, method),
        0 <= i < routes.len(),
        routes[i].0 == method,
        path.len() >= 1,
        literal_route(routes[i].tokens(), path),
    ensures
        select(method, path, routes) matches Some((k, s)) && s == (path.len() as int, 0int, 0int)
            && literal_route(routes[k].tokens(), path),
    decreases routes.len(),
{
    let len = path.len() as int;
    let q = routes.drop_last();
    lemma_literal_candidate(method, path, routes[i]);
    assert forall|t: int| 0 <= t < q.len() implies (#[trigger] q[t]).0 == method ==> q[t].wf() by {
        assert(q[t] == routes[t]);
    }
    assert(routes.last() == routes[routes.len() - 1]);
    assert(routes.last().0 == method ==> routes.last().wf());
    if i < routes.len() - 1 {
        assert(q[i] == routes[i]);
        lemma_literal_route_wins(method, path, q, i);
        let prev = select(method, path, q);
        if let Some(c) = candidate(method, path, routes.last()) {
            lemma_candidate_bound(method, path, routes.last());
            assert(!improves(c, best_score(prev)));
        }
        assert(select(method, path, routes) == prev);
    } else {
        lemma_select_is_candidate(method, path, q);
        let prev = select(method, path, q);
        if let Some((k, s)) = prev {
            assert(q[k] == routes[k]);
            lemma_candidate_bound(method, path, q[k]);
            if s == (len, 0int, 0int) {
                lemma_full_literal_candidate(method, path, q[k]);
            }
        }
        assert(routes.last() == routes[i]);
    }
    lemma_select_is_candidate(method, path, routes);
    let (k, s) = select(method, path, routes)->0;
    assert(routes[k].0 == method ==> routes[k].wf());
    lemma_full_literal_candidate(method, path, routes[k]);
}

/// The chosen route has at least as many literal matches as any route that
/// could serve the request; in particular something is chosen whenever some
/// route could serve it.
pub proof fn lemma_most_literals_win(method: Method, path: Seq<Seq<char>>, routes: Seq<Route>, j: int)
    requires
        method_wf(routes, method),
        0 <= j < routes.len(),
        candidate(method, path, routes[j]) is Some,
    ensures
        select(method, path, routes) matches Some((k, s)) && candidate(
            method,
            path,
            routes[j],
        ) matches Some(c) && s.0 >= c.0,
    decreases routes.len(),
{
    let q = routes.drop_last();
    assert forall|t: int| 0 <= t < q.len() implies (#[trigger] q[t]).0 == method ==> q[t].wf() by {
        assert(q[t] == routes[t]);
    }
    assert(routes.last() == routes[routes.len() - 1]);
    lemma_select_is_candidate(method, path, q);
    lemma_candidate_bound(method, path, routes[j]);
    if let Some((k, s)) = select(method, path, q) {
        assert(q[k] == routes[k]);
        lemma_candidate_bound(method, path, q[k]);
    }
    if j < routes.len() - 1 {
        assert(q[j] == routes[j]);
        lemma_most_literals_win(method, path, q, j);
    }
    assert(routes.last() == routes[routes.len() - 1]);
    if let Some(c) = candidate(method, path, routes.last()) {
        lemma_candidate_bound(method, path, routes.last());
    }
}

/// A bare wildcard route of the request's method always leads to a choice;
/// when no other route could serve the request, the wildcard is chosen.
pub proof fn lemma_wildcard_catches_all(
    method: Method,
    path: Seq<Seq<char>>,
    routes: Seq<Route>,
    i: int,
)
    requires
        method_wf(routes, method),
        0 <= i < routes.len(),
        routes[i].0 == method,
        routes[i].tokens() == seq![TokenSpec::Wildcard],
    ensures
        select(method, path, routes) is Some,
        (forall|k: int| 0 <= k < routes.len() && k != i ==> candidate(method, path, #[trigger] routes[k]) is None)
            ==> select(method, path, routes) == Some((i, (0int, 0int, path.len() + 1int))),
{
    let toks = routes[i].tokens();
    assert(toks.len() == 1 && toks[0] is Wildcard);
    assert(counts(toks, path.len() as int, 0) == (0int, 0int, 0int));
    assert(required_count(toks, 0) == 0);
    assert(counts(toks, path.len() as int, 1) == (0int, 0int, path.len() + 1int));
    assert(required_count(toks, 1) == 0);
    assert(candidate(method, path, routes[i]) == Some((0int, 0int, path.len() + 1int)));
    lemma_most_literals_win(method, path, routes, i);
    if forall|k: int| 0 <= k < routes.len() && k != i ==> candidate(method, path, #[trigger] routes[k]) is None {
        lemma_only_candidate(method, path, routes, i);
    }
}

proof fn lemma_only_candidate(method: Method, path: Seq<Seq<char>>, routes: Seq<Route>, i: int)
    requires
        method_wf(routes, method),
        0 <= i < routes.len(),
        candidate(method, path, routes[i]) is Some,
        forall|k: int| 0 <= k < routes.len() && k != i ==> candidate(method, path, #[trigger] routes[k]) is None,
    ensures
        select(method, path, routes) == Some((i, candidate(method, path, routes[i])->0)),
    decreases routes.len(),
{
    let q = routes.drop_last();
    assert(routes.last() == routes[routes.len() - 1]);
    if i < routes.len() - 1 {
        assert(q[i] == routes[i]);
        assert forall|k: int| 0 <= k < q.len() && k != i implies candidate(method, path, #[trigger] q[k]) is None by {
            assert(q[k] == routes[k]);
        }
        assert forall|t: int| 0 <= t < q.len() implies (#[trigger] q[t]).0 == method ==> q[t].wf() by {
            assert(q[t] == routes[t]);
        }
        lemma_only_candidate(method, path, q, i);
    } else {
        lemma_none_selected(method, path, q);
        lemma_candidate_bound(method, path, routes[i]);
    }
}

proof fn lemma_none_selected(method: Method, path: Seq<Seq<char>>, routes: Seq<Route>)
    requires
        forall|k: int| 0 <= k < routes.len() ==> candidate(method, path, #[trigger] routes[k]) is None,
    ensures
        select(method, path, routes) is None,
    decreases routes.len(),
{
    if routes.len() > 0 {
        let q = routes.drop_last();
        assert forall|k: int| 0 <= k < q.len() implies candidate(method, path, #[trigger] q[k]) is None by {
            assert(q[k] == routes[k]);
        }
        lemma_none_selected(method, path, q);
        assert(routes.last() == routes[routes.len() - 1]);
    }
}

/// Matching the same request against the same table twice gives the same
/// route and counts.
pub proof fn lemma_match_idempotent(
    method: Method,
    path: Seq<&str>,
    routes: Seq<Route>,
    r1: Option<(&Route, usize, usize, usize)>,
    r2: Option<(&Route, usize, usize, usize)>,
)
    requires
        match_outcome(method, path, routes, r1),
        match_outcome(method, path, routes, r2),
    ensures
        r1 == r2,
{
}

/// Resolving the same request against the same table twice gives the same
/// handler and the same parameter bindings.
pub proof fn lemma_resolve_idempotent<H>(
    router: &Router<H>,
    method: Method,
    path: Seq<char>,
    r1: Option<(&H, Params)>,
    r2: Option<(&H, Params)>,
)
    requires
        resolve_outcome(router, method, path, r1),
        resolve_outcome(router, method, path, r2),
    ensures
        r1 is None <==> r2 is None,
        r1 matches Some((h1, ps1)) ==> r2 matches Some((h2, ps2)) && h1 == h2 && ps1@ == ps2@,
{
}

} // verus!
