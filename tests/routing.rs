use bingus_http::method::Method;
use bingus_http::pattern::RouteError;
use bingus_http::route::{match_route, Route, RouteToken};
use bingus_http::router::{Params, Router};

fn lit(s: &str) -> RouteToken {
    RouteToken::PATH(s.to_string())
}

fn param(s: &str) -> RouteToken {
    RouteToken::PARAMETER(s.to_string())
}

fn get(tokens: Vec<RouteToken>) -> Route {
    Route(Method::GET, tokens)
}

fn m<'a>(path: &str, routes: &'a [Route]) -> Option<&'a Route> {
    match match_route(
        Method::GET,
        path.trim_matches('/').split('/').collect::<Vec<&str>>(),
        routes,
    ) {
        Some(some) => Some(some.0),
        None => None,
    }
}

#[test]
fn sanity_check() {
    let get_slash = get(vec![lit("")]);
    assert!(m("/", &[get_slash]).is_some());
}

#[test]
fn route_matching() {
    let routes = [
        get(vec![lit("")]),
        get(vec![lit("hello")]),
        get(vec![lit("hi")]),
        get(vec![lit("var")]),
        get(vec![lit("hello"), lit("hi")]),
        get(vec![lit("hello"), param("var")]),
        get(vec![param("var"), lit("hi")]),
        get(vec![param("var1"), param("var2")]),
        get(vec![lit("hello"), lit("hi"), RouteToken::WILDCARD]),
        get(vec![lit("hello"), param("var"), RouteToken::WILDCARD]),
        get(vec![RouteToken::WILDCARD]),
    ];

    assert_eq!(m("/", &routes), Some(&routes[0]));
    assert_eq!(m("/hello", &routes), Some(&routes[1]));
    assert_eq!(m("/hi", &routes), Some(&routes[2]));
    // routes[3] is the literal `var`, which `foo` does not match; the
    // catch-all serves it.
    assert_eq!(m("/foo", &routes), Some(&routes[10]));
    assert_eq!(m("/hello/hi", &routes), Some(&routes[4]));
    assert_eq!(m("/hello/foo", &routes), Some(&routes[5]));
    assert_eq!(m("/foo/hi", &routes), Some(&routes[6]));
    assert_eq!(m("/foo/bar", &routes), Some(&routes[7]));
    assert_eq!(m("/hello/hi/foo", &routes), Some(&routes[8]));
    assert_eq!(m("/hello/foo/bar", &routes), Some(&routes[9]));
    assert_eq!(m("/foo/bar/baz", &routes), Some(&routes[10]));
}

#[test]
fn parameter_route_matches_any_segment() {
    let routes = [
        get(vec![lit("")]),
        get(vec![lit("hello")]),
        get(vec![param("var")]),
        get(vec![RouteToken::WILDCARD]),
    ];
    assert_eq!(m("/foo", &routes), Some(&routes[2]));
    assert_eq!(m("/hello", &routes), Some(&routes[1]));
    assert_eq!(m("/", &routes), Some(&routes[0]));
    assert_eq!(m("/foo/bar", &routes), Some(&routes[3]));
}

#[test]
fn match_reports_counts() {
    let routes = [get(vec![lit("hello"), param("var"), RouteToken::WILDCARD])];
    let r = match_route(Method::GET, vec!["hello", "foo", "bar", "baz"], &routes);
    // literal 1, parameter 1, wildcard at index 2 of 4 segments: 4 + 1 - 2
    assert_eq!(r.map(|x| (x.1, x.2, x.3)), Some((1, 1, 3)));
}

#[test]
fn other_method_does_not_match() {
    let routes = [Route(Method::POST, vec![lit("hello")])];
    assert!(m("/hello", &routes).is_none());
}

#[test]
fn literal_route_beats_parameter_registered_first() {
    let routes = [get(vec![param("x")]), get(vec![RouteToken::WILDCARD]), get(vec![lit("a")])];
    assert_eq!(m("/a", &routes), Some(&routes[2]));
}

#[test]
fn bare_wildcard_catches_unmatched_paths() {
    let routes = [get(vec![lit("a")]), get(vec![RouteToken::WILDCARD])];
    assert_eq!(m("/x/y/z", &routes), Some(&routes[1]));
    assert_eq!(m("/", &routes), Some(&routes[1]));
    assert_eq!(m("/a", &routes), Some(&routes[0]));
}

#[test]
fn earlier_route_wins_a_tie() {
    let routes = [get(vec![param("a")]), get(vec![param("b")])];
    assert_eq!(m("/x", &routes), Some(&routes[0]));
}

#[test]
fn no_route_gives_none() {
    let routes = [get(vec![lit("a"), lit("b")])];
    assert!(m("/a", &routes).is_none());
    assert!(m("/a/c", &routes).is_none());
}

#[test]
fn matching_twice_gives_the_same_result() {
    let routes = [get(vec![param("v")]), get(vec![lit("hello"), RouteToken::WILDCARD])];
    let first = match_route(Method::GET, vec!["hello", "x"], &routes);
    let second = match_route(Method::GET, vec!["hello", "x"], &routes);
    assert_eq!(first, second);
    assert_eq!(first.map(|x| x.0), Some(&routes[1]));
}

#[test]
fn parse_root_and_empty_patterns() {
    let root = Route::parse(Method::GET, "/").unwrap();
    assert_eq!(root, get(vec![lit("")]));
    let empty = Route::parse(Method::GET, "").unwrap();
    assert_eq!(empty, get(vec![lit("")]));
}

#[test]
fn parse_mixed_pattern() {
    let r = Route::parse(Method::GET, "/hello/:var/*").unwrap();
    assert_eq!(r, get(vec![lit("hello"), param("var"), RouteToken::WILDCARD]));
    assert!(r.is_well_formed());
}

#[test]
fn parse_rejects_wildcard_not_last() {
    assert!(matches!(
        Route::parse(Method::GET, "/*/hello"),
        Err(RouteError::WildcardNotLast)
    ));
}

#[test]
fn parse_rejects_duplicate_parameter() {
    match Route::parse(Method::GET, "/:a/:a") {
        Err(RouteError::DuplicateParameter(name)) => assert_eq!(name, "a"),
        other => panic!("unexpected {:?}", other),
    }
}

#[test]
fn parse_rejects_bad_segments() {
    assert!(matches!(
        Route::parse(Method::GET, "hello"),
        Err(RouteError::MissingSlash)
    ));
    match Route::parse(Method::GET, "/a//b") {
        Err(RouteError::InvalidSegment(s)) => assert_eq!(s, ""),
        other => panic!("unexpected {:?}", other),
    }
    match Route::parse(Method::GET, "/:") {
        Err(RouteError::InvalidSegment(s)) => assert_eq!(s, ":"),
        other => panic!("unexpected {:?}", other),
    }
    match Route::parse(Method::GET, "/*x") {
        Err(RouteError::InvalidSegment(s)) => assert_eq!(s, "*x"),
        other => panic!("unexpected {:?}", other),
    }
    match Route::parse(Method::GET, "/:1") {
        Err(RouteError::InvalidSegment(s)) => assert_eq!(s, ":1"),
        other => panic!("unexpected {:?}", other),
    }
    assert_eq!(Route::parse(Method::GET, "/:_a1").unwrap(), get(vec![param("_a1")]));
    match Route::parse(Method::GET, "/:a-b") {
        Err(RouteError::InvalidSegment(s)) => assert_eq!(s, ":a-b"),
        other => panic!("unexpected {:?}", other),
    }
}

#[test]
fn well_formedness_check() {
    assert!(!get(vec![RouteToken::WILDCARD, lit("a")]).is_well_formed());
    assert!(get(vec![lit("a"), RouteToken::WILDCARD]).is_well_formed());
    assert!(get(vec![]).is_well_formed());
}

#[test]
fn compile_then_match_binds_parameter() {
    let route = Route::parse(Method::GET, "/hello/:var/*").unwrap();
    let routes = [route];
    let path = vec!["hello", "foo", "bar", "baz"];
    let found = match_route(Method::GET, path.clone(), &routes).unwrap();
    let params = found.0.params(&path);
    assert_eq!(params.get("var").map(|s| s.as_str()), Some("foo"));
}

fn table() -> Router<u32> {
    let mut router = Router::new();
    router.add(Route::parse(Method::GET, "/").unwrap(), 0);
    router.add(Route::parse(Method::GET, "/hello").unwrap(), 1);
    router.add(Route::parse(Method::GET, "/:var").unwrap(), 2);
    router.add(Route::parse(Method::GET, "/hello/:var/*").unwrap(), 3);
    router
}

#[test]
fn end_to_end_resolution() {
    let router = table();

    let (h, p) = router.resolve(Method::GET, "/").unwrap();
    assert_eq!(*h, 0);
    assert!(p.is_empty());

    let (h, p) = router.resolve(Method::GET, "/hello").unwrap();
    assert_eq!(*h, 1);
    assert!(p.is_empty());

    let (h, p) = router.resolve(Method::GET, "/anything").unwrap();
    assert_eq!(*h, 2);
    assert_eq!(p.get("var").map(|s| s.as_str()), Some("anything"));

    let (h, p) = router.resolve(Method::GET, "/hello/x/y/z").unwrap();
    assert_eq!(*h, 3);
    assert_eq!(p.get("var").map(|s| s.as_str()), Some("x"));
}

#[test]
fn resolve_without_route() {
    let router = table();
    assert!(router.resolve(Method::POST, "/hello").is_none());
    assert!(router.resolve(Method::GET, "/a/b").is_none());
}

#[test]
fn re_adding_a_route_replaces_its_handler() {
    let mut router = table();
    router.add(Route::parse(Method::GET, "/hello").unwrap(), 9);
    let (h, _) = router.resolve(Method::GET, "/hello/").unwrap();
    assert_eq!(*h, 9);
    let (h, _) = router.resolve(Method::GET, "/other").unwrap();
    assert_eq!(*h, 2);
}

#[test]
fn params_later_binding_wins() {
    let mut p = Params::new();
    assert!(p.is_empty());
    p.insert("a".to_string(), "1".to_string());
    p.insert("b".to_string(), "2".to_string());
    p.insert("a".to_string(), "3".to_string());
    assert_eq!(p.get("a").map(|s| s.as_str()), Some("3"));
    assert_eq!(p.get("b").map(|s| s.as_str()), Some("2"));
    assert!(p.get("c").is_none());
    assert!(!p.is_empty());
}
