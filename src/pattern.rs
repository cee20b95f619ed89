//! The route pattern language: `/`-separated segments, each a literal, a
//! `:name` parameter, or a bare `*` wildcard that must come last.

use vstd::prelude::*;
use crate::method::Method;
use crate::route::{token_specs, wildcard_last, Route, RouteToken, TokenSpec};
use crate::text::{str_eq, char_views, chars_of, split_chars, split_on, string_of};
use vstd::slice::slice_subrange;

verus! {

/// Why a route pattern does not compile.
#[derive(Debug)]
pub enum RouteError {
    /// A non-empty pattern must start with `/`.
    MissingSlash,
    /// The segment is neither a literal, a `:name` parameter, nor `*`.
    InvalidSegment(String),
    /// A segment follows the wildcard.
    WildcardNotLast,
    /// The parameter name is bound twice.
    DuplicateParameter(String),
}

/// The mathematical value of a route error.
pub enum RouteFault {
    MissingSlash,
    InvalidSegment(Seq<char>),
    WildcardNotLast,
    DuplicateParameter(Seq<char>),
}

impl View for RouteError {
    type V = RouteFault;

    open spec fn view(&self) -> RouteFault {
        match self {
            RouteError::MissingSlash => RouteFault::MissingSlash,
            RouteError::InvalidSegment(s) => RouteFault::InvalidSegment(s@),
            RouteError::WildcardNotLast => RouteFault::WildcardNotLast,
            RouteError::DuplicateParameter(s) => RouteFault::DuplicateParameter(s@),
        }
    }
}

pub open spec fn is_name_char(c: char) -> bool {
    ('a' <= c && c <= 'z') || ('A' <= c && c <= 'Z') || ('0' <= c && c <= '9') || c == '_'
}

/// A character that may start a parameter name.
pub open spec fn is_name_start(c: char) -> bool {
    ('a' <= c && c <= 'z') || ('A' <= c && c <= 'Z') || c == '_'
}

/// A parameter name: an identifier, that is an ASCII letter or underscore
/// followed by ASCII letters, digits or underscores.
pub open spec fn is_name(s: Seq<char>) -> bool {
    s.len() > 0 && is_name_start(s[0]) && forall|i: int| 0 <= i < s.len() ==> is_name_char(#[trigger] s[i])
}

/// The token that one segment stands for, or `None` for an invalid one.
pub open spec fn segment_token(seg: Seq<char>) -> Option<TokenSpec> {
    if seg == seq!['*'] {
        Some(TokenSpec::Wildcard)
    } else if seg.len() > 0 && seg[0] == ':' {
        if is_name(seg.drop_first()) {
            Some(TokenSpec::Parameter(seg.drop_first()))
        } else {
            None
        }
    } else if seg.len() > 0 && seg[0] != '*' {
        Some(TokenSpec::Path(seg))
    } else {
        None
    }
}

/// Some token binds the parameter `name`.
pub open spec fn binds(toks: Seq<TokenSpec>, name: Seq<char>) -> bool {
    exists|i: int| 0 <= i < toks.len() && toks[i] == TokenSpec::Parameter(name)
}

/// Compiles the segments in order; the first offending segment decides
/// the error.
pub open spec fn compile_segments(segs: Seq<Seq<char>>) -> Result<Seq<TokenSpec>, RouteFault>
    decreases segs.len(),
{
    if segs.len() == 0 {
        Ok(Seq::empty())
    } else {
        match compile_segments(segs.drop_last()) {
            Err(e) => Err(e),
            Ok(toks) => if toks.len() > 0 && toks.last() is Wildcard {
                Err(RouteFault::WildcardNotLast)
            } else {
                match segment_token(segs.last()) {
                    None => Err(RouteFault::InvalidSegment(segs.last())),
                    Some(t) => match t {
                        TokenSpec::Parameter(name) => if binds(toks, name) {
                            Err(RouteFault::DuplicateParameter(name))
                        } else {
                            Ok(toks.push(t))
                        },
                        _ => Ok(toks.push(t)),
                    },
                }
            },
        }
    }
}

/// The tokens of a pattern: an empty pattern and `/` both give one empty
/// literal, which matches the root path.
pub open spec fn compile_pattern(pat: Seq<char>) -> Result<Seq<TokenSpec>, RouteFault> {
    if pat.len() == 0 || pat == seq!['/'] {
        Ok(seq![TokenSpec::Path(Seq::empty())])
    } else if pat[0] != '/' {
        Err(RouteFault::MissingSlash)
    } else {
        compile_segments(split_on(pat.drop_first(), '/'))
    }
}

/// Parameter names are pairwise distinct.
pub open spec fn params_distinct(toks: Seq<TokenSpec>) -> bool {
    forall|i: int, j: int|
        0 <= i < j < toks.len() && #[trigger] toks[i] is Parameter && #[trigger] toks[j] is Parameter
            ==> toks[i]->Parameter_0 != toks[j]->Parameter_0
}

/// What compiles keeps its wildcard last and its parameter names distinct.
pub proof fn lemma_compiled_well_formed(segs: Seq<Seq<char>>)
    ensures
        compile_segments(segs) matches Ok(toks) ==> wildcard_last(toks) && params_distinct(toks),
    decreases segs.len(),
{
    if segs.len() > 0 {
        lemma_compiled_well_formed(segs.drop_last());
        if let Ok(toks) = compile_segments(segs.drop_last()) {
            if let Ok(all) = compile_segments(segs) {
                assert(all.drop_last() =~= toks);
                assert forall|i: int, j: int|
                    0 <= i < j < all.len() && #[trigger] all[i] is Parameter
                        && #[trigger] all[j] is Parameter implies all[i]->Parameter_0
                    != all[j]->Parameter_0 by {
                    if j == all.len() - 1 {
                        assert(toks[i] == all[i]);
                    } else {
                        assert(toks[i] == all[i] && toks[j] == all[j]);
                    }
                }
                assert forall|i: int| 0 <= i < all.len() - 1 implies !(#[trigger] all[i] is Wildcard) by {
                    if i < toks.len() - 1 {
                        assert(toks[i] == all[i]);
                    } else {
                        assert(toks[i] == all[i]);
                    }
                }
            }
        }
    }
}

fn name_chars_valid(s: &Vec<char>, from: usize) -> (r: bool)
    requires
        from <= s@.len(),
    ensures
        r == forall|i: int| from <= i < s@.len() ==> is_name_char(#[trigger] s@[i]),
{
    let mut i = from;
    while i < s.len()
        invariant
            from <= i <= s@.len(),
            forall|k: int| from <= k < i ==> is_name_char(#[trigger] s@[k]),
        decreases s@.len() - i,
    {
        let c = s[i];
        if !(('a' <= c && c <= 'z') || ('A' <= c && c <= 'Z') || ('0' <= c && c <= '9') || c
            == '_') {
            return false;
        }
        i = i + 1;
    }
    true
}

fn compile_segment(seg: &Vec<char>) -> (r: Option<RouteToken>)
    ensures
        match segment_token(seg@) {
            None => r is None,
            Some(t) => r matches Some(tok) && tok@ == t,
        },
{
    let n = seg.len();
    if n == 1 && seg[0] == '*' {
        assert(seg@ =~= seq!['*']);
        return Some(RouteToken::WILDCARD);
    }
    assert(seg@ != seq!['*']);
    if n > 0 && seg[0] == ':' {
        if n > 1 && (('a' <= seg[1] && seg[1] <= 'z') || ('A' <= seg[1] && seg[1] <= 'Z') || seg[1]
            == '_') && name_chars_valid(seg, 1) {
            let name = string_of(slice_subrange(seg.as_slice(), 1, n));
            assert(name@ =~= seg@.drop_first());
            assert forall|i: int| 0 <= i < seg@.drop_first().len() implies is_name_char(
                #[trigger] seg@.drop_first()[i],
            ) by {
                assert(seg@.drop_first()[i] == seg@[i + 1]);
            }
            return Some(RouteToken::PARAMETER(name));
        }
        proof {
            if n > 1 {
                assert(seg@.drop_first()[0] == seg@[1]);
                if is_name_start(seg@[1]) {
                    let k = choose|k: int| 1 <= k < n && !is_name_char(#[trigger] seg@[k]);
                    assert(seg@.drop_first()[k - 1] == seg@[k]);
                }
            }
        }
        return None;
    }
    if n > 0 && seg[0] != '*' {
        return Some(RouteToken::PATH(string_of(seg.as_slice())));
    }
    None
}

fn binds_exec(toks: &Vec<RouteToken>, name: &String) -> (r: bool)
    ensures
        r == binds(token_specs(toks@), name@),
{
    let ghost ts = token_specs(toks@);
    let mut i: usize = 0;
    while i < toks.len()
        invariant
            ts == token_specs(toks@),
            0 <= i <= toks@.len(),
            forall|k: int| 0 <= k < i ==> ts[k] != TokenSpec::Parameter(name@),
        decreases toks@.len() - i,
    {
        assert(ts[i as int] == toks@[i as int]@);
        if let RouteToken::PARAMETER(p) = &toks[i] {
            if str_eq(p.as_str(), name.as_str()) {
                assert(ts[i as int] == TokenSpec::Parameter(name@));
                return true;
            }
        }
        i = i + 1;
    }
    false
}

impl Route {
    /// Compiles `pattern` into a route for `method`: `/` (or the empty
    /// pattern) is the root, `/hello/:name/*` has a literal, a parameter and
    /// a wildcard.
    pub fn parse(method: Method, pattern: &str) -> (r: Result<Route, RouteError>)
        ensures
            match compile_pattern(pattern@) {
                Ok(toks) => r matches Ok(route) && route.0 == method && route.tokens() == toks,
                Err(f) => r matches Err(e) && e@ == f,
            },
            r matches Ok(route) ==> route.wf() && params_distinct(route.tokens()),
    {
        let pat = chars_of(pattern);
        let n = pat.len();
        if n == 0 || (n == 1 && pat[0] == '/') {
            assert(n == 1 ==> pat@ =~= seq!['/']);
            let mut toks: Vec<RouteToken> = Vec::new();
            toks.push(RouteToken::PATH(String::new()));
            let route = Route(method, toks);
            assert(route.tokens() =~= seq![TokenSpec::Path(Seq::empty())]);
            return Ok(route);
        }
        assert(pat@ != seq!['/']);
        if pat[0] != '/' {
            return Err(RouteError::MissingSlash);
        }
        let segs = split_chars(slice_subrange(pat.as_slice(), 1, n), '/');
        let ghost gsegs = split_on(pat@.drop_first(), '/');
        assert(pat@.subrange(1, n as int) =~= pat@.drop_first());
        let mut toks: Vec<RouteToken> = Vec::new();
        let mut k: usize = 0;
        assert(gsegs.take(0) =~= Seq::<Seq<char>>::empty());
        assert(compile_pattern(pattern@) == compile_segments(gsegs));
        assert(token_specs(toks@) =~= Seq::<TokenSpec>::empty());
        while k < segs.len()
            invariant
                char_views(segs@) == gsegs,
                compile_pattern(pattern@) == compile_segments(gsegs),
                0 <= k <= segs@.len(),
                compile_segments(gsegs.take(k as int)) == Ok::<Seq<TokenSpec>, RouteFault>(
                    token_specs(toks@),
                ),
            decreases segs@.len() - k,
        {
            assert(gsegs.take(k + 1).drop_last() =~= gsegs.take(k as int));
            assert(gsegs.take(k + 1).last() == segs@[k as int]@);
            let ghost before = token_specs(toks@);
            let count = toks.len();
            if count > 0 {
                if let RouteToken::WILDCARD = &toks[count - 1] {
                    assert(before.last() is Wildcard);
                    assert(compile_segments(gsegs.take(k + 1)) == Err::<Seq<TokenSpec>, RouteFault>(
                        RouteFault::WildcardNotLast,
                    ));
                    proof {
                        lemma_prefix_error(gsegs, k as int + 1);
                    }
                    assert(gsegs.take(gsegs.len() as int) =~= gsegs);
                    assert(compile_segments(gsegs) == Err::<Seq<TokenSpec>, RouteFault>(
                        RouteFault::WildcardNotLast,
                    ));
                    return Err(RouteError::WildcardNotLast);
                }
            }
            match compile_segment(&segs[k]) {
                None => {
                    assert(compile_segments(gsegs.take(k + 1)) == Err::<Seq<TokenSpec>, RouteFault>(
                        RouteFault::InvalidSegment(segs@[k as int]@),
                    ));
                    proof {
                        lemma_prefix_error(gsegs, k as int + 1);
                    }
                    assert(gsegs.take(gsegs.len() as int) =~= gsegs);
                    return Err(RouteError::InvalidSegment(string_of(segs[k].as_slice())));
                },
                Some(tok) => {
                    if let RouteToken::PARAMETER(name) = &tok {
                        if binds_exec(&toks, name) {
                            assert(compile_segments(gsegs.take(k + 1)) == Err::<
                                Seq<TokenSpec>,
                                RouteFault,
                            >(RouteFault::DuplicateParameter(name@)));
                            proof {
                                lemma_prefix_error(gsegs, k as int + 1);
                            }
                            assert(gsegs.take(gsegs.len() as int) =~= gsegs);
                            return Err(RouteError::DuplicateParameter(name.clone()));
                        }
                    }
                    toks.push(tok);
                    assert(token_specs(toks@) =~= before.push(tok@));
                },
            }
            k = k + 1;
        }
        assert(gsegs.take(segs@.len() as int) =~= gsegs);
        proof {
            lemma_compiled_well_formed(gsegs);
        }
        Ok(Route(method, toks))
    }
}

/// An error on a prefix of the segments is the error of them all.
proof fn lemma_prefix_error(segs: Seq<Seq<char>>, k: int)
    requires
        0 <= k <= segs.len(),
        compile_segments(segs.take(k)) is Err,
    ensures
        compile_segments(segs) == compile_segments(segs.take(k)),
    decreases segs.len() - k,
{
    if k < segs.len() {
        assert(segs.take(k + 1).drop_last() =~= segs.take(k));
        lemma_prefix_error(segs, k + 1);
    } else {
        assert(segs.take(k) =~= segs);
    }
}

} // verus!
