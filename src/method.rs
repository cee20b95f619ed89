//! HTTP request methods and their wire tokens.

use vstd::prelude::*;
use crate::text::str_eq;

verus! {

/// The token of a request line that names no known method.
#[derive(Debug)]
pub struct InvalidHeaderError(pub String);

/// The request methods this server understands.
#[derive(Debug, Clone, Copy, PartialEq, Eq, Structural, PartialOrd, Ord, Hash)]
pub enum Method {
    GET,
    HEAD,
    POST,
    PUT,
    DELETE,
    CONNECT,
    OPTIONS,
    TRACE,
    PATCH,
}

/// The upper-case wire token of a method.
pub open spec fn method_token(m: Method) -> Seq<char> {
    match m {
        Method::GET => "GET"@,
        Method::HEAD => "HEAD"@,
        Method::POST => "POST"@,
        Method::PUT => "PUT"@,
        Method::DELETE => "DELETE"@,
        Method::CONNECT => "CONNECT"@,
        Method::OPTIONS => "OPTIONS"@,
        Method::TRACE => "TRACE"@,
        Method::PATCH => "PATCH"@,
    }
}

impl Method {
    /// The wire token of this method.
    pub fn as_str(&self) -> (r: &'static str)
        ensures
            r@ == method_token(*self),
    {
        match self {
            Method::GET => "GET",
            Method::HEAD => "HEAD",
            Method::POST => "POST",
            Method::PUT => "PUT",
            Method::DELETE => "DELETE",
            Method::CONNECT => "CONNECT",
            Method::OPTIONS => "OPTIONS",
            Method::TRACE => "TRACE",
            Method::PATCH => "PATCH",
        }
    }

    /// Parses a wire token; the match is exact and case-sensitive.
    pub fn parse(s: &str) -> (r: Result<Method, InvalidHeaderError>)
        ensures
            match method_of_token(s@) {
                Some(m) => r matches Ok(x) && x == m,
                None => r matches Err(e) && e.0@ == s@,
            },
    {
        if str_eq(s, "GET") {
            Ok(Method::GET)
        } else if str_eq(s, "HEAD") {
            Ok(Method::HEAD)
        } else if str_eq(s, "POST") {
            Ok(Method::POST)
        } else if str_eq(s, "PUT") {
            Ok(Method::PUT)
        } else if str_eq(s, "DELETE") {
            Ok(Method::DELETE)
        } else if str_eq(s, "CONNECT") {
            Ok(Method::CONNECT)
        } else if str_eq(s, "OPTIONS") {
            Ok(Method::OPTIONS)
        } else if str_eq(s, "TRACE") {
            Ok(Method::TRACE)
        } else if str_eq(s, "PATCH") {
            Ok(Method::PATCH)
        } else {
            Err(InvalidHeaderError(s.to_owned()))
        }
    }
}

/// The method whose wire token is `s`, if any.
pub open spec fn method_of_token(s: Seq<char>) -> Option<Method> {
    if s == "GET"@ {
        Some(Method::GET)
    } else if s == "HEAD"@ {
        Some(Method::HEAD)
    } else if s == "POST"@ {
        Some(Method::POST)
    } else if s == "PUT"@ {
        Some(Method::PUT)
    } else if s == "DELETE"@ {
        Some(Method::DELETE)
    } else if s == "CONNECT"@ {
        Some(Method::CONNECT)
    } else if s == "OPTIONS"@ {
        Some(Method::OPTIONS)
    } else if s == "TRACE"@ {
        Some(Method::TRACE)
    } else if s == "PATCH"@ {
        Some(Method::PATCH)
    } else {
        None
    }
}

/// Every method reads back from its own wire token.
pub proof fn lemma_method_token_round_trip(m: Method)
    ensures
        method_of_token(method_token(m)) == Some(m),
{
    reveal_strlit("GET");
    reveal_strlit("HEAD");
    reveal_strlit("POST");
    reveal_strlit("PUT");
    reveal_strlit("DELETE");
    reveal_strlit("CONNECT");
    reveal_strlit("OPTIONS");
    reveal_strlit("TRACE");
    reveal_strlit("PATCH");
    assert("GET"@.len() == 3 && "PUT"@.len() == 3 && "HEAD"@.len() == 4 && "POST"@.len() == 4);
    assert("TRACE"@.len() == 5 && "PATCH"@.len() == 5 && "DELETE"@.len() == 6);
    assert("CONNECT"@.len() == 7 && "OPTIONS"@.len() == 7);
    match m {
        Method::PUT => assert("PUT"@[0] != "GET"@[0]),
        Method::POST => assert("POST"@[0] != "HEAD"@[0]),
        Method::PATCH => assert("PATCH"@[0] != "TRACE"@[0]),
        Method::OPTIONS => assert("OPTIONS"@[0] != "CONNECT"@[0]),
        _ => {},
    }
}

} // verus!
