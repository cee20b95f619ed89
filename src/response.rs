//! Responses: status, headers and a body, the constructors for plain-text
//! bodies, and the wire form of the status line and headers.

use vstd::prelude::*;
use vstd::string::StringExecFns;
use crate::header::{header_case, HeaderName, Headers};
use crate::http::byte_len;
use crate::pairs::names_unique;
use crate::text::string_of;

verus! {

/// The canonical reason phrase of a status code; empty for a code without one.
pub open spec fn reason_phrase(code: u32) -> Seq<char> {
    match code {
        100 => "Continue"@,
        101 => "Switching Protocols"@,
        102 => "Processing"@,
        103 => "Early Hints"@,
        200 => "OK"@,
        201 => "Created"@,
        202 => "Accepted"@,
        203 => "Non-Authoritative Information"@,
        204 => "No Content"@,
        205 => "Reset Content"@,
        206 => "Partial Content"@,
        207 => "Multi-Status"@,
        208 => "Already Reported"@,
        226 => "IM Used"@,
        300 => "Multiple Choices"@,
        301 => "Moved Permanently"@,
        302 => "Found"@,
        303 => "See Other"@,
        304 => "Not Modified"@,
        305 => "Use Proxy"@,
        307 => "Temporary Redirect"@,
        308 => "Permanent Redirect"@,
        400 => "Bad Request"@,
        401 => "Unauthorized"@,
        402 => "Payment Required"@,
        403 => "Forbidden"@,
        404 => "Not Found"@,
        405 => "Method Not Allowed"@,
        406 => "Not Acceptable"@,
        407 => "Proxy Authentication Required"@,
        408 => "Request Timeout"@,
        409 => "Conflict"@,
        410 => "Gone"@,
        411 => "Length Required"@,
        412 => "Precondition Failed"@,
        413 => "Payload Too Large"@,
        414 => "URI Too Long"@,
        415 => "Unsupported Media Type"@,
        416 => "Range Not Satisfiable"@,
        417 => "Expectation Failed"@,
        418 => "I'm a teapot"@,
        421 => "Misdirected Request"@,
        422 => "Unprocessable Entity"@,
        423 => "Locked"@,
        424 => "Failed Dependency"@,
        425 => "Too Early"@,
        426 => "Upgrade Required"@,
        428 => "Precondition Required"@,
        429 => "Too Many Requests"@,
        431 => "Request Header Fields Too Large"@,
        451 => "Unavailable For Legal Reasons"@,
        500 => "Internal Server Error"@,
        501 => "Not Implemented"@,
        502 => "Bad Gateway"@,
        503 => "Service Unavailable"@,
        504 => "Gateway Timeout"@,
        505 => "HTTP Version Not Supported"@,
        506 => "Variant Also Negotiates"@,
        507 => "Insufficient Storage"@,
        508 => "Loop Detected"@,
        510 => "Not Extended"@,
        511 => "Network Authentication Required"@,
        _ => ""@,
    }
}

/// The reason phrase of `code`.
pub fn reason(code: u32) -> (r: &'static str)
    ensures
        r@ == reason_phrase(code),
{
    match code {
        100 => "Continue",
        101 => "Switching Protocols",
        102 => "Processing",
        103 => "Early Hints",
        200 => "OK",
        201 => "Created",
        202 => "Accepted",
        203 => "Non-Authoritative Information",
        204 => "No Content",
        205 => "Reset Content",
        206 => "Partial Content",
        207 => "Multi-Status",
        208 => "Already Reported",
        226 => "IM Used",
        300 => "Multiple Choices",
        301 => "Moved Permanently",
        302 => "Found",
        303 => "See Other",
        304 => "Not Modified",
        305 => "Use Proxy",
        307 => "Temporary Redirect",
        308 => "Permanent Redirect",
        400 => "Bad Request",
        401 => "Unauthorized",
        402 => "Payment Required",
        403 => "Forbidden",
        404 => "Not Found",
        405 => "Method Not Allowed",
        406 => "Not Acceptable",
        407 => "Proxy Authentication Required",
        408 => "Request Timeout",
        409 => "Conflict",
        410 => "Gone",
        411 => "Length Required",
        412 => "Precondition Failed",
        413 => "Payload Too Large",
        414 => "URI Too Long",
        415 => "Unsupported Media Type",
        416 => "Range Not Satisfiable",
        417 => "Expectation Failed",
        418 => "I'm a teapot",
        421 => "Misdirected Request",
        422 => "Unprocessable Entity",
        423 => "Locked",
        424 => "Failed Dependency",
        425 => "Too Early",
        426 => "Upgrade Required",
        428 => "Precondition Required",
        429 => "Too Many Requests",
        431 => "Request Header Fields Too Large",
        451 => "Unavailable For Legal Reasons",
        500 => "Internal Server Error",
        501 => "Not Implemented",
        502 => "Bad Gateway",
        503 => "Service Unavailable",
        504 => "Gateway Timeout",
        505 => "HTTP Version Not Supported",
        506 => "Variant Also Negotiates",
        507 => "Insufficient Storage",
        508 => "Loop Detected",
        510 => "Not Extended",
        511 => "Network Authentication Required",
        _ => "",
    }
}

/// The decimal digit `d`.
pub open spec fn digit_char(d: nat) -> char {
    ((d + 48) as u8) as char
}

/// The decimal form of `n`, without leading zeros.
pub open spec fn decimal(n: nat) -> Seq<char>
    decreases n,
{
    if n < 10 {
        seq![digit_char(n)]
    } else {
        decimal(n / 10).push(digit_char(n % 10))
    }
}

fn push_decimal(n: u64, out: &mut Vec<char>)
    ensures
        final(out)@ == old(out)@ + decimal(n as nat),
    decreases n,
{
    if n >= 10 {
        push_decimal(n / 10, out);
    }
    let d = (n % 10) as u8;
    out.push((d + 48) as char);
    proof {
        assert(final(out)@ =~= old(out)@ + decimal(n as nat));
    }
}

/// The decimal form of `n`.
pub fn decimal_string(n: u64) -> (r: String)
    ensures
        r@ == decimal(n as nat),
{
    let mut out: Vec<char> = Vec::new();
    push_decimal(n, &mut out);
    assert(out@ =~= decimal(n as nat));
    string_of(out.as_slice())
}

/// The status code and its reason phrase, as the status line carries them.
pub open spec fn status_text(code: u32) -> Seq<char> {
    decimal(code as nat) + " "@ + reason_phrase(code)
}

/// The status code and its reason phrase, e.g. `404 Not Found`.
pub fn to_status_text(code: u32) -> (r: String)
    ensures
        r@ == status_text(code),
{
    let mut s = decimal_string(code as u64);
    s.append(" ");
    s.append(reason(code));
    s
}

/// A response: status code, headers, and a body of any readable kind.
#[derive(Debug)]
pub struct Response<B> {
    pub headers: Headers,
    pub status_code: u32,
    pub body: B,
}

/// The headers of a plain-text body of `len` bytes.
pub open spec fn text_headers(len: nat) -> Map<Seq<char>, Seq<char>> {
    Map::empty().insert(header_case("Content-Type"@), "text/plain"@).insert(
        header_case("Content-Length"@),
        decimal(len),
    )
}

fn text_body_headers(len: usize) -> (r: Headers)
    ensures
        r@ == text_headers(len as nat),
{
    let mut headers = Headers::new();
    headers.insert(HeaderName::new("Content-Type"), string_of_str("text/plain"));
    headers.insert(HeaderName::new("Content-Length"), decimal_string(len as u64));
    headers
}

fn string_of_str(s: &str) -> (r: String)
    ensures
        r@ == s@,
{
    String::from_str(s)
}

impl Response<String> {
    /// A `200` response carrying `body` as plain text.
    pub fn from_string(body: String) -> (r: Response<String>)
        ensures
            r.status_code == 200,
            r.body == body,
            r.headers@ == text_headers(byte_len(body@) as nat),
    {
        let len = body.as_str().len();
        Response { headers: text_body_headers(len), status_code: 200, body }
    }

    /// A response with status `code` whose plain-text body is the status
    /// text and a newline, e.g. `404 Not Found\n`.
    pub fn from_code(code: u32) -> (r: Response<String>)
        ensures
            r.status_code == code,
            r.body@ == status_text(code).push('\n'),
            r.headers@ == text_headers(byte_len(r.body@) as nat),
    {
        let mut body = to_status_text(code);
        body.append("\n");
        proof {
            reveal_strlit("\n");
        }
        assert(body@ =~= status_text(code).push('\n'));
        let len = body.as_str().len();
        Response { headers: text_body_headers(len), status_code: code, body }
    }
}

impl Default for Response<String> {
    /// The `200` response with body `200 OK\n`.
    fn default() -> (r: Response<String>)
        ensures
            r.status_code == 200,
            r.body@ == status_text(200).push('\n'),
            r.headers@ == text_headers(byte_len(r.body@) as nat),
    {
        Response::from_code(200)
    }
}

/// The header lines of the pairs, in order, each `Name: value` and CRLF.
pub open spec fn header_lines(ps: Seq<(Seq<char>, Seq<char>)>) -> Seq<char>
    decreases ps.len(),
{
    if ps.len() == 0 {
        Seq::empty()
    } else {
        header_lines(ps.drop_last()) + ps.last().0 + ": "@ + ps.last().1 + "\r\n"@
    }
}

/// The status line, the header lines and the blank line that ends them.
pub open spec fn head_text(code: u32, ps: Seq<(Seq<char>, Seq<char>)>) -> Seq<char> {
    "HTTP/1.1 "@ + status_text(code) + "\r\n"@ + header_lines(ps) + "\r\n"@
}

impl<B> Response<B> {
    /// What goes on the wire before the body: one line per header, each
    /// name once, with its value in the map.
    pub fn head(&self) -> (r: String)
        ensures
            r@ == head_text(self.status_code, self.headers.pairs()),
            names_unique(self.headers.pairs()),
            forall|i: int|
                0 <= i < self.headers.pairs().len() ==> self.headers@.contains_key(
                    #[trigger] self.headers.pairs()[i].0,
                ) && self.headers@[self.headers.pairs()[i].0] == self.headers.pairs()[i].1,
            forall|n: Seq<char>|
                #[trigger] self.headers@.contains_key(n) ==> exists|i: int|
                    0 <= i < self.headers.pairs().len() && #[trigger] self.headers.pairs()[i].0
                        == n,
    {
        let mut out = string_of_str("HTTP/1.1 ");
        let status = to_status_text(self.status_code);
        out.append(status.as_str());
        out.append("\r\n");
        let ghost ps = self.headers.pairs();
        let ghost start = out@;
        let n = self.headers.len();
        proof {
            self.headers.lemma_pairs_are_the_map();
        }
        let mut i: usize = 0;
        assert(ps.take(0) =~= Seq::<(Seq<char>, Seq<char>)>::empty());
        assert(start + header_lines(ps.take(0)) =~= start);
        while i < n
            invariant
                ps == self.headers.pairs(),
                n == ps.len(),
                0 <= i <= n,
                out@ == start + header_lines(ps.take(i as int)),
            decreases n - i,
        {
            let (name, value) = self.headers.entry(i);
            out.append(name.as_str());
            out.append(": ");
            out.append(value.as_str());
            out.append("\r\n");
            assert(ps.take(i + 1).drop_last() =~= ps.take(i as int));
            assert(ps.take(i + 1).last() == ps[i as int]);
            assert(out@ =~= start + header_lines(ps.take(i + 1)));
            i = i + 1;
        }
        assert(ps.take(n as int) =~= ps);
        out.append("\r\n");
        assert(out@ =~= head_text(self.status_code, ps));
        out
    }
}

} // verus!
