//! The request-head parser: collecting the header lines of a request, then
//! reading the request line and the header fields from them.

use vstd::prelude::*;
use vstd::slice::{slice_subrange, slice_to_vec};
use crate::header::{header_case, HeaderName, Headers};
use crate::method::{method_of_token, InvalidHeaderError, Method};
use crate::text::{
    chars_of, drop_trailing, find_char, split_chars, split_on, split_once, string_of, trim_chars,
    trim_space,
};

verus! {

/// The most bytes read for the request line and headers together.
pub const MAX_HEADER_SIZE: u64 = 8192;

/// The longest request path accepted, in bytes.
pub const MAX_PATH_LEN: usize = 2048;

/// Declares `std::io::Error`, carried opaquely inside `ParsingError` and
/// `LineRead`; nothing is assumed of its contents.
#[verifier::external_type_specification]
#[verifier::external_body]
pub struct ExIoError(std::io::Error);

/// Why a request head could not be read.
#[derive(Debug)]
pub enum ParsingError {
    /// Reading the stream failed.
    IOError(std::io::Error),
    /// The stream ended, or a blank line came, before any request line.
    NullRequest,
    /// The stream ended before the blank line that closes the headers, or
    /// the read was interrupted.
    Interrupted,
    /// The request line does not have exactly three space-separated tokens.
    InvalidFirstLine,
    /// The method token is longer than the limit (limit, length).
    MethodTooLong(usize, usize),
    /// The method token names no known method.
    InvalidMethod(InvalidHeaderError),
    /// The path is longer than the limit (limit, length), in bytes.
    PathTooLong(usize, usize),
    /// The path is empty or does not start with `/`.
    InvalidPath(String),
}

/// The outcome of reading one line of the header section.
pub enum LineRead {
    /// The line as read, with its terminator; empty at the end of the stream.
    Line(String),
    /// The read was interrupted.
    Interrupted,
    /// The read failed.
    Failed(std::io::Error),
}

/// What the header reader does after a line.
pub enum HeadStep {
    /// Read another line.
    More,
    /// The blank line came: the header section is complete.
    Complete,
    /// Reading stops with this error.
    Failed(ParsingError),
}

/// The parsed request line and headers.
#[derive(Debug)]
pub struct RequestHead {
    pub method: Method,
    pub path: String,
    pub query: Option<String>,
    pub headers: Headers,
}

/// The character values of strings.
pub open spec fn string_views(v: Seq<String>) -> Seq<Seq<char>> {
    v.map_values(|s: String| s@)
}

/// A line terminator character.
pub open spec fn is_line_end(c: char) -> bool {
    c == '\r' || c == '\n'
}

/// A line without its trailing carriage returns and line feeds.
pub open spec fn line_content(s: Seq<char>) -> Seq<char> {
    drop_trailing(s, |c: char| is_line_end(c))
}

/// Takes one read of the header section. Lines collect in `lines` until
/// a blank line that ends in a line feed. A read that does not end in a
/// line feed is the end of the stream (or of the size cap): `NullRequest`
/// when no line came yet, `Interrupted` otherwise.
pub fn accept_line(lines: &mut Vec<String>, read: LineRead) -> (r: HeadStep)
    ensures
        match read {
            LineRead::Interrupted => r matches HeadStep::Failed(ParsingError::Interrupted)
                && *final(lines) == *old(lines),
            LineRead::Failed(e) => r matches HeadStep::Failed(ParsingError::IOError(e2)) && e2
                == e && *final(lines) == *old(lines),
            LineRead::Line(s) => if s@.len() == 0 || s@.last() != '\n' {
                *final(lines) == *old(lines) && if old(lines)@.len() == 0 {
                    r matches HeadStep::Failed(ParsingError::NullRequest)
                } else {
                    r matches HeadStep::Failed(ParsingError::Interrupted)
                }
            } else if line_content(s@).len() == 0 {
                *final(lines) == *old(lines) && if old(lines)@.len() == 0 {
                    r matches HeadStep::Failed(ParsingError::NullRequest)
                } else {
                    r is Complete
                }
            } else {
                r is More && string_views(final(lines)@) == string_views(old(lines)@).push(
                    line_content(s@),
                )
            },
        },
{
    match read {
        LineRead::Interrupted => HeadStep::Failed(ParsingError::Interrupted),
        LineRead::Failed(e) => HeadStep::Failed(ParsingError::IOError(e)),
        LineRead::Line(s) => {
            let cs = chars_of(s.as_str());
            let mut j: usize = cs.len();
            let ghost p = |c: char| is_line_end(c);
            assert(cs@.take(cs@.len() as int) =~= cs@);
            while j > 0 && (cs[j - 1] == '\r' || cs[j - 1] == '\n')
                invariant
                    cs@ == s@,
                    0 <= j <= cs@.len(),
                    p == (|c: char| is_line_end(c)),
                    drop_trailing(cs@, p) == drop_trailing(cs@.take(j as int), p),
                decreases j,
            {
                assert(cs@.take(j as int).drop_last() =~= cs@.take(j - 1));
                j = j - 1;
            }
            if cs.len() == 0 || cs[cs.len() - 1] != '\n' {
                if lines.len() == 0 {
                    HeadStep::Failed(ParsingError::NullRequest)
                } else {
                    HeadStep::Failed(ParsingError::Interrupted)
                }
            } else if j == 0 {
                if lines.len() == 0 {
                    HeadStep::Failed(ParsingError::NullRequest)
                } else {
                    HeadStep::Complete
                }
            } else {
                let ghost before = string_views(lines@);
                lines.push(string_of(slice_subrange(cs.as_slice(), 0, j)));
                assert(string_views(lines@) =~= before.push(line_content(s@)));
                HeadStep::More
            }
        },
    }
}

/// The path part of a request target: what precedes the first `?`.
pub open spec fn target_path(t: Seq<char>) -> Seq<char> {
    match split_once(t, '?') {
        Some((p, _)) => p,
        None => t,
    }
}

/// The query part of a request target: what follows the first `?`, if any.
pub open spec fn target_query(t: Seq<char>) -> Option<Seq<char>> {
    match split_once(t, '?') {
        Some((_, q)) => Some(q),
        None => None,
    }
}

/// The name and value of a header line, both trimmed of white space; `None`
/// for a line without `:` or with an empty name.
pub open spec fn header_field(line: Seq<char>) -> Option<(Seq<char>, Seq<char>)> {
    match split_once(line, ':') {
        Some((n, v)) => if trim_space(n).len() > 0 {
            Some((trim_space(n), trim_space(v)))
        } else {
            None
        },
        None => None,
    }
}

/// The header map that the header lines build, in order, under canonical names.
pub open spec fn header_map(lines: Seq<Seq<char>>) -> Map<Seq<char>, Seq<char>>
    decreases lines.len(),
{
    if lines.len() == 0 {
        Map::empty()
    } else {
        let m = header_map(lines.drop_last());
        match header_field(lines.last()) {
            Some((n, v)) => m.insert(header_case(n), v),
            None => m,
        }
    }
}

/// The length of the UTF-8 encoding of `s`, as `str::len` reports it.
pub open spec fn byte_len(s: Seq<char>) -> usize {
    vstd::utf8::encode_utf8(s).len() as usize
}

/// What reading a request head from its lines gives.
pub enum HeadOutcome {
    NullRequest,
    InvalidFirstLine,
    InvalidMethod(Seq<char>),
    PathTooLong(usize),
    InvalidPath(Seq<char>),
    Parsed(Method, Seq<char>, Option<Seq<char>>, Map<Seq<char>, Seq<char>>),
}

/// Reads the request line (method, target, version) and the header lines;
/// the checks go in this order.
pub open spec fn head_outcome(lines: Seq<Seq<char>>) -> HeadOutcome {
    if lines.len() == 0 {
        HeadOutcome::NullRequest
    } else {
        let toks = split_on(lines[0], ' ');
        let path = target_path(toks[1]);
        if toks.len() != 3 {
            HeadOutcome::InvalidFirstLine
        } else if method_of_token(toks[0]) is None {
            HeadOutcome::InvalidMethod(toks[0])
        } else if byte_len(path) > MAX_PATH_LEN {
            HeadOutcome::PathTooLong(byte_len(path))
        } else if path.len() == 0 || path[0] != '/' {
            HeadOutcome::InvalidPath(path)
        } else {
            HeadOutcome::Parsed(
                method_of_token(toks[0])->0,
                path,
                target_query(toks[1]),
                header_map(lines.drop_first()),
            )
        }
    }
}

/// The character value of an optional string.
pub open spec fn opt_view(s: Option<String>) -> Option<Seq<char>> {
    match s {
        Some(x) => Some(x@),
        None => None,
    }
}

fn sub_vec(v: &Vec<char>, from: usize, to: usize) -> (r: Vec<char>)
    requires
        from <= to <= v@.len(),
    ensures
        r@ == v@.subrange(from as int, to as int),
{
    slice_to_vec(slice_subrange(v.as_slice(), from, to))
}

/// Reads a request head from its lines, as the header reader collected them.
pub fn parse_head(lines: &Vec<String>) -> (r: Result<RequestHead, ParsingError>)
    ensures
        match head_outcome(string_views(lines@)) {
            HeadOutcome::NullRequest => r matches Err(ParsingError::NullRequest),
            HeadOutcome::InvalidFirstLine => r matches Err(ParsingError::InvalidFirstLine),
            HeadOutcome::InvalidMethod(t) => r matches Err(ParsingError::InvalidMethod(e)) && e.0@
                == t,
            HeadOutcome::PathTooLong(n) => r matches Err(ParsingError::PathTooLong(max, len))
                && max == MAX_PATH_LEN && len == n,
            HeadOutcome::InvalidPath(p) => r matches Err(ParsingError::InvalidPath(s)) && s@ == p,
            HeadOutcome::Parsed(m, p, q, hs) => r matches Ok(h) && h.method == m && h.path@ == p
                && opt_view(h.query) == q && h.headers@ == hs,
        },
        lines@.len() > 0 && split_on(lines@[0]@, ' ').len() != 3 ==> r matches Err(
            ParsingError::InvalidFirstLine,
        ),
        ({
            let toks = split_on(lines@[0]@, ' ');
            let path = target_path(toks[1]);
            lines@.len() > 0 && toks.len() == 3 && method_of_token(toks[0]) is Some ==> {
                &&& byte_len(path) > MAX_PATH_LEN ==> (r matches Err(
                    ParsingError::PathTooLong(_, _),
                ))
                &&& byte_len(path) <= MAX_PATH_LEN && (path.len() == 0 || path[0] != '/')
                    ==> (r matches Err(ParsingError::InvalidPath(_)))
            }
        }),
{
    let ghost ls = string_views(lines@);
    if lines.len() == 0 {
        return Err(ParsingError::NullRequest);
    }
    assert(ls[0] == lines@[0]@);
    let first = chars_of(lines[0].as_str());
    let toks = split_chars(first.as_slice(), ' ');
    if toks.len() != 3 {
        return Err(ParsingError::InvalidFirstLine);
    }
    let ghost gt = split_on(ls[0], ' ');
    assert(gt[0] == toks@[0]@ && gt[1] == toks@[1]@);
    let mtok = string_of(toks[0].as_slice());
    let method = match Method::parse(mtok.as_str()) {
        Ok(m) => m,
        Err(e) => {
            return Err(ParsingError::InvalidMethod(e));
        },
    };
    let target = &toks[1];
    let tl = target.len();
    let (path_chars, query) = match find_char(target.as_slice(), '?') {
        Some(i) => {
            assert(target@.subrange(i + 1, tl as int) =~= target@.skip(i + 1));
            assert(target@.subrange(0, i as int) =~= target@.take(i as int));
            (sub_vec(target, 0, i), Some(string_of(sub_vec(target, i + 1, tl).as_slice())))
        },
        None => {
            assert(target@.subrange(0, tl as int) =~= target@);
            (sub_vec(target, 0, tl), None)
        },
    };
    assert(path_chars@ =~= target_path(gt[1]));
    let path = string_of(path_chars.as_slice());
    let plen = path.as_str().len();
    if plen > MAX_PATH_LEN {
        return Err(ParsingError::PathTooLong(MAX_PATH_LEN, plen));
    }
    if path_chars.len() == 0 || path_chars[0] != '/' {
        return Err(ParsingError::InvalidPath(path));
    }
    let mut headers = Headers::new();
    let mut k: usize = 1;
    while k < lines.len()
        invariant
            ls == string_views(lines@),
            1 <= k <= lines@.len(),
            headers@ == header_map(ls.drop_first().take(k - 1)),
        decreases lines@.len() - k,
    {
        let ghost hl = ls.drop_first();
        assert(hl.take(k as int).drop_last() =~= hl.take(k - 1));
        assert(hl.take(k as int).last() == lines@[k as int]@);
        let line = chars_of(lines[k].as_str());
        let ll = line.len();
        match find_char(line.as_slice(), ':') {
            None => {},
            Some(i) => {
                assert(line@.subrange(i + 1, ll as int) =~= line@.skip(i + 1));
                assert(line@.subrange(0, i as int) =~= line@.take(i as int));
                let name = trim_chars(sub_vec(&line, 0, i).as_slice(), true);
                let value = trim_chars(sub_vec(&line, i + 1, ll).as_slice(), true);
                if name.len() > 0 {
                    let name_str = string_of(name.as_slice());
                    headers.insert(HeaderName::new(name_str.as_str()), string_of(value.as_slice()));
                }
            },
        }
        k = k + 1;
    }
    assert(ls.drop_first().take(lines@.len() - 1) =~= ls.drop_first());
    Ok(RequestHead { method, path, query, headers })
}

} // verus!
