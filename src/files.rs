//! Upload file names.

use vstd::prelude::*;
use crate::text::{chars_of, string_of};

verus! {

/// A character that may not stand in a stored file name.
pub open spec fn unsafe_name_char(c: char) -> bool {
    c == '/' || c == '\\' || c == '&' || c == '?' || c == '"' || c == '\'' || c == '*' || c == '~'
        || c == '|' || c == ':' || c == '<' || c == '>'
}

/// `name` with each unsafe character replaced by `_`.
pub open spec fn sanitized(name: Seq<char>) -> Seq<char> {
    name.map_values(|c: char| if unsafe_name_char(c) { '_' } else { c })
}

/// Replaces every path separator, shell and wildcard character of `name`
/// with `_`.
pub fn sanitize_file_name(name: &str) -> (r: String)
    ensures
        r@ == sanitized(name@),
{
    let cs = chars_of(name);
    let mut out: Vec<char> = Vec::new();
    let mut i: usize = 0;
    while i < cs.len()
        invariant
            cs@ == name@,
            0 <= i <= cs@.len(),
            out@ == sanitized(name@).take(i as int),
        decreases cs@.len() - i,
    {
        let c = cs[i];
        let unsafe_char = c == '/' || c == '\\' || c == '&' || c == '?' || c == '"' || c == '\''
            || c == '*' || c == '~' || c == '|' || c == ':' || c == '<' || c == '>';
        out.push(if unsafe_char { '_' } else { c });
        assert(out@ =~= sanitized(name@).take(i + 1));
        i = i + 1;
    }
    assert(out@ =~= sanitized(name@));
    string_of(out.as_slice())
}

} // verus!
