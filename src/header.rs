//! Header names in their canonical casing, and the header map.

use vstd::prelude::*;
use crate::pairs::{
    lemma_pairs_map_keys, lemma_pairs_map_suffix, lemma_unique_lookup, names_unique, pairs_map,
};
use crate::text::{chars_of, string_of};

verus! {

/// `c` in upper case when it is an ASCII letter.
pub open spec fn upper_ascii(c: char) -> char {
    if 'a' <= c && c <= 'z' {
        ((c as u32 - 32) as u8) as char
    } else {
        c
    }
}

/// `c` in lower case when it is an ASCII letter.
pub open spec fn lower_ascii(c: char) -> char {
    if 'A' <= c && c <= 'Z' {
        ((c as u32 + 32) as u8) as char
    } else {
        c
    }
}

/// What `char::to_uppercase` yields for `c`.
pub uninterp spec fn upper_of(c: char) -> Seq<char>;

/// What `char::to_lowercase` yields for `c`.
pub uninterp spec fn lower_of(c: char) -> Seq<char>;

/// An ASCII character.
pub open spec fn is_ascii_char(c: char) -> bool {
    (c as u32) < 128
}

/// The upper-case mapping of `c`: on ASCII the ASCII one, elsewhere the
/// Unicode mapping.
pub open spec fn upper_case(c: char) -> Seq<char> {
    if is_ascii_char(c) {
        seq![upper_ascii(c)]
    } else {
        upper_of(c)
    }
}

/// The lower-case mapping of `c`: on ASCII the ASCII one, elsewhere the
/// Unicode mapping.
pub open spec fn lower_case(c: char) -> Seq<char> {
    if is_ascii_char(c) {
        seq![lower_ascii(c)]
    } else {
        lower_of(c)
    }
}

/// What the character at `i` becomes: the first character of every
/// `-`-separated word in upper case, the others in lower case.
pub open spec fn case_piece(s: Seq<char>, i: int) -> Seq<char> {
    if i == 0 || s[i - 1] == '-' {
        upper_case(s[i])
    } else {
        lower_case(s[i])
    }
}

/// The canonical form of the first `n` characters of a header name.
pub open spec fn header_case_prefix(s: Seq<char>, n: int) -> Seq<char>
    decreases n,
{
    if n <= 0 {
        Seq::empty()
    } else {
        header_case_prefix(s, n - 1) + case_piece(s, n - 1)
    }
}

/// The canonical form of a header name.
pub open spec fn header_case(s: Seq<char>) -> Seq<char> {
    header_case_prefix(s, s.len() as int)
}

/// The two names differ at most in the case of ASCII letters.
pub open spec fn same_ignoring_case(a: Seq<char>, b: Seq<char>) -> bool {
    a.len() == b.len() && forall|i: int| 0 <= i < a.len() ==> lower_ascii(a[i]) == lower_ascii(b[i])
}

/// Header names that differ only in the case of their letters have the
/// same canonical form, so they name the same header.
pub proof fn lemma_header_case_ignores_case(a: Seq<char>, b: Seq<char>)
    requires
        same_ignoring_case(a, b),
    ensures
        header_case(a) == header_case(b),
{
    lemma_header_case_prefix_ignores_case(a, b, a.len() as int);
}

proof fn lemma_header_case_prefix_ignores_case(a: Seq<char>, b: Seq<char>, n: int)
    requires
        same_ignoring_case(a, b),
        n <= a.len(),
    ensures
        header_case_prefix(a, n) == header_case_prefix(b, n),
    decreases n,
{
    if n > 0 {
        lemma_header_case_prefix_ignores_case(a, b, n - 1);
        let i = n - 1;
        assert(lower_ascii(a[i]) == lower_ascii(b[i]));
        if i > 0 {
            assert(lower_ascii(a[i - 1]) == lower_ascii(b[i - 1]));
        }
        assert(case_piece(a, i) == case_piece(b, i));
    }
}

/// Two spellings of one name that differ only in case overwrite each
/// other in a header map: the later value stands under the one canonical name.
pub proof fn lemma_case_variants_overwrite(
    m: Map<Seq<char>, Seq<char>>,
    a: Seq<char>,
    b: Seq<char>,
    v1: Seq<char>,
    v2: Seq<char>,
)
    requires
        same_ignoring_case(a, b),
    ensures
        m.insert(header_case(a), v1).insert(header_case(b), v2) == m.insert(header_case(a), v2),
{
    lemma_header_case_ignores_case(a, b);
    assert(m.insert(header_case(a), v1).insert(header_case(b), v2) =~= m.insert(header_case(a), v2));
}

fn to_upper(c: char) -> (r: char)
    ensures
        r == upper_ascii(c),
{
    if 'a' <= c && c <= 'z' {
        ((c as u32 - 32) as u8) as char
    } else {
        c
    }
}

fn to_lower(c: char) -> (r: char)
    ensures
        r == lower_ascii(c),
{
    if 'A' <= c && c <= 'Z' {
        ((c as u32 + 32) as u8) as char
    } else {
        c
    }
}

/// Relies on `char::to_uppercase`: the characters it yields for `c`.
#[verifier::external_body]
fn upper_chars(c: char) -> (r: Vec<char>)
    ensures
        r@ == upper_of(c),
{
    c.to_uppercase().collect()
}

/// Relies on `char::to_lowercase`: the characters it yields for `c`.
#[verifier::external_body]
fn lower_chars(c: char) -> (r: Vec<char>)
    ensures
        r@ == lower_of(c),
{
    c.to_lowercase().collect()
}

/// A header name, kept in canonical casing; names are equal when their
/// canonical forms are.
#[derive(Debug, Hash)]
pub struct HeaderName(String);

impl View for HeaderName {
    type V = Seq<char>;

    closed spec fn view(&self) -> Seq<char> {
        self.0@
    }
}

impl HeaderName {
    /// The header name `s` in canonical casing.
    pub fn new(s: &str) -> (r: HeaderName)
        ensures
            r@ == header_case(s@),
    {
        let cs = chars_of(s);
        let mut out: Vec<char> = Vec::new();
        let n = cs.len();
        let mut i: usize = 0;
        while i < n
            invariant
                cs@ == s@,
                n == cs@.len(),
                0 <= i <= n,
                out@ == header_case_prefix(s@, i as int),
            decreases n - i,
        {
            let c = cs[i];
            let first = i == 0 || cs[i - 1] == '-';
            if (c as u32) < 128 {
                out.push(if first { to_upper(c) } else { to_lower(c) });
            } else {
                let mut mapped = if first { upper_chars(c) } else { lower_chars(c) };
                out.append(&mut mapped);
            }
            assert(out@ =~= header_case_prefix(s@, i + 1));
            i = i + 1;
        }
        HeaderName(string_of(out.as_slice()))
    }

    /// Another name with the same text.
    fn duplicate(&self) -> (r: HeaderName)
        ensures
            r@ == self@,
    {
        HeaderName(self.0.clone())
    }

    pub fn as_str(&self) -> (r: &str)
        ensures
            r@ == self@,
    {
        self.0.as_str()
    }

    pub fn to_string(self) -> (r: String)
        ensures
            r@ == self@,
    {
        self.0
    }
}

impl PartialEq for HeaderName {
    fn eq(&self, other: &HeaderName) -> (r: bool) {
        self.0 == other.0
    }
}

impl vstd::std_specs::cmp::PartialEqSpecImpl for HeaderName {
    open spec fn obeys_eq_spec() -> bool {
        true
    }

    open spec fn eq_spec(&self, other: &HeaderName) -> bool {
        self@ == other@
    }
}

impl Eq for HeaderName {

}

/// A header map: each name at most once, the latest value winning.
#[derive(Debug)]
pub struct Headers {
    entries: Vec<(HeaderName, String)>,
}

/// The character values of header pairs.
pub open spec fn header_views(v: Seq<(HeaderName, String)>) -> Seq<(Seq<char>, Seq<char>)> {
    v.map_values(|e: (HeaderName, String)| (e.0@, e.1@))
}

impl View for Headers {
    type V = Map<Seq<char>, Seq<char>>;

    open spec fn view(&self) -> Map<Seq<char>, Seq<char>> {
        pairs_map(self.pairs())
    }
}

impl Headers {
    /// The headers in the order they are written out.
    pub closed spec fn pairs(&self) -> Seq<(Seq<char>, Seq<char>)> {
        header_views(self.entries@)
    }

    /// No name appears twice.
    #[verifier::type_invariant]
    closed spec fn inv(&self) -> bool {
        names_unique(header_views(self.entries@))
    }

    /// A write-out order without repeated names lists each header of the
    /// map once, with its value.
    pub proof fn lemma_pairs_are_the_map(&self)
        requires
            names_unique(self.pairs()),
        ensures
            forall|i: int|
                0 <= i < self.pairs().len() ==> self@.contains_key(#[trigger] self.pairs()[i].0)
                    && self@[self.pairs()[i].0] == self.pairs()[i].1,
            forall|n: Seq<char>|
                #[trigger] self@.contains_key(n) ==> exists|i: int|
                    0 <= i < self.pairs().len() && #[trigger] self.pairs()[i].0 == n,
    {
        assert forall|i: int| 0 <= i < self.pairs().len() implies self@.contains_key(
            #[trigger] self.pairs()[i].0,
        ) && self@[self.pairs()[i].0] == self.pairs()[i].1 by {
            lemma_unique_lookup(self.pairs(), i);
        }
        assert forall|n: Seq<char>| #[trigger] self@.contains_key(n) implies exists|i: int|
            0 <= i < self.pairs().len() && #[trigger] self.pairs()[i].0 == n by {
            lemma_pairs_map_keys(self.pairs(), n);
        }
    }

    pub fn new() -> (r: Headers)
        ensures
            r.pairs() == Seq::<(Seq<char>, Seq<char>)>::empty(),
            r@ == Map::<Seq<char>, Seq<char>>::empty(),
    {
        let r = Headers { entries: Vec::new() };
        assert(r.pairs() =~= Seq::<(Seq<char>, Seq<char>)>::empty());
        r
    }

    /// Sets the value of `name`, replacing any earlier value; the header
    /// then goes last in the write-out order.
    pub fn insert(&mut self, name: HeaderName, value: String)
        ensures
            final(self)@ == old(self)@.insert(name@, value@),
            final(self).pairs().last() == (name@, value@),
    {
        proof {
            use_type_invariant(&*self);
        }
        let ghost ps = self.pairs();
        let mut kept: Vec<(HeaderName, String)> = Vec::new();
        let n = self.entries.len();
        let mut i: usize = 0;
        while i < n
            invariant
                ps == self.pairs(),
                names_unique(ps),
                n == ps.len(),
                0 <= i <= n,
                names_unique(header_views(kept@)),
                forall|t: int|
                    0 <= t < kept@.len() ==> (#[trigger] header_views(kept@)[t]).0 != name@
                        && exists|u: int| 0 <= u < i && ps[u].0 == header_views(kept@)[t].0,
                forall|x: Seq<char>|
                    x != name@ ==> (#[trigger] pairs_map(header_views(kept@)).contains_key(x)
                        == pairs_map(ps.take(i as int)).contains_key(x) && pairs_map(
                        header_views(kept@),
                    )[x] == pairs_map(ps.take(i as int))[x]),
            decreases n - i,
        {
            let ghost kv = header_views(kept@);
            assert(ps.take(i + 1).drop_last() =~= ps.take(i as int));
            assert(ps.take(i + 1).last() == ps[i as int]);
            assert(ps[i as int] == (self.entries@[i as int].0@, self.entries@[i as int].1@));
            let e = &self.entries[i];
            assert(pairs_map(ps.take(i + 1)) == pairs_map(ps.take(i as int)).insert(
                ps[i as int].0,
                ps[i as int].1,
            ));
            if !(e.0 == name) {
                kept.push((e.0.duplicate(), e.1.clone()));
                assert(header_views(kept@) =~= kv.push(ps[i as int]));
                assert(header_views(kept@).drop_last() =~= kv);
                assert forall|t: int| 0 <= t < kv.len() implies kv[t].0 != ps[i as int].0 by {
                    let u = choose|u: int| 0 <= u < i && ps[u].0 == kv[t].0;
                    assert(ps[u] == ps[u]);
                }
                assert forall|t: int|
                    0 <= t < kept@.len() implies (#[trigger] header_views(kept@)[t]).0 != name@
                    && exists|u: int| 0 <= u < i + 1 && ps[u].0 == header_views(kept@)[t].0 by {
                    if t < kv.len() {
                        assert(header_views(kept@)[t] == kv[t]);
                        let u = choose|u: int| 0 <= u < i && ps[u].0 == kv[t].0;
                        assert(ps[u].0 == header_views(kept@)[t].0);
                    } else {
                        assert(ps[i as int].0 == header_views(kept@)[t].0);
                    }
                }
                assert(pairs_map(header_views(kept@)) == pairs_map(kv).insert(
                    ps[i as int].0,
                    ps[i as int].1,
                ));
            }
            assert forall|x: Seq<char>| x != name@ implies (#[trigger] pairs_map(
                header_views(kept@),
            ).contains_key(x) == pairs_map(ps.take(i + 1)).contains_key(x) && pairs_map(
                header_views(kept@),
            )[x] == pairs_map(ps.take(i + 1))[x]) by {
                assert(pairs_map(kv).contains_key(x) == pairs_map(ps.take(i as int)).contains_key(x));
            }
            i = i + 1;
        }
        assert(ps.take(n as int) =~= ps);
        let ghost kv = header_views(kept@);
        kept.push((name, value));
        assert(header_views(kept@) =~= kv.push((name@, value@)));
        assert(header_views(kept@).drop_last() =~= kv);
        assert(pairs_map(header_views(kept@)) == pairs_map(kv).insert(name@, value@));
        assert forall|x: Seq<char>| #[trigger] pairs_map(header_views(kept@)).contains_key(x)
            == pairs_map(ps).insert(name@, value@).contains_key(x) && (pairs_map(
            header_views(kept@),
        ).contains_key(x) ==> pairs_map(header_views(kept@))[x] == pairs_map(ps).insert(
            name@,
            value@,
        )[x]) by {
            if x != name@ {
                assert(pairs_map(kv).contains_key(x) == pairs_map(ps.take(n as int)).contains_key(x));
            }
        }
        assert(pairs_map(header_views(kept@)) =~= pairs_map(ps).insert(name@, value@));
        *self = Headers { entries: kept };
    }

    /// The value of `name`.
    pub fn get(&self, name: &HeaderName) -> (r: Option<&String>)
        ensures
            match r {
                Some(v) => self@.contains_key(name@) && self@[name@] == v@,
                None => !self@.contains_key(name@),
            },
    {
        let ghost ps = self.pairs();
        let mut j: usize = self.entries.len();
        while j > 0
            invariant
                ps == self.pairs(),
                ps.len() == self.entries@.len(),
                0 <= j <= ps.len(),
                forall|t: int| j <= t < ps.len() ==> (#[trigger] ps[t]).0 != name@,
            decreases j,
        {
            let e = &self.entries[j - 1];
            assert(ps[j - 1] == (e.0@, e.1@));
            if e.0 == *name {
                proof {
                    lemma_pairs_map_suffix(ps, j as int, name@);
                    assert(ps.take(j as int).drop_last() =~= ps.take(j - 1));
                }
                return Some(&e.1);
            }
            j = j - 1;
        }
        proof {
            lemma_pairs_map_keys(ps, name@);
        }
        None
    }

    /// Whether `name` has a value.
    pub fn contains(&self, name: &HeaderName) -> (r: bool)
        ensures
            r == self@.contains_key(name@),
    {
        self.get(name).is_some()
    }

    /// The number of headers; no name is listed twice.
    pub fn len(&self) -> (r: usize)
        ensures
            r == self.pairs().len(),
            names_unique(self.pairs()),
    {
        proof {
            use_type_invariant(self);
        }
        self.entries.len()
    }

    /// The header at position `i` of the write-out order.
    pub fn entry(&self, i: usize) -> (r: (&HeaderName, &String))
        requires
            i < self.pairs().len(),
        ensures
            (r.0@, r.1@) == self.pairs()[i as int],
    {
        let e = &self.entries[i];
        (&e.0, &e.1)
    }
}

} // verus!
