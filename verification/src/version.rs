//! Version literals: the bracketed soft pin and the `${name}` placeholder.
//!
//! Only a single placeholder is recognised and brackets are removed wherever
//! they stand; version ranges are not interpreted.

use vstd::prelude::*;
use vstd::string::StringExecFns;
use crate::ordered_map::{has_key, value_of, OrderedMap};
use crate::text::{from_chars, push_char, to_chars};

verus! {

/// A mapping from property names to their values.
pub type Properties = OrderedMap<String, String>;

/// A version literal without its `[` and `]` characters.
pub open spec fn strip_brackets(s: Seq<char>) -> Seq<char> {
    s.filter(|c: char| c != '[' && c != ']')
}

/// `s[i..i + 2]` is the opening `${` of a placeholder.
pub open spec fn opens_at(s: Seq<char>, i: int) -> bool {
    0 <= i && i + 1 < s.len() && s[i] == '$' && s[i + 1] == '{'
}

/// `i` is where the first placeholder of `s` opens.
pub open spec fn first_opening(s: Seq<char>, i: int) -> bool {
    opens_at(s, i) && forall|j: int| 0 <= j < i ==> !opens_at(s, j)
}

/// `e` is the position of the first `}` of `s` at or after `from`.
pub open spec fn first_closing(s: Seq<char>, from: int, e: int) -> bool {
    from <= e < s.len() && s[e] == '}' && forall|j: int| from <= j < e ==> s[j] != '}'
}

/// A version literal after interpolation: the first `${name}` is replaced by
/// the value of `name` when `props` defines it; in every other case the
/// literal is returned as it is.
pub open spec fn interpolated(s: Seq<char>, props: Seq<(Seq<char>, Seq<char>)>) -> Seq<char> {
    if exists|i: int| first_opening(s, i) {
        let start = choose|i: int| first_opening(s, i);
        let from = start + 2;
        if exists|e: int| first_closing(s, from, e) {
            let end = choose|e: int| first_closing(s, from, e);
            let name = s.subrange(from, end);
            if has_key(props, name) {
                s.subrange(0, start) + value_of(props, name) + s.subrange(end + 1, s.len() as int)
            } else {
                s
            }
        } else {
            s
        }
    } else {
        s
    }
}

/// A literal has at most one first opening.
pub proof fn lemma_first_opening_unique(s: Seq<char>, i: int, j: int)
    requires
        first_opening(s, i),
        first_opening(s, j),
    ensures
        i == j,
{
}

/// A literal has at most one first closing brace after a position.
pub proof fn lemma_first_closing_unique(s: Seq<char>, from: int, e: int, f: int)
    requires
        first_closing(s, from, e),
        first_closing(s, from, f),
    ensures
        e == f,
{
}

/// A literal without a `${` is left as it is by interpolation.
pub proof fn lemma_interpolated_without_placeholder(
    s: Seq<char>,
    props: Seq<(Seq<char>, Seq<char>)>,
)
    requires
        forall|i: int| !opens_at(s, i),
    ensures
        interpolated(s, props) == s,
{
}

/// Removes `[` and `]` from a version literal.
pub fn clean_version(version: &str) -> (r: String)
    ensures
        r@ == strip_brackets(version@),
{
    let mut out = String::new();
    for c in it: version.chars()
        invariant
            it.seq() == version@,
            out@ == strip_brackets(version@.take(it.index())),
    {
        proof {
            version@.lemma_take_succ_push(it.index());
            version@.take(it.index()).lemma_filter_push(c, |c: char| c != '[' && c != ']');
        }
        if c != '[' && c != ']' {
            push_char(&mut out, c);
        }
    }
    assert(version@.take(version@.len() as int) =~= version@);
    out
}

fn find_opening(v: &Vec<char>) -> (r: Option<usize>)
    ensures
        match r {
            Some(i) => first_opening(v@, i as int),
            None => forall|j: int| !opens_at(v@, j),
        },
{
    let n = v.len();
    let mut i: usize = 0;
    while i < n
        invariant
            n == v@.len(),
            i <= n,
            forall|j: int| 0 <= j < i ==> !opens_at(v@, j),
        decreases n - i,
    {
        if v[i] == '$' && i + 1 < n && v[i + 1] == '{' {
            return Some(i);
        }
        i += 1;
    }
    None
}

fn find_closing(v: &Vec<char>, from: usize) -> (r: Option<usize>)
    requires
        from <= v@.len(),
    ensures
        match r {
            Some(e) => first_closing(v@, from as int, e as int),
            None => forall|j: int| from <= j < v@.len() ==> v@[j] != '}',
        },
{
    let n = v.len();
    let mut i: usize = from;
    while i < n
        invariant
            n == v@.len(),
            from <= i <= n,
            forall|j: int| from <= j < i ==> v@[j] != '}',
        decreases n - i,
    {
        if v[i] == '}' {
            return Some(i);
        }
        i += 1;
    }
    None
}

/// Interpolates a version literal against `properties`.
pub fn interpolate_version(version: &str, properties: &Properties) -> (r: String)
    ensures
        r@ == interpolated(version@, properties@),
{
    let v = to_chars(version);
    let n = v.len();
    let start = match find_opening(&v) {
        Some(start) => start,
        None => {
            return String::from_str(version);
        },
    };
    let end = match find_closing(&v, start + 2) {
        Some(end) => end,
        None => {
            proof {
                lemma_first_opening_unique(v@, start as int, choose|i: int| first_opening(v@, i));
            }
            return String::from_str(version);
        },
    };
    proof {
        lemma_first_opening_unique(v@, start as int, choose|i: int| first_opening(v@, i));
        let ghost from = start + 2;
        lemma_first_closing_unique(v@, from, end as int, choose|e: int| first_closing(v@, from, e));
    }
    let name = from_chars(&v, start + 2, end);
    match properties.get(&name) {
        Some(value) => {
            let mut out = from_chars(&v, 0, start);
            out.append(value.as_str());
            let tail = from_chars(&v, end + 1, n);
            out.append(tail.as_str());
            out
        },
        None => String::from_str(version),
    }
}

} // verus!
