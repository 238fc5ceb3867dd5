//! Character-level helpers for building and searching strings.

use vstd::prelude::*;
use vstd::string::StringExecFns;

verus! {

/// The view of an optional string: the characters it holds, if any.
pub open spec fn text(o: Option<String>) -> Option<Seq<char>> {
    match o {
        Some(s) => Some(s@),
        None => None,
    }
}

/// Calls `String::push`, which appends one character to the end of the
/// string and leaves the characters before it unchanged.
#[verifier::external_body]
pub(crate) fn push_char(s: &mut String, c: char)
    ensures
        final(s)@ == old(s)@.push(c),
{
    s.push(c)
}

/// The characters of `s`, in order.
pub fn to_chars(s: &str) -> (v: Vec<char>)
    ensures
        v@ == s@,
{
    let mut v: Vec<char> = Vec::new();
    for c in it: s.chars()
        invariant
            it.seq() == s@,
            v@ == s@.take(it.index()),
    {
        proof {
            s@.lemma_take_succ_push(it.index());
        }
        v.push(c);
    }
    v
}

/// A string made of the characters `v[from..to]`.
pub fn from_chars(v: &Vec<char>, from: usize, to: usize) -> (s: String)
    requires
        from <= to <= v@.len(),
    ensures
        s@ == v@.subrange(from as int, to as int),
{
    let mut s = String::new();
    let mut i: usize = from;
    while i < to
        invariant
            from <= i <= to <= v@.len(),
            s@ == v@.subrange(from as int, i as int),
        decreases to - i,
    {
        push_char(&mut s, v[i]);
        i += 1;
        assert(s@ =~= v@.subrange(from as int, i as int));
    }
    s
}

/// An owned copy of `s`.
pub fn owned(s: &str) -> (r: String)
    ensures
        r@ == s@,
{
    String::from_str(s)
}

/// Whether two strings hold the same characters.
pub fn same_str(a: &str, b: &str) -> (r: bool)
    ensures
        r == (a@ == b@),
{
    let x = owned(a);
    let y = owned(b);
    x == y
}

/// Whether two optional strings hold the same characters.
pub fn same_text(a: &Option<String>, b: &Option<String>) -> (r: bool)
    ensures
        r == (text(*a) == text(*b)),
{
    match (a, b) {
        (Some(x), Some(y)) => *x == *y,
        (None, None) => true,
        _ => false,
    }
}

/// Whether an optional string is present and holds exactly `lit`.
pub fn is_text(a: &Option<String>, lit: &str) -> (r: bool)
    ensures
        r == (text(*a) == Some(lit@)),
{
    match a {
        Some(x) => {
            let y = owned(lit);
            *x == y
        },
        None => false,
    }
}

/// A copy of an optional string.
pub fn copy_text(a: &Option<String>) -> (r: Option<String>)
    ensures
        text(r) == text(*a),
{
    match a {
        Some(x) => Some(x.clone()),
        None => None,
    }
}

} // verus!
