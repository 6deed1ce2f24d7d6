//! Characters of strings, and the Unicode lowercase mapping and white space of a character.
use vstd::prelude::*;

verus! {

/// Whether `c` has the Unicode White_Space property, as `char::is_whitespace` reports it.
pub uninterp spec fn unicode_white_space(c: char) -> bool;

/// The lowercase mapping of `c`, as `char::to_lowercase` yields it.
pub uninterp spec fn unicode_lowercase(c: char) -> Seq<char>;

/// Calls `char::is_whitespace`.
/// Claims only that the answer is a function of `c`, named `unicode_white_space`.
#[verifier::external_body]
pub(crate) fn is_white_space(c: char) -> (r: bool)
    ensures
        r == unicode_white_space(c),
{
    c.is_whitespace()
}

/// Calls `char::to_lowercase` and collects what it yields.
/// Claims that the characters are a function of `c`, named `unicode_lowercase`, and that
/// there is at least one of them ("one or more chars", as the documentation says).
#[verifier::external_body]
pub(crate) fn lowercase_of(c: char) -> (r: Vec<char>)
    ensures
        r@ == unicode_lowercase(c),
        r@.len() >= 1,
{
    c.to_lowercase().collect()
}

/// `s` with every character replaced by its lowercase mapping.
pub open spec fn lowercase_seq(s: Seq<char>) -> Seq<char>
    decreases s.len(),
{
    if s.len() == 0 {
        Seq::empty()
    } else {
        lowercase_seq(s.drop_last()) + unicode_lowercase(s.last())
    }
}

/// The characters of `s`, in order.
pub(crate) fn chars_of(s: &str) -> (r: Vec<char>)
    ensures
        r@ == s@,
{
    let mut r: Vec<char> = Vec::new();
    for c in it: s.chars()
        invariant
            r@ == it.seq().take(it.index() as int),
    {
        r.push(c);
    }
    r
}

/// The lowercase mappings of `s[from..to]`, concatenated.
pub(crate) fn lowercase_range(s: &Vec<char>, from: usize, to: usize) -> (r: Vec<char>)
    requires
        from <= to <= s.len(),
    ensures
        r@ == lowercase_seq(s@.subrange(from as int, to as int)),
{
    let mut r: Vec<char> = Vec::new();
    let mut i = from;
    while i < to
        invariant
            from <= i <= to <= s.len(),
            r@ == lowercase_seq(s@.subrange(from as int, i as int)),
        decreases to - i,
    {
        let mut l = lowercase_of(s[i]);
        assert(s@.subrange(from as int, i + 1).drop_last() =~= s@.subrange(from as int, i as int));
        r.append(&mut l);
        i = i + 1;
    }
    r
}

} // verus!
