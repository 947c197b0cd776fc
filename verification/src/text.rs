//! Characters and strings: the few operations of the standard library that
//! the key grammar relies on, and conversions between strings and vectors of
//! characters.

use vstd::prelude::*;

verus! {

/// Whether `char::is_uppercase` holds of a character.
pub uninterp spec fn is_uppercase(c: char) -> bool;

/// The first character that `char::to_lowercase` yields for a character.
pub uninterp spec fn lowercase(c: char) -> char;

/// The first character that `char::to_uppercase` yields for a character.
pub uninterp spec fn uppercase(c: char) -> char;

/// The characters of the string that `str::to_lowercase` returns for a string
/// made of the given characters.
pub uninterp spec fn lowercase_text(s: Seq<char>) -> Seq<char>;

/// Calls `char::is_uppercase`, which tests the Unicode property `Uppercase`.
/// The contract gives the answer a name and claims nothing else about it.
#[verifier::external_body]
pub(crate) fn char_is_uppercase(c: char) -> (b: bool)
    ensures
        b == is_uppercase(c),
{
    c.is_uppercase()
}

/// Calls `char::to_lowercase` and takes the first character of the mapping,
/// which has one character or more. The contract gives that
/// character a name and claims nothing else about it.
#[verifier::external_body]
pub(crate) fn char_lowercase(c: char) -> (l: char)
    ensures
        l == lowercase(c),
{
    c.to_lowercase().next().unwrap_or(c)
}

/// Calls `char::to_uppercase` and takes the first character of the mapping,
/// which has one character or more. The contract gives that
/// character a name and claims nothing else about it.
#[verifier::external_body]
pub(crate) fn char_uppercase(c: char) -> (u: char)
    ensures
        u == uppercase(c),
{
    c.to_uppercase().next().unwrap_or(c)
}

/// Calls `str::to_lowercase`. The contract names the characters of the
/// returned string as a function of the characters of the argument and
/// claims nothing else about them.
#[verifier::external_body]
pub(crate) fn str_lowercase(s: &str) -> (l: String)
    ensures
        l@ == lowercase_text(s@),
{
    s.to_lowercase()
}

/// Calls `String::push`, which appends one character to the end of the string.
#[verifier::external_body]
pub(crate) fn push_char(s: &mut String, c: char)
    ensures
        final(s)@ == old(s)@.push(c),
{
    s.push(c)
}

/// The characters of a string, in order.
pub fn chars_of(s: &str) -> (v: Vec<char>)
    ensures
        v@ == s@,
{
    let mut v: Vec<char> = Vec::new();
    for c in it: s.chars()
        invariant
            v@ == it.seq().take(it.index() as int),
    {
        v.push(c);
    }
    v
}

/// The string made of the characters `v[from..to]`.
pub fn string_of(v: &Vec<char>, from: usize, to: usize) -> (s: String)
    requires
        from <= to <= v.len(),
    ensures
        s@ == v@.subrange(from as int, to as int),
{
    let mut s = String::new();
    let mut i: usize = from;
    while i < to
        invariant
            from <= i <= to <= v.len(),
            s@ == v@.subrange(from as int, i as int),
        decreases to - i,
    {
        push_char(&mut s, v[i]);
        i += 1;
    }
    s
}

} // verus!
