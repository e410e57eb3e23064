//! Unicode case mappings of single characters, as the standard library
//! gives them.
use vstd::prelude::*;

verus! {

/// The uppercase mapping of `c`: what `char::to_uppercase` yields.
pub uninterp spec fn upper_of(c: char) -> Seq<char>;

/// The lowercase mapping of `c`: what `char::to_lowercase` yields.
pub uninterp spec fn lower_of(c: char) -> Seq<char>;

/// Whether `c` is a lowercase character in the sense of Unicode: what
/// `char::is_lowercase` returns.
pub uninterp spec fn is_lower(c: char) -> bool;

/// Calls `char::to_uppercase` and collects the characters it yields. The
/// contract only names that result; nothing is claimed of what it holds.
#[verifier::external_body]
pub(crate) fn to_upper(c: char) -> (out: Vec<char>)
    ensures
        out@ == upper_of(c),
{
    c.to_uppercase().collect()
}

/// Calls `char::to_lowercase` and collects the characters it yields. The
/// contract only names that result; nothing is claimed of what it holds.
#[verifier::external_body]
pub(crate) fn to_lower(c: char) -> (out: Vec<char>)
    ensures
        out@ == lower_of(c),
{
    c.to_lowercase().collect()
}

/// Calls `char::is_lowercase`. The contract only names the answer.
#[verifier::external_body]
pub(crate) fn has_lower_case(c: char) -> (out: bool)
    ensures
        out == is_lower(c),
{
    c.is_lowercase()
}

/// The first character of `s`, or `d` where `s` is empty.
pub open spec fn first_or(s: Seq<char>, d: char) -> char {
    if s.len() > 0 {
        s[0]
    } else {
        d
    }
}

/// The first character of the uppercase mapping of `c`.
pub open spec fn upper_first(c: char) -> char {
    first_or(upper_of(c), c)
}

/// The first character of the lowercase mapping of `c`.
pub open spec fn lower_first(c: char) -> char {
    first_or(lower_of(c), c)
}

/// `c` with its case toggled: a lowercase character becomes the first
/// character of its uppercase mapping, any other the first of its lowercase
/// mapping.
pub open spec fn toggled(c: char) -> char {
    if is_lower(c) {
        upper_first(c)
    } else {
        lower_first(c)
    }
}

/// The mappings [`upper_of`] of the characters of `w`, one after the other.
pub open spec fn upper_word(w: Seq<char>) -> Seq<char>
    decreases w.len(),
{
    if w.len() == 0 {
        Seq::empty()
    } else {
        upper_word(w.drop_last()) + upper_of(w.last())
    }
}

/// The mappings [`lower_of`] of the characters of `w`, one after the other.
pub open spec fn lower_word(w: Seq<char>) -> Seq<char>
    decreases w.len(),
{
    if w.len() == 0 {
        Seq::empty()
    } else {
        lower_word(w.drop_last()) + lower_of(w.last())
    }
}

/// Computes [`first_or`].
pub fn first_of(mapping: &Vec<char>, fallback: char) -> (out: char)
    ensures
        out == first_or(mapping@, fallback),
{
    if mapping.len() > 0 {
        mapping[0]
    } else {
        fallback
    }
}

/// Computes [`upper_first`].
pub fn first_upper(c: char) -> (out: char)
    ensures
        out == upper_first(c),
{
    let mapping = to_upper(c);
    first_of(&mapping, c)
}

/// Computes [`lower_first`].
pub fn first_lower(c: char) -> (out: char)
    ensures
        out == lower_first(c),
{
    let mapping = to_lower(c);
    first_of(&mapping, c)
}

/// Computes [`toggled`].
pub fn toggle(c: char) -> (out: char)
    ensures
        out == toggled(c),
{
    let mapping = if has_lower_case(c) {
        to_upper(c)
    } else {
        to_lower(c)
    };
    first_of(&mapping, c)
}

} // verus!
