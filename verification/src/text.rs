//! Conversions between strings and character vectors.
use vstd::prelude::*;
use vstd::string::StringExecFns;

verus! {

/// `String::push` appends the given character at the end of the string.
pub assume_specification[ String::push ](s: &mut String, c: char)
    ensures
        final(s)@ == old(s)@.push(c),
;

/// The characters of `s`, in order.
pub fn chars_of(s: &str) -> (out: Vec<char>)
    ensures
        out@ == s@,
{
    let mut out: Vec<char> = Vec::new();
    for c in it: s.chars()
        invariant
            it.seq() == s@,
            out@ == it.seq().take(it.index() as int),
    {
        out.push(c);
        assert(it.seq().take(it.index() + 1) =~= it.seq().take(it.index() as int).push(c));
    }
    assert(s@.take(s@.len() as int) =~= s@);
    out
}

/// The string made of the characters of `word`, in order.
pub fn string_of(word: &Vec<char>) -> (out: String)
    ensures
        out@ == word@,
{
    let mut out = String::new();
    let mut i: usize = 0;
    while i < word.len()
        invariant
            i <= word.len(),
            out@ == word@.take(i as int),
        decreases word.len() - i,
    {
        out.push(word[i]);
        assert(word@.take(i + 1) =~= word@.take(i as int).push(word@[i as int]));
        i += 1;
    }
    assert(word@.take(word.len() as int) =~= word@);
    out
}

/// The texts of `parts` in a row, each followed by a line terminator.
pub open spec fn joined(parts: Seq<Seq<char>>) -> Seq<char>
    decreases parts.len(),
{
    if parts.len() == 0 {
        Seq::empty()
    } else {
        joined(parts.drop_last()) + parts.last().push('\n')
    }
}

/// Joins rule texts into one source: each text is followed by a line
/// terminator, so that the last line of one never runs into the first line
/// of the next.
pub fn join_sources(parts: &Vec<String>) -> (out: String)
    ensures
        out@ == joined(parts@.map_values(|part: String| part@)),
{
    let ghost texts = parts@.map_values(|part: String| part@);
    let mut out = String::new();
    let mut i: usize = 0;
    while i < parts.len()
        invariant
            i <= parts.len(),
            texts == parts@.map_values(|part: String| part@),
            out@ == joined(texts.take(i as int)),
        decreases parts.len() - i,
    {
        out.append(parts[i].as_str());
        out.push('\n');
        proof {
            assert(texts.take(i + 1).drop_last() =~= texts.take(i as int));
            assert(texts.take(i + 1).last() == parts@[i as int]@);
            assert(out@ =~= joined(texts.take(i as int)) + parts@[i as int]@.push('\n'));
        }
        i += 1;
    }
    assert(texts.take(parts.len() as int) =~= texts);
    out
}

} // verus!
