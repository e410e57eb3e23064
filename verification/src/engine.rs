//! Applying operations and chains of operations to a word.
use vstd::prelude::*;
use crate::casing::{
    first_lower, first_upper, lower_first, lower_word, to_lower, to_upper, toggle, toggled,
    upper_first, upper_word,
};
use crate::rule::Rule;
use crate::text::{chars_of, string_of};

verus! {

/// `w` written `n` times in a row.
pub open spec fn repeated(w: Seq<char>, n: nat) -> Seq<char>
    decreases n,
{
    if n == 0 {
        Seq::empty()
    } else {
        repeated(w, (n - 1) as nat) + w
    }
}

/// The position `pos`, or the length `len` where `pos` lies beyond it.
pub open spec fn clip(pos: int, len: nat) -> int {
    if pos < len {
        pos
    } else {
        len as int
    }
}

/// The word that one operation makes of `w`.
pub open spec fn rule_result(rule: Rule, w: Seq<char>) -> Seq<char> {
    match rule {
        Rule::Nothing => w,
        Rule::Invalid(_) => w,
        Rule::Lowercase => lower_word(w),
        Rule::Uppercase => upper_word(w),
        Rule::Capitalize => if w.len() == 0 {
            w
        } else {
            w.update(0, upper_first(w[0]))
        },
        Rule::InvertCapitalize => {
            let u = upper_word(w);
            if u.len() == 0 {
                u
            } else {
                u.update(0, lower_first(u[0]))
            }
        },
        Rule::ToggleCase => Seq::new(w.len(), |i: int| toggled(w[i])),
        Rule::ToggleAt(pos) => if pos < w.len() {
            w.update(pos as int, toggled(w[pos as int]))
        } else {
            w
        },
        Rule::Reverse => w.reverse(),
        Rule::Duplicate => w + w,
        Rule::DuplicateN(n) => repeated(w, n as nat),
        Rule::Reflect => w + w.reverse(),
        Rule::RotateLeft => if w.len() == 0 {
            w
        } else {
            w.skip(1).push(w[0])
        },
        Rule::RotateRight => if w.len() == 0 {
            w
        } else {
            seq![w.last()] + w.drop_last()
        },
        Rule::Append(c) => w.push(c),
        Rule::Prepend(c) => seq![c] + w,
        Rule::TruncateLeft => if w.len() == 0 {
            w
        } else {
            w.skip(1)
        },
        Rule::TruncateRight => if w.len() == 0 {
            w
        } else {
            w.drop_last()
        },
        Rule::DeleteAt(pos) => if pos < w.len() {
            w.remove(pos as int)
        } else {
            w
        },
        Rule::ExtractRange(pos, count) => w.subrange(
            clip(pos as int, w.len()),
            clip(pos + count, w.len()),
        ),
        Rule::OmitRange(pos, count) => w.take(clip(pos as int, w.len())) + w.skip(
            clip(pos + count, w.len()),
        ),
        Rule::InsertAt(pos, c) => if pos <= w.len() {
            w.insert(pos as int, c)
        } else {
            w
        },
        Rule::OverwriteAt(pos, c) => if pos < w.len() {
            w.update(pos as int, c)
        } else {
            w
        },
        Rule::TruncateAt(pos) => w.take(clip(pos as int, w.len())),
        Rule::Replace(a, b) => Seq::new(
            w.len(),
            |i: int|
                if w[i] == a {
                    b
                } else {
                    w[i]
                },
        ),
        Rule::Purge(a) => w.filter(|c: char| c != a),
        Rule::DuplicateFirstN(n) => if w.len() == 0 {
            w
        } else {
            repeated(seq![w[0]], n as nat) + w
        },
        Rule::DuplicateLastN(n) => if w.len() == 0 {
            w
        } else {
            w + repeated(seq![w.last()], n as nat)
        },
        Rule::DuplicateAll => Seq::new(2 * w.len(), |i: int| w[i / 2]),
    }
}

/// The word that a chain makes of `w`: its operations applied from left to
/// right, each to what the one before it made.
pub open spec fn chain_result(chain: Seq<Rule>, w: Seq<char>) -> Seq<char>
    decreases chain.len(),
{
    if chain.len() == 0 {
        w
    } else {
        rule_result(chain.last(), chain_result(chain.drop_last(), w))
    }
}

/// Adds the characters of `w` from `from` up to `to` at the end of `out`.
fn push_range(out: &mut Vec<char>, w: &Vec<char>, from: usize, to: usize)
    requires
        from <= to <= w.len(),
    ensures
        final(out)@ == old(out)@ + w@.subrange(from as int, to as int),
{
    let mut i: usize = from;
    while i < to
        invariant
            from <= i <= to <= w.len(),
            out@ == old(out)@ + w@.subrange(from as int, i as int),
        decreases to - i,
    {
        out.push(w[i]);
        assert(w@.subrange(from as int, i + 1) =~= w@.subrange(from as int, i as int).push(
            w@[i as int],
        ));
        assert(out@ =~= old(out)@ + w@.subrange(from as int, i + 1));
        i += 1;
    }
}

/// Adds `c` at the end of `out`, `n` times.
fn push_repeated(out: &mut Vec<char>, c: char, n: usize)
    ensures
        final(out)@ == old(out)@ + repeated(seq![c], n as nat),
{
    let mut i: usize = 0;
    while i < n
        invariant
            i <= n,
            out@ == old(out)@ + repeated(seq![c], i as nat),
        decreases n - i,
    {
        out.push(c);
        assert(out@ =~= old(out)@ + repeated(seq![c], (i + 1) as nat));
        i += 1;
    }
}

/// Adds the characters of `w` at the end of `out`, last first.
fn push_reversed(out: &mut Vec<char>, w: &Vec<char>)
    ensures
        final(out)@ == old(out)@ + w@.reverse(),
{
    let n = w.len();
    let mut i: usize = 0;
    while i < n
        invariant
            n == w.len(),
            i <= n,
            out@ == old(out)@ + w@.reverse().take(i as int),
        decreases n - i,
    {
        out.push(w[n - 1 - i]);
        assert(out@ =~= old(out)@ + w@.reverse().take(i + 1));
        i += 1;
    }
    assert(w@.reverse().take(n as int) =~= w@.reverse());
}

/// Computes [`upper_word`].
pub fn uppercase(w: &Vec<char>) -> (out: Vec<char>)
    ensures
        out@ == upper_word(w@),
{
    let mut out: Vec<char> = Vec::new();
    let mut i: usize = 0;
    while i < w.len()
        invariant
            i <= w.len(),
            out@ == upper_word(w@.take(i as int)),
        decreases w.len() - i,
    {
        let m = to_upper(w[i]);
        let k = m.len();
        push_range(&mut out, &m, 0, k);
        proof {
            assert(m@.subrange(0, k as int) =~= m@);
            assert(w@.take(i + 1).drop_last() =~= w@.take(i as int));
        }
        i += 1;
    }
    assert(w@.take(w.len() as int) =~= w@);
    out
}

/// Computes [`lower_word`].
pub fn lowercase(w: &Vec<char>) -> (out: Vec<char>)
    ensures
        out@ == lower_word(w@),
{
    let mut out: Vec<char> = Vec::new();
    let mut i: usize = 0;
    while i < w.len()
        invariant
            i <= w.len(),
            out@ == lower_word(w@.take(i as int)),
        decreases w.len() - i,
    {
        let m = to_lower(w[i]);
        let k = m.len();
        push_range(&mut out, &m, 0, k);
        proof {
            assert(m@.subrange(0, k as int) =~= m@);
            assert(w@.take(i + 1).drop_last() =~= w@.take(i as int));
        }
        i += 1;
    }
    assert(w@.take(w.len() as int) =~= w@);
    out
}

/// `w` with the case of every character toggled.
fn toggle_all(w: &Vec<char>) -> (out: Vec<char>)
    ensures
        out@ == rule_result(Rule::ToggleCase, w@),
{
    let mut out: Vec<char> = Vec::new();
    let mut i: usize = 0;
    while i < w.len()
        invariant
            i <= w.len(),
            out@.len() == i,
            forall|j: int| 0 <= j < i ==> out@[j] == toggled(w@[j]),
        decreases w.len() - i,
    {
        out.push(toggle(w[i]));
        i += 1;
    }
    assert(out@ =~= rule_result(Rule::ToggleCase, w@));
    out
}

/// `w` with every `a` replaced by `b`.
fn replace_all(w: &Vec<char>, a: char, b: char) -> (out: Vec<char>)
    ensures
        out@ == rule_result(Rule::Replace(a, b), w@),
{
    let mut out: Vec<char> = Vec::new();
    let mut i: usize = 0;
    while i < w.len()
        invariant
            i <= w.len(),
            out@.len() == i,
            forall|j: int|
                0 <= j < i ==> out@[j] == if w@[j] == a {
                    b
                } else {
                    w@[j]
                },
        decreases w.len() - i,
    {
        let c = w[i];
        out.push(if c == a { b } else { c });
        i += 1;
    }
    assert(out@ =~= rule_result(Rule::Replace(a, b), w@));
    out
}

/// `w` without any `a`.
fn purge(w: &Vec<char>, a: char) -> (out: Vec<char>)
    ensures
        out@ == rule_result(Rule::Purge(a), w@),
{
    let ghost keep = |c: char| c != a;
    let mut out: Vec<char> = Vec::new();
    let mut i: usize = 0;
    while i < w.len()
        invariant
            i <= w.len(),
            keep == |c: char| c != a,
            out@ == w@.take(i as int).filter(keep),
        decreases w.len() - i,
    {
        let c = w[i];
        proof {
            reveal(Seq::filter);
            assert(w@.take(i + 1).drop_last() =~= w@.take(i as int));
        }
        if c != a {
            out.push(c);
        }
        i += 1;
    }
    assert(w@.take(w.len() as int) =~= w@);
    out
}

/// `w` with every character written twice.
fn double_each(w: &Vec<char>) -> (out: Vec<char>)
    ensures
        out@ == rule_result(Rule::DuplicateAll, w@),
{
    let mut out: Vec<char> = Vec::new();
    let mut i: usize = 0;
    while i < w.len()
        invariant
            i <= w.len(),
            out@.len() == 2 * i,
            forall|j: int| 0 <= j < 2 * i ==> out@[j] == w@[j / 2],
        decreases w.len() - i,
    {
        out.push(w[i]);
        out.push(w[i]);
        i += 1;
    }
    assert(out@ =~= rule_result(Rule::DuplicateAll, w@));
    out
}

/// `w` written `n` times in a row.
fn repeat_word(w: &Vec<char>, n: usize) -> (out: Vec<char>)
    ensures
        out@ == repeated(w@, n as nat),
{
    let mut out: Vec<char> = Vec::new();
    let len = w.len();
    let mut i: usize = 0;
    while i < n
        invariant
            i <= n,
            len == w.len(),
            out@ == repeated(w@, i as nat),
        decreases n - i,
    {
        push_range(&mut out, w, 0, len);
        assert(w@.subrange(0, len as int) =~= w@);
        i += 1;
    }
    out
}

/// `w` with `c` in place of the character at `pos`.
pub fn with_char_at(w: &Vec<char>, pos: usize, c: char) -> (out: Vec<char>)
    requires
        pos < w.len(),
    ensures
        out@ == w@.update(pos as int, c),
{
    let mut out: Vec<char> = Vec::new();
    push_range(&mut out, w, 0, pos);
    out.push(c);
    push_range(&mut out, w, pos + 1, w.len());
    assert(out@ =~= w@.update(pos as int, c));
    out
}

/// Applies one operation to a word.
pub fn apply_rule(rule: &Rule, w: &Vec<char>) -> (out: Vec<char>)
    ensures
        out@ == rule_result(*rule, w@),
{
    let len = w.len();
    let mut out: Vec<char> = Vec::new();
    match *rule {
        Rule::Nothing => {
            push_range(&mut out, w, 0, len);
            assert(out@ =~= w@);
        },
        Rule::Invalid(_) => {
            push_range(&mut out, w, 0, len);
            assert(out@ =~= w@);
        },
        Rule::Lowercase => {
            out = lowercase(w);
        },
        Rule::Uppercase => {
            out = uppercase(w);
        },
        Rule::Capitalize => {
            if len > 0 {
                out = with_char_at(w, 0, first_upper(w[0]));
            }
            assert(out@ =~= rule_result(*rule, w@));
        },
        Rule::InvertCapitalize => {
            let u = uppercase(w);
            if u.len() > 0 {
                out = with_char_at(&u, 0, first_lower(u[0]));
            }
            assert(out@ =~= rule_result(*rule, w@));
        },
        Rule::ToggleCase => {
            out = toggle_all(w);
        },
        Rule::ToggleAt(pos) => {
            if pos < len {
                out = with_char_at(w, pos, toggle(w[pos]));
            } else {
                push_range(&mut out, w, 0, len);
                assert(out@ =~= w@);
            }
        },
        Rule::Reverse => {
            push_reversed(&mut out, w);
            assert(out@ =~= w@.reverse());
        },
        Rule::Duplicate => {
            push_range(&mut out, w, 0, len);
            push_range(&mut out, w, 0, len);
            assert(out@ =~= w@ + w@);
        },
        Rule::DuplicateN(n) => {
            out = repeat_word(w, n);
        },
        Rule::Reflect => {
            push_range(&mut out, w, 0, len);
            push_reversed(&mut out, w);
            assert(out@ =~= w@ + w@.reverse());
        },
        Rule::RotateLeft => {
            if len > 0 {
                push_range(&mut out, w, 1, len);
                out.push(w[0]);
            }
            assert(out@ =~= rule_result(*rule, w@));
        },
        Rule::RotateRight => {
            if len > 0 {
                out.push(w[len - 1]);
                push_range(&mut out, w, 0, len - 1);
            }
            assert(out@ =~= rule_result(*rule, w@));
        },
        Rule::Append(c) => {
            push_range(&mut out, w, 0, len);
            out.push(c);
            assert(out@ =~= w@.push(c));
        },
        Rule::Prepend(c) => {
            out.push(c);
            push_range(&mut out, w, 0, len);
            assert(out@ =~= seq![c] + w@);
        },
        Rule::TruncateLeft => {
            if len > 0 {
                push_range(&mut out, w, 1, len);
            }
            assert(out@ =~= rule_result(*rule, w@));
        },
        Rule::TruncateRight => {
            if len > 0 {
                push_range(&mut out, w, 0, len - 1);
            }
            assert(out@ =~= rule_result(*rule, w@));
        },
        Rule::DeleteAt(pos) => {
            if pos < len {
                push_range(&mut out, w, 0, pos);
                push_range(&mut out, w, pos + 1, len);
            } else {
                push_range(&mut out, w, 0, len);
            }
            assert(out@ =~= rule_result(*rule, w@));
        },
        Rule::ExtractRange(pos, count) => {
            let from = if pos < len { pos } else { len };
            let to = if count < len - from { from + count } else { len };
            push_range(&mut out, w, from, to);
            assert(out@ =~= rule_result(*rule, w@));
        },
        Rule::OmitRange(pos, count) => {
            let from = if pos < len { pos } else { len };
            let to = if count < len - from { from + count } else { len };
            push_range(&mut out, w, 0, from);
            push_range(&mut out, w, to, len);
            assert(out@ =~= rule_result(*rule, w@));
        },
        Rule::InsertAt(pos, c) => {
            if pos <= len {
                push_range(&mut out, w, 0, pos);
                out.push(c);
                push_range(&mut out, w, pos, len);
            } else {
                push_range(&mut out, w, 0, len);
            }
            assert(out@ =~= rule_result(*rule, w@));
        },
        Rule::OverwriteAt(pos, c) => {
            if pos < len {
                out = with_char_at(w, pos, c);
            } else {
                push_range(&mut out, w, 0, len);
                assert(out@ =~= w@);
            }
        },
        Rule::TruncateAt(pos) => {
            let to = if pos < len { pos } else { len };
            push_range(&mut out, w, 0, to);
            assert(out@ =~= rule_result(*rule, w@));
        },
        Rule::Replace(a, b) => {
            out = replace_all(w, a, b);
        },
        Rule::Purge(a) => {
            out = purge(w, a);
        },
        Rule::DuplicateFirstN(n) => {
            if len > 0 {
                push_repeated(&mut out, w[0], n);
                push_range(&mut out, w, 0, len);
            }
            assert(out@ =~= rule_result(*rule, w@));
        },
        Rule::DuplicateLastN(n) => {
            if len > 0 {
                push_range(&mut out, w, 0, len);
                push_repeated(&mut out, w[len - 1], n);
            }
            assert(out@ =~= rule_result(*rule, w@));
        },
        Rule::DuplicateAll => {
            out = double_each(w);
        },
    }
    out
}

/// Applies the operations of a chain to a word, from left to right.
pub fn apply_chain(chain: &Vec<Rule>, w: &Vec<char>) -> (out: Vec<char>)
    ensures
        out@ == chain_result(chain@, w@),
{
    let mut out: Vec<char> = Vec::new();
    push_range(&mut out, w, 0, w.len());
    assert(out@ =~= w@);
    let mut i: usize = 0;
    while i < chain.len()
        invariant
            i <= chain.len(),
            out@ == chain_result(chain@.take(i as int), w@),
        decreases chain.len() - i,
    {
        out = apply_rule(&chain[i], &out);
        assert(chain@.take(i + 1).drop_last() =~= chain@.take(i as int));
        i += 1;
    }
    assert(chain@.take(chain.len() as int) =~= chain@);
    out
}

/// Applies a chain to a word given as a string.
pub fn apply(chain: &Vec<Rule>, word: &str) -> (out: String)
    ensures
        out@ == chain_result(chain@, word@),
{
    let w = chars_of(word);
    let r = apply_chain(chain, &w);
    string_of(&r)
}

} // verus!
