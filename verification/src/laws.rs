//! What holds of every word and every chain.
use vstd::prelude::*;
use crate::casing::{lower_of, lower_word, upper_of, upper_word};
use crate::compiler::compiled_chains;
use crate::driver::{candidate_set, distinct, results};
use crate::engine::{chain_result, repeated, rule_result};
use crate::rule::Rule;

verus! {

/// A chain of one operation does what the operation does.
pub proof fn lemma_single(rule: Rule, w: Seq<char>)
    ensures
        chain_result(seq![rule], w) == rule_result(rule, w),
{
    let chain = seq![rule];
    assert(chain.drop_last() =~= Seq::<Rule>::empty());
    assert(chain_result(chain.drop_last(), w) == w);
    assert(chain.last() == rule);
}

/// A chain of two operations does the first, then the second on what the
/// first made.
pub proof fn lemma_pair(first: Rule, second: Rule, w: Seq<char>)
    ensures
        chain_result(seq![first, second], w) == rule_result(second, rule_result(first, w)),
{
    let chain = seq![first, second];
    assert(chain.drop_last() =~= seq![first]);
    assert(chain.last() == second);
    lemma_single(first, w);
}

/// A chain followed by one more operation does the chain, then the
/// operation: no operation sees more than what the one before it made.
pub proof fn lemma_one_more(chain: Seq<Rule>, rule: Rule, w: Seq<char>)
    ensures
        chain_result(chain.push(rule), w) == rule_result(rule, chain_result(chain, w)),
{
    assert(chain.push(rule).drop_last() =~= chain);
}

/// Two chains in a row do what the first does, then what the second does
/// to the result.
pub proof fn lemma_chains_in_a_row(first: Seq<Rule>, second: Seq<Rule>, w: Seq<char>)
    ensures
        chain_result(first + second, w) == chain_result(second, chain_result(first, w)),
    decreases second.len(),
{
    if second.len() == 0 {
        assert(first + second =~= first);
    } else {
        lemma_chains_in_a_row(first, second.drop_last(), w);
        assert((first + second).drop_last() =~= first + second.drop_last());
        assert((first + second).last() == second.last());
    }
}

/// The empty chain leaves every word as it is.
pub proof fn lemma_empty_chain(w: Seq<char>)
    ensures
        chain_result(Seq::empty(), w) == w,
{
}

/// Reversing twice gives the word back.
pub proof fn lemma_reverse_twice(w: Seq<char>)
    ensures
        chain_result(seq![Rule::Reverse, Rule::Reverse], w) == w,
{
    lemma_pair(Rule::Reverse, Rule::Reverse, w);
    assert(w.reverse().reverse() =~= w);
}

/// The uppercase of two words in a row is the uppercase of the first, then
/// that of the second.
pub proof fn lemma_upper_word_concat(a: Seq<char>, b: Seq<char>)
    ensures
        upper_word(a + b) == upper_word(a) + upper_word(b),
    decreases b.len(),
{
    if b.len() == 0 {
        assert(a + b =~= a);
        assert(upper_word(a) + upper_word(b) =~= upper_word(a));
    } else {
        lemma_upper_word_concat(a, b.drop_last());
        assert((a + b).drop_last() =~= a + b.drop_last());
        assert((a + b).last() == b.last());
        assert(upper_word(a + b) =~= upper_word(a) + upper_word(b));
    }
}

/// The lowercase of two words in a row is the lowercase of the first, then
/// that of the second.
pub proof fn lemma_lower_word_concat(a: Seq<char>, b: Seq<char>)
    ensures
        lower_word(a + b) == lower_word(a) + lower_word(b),
    decreases b.len(),
{
    if b.len() == 0 {
        assert(a + b =~= a);
        assert(lower_word(a) + lower_word(b) =~= lower_word(a));
    } else {
        lemma_lower_word_concat(a, b.drop_last());
        assert((a + b).drop_last() =~= a + b.drop_last());
        assert((a + b).last() == b.last());
        assert(lower_word(a + b) =~= lower_word(a) + lower_word(b));
    }
}

/// Where uppercasing the lowercase mapping of each character of a word gives
/// that character's uppercase mapping, uppercasing the lowercased word gives
/// the uppercased word.
pub proof fn lemma_upper_absorbs_lower(w: Seq<char>)
    requires
        forall|i: int| 0 <= i < w.len() ==> upper_word(lower_of(#[trigger] w[i])) == upper_of(w[i]),
    ensures
        upper_word(lower_word(w)) == upper_word(w),
    decreases w.len(),
{
    if w.len() > 0 {
        let init = w.drop_last();
        assert forall|i: int| 0 <= i < init.len() implies upper_word(
            lower_of(#[trigger] init[i]),
        ) == upper_of(init[i]) by {
            assert(init[i] == w[i]);
        }
        lemma_upper_absorbs_lower(init);
        lemma_upper_word_concat(lower_word(init), lower_of(w.last()));
        assert(w.last() == w[w.len() - 1]);
    }
}

/// Where lowercasing the uppercase mapping of each character of a word gives
/// that character's lowercase mapping, lowercasing the uppercased word gives
/// the lowercased word.
pub proof fn lemma_lower_absorbs_upper(w: Seq<char>)
    requires
        forall|i: int| 0 <= i < w.len() ==> lower_word(upper_of(#[trigger] w[i])) == lower_of(w[i]),
    ensures
        lower_word(upper_word(w)) == lower_word(w),
    decreases w.len(),
{
    if w.len() > 0 {
        let init = w.drop_last();
        assert forall|i: int| 0 <= i < init.len() implies lower_word(
            upper_of(#[trigger] init[i]),
        ) == lower_of(init[i]) by {
            assert(init[i] == w[i]);
        }
        lemma_lower_absorbs_upper(init);
        lemma_lower_word_concat(upper_word(init), upper_of(w.last()));
        assert(w.last() == w[w.len() - 1]);
    }
}

/// Lowercasing and then uppercasing gives the uppercased word, for every
/// word on which the later uppercasing undoes the lowercasing.
pub proof fn lemma_lower_then_upper(w: Seq<char>)
    requires
        upper_word(lower_word(w)) == upper_word(w),
    ensures
        chain_result(seq![Rule::Lowercase, Rule::Uppercase], w) == upper_word(w),
{
    lemma_pair(Rule::Lowercase, Rule::Uppercase, w);
}

/// Uppercasing and then lowercasing gives the lowercased word, for every
/// word on which the later lowercasing undoes the uppercasing.
pub proof fn lemma_upper_then_lower(w: Seq<char>)
    requires
        lower_word(upper_word(w)) == lower_word(w),
    ensures
        chain_result(seq![Rule::Uppercase, Rule::Lowercase], w) == lower_word(w),
{
    lemma_pair(Rule::Uppercase, Rule::Lowercase, w);
}

/// Duplicating writes the word twice; duplicating three times writes it
/// three times; duplicating no times leaves nothing.
pub proof fn lemma_duplicates(w: Seq<char>)
    ensures
        chain_result(seq![Rule::Duplicate], w) == w + w,
        chain_result(seq![Rule::DuplicateN(3)], w) == w + w + w,
        chain_result(seq![Rule::DuplicateN(0)], w) == Seq::<char>::empty(),
{
    lemma_single(Rule::Duplicate, w);
    lemma_single(Rule::DuplicateN(3), w);
    lemma_single(Rule::DuplicateN(0), w);
    assert(repeated(w, 3) =~= w + w + w) by {
        reveal_with_fuel(repeated, 4);
    }
}

/// Writing a word `n` times gives `n` times its length.
pub proof fn lemma_repeated_len(w: Seq<char>, n: nat)
    ensures
        repeated(w, n).len() == n * w.len(),
    decreases n,
{
    if n > 0 {
        lemma_repeated_len(w, (n - 1) as nat);
        assert(n * w.len() == (n - 1) * w.len() + w.len()) by (nonlinear_arith)
            requires
                n > 0,
        ;
    } else {
        assert(0 * w.len() == 0);
    }
}

/// Rotating a word of at most one character leaves it as it is.
pub proof fn lemma_short_rotation(w: Seq<char>)
    requires
        w.len() <= 1,
    ensures
        rule_result(Rule::RotateLeft, w) == w,
        rule_result(Rule::RotateRight, w) == w,
{
    if w.len() == 1 {
        assert(w.skip(1).push(w[0]) =~= w);
        assert(seq![w.last()] + w.drop_last() =~= w);
    }
}

/// Rotating to one side and then to the other gives the word back.
pub proof fn lemma_rotations_undo(w: Seq<char>)
    ensures
        chain_result(seq![Rule::RotateLeft, Rule::RotateRight], w) == w,
        chain_result(seq![Rule::RotateRight, Rule::RotateLeft], w) == w,
{
    lemma_pair(Rule::RotateLeft, Rule::RotateRight, w);
    lemma_pair(Rule::RotateRight, Rule::RotateLeft, w);
    if w.len() > 0 {
        let left = w.skip(1).push(w[0]);
        assert(seq![left.last()] + left.drop_last() =~= w);
        let right = seq![w.last()] + w.drop_last();
        assert(right.skip(1).push(right[0]) =~= w);
    }
}

/// An operation whose position lies beyond the word leaves the word as it
/// is; extracting from there leaves nothing. Inserting at the end of the word
/// appends.
pub proof fn lemma_out_of_range(w: Seq<char>, pos: usize, count: usize, c: char)
    requires
        pos >= w.len(),
    ensures
        rule_result(Rule::ToggleAt(pos), w) == w,
        rule_result(Rule::DeleteAt(pos), w) == w,
        rule_result(Rule::OverwriteAt(pos, c), w) == w,
        rule_result(Rule::TruncateAt(pos), w) == w,
        rule_result(Rule::OmitRange(pos, count), w) == w,
        rule_result(Rule::ExtractRange(pos, count), w) == Seq::<char>::empty(),
        pos > w.len() ==> rule_result(Rule::InsertAt(pos, c), w) == w,
        pos == w.len() ==> rule_result(Rule::InsertAt(pos, c), w) == w.push(c),
{
    assert(w.take(w.len() as int) =~= w);
    assert(w.take(w.len() as int) + w.skip(w.len() as int) =~= w);
    assert(w.subrange(w.len() as int, w.len() as int) =~= Seq::<char>::empty());
    if pos == w.len() {
        assert(w.insert(pos as int, c) =~= w.push(c));
    }
}

/// Every operation leaves the empty word empty, but for those that add a
/// character.
pub proof fn lemma_empty_word(rule: Rule)
    ensures
        !(rule is Append || rule is Prepend || rule is InsertAt) ==> rule_result(
            rule,
            Seq::empty(),
        ) == Seq::<char>::empty(),
{
    let e = Seq::<char>::empty();
    match rule {
        Rule::Reverse => {
            assert(e.reverse() =~= e);
        },
        Rule::Duplicate => {
            assert(e + e =~= e);
        },
        Rule::Reflect => {
            assert(e + e.reverse() =~= e);
        },
        Rule::DuplicateN(n) => {
            lemma_repeated_len(e, n as nat);
            assert(repeated(e, n as nat) =~= e);
        },
        Rule::ToggleCase => {
            assert(rule_result(rule, e) =~= e);
        },
        Rule::Replace(a, b) => {
            assert(rule_result(rule, e) =~= e);
        },
        Rule::DuplicateAll => {
            assert(rule_result(rule, e) =~= e);
        },
        Rule::Purge(a) => {
            reveal(Seq::filter);
        },
        Rule::ExtractRange(pos, count) => {
            assert(rule_result(rule, e) =~= e);
        },
        Rule::OmitRange(pos, count) => {
            assert(rule_result(rule, e) =~= e);
        },
        Rule::TruncateAt(pos) => {
            assert(rule_result(rule, e) =~= e);
        },
        _ => {},
    }
}

/// Two compilations of one text give chains with the same candidates for
/// every word, in the same order.
pub proof fn lemma_same_text_same_candidates(
    first: Seq<Seq<Rule>>,
    second: Seq<Seq<Rule>>,
    text: Seq<char>,
    w: Seq<char>,
)
    requires
        first == compiled_chains(text),
        second == compiled_chains(text),
    ensures
        candidate_set(first, w) == candidate_set(second, w),
        distinct(results(first, w)) == distinct(results(second, w)),
{
}

} // verus!
