//! The candidates of a word: what the chains of a rule set make of it,
//! every distinct result once.
use vstd::prelude::*;
use crate::compiler::chains_of;
use crate::engine::{apply_chain, chain_result};
use crate::rule::Rule;
use crate::text::{chars_of, string_of};

verus! {

/// What each chain of `rules` makes of `w`, in the order of the chains. Every
/// chain starts from `w` itself.
pub open spec fn results(rules: Seq<Seq<Rule>>, w: Seq<char>) -> Seq<Seq<char>> {
    Seq::new(rules.len(), |i: int| chain_result(rules[i], w))
}

/// The words of `s` without repetition: each stands where it first occurs.
pub open spec fn distinct(s: Seq<Seq<char>>) -> Seq<Seq<char>>
    decreases s.len(),
{
    if s.len() == 0 {
        Seq::empty()
    } else if distinct(s.drop_last()).contains(s.last()) {
        distinct(s.drop_last())
    } else {
        distinct(s.drop_last()).push(s.last())
    }
}

/// The set of candidates of `w` under `rules`.
pub open spec fn candidate_set(rules: Seq<Seq<Rule>>, w: Seq<char>) -> Set<Seq<char>> {
    results(rules, w).to_set()
}

/// The words of `v` as sequences.
pub open spec fn words_of(v: Seq<Vec<char>>) -> Seq<Seq<char>> {
    v.map_values(|w: Vec<char>| w@)
}

/// The strings of `v` as sequences.
pub open spec fn strings_of(v: Seq<String>) -> Seq<Seq<char>> {
    v.map_values(|s: String| s@)
}

/// `distinct(s)` holds the word `x` exactly where `s` holds it.
pub proof fn lemma_distinct_holds(s: Seq<Seq<char>>, x: Seq<char>)
    ensures
        distinct(s).contains(x) <==> s.contains(x),
    decreases s.len(),
{
    if s.len() > 0 {
        let init = s.drop_last();
        let d = distinct(init);
        lemma_distinct_holds(init, x);
        lemma_distinct_holds(init, s.last());
        if s.contains(x) {
            let i = choose|i: int| 0 <= i < s.len() && s[i] == x;
            if i < s.len() - 1 {
                assert(init[i] == x);
                assert(d.contains(x));
                let j = choose|j: int| 0 <= j < d.len() && d[j] == x;
                assert(distinct(s)[j] == x);
            } else if !d.contains(s.last()) {
                assert(distinct(s)[d.len() as int] == x);
            }
            assert(distinct(s).contains(x));
        }
        if distinct(s).contains(x) {
            let j = choose|j: int| 0 <= j < distinct(s).len() && distinct(s)[j] == x;
            if j < d.len() {
                assert(d[j] == x);
                assert(d.contains(x));
                let i = choose|i: int| 0 <= i < init.len() && init[i] == x;
                assert(s[i] == x);
            } else {
                assert(s[s.len() - 1] == x);
            }
            assert(s.contains(x));
        }
    }
}

/// `distinct(s)` holds exactly the words that `s` holds.
pub proof fn lemma_distinct_members(s: Seq<Seq<char>>)
    ensures
        forall|x: Seq<char>| #[trigger] distinct(s).contains(x) <==> s.contains(x),
        distinct(s).to_set() == s.to_set(),
{
    assert forall|x: Seq<char>| #[trigger] distinct(s).contains(x) <==> s.contains(x) by {
        lemma_distinct_holds(s, x);
    }
    assert(distinct(s).to_set() =~= s.to_set());
}

/// No word occurs twice in `distinct(s)`.
pub proof fn lemma_distinct_no_duplicates(s: Seq<Seq<char>>)
    ensures
        distinct(s).no_duplicates(),
    decreases s.len(),
{
    if s.len() > 0 {
        lemma_distinct_no_duplicates(s.drop_last());
    }
}

/// Whether two words hold the same characters.
pub fn same_word(a: &Vec<char>, b: &Vec<char>) -> (out: bool)
    ensures
        out == (a@ == b@),
{
    if a.len() != b.len() {
        return false;
    }
    let mut i: usize = 0;
    while i < a.len()
        invariant
            a.len() == b.len(),
            i <= a.len(),
            a@.take(i as int) == b@.take(i as int),
        decreases a.len() - i,
    {
        if a[i] != b[i] {
            return false;
        }
        assert(a@.take(i + 1) =~= a@.take(i as int).push(a@[i as int]));
        assert(b@.take(i + 1) =~= b@.take(i as int).push(b@[i as int]));
        i += 1;
    }
    assert(a@.take(a.len() as int) =~= a@);
    assert(b@.take(b.len() as int) =~= b@);
    true
}

/// Whether `word` is one of `words`.
pub fn holds_word(words: &Vec<Vec<char>>, word: &Vec<char>) -> (out: bool)
    ensures
        out == words_of(words@).contains(word@),
{
    let mut i: usize = 0;
    while i < words.len()
        invariant
            i <= words.len(),
            forall|j: int| 0 <= j < i ==> words_of(words@)[j] != word@,
        decreases words.len() - i,
    {
        if same_word(&words[i], word) {
            assert(words_of(words@)[i as int] == word@);
            return true;
        }
        i += 1;
    }
    false
}

/// The candidates of `word`: what each chain of `rules` makes of it, every
/// distinct result once, in the order in which the results first come.
pub fn candidate_words(rules: &Vec<Vec<Rule>>, word: &Vec<char>) -> (out: Vec<Vec<char>>)
    ensures
        words_of(out@) == distinct(results(chains_of(rules@), word@)),
        words_of(out@).no_duplicates(),
        words_of(out@).to_set() == candidate_set(chains_of(rules@), word@),
{
    let ghost all = results(chains_of(rules@), word@);
    let mut out: Vec<Vec<char>> = Vec::new();
    let mut i: usize = 0;
    assert(words_of(out@) =~= distinct(all.take(0)));
    while i < rules.len()
        invariant
            i <= rules.len(),
            all == results(chains_of(rules@), word@),
            words_of(out@) == distinct(all.take(i as int)),
        decreases rules.len() - i,
    {
        let r = apply_chain(&rules[i], word);
        proof {
            assert(all.take(i + 1).drop_last() =~= all.take(i as int));
            assert(all.take(i + 1).last() == r@);
        }
        if !holds_word(&out, &r) {
            proof {
                assert(words_of(out@.push(r)) =~= words_of(out@).push(r@));
            }
            out.push(r);
        }
        i += 1;
    }
    proof {
        assert(all.take(rules.len() as int) =~= all);
        lemma_distinct_members(all);
        lemma_distinct_no_duplicates(all);
    }
    out
}

/// The candidates of a word given as a string, as strings.
pub fn candidates(rules: &Vec<Vec<Rule>>, word: &str) -> (out: Vec<String>)
    ensures
        strings_of(out@) == distinct(results(chains_of(rules@), word@)),
        strings_of(out@).no_duplicates(),
        strings_of(out@).to_set() == candidate_set(chains_of(rules@), word@),
{
    let w = chars_of(word);
    let found = candidate_words(rules, &w);
    let mut out: Vec<String> = Vec::new();
    let mut i: usize = 0;
    while i < found.len()
        invariant
            i <= found.len(),
            strings_of(out@) == words_of(found@).take(i as int),
        decreases found.len() - i,
    {
        let s = string_of(&found[i]);
        proof {
            assert(strings_of(out@.push(s)) =~= strings_of(out@).push(s@));
            assert(words_of(found@).take(i + 1) =~= words_of(found@).take(i as int).push(
                found@[i as int]@,
            ));
        }
        out.push(s);
        i += 1;
    }
    assert(words_of(found@).take(found.len() as int) =~= words_of(found@));
    out
}

} // verus!
