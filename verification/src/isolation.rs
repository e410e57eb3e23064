//! Lines compile independently of what stands before them.
use vstd::prelude::*;
use crate::compiler::{
    char_operator, committed, compiled_chains, discarded_operands, fresh, index_operator,
    lemma_line_end_bounds, operator_at, placed_operator, plain_operator, range_operator, run,
    taken, Progress,
};
use crate::rule::Rule;
use crate::string_reader::StringReader;

verus! {

/// The end of a line does not depend on what stands before the position it
/// is sought from.
pub proof fn lemma_line_end_shift(text: Seq<char>, k: nat, from: nat)
    requires
        k + from <= text.len(),
    ensures
        StringReader::line_end(text, k + from) == k + StringReader::line_end(text.skip(k as int), from),
    decreases text.len() - (k + from),
{
    let rest = text.skip(k as int);
    if from < rest.len() {
        assert(rest[from as int] == text[k as int + from]);
        if rest[from as int] != '\n' {
            lemma_line_end_shift(text, k, from + 1);
        }
    }
}

/// What an operator gives does not depend on what stands before its
/// operands.
pub proof fn lemma_operator_shift(text: Seq<char>, k: nat, at: nat, c: char)
    requires
        k + at <= text.len(),
    ensures
        operator_at(text, k + at, c).0 == operator_at(text.skip(k as int), at, c).0,
        operator_at(text, k + at, c).1 == k + operator_at(text.skip(k as int), at, c).1,
{
    let rest = text.skip(k as int);
    assert(rest.len() == text.len() - k);
    if at < rest.len() {
        assert(rest[at as int] == text[k as int + at]);
    }
    if at + 1 < rest.len() {
        assert(rest[at as int + 1] == text[k as int + at + 1]);
    }
}

/// The position behind an operator lies behind the position of its operands
/// or at it, and within the text.
pub proof fn lemma_operator_bounds(text: Seq<char>, at: nat, c: char)
    requires
        at <= text.len(),
    ensures
        at <= operator_at(text, at, c).1 <= text.len(),
{
}

/// A compilation goes on from a position as it does from the start of the
/// text that is left there.
pub proof fn lemma_run_shift(text: Seq<char>, k: nat, at: nat, p: Progress)
    requires
        k + at <= text.len(),
    ensures
        run(text, k + at, p) == run(text.skip(k as int), at, p),
    decreases text.len() - (k + at),
{
    let rest = text.skip(k as int);
    assert(rest.len() == text.len() - k);
    if at < rest.len() {
        let c = rest[at as int];
        assert(c == text[k as int + at]);
        if c == '\n' {
            lemma_run_shift(text, k, at + 1, committed(p));
        } else if c == '\r' || c == ' ' || c == '\t' {
            lemma_run_shift(text, k, at + 1, p);
        } else if c == '#' && p.chain.len() == 0 {
            lemma_line_end_shift(text, k, at + 1);
            lemma_line_end_bounds(rest, at + 1);
            lemma_run_shift(text, k, StringReader::line_end(rest, at + 1), p);
        } else {
            lemma_operator_shift(text, k, at + 1, c);
            lemma_operator_bounds(rest, at + 1, c);
            let next = operator_at(rest, at + 1, c);
            lemma_run_shift(text, k, next.1, taken(p, next.0));
        }
    }
}

/// A compilation keeps the chains that it has completed, in their places.
pub proof fn lemma_run_keeps_done(text: Seq<char>, at: nat, p: Progress)
    requires
        at <= text.len(),
    ensures
        run(text, at, p).done.len() > p.done.len(),
        run(text, at, p).done.take(p.done.len() as int) == p.done,
    decreases text.len() - at,
{
    if at < text.len() {
        let c = text[at as int];
        if c == '\n' {
            lemma_run_keeps_done(text, at + 1, committed(p));
            assert(run(text, at, p).done.take(p.done.len() as int) =~= run(
                text,
                at + 1,
                committed(p),
            ).done.take(committed(p).done.len() as int).take(p.done.len() as int));
            assert(committed(p).done.take(p.done.len() as int) =~= p.done);
        } else if c == '\r' || c == ' ' || c == '\t' {
            lemma_run_keeps_done(text, at + 1, p);
        } else if c == '#' && p.chain.len() == 0 {
            lemma_line_end_bounds(text, at + 1);
            lemma_run_keeps_done(text, StringReader::line_end(text, at + 1), p);
        } else {
            lemma_operator_bounds(text, at + 1, c);
            let next = operator_at(text, at + 1, c);
            lemma_run_keeps_done(text, next.1, taken(p, next.0));
        }
    } else {
        assert(committed(p).done.take(p.done.len() as int) =~= p.done);
    }
}

/// The chains that a compilation adds depend only on the text that is left
/// and on the chain of the current line, not on the chains completed or the
/// notes taken before.
pub proof fn lemma_run_adds_alike(text: Seq<char>, at: nat, p: Progress, q: Progress)
    requires
        at <= text.len(),
        p.chain == q.chain,
    ensures
        run(text, at, p).done.skip(p.done.len() as int) == run(text, at, q).done.skip(
            q.done.len() as int,
        ),
    decreases text.len() - at,
{
    if at < text.len() {
        let c = text[at as int];
        if c == '\n' {
            let rp = run(text, at + 1, committed(p)).done;
            let rq = run(text, at + 1, committed(q)).done;
            lemma_run_adds_alike(text, at + 1, committed(p), committed(q));
            lemma_run_keeps_done(text, at + 1, committed(p));
            lemma_run_keeps_done(text, at + 1, committed(q));
            assert(rp[p.done.len() as int] == rp.take(p.done.len() as int + 1)[p.done.len() as int]);
            assert(rq[q.done.len() as int] == rq.take(q.done.len() as int + 1)[q.done.len() as int]);
            assert(rp.skip(p.done.len() as int) =~= seq![p.chain] + rp.skip(p.done.len() as int + 1));
            assert(rq.skip(q.done.len() as int) =~= seq![q.chain] + rq.skip(q.done.len() as int + 1));
        } else if c == '\r' || c == ' ' || c == '\t' {
            lemma_run_adds_alike(text, at + 1, p, q);
        } else if c == '#' && p.chain.len() == 0 {
            lemma_line_end_bounds(text, at + 1);
            lemma_run_adds_alike(text, StringReader::line_end(text, at + 1), p, q);
        } else {
            lemma_operator_bounds(text, at + 1, c);
            let next = operator_at(text, at + 1, c);
            lemma_run_adds_alike(text, next.1, taken(p, next.0), taken(q, next.0));
        }
    } else {
        assert(committed(p).done.skip(p.done.len() as int) =~= seq![p.chain]);
        assert(committed(q).done.skip(q.done.len() as int) =~= seq![q.chain]);
    }
}

/// Where a compilation stands at the start of a line, the rest of the text
/// gives the chains that it gives when compiled alone, whatever stood before
/// it: a line that went wrong spoils no later line.
pub proof fn lemma_rest_compiles_alone(text: Seq<char>, at: nat, p: Progress)
    requires
        at <= text.len(),
        p.chain.len() == 0,
    ensures
        run(text, at, p).done == p.done + compiled_chains(text.skip(at as int)),
{
    let rest = text.skip(at as int);
    lemma_run_shift(text, at, 0, p);
    lemma_run_keeps_done(rest, 0, p);
    assert(p.chain =~= fresh().chain);
    lemma_run_adds_alike(rest, 0, p, fresh());
    let all = run(rest, 0, p).done;
    assert(run(rest, 0, fresh()).done.skip(0) =~= compiled_chains(rest));
    assert(all =~= all.take(p.done.len() as int) + all.skip(p.done.len() as int));
}

/// Whether `c` is an operator character that stands for no operation and
/// takes no operand.
pub open spec fn stands_for_nothing(c: char) -> bool {
    &&& plain_operator(c).is_none()
    &&& char_operator(c, c).is_none()
    &&& index_operator(c, 0).is_none()
    &&& range_operator(c, 0, 0).is_none()
    &&& placed_operator(c, 0, c).is_none()
    &&& c != 's'
    &&& (discarded_operands(c).is_none() || discarded_operands(c) == Some(0nat))
    &&& c != '\n' && c != '\r' && c != ' ' && c != '\t' && c != '#'
}

/// A line that holds nothing but one character that stands for no operation
/// and takes no operand gives an empty chain, and the lines after it compile
/// as they do alone.
pub proof fn lemma_unknown_line_is_isolated(c: char, rest: Seq<char>)
    requires
        stands_for_nothing(c),
    ensures
        compiled_chains(seq![c, '\n'] + rest) == seq![Seq::<Rule>::empty()] + compiled_chains(
            rest,
        ),
{
    let text = seq![c, '\n'] + rest;
    assert(text[0] == c);
    assert(text[1] == '\n');
    assert(operator_at(text, 1, c) == (Some(Rule::Invalid(c)), 1nat));
    let noted = taken(fresh(), Some(Rule::Invalid(c)));
    assert(run(text, 0, fresh()) == run(text, 1, noted));
    assert(run(text, 1, noted) == run(text, 2, committed(noted)));
    lemma_rest_compiles_alone(text, 2, committed(noted));
    assert(text.skip(2) =~= rest);
    assert(committed(noted).done =~= seq![Seq::<Rule>::empty()]);
}

} // verus!
