//! Compiling rule text into chains of operations.
//!
//! The text is read once, from left to right. Every line gives one chain; a
//! line that starts with `#` is a comment and gives none. An operator whose
//! operands are missing or malformed is dropped, and so is a character that
//! stands for no operation: neither stops the compilation.
use vstd::prelude::*;
use crate::rule::Rule;
use crate::string_reader::{digit_value, StringReader};

verus! {

/// A note on a source character for which no operation was compiled.
#[derive(Clone, Copy, Debug, PartialEq, Eq, Structural)]
pub struct Diagnostic {
    /// The number of chains completed before the character was met.
    pub line: usize,
    /// The character.
    pub symbol: char,
}

/// What a compilation gives: the chains, in the order of their lines, and the
/// notes taken on the way.
#[derive(Debug)]
pub struct Compiled {
    pub rules: Vec<Vec<Rule>>,
    pub diagnostics: Vec<Diagnostic>,
}

/// The state of a compilation: the chains completed, the chain of the
/// current line, and the notes taken so far.
pub struct Progress {
    pub done: Seq<Seq<Rule>>,
    pub chain: Seq<Rule>,
    pub notes: Seq<Diagnostic>,
}

/// The operation of an operator that takes no operand.
pub open spec fn plain_operator(c: char) -> Option<Rule> {
    if c == ':' {
        Some(Rule::Nothing)
    } else if c == 'l' {
        Some(Rule::Lowercase)
    } else if c == 'u' {
        Some(Rule::Uppercase)
    } else if c == 'c' {
        Some(Rule::Capitalize)
    } else if c == 'C' {
        Some(Rule::InvertCapitalize)
    } else if c == 'r' {
        Some(Rule::Reverse)
    } else if c == 'd' {
        Some(Rule::Duplicate)
    } else if c == 'f' {
        Some(Rule::Reflect)
    } else if c == 'q' {
        Some(Rule::DuplicateAll)
    } else if c == '{' {
        Some(Rule::RotateLeft)
    } else if c == '}' {
        Some(Rule::RotateRight)
    } else if c == 't' {
        Some(Rule::ToggleCase)
    } else if c == '[' {
        Some(Rule::TruncateLeft)
    } else if c == ']' {
        Some(Rule::TruncateRight)
    } else {
        None
    }
}

/// The operation of an operator that takes one character.
pub open spec fn char_operator(c: char, x: char) -> Option<Rule> {
    if c == '$' {
        Some(Rule::Append(x))
    } else if c == '^' {
        Some(Rule::Prepend(x))
    } else if c == '@' {
        Some(Rule::Purge(x))
    } else {
        None
    }
}

/// The operation of an operator that takes one index.
pub open spec fn index_operator(c: char, n: usize) -> Option<Rule> {
    if c == 'T' {
        Some(Rule::ToggleAt(n))
    } else if c == 'p' {
        Some(Rule::DuplicateN(n))
    } else if c == '\'' {
        Some(Rule::TruncateAt(n))
    } else if c == 'D' {
        Some(Rule::DeleteAt(n))
    } else if c == 'z' {
        Some(Rule::DuplicateFirstN(n))
    } else if c == 'Z' {
        Some(Rule::DuplicateLastN(n))
    } else {
        None
    }
}

/// The operation of an operator that takes two indices.
pub open spec fn range_operator(c: char, pos: usize, count: usize) -> Option<Rule> {
    if c == 'O' {
        Some(Rule::OmitRange(pos, count))
    } else if c == 'x' {
        Some(Rule::ExtractRange(pos, count))
    } else {
        None
    }
}

/// The operation of an operator that takes an index and a character.
pub open spec fn placed_operator(c: char, pos: usize, x: char) -> Option<Rule> {
    if c == 'o' {
        Some(Rule::OverwriteAt(pos, x))
    } else if c == 'i' {
        Some(Rule::InsertAt(pos, x))
    } else {
        None
    }
}

/// The number of operand characters that an operator of the rule language
/// takes for which this engine has no operation; `None` for any other
/// character.
pub open spec fn discarded_operands(c: char) -> Option<nat> {
    if c == 'E' || c == 'k' || c == 'K' {
        Some(0)
    } else if c == 'y' || c == 'Y' || c == '.' || c == ',' || c == '-' || c == '+' || c == 'L'
        || c == 'R' || c == 'e' {
        Some(1)
    } else if c == '*' || c == '3' {
        Some(2)
    } else {
        None
    }
}

/// The position reached from `at` by `n` attempts to read one character.
pub open spec fn after(text: Seq<char>, at: nat, n: nat) -> nat {
    if at + n <= text.len() {
        at + n
    } else if at <= text.len() {
        text.len()
    } else {
        at
    }
}

/// The index that the character at `at` stands for, if there is a character
/// and it is a digit.
pub open spec fn index_at(text: Seq<char>, at: nat) -> Option<nat> {
    if at < text.len() {
        digit_value(text[at as int])
    } else {
        None
    }
}

/// What the operator `c` gives when its operands start at `at`, and the
/// position behind it.
///
/// The result is an operation, [`Rule::Invalid`] for a character that stands
/// for none, or nothing where an operand is missing or malformed. After an
/// index that could not be read, one more character is passed over.
pub open spec fn operator_at(text: Seq<char>, at: nat, c: char) -> (Option<Rule>, nat) {
    if plain_operator(c).is_some() {
        (plain_operator(c), at)
    } else if c == '$' || c == '^' || c == '@' {
        if at < text.len() {
            (char_operator(c, text[at as int]), at + 1)
        } else {
            (None, at)
        }
    } else if c == 's' {
        if at + 1 < text.len() {
            (Some(Rule::Replace(text[at as int], text[at as int + 1])), at + 2)
        } else {
            (None, after(text, at, 1))
        }
    } else if c == 'T' || c == 'p' || c == '\'' || c == 'D' || c == 'z' || c == 'Z' {
        match index_at(text, at) {
            Some(n) => (index_operator(c, n as usize), at + 1),
            None => (None, after(text, at, 2)),
        }
    } else if c == 'O' || c == 'x' {
        match index_at(text, at) {
            Some(pos) => match index_at(text, at + 1) {
                Some(count) => (range_operator(c, pos as usize, count as usize), at + 2),
                None => (None, after(text, at + 1, 2)),
            },
            None => (None, after(text, at, 2)),
        }
    } else if c == 'o' || c == 'i' {
        match index_at(text, at) {
            Some(pos) => if at + 1 < text.len() {
                (placed_operator(c, pos as usize, text[at as int + 1]), at + 2)
            } else {
                (None, at + 1)
            },
            None => (None, after(text, at, 2)),
        }
    } else {
        match discarded_operands(c) {
            Some(n) => (Some(Rule::Invalid(c)), after(text, at, n)),
            None => (Some(Rule::Invalid(c)), at),
        }
    }
}

/// Reads the operands of the operator `c` and gives its operation.
pub fn parse_operator(reader: &mut StringReader, c: char) -> (out: Option<Rule>)
    ensures
        final(reader).text() == old(reader).text(),
        (out, final(reader).pos()) == operator_at(old(reader).text(), old(reader).pos(), c),
{
    proof {
        reader.lemma_pos_in_text();
    }
    match c {
        ':' => Some(Rule::Nothing),
        'l' => Some(Rule::Lowercase),
        'u' => Some(Rule::Uppercase),
        'c' => Some(Rule::Capitalize),
        'C' => Some(Rule::InvertCapitalize),
        'r' => Some(Rule::Reverse),
        'd' => Some(Rule::Duplicate),
        'f' => Some(Rule::Reflect),
        'q' => Some(Rule::DuplicateAll),
        '{' => Some(Rule::RotateLeft),
        '}' => Some(Rule::RotateRight),
        't' => Some(Rule::ToggleCase),
        '[' => Some(Rule::TruncateLeft),
        ']' => Some(Rule::TruncateRight),
        '$' | '^' | '@' => match reader.read() {
            Ok(x) => Some(
                if c == '$' {
                    Rule::Append(x)
                } else if c == '^' {
                    Rule::Prepend(x)
                } else {
                    Rule::Purge(x)
                },
            ),
            Err(_) => None,
        },
        's' => match reader.read() {
            Ok(a) => match reader.read() {
                Ok(b) => Some(Rule::Replace(a, b)),
                Err(_) => None,
            },
            Err(_) => None,
        },
        'T' | 'p' | '\'' | 'D' | 'z' | 'Z' => match reader.read_usize() {
            Ok(n) => Some(
                if c == 'T' {
                    Rule::ToggleAt(n)
                } else if c == 'p' {
                    Rule::DuplicateN(n)
                } else if c == '\'' {
                    Rule::TruncateAt(n)
                } else if c == 'D' {
                    Rule::DeleteAt(n)
                } else if c == 'z' {
                    Rule::DuplicateFirstN(n)
                } else {
                    Rule::DuplicateLastN(n)
                },
            ),
            Err(_) => {
                let _ = reader.read();
                None
            },
        },
        'O' | 'x' => match reader.read_usize() {
            Ok(pos) => match reader.read_usize() {
                Ok(count) => Some(
                    if c == 'O' {
                        Rule::OmitRange(pos, count)
                    } else {
                        Rule::ExtractRange(pos, count)
                    },
                ),
                Err(_) => {
                    let _ = reader.read();
                    None
                },
            },
            Err(_) => {
                let _ = reader.read();
                None
            },
        },
        'o' | 'i' => match reader.read_usize() {
            Ok(pos) => match reader.read() {
                Ok(x) => Some(
                    if c == 'o' {
                        Rule::OverwriteAt(pos, x)
                    } else {
                        Rule::InsertAt(pos, x)
                    },
                ),
                Err(_) => None,
            },
            Err(_) => {
                let _ = reader.read();
                None
            },
        },
        'E' | 'k' | 'K' => Some(Rule::Invalid(c)),
        'y' | 'Y' | '.' | ',' | '-' | '+' | 'L' | 'R' | 'e' => {
            let _ = reader.read();
            Some(Rule::Invalid(c))
        },
        '*' | '3' => {
            let _ = reader.read();
            let _ = reader.read();
            Some(Rule::Invalid(c))
        },
        _ => Some(Rule::Invalid(c)),
    }
}

/// The state in which a compilation starts.
pub open spec fn fresh() -> Progress {
    Progress { done: Seq::empty(), chain: Seq::empty(), notes: Seq::empty() }
}

/// The state `p` with the current chain closed and a new, empty one begun.
pub open spec fn committed(p: Progress) -> Progress {
    Progress { done: p.done.push(p.chain), chain: Seq::empty(), notes: p.notes }
}

/// The state `p` after an operator gave `rule`: an operation joins the
/// current chain, [`Rule::Invalid`] leaves a note with the number of chains
/// completed so far, and a dropped operator leaves no trace.
pub open spec fn taken(p: Progress, rule: Option<Rule>) -> Progress {
    match rule {
        Some(Rule::Invalid(symbol)) => Progress {
            done: p.done,
            chain: p.chain,
            notes: p.notes.push(Diagnostic { line: p.done.len() as usize, symbol }),
        },
        Some(r) => Progress { done: p.done, chain: p.chain.push(r), notes: p.notes },
        None => p,
    }
}

/// The state in which the compilation of `text` ends when it stands at `at`
/// in state `p`.
///
/// A line terminator closes the current chain. Blanks between operators are
/// passed over. `#` starts a comment, which runs to the end of the line, only
/// while the current chain is empty. The end of the text closes the current
/// chain.
pub open spec fn run(text: Seq<char>, at: nat, p: Progress) -> Progress
    decreases text.len() - at,
    via run_decreases
{
    if at >= text.len() {
        committed(p)
    } else {
        let c = text[at as int];
        if c == '\n' {
            run(text, at + 1, committed(p))
        } else if c == '\r' || c == ' ' || c == '\t' {
            run(text, at + 1, p)
        } else if c == '#' && p.chain.len() == 0 {
            run(text, StringReader::line_end(text, at + 1), p)
        } else {
            run(text, operator_at(text, at + 1, c).1, taken(p, operator_at(text, at + 1, c).0))
        }
    }
}

#[via_fn]
proof fn run_decreases(text: Seq<char>, at: nat, p: Progress) {
    if at < text.len() {
        lemma_line_end_bounds(text, at + 1);
    }
}

/// The end of a line lies between the position it is sought from and the end
/// of the text.
pub proof fn lemma_line_end_bounds(text: Seq<char>, from: nat)
    requires
        from <= text.len(),
    ensures
        from <= StringReader::line_end(text, from) <= text.len(),
    decreases text.len() - from,
{
    if from < text.len() && text[from as int] != '\n' {
        lemma_line_end_bounds(text, from + 1);
    }
}

/// Whether no chain of `chains` holds [`Rule::Invalid`].
pub open spec fn operations_only(chains: Seq<Seq<Rule>>) -> bool {
    forall|i: int, j: int|
        0 <= i < chains.len() && 0 <= j < chains[i].len() ==> !(#[trigger] chains[i][j] is Invalid)
}

/// A compilation puts [`Rule::Invalid`] in no chain.
pub proof fn lemma_run_operations_only(text: Seq<char>, at: nat, p: Progress)
    requires
        at <= text.len(),
        operations_only(p.done.push(p.chain)),
    ensures
        operations_only(run(text, at, p).done),
    decreases text.len() - at,
{
    if at < text.len() {
        let c = text[at as int];
        if c == '\n' {
            let q = committed(p);
            assert forall|i: int, j: int|
                0 <= i < q.done.push(q.chain).len() && 0 <= j < q.done.push(
                    q.chain,
                )[i].len() implies !(#[trigger] q.done.push(q.chain)[i][j] is Invalid) by {
                assert(q.done.push(q.chain)[i] == p.done.push(p.chain)[i]);
            }
            lemma_run_operations_only(text, at + 1, q);
        } else if c == '\r' || c == ' ' || c == '\t' {
            lemma_run_operations_only(text, at + 1, p);
        } else if c == '#' && p.chain.len() == 0 {
            lemma_line_end_bounds(text, at + 1);
            lemma_run_operations_only(text, StringReader::line_end(text, at + 1), p);
        } else {
            let next = operator_at(text, at + 1, c);
            let q = taken(p, next.0);
            assert forall|i: int, j: int|
                0 <= i < q.done.push(q.chain).len() && 0 <= j < q.done.push(
                    q.chain,
                )[i].len() implies !(#[trigger] q.done.push(q.chain)[i][j] is Invalid) by {
                if i < p.done.len() || j < p.chain.len() {
                    assert(q.done.push(q.chain)[i][j] == p.done.push(p.chain)[i][j]);
                }
            }
            lemma_run_operations_only(text, next.1, q);
        }
    }
}

/// The chains that `text` compiles to, one for every line that is no
/// comment, in the order of the lines.
pub open spec fn compiled_chains(text: Seq<char>) -> Seq<Seq<Rule>> {
    run(text, 0, fresh()).done
}

/// The notes that compiling `text` gives, in the order of the text.
pub open spec fn compiled_notes(text: Seq<char>) -> Seq<Diagnostic> {
    run(text, 0, fresh()).notes
}

/// The chains of `rules` as sequences.
pub open spec fn chains_of(rules: Seq<Vec<Rule>>) -> Seq<Seq<Rule>> {
    rules.map_values(|chain: Vec<Rule>| chain@)
}

impl Compiled {
    /// The chains, as sequences of operations.
    pub open spec fn chains(&self) -> Seq<Seq<Rule>> {
        chains_of(self.rules@)
    }
}

/// Compiles what is left of the reader's text. Notes are kept only where
/// `debug` is set.
pub fn compile_rules(reader: &mut StringReader, debug: bool) -> (out: Compiled)
    ensures
        final(reader).text() == old(reader).text(),
        final(reader).pos() == old(reader).text().len(),
        out.chains() == run(old(reader).text(), old(reader).pos(), fresh()).done,
        operations_only(out.chains()),
        out.diagnostics@ == if debug {
            run(old(reader).text(), old(reader).pos(), fresh()).notes
        } else {
            Seq::empty()
        },
{
    let ghost text = reader.text();
    let ghost goal = run(text, reader.pos(), fresh());
    let ghost p = fresh();
    proof {
        reader.lemma_pos_in_text();
        lemma_run_operations_only(text, reader.pos(), p);
    }
    let mut rules: Vec<Vec<Rule>> = Vec::new();
    let mut notes: Vec<Diagnostic> = Vec::new();
    let mut chain: Vec<Rule> = Vec::new();
    assert(chains_of(rules@) =~= p.done);
    loop
        invariant_except_break
            run(text, reader.pos(), p) == goal,
            chain@ == p.chain,
        invariant
            reader.text() == text,
            chains_of(rules@) == p.done,
            debug ==> notes@ == p.notes,
            !debug ==> notes@ == Seq::<Diagnostic>::empty(),
        ensures
            reader.pos() == text.len(),
            p == goal,
        decreases text.len() - reader.pos(),
    {
        proof {
            reader.lemma_pos_in_text();
        }
        let ghost at = reader.pos();
        match reader.read() {
            Ok(c) => {
                if c == '\n' {
                    proof {
                        assert(chains_of(rules@.push(chain)) =~= p.done.push(chain@));
                        p = committed(p);
                    }
                    rules.push(chain);
                    chain = Vec::new();
                } else if c == '\r' || c == ' ' || c == '\t' {
                } else if c == '#' && chain.len() == 0 {
                    let _ = reader.skip_line();
                    proof {
                        lemma_line_end_bounds(text, at + 1);
                    }
                } else {
                    let parsed = parse_operator(reader, c);
                    proof {
                        p = taken(p, parsed);
                    }
                    match parsed {
                        Some(Rule::Invalid(symbol)) => {
                            if debug {
                                notes.push(Diagnostic { line: rules.len(), symbol });
                            }
                        },
                        Some(rule) => {
                            chain.push(rule);
                        },
                        None => {},
                    }
                }
            },
            Err(_) => {
                proof {
                    assert(chains_of(rules@.push(chain)) =~= p.done.push(chain@));
                    p = committed(p);
                }
                rules.push(chain);
                break;
            },
        }
    }
    Compiled { rules, diagnostics: notes }
}

/// Compiles rule text. Notes are kept only where `debug` is set.
pub fn compile(source: &str, debug: bool) -> (out: Compiled)
    ensures
        out.chains() == compiled_chains(source@),
        operations_only(out.chains()),
        out.diagnostics@ == if debug {
            compiled_notes(source@)
        } else {
            Seq::empty()
        },
{
    let mut reader = StringReader::from_string(source);
    compile_rules(&mut reader, debug)
}

} // verus!
