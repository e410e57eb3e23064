use word_mangler::casing::{first_lower, first_upper, toggle};
use word_mangler::engine::{apply, apply_chain, apply_rule, lowercase, uppercase};
use word_mangler::rule::Rule;
use word_mangler::text::{chars_of, string_of};

fn one(rule: Rule, word: &str) -> String {
    string_of(&apply_rule(&rule, &chars_of(word)))
}

fn all_rules() -> Vec<Rule> {
    vec![
        Rule::Nothing,
        Rule::Lowercase,
        Rule::Uppercase,
        Rule::Capitalize,
        Rule::InvertCapitalize,
        Rule::ToggleCase,
        Rule::ToggleAt(0),
        Rule::ToggleAt(7),
        Rule::Reverse,
        Rule::Duplicate,
        Rule::DuplicateN(0),
        Rule::DuplicateN(4),
        Rule::Reflect,
        Rule::RotateLeft,
        Rule::RotateRight,
        Rule::Append('x'),
        Rule::Prepend('x'),
        Rule::TruncateLeft,
        Rule::TruncateRight,
        Rule::DeleteAt(0),
        Rule::DeleteAt(9),
        Rule::ExtractRange(0, 3),
        Rule::ExtractRange(usize::MAX, usize::MAX),
        Rule::OmitRange(0, 3),
        Rule::OmitRange(usize::MAX, usize::MAX),
        Rule::InsertAt(0, 'x'),
        Rule::InsertAt(9, 'x'),
        Rule::OverwriteAt(0, 'x'),
        Rule::OverwriteAt(9, 'x'),
        Rule::TruncateAt(0),
        Rule::TruncateAt(9),
        Rule::Replace('a', 'b'),
        Rule::Purge('a'),
        Rule::DuplicateFirstN(3),
        Rule::DuplicateLastN(3),
        Rule::DuplicateAll,
        Rule::Invalid('?'),
    ]
}

#[test]
fn every_operation_returns_on_every_word() {
    for word in ["", "a", "ab", "Hello, World", "ßtraße", "数字", "İi"] {
        for rule in all_rules() {
            let _ = one(rule, word);
        }
        let _ = apply(&all_rules(), word);
    }
}

#[test]
fn operations_on_the_empty_word() {
    for rule in all_rules() {
        let expected = match rule {
            Rule::Append(_) | Rule::Prepend(_) | Rule::InsertAt(0, _) => "x",
            _ => "",
        };
        assert_eq!(one(rule, ""), expected, "{:?}", rule);
    }
}

#[test]
fn empty_chain_is_identity() {
    for word in ["", "a", "Cat", "数字"] {
        assert_eq!(apply(&Vec::new(), word), word);
    }
}

#[test]
fn nothing_and_invalid_leave_the_word() {
    assert_eq!(one(Rule::Nothing, "Cat"), "Cat");
    assert_eq!(one(Rule::Invalid('E'), "Cat"), "Cat");
}

#[test]
fn reverse_twice_is_identity() {
    for word in ["", "a", "abc", "数字x"] {
        assert_eq!(apply(&vec![Rule::Reverse, Rule::Reverse], word), word);
    }
    assert_eq!(one(Rule::Reverse, "abc"), "cba");
}

#[test]
fn lowercase_then_uppercase_is_uppercase() {
    for word in ["", "Cat", "hello WORLD 12", "straße"] {
        assert_eq!(apply(&vec![Rule::Lowercase, Rule::Uppercase], word), word.to_uppercase());
        assert_eq!(apply(&vec![Rule::Lowercase, Rule::Uppercase], word), one(Rule::Uppercase, word));
    }
}

#[test]
fn uppercase_then_lowercase_is_lowercase() {
    for word in ["", "Cat", "hello WORLD 12"] {
        assert_eq!(apply(&vec![Rule::Uppercase, Rule::Lowercase], word), word.to_lowercase());
        assert_eq!(apply(&vec![Rule::Uppercase, Rule::Lowercase], word), one(Rule::Lowercase, word));
    }
}

#[test]
fn case_of_whole_words() {
    assert_eq!(one(Rule::Lowercase, "CaT 1!"), "cat 1!");
    assert_eq!(one(Rule::Uppercase, "CaT 1!"), "CAT 1!");
    assert_eq!(one(Rule::Uppercase, "straße"), "STRASSE");
    assert_eq!(one(Rule::Lowercase, "ÀÉ"), "àé");
    assert_eq!(string_of(&uppercase(&chars_of("abc"))), "ABC");
    assert_eq!(string_of(&lowercase(&chars_of("ABC"))), "abc");
}

#[test]
fn case_of_single_characters() {
    assert_eq!(first_upper('a'), 'A');
    assert_eq!(first_upper('A'), 'A');
    assert_eq!(first_upper('1'), '1');
    assert_eq!(first_upper('ß'), 'S');
    assert_eq!(first_lower('A'), 'a');
    assert_eq!(first_lower('a'), 'a');
    assert_eq!(first_lower('-'), '-');
    assert_eq!(toggle('a'), 'A');
    assert_eq!(toggle('A'), 'a');
    assert_eq!(toggle('5'), '5');
}

#[test]
fn capitalize_touches_the_first_character_only() {
    assert_eq!(one(Rule::Capitalize, "cat"), "Cat");
    assert_eq!(one(Rule::Capitalize, "cAT"), "CAT");
    assert_eq!(one(Rule::Capitalize, "1cat"), "1cat");
    assert_eq!(one(Rule::Capitalize, ""), "");
}

#[test]
fn invert_capitalize_lowers_the_first_and_raises_the_rest() {
    assert_eq!(one(Rule::InvertCapitalize, "cat"), "cAT");
    assert_eq!(one(Rule::InvertCapitalize, "Cat"), "cAT");
    assert_eq!(one(Rule::InvertCapitalize, "x"), "x");
    assert_eq!(one(Rule::InvertCapitalize, ""), "");
}

#[test]
fn toggle_case_and_toggle_at() {
    assert_eq!(one(Rule::ToggleCase, "aB1c"), "Ab1C");
    assert_eq!(one(Rule::ToggleAt(0), "cat"), "Cat");
    assert_eq!(one(Rule::ToggleAt(2), "caT"), "cat");
    assert_eq!(one(Rule::ToggleAt(3), "cat"), "cat");
    assert_eq!(one(Rule::ToggleAt(1), "éàü"), "éÀü");
}

#[test]
fn duplicate_writes_the_word_again() {
    for word in ["", "a", "ab", "数字"] {
        assert_eq!(apply(&vec![Rule::Duplicate], word), format!("{}{}", word, word));
        assert_eq!(apply(&vec![Rule::DuplicateN(3)], word), format!("{}{}{}", word, word, word));
        assert_eq!(apply(&vec![Rule::DuplicateN(0)], word), "");
        assert_eq!(apply(&vec![Rule::DuplicateN(1)], word), word);
    }
}

#[test]
fn reflect_and_duplicate_all() {
    assert_eq!(one(Rule::Reflect, "abc"), "abccba");
    assert_eq!(one(Rule::DuplicateAll, "abc"), "aabbcc");
    assert_eq!(one(Rule::DuplicateAll, ""), "");
}

#[test]
fn duplicate_first_and_last() {
    assert_eq!(one(Rule::DuplicateFirstN(2), "abc"), "aaabc");
    assert_eq!(one(Rule::DuplicateLastN(2), "abc"), "abccc");
    assert_eq!(one(Rule::DuplicateFirstN(0), "abc"), "abc");
    assert_eq!(one(Rule::DuplicateLastN(0), "abc"), "abc");
    assert_eq!(one(Rule::DuplicateFirstN(5), ""), "");
    assert_eq!(one(Rule::DuplicateLastN(5), ""), "");
}

#[test]
fn rotations() {
    assert_eq!(one(Rule::RotateLeft, "abc"), "bca");
    assert_eq!(one(Rule::RotateRight, "abc"), "cab");
    assert_eq!(one(Rule::RotateLeft, "a"), "a");
    assert_eq!(one(Rule::RotateRight, "a"), "a");
    assert_eq!(one(Rule::RotateLeft, ""), "");
    assert_eq!(one(Rule::RotateRight, ""), "");
}

#[test]
fn append_and_prepend() {
    assert_eq!(one(Rule::Append('1'), "Cat"), "Cat1");
    assert_eq!(one(Rule::Prepend('1'), "Cat"), "1Cat");
    assert_eq!(one(Rule::Append('é'), ""), "é");
}

#[test]
fn truncate_left_then_right_of_two_characters() {
    assert_eq!(apply(&vec![Rule::TruncateLeft, Rule::TruncateRight], "ab"), "");
}

#[test]
fn truncations_of_the_empty_word_do_nothing() {
    assert_eq!(apply(&vec![Rule::TruncateLeft], ""), "");
    assert_eq!(apply(&vec![Rule::TruncateRight], ""), "");
    assert_eq!(apply(&vec![Rule::TruncateLeft, Rule::TruncateRight], ""), "");
}

#[test]
fn truncations() {
    assert_eq!(one(Rule::TruncateLeft, "abc"), "bc");
    assert_eq!(one(Rule::TruncateRight, "abc"), "ab");
    assert_eq!(one(Rule::TruncateAt(2), "abcd"), "ab");
    assert_eq!(one(Rule::TruncateAt(0), "abcd"), "");
    assert_eq!(one(Rule::TruncateAt(4), "abcd"), "abcd");
    assert_eq!(one(Rule::TruncateAt(9), "abcd"), "abcd");
}

#[test]
fn extract_range_of_abcd() {
    assert_eq!(apply(&vec![Rule::ExtractRange(1, 2)], "abcd"), "bc");
}

#[test]
fn omit_range_of_abcd() {
    assert_eq!(apply(&vec![Rule::OmitRange(1, 2)], "abcd"), "ad");
}

#[test]
fn ranges_at_the_edges() {
    assert_eq!(one(Rule::ExtractRange(4, 2), "abcd"), "");
    assert_eq!(one(Rule::ExtractRange(9, 2), "abcd"), "");
    assert_eq!(one(Rule::ExtractRange(2, 9), "abcd"), "cd");
    assert_eq!(one(Rule::ExtractRange(1, 0), "abcd"), "");
    assert_eq!(one(Rule::ExtractRange(1, usize::MAX), "abcd"), "bcd");
    assert_eq!(one(Rule::OmitRange(4, 2), "abcd"), "abcd");
    assert_eq!(one(Rule::OmitRange(9, 2), "abcd"), "abcd");
    assert_eq!(one(Rule::OmitRange(2, 9), "abcd"), "ab");
    assert_eq!(one(Rule::OmitRange(1, 0), "abcd"), "abcd");
    assert_eq!(one(Rule::OmitRange(1, usize::MAX), "abcd"), "a");
}

#[test]
fn delete_out_of_range_does_nothing() {
    assert_eq!(apply(&vec![Rule::DeleteAt(10)], "abc"), "abc");
    assert_eq!(apply(&vec![Rule::DeleteAt(3)], "abc"), "abc");
}

#[test]
fn delete_insert_overwrite() {
    assert_eq!(one(Rule::DeleteAt(1), "abc"), "ac");
    assert_eq!(one(Rule::DeleteAt(2), "abc"), "ab");
    assert_eq!(one(Rule::InsertAt(0, 'x'), "abc"), "xabc");
    assert_eq!(one(Rule::InsertAt(1, 'x'), "abc"), "axbc");
    assert_eq!(one(Rule::InsertAt(3, 'x'), "abc"), "abcx");
    assert_eq!(one(Rule::InsertAt(4, 'x'), "abc"), "abc");
    assert_eq!(one(Rule::OverwriteAt(1, 'x'), "abc"), "axc");
    assert_eq!(one(Rule::OverwriteAt(3, 'x'), "abc"), "abc");
}

#[test]
fn positions_count_characters() {
    assert_eq!(one(Rule::DeleteAt(1), "héllo"), "hllo");
    assert_eq!(one(Rule::OverwriteAt(2, 'x'), "数字数字"), "数字x字");
    assert_eq!(one(Rule::ExtractRange(1, 2), "数é字x"), "é字");
    assert_eq!(one(Rule::TruncateAt(1), "数字"), "数");
}

#[test]
fn replace_and_purge_take_every_occurrence() {
    assert_eq!(one(Rule::Replace('a', 'o'), "banana"), "bonono");
    assert_eq!(one(Rule::Replace('x', 'o'), "banana"), "banana");
    assert_eq!(one(Rule::Replace('a', 'a'), "banana"), "banana");
    assert_eq!(one(Rule::Purge('a'), "banana"), "bnn");
    assert_eq!(one(Rule::Purge('a'), "aaa"), "");
    assert_eq!(one(Rule::Purge('x'), "banana"), "banana");
}

#[test]
fn chain_applies_from_left_to_right() {
    let chain = vec![Rule::Append('1'), Rule::Reverse, Rule::Capitalize];
    assert_eq!(apply(&chain, "cat"), "1tac");
    let chain = vec![Rule::Reverse, Rule::Append('1'), Rule::Capitalize];
    assert_eq!(apply(&chain, "cat"), "Tac1");
    assert_eq!(string_of(&apply_chain(&chain, &chars_of("cat"))), "Tac1");
}

#[test]
fn case_round_trips_that_do_not_close() {
    assert_eq!(apply(&vec![Rule::Uppercase, Rule::Lowercase], "ß"), "ss");
    assert_eq!(one(Rule::Lowercase, "ß"), "ß");
    assert_eq!(apply(&vec![Rule::Lowercase, Rule::Uppercase], "İ"), "I\u{307}");
    assert_eq!(one(Rule::Uppercase, "İ"), "İ");
}

#[test]
fn lowercase_goes_character_by_character() {
    assert_eq!(one(Rule::Lowercase, "ΣΑΣ"), "σασ");
    assert_eq!(one(Rule::Uppercase, "ﬁn"), "FIN");
}

#[test]
fn rotations_undo_each_other() {
    for word in ["", "a", "ab", "abc", "数字x"] {
        assert_eq!(apply(&vec![Rule::RotateLeft, Rule::RotateRight], word), word);
        assert_eq!(apply(&vec![Rule::RotateRight, Rule::RotateLeft], word), word);
    }
}

#[test]
fn two_chains_in_a_row() {
    let first = vec![Rule::Append('1'), Rule::Reverse];
    let second = vec![Rule::Duplicate, Rule::TruncateLeft];
    let both = vec![Rule::Append('1'), Rule::Reverse, Rule::Duplicate, Rule::TruncateLeft];
    assert_eq!(apply(&both, "cat"), apply(&second, &apply(&first, "cat")));
    assert_eq!(apply(&both, "cat"), "tac1tac");
}
