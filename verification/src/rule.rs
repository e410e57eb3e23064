//! The operations of the rule language.
use vstd::prelude::*;

verus! {

/// One mangling operation, with the operands it works on. Positions and
/// counts are in characters, counted from zero.
#[derive(Clone, Copy, Debug, PartialEq, Eq, Structural)]
pub enum Rule {
    /// Leaves the word as it is.
    Nothing,
    /// Lowercases every character.
    Lowercase,
    /// Uppercases every character.
    Uppercase,
    /// Uppercases the first character.
    Capitalize,
    /// Uppercases every character, then lowercases the first.
    InvertCapitalize,
    /// Toggles the case of every character.
    ToggleCase,
    /// Toggles the case of the character at the position.
    ToggleAt(usize),
    /// Reverses the word.
    Reverse,
    /// Writes the word twice.
    Duplicate,
    /// Writes the word the given number of times.
    DuplicateN(usize),
    /// Writes the word, then the word reversed.
    Reflect,
    /// Moves the first character to the end.
    RotateLeft,
    /// Moves the last character to the front.
    RotateRight,
    /// Adds the character at the end.
    Append(char),
    /// Adds the character at the front.
    Prepend(char),
    /// Removes the first character.
    TruncateLeft,
    /// Removes the last character.
    TruncateRight,
    /// Removes the character at the position.
    DeleteAt(usize),
    /// Keeps the characters from the position on, as many as the count.
    ExtractRange(usize, usize),
    /// Removes the characters from the position on, as many as the count.
    OmitRange(usize, usize),
    /// Inserts the character before the position.
    InsertAt(usize, char),
    /// Puts the character in place of the one at the position.
    OverwriteAt(usize, char),
    /// Keeps the characters before the position.
    TruncateAt(usize),
    /// Puts the second character in place of every occurrence of the first.
    Replace(char, char),
    /// Removes every occurrence of the character.
    Purge(char),
    /// Writes the first character the given number of times before the word.
    DuplicateFirstN(usize),
    /// Writes the last character the given number of times after the word.
    DuplicateLastN(usize),
    /// Writes every character twice.
    DuplicateAll,
    /// Stands for a source character that maps to no operation. It is never
    /// part of a compiled chain and leaves a word as it is.
    Invalid(char),
}

} // verus!
