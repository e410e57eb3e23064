//! A cursor over a sequence of characters.
use vstd::prelude::*;
use crate::text::chars_of;

verus! {

/// Why a read from a [`StringReader`] gave no value.
#[derive(Clone, Copy, Debug, PartialEq, Eq, Structural)]
pub enum ReadError {
    /// Every character has been consumed.
    Exhausted,
    /// The character consumed is not a digit in radix 35.
    InvalidDigit,
}

/// The value of `c` as a digit in radix 35: `0`-`9` stand for 0-9 and the
/// letters `a`-`y`, in either case, for 10-34. Any other character has none.
pub open spec fn digit_value(c: char) -> Option<nat> {
    if '0' <= c <= '9' {
        Some((c as nat - '0' as nat) as nat)
    } else if 'a' <= c <= 'y' {
        Some((c as nat - 'a' as nat + 10) as nat)
    } else if 'A' <= c <= 'Y' {
        Some((c as nat - 'A' as nat + 10) as nat)
    } else {
        None
    }
}

/// Computes [`digit_value`].
pub fn digit_of(c: char) -> (out: Option<usize>)
    ensures
        match out {
            Some(d) => digit_value(c) == Some(d as nat) && d <= 34,
            None => digit_value(c).is_none(),
        },
{
    if '0' <= c && c <= '9' {
        Some((c as u32 - '0' as u32) as usize)
    } else if 'a' <= c && c <= 'y' {
        Some((c as u32 - 'a' as u32 + 10) as usize)
    } else if 'A' <= c && c <= 'Y' {
        Some((c as u32 - 'A' as u32 + 10) as usize)
    } else {
        None
    }
}

/// A positional cursor over the characters of a text.
pub struct StringReader {
    string: Vec<char>,
    index: usize,
}

impl StringReader {
    /// The whole text that the reader was made over.
    pub closed spec fn text(&self) -> Seq<char> {
        self.string@
    }

    /// The number of characters consumed so far.
    pub closed spec fn pos(&self) -> nat {
        if self.index <= self.string.len() {
            self.index as nat
        } else {
            self.string.len() as nat
        }
    }

    /// The cursor never stands beyond the end of the text.
    #[verifier::type_invariant]
    pub closed spec fn wf(&self) -> bool {
        self.index <= self.string.len()
    }

    /// The cursor of every reader stands within its text.
    pub proof fn lemma_pos_in_text(&self)
        ensures
            self.pos() <= self.text().len(),
    {
    }

    /// The position just behind the first line terminator at or after `from`,
    /// or the length of `text` where there is none.
    pub open spec fn line_end(text: Seq<char>, from: nat) -> nat
        decreases text.len() - from,
    {
        if from >= text.len() {
            text.len()
        } else if text[from as int] == '\n' {
            from + 1
        } else {
            Self::line_end(text, from + 1)
        }
    }

    /// A reader at the start of the characters of `s`.
    pub fn from_string(s: &str) -> (out: StringReader)
        ensures
            out.text() == s@,
            out.pos() == 0,
    {
        StringReader::new(chars_of(s))
    }

    /// A reader at the start of `string`.
    pub fn new(string: Vec<char>) -> (out: StringReader)
        ensures
            out.text() == string@,
            out.pos() == 0,
    {
        StringReader { string, index: 0 }
    }

    /// Consumes and returns the next character; at the end of the text the
    /// reader stays as it is and the read is `Exhausted`.
    pub fn read(&mut self) -> (out: Result<char, ReadError>)
        ensures
            final(self).text() == old(self).text(),
            old(self).pos() < old(self).text().len() ==> out == Ok::<char, ReadError>(
                old(self).text()[old(self).pos() as int],
            ) && final(self).pos() == old(self).pos() + 1,
            old(self).pos() == old(self).text().len() ==> out == Err::<char, ReadError>(
                ReadError::Exhausted,
            ) && final(self).pos() == old(self).pos(),
    {
        proof {
            use_type_invariant(&*self);
        }
        if self.index >= self.string.len() {
            return Err(ReadError::Exhausted);
        }
        let c = self.string[self.index];
        self.index += 1;
        Ok(c)
    }

    /// Consumes the next character and returns its value as a digit in radix
    /// 35. A character that is no such digit is consumed all the same.
    pub fn read_usize(&mut self) -> (out: Result<usize, ReadError>)
        ensures
            final(self).text() == old(self).text(),
            old(self).pos() == old(self).text().len() ==> out == Err::<usize, ReadError>(
                ReadError::Exhausted,
            ) && final(self).pos() == old(self).pos(),
            old(self).pos() < old(self).text().len() ==> final(self).pos() == old(self).pos() + 1
                && match digit_value(old(self).text()[old(self).pos() as int]) {
                Some(d) => out == Ok::<usize, ReadError>(d as usize) && d <= 34,
                None => out == Err::<usize, ReadError>(ReadError::InvalidDigit),
            },
    {
        match self.read() {
            Ok(c) => match digit_of(c) {
                Some(d) => Ok(d),
                None => Err(ReadError::InvalidDigit),
            },
            Err(e) => Err(e),
        }
    }

    /// Consumes characters up to and including the next line terminator, or
    /// up to the end of the text. Always succeeds.
    pub fn skip_line(&mut self) -> (out: Result<(), ReadError>)
        ensures
            out.is_ok(),
            final(self).text() == old(self).text(),
            final(self).pos() == Self::line_end(old(self).text(), old(self).pos()),
    {
        proof {
            use_type_invariant(&*self);
        }
        let ghost start = self.pos();
        let ghost text = self.text();
        loop
            invariant_except_break
                Self::line_end(text, self.pos()) == Self::line_end(text, start),
            invariant
                self.text() == text,
                start <= self.pos() <= text.len(),
            ensures
                self.text() == text,
                self.pos() == Self::line_end(text, start),
            decreases text.len() - self.pos(),
        {
            match self.read() {
                Ok(c) => {
                    if c == '\n' {
                        break;
                    }
                },
                Err(_) => {
                    break;
                },
            }
        }
        Ok(())
    }
}

} // verus!
