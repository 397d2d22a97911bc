//! The character cursor that the lexer reads the source through.

use vstd::prelude::*;
use crate::text::{chars_of, fit, next_fit, string_of_range};

verus! {

/// The row of the character at index `i` of `code`, counted from one: one
/// more than the number of line feeds before it.
pub open spec fn row_at(code: Seq<char>, i: int) -> nat
    decreases i,
{
    if i <= 0 {
        1
    } else if i - 1 < code.len() && code[i - 1] == '\n' {
        row_at(code, i - 1) + 1
    } else {
        row_at(code, i - 1)
    }
}

/// The column of the character at index `i` of `code`, counted from one:
/// one more than the number of characters between it and the line feed
/// before it, or the beginning of the text.
pub open spec fn col_at(code: Seq<char>, i: int) -> nat
    decreases i,
{
    if i <= 0 {
        1
    } else if i - 1 < code.len() && code[i - 1] == '\n' {
        1
    } else {
        col_at(code, i - 1) + 1
    }
}

/// Rows and columns never run ahead of the index.
pub proof fn lemma_position_bounds(code: Seq<char>, i: int)
    requires
        0 <= i,
    ensures
        1 <= row_at(code, i) <= i + 1,
        1 <= col_at(code, i) <= i + 1,
    decreases i,
{
    if i > 0 {
        lemma_position_bounds(code, i - 1);
    }
}

/// The `n` characters of `code` that start at index `i`, if there are that
/// many.
pub open spec fn future_of(code: Seq<char>, i: int, n: int) -> Option<Seq<char>> {
    if 0 <= i && 0 <= n && i + n <= code.len() {
        Some(code.subrange(i, i + n))
    } else {
        None
    }
}

/// The `n` characters of `code` that end with the one at index `i`, if
/// there are that many; at the end of the text, as many of them as exist.
pub open spec fn history_of(code: Seq<char>, i: int, n: int) -> Option<Seq<char>> {
    if 0 <= n <= i + 1 && i <= code.len() {
        if n == 0 {
            Some(Seq::empty())
        } else if i < code.len() {
            Some(code.subrange(i + 1 - n, i + 1))
        } else {
            Some(code.subrange(i + 1 - n, i))
        }
    } else {
        None
    }
}

/// The character after the one at index `i`, if there is one.
pub open spec fn peek_of(code: Seq<char>, i: int) -> Option<char> {
    if 0 <= i && i + 1 < code.len() {
        Some(code[i + 1])
    } else {
        None
    }
}

/// From which side of the cursor a window of characters is taken.
pub enum ReadMode {
    /// The window ends with the current character.
    History,
    /// The window starts with the current character.
    Future,
}

/// A cursor over the characters of a text that keeps track of row and
/// column. Before the first call of `next_letter` the row is zero; from
/// then on row and column are those of the character at `index`.
pub struct Reader {
    /// The text, one entry per character.
    pub code: Vec<char>,
    /// Row of the current character, from one; zero before reading starts.
    pub row: usize,
    /// Column of the current character, from one.
    pub col: usize,
    /// Index of the current character, counted in characters from zero.
    pub index: usize,
    /// Whether the next character read starts a new line.
    pub new_line: bool,
}

impl Reader {
    /// The cursor is within the text or just past its end, and row, column
    /// and the pending line break agree with the index.
    pub open spec fn wf(&self) -> bool {
        &&& self.index <= self.code@.len() <= usize::MAX
        &&& if self.row == 0 {
            self.index == 0 && self.col == 1 && self.new_line
        } else {
            &&& self.row == fit(row_at(self.code@, self.index as int))
            &&& self.col == fit(col_at(self.code@, self.index as int))
            &&& self.new_line == (self.index < self.code@.len() && self.code@[self.index as int]
                == '\n')
        }
    }

    /// Whether `next_letter` has been called at least once.
    pub open spec fn started(&self) -> bool {
        self.row > 0
    }

    /// A cursor placed before the first character of `code`.
    pub fn new(code: &String) -> (reader: Reader)
        ensures
            reader.wf(),
            reader.code@ == code@,
            reader.index == 0,
            !reader.started(),
    {
        let chars = chars_of(code.as_str());
        assert(chars.len() <= usize::MAX);
        Reader { code: chars, row: 0, col: 1, index: 0, new_line: true }
    }

    /// Moves to the next character and returns it, or `None` at the end of
    /// the text. The first call stays on the first character; at the end of
    /// the text the cursor rests just past the last character.
    pub fn next_letter(&mut self) -> (letter: Option<char>)
        requires
            old(self).wf(),
        ensures
            final(self).wf(),
            final(self).started(),
            final(self).code == old(self).code,
            final(self).index == if old(self).started() && old(self).index < old(self).code@.len() {
                old(self).index + 1
            } else {
                old(self).index as int
            },
            letter == if final(self).index < final(self).code@.len() {
                Some(final(self).code@[final(self).index as int])
            } else {
                None::<char>
            },
    {
        proof {
            lemma_position_bounds(self.code@, self.index as int);
            lemma_position_bounds(self.code@, self.index + 1);
        }
        if self.row > 0 && self.index < self.code.len() {
            self.index += 1;
            self.col = next_fit(self.col);
        }
        if self.new_line {
            self.new_line = false;
            self.row = next_fit(self.row);
            self.col = 1;
        }
        if self.index < self.code.len() {
            let letter = self.code[self.index];
            self.new_line = letter == '\n';
            Some(letter)
        } else {
            None
        }
    }

    /// The index of the current character.
    pub fn get_index(&self) -> (index: usize)
        ensures
            index == self.index,
    {
        self.index
    }

    /// Row and column of the current character. They are exact for every
    /// character of the text.
    pub fn get_position(&self) -> (pos: (usize, usize))
        ensures
            pos == (self.row, self.col),
            self.wf() && self.started() && self.index < self.code@.len() ==> pos.0 == row_at(
                self.code@,
                self.index as int,
            ) && pos.1 == col_at(self.code@, self.index as int),
    {
        proof {
            lemma_position_bounds(self.code@, self.index as int);
        }
        (self.row, self.col)
    }

    /// The position of a word that ends just before the current character
    /// on the current row.
    pub fn get_word_position(&self, word: &str) -> (pos: (usize, usize))
        requires
            word@.len() <= self.col,
        ensures
            pos.0 == self.row,
            pos.1 == self.col - word@.len(),
    {
        (self.row, self.col - word.unicode_len())
    }

    /// The last `n` characters read, the current one included.
    pub fn get_history(&self, n: usize) -> (window: Option<String>)
        ensures
            match window {
                Some(text) => history_of(self.code@, self.index as int, n as int) == Some(text@),
                None => history_of(self.code@, self.index as int, n as int) is None,
            },
    {
        if self.index > self.code.len() {
            return None;
        }
        if n == 0 {
            return Some(String::new());
        }
        if n - 1 > self.index {
            return None;
        }
        let begin = self.index - (n - 1);
        let end = if self.index < self.code.len() {
            self.index + 1
        } else {
            self.index
        };
        Some(string_of_range(&self.code, begin, end))
    }

    /// The next `n` characters, the current one first.
    pub fn get_future(&self, n: usize) -> (window: Option<String>)
        ensures
            match window {
                Some(text) => future_of(self.code@, self.index as int, n as int) == Some(text@),
                None => future_of(self.code@, self.index as int, n as int) is None,
            },
    {
        if self.index > self.code.len() || n > self.code.len() - self.index {
            return None;
        }
        Some(string_of_range(&self.code, self.index, self.index + n))
    }

    /// The character that the next call of `next_letter` returns once
    /// reading has started.
    pub fn peek(&self) -> (letter: Option<char>)
        ensures
            letter == peek_of(self.code@, self.index as int),
    {
        if self.index < self.code.len() && self.index + 1 < self.code.len() {
            Some(self.code[self.index + 1])
        } else {
            None
        }
    }

    /// `get_history` or `get_future`, as `mode` says.
    pub fn get_history_or_future(&self, n: usize, mode: &ReadMode) -> (window: Option<String>)
        ensures
            match window {
                Some(text) => window_of(self.code@, self.index as int, n as int, *mode) == Some(
                    text@,
                ),
                None => window_of(self.code@, self.index as int, n as int, *mode) is None,
            },
    {
        match mode {
            ReadMode::History => self.get_history(n),
            ReadMode::Future => self.get_future(n),
        }
    }
}

/// The window of `n` characters at index `i`, taken from the side that
/// `mode` names.
pub open spec fn window_of(code: Seq<char>, i: int, n: int, mode: ReadMode) -> Option<Seq<char>> {
    match mode {
        ReadMode::History => history_of(code, i, n),
        ReadMode::Future => future_of(code, i, n),
    }
}

} // verus!
