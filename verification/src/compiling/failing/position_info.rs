//! Where in the source something was found.

use vstd::prelude::*;
use crate::compiling::lexing::reader::{col_at, lemma_position_bounds, row_at};
use crate::compiling::parser::metadata::Metadata;
use crate::compiling::token::{Token, TokenView};
use crate::text::{chars_of, clone_text, fit, next_fit, string_of_str};

verus! {

/// A place in the source.
#[derive(Debug, Clone, Copy, PartialEq, Eq)]
pub enum Position {
    /// A row and a column, both counted from one.
    Pos(usize, usize),
    /// The end of the file.
    EOF,
}

/// A span of the source: the file, the place where the span starts, its
/// length in characters, and a note that goes with it.
#[derive(Debug, PartialEq, Eq)]
pub struct PositionInfo {
    /// Path of the file, if it is known.
    pub path: Option<String>,
    /// Where the span starts.
    pub position: Position,
    /// Length of the span in characters.
    pub len: usize,
    /// A note, such as the name of the region concerned.
    pub data: Option<String>,
}

/// A span as a mathematical value.
pub struct PositionInfoView {
    pub path: Option<Seq<char>>,
    pub position: Position,
    pub len: nat,
    pub data: Option<Seq<char>>,
}

/// The text of an optional string.
pub open spec fn text_of(s: Option<String>) -> Option<Seq<char>> {
    match s {
        Some(text) => Some(text@),
        None => None,
    }
}

impl View for PositionInfo {
    type V = PositionInfoView;

    open spec fn view(&self) -> PositionInfoView {
        PositionInfoView {
            path: text_of(self.path),
            position: self.position,
            len: self.len as nat,
            data: text_of(self.data),
        }
    }
}

impl Clone for PositionInfo {
    fn clone(&self) -> (out: PositionInfo)
        ensures
            out@ == self@,
    {
        PositionInfo {
            path: clone_text(&self.path),
            position: self.position,
            len: self.len,
            data: clone_text(&self.data),
        }
    }
}

/// The views of a sequence of spans, in order.
pub open spec fn position_views(trace: Seq<PositionInfo>) -> Seq<PositionInfoView> {
    trace.map_values(|p: PositionInfo| p@)
}

/// The text without the line ending that it ends with, if it ends with
/// one: a line feed, with the carriage return before it.
pub open spec fn without_last_ending(code: Seq<char>) -> Seq<char> {
    if code.len() > 0 && code.last() == '\n' {
        let body = code.drop_last();
        if body.len() > 0 && body.last() == '\r' {
            body.drop_last()
        } else {
            body
        }
    } else {
        code
    }
}

/// The place just after the last line of `code`: the number of that line,
/// and one more than its length in characters. A line ending at the very
/// end of the text belongs to the last line and is not counted. An empty
/// text has no line, which gives `(0, 0)`.
pub open spec fn end_of_text(code: Seq<char>) -> (nat, nat) {
    if code.len() == 0 {
        (0, 0)
    } else {
        let body = without_last_ending(code);
        (row_at(body, body.len() as int), col_at(body, body.len() as int))
    }
}

/// The row and column that stand for `position`: its own if it has them,
/// for the end of the file those of the end of `code`, and `(0, 0)` where
/// no code is at hand.
pub open spec fn concrete_position(position: Position, code: Option<Seq<char>>) -> (nat, nat) {
    match position {
        Position::Pos(row, col) => (row as nat, col as nat),
        Position::EOF => match code {
            Some(text) => end_of_text(text),
            None => (0, 0),
        },
    }
}

/// A row and column as machine numbers.
pub open spec fn fit_position(pos: (nat, nat)) -> (usize, usize) {
    (fit(pos.0), fit(pos.1))
}

/// The span that stands for the end of the file `path`: made concrete by
/// `code` where it is at hand, and `(0, 0)` else.
pub open spec fn eof_span(path: Option<Seq<char>>, code: Option<Seq<char>>) -> PositionInfoView {
    let pos = fit_position(concrete_position(Position::EOF, code));
    PositionInfoView { path, position: Position::Pos(pos.0, pos.1), len: 0, data: None }
}

/// The span that a token covers in the file `path`; without a token, the
/// end of the file.
pub open spec fn token_span(
    path: Option<Seq<char>>,
    code: Option<Seq<char>>,
    token: Option<TokenView>,
) -> PositionInfoView {
    match token {
        Some(found) => PositionInfoView {
            path,
            position: Position::Pos(found.pos.0 as usize, found.pos.1 as usize),
            len: found.word.len(),
            data: None,
        },
        None => eof_span(path, code),
    }
}

/// The token under the cursor, if there is one.
pub open spec fn current_token<M: Metadata>(meta: M) -> Option<TokenView> {
    if meta.cursor() < meta.tokens().len() {
        Some(meta.tokens()[meta.cursor() as int])
    } else {
        None
    }
}

/// The span from the start of `begin` up to the start of `end`, or as far
/// as a machine number reaches where there is no `end`.
pub open spec fn span_between(
    path: Option<Seq<char>>,
    begin: TokenView,
    end: Option<TokenView>,
) -> PositionInfoView {
    let stop = match end {
        Some(token) => token.start,
        None => usize::MAX as nat,
    };
    PositionInfoView {
        path,
        position: Position::Pos(begin.pos.0 as usize, begin.pos.1 as usize),
        len: (stop - begin.start) as nat,
        data: None,
    }
}

impl PositionInfo {
    /// A span of `len` characters at `position` in the file of `meta`. The
    /// end of the file is made concrete by the code of `meta`.
    pub fn new<M: Metadata>(meta: &M, position: Position, len: usize) -> (info: PositionInfo)
        ensures
            info@ == ({
                let pos = fit_position(concrete_position(position, meta.code()));
                PositionInfoView {
                    path: meta.path(),
                    position: Position::Pos(pos.0, pos.1),
                    len: len as nat,
                    data: None,
                }
            }),
    {
        let info = PositionInfo { position, path: meta.get_path(), len, data: None };
        info.updated_pos(meta)
    }

    /// The end of the file of `meta`, made concrete by its code.
    pub fn at_eof<M: Metadata>(meta: &M) -> (info: PositionInfo)
        ensures
            info@ == eof_span(meta.path(), meta.code()),
    {
        let info = PositionInfo {
            path: meta.get_path(),
            position: Position::EOF,
            len: 0,
            data: None,
        };
        info.updated_pos(meta)
    }

    /// The same span with a concrete row and column.
    pub fn updated_pos<M: Metadata>(self, meta: &M) -> (info: PositionInfo)
        ensures
            info@ == ({
                let pos = fit_position(concrete_position(self.position, meta.code()));
                PositionInfoView { position: Position::Pos(pos.0, pos.1), ..self@ }
            }),
    {
        let (row, col) = self.get_pos_by_file_or_code(meta.get_code());
        let mut info = self;
        info.position = Position::Pos(row, col);
        info
    }

    /// The span of the token under the cursor of `meta`; at the end of the
    /// tokens, the end of the file.
    pub fn from_metadata<M: Metadata>(meta: &M) -> (info: PositionInfo)
        ensures
            info@ == token_span(meta.path(), meta.code(), current_token(*meta)),
    {
        Self::from_token(meta, meta.get_current_token())
    }

    /// The span of `token_opt` in the file of `meta`: its position and the
    /// length of its word; without a token, the end of the file.
    pub fn from_token<M: Metadata>(meta: &M, token_opt: Option<Token>) -> (info: PositionInfo)
        ensures
            info@ == token_span(
                meta.path(),
                meta.code(),
                match token_opt {
                    Some(token) => Some(token@),
                    None => None,
                },
            ),
    {
        match token_opt {
            Some(token) => PositionInfo::at_pos(
                meta.get_path(),
                token.pos,
                token.word.as_str().unicode_len(),
            ),
            None => PositionInfo::at_eof(meta),
        }
    }

    /// The span from the start of `begin` up to the start of `end`;
    /// without `begin`, the span of the token under the cursor.
    pub fn from_between_tokens<M: Metadata>(
        meta: &M,
        begin: Option<Token>,
        end: Option<Token>,
    ) -> (info: PositionInfo)
        requires
            begin matches Some(first) ==> (end matches Some(last) ==> first.start <= last.start),
        ensures
            info@ == match begin {
                Some(first) => span_between(
                    meta.path(),
                    first@,
                    match end {
                        Some(last) => Some(last@),
                        None => None,
                    },
                ),
                None => token_span(meta.path(), meta.code(), current_token(*meta)),
            },
    {
        match begin {
            Some(first) => {
                let stop = match end {
                    Some(last) => last.start,
                    None => usize::MAX,
                };
                let len = stop - first.start;
                PositionInfo::at_pos(meta.get_path(), first.pos, len)
            },
            None => PositionInfo::from_metadata(meta),
        }
    }

    /// A span of `len` characters at row and column `pos` of the file
    /// `path`.
    pub fn at_pos(path: Option<String>, pos: (usize, usize), len: usize) -> (info: PositionInfo)
        ensures
            info@ == (PositionInfoView {
                path: text_of(path),
                position: Position::Pos(pos.0, pos.1),
                len: len as nat,
                data: None,
            }),
    {
        PositionInfo { path, position: Position::Pos(pos.0, pos.1), len, data: None }
    }

    /// The path of the file, or `[unknown]` where none is known.
    pub fn get_path(&self) -> (path: String)
        ensures
            path@ == match self.path {
                Some(text) => text@,
                None => "[unknown]"@,
            },
    {
        match &self.path {
            Some(text) => text.clone(),
            None => string_of_str("[unknown]"),
        }
    }

    /// The same span with `data` as its note.
    pub fn data(self, data: &str) -> (info: PositionInfo)
        ensures
            info@ == (PositionInfoView { data: Some(data@), ..self@ }),
    {
        let mut info = self;
        info.data = Some(string_of_str(data));
        info
    }

    /// Row and column of the span; for the end of the file, the place just
    /// after the last line of `code`.
    pub fn get_pos_by_code(&self, code: &str) -> (pos: (usize, usize))
        ensures
            pos == fit_position(concrete_position(self.position, Some(code@))),
    {
        match self.position {
            Position::Pos(row, col) => (row, col),
            Position::EOF => end_of_code(code),
        }
    }

    /// Row and column of the span; for the end of the file, the place just
    /// after the last line of `code`, or `(0, 0)` without code. A caller that
    /// has the file rather than its text reads it and hands the text in.
    pub fn get_pos_by_file_or_code(&self, code: Option<&String>) -> (pos: (usize, usize))
        ensures
            pos == fit_position(
                concrete_position(
                    self.position,
                    match code {
                        Some(text) => Some(text@),
                        None => None,
                    },
                ),
            ),
    {
        match self.position {
            Position::Pos(row, col) => (row, col),
            Position::EOF => match code {
                Some(text) => end_of_code(text.as_str()),
                None => (0, 0),
            },
        }
    }
}

/// The place just after the last line of `code`.
pub fn end_of_code(code: &str) -> (pos: (usize, usize))
    ensures
        pos == fit_position(end_of_text(code@)),
{
    let chars = chars_of(code);
    let n = chars.len();
    if n == 0 {
        return (0, 0);
    }
    let mut end: usize = n;
    if chars[n - 1] == '\n' {
        end = n - 1;
        if end > 0 && chars[end - 1] == '\r' {
            end = end - 1;
        }
    }
    let ghost body = without_last_ending(chars@);
    proof {
        assert(body =~= chars@.take(end as int));
    }
    let mut row: usize = 1;
    let mut col: usize = 1;
    let mut i: usize = 0;
    while i < end
        invariant
            i <= end,
            end == body.len(),
            end <= chars@.len(),
            forall|k: int| 0 <= k < end ==> body[k] == chars@[k],
            row == fit(row_at(body, i as int)),
            col == fit(col_at(body, i as int)),
        decreases end - i,
    {
        proof {
            lemma_position_bounds(body, i as int);
            lemma_position_bounds(body, i + 1);
        }
        if chars[i] == '\n' {
            row = next_fit(row);
            col = 1;
        } else {
            col = next_fit(col);
        }
        i += 1;
    }
    (row, col)
}

} // verus!
