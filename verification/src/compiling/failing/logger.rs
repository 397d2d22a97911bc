//! The layout of a message as text: header, place, remark and a snippet of
//! the code. The text is built here; showing it is left to the caller.

use vstd::prelude::*;
use vstd::string::StringExecFns;
use crate::compiling::failing::message::{MessageType, clone_trace};
use crate::compiling::failing::paint::{
    PaintColor,
    black_text,
    bold,
    colored_text,
    dimmed,
    dimmed_text,
    on_color,
    pad_label,
    padded,
    shown,
};
use crate::compiling::failing::position_info::{
    Position,
    PositionInfo,
    PositionInfoView,
    position_views,
    text_of,
};
use crate::text::{
    chars_of,
    decimal,
    decimal_chars,
    decimal_chars_wide,
    fit,
    lemma_decimal_is_plain,
    push_decimal,
    string_of,
    string_of_range,
    string_of_str,
    whitespace_char,
};

verus! {

/// The label that heads a message of kind `kind`.
pub open spec fn kind_label(kind: MessageType) -> Seq<char> {
    match kind {
        MessageType::Error => " ERROR "@,
        MessageType::Warning => " WARN "@,
        MessageType::Info => " INFO "@,
    }
}

/// The color that messages of kind `kind` are painted in.
pub open spec fn kind_color(kind: MessageType) -> PaintColor {
    match kind {
        MessageType::Error => PaintColor::Red,
        MessageType::Warning => PaintColor::Yellow,
        MessageType::Info => PaintColor::Blue,
    }
}

/// How the place of a span is written: `path:row:col`, or `path: end of
/// file` for the end of the file; `[unknown]` stands for a path that is
/// not known.
pub open spec fn place_text(info: PositionInfoView) -> Seq<char> {
    let path = match info.path {
        Some(text) => text,
        None => "[unknown]"@,
    };
    path + seq![':'] + match info.position {
        Position::Pos(row, col) => decimal(row as nat) + seq![':'] + decimal(col as nat),
        Position::EOF => " end of file"@,
    }
}

/// The lines that name the contexts around the place of a message: one
/// line `in path:row:col` for each span of the trace after the first, up
/// to the span before position `upto`.
pub open spec fn outer_places(trace: Seq<PositionInfoView>, upto: int) -> Seq<char>
    decreases upto,
{
    if upto <= 1 || upto > trace.len() {
        Seq::empty()
    } else {
        outer_places(trace, upto - 1) + "\nin "@ + place_text(trace[upto - 1])
    }
}

/// The lines that say where a message belongs: `at path:row:col` for the
/// first span of the trace, and a line `in path:row:col` for each further
/// one.
pub open spec fn path_lines(trace: Seq<PositionInfoView>) -> Seq<char> {
    if trace.len() == 0 {
        "at [unknown]:0:0"@
    } else {
        "at "@ + place_text(trace[0]) + outer_places(trace, trace.len() as int)
    }
}

/// Row, column and length of the first span of the trace, if it has a row
/// and a column.
pub open spec fn first_span(trace: Seq<PositionInfoView>) -> Option<(nat, nat, nat)> {
    if trace.len() == 0 {
        None
    } else {
        match trace[0].position {
            Position::Pos(row, col) => Some((row as nat, col as nat, trace[0].len)),
            Position::EOF => None,
        }
    }
}

/// The widest row number that a snippet around `row` shows, in a code of
/// `length` lines: that of the row after it, if there is one.
pub open spec fn widest_row(row: nat, length: nat) -> nat {
    if length > 0 && row < length - 1 {
        row + 1
    } else {
        row
    }
}

/// The smaller of `n` and `len`.
pub open spec fn clip(n: nat, len: nat) -> int {
    if n < len {
        n as int
    } else {
        len as int
    }
}

/// Where the highlighted part of a line starts, counted from zero, for a
/// span at column `col`. A column of zero counts as the first column.
pub open spec fn highlight_begin(col: nat) -> nat {
    if col == 0 {
        0
    } else {
        (col - 1) as nat
    }
}

/// A line cut in three: what comes before the span at column `col` of
/// length `len`, the span itself, and what comes after it.
pub open spec fn highlighted(line: Seq<char>, col: nat, len: nat) -> (
    Seq<char>,
    Seq<char>,
    Seq<char>,
) {
    let begin = highlight_begin(col);
    let end = begin + len;
    (
        line.subrange(0, clip(begin, line.len())),
        line.subrange(clip(begin, line.len()), clip(end, line.len())),
        line.subrange(clip(end, line.len()), line.len() as int),
    )
}

/// The text cut into lines at its line feeds. A text with `n` line feeds
/// has `n + 1` lines, the last of which may be empty.
pub open spec fn split_lines(code: Seq<char>) -> Seq<Seq<char>>
    decreases code.len(),
{
    if code.len() == 0 {
        seq![Seq::empty()]
    } else if code.last() == '\n' {
        split_lines(code.drop_last()).push(Seq::empty())
    } else {
        let before = split_lines(code.drop_last());
        before.drop_last().push(before.last().push(code.last()))
    }
}

/// For each character of `line`, whether it is white space.
pub open spec fn blank_flags(line: Seq<char>) -> Seq<bool> {
    Seq::new(line.len(), |i: int| whitespace_char(line[i]))
}

/// How many characters are left of a line once the white space at its end
/// is taken off, given which of its characters are white space.
pub open spec fn kept(blanks: Seq<bool>) -> nat
    decreases blanks.len(),
{
    if blanks.len() > 0 && blanks.last() {
        kept(blanks.drop_last())
    } else {
        blanks.len()
    }
}

/// The line without the white space that it ends with.
pub open spec fn trimmed(line: Seq<char>) -> Seq<char> {
    line.take(kept(blank_flags(line)) as int)
}

/// Tells for each character of `line` whether it is white space.
pub fn flag_blanks(line: &Vec<char>) -> (blanks: Vec<bool>)
    ensures
        blanks@ == blank_flags(line@),
{
    let mut blanks: Vec<bool> = Vec::new();
    let mut i: usize = 0;
    while i < line.len()
        invariant
            i <= line@.len(),
            blanks@.len() == i,
            forall|k: int| 0 <= k < i ==> blanks@[k] == whitespace_char(line@[k]),
        decreases line@.len() - i,
    {
        blanks.push(line[i].is_whitespace());
        i += 1;
    }
    proof {
        assert(blanks@ =~= blank_flags(line@));
    }
    blanks
}

/// How many characters are left of a line once the white space at its end
/// is taken off, given which of its characters are white space.
pub fn kept_len(blanks: &Vec<bool>) -> (n: usize)
    ensures
        n == kept(blanks@),
        n <= blanks@.len(),
{
    let mut n: usize = blanks.len();
    proof {
        assert(blanks@.take(n as int) =~= blanks@);
    }
    while n > 0 && blanks[n - 1]
        invariant
            n <= blanks@.len(),
            kept(blanks@) == kept(blanks@.take(n as int)),
        decreases n,
    {
        proof {
            assert(blanks@.take(n as int).drop_last() =~= blanks@.take(n - 1));
        }
        n -= 1;
    }
    n
}

/// The lines of a code as a snippet shows them: without the white space
/// at their ends.
pub open spec fn snippet_lines(code: Seq<char>) -> Seq<Seq<char>> {
    split_lines(code).map_values(|line: Seq<char>| trimmed(line))
}

/// One row of a snippet as a mathematical value.
pub struct RowLayout {
    /// The row number, padded to the width of the widest one shown.
    pub label: Seq<char>,
    /// The part of the line before the painted part.
    pub before: Seq<char>,
    /// The part of the line that is painted, if any is.
    pub marked: Option<Seq<char>>,
    /// The part of the line after the painted part.
    pub after: Seq<char>,
    /// Whether the whole row is dimmed.
    pub dimmed: bool,
}

/// One row of a snippet: the row number, and the line in three parts, the
/// middle one of which is painted.
#[derive(Debug, PartialEq, Eq)]
pub struct SnippetRow {
    /// The row number, padded to the width of the widest one shown.
    pub label: String,
    /// The part of the line before the painted part.
    pub before: String,
    /// The part of the line that is painted, if any is.
    pub marked: Option<String>,
    /// The part of the line after the painted part.
    pub after: String,
    /// Whether the whole row is dimmed.
    pub dimmed: bool,
}

impl View for SnippetRow {
    type V = RowLayout;

    open spec fn view(&self) -> RowLayout {
        RowLayout {
            label: self.label@,
            before: self.before@,
            marked: match self.marked {
                Some(text) => Some(text@),
                None => None,
            },
            after: self.after@,
            dimmed: self.dimmed,
        }
    }
}

/// The number of a row `offset` rows from `row`, written out; a number
/// below zero carries its sign.
pub open spec fn row_label(row: nat, offset: int) -> Seq<char> {
    if row + offset >= 0 {
        decimal((row + offset) as nat)
    } else {
        seq!['-'] + decimal((-(row + offset)) as nat)
    }
}

/// How many characters of the lines after the current one belong to a
/// span at column `col` of length `len` that is longer than what is left
/// of the current line, which has `count` characters. The line feed
/// between the lines is not counted.
pub open spec fn spilled(col: nat, len: nat, count: nat, overflow: nat) -> nat {
    if col + len > count + 1 {
        (col + len - 2 - count) as nat
    } else {
        overflow
    }
}

/// The row of a snippet `offset` rows from the line at `index`, for a span
/// at row `span.0` and column `span.1` of length `span.2`, with `overflow`
/// characters of the span spilling over from the line before; together
/// with the number of characters that spill over to the next row. There is
/// no row where the code has no such line.
///
/// The current row has the span painted. Another row is dimmed, and has
/// as many characters painted at its beginning as spill over.
#[verifier::opaque]
pub open spec fn snippet_row(
    span: (nat, nat, nat),
    lines: Seq<Seq<char>>,
    index: nat,
    offset: int,
    overflow: nat,
) -> Option<(RowLayout, nat)> {
    let (row, col, len) = span;
    let at = index + offset;
    if 0 <= at < lines.len() {
        let line = lines[at];
        let width = decimal(widest_row(row, lines.len())).len();
        let label = padded(row_label(row, offset), width);
        if offset == 0 {
            let parts = highlighted(line, col, len);
            Some(
                (
                    RowLayout {
                        label,
                        before: parts.0,
                        marked: Some(parts.1),
                        after: parts.2,
                        dimmed: false,
                    },
                    spilled(col, len, line.len(), overflow),
                ),
            )
        } else if overflow > line.len() {
            Some(
                (
                    RowLayout {
                        label,
                        before: Seq::empty(),
                        marked: Some(line),
                        after: Seq::empty(),
                        dimmed: true,
                    },
                    overflow,
                ),
            )
        } else if overflow > 0 {
            Some(
                (
                    RowLayout {
                        label,
                        before: Seq::empty(),
                        marked: Some(line.subrange(0, overflow as int)),
                        after: line.subrange(overflow as int, line.len() as int),
                        dimmed: true,
                    },
                    overflow,
                ),
            )
        } else {
            Some(
                (
                    RowLayout {
                        label,
                        before: line,
                        marked: None,
                        after: Seq::empty(),
                        dimmed: true,
                    },
                    overflow,
                ),
            )
        }
    } else {
        None
    }
}

/// A row of a snippet as plain text: the row number, a bar, and the line.
pub open spec fn row_text(row: RowLayout) -> Seq<char> {
    row.label + "| "@ + row.before + match row.marked {
        Some(text) => text,
        None => Seq::empty(),
    } + row.after
}

/// An optional text on a line of its own.
pub open spec fn opt_line(text: Option<Seq<char>>) -> Seq<char> {
    match text {
        Some(line) => line.push('\n'),
        None => Seq::empty(),
    }
}

/// An optional text on a line of its own after an empty line.
pub open spec fn opt_padded_line(text: Option<Seq<char>>) -> Seq<char> {
    match text {
        Some(line) => seq!['\n'] + line.push('\n'),
        None => Seq::empty(),
    }
}

/// The rows of a snippet as they are shown: the row before the span, the
/// row of the span, and the row after it, each as far as it is there.
pub struct RowTexts {
    pub above: Option<Seq<char>>,
    pub current: Option<Seq<char>>,
    pub below: Option<Seq<char>>,
}

/// The rows `rows` are those that the snippet of `code` around `span` has:
/// the rows that the code has lines for, and the row after the span only
/// together with the row of the span. A span at row zero has no rows.
pub open spec fn rows_fit(span: (nat, nat, nat), code: Seq<char>, rows: RowTexts) -> bool {
    let lines = snippet_lines(code);
    let index = (span.0 - 1) as nat;
    if span.0 == 0 {
        rows.above is None && rows.current is None && rows.below is None
    } else {
        &&& rows.above is Some <==> snippet_row(span, lines, index, -1, 0) is Some
        &&& rows.current is Some <==> snippet_row(span, lines, index, 0, 0) is Some
        &&& rows.below is Some <==> (snippet_row(span, lines, index, 0, 0) matches Some(found)
            && snippet_row(span, lines, index, 1, fit(found.1) as nat) is Some)
    }
}

/// A snippet around `span` with the rows `rows`: an empty line, then each
/// row on a line of its own. A span at row zero has no snippet.
pub open spec fn snippet_frame(span: (nat, nat, nat), rows: RowTexts) -> Seq<char> {
    if span.0 == 0 {
        Seq::empty()
    } else {
        seq!['\n'] + opt_line(rows.above) + opt_line(rows.current) + opt_line(rows.below)
    }
}

/// The rows of the snippet of `code` around `span` as plain text.
pub open spec fn plain_rows(span: (nat, nat, nat), code: Seq<char>) -> RowTexts {
    let lines = snippet_lines(code);
    let index = (span.0 - 1) as nat;
    if span.0 == 0 {
        RowTexts { above: None, current: None, below: None }
    } else {
        RowTexts {
            above: match snippet_row(span, lines, index, -1, 0) {
                Some((row, _)) => Some(row_text(row)),
                None => None,
            },
            current: match snippet_row(span, lines, index, 0, 0) {
                Some((row, _)) => Some(row_text(row)),
                None => None,
            },
            below: match snippet_row(span, lines, index, 0, 0) {
                Some((_, spill)) => match snippet_row(span, lines, index, 1, fit(spill) as nat) {
                    Some((row, _)) => Some(row_text(row)),
                    None => None,
                },
                None => None,
            },
        }
    }
}

/// The snippet of `code` around `span` as plain text: an empty line, then
/// the row before the span, the row of the span and the row after it, as
/// far as the code has them. Without the row of the span the row after it
/// is left out too.
pub open spec fn snippet_text(span: (nat, nat, nat), code: Seq<char>) -> Seq<char> {
    snippet_frame(span, plain_rows(span, code))
}

/// The text of an optional piece of code.
pub open spec fn source_of(code: Option<&str>) -> Option<Seq<char>> {
    match code {
        Some(text) => Some(text@),
        None => None,
    }
}

/// The rows `rows` are those of the snippet that goes with a message about
/// the spans of `trace`, given its code: none where the message is about
/// no row or there is no code.
pub open spec fn opt_rows_fit(
    trace: Seq<PositionInfoView>,
    code: Option<Seq<char>>,
    rows: RowTexts,
) -> bool {
    match (first_span(trace), code) {
        (Some(span), Some(text)) => rows_fit(span, text, rows),
        _ => rows.above is None && rows.current is None && rows.below is None,
    }
}

/// The snippet that goes with a message about the spans of `trace`, given
/// its code, with the rows `rows`: none where the message is about no row
/// or there is no code.
pub open spec fn opt_snippet_frame(
    trace: Seq<PositionInfoView>,
    code: Option<Seq<char>>,
    rows: RowTexts,
) -> Seq<char> {
    match (first_span(trace), code) {
        (Some(span), Some(_)) => snippet_frame(span, rows),
        _ => Seq::empty(),
    }
}

/// The snippet of `code` that goes with a message about the spans of
/// `trace` is complete: the message is about a row, and the code has that
/// row and the row after it.
pub open spec fn snippet_complete(trace: Seq<PositionInfoView>, code: Seq<char>) -> bool {
    first_span(trace) matches Some(span) && plain_rows(span, code).below is Some
}

/// The snippet that goes with a message about the spans of `trace`, given
/// its code, as plain text: none where the message is about no row or
/// there is no code.
pub open spec fn opt_snippet(trace: Seq<PositionInfoView>, code: Option<Seq<char>>) -> Seq<char> {
    match (first_span(trace), code) {
        (Some(span), Some(text)) => snippet_text(span, text),
        _ => Seq::empty(),
    }
}

/// Only the row of the span changes how much of the span spills over.
pub proof fn lemma_other_rows_keep_spill(
    span: (nat, nat, nat),
    lines: Seq<Seq<char>>,
    index: nat,
    offset: int,
    overflow: nat,
)
    requires
        offset != 0,
    ensures
        snippet_row(span, lines, index, offset, overflow) matches Some(found) ==> found.1
            == overflow,
{
    reveal(snippet_row);
}

/// The views of a sequence of lines.
pub open spec fn line_views(lines: Seq<String>) -> Seq<Seq<char>> {
    lines.map_values(|line: String| line@)
}

/// Cuts `code` into lines at its line feeds and takes the white space off
/// the end of each line.
pub fn lines_of(code: &str) -> (lines: Vec<String>)
    ensures
        line_views(lines@) == snippet_lines(code@),
{
    let chars = chars_of(code);
    let mut raw: Vec<Vec<char>> = Vec::new();
    raw.push(Vec::new());
    let mut i: usize = 0;
    proof {
        assert(chars@.take(0) =~= Seq::<char>::empty());
        assert(raw@.map_values(|l: Vec<char>| l@) =~= seq![Seq::<char>::empty()]);
    }
    while i < chars.len()
        invariant
            i <= chars@.len(),
            chars@ == code@,
            raw@.map_values(|l: Vec<char>| l@) == split_lines(chars@.take(i as int)),
        decreases chars@.len() - i,
    {
        let ghost so_far = raw@.map_values(|l: Vec<char>| l@);
        let ghost prefix = chars@.take(i + 1);
        proof {
            assert(prefix.drop_last() =~= chars@.take(i as int));
            assert(prefix.last() == chars@[i as int]);
            lemma_split_lines_not_empty(chars@.take(i as int));
        }
        let c = chars[i];
        if c == '\n' {
            raw.push(Vec::new());
            proof {
                assert(raw@.map_values(|l: Vec<char>| l@) =~= so_far.push(Seq::<char>::empty()));
            }
        } else {
            let mut last = raw.pop().unwrap();
            last.push(c);
            raw.push(last);
            proof {
                assert(raw@.map_values(|l: Vec<char>| l@) =~= so_far.drop_last().push(
                    so_far.last().push(c),
                ));
            }
        }
        i += 1;
    }
    proof {
        assert(chars@.take(chars@.len() as int) =~= chars@);
    }
    let mut lines: Vec<String> = Vec::new();
    let mut k: usize = 0;
    while k < raw.len()
        invariant
            k <= raw@.len(),
            lines@.len() == k,
            forall|j: int| 0 <= j < k ==> (#[trigger] lines@[j])@ == trimmed(raw@[j]@),
        decreases raw@.len() - k,
    {
        let line = &raw[k];
        let blanks = flag_blanks(line);
        let n = kept_len(&blanks);
        proof {
            assert(line@.subrange(0, n as int) =~= line@.take(n as int));
        }
        lines.push(string_of_range(line, 0, n));
        k += 1;
    }
    proof {
        assert(line_views(lines@) =~= snippet_lines(code@));
    }
    lines
}

/// A text always has at least one line.
pub proof fn lemma_split_lines_not_empty(code: Seq<char>)
    ensures
        split_lines(code).len() >= 1,
    decreases code.len(),
{
    if code.len() > 0 {
        lemma_split_lines_not_empty(code.drop_last());
    }
}

/// Lays out a message as text.
pub struct Logger {
    /// How grave the message is.
    pub kind: MessageType,
    /// The spans concerned, innermost first.
    pub trace: Vec<PositionInfo>,
    /// The text laid out so far.
    pub out: String,
    /// Whether the text is painted. Unpainted text is plain.
    pub colored: bool,
}

impl Logger {
    /// The spans of the trace as mathematical values.
    pub open spec fn spans(&self) -> Seq<PositionInfoView> {
        position_views(self.trace@)
    }

    /// The logger `after` is the logger `self` with more text.
    pub open spec fn extended_by(&self, after: Logger) -> bool {
        &&& after.kind == self.kind
        &&& after.colored == self.colored
        &&& after.spans() == self.spans()
        &&& self.out@.is_prefix_of(after.out@)
    }

    /// A logger for a message of kind `kind` about the spans of `trace`,
    /// with no text laid out yet. Its text will be painted.
    pub fn new(kind: MessageType, trace: &[PositionInfo]) -> (logger: Logger)
        ensures
            logger.kind == kind,
            logger.spans() == position_views(trace@),
            logger.out@.len() == 0,
            logger.colored,
    {
        Logger { kind, trace: clone_trace(trace), out: String::new(), colored: true }
    }

    /// The same logger laying out plain text, without paint.
    pub fn plain(self) -> (logger: Logger)
        ensures
            logger.kind == self.kind,
            logger.spans() == self.spans(),
            logger.out == self.out,
            !logger.colored,
    {
        let mut logger = self;
        logger.colored = false;
        logger
    }

    /// `text` in the color of the message, or as it is where the logger
    /// lays out plain text.
    fn painted(&self, text: &str) -> (out: String)
        ensures
            !self.colored ==> out@ == text@,
    {
        if self.colored {
            shown(&colored_text(text, self.kind_to_color()))
        } else {
            string_of_str(text)
        }
    }

    /// `text` as a header in the color of the message, or as it is where
    /// the logger lays out plain text.
    fn painted_header(&self, text: &str) -> (out: String)
        ensures
            !self.colored ==> out@ == text@,
    {
        if self.colored {
            shown(&on_color(bold(black_text(text)), self.kind_to_color()))
        } else {
            string_of_str(text)
        }
    }

    /// `text` dimmed in the color of the message, or as it is where the
    /// logger lays out plain text.
    fn painted_dimmed(&self, text: &str) -> (out: String)
        ensures
            !self.colored ==> out@ == text@,
    {
        if self.colored {
            shown(&dimmed(colored_text(text, self.kind_to_color())))
        } else {
            string_of_str(text)
        }
    }

    /// `text` dimmed, or as it is where the logger lays out plain text.
    fn dimmed_row(&self, text: &str) -> (out: String)
        ensures
            !self.colored ==> out@ == text@,
    {
        if self.colored {
            shown(&dimmed_text(text))
        } else {
            string_of_str(text)
        }
    }

    /// The color that the message is painted in.
    pub fn kind_to_color(&self) -> (color: PaintColor)
        ensures
            color == kind_color(self.kind),
    {
        match self.kind {
            MessageType::Error => PaintColor::Red,
            MessageType::Warning => PaintColor::Yellow,
            MessageType::Info => PaintColor::Blue,
        }
    }

    /// The label that heads a message of kind `kind`.
    pub fn header_label(kind: MessageType) -> (label: String)
        ensures
            label@ == kind_label(kind),
    {
        match kind {
            MessageType::Error => string_of_str(" ERROR "),
            MessageType::Warning => string_of_str(" WARN "),
            MessageType::Info => string_of_str(" INFO "),
        }
    }

    /// Lays out the header: the label of `kind`, painted, and a space.
    pub fn header(self, kind: MessageType) -> (logger: Logger)
        ensures
            self.extended_by(logger),
            exists|painted: Seq<char>| logger.out@ == self.out@ + #[trigger] painted.push(' '),
            !self.colored ==> logger.out@ == self.out@ + kind_label(kind).push(' '),
    {
        let mut logger = self;
        let name = Self::header_label(kind);
        let formatted = logger.painted_header(name.as_str());
        logger.out.append(formatted.as_str());
        logger.out.push(' ');
        proof {
            assert(logger.out@ =~= self.out@ + formatted@.push(' '));
        }
        logger
    }

    /// Lays out `text`, painted.
    pub fn text(self, text: Option<String>) -> (logger: Logger)
        ensures
            self.extended_by(logger),
            text is None ==> logger.out@ == self.out@,
            !self.colored ==> logger.out@ == self.out@ + match text {
                Some(line) => line@,
                None => Seq::empty(),
            },
    {
        let mut logger = self;
        match text {
            Some(text) => {
                let formatted = logger.painted(text.as_str());
                logger.out.append(formatted.as_str());
            },
            None => {},
        }
        logger
    }

    /// Lays out `text`, painted, and ends the line.
    pub fn line(self, text: Option<String>) -> (logger: Logger)
        ensures
            self.extended_by(logger),
            text is None ==> logger.out@ == self.out@,
            text is Some ==> logger.out@.len() > 0 && logger.out@.last() == '\n',
            exists|painted: Option<Seq<char>>|
                (painted is Some <==> text is Some) && logger.out@ == self.out@
                    + #[trigger] opt_line(painted),
            !self.colored ==> logger.out@ == self.out@ + opt_line(text_of(text)),
    {
        let mut logger = self;
        match text {
            Some(text) => {
                let formatted = logger.painted(text.as_str());
                logger.out.append(formatted.as_str());
                logger.out.push('\n');
                proof {
                    assert(logger.out@ =~= self.out@ + opt_line(Some(formatted@)));
                }
            },
            None => {
                proof {
                    assert(logger.out@ =~= self.out@ + opt_line(None));
                }
            },
        }
        logger
    }

    /// Lays out `text`, painted, on a line of its own after an empty line.
    pub fn padded_line(self, text: Option<String>) -> (logger: Logger)
        ensures
            self.extended_by(logger),
            text is None ==> logger.out@ == self.out@,
            text is Some ==> logger.out@.len() > self.out@.len() && logger.out@[self.out@.len() as int]
                == '\n' && logger.out@.last() == '\n',
            exists|painted: Option<Seq<char>>|
                (painted is Some <==> text is Some) && logger.out@ == self.out@
                    + #[trigger] opt_padded_line(painted),
            !self.colored ==> logger.out@ == self.out@ + opt_padded_line(text_of(text)),
    {
        let mut logger = self;
        match text {
            Some(text) => {
                let formatted = logger.painted(text.as_str());
                logger.out.push('\n');
                logger.out.append(formatted.as_str());
                logger.out.push('\n');
                proof {
                    assert(logger.out@ =~= self.out@ + opt_padded_line(Some(formatted@)));
                }
            },
            None => {
                proof {
                    assert(logger.out@ =~= self.out@ + opt_padded_line(None));
                }
            },
        }
        logger
    }

    /// The lines that say where the message belongs.
    pub fn path_text(&self) -> (text: String)
        ensures
            text@ == path_lines(self.spans()),
    {
        if self.trace.len() == 0 {
            return string_of_str("at [unknown]:0:0");
        }
        let mut text = string_of_str("at ");
        Self::push_place(&mut text, &self.trace[0]);
        let mut i: usize = 1;
        while i < self.trace.len()
            invariant
                1 <= i <= self.trace@.len(),
                text@ == "at "@ + place_text(self.spans()[0]) + outer_places(self.spans(), i as int),
            decreases self.trace@.len() - i,
        {
            let ghost before = text@;
            text.append("\nin ");
            Self::push_place(&mut text, &self.trace[i]);
            proof {
                assert(text@ =~= before + "\nin "@ + place_text(self.spans()[i as int]));
                assert(text@ =~= "at "@ + place_text(self.spans()[0]) + outer_places(
                    self.spans(),
                    i + 1,
                ));
            }
            i += 1;
        }
        text
    }

    /// Appends the place of `info` to `out`.
    fn push_place(out: &mut String, info: &PositionInfo)
        ensures
            final(out)@ == old(out)@ + place_text(info@),
    {
        let path = info.get_path();
        let ghost before = out@;
        out.append(path.as_str());
        out.push(':');
        match info.position {
            Position::Pos(row, col) => {
                push_decimal(out, row);
                out.push(':');
                push_decimal(out, col);
            },
            Position::EOF => {
                out.append(" end of file");
            },
        }
        proof {
            assert(out@ =~= before + place_text(info@));
        }
    }

    /// Lays out the lines that say where the message belongs, painted and
    /// dimmed.
    pub fn path(self) -> (logger: Logger)
        ensures
            self.extended_by(logger),
            logger.out@.len() > 0 && logger.out@.last() == '\n',
            exists|painted: Seq<char>| logger.out@ == self.out@ + #[trigger] painted.push('\n'),
            !self.colored ==> logger.out@ == self.out@ + path_lines(self.spans()).push('\n'),
    {
        let mut logger = self;
        let path = logger.path_text();
        let formatted = logger.painted_dimmed(path.as_str());
        logger.out.append(formatted.as_str());
        logger.out.push('\n');
        proof {
            assert(logger.out@ =~= self.out@ + formatted@.push('\n'));
        }
        logger
    }

    /// Row, column and length of the span that the message is about.
    pub fn get_row_col_len(&self) -> (span: Option<(usize, usize, usize)>)
        ensures
            match span {
                Some((row, col, len)) => first_span(self.spans()) == Some(
                    (row as nat, col as nat, len as nat),
                ),
                None => first_span(self.spans()) is None,
            },
    {
        if self.trace.len() == 0 {
            return None;
        }
        let pos = &self.trace[0];
        match pos.position {
            Position::Pos(row, col) => Some((row, col, pos.len)),
            Position::EOF => None,
        }
    }

    /// The width of the widest row number that a snippet of a code of
    /// `length` lines shows.
    pub fn get_max_pad_size(&self, length: usize) -> (size: Option<usize>)
        ensures
            match first_span(self.spans()) {
                Some(span) => size matches Some(width) && width == decimal(
                    widest_row(span.0, length as nat),
                ).len(),
                None => size is None,
            },
    {
        match self.get_row_col_len() {
            Some((row, _, _)) => {
                if length > 0 && row < length - 1 {
                    Some(decimal_chars(row + 1).len())
                } else {
                    Some(decimal_chars(row).len())
                }
            },
            None => None,
        }
    }

    /// Cuts `line` in three: what comes before the span that the message is
    /// about, the span itself, and what comes after it.
    pub fn get_highlighted_part(&self, line: &str) -> (parts: Option<(String, String, String)>)
        ensures
            match first_span(self.spans()) {
                Some(span) => parts matches Some(cut) && (cut.0@, cut.1@, cut.2@) == highlighted(
                    line@,
                    span.1,
                    span.2,
                ),
                None => parts is None,
            },
    {
        match self.get_row_col_len() {
            Some((_row, col, len)) => {
                let chars = chars_of(line);
                let n = chars.len();
                let begin: usize = if col == 0 {
                    0
                } else {
                    col - 1
                };
                let from: usize = if begin < n {
                    begin
                } else {
                    n
                };
                let to: usize = if len < n && begin < n - len {
                    begin + len
                } else {
                    n
                };
                Some(
                    (
                        string_of_range(&chars, 0, from),
                        string_of_range(&chars, from, to),
                        string_of_range(&chars, to, n),
                    ),
                )
            },
            None => None,
        }
    }

    /// The row of a snippet of `code` that lies `offset` rows from the line
    /// at `index`, in its parts. `overflow` holds how many characters of
    /// the span spill over from the row before, and is set to how many
    /// spill over to the next.
    pub fn snippet_row_parts(
        &self,
        code: &Vec<String>,
        index: usize,
        offset: i8,
        overflow: &mut usize,
    ) -> (parts: Option<SnippetRow>)
        ensures
            match first_span(self.spans()) {
                Some(span) => match snippet_row(
                    span,
                    line_views(code@),
                    index as nat,
                    offset as int,
                    *old(overflow) as nat,
                ) {
                    Some((layout, spill)) => {
                        &&& parts matches Some(row)
                        &&& row@ == layout
                        &&& *final(overflow) == fit(spill)
                    },
                    None => parts is None && *final(overflow) == *old(overflow),
                },
                None => parts is None && *final(overflow) == *old(overflow),
            },
    {
        reveal(snippet_row);
        let (row, col, len) = match self.get_row_col_len() {
            Some(span) => span,
            None => {
                return None;
            },
        };
        let max_pad = match self.get_max_pad_size(code.len()) {
            Some(size) => size,
            None => {
                return None;
            },
        };
        let back: u128 = if offset < 0 {
            (-(offset as i16)) as u128
        } else {
            0
        };
        let forth: u128 = if offset < 0 {
            0
        } else {
            offset as u128
        };
        let at: u128 = if (index as u128) + forth < back {
            return None;
        } else {
            (index as u128) + forth - back
        };
        if at >= code.len() as u128 {
            return None;
        }
        let line = chars_of(code[at as usize].as_str());
        let count = line.len();
        let number: Vec<char> = if (row as u128) + forth >= back {
            decimal_chars_wide((row as u128) + forth - back)
        } else {
            let mut signed: Vec<char> = Vec::new();
            signed.push('-');
            let mut digits = decimal_chars_wide(back - (row as u128) - forth);
            signed.append(&mut digits);
            signed
        };
        proof {
            assert(number@ =~= row_label(row as nat, offset as int));
            lemma_decimal_is_plain((row + offset) as nat);
            lemma_decimal_is_plain((-(row + offset)) as nat);
            lemma_decimal_is_plain(widest_row(row as nat, code@.len()));
        }
        let number_text = string_of(number.as_slice());
        let label = pad_label(number_text.as_str(), max_pad);
        if offset == 0 {
            let cut = match self.get_highlighted_part(code[at as usize].as_str()) {
                Some(cut) => cut,
                None => {
                    return None;
                },
            };
            let reach: u128 = (col as u128) + (len as u128);
            if reach > (count as u128) + 1 {
                let spill: u128 = reach - 2 - (count as u128);
                *overflow = if spill > usize::MAX as u128 {
                    usize::MAX
                } else {
                    spill as usize
                };
            }
            Some(
                SnippetRow {
                    label,
                    before: cut.0,
                    marked: Some(cut.1),
                    after: cut.2,
                    dimmed: false,
                },
            )
        } else if *overflow > count {
            let whole = string_of(line.as_slice());
            Some(
                SnippetRow {
                    label,
                    before: String::new(),
                    marked: Some(whole),
                    after: String::new(),
                    dimmed: true,
                },
            )
        } else if *overflow > 0 {
            Some(
                SnippetRow {
                    label,
                    before: String::new(),
                    marked: Some(string_of_range(&line, 0, *overflow)),
                    after: string_of_range(&line, *overflow, count),
                    dimmed: true,
                },
            )
        } else {
            let whole = string_of(line.as_slice());
            Some(
                SnippetRow {
                    label,
                    before: whole,
                    marked: None,
                    after: String::new(),
                    dimmed: true,
                },
            )
        }
    }

    /// A row of a snippet as text: the row number, a bar, and the line
    /// with its marked part painted; dimmed as a whole where the row says
    /// so.
    pub fn paint_row(&self, row: &SnippetRow) -> (text: String)
        ensures
            !self.colored ==> text@ == row_text(row@),
    {
        let mut text = row.label.clone();
        text.append("| ");
        text.append(row.before.as_str());
        match &row.marked {
            Some(marked) => {
                let painted = self.painted(marked.as_str());
                text.append(painted.as_str());
            },
            None => {},
        }
        text.append(row.after.as_str());
        proof {
            if !self.colored {
                assert(text@ =~= row_text(row@));
            }
        }
        if row.dimmed {
            self.dimmed_row(text.as_str())
        } else {
            text
        }
    }

    /// The row of a snippet of `code` that lies `offset` rows from the line
    /// at `index`, as text. There is no row where the code has no such
    /// line, or the message is about no row.
    pub fn get_snippet_row(
        &self,
        code: &Vec<String>,
        index: usize,
        offset: i8,
        overflow: &mut usize,
    ) -> (text: Option<String>)
        ensures
            match first_span(self.spans()) {
                Some(span) => match snippet_row(
                    span,
                    line_views(code@),
                    index as nat,
                    offset as int,
                    *old(overflow) as nat,
                ) {
                    Some((layout, spill)) => {
                        &&& text matches Some(line)
                        &&& !self.colored ==> line@ == row_text(layout)
                        &&& *final(overflow) == fit(spill)
                    },
                    None => text is None && *final(overflow) == *old(overflow),
                },
                None => text is None && *final(overflow) == *old(overflow),
            },
    {
        match self.snippet_row_parts(code, index, offset, overflow) {
            Some(row) => Some(self.paint_row(&row)),
            None => None,
        }
    }

    /// Lays out the row of a snippet of `code` that lies `offset` rows from
    /// the line at `index`, on a line of its own, if the code has that row.
    /// Returns the row as it was laid out.
    fn lay_row(&mut self, code: &Vec<String>, index: usize, offset: i8, overflow: &mut usize) -> (row:
        Option<String>)
        ensures
            old(self).extended_by(*final(self)),
            final(self).out@ == old(self).out@ + opt_line(text_of(row)),
            match first_span(old(self).spans()) {
                Some(span) => match snippet_row(
                    span,
                    line_views(code@),
                    index as nat,
                    offset as int,
                    *old(overflow) as nat,
                ) {
                    Some((layout, spill)) => {
                        &&& row matches Some(line)
                        &&& !old(self).colored ==> line@ == row_text(layout)
                        &&& *final(overflow) == fit(spill)
                    },
                    None => row is None && *final(overflow) == *old(overflow),
                },
                None => row is None && *final(overflow) == *old(overflow),
            },
    {
        let ghost start = self.out@;
        let row = self.get_snippet_row(code, index, offset, overflow);
        match &row {
            Some(line) => {
                self.out.append(line.as_str());
                self.out.push('\n');
                proof {
                    assert(self.out@ =~= start + opt_line(Some(line@)));
                }
            },
            None => {
                proof {
                    assert(self.out@ =~= start + opt_line(None));
                }
            },
        }
        row
    }

    /// Lays out a snippet of `code` around the span that the message is
    /// about: an empty line, then the row before the span, the row of the
    /// span and the row after it, as far as the code has them. Nothing is
    /// laid out where the message is about no row. Returns `Some` if the
    /// snippet is complete: if the row of the span and the row after it
    /// were laid out.
    pub fn snippet_from_code(&mut self, code: &str) -> (done: Option<()>)
        ensures
            old(self).extended_by(*final(self)),
            done is Some <==> snippet_complete(old(self).spans(), code@),
            first_span(old(self).spans()) is None ==> final(self).out@ == old(self).out@,
            exists|rows: RowTexts|
                {
                    &&& #[trigger] opt_rows_fit(old(self).spans(), Some(code@), rows)
                    &&& final(self).out@ == old(self).out@ + opt_snippet_frame(
                        old(self).spans(),
                        Some(code@),
                        rows,
                    )
                },
            !old(self).colored ==> final(self).out@ == old(self).out@ + opt_snippet(
                old(self).spans(),
                Some(code@),
            ),
    {
        let ghost start = self.out@;
        let ghost none = RowTexts { above: None, current: None, below: None };
        let (row, _, _) = match self.get_row_col_len() {
            Some(span) => span,
            None => {
                proof {
                    assert(opt_rows_fit(self.spans(), Some(code@), none));
                    assert(self.out@ =~= start + opt_snippet_frame(self.spans(), Some(code@), none));
                }
                return None;
            },
        };
        let ghost span = first_span(self.spans())->0;
        if row == 0 {
            proof {
                assert(opt_rows_fit(self.spans(), Some(code@), none));
                assert(none == plain_rows(span, code@));
                assert(self.out@ =~= start + opt_snippet_frame(self.spans(), Some(code@), none));
            }
            return None;
        }
        let mut overflow: usize = 0;
        let index = row - 1;
        let lines = lines_of(code);
        proof {
            lemma_other_rows_keep_spill(span, snippet_lines(code@), index as nat, -1, 0);
        }
        self.out.push('\n');
        let above = self.lay_row(&lines, index, -1, &mut overflow);
        let current = self.lay_row(&lines, index, 0, &mut overflow);
        if current.is_none() {
            proof {
                let rows = RowTexts { above: text_of(above), current: None, below: None };
                assert(opt_rows_fit(self.spans(), Some(code@), rows));
                assert(self.out@ =~= start + snippet_frame(span, rows));
                assert(!self.colored ==> rows == plain_rows(span, code@));
            }
            return None;
        }
        let below = self.lay_row(&lines, index, 1, &mut overflow);
        proof {
            let rows = RowTexts {
                above: text_of(above),
                current: text_of(current),
                below: text_of(below),
            };
            assert(opt_rows_fit(self.spans(), Some(code@), rows));
            assert(self.out@ =~= start + snippet_frame(span, rows));
            assert(!self.colored ==> rows == plain_rows(span, code@));
        }
        if below.is_none() {
            None
        } else {
            Some(())
        }
    }

    /// Lays out a snippet of `code`, if there is code.
    pub fn snippet(self, code: Option<&str>) -> (logger: Logger)
        ensures
            self.extended_by(logger),
            code is None ==> logger.out@ == self.out@,
            exists|rows: RowTexts|
                {
                    &&& #[trigger] opt_rows_fit(self.spans(), source_of(code), rows)
                    &&& logger.out@ == self.out@ + opt_snippet_frame(
                        self.spans(),
                        source_of(code),
                        rows,
                    )
                },
            !self.colored ==> logger.out@ == self.out@ + opt_snippet(
                self.spans(),
                source_of(code),
            ),
    {
        let mut logger = self;
        match code {
            Some(code) => {
                logger.snippet_from_code(code);
                proof {
                    let rows = choose|rows: RowTexts|
                        {
                            &&& #[trigger] opt_rows_fit(self.spans(), Some(code@), rows)
                            &&& logger.out@ == self.out@ + opt_snippet_frame(
                                self.spans(),
                                Some(code@),
                                rows,
                            )
                        };
                    assert(opt_rows_fit(self.spans(), source_of(Some(code)), rows));
                }
            },
            None => {
                proof {
                    let none = RowTexts { above: None, current: None, below: None };
                    assert(opt_rows_fit(self.spans(), source_of(code), none));
                    assert(logger.out@ =~= self.out@ + opt_snippet_frame(self.spans(), None, none));
                    assert(logger.out@ =~= self.out@ + opt_snippet(self.spans(), None));
                }
            },
        }
        logger
    }

    /// The text laid out.
    pub fn render(self) -> (text: String)
        ensures
            text == self.out,
    {
        self.out
    }
}

} // verus!
