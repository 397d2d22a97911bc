//! The lexer as a mathematical state machine: what one character does to
//! the lexer's state, and what a whole text is turned into.

use vstd::prelude::*;
use crate::compiling::lexing::compound_handler::{CompoundReaction, compound_react};
use crate::compiling::lexing::reader::{col_at, peek_of, row_at};
use crate::compiling::lexing::region_handler::{FrameModel, RegionReaction, react};
use crate::compiling::token::TokenView;
use crate::compiling_rules::region::Region;

verus! {

/// Why lexing stopped short.
#[derive(PartialEq, Eq, Clone, Copy, Debug)]
pub enum LexerErrorType {
    /// A line feed was met inside a region that must stay on one line.
    Singleline,
    /// The text ended inside a region that must be closed.
    Unclosed,
}

/// What the lexer is configured with.
pub struct LexConfig {
    /// Characters that are tokens of their own.
    pub symbols: Seq<char>,
    /// Pairs of characters that merge into one token.
    pub compounds: Seq<(char, char)>,
    /// The root of the region tree.
    pub root: Region,
    /// The regions that a reference can name.
    pub entries: Seq<Region>,
    /// The escape character.
    pub escape: char,
    /// Whether line feeds are dropped rather than made tokens.
    pub manual: bool,
    /// Whether indentation is made into tokens.
    pub indent: bool,
}

/// The lexer's state between two characters.
pub struct LexModel {
    /// The characters of the token in progress.
    pub word: Seq<char>,
    /// Whether the token in progress is a run of leading indentation.
    pub is_indenting: bool,
    /// Whether the next character is escaped.
    pub is_escaped: bool,
    /// Where the token in progress starts.
    pub token_start_index: nat,
    /// The position of the first character of the token in progress;
    /// `(0, 0)` after a token was emitted.
    pub position: (nat, nat),
    /// The tokens produced so far.
    pub lexem: Seq<TokenView>,
    /// The open regions, outermost first.
    pub stack: Seq<FrameModel>,
    /// Whether a compound token is in progress.
    pub compound_active: bool,
}

/// A failed run: the kind of failure, where it happened, and the name of
/// the region concerned.
pub struct LexFailure {
    pub kind: LexerErrorType,
    pub pos: (nat, nat),
    pub region_name: Seq<char>,
}

/// A run after some characters: still going, or failed.
pub enum Progress {
    Running(LexModel),
    Failed(LexFailure),
}

/// Space or tab.
pub open spec fn is_blank(c: char) -> bool {
    c == ' ' || c == '\t'
}

/// The state before the first character.
pub open spec fn initial(cfg: LexConfig) -> LexModel {
    LexModel {
        word: Seq::empty(),
        is_indenting: false,
        is_escaped: false,
        token_start_index: 0,
        position: (0, 0),
        lexem: Seq::empty(),
        stack: seq![FrameModel { region: cfg.root, interp: cfg.root.interp@ }],
        compound_active: false,
    }
}

/// Emits the token in progress, if there is one, at the recorded position.
pub open spec fn flush(s: LexModel) -> LexModel {
    if s.word.len() == 0 {
        s
    } else {
        LexModel {
            lexem: s.lexem.push(
                TokenView { word: s.word, pos: s.position, start: s.token_start_index },
            ),
            position: (0, 0),
            word: Seq::empty(),
            ..s
        }
    }
}

/// Emits the token in progress, if there is one, as an indent token: at
/// column one of `row`.
pub open spec fn flush_indent(s: LexModel, row: nat) -> LexModel {
    if s.word.len() == 0 {
        s
    } else {
        LexModel {
            lexem: s.lexem.push(
                TokenView { word: s.word, pos: (row, 1), start: s.token_start_index },
            ),
            position: (0, 0),
            word: Seq::empty(),
            ..s
        }
    }
}

/// Appends the character `c`, found at index `i` and position `pos`, to
/// the token in progress. An empty token starts with it: at `i`, and at
/// the position `pos`.
pub open spec fn grow(s: LexModel, c: char, i: nat, pos: (nat, nat)) -> LexModel {
    if s.word.len() == 0 {
        LexModel { token_start_index: i, position: pos, word: seq![c], ..s }
    } else {
        LexModel { word: s.word.push(c), ..s }
    }
}

/// Emits the token in progress and then `c` as a token of its own.
pub open spec fn symbol(s: LexModel, c: char, i: nat, pos: (nat, nat)) -> LexModel {
    flush(grow(flush(s), c, i, pos))
}

/// Emits the token in progress and starts a new one with `c`.
pub open spec fn begin(s: LexModel, c: char, i: nat, pos: (nat, nat)) -> LexModel {
    grow(flush(s), c, i, pos)
}

/// Appends `c` to the token in progress and emits it.
pub open spec fn end(s: LexModel, c: char, i: nat, pos: (nat, nat)) -> LexModel {
    flush(grow(s, c, i, pos))
}

/// A character that opens a region. The delimiter of a tokenizing region
/// is a token of its own; an opaque region starts a new token, after a
/// line feed token if it opens with a line feed.
pub open spec fn on_begin(s: LexModel, tokenize: bool, c: char, i: nat, pos: (nat, nat)) -> LexModel {
    if tokenize {
        symbol(s, c, i, pos)
    } else if c == '\n' {
        begin(symbol(s, c, i, pos), c, i, pos)
    } else {
        begin(s, c, i, pos)
    }
}

/// A character that closes a region. The delimiter of a tokenizing region
/// is a token of its own; an opaque region ends its token, followed by a
/// line feed token if it closes with a line feed.
pub open spec fn on_end(s: LexModel, tokenize: bool, c: char, i: nat, pos: (nat, nat)) -> LexModel {
    if tokenize {
        symbol(s, c, i, pos)
    } else if c == '\n' {
        symbol(end(s, c, i, pos), c, i, pos)
    } else {
        end(s, c, i, pos)
    }
}

/// A character inside an opaque region: it joins the token, and tells
/// whether the next character is escaped. A line feed in a region that
/// must stay on one line fails the run.
pub open spec fn on_opaque(cfg: LexConfig, s: LexModel, c: char, i: nat, pos: (nat, nat)) -> Progress {
    let escaped = !s.is_escaped && c == cfg.escape;
    let top = s.stack.last().region;
    if c == '\n' && top.singleline {
        Progress::Failed(
            LexFailure { kind: LexerErrorType::Singleline, pos, region_name: top.name@ },
        )
    } else {
        Progress::Running(grow(LexModel { is_escaped: escaped, ..s }, c, i, pos))
    }
}

/// A character in tokenized context under indent scoping: blanks join a
/// run of indentation, a line feed starts one, and the run is emitted as
/// an indent token as soon as the next character is not a blank. The
/// indent token is placed at the first column of the row of `pos`.
pub open spec fn on_indent(
    s: LexModel,
    c: char,
    i: nat,
    next: Option<char>,
    pos: (nat, nat),
) -> LexModel {
    let joined = if s.is_indenting && is_blank(c) {
        grow(s, c, i, pos)
    } else {
        s
    };
    let started = if c == '\n' {
        begin(LexModel { is_indenting: true, ..joined }, c, i, pos)
    } else {
        joined
    };
    if started.is_indenting && next is Some && !is_blank(next->0) {
        LexModel { is_indenting: false, ..flush_indent(started, pos.0) }
    } else {
        started
    }
}

/// A character in tokenized context that no mode takes: blanks and, in
/// manual mode, line feeds end the token in progress and are dropped;
/// symbols and line feeds are tokens of their own; anything else joins the
/// token in progress.
pub open spec fn on_plain(cfg: LexConfig, s: LexModel, c: char, i: nat, pos: (nat, nat)) -> LexModel {
    if cfg.manual && c == '\n' {
        flush(s)
    } else if is_blank(c) {
        flush(s)
    } else if cfg.symbols.contains(c) || c == '\n' {
        symbol(s, c, i, pos)
    } else {
        grow(s, c, i, pos)
    }
}

/// A character in tokenized context that neither opens nor closes a
/// region and takes no part in a compound.
pub open spec fn on_tokenized(
    cfg: LexConfig,
    s: LexModel,
    c: char,
    i: nat,
    next: Option<char>,
    pos: (nat, nat),
) -> LexModel {
    if cfg.indent && (s.is_indenting || c == '\n') {
        on_indent(s, c, i, next, pos)
    } else {
        on_plain(cfg, s, c, i, pos)
    }
}

/// A character that neither opens nor closes a region.
pub open spec fn on_pass(
    cfg: LexConfig,
    s: LexModel,
    c: char,
    i: nat,
    next: Option<char>,
    pos: (nat, nat),
) -> Progress {
    let tokenized = s.stack.last().region.tokenize;
    let (reaction, active) = compound_react(cfg.compounds, s.compound_active, c, next, tokenized);
    let t = LexModel { compound_active: active, ..s };
    match reaction {
        CompoundReaction::Begin => Progress::Running(begin(t, c, i, pos)),
        CompoundReaction::Keep => Progress::Running(grow(t, c, i, pos)),
        CompoundReaction::End => Progress::Running(end(t, c, i, pos)),
        CompoundReaction::Pass => if tokenized {
            Progress::Running(on_tokenized(cfg, t, c, i, next, pos))
        } else {
            on_opaque(cfg, t, c, i, pos)
        },
    }
}

/// What the character at index `i` of `code` does to the state `s`.
pub open spec fn step(cfg: LexConfig, code: Seq<char>, s: LexModel, i: int) -> Progress {
    let c = code[i];
    let pos = (row_at(code, i), col_at(code, i));
    let (reaction, stack) = react(s.stack, cfg.entries, code, i, s.is_escaped);
    let t = LexModel { stack, ..s };
    match reaction {
        RegionReaction::Begin(tokenize) => Progress::Running(on_begin(t, tokenize, c, i as nat, pos)),
        RegionReaction::End(tokenize) => Progress::Running(on_end(t, tokenize, c, i as nat, pos)),
        RegionReaction::Pass => on_pass(cfg, t, c, i as nat, peek_of(code, i), pos),
    }
}

/// The run after the first `n` characters of `code`.
pub open spec fn run(cfg: LexConfig, code: Seq<char>, n: nat) -> Progress
    decreases n,
{
    if n == 0 {
        Progress::Running(initial(cfg))
    } else {
        match run(cfg, code, (n - 1) as nat) {
            Progress::Running(s) => step(cfg, code, s, n - 1),
            Progress::Failed(failure) => Progress::Failed(failure),
        }
    }
}

/// The end of a run over `code`: the token in progress is emitted, and the
/// run fails if the innermost open region is not global and may not be
/// left open.
pub open spec fn finish(code: Seq<char>, progress: Progress) -> Result<LexModel, LexFailure> {
    match progress {
        Progress::Failed(failure) => Err(failure),
        Progress::Running(s) => {
            let top = s.stack.last().region;
            if top.global || top.allow_unclosed {
                Ok(flush(s))
            } else {
                Err(
                    LexFailure {
                        kind: LexerErrorType::Unclosed,
                        pos: (row_at(code, code.len() as int), col_at(code, code.len() as int)),
                        region_name: top.name@,
                    },
                )
            }
        },
    }
}

/// The state that lexing `code` ends in, or the failure that it stops at.
pub open spec fn lex_end(cfg: LexConfig, code: Seq<char>) -> Result<LexModel, LexFailure> {
    finish(code, run(cfg, code, code.len()))
}

/// The tokens that `code` is turned into, or the failure that lexing
/// stops at.
pub open spec fn lex(cfg: LexConfig, code: Seq<char>) -> Result<Seq<TokenView>, LexFailure> {
    match lex_end(cfg, code) {
        Ok(s) => Ok(s.lexem),
        Err(failure) => Err(failure),
    }
}

} // verus!
