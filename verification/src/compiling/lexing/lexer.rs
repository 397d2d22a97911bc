//! The lexer: turns source text into tokens, one character at a time.

use vstd::prelude::*;
use crate::compiling::compiler::{ScopingMode, SeparatorMode};
use crate::compiling::failing::position_info::{Position, PositionInfo, PositionInfoView, text_of};
use crate::compiling::lexing::compound_handler::{CompoundHandler, CompoundReaction};
use crate::compiling::lexing::machine::{
    LexConfig,
    LexFailure,
    LexModel,
    LexerErrorType,
    Progress,
    begin,
    end,
    flush,
    flush_indent,
    grow,
    initial,
    lex,
    on_begin,
    on_end,
    on_indent,
    on_opaque,
    on_pass,
    on_plain,
    run,
    step,
    symbol,
};
use crate::compiling::lexing::balance::{lemma_config_wf, steady_indentation};
use crate::compiling::lexing::order::{
    apart,
    feedless_rules,
    in_order,
    lemma_tokens_in_order,
    lemma_tokens_lie_apart,
};
use crate::compiling::lexing::pieces::{all_literal, lemma_tokens_are_pieces_of_the_text};
use crate::compiling::lexing::dropped::{
    all_accounted_for,
    lemma_characters_accounted_for,
    only_white_space_dropped,
};
use crate::compiling::lexing::positions::{
    all_placed,
    all_placed_or_indentation,
    from_one,
    lemma_positions_count_from_one,
};
use crate::compiling::lexing::reader::{Reader, lemma_position_bounds, peek_of};
use crate::compiling::lexing::region_handler::{RegionHandler, RegionReaction};
use crate::compiling::token::{Token, token_views};
use crate::compiling_rules::region::preorder;
use crate::compiling_rules::rules::{Rules, same_rules};
use crate::text::{clone_text, contains_char, fit};

verus! {

/// What a failed run of the lexer returns: the kind of failure, and where
/// it happened, with the name of the region concerned as the note.
pub type LexerError = (LexerErrorType, PositionInfo);

/// The span that reports a failed run in the file `path`.
pub open spec fn failure_info(path: Option<Seq<char>>, failure: LexFailure) -> PositionInfoView {
    PositionInfoView {
        path,
        position: Position::Pos(fit(failure.pos.0), fit(failure.pos.1)),
        len: 0,
        data: Some(failure.region_name),
    }
}

/// The lexer of a language.
#[derive(Debug, PartialEq)]
pub struct Lexer {
    /// The rules that the lexer works by.
    pub rules: Rules,
    /// Path of the file that is lexed, if there is one.
    pub path: Option<String>,
    /// Whether line feeds become tokens.
    pub separator_mode: SeparatorMode,
    /// The character that keeps the delimiter after it from matching.
    pub escape_symbol: char,
    /// Whether indentation becomes tokens.
    pub scoping_mode: ScopingMode,
}

/// Two lexers that work alike: by rules that say the same, in the same
/// modes.
pub open spec fn same_lexer(a: Lexer, b: Lexer) -> bool {
    &&& same_rules(a.rules, b.rules)
    &&& a.path == b.path
    &&& a.separator_mode == b.separator_mode
    &&& a.escape_symbol == b.escape_symbol
    &&& a.scoping_mode == b.scoping_mode
}

impl Clone for Lexer {
    fn clone(&self) -> (out: Lexer)
        ensures
            same_lexer(*self, out),
    {
        Lexer {
            rules: self.rules.clone(),
            path: clone_text(&self.path),
            separator_mode: self.separator_mode.clone(),
            escape_symbol: self.escape_symbol,
            scoping_mode: self.scoping_mode,
        }
    }
}

struct LexState<'a> {
    word: String,
    is_indenting: bool,
    is_escaped: bool,
    token_start_index: usize,
    position: (usize, usize),
    reader: Reader,
    lexem: Vec<Token>,
    region_handler: RegionHandler<'a>,
    compound_handler: CompoundHandler<'a>,
}

impl<'a> View for LexState<'a> {
    type V = LexModel;

    closed spec fn view(&self) -> LexModel {
        LexModel {
            word: self.word@,
            is_indenting: self.is_indenting,
            is_escaped: self.is_escaped,
            token_start_index: self.token_start_index as nat,
            position: (self.position.0 as nat, self.position.1 as nat),
            lexem: token_views(self.lexem@),
            stack: self.region_handler.stack(),
            compound_active: self.compound_handler.active(),
        }
    }
}

impl<'a> LexState<'a> {
    /// The reader and the two handlers are those of `other`.
    spec fn same_parts(&self, other: &LexState<'a>) -> bool {
        &&& self.reader == other.reader
        &&& self.region_handler == other.region_handler
        &&& self.compound_handler == other.compound_handler
    }

    /// The reader stands on a character of the text, and the handlers are
    /// those of the configuration `cfg`.
    spec fn ready(&self, cfg: LexConfig) -> bool {
        &&& self.reader.wf()
        &&& self.reader.started()
        &&& self.reader.index < self.reader.code@.len()
        &&& self.region_handler.wf()
        &&& self.region_handler.entries() == cfg.entries
        &&& self.compound_handler.compounds() == cfg.compounds
    }

    /// Index of the character that the reader stands on.
    spec fn at(&self) -> nat {
        self.reader.index as nat
    }

    /// Row and column that the reader stands on.
    spec fn here(&self) -> (nat, nat) {
        (self.reader.row as nat, self.reader.col as nat)
    }
}

/// A run that has failed stays failed, whatever follows.
pub proof fn lemma_failed_run_stays(cfg: LexConfig, code: Seq<char>, n: nat, m: nat)
    requires
        n <= m,
        run(cfg, code, n) is Failed,
    ensures
        run(cfg, code, m) == run(cfg, code, n),
    decreases m,
{
    if n < m {
        lemma_failed_run_stays(cfg, code, n, (m - 1) as nat);
    }
}

impl Lexer {
    /// The configuration that the lexer runs with.
    pub open spec fn config(&self) -> LexConfig {
        LexConfig {
            symbols: self.rules.symbols@,
            compounds: self.rules.compounds@,
            root: self.rules.region_tree,
            entries: preorder(self.rules.region_tree),
            escape: self.escape_symbol,
            manual: self.separator_mode is Manual,
            indent: self.scoping_mode is Indent,
        }
    }

    /// A lexer for `rules`, in block scoping and manual separator mode,
    /// with the escape character of the rules and no path.
    pub fn new(rules: Rules) -> (lexer: Lexer)
        ensures
            lexer.rules == rules,
            lexer.path is None,
            lexer.separator_mode is Manual,
            lexer.escape_symbol == rules.escape_symbol,
            lexer.scoping_mode is Block,
    {
        let escape_symbol = rules.escape_symbol;
        Lexer {
            rules,
            path: None,
            separator_mode: SeparatorMode::Manual,
            escape_symbol,
            scoping_mode: ScopingMode::Block,
        }
    }

    fn is_manual(&self) -> (manual: bool)
        ensures
            manual == self.config().manual,
    {
        match &self.separator_mode {
            SeparatorMode::Manual => true,
            _ => false,
        }
    }

    fn is_indent(&self) -> (indent: bool)
        ensures
            indent == self.config().indent,
    {
        match &self.scoping_mode {
            ScopingMode::Indent => true,
            _ => false,
        }
    }

    fn is_symbol(&self, letter: char) -> (found: bool)
        ensures
            found == self.config().symbols.contains(letter),
    {
        contains_char(&self.rules.symbols, letter)
    }

    /// Emits the token in progress as an indent token, at column one of the
    /// reader's row.
    fn add_indent(&self, lex_state: &mut LexState)
        ensures
            final(lex_state)@ == flush_indent(old(lex_state)@, old(lex_state).reader.row as nat),
            final(lex_state).same_parts(old(lex_state)),
    {
        if lex_state.word.as_str().is_empty() {
            return ;
        }
        let (row, _col) = lex_state.reader.get_position();
        let ghost before = token_views(lex_state.lexem@);
        let token = Token {
            word: lex_state.word.clone(),
            pos: (row, 1),
            start: lex_state.token_start_index,
        };
        lex_state.lexem.push(token);
        lex_state.position = (0, 0);
        lex_state.word = String::new();
        proof {
            assert(token_views(lex_state.lexem@) =~= before.push(token@));
        }
    }

    /// Emits the token in progress, if there is one.
    fn add_word(&self, lex_state: &mut LexState)
        ensures
            final(lex_state)@ == flush(old(lex_state)@),
            final(lex_state).same_parts(old(lex_state)),
    {
        if lex_state.word.as_str().is_empty() {
            return ;
        }
        let ghost before = token_views(lex_state.lexem@);
        let token = Token {
            word: lex_state.word.clone(),
            pos: lex_state.position,
            start: lex_state.token_start_index,
        };
        lex_state.lexem.push(token);
        lex_state.position = (0, 0);
        lex_state.word = String::new();
        proof {
            assert(token_views(lex_state.lexem@) =~= before.push(token@));
        }
    }

    /// Emits the token in progress, the current character included.
    fn add_word_inclusively(&self, lex_state: &mut LexState)
        ensures
            final(lex_state)@ == flush(old(lex_state)@),
            final(lex_state).same_parts(old(lex_state)),
    {
        self.add_word(lex_state);
    }

    /// Whether the current character is in tokenized context: the innermost
    /// region is tokenized and the character neither opened nor closed one.
    fn is_tokenized_region(&self, reaction: &RegionReaction, lex_state: &LexState) -> (tokenized:
        bool)
        requires
            lex_state.region_handler.wf(),
        ensures
            tokenized == (lex_state@.stack.last().region.tokenize && *reaction
                == RegionReaction::Pass),
    {
        match lex_state.region_handler.get_region() {
            Some(region) => region.tokenize && match reaction {
                RegionReaction::Pass => true,
                _ => false,
            },
            None => false,
        }
    }

    /// Emits the token in progress and then `letter` as a token of its own.
    fn pattern_add_symbol(&self, lex_state: &mut LexState, letter: char)
        ensures
            final(lex_state)@ == symbol(
                old(lex_state)@,
                letter,
                old(lex_state).at(),
                old(lex_state).here(),
            ),
            final(lex_state).same_parts(old(lex_state)),
    {
        self.add_word(lex_state);
        self.word_push(lex_state, letter);
        self.add_word_inclusively(lex_state);
    }

    /// Emits the token in progress and starts a new one with `letter`.
    fn pattern_begin(&self, lex_state: &mut LexState, letter: char)
        ensures
            final(lex_state)@ == begin(
                old(lex_state)@,
                letter,
                old(lex_state).at(),
                old(lex_state).here(),
            ),
            final(lex_state).same_parts(old(lex_state)),
    {
        self.add_word(lex_state);
        self.word_push(lex_state, letter);
    }

    /// Appends `letter` to the token in progress and emits it.
    fn pattern_end(&self, lex_state: &mut LexState, letter: char)
        ensures
            final(lex_state)@ == end(
                old(lex_state)@,
                letter,
                old(lex_state).at(),
                old(lex_state).here(),
            ),
            final(lex_state).same_parts(old(lex_state)),
    {
        self.word_push(lex_state, letter);
        self.add_word_inclusively(lex_state);
    }

    /// A character that opened a region.
    fn region_begun(&self, lex_state: &mut LexState, tokenize: bool, letter: char)
        ensures
            final(lex_state)@ == on_begin(
                old(lex_state)@,
                tokenize,
                letter,
                old(lex_state).at(),
                old(lex_state).here(),
            ),
            final(lex_state).same_parts(old(lex_state)),
    {
        if tokenize {
            self.pattern_add_symbol(lex_state, letter);
        } else {
            if letter == '\n' {
                self.pattern_add_symbol(lex_state, letter);
            }
            self.pattern_begin(lex_state, letter);
        }
    }

    /// A character that closed a region.
    fn region_ended(&self, lex_state: &mut LexState, tokenize: bool, letter: char)
        ensures
            final(lex_state)@ == on_end(
                old(lex_state)@,
                tokenize,
                letter,
                old(lex_state).at(),
                old(lex_state).here(),
            ),
            final(lex_state).same_parts(old(lex_state)),
    {
        if tokenize {
            self.pattern_add_symbol(lex_state, letter);
        } else {
            self.pattern_end(lex_state, letter);
            if letter == '\n' {
                self.pattern_add_symbol(lex_state, letter);
            }
        }
    }

    /// A character inside an opaque region.
    fn opaque_letter(&self, lex_state: &mut LexState, letter: char) -> (result: Result<
        (),
        LexerError,
    >)
        requires
            old(lex_state).region_handler.wf(),
        ensures
            final(lex_state).same_parts(old(lex_state)),
            match result {
                Ok(_) => on_opaque(
                    self.config(),
                    old(lex_state)@,
                    letter,
                    old(lex_state).at(),
                    old(lex_state).here(),
                ) == Progress::Running(final(lex_state)@),
                Err((kind, info)) => {
                    &&& on_opaque(
                        self.config(),
                        old(lex_state)@,
                        letter,
                        old(lex_state).at(),
                        old(lex_state).here(),
                    ) matches Progress::Failed(failure)
                    &&& kind == failure.kind
                    &&& info@ == failure_info(text_of(self.path), failure)
                },
            },
    {
        lex_state.is_escaped = !lex_state.is_escaped && letter == self.escape_symbol;
        let region = match lex_state.region_handler.get_region() {
            Some(region) => region,
            None => vstd::pervasive::unreached(),
        };
        if letter == '\n' && region.singleline {
            let pos = lex_state.reader.get_position();
            let info = PositionInfo::at_pos(clone_text(&self.path), pos, 0).data(
                region.name.as_str(),
            );
            return Err((LexerErrorType::Singleline, info));
        }
        self.word_push(lex_state, letter);
        Ok(())
    }

    /// A character in tokenized context under indent scoping, while a run
    /// of indentation is in progress or starts.
    fn indent_letter(&self, lex_state: &mut LexState, letter: char)
        ensures
            final(lex_state)@ == on_indent(
                old(lex_state)@,
                letter,
                old(lex_state).at(),
                peek_of(old(lex_state).reader.code@, old(lex_state).reader.index as int),
                old(lex_state).here(),
            ),
            final(lex_state).same_parts(old(lex_state)),
    {
        if lex_state.is_indenting && (letter == ' ' || letter == '\t') {
            self.word_push(lex_state, letter);
        }
        if letter == '\n' {
            lex_state.is_indenting = true;
            self.pattern_begin(lex_state, letter);
        }
        if lex_state.is_indenting {
            match lex_state.reader.peek() {
                Some(next_char) => {
                    if !(next_char == ' ' || next_char == '\t') {
                        self.add_indent(lex_state);
                        lex_state.is_indenting = false;
                    }
                },
                None => {},
            }
        }
    }

    /// A character in tokenized context that no mode takes.
    fn plain_letter(&self, lex_state: &mut LexState, letter: char)
        ensures
            final(lex_state)@ == on_plain(
                self.config(),
                old(lex_state)@,
                letter,
                old(lex_state).at(),
                old(lex_state).here(),
            ),
            final(lex_state).same_parts(old(lex_state)),
    {
        if self.is_manual() && letter == '\n' {
            self.add_word(lex_state);
        } else if letter == ' ' || letter == '\t' {
            self.add_word(lex_state);
        } else if self.is_symbol(letter) || letter == '\n' {
            self.pattern_add_symbol(lex_state, letter);
        } else {
            self.word_push(lex_state, letter);
        }
    }

    /// A character that neither opened nor closed a region.
    fn passed_letter(&self, lex_state: &mut LexState, letter: char) -> (result: Result<
        (),
        LexerError,
    >)
        requires
            old(lex_state).region_handler.wf(),
            old(lex_state).compound_handler.compounds() == self.config().compounds,
        ensures
            final(lex_state).reader == old(lex_state).reader,
            final(lex_state).region_handler == old(lex_state).region_handler,
            final(lex_state).compound_handler.compounds() == old(
                lex_state,
            ).compound_handler.compounds(),
            match result {
                Ok(_) => on_pass(
                    self.config(),
                    old(lex_state)@,
                    letter,
                    old(lex_state).at(),
                    peek_of(old(lex_state).reader.code@, old(lex_state).reader.index as int),
                    old(lex_state).here(),
                ) == Progress::Running(final(lex_state)@),
                Err((kind, info)) => {
                    &&& on_pass(
                        self.config(),
                        old(lex_state)@,
                        letter,
                        old(lex_state).at(),
                        peek_of(old(lex_state).reader.code@, old(lex_state).reader.index as int),
                        old(lex_state).here(),
                    ) matches Progress::Failed(failure)
                    &&& kind == failure.kind
                    &&& info@ == failure_info(text_of(self.path), failure)
                },
            },
    {
        let is_tokenized_region = self.is_tokenized_region(&RegionReaction::Pass, lex_state);
        let reaction = lex_state.compound_handler.handle_compound(
            letter,
            &lex_state.reader,
            is_tokenized_region,
        );
        match reaction {
            CompoundReaction::Begin => {
                self.pattern_begin(lex_state, letter);
                Ok(())
            },
            CompoundReaction::Keep => {
                self.word_push(lex_state, letter);
                Ok(())
            },
            CompoundReaction::End => {
                self.pattern_end(lex_state, letter);
                Ok(())
            },
            CompoundReaction::Pass => {
                if !is_tokenized_region {
                    self.opaque_letter(lex_state, letter)
                } else {
                    if self.is_indent() && (lex_state.is_indenting || letter == '\n') {
                        self.indent_letter(lex_state, letter);
                    } else {
                        self.plain_letter(lex_state, letter);
                    }
                    Ok(())
                }
            },
        }
    }

    /// Takes the character that the reader stands on into the state.
    fn take_letter(&self, lex_state: &mut LexState, letter: char) -> (result: Result<
        (),
        LexerError,
    >)
        requires
            old(lex_state).ready(self.config()),
            letter == old(lex_state).reader.code@[old(lex_state).reader.index as int],
        ensures
            final(lex_state).ready(self.config()),
            final(lex_state).reader == old(lex_state).reader,
            match result {
                Ok(_) => step(
                    self.config(),
                    old(lex_state).reader.code@,
                    old(lex_state)@,
                    old(lex_state).reader.index as int,
                ) == Progress::Running(final(lex_state)@),
                Err((kind, info)) => {
                    &&& step(
                        self.config(),
                        old(lex_state).reader.code@,
                        old(lex_state)@,
                        old(lex_state).reader.index as int,
                    ) matches Progress::Failed(failure)
                    &&& kind == failure.kind
                    &&& info@ == failure_info(text_of(self.path), failure)
                },
            },
    {
        proof {
            lemma_position_bounds(lex_state.reader.code@, lex_state.reader.index as int);
        }
        let reaction = lex_state.region_handler.handle_region(
            &lex_state.reader,
            lex_state.is_escaped,
        );
        match reaction {
            RegionReaction::Begin(tokenize) => {
                self.region_begun(lex_state, tokenize, letter);
                Ok(())
            },
            RegionReaction::End(tokenize) => {
                self.region_ended(lex_state, tokenize, letter);
                Ok(())
            },
            RegionReaction::Pass => self.passed_letter(lex_state, letter),
        }
    }

    /// Turns `input` into tokens.
    ///
    /// The result is that of running the lexing machine over the text: the
    /// tokens in the order of the text, or the failure that the run stops
    /// at, reported as a span without length at the place of the failure,
    /// with the name of the region concerned as its note.
    ///
    /// The tokens are pieces of the text, in the order of the text and
    /// without overlap, but for a line feed that an opaque region shares
    /// with the line feed token beside it; where no opaque region opens or
    /// closes at a line feed, each token ends before the next one starts.
    /// Each token carries the position of its first character, but for a run of indentation, which is
    /// placed at the first column of the row that it ends in. Where no
    /// region begins or ends at a blank and no compound begins with one,
    /// such a run starts with a line feed.
    ///
    /// Nothing is dropped but blanks, line feeds and what is read as
    /// indentation. Under block scoping, and under indent scoping with
    /// rules as just described, nothing is read as indentation but blanks
    /// and line feeds.
    pub fn tokenize(&self, input: &str) -> (result: Result<Vec<Token>, LexerError>)
        requires
            self.rules.well_formed(),
        ensures
            match result {
                Ok(tokens) => lex(self.config(), input@) == Ok::<_, LexFailure>(
                    token_views(tokens@),
                ),
                Err((kind, info)) => {
                    &&& lex(self.config(), input@) matches Err(failure)
                    &&& kind == failure.kind
                    &&& info@ == failure_info(text_of(self.path), failure)
                },
            },
            result matches Ok(tokens) ==> {
                &&& in_order(token_views(tokens@))
                &&& all_literal(input@, token_views(tokens@))
                &&& all_placed(self.config(), input@, token_views(tokens@))
                &&& from_one(token_views(tokens@))
                &&& feedless_rules(self.config()) ==> apart(token_views(tokens@))
                &&& steady_indentation(self.config()) ==> all_placed_or_indentation(
                    self.config(),
                    input@,
                    token_views(tokens@),
                )
                &&& all_accounted_for(self.config(), input@, token_views(tokens@))
                &&& !self.config().indent || steady_indentation(self.config())
                    ==> only_white_space_dropped(input@, token_views(tokens@))
            },
    {
        let code = input.to_owned();
        let ghost cfg = self.config();
        let mut lex_state = LexState {
            word: String::new(),
            is_indenting: false,
            is_escaped: false,
            token_start_index: 0,
            position: (0, 0),
            lexem: Vec::new(),
            reader: Reader::new(&code),
            region_handler: RegionHandler::new(&self.rules),
            compound_handler: CompoundHandler::new(&self.rules),
        };
        proof {
            assert(lex_state@.lexem =~= Seq::empty());
            assert(lex_state@ == initial(cfg));
        }
        let ghost mut done: nat = 0;
        loop
            invariant_except_break
                if lex_state.reader.started() {
                    done == lex_state.reader.index + 1
                } else {
                    done == 0 && lex_state.reader.index == 0
                },
            invariant
                cfg == self.config(),
                lex_state.reader.wf(),
                lex_state.reader.code@ == input@,
                lex_state.region_handler.wf(),
                lex_state.region_handler.entries() == cfg.entries,
                lex_state.compound_handler.compounds() == cfg.compounds,
                done <= input@.len(),
                run(cfg, input@, done) == Progress::Running(lex_state@),
            ensures
                done == input@.len(),
                lex_state.reader.started(),
                lex_state.reader.index == input@.len(),
            decreases input@.len() - done,
        {
            match lex_state.reader.next_letter() {
                Some(letter) => {
                    let taken = self.take_letter(&mut lex_state, letter);
                    proof {
                        done = done + 1;
                    }
                    match taken {
                        Ok(_) => {},
                        Err(error) => {
                            proof {
                                lemma_failed_run_stays(cfg, input@, done, input@.len());
                            }
                            return Err(error);
                        },
                    }
                },
                None => {
                    break ;
                },
            }
        }
        proof {
            lemma_position_bounds(input@, input@.len() as int);
        }
        self.add_word(&mut lex_state);
        match lex_state.region_handler.is_region_closed(&lex_state.reader) {
            Err((pos, region)) => {
                let info = PositionInfo::at_pos(clone_text(&self.path), pos, 0).data(
                    region.name.as_str(),
                );
                return Err((LexerErrorType::Unclosed, info));
            },
            Ok(_) => {},
        }
        proof {
            lemma_tokens_in_order(cfg, input@);
            lemma_config_wf(*self);
            lemma_tokens_are_pieces_of_the_text(cfg, input@);
            if feedless_rules(cfg) {
                lemma_tokens_lie_apart(cfg, input@);
            }
            lemma_characters_accounted_for(cfg, input@);
            lemma_positions_count_from_one(cfg, input@);
        }
        Ok(lex_state.lexem)
    }

    /// Appends `letter` to the token in progress; an empty token starts at
    /// the reader's index and position.
    fn word_push(&self, lex_state: &mut LexState, letter: char)
        ensures
            final(lex_state)@ == grow(
                old(lex_state)@,
                letter,
                old(lex_state).at(),
                old(lex_state).here(),
            ),
            final(lex_state).same_parts(old(lex_state)),
    {
        if lex_state.word.as_str().is_empty() {
            lex_state.token_start_index = lex_state.reader.get_index();
            lex_state.position = lex_state.reader.get_position();
            lex_state.word.push(letter);
            proof {
                assert(lex_state.word@ =~= seq![letter]);
            }
        } else {
            lex_state.word.push(letter);
        }
    }
}

} // verus!
