//! The tokens as pieces of the text: what they hold, and what is dropped
//! between them.

use vstd::prelude::*;
use crate::compiling::lexing::compound_handler::{CompoundReaction, compound_react};
use crate::compiling::lexing::machine::{
    LexConfig,
    LexModel,
    Progress,
    begin,
    end,
    flush,
    flush_indent,
    grow,
    is_blank,
    lex,
    on_indent,
    on_pass,
    run,
    step,
    symbol,
};
use crate::compiling::lexing::balance::config_wf;
use crate::compiling::lexing::order::end_of;
use crate::compiling::lexing::balance::{lemma_indentation_goes_on, steady_indentation};
use crate::compiling::lexing::positions::{
    accurate,
    all_placed,
    all_placed_or_indentation,
    indent_token,
    position_at,
};
use crate::compiling::lexing::reader::{ReadMode, col_at, peek_of, row_at};
use crate::compiling::lexing::region_handler::{RegionReaction, lemma_first_match, react};
use crate::compiling::token::TokenView;

verus! {

/// The token is a piece of the text: its word stands in `code` where the
/// token starts.
pub open spec fn literal(code: Seq<char>, token: TokenView) -> bool {
    &&& end_of(token) <= code.len()
    &&& token.word == code.subrange(token.start as int, end_of(token) as int)
}

/// Every token is a piece of the text.
pub open spec fn all_literal(code: Seq<char>, tokens: Seq<TokenView>) -> bool {
    forall|k: int| 0 <= k < tokens.len() ==> literal(code, #[trigger] tokens[k])
}

/// The rules are well formed and keep clear of indentation.
spec fn steady(cfg: LexConfig) -> bool {
    config_wf(cfg) && steady_indentation(cfg)
}

/// The token carries the position of its first character or is placed as
/// a run of indentation; under steady rules such a run starts with a line
/// feed.
spec fn placed(cfg: LexConfig, code: Seq<char>, token: TokenView) -> bool {
    accurate(code, token) || (indent_token(cfg, code, token) && (steady(cfg) ==> token.word[0]
        == '\n'))
}

/// Every token is a piece of the text and is placed.
spec fn all_sound(cfg: LexConfig, code: Seq<char>, tokens: Seq<TokenView>) -> bool {
    forall|k: int|
        0 <= k < tokens.len() ==> literal(code, #[trigger] tokens[k]) && placed(
            cfg,
            code,
            tokens[k],
        )
}

/// Under steady rules a run of indentation in progress is the token in
/// progress, starts with a line feed, and goes on with a blank.
spec fn steady_run(cfg: LexConfig, code: Seq<char>, s: LexModel, i: nat) -> bool {
    steady(cfg) && s.is_indenting ==> s.word.len() > 0 && s.word[0] == '\n' && is_blank(
        code[i as int],
    )
}

/// The token in progress, if there is one, is the text from where it
/// starts up to the index `bound`, and the position recorded for it is
/// that of its first character.
spec fn pending_sound(code: Seq<char>, s: LexModel, bound: nat) -> bool {
    s.word.len() > 0 ==> {
        &&& s.token_start_index + s.word.len() == bound
        &&& bound <= code.len()
        &&& s.word == code.subrange(s.token_start_index as int, bound as int)
        &&& s.position == position_at(code, s.token_start_index as int)
    }
}

/// A run of indentation in progress goes on with a blank, unless the
/// lexer is busy with an opaque region or a compound.
spec fn indent_goes_on(cfg: LexConfig, code: Seq<char>, s: LexModel, i: nat) -> bool {
    &&& s.is_indenting ==> cfg.indent
    &&& s.is_indenting && s.word.len() > 0 && i < code.len() ==> is_blank(code[i as int])
        || !s.stack.last().region.tokenize || s.compound_active
}

/// What holds between two characters, before the character at `i`.
spec fn verbatim(cfg: LexConfig, code: Seq<char>, s: LexModel, i: nat) -> bool {
    &&& all_sound(cfg, code, s.lexem)
    &&& pending_sound(code, s, i)
    &&& indent_goes_on(cfg, code, s, i)
}

proof fn lemma_flush_literal(cfg: LexConfig, code: Seq<char>, s: LexModel, bound: nat)
    requires
        all_sound(cfg, code, s.lexem),
        pending_sound(code, s, bound),
    ensures
        all_sound(cfg, code, flush(s).lexem),
        flush(s).word.len() == 0,
        flush(s).is_indenting == s.is_indenting,
{
    let t = flush(s);
    if s.word.len() > 0 {
        assert forall|k: int| 0 <= k < t.lexem.len() implies literal(code, #[trigger] t.lexem[k]) && placed(
            cfg,
            code,
            t.lexem[k],
        ) by {
            if k < s.lexem.len() {
                assert(t.lexem[k] == s.lexem[k]);
            }
        }
    }
}

proof fn lemma_flush_indent_literal(cfg: LexConfig, code: Seq<char>, s: LexModel, row: nat, bound: nat)
    requires
        cfg.indent,
        all_sound(cfg, code, s.lexem),
        pending_sound(code, s, bound),
        row == row_at(code, bound - 1),
        steady(cfg) && s.word.len() > 0 ==> s.word[0] == '\n',
    ensures
        all_sound(cfg, code, flush_indent(s, row).lexem),
        flush_indent(s, row).word.len() == 0,
{
    let t = flush_indent(s, row);
    if s.word.len() > 0 {
        assert forall|k: int| 0 <= k < t.lexem.len() implies literal(code, #[trigger] t.lexem[k]) && placed(
            cfg,
            code,
            t.lexem[k],
        ) by {
            if k < s.lexem.len() {
                assert(t.lexem[k] == s.lexem[k]);
            }
        }
    }
}

proof fn lemma_grow_literal(cfg: LexConfig, code: Seq<char>, s: LexModel, i: nat, pos: (nat, nat))
    requires
        i < code.len(),
        pos == position_at(code, i as int),
        pending_sound(code, s, i),
    ensures
        pending_sound(code, grow(s, code[i as int], i, pos), i + 1),
        grow(s, code[i as int], i, pos).word.len() > 0,
        grow(s, code[i as int], i, pos).lexem == s.lexem,
{
    let t = grow(s, code[i as int], i, pos);
    if s.word.len() > 0 {
        assert(t.word =~= code.subrange(s.token_start_index as int, (i + 1) as int));
    } else {
        assert(t.word =~= code.subrange(i as int, (i + 1) as int));
    }
}

proof fn lemma_symbol_literal(cfg: LexConfig, code: Seq<char>, s: LexModel, i: nat, pos: (nat, nat))
    requires
        i < code.len(),
        pos == position_at(code, i as int),
        all_sound(cfg, code, s.lexem),
        pending_sound(code, s, i) || pending_sound(code, s, i + 1),
    ensures
        all_sound(cfg, code, symbol(s, code[i as int], i, pos).lexem),
        symbol(s, code[i as int], i, pos).word.len() == 0,
        symbol(s, code[i as int], i, pos).is_indenting == s.is_indenting,
{
    if pending_sound(code, s, i) {
        lemma_flush_literal(cfg, code, s, i);
    } else {
        lemma_flush_literal(cfg, code, s, i + 1);
    }
    let flushed = flush(s);
    lemma_grow_literal(cfg, code, flushed, i, pos);
    let pushed = grow(flushed, code[i as int], i, pos);
    lemma_flush_literal(cfg, code, pushed, i + 1);
}

proof fn lemma_begin_literal(cfg: LexConfig, code: Seq<char>, s: LexModel, i: nat, pos: (nat, nat))
    requires
        i < code.len(),
        pos == position_at(code, i as int),
        all_sound(cfg, code, s.lexem),
        pending_sound(code, s, i) || pending_sound(code, s, i + 1),
    ensures
        all_sound(cfg, code, begin(s, code[i as int], i, pos).lexem),
        pending_sound(code, begin(s, code[i as int], i, pos), i + 1),
        begin(s, code[i as int], i, pos).word.len() > 0,
        begin(s, code[i as int], i, pos).is_indenting == s.is_indenting,
{
    if pending_sound(code, s, i) {
        lemma_flush_literal(cfg, code, s, i);
    } else {
        lemma_flush_literal(cfg, code, s, i + 1);
    }
    lemma_grow_literal(cfg, code, flush(s), i, pos);
}

proof fn lemma_end_literal(cfg: LexConfig, code: Seq<char>, s: LexModel, i: nat, pos: (nat, nat))
    requires
        i < code.len(),
        pos == position_at(code, i as int),
        all_sound(cfg, code, s.lexem),
        pending_sound(code, s, i),
    ensures
        all_sound(cfg, code, end(s, code[i as int], i, pos).lexem),
        end(s, code[i as int], i, pos).word.len() == 0,
        end(s, code[i as int], i, pos).is_indenting == s.is_indenting,
{
    lemma_grow_literal(cfg, code, s, i, pos);
    lemma_flush_literal(cfg, code, grow(s, code[i as int], i, pos), i + 1);
}

proof fn lemma_pass_verbatim(cfg: LexConfig, code: Seq<char>, t: LexModel, i: nat)
    requires
        i < code.len(),
        verbatim(cfg, code, t, i),
        steady_run(cfg, code, t, i),
    ensures
        on_pass(
            cfg,
            t,
            code[i as int],
            i,
            peek_of(code, i as int),
            (row_at(code, i as int), col_at(code, i as int)),
        ) matches Progress::Running(u) ==> verbatim(cfg, code, u, i + 1) && u.stack == t.stack,
{
    let c = code[i as int];
    let next = peek_of(code, i as int);
    let pos = (row_at(code, i as int), col_at(code, i as int));
    let tokenized = t.stack.last().region.tokenize;
    let (reaction, active) = compound_react(cfg.compounds, t.compound_active, c, next, tokenized);
    let u = LexModel { compound_active: active, ..t };
    match reaction {
        CompoundReaction::Begin => {
            lemma_begin_literal(cfg, code, u, i, pos);
        },
        CompoundReaction::Keep => {
            lemma_grow_literal(cfg, code, u, i, pos);
        },
        CompoundReaction::End => {
            lemma_end_literal(cfg, code, u, i, pos);
        },
        CompoundReaction::Pass => {
            if tokenized {
                if cfg.indent && (u.is_indenting || c == '\n') {
                    let joined = if u.is_indenting && is_blank(c) {
                        grow(u, c, i, pos)
                    } else {
                        u
                    };
                    if u.is_indenting && is_blank(c) {
                        lemma_grow_literal(cfg, code, u, i, pos);
                    } else if c == '\n' {
                        let marked = LexModel { is_indenting: true, ..joined };
                        lemma_begin_literal(cfg, code, marked, i, pos);
                    } else {
                        assert(u.word.len() == 0);
                    }
                    let started = if c == '\n' {
                        begin(LexModel { is_indenting: true, ..joined }, c, i, pos)
                    } else {
                        joined
                    };
                    lemma_flush_indent_literal(cfg, code, started, pos.0, i + 1);
                } else {
                    lemma_flush_literal(cfg, code, u, i);
                    if cfg.manual && c == '\n' {
                    } else if is_blank(c) {
                    } else if cfg.symbols.contains(c) || c == '\n' {
                        lemma_symbol_literal(cfg, code, u, i, pos);
                    } else {
                        lemma_grow_literal(cfg, code, u, i, pos);
                    }
                }
            } else {
                let escaped = !u.is_escaped && c == cfg.escape;
                let v = LexModel { is_escaped: escaped, ..u };
                lemma_grow_literal(cfg, code, v, i, pos);
            }
        },
    }
}

proof fn lemma_step_verbatim(cfg: LexConfig, code: Seq<char>, s: LexModel, i: nat)
    requires
        i < code.len(),
        verbatim(cfg, code, s, i),
        steady_run(cfg, code, s, i),
    ensures
        step(cfg, code, s, i as int) matches Progress::Running(t) ==> verbatim(
            cfg,
            code,
            t,
            i + 1,
        ),
{
    let c = code[i as int];
    let pos = (row_at(code, i as int), col_at(code, i as int));
    let (reaction, stack) = react(s.stack, cfg.entries, code, i as int, s.is_escaped);
    let t = LexModel { stack, ..s };
    let top = s.stack.last();
    lemma_first_match(top.interp, code, i as int, ReadMode::Future, s.is_escaped, 0);
    match reaction {
        RegionReaction::Begin(tokenize) => {
            if tokenize {
                lemma_symbol_literal(cfg, code, t, i, pos);
            } else if c == '\n' {
                lemma_symbol_literal(cfg, code, t, i, pos);
                lemma_begin_literal(cfg, code, symbol(t, c, i, pos), i, pos);
            } else {
                lemma_begin_literal(cfg, code, t, i, pos);
            }
        },
        RegionReaction::End(tokenize) => {
            if tokenize {
                lemma_symbol_literal(cfg, code, t, i, pos);
            } else {
                lemma_end_literal(cfg, code, t, i, pos);
                if c == '\n' {
                    lemma_symbol_literal(cfg, code, end(t, c, i, pos), i, pos);
                }
            }
        },
        RegionReaction::Pass => {
            assert(t.stack == s.stack);
            lemma_pass_verbatim(cfg, code, t, i);
        },
    }
}

proof fn lemma_run_verbatim(cfg: LexConfig, code: Seq<char>, n: nat)
    requires
        n <= code.len(),
    ensures
        run(cfg, code, n) matches Progress::Running(s) ==> verbatim(cfg, code, s, n),
    decreases n,
{
    if n > 0 {
        lemma_run_verbatim(cfg, code, (n - 1) as nat);
        match run(cfg, code, (n - 1) as nat) {
            Progress::Running(s) => {
                if steady(cfg) {
                    lemma_indentation_goes_on(cfg, code, (n - 1) as nat);
                }
                lemma_step_verbatim(cfg, code, s, (n - 1) as nat);
            },
            Progress::Failed(_) => {},
        }
    }
}

/// Concatenation: every token is a piece of the text, taken from it
/// unchanged at the place where the token starts. Together with the order
/// of the tokens this says that the text is the tokens with what was
/// dropped put back between them.
pub proof fn lemma_tokens_are_pieces_of_the_text(cfg: LexConfig, code: Seq<char>)
    requires
        lex(cfg, code) is Ok,
    ensures
        all_literal(code, lex(cfg, code)->Ok_0),
        all_placed(cfg, code, lex(cfg, code)->Ok_0),
        config_wf(cfg) && steady_indentation(cfg) ==> all_placed_or_indentation(
            cfg,
            code,
            lex(cfg, code)->Ok_0,
        ),
{
    lemma_run_verbatim(cfg, code, code.len());
    match run(cfg, code, code.len()) {
        Progress::Running(s) => {
            lemma_flush_literal(cfg, code, s, code.len());
        },
        Progress::Failed(_) => {},
    }
}

/// The character at index `j` belongs to one of the tokens.
pub open spec fn in_a_token(tokens: Seq<TokenView>, j: int) -> bool {
    exists|k: int| 0 <= k < tokens.len() && (#[trigger] tokens[k]).start <= j < end_of(tokens[k])
}

/// The character at index `j` belongs to the token in progress.
spec fn in_progress(s: LexModel, j: int, bound: nat) -> bool {
    s.word.len() > 0 && s.token_start_index <= j < bound
}

/// The character at index `j` is read as indentation: under indent
/// scoping, while a run of indentation is in progress, in tokenized
/// context, and neither a region nor a compound takes it.
pub open spec fn read_as_indentation(cfg: LexConfig, code: Seq<char>, j: int) -> bool {
    &&& cfg.indent
    &&& 0 <= j < code.len()
    &&& run(cfg, code, j as nat) matches Progress::Running(s) && {
        let (reaction, stack) = react(s.stack, cfg.entries, code, j, s.is_escaped);
        &&& s.is_indenting
        &&& reaction is Pass
        &&& stack.last().region.tokenize
        &&& compound_react(cfg.compounds, s.compound_active, code[j], peek_of(code, j), true).0 is Pass
    }
}

/// The character at index `j` may be left out of the tokens: it is a
/// blank or a line feed, or it is read as indentation.
pub open spec fn may_be_dropped(cfg: LexConfig, code: Seq<char>, j: int) -> bool {
    is_blank(code[j]) || code[j] == '\n' || read_as_indentation(cfg, code, j)
}

/// Every character before `bound` belongs to a token or to the token in
/// progress, or may be dropped.
spec fn nothing_lost(cfg: LexConfig, code: Seq<char>, s: LexModel, bound: nat) -> bool {
    forall|j: int|
        0 <= j < bound ==> in_a_token(s.lexem, j) || in_progress(s, j, bound) || #[trigger] may_be_dropped(
            cfg,
            code,
            j,
        )
}

/// What holds between two characters, before the character at `i`:
/// nothing was lost, and the token in progress ends
/// where the text was read up to.
spec fn complete(cfg: LexConfig, code: Seq<char>, s: LexModel, i: nat) -> bool {
    &&& nothing_lost(cfg, code, s, i)
    &&& s.word.len() > 0 ==> s.token_start_index + s.word.len() == i
}

proof fn lemma_token_stays(tokens: Seq<TokenView>, token: TokenView, j: int)
    requires
        in_a_token(tokens, j),
    ensures
        in_a_token(tokens.push(token), j),
{
    let k = choose|k: int| 0 <= k < tokens.len() && (#[trigger] tokens[k]).start <= j < end_of(
        tokens[k],
    );
    assert(tokens.push(token)[k] == tokens[k]);
}

proof fn lemma_flush_complete(cfg: LexConfig, code: Seq<char>, s: LexModel, bound: nat)
    requires
        nothing_lost(cfg, code, s, bound),
        s.word.len() > 0 ==> s.token_start_index + s.word.len() == bound,
    ensures
        nothing_lost(cfg, code, flush(s), bound),
        flush(s).word.len() == 0,
{
    let t = flush(s);
    if s.word.len() > 0 {
        let token = TokenView { word: s.word, pos: s.position, start: s.token_start_index };
        assert forall|j: int| 0 <= j < bound implies in_a_token(t.lexem, j) || in_progress(
            t,
            j,
            bound,
        ) || #[trigger] may_be_dropped(cfg, code, j) by {
            if in_a_token(s.lexem, j) {
                lemma_token_stays(s.lexem, token, j);
            } else if in_progress(s, j, bound) {
                assert(t.lexem[s.lexem.len() as int] == token);
            }
        }
    }
}

proof fn lemma_grow_complete(cfg: LexConfig, code: Seq<char>, s: LexModel, c: char, i: nat, pos: (nat, nat))
    requires
        complete(cfg, code, s, i),
    ensures
        complete(cfg, code, grow(s, c, i, pos), i + 1),
        grow(s, c, i, pos).word.len() > 0,
{
    let t = grow(s, c, i, pos);
    assert forall|j: int| 0 <= j < i + 1 implies in_a_token(t.lexem, j) || in_progress(
        t,
        j,
        i + 1,
    ) || #[trigger] may_be_dropped(cfg, code, j) by {
        if j < i {
            if in_progress(s, j, i) {
                assert(in_progress(t, j, i + 1));
            }
        }
    }
}

proof fn lemma_drop_complete(cfg: LexConfig, code: Seq<char>, s: LexModel, i: nat)
    requires
        nothing_lost(cfg, code, s, i),
        s.word.len() == 0,
        may_be_dropped(cfg, code, i as int),
    ensures
        complete(cfg, code, s, i + 1),
{
    assert forall|j: int| 0 <= j < i + 1 implies in_a_token(s.lexem, j) || in_progress(
        s,
        j,
        i + 1,
    ) || #[trigger] may_be_dropped(cfg, code, j) by {
        if j < i {
            assert(!in_progress(s, j, i));
        }
    }
}

proof fn lemma_symbol_complete(cfg: LexConfig, code: Seq<char>, s: LexModel, c: char, i: nat, pos: (nat, nat))
    requires
        complete(cfg, code, s, i),
    ensures
        complete(cfg, code, symbol(s, c, i, pos), i + 1),
        complete(cfg, code, symbol(s, c, i, pos), i),
        symbol(s, c, i, pos).word.len() == 0,
{
    lemma_flush_complete(cfg, code, s, i);
    let flushed = flush(s);
    lemma_grow_complete(cfg, code, flushed, c, i, pos);
    let pushed = grow(flushed, c, i, pos);
    lemma_flush_complete(cfg, code, pushed, i + 1);
    lemma_shrink_bound(cfg, code, symbol(s, c, i, pos), i);
}

/// What is accounted for up to `i + 1` is accounted for up to `i`, as long
/// as no token is in progress.
proof fn lemma_shrink_bound(cfg: LexConfig, code: Seq<char>, s: LexModel, i: nat)
    requires
        nothing_lost(cfg, code, s, i + 1),
        s.word.len() == 0,
    ensures
        nothing_lost(cfg, code, s, i),
{
    assert forall|j: int| 0 <= j < i implies in_a_token(s.lexem, j) || in_progress(s, j, i)
        || #[trigger] may_be_dropped(cfg, code, j) by {
        assert(!in_progress(s, j, i + 1));
    }
}

proof fn lemma_begin_complete(cfg: LexConfig, code: Seq<char>, s: LexModel, c: char, i: nat, pos: (nat, nat))
    requires
        complete(cfg, code, s, i),
    ensures
        complete(cfg, code, begin(s, c, i, pos), i + 1),
{
    lemma_flush_complete(cfg, code, s, i);
    lemma_grow_complete(cfg, code, flush(s), c, i, pos);
}

proof fn lemma_end_complete(cfg: LexConfig, code: Seq<char>, s: LexModel, c: char, i: nat, pos: (nat, nat))
    requires
        complete(cfg, code, s, i),
    ensures
        complete(cfg, code, end(s, c, i, pos), i + 1),
        complete(cfg, code, end(s, c, i, pos), i),
        end(s, c, i, pos).word.len() == 0,
{
    lemma_grow_complete(cfg, code, s, c, i, pos);
    lemma_flush_complete(cfg, code, grow(s, c, i, pos), i + 1);
    lemma_shrink_bound(cfg, code, end(s, c, i, pos), i);
}

proof fn lemma_flush_indent_complete(cfg: LexConfig, code: Seq<char>, s: LexModel, row: nat, bound: nat)
    requires
        nothing_lost(cfg, code, s, bound),
        s.word.len() > 0 ==> s.token_start_index + s.word.len() == bound,
    ensures
        nothing_lost(cfg, code, flush_indent(s, row), bound),
        flush_indent(s, row).word.len() == 0,
{
    let t = flush_indent(s, row);
    if s.word.len() > 0 {
        let token = TokenView { word: s.word, pos: (row, 1), start: s.token_start_index };
        assert forall|j: int| 0 <= j < bound implies in_a_token(t.lexem, j) || in_progress(
            t,
            j,
            bound,
        ) || #[trigger] may_be_dropped(cfg, code, j) by {
            if in_a_token(s.lexem, j) {
                lemma_token_stays(s.lexem, token, j);
            } else if in_progress(s, j, bound) {
                assert(t.lexem[s.lexem.len() as int] == token);
            }
        }
    }
}

/// A character in tokenized context under indent scoping: it joins or
/// starts a run of indentation, or is dropped.
proof fn lemma_indent_complete(cfg: LexConfig, code: Seq<char>, u: LexModel, i: nat, pos: (nat, nat))
    requires
        i < code.len(),
        complete(cfg, code, u, i),
        u.is_indenting || code[i as int] == '\n',
        u.is_indenting && !is_blank(code[i as int]) && code[i as int] != '\n' ==> u.word.len() == 0
            && may_be_dropped(cfg, code, i as int),
    ensures
        complete(
            cfg,
            code,
            on_indent(u, code[i as int], i, peek_of(code, i as int), pos),
            i + 1,
        ),
{
    let c = code[i as int];
    let next = peek_of(code, i as int);
    let row = pos.0;
    let started = if u.is_indenting && is_blank(c) {
        lemma_grow_complete(cfg, code, u, c, i, pos);
        grow(u, c, i, pos)
    } else if c == '\n' {
        let marked = LexModel { is_indenting: true, ..u };
        lemma_same_complete(cfg, code, u, marked, i);
        lemma_begin_complete(cfg, code, marked, c, i, pos);
        begin(marked, c, i, pos)
    } else {
        lemma_drop_complete(cfg, code, u, i);
        u
    };
    if started.is_indenting && next is Some && !is_blank(next->0) {
        lemma_flush_indent_complete(cfg, code, started, row, i + 1);
        let flushed = flush_indent(started, row);
        lemma_same_complete(cfg, code, flushed, LexModel { is_indenting: false, ..flushed }, i + 1);
    }
}

/// Whether two states hold the same tokens, the one in progress included.
spec fn same_pieces(s: LexModel, t: LexModel) -> bool {
    &&& s.word == t.word
    &&& s.lexem == t.lexem
    &&& s.token_start_index == t.token_start_index
}

proof fn lemma_same_complete(cfg: LexConfig, code: Seq<char>, s: LexModel, t: LexModel, i: nat)
    requires
        complete(cfg, code, s, i),
        same_pieces(s, t),
    ensures
        complete(cfg, code, t, i),
{
    assert forall|j: int| 0 <= j < i implies in_a_token(t.lexem, j) || in_progress(t, j, i)
        || #[trigger] may_be_dropped(cfg, code, j) by {
        if in_progress(s, j, i) {
            assert(in_progress(t, j, i));
        }
    }
}

/// A character that neither opens nor closes a region.
proof fn lemma_pass_complete(cfg: LexConfig, code: Seq<char>, t: LexModel, i: nat)
    requires
        i < code.len(),
        complete(cfg, code, t, i),
        indent_goes_on(cfg, code, t, i),
        cfg.indent && t.is_indenting && t.stack.last().region.tokenize && compound_react(
            cfg.compounds,
            t.compound_active,
            code[i as int],
            peek_of(code, i as int),
            true,
        ).0 is Pass ==> may_be_dropped(cfg, code, i as int),
    ensures
        on_pass(
            cfg,
            t,
            code[i as int],
            i,
            peek_of(code, i as int),
            (row_at(code, i as int), col_at(code, i as int)),
        ) matches Progress::Running(u) ==> complete(cfg, code, u, i + 1),
{
    let c = code[i as int];
    let pos = (row_at(code, i as int), col_at(code, i as int));
    let next = peek_of(code, i as int);
    let tokenized = t.stack.last().region.tokenize;
    let (reaction, active) = compound_react(cfg.compounds, t.compound_active, c, next, tokenized);
    let u = LexModel { compound_active: active, ..t };
    lemma_same_complete(cfg, code, t, u, i);
    match reaction {
        CompoundReaction::Begin => {
            lemma_begin_complete(cfg, code, u, c, i, pos);
        },
        CompoundReaction::Keep => {
            lemma_grow_complete(cfg, code, u, c, i, pos);
        },
        CompoundReaction::End => {
            lemma_end_complete(cfg, code, u, c, i, pos);
        },
        CompoundReaction::Pass => {
            if tokenized {
                if cfg.indent && (u.is_indenting || c == '\n') {
                    lemma_indent_complete(cfg, code, u, i, pos);
                } else if (cfg.manual && c == '\n') || is_blank(c) {
                    lemma_flush_complete(cfg, code, u, i);
                    lemma_drop_complete(cfg, code, flush(u), i);
                } else if cfg.symbols.contains(c) || c == '\n' {
                    lemma_symbol_complete(cfg, code, u, c, i, pos);
                } else {
                    lemma_grow_complete(cfg, code, u, c, i, pos);
                }
            } else {
                let escaped = !u.is_escaped && c == cfg.escape;
                let v = LexModel { is_escaped: escaped, ..u };
                lemma_same_complete(cfg, code, u, v, i);
                lemma_grow_complete(cfg, code, v, c, i, pos);
            }
        },
    }
}

proof fn lemma_step_complete(cfg: LexConfig, code: Seq<char>, s: LexModel, i: nat)
    requires
        i < code.len(),
        run(cfg, code, i) == Progress::Running(s),
        complete(cfg, code, s, i),
        indent_goes_on(cfg, code, s, i),
    ensures
        step(cfg, code, s, i as int) matches Progress::Running(t) ==> complete(cfg, code, t, i + 1),
{
    let c = code[i as int];
    let pos = (row_at(code, i as int), col_at(code, i as int));
    let (reaction, stack) = react(s.stack, cfg.entries, code, i as int, s.is_escaped);
    let t = LexModel { stack, ..s };
    lemma_same_complete(cfg, code, s, t, i);
    lemma_first_match(s.stack.last().interp, code, i as int, ReadMode::Future, s.is_escaped, 0);
    match reaction {
        RegionReaction::Begin(tokenize) => {
            if tokenize {
                lemma_symbol_complete(cfg, code, t, c, i, pos);
            } else if c == '\n' {
                lemma_symbol_complete(cfg, code, t, c, i, pos);
                lemma_begin_complete(cfg, code, symbol(t, c, i, pos), c, i, pos);
            } else {
                lemma_begin_complete(cfg, code, t, c, i, pos);
            }
        },
        RegionReaction::End(tokenize) => {
            if tokenize {
                lemma_symbol_complete(cfg, code, t, c, i, pos);
            } else {
                lemma_end_complete(cfg, code, t, c, i, pos);
                if c == '\n' {
                    lemma_symbol_complete(cfg, code, end(t, c, i, pos), c, i, pos);
                }
            }
        },
        RegionReaction::Pass => {
            assert(t.stack == s.stack);
            if cfg.indent && t.is_indenting && t.stack.last().region.tokenize && compound_react(
                cfg.compounds,
                t.compound_active,
                c,
                peek_of(code, i as int),
                true,
            ).0 is Pass {
                assert(read_as_indentation(cfg, code, i as int));
            }
            lemma_pass_complete(cfg, code, t, i);
        },
    }
}

proof fn lemma_run_complete(cfg: LexConfig, code: Seq<char>, n: nat)
    requires
        n <= code.len(),
    ensures
        run(cfg, code, n) matches Progress::Running(s) ==> complete(cfg, code, s, n),
    decreases n,
{
    if n > 0 {
        lemma_run_complete(cfg, code, (n - 1) as nat);
        lemma_run_verbatim(cfg, code, (n - 1) as nat);
        match run(cfg, code, (n - 1) as nat) {
            Progress::Running(s) => {
                lemma_step_complete(cfg, code, s, (n - 1) as nat);
            },
            Progress::Failed(_) => {},
        }
    }
}

/// A character that is read as indentation and is not a blank finds no
/// token in progress.
pub proof fn lemma_read_as_indentation_starts_afresh(cfg: LexConfig, code: Seq<char>, j: int)
    requires
        read_as_indentation(cfg, code, j),
        !is_blank(code[j]),
    ensures
        run(cfg, code, j as nat) matches Progress::Running(s) && s.word.len() == 0,
{
    lemma_run_verbatim(cfg, code, j as nat);
    let s = run(cfg, code, j as nat)->Running_0;
    lemma_first_match(s.stack.last().interp, code, j, ReadMode::Future, s.is_escaped, 0);
}

/// Concatenation, the other half: what is dropped. Whatever the rules,
/// every character of the text belongs to one of the tokens, or is a blank
/// or a line feed, or is read as indentation: a region or a compound that
/// took a blank cut a run of indentation short, and the character was read
/// before the run came to its end.
pub proof fn lemma_what_is_dropped(cfg: LexConfig, code: Seq<char>, j: int)
    requires
        lex(cfg, code) is Ok,
        0 <= j < code.len(),
    ensures
        in_a_token(lex(cfg, code)->Ok_0, j) || may_be_dropped(cfg, code, j),
{
    lemma_run_complete(cfg, code, code.len());
    match run(cfg, code, code.len()) {
        Progress::Running(s) => {
            lemma_flush_complete(cfg, code, s, code.len());
            assert(!in_progress(flush(s), j, code.len()));
        },
        Progress::Failed(_) => {},
    }
}

/// Nothing but blanks and line feeds is dropped under block scoping,
/// whatever the rules, and under indent scoping where no region below the
/// root begins or ends at a blank and no compound begins with one: every
/// character of the text that is neither a blank nor a line feed belongs
/// to one of the tokens.
pub proof fn lemma_only_white_space_is_dropped(cfg: LexConfig, code: Seq<char>, j: int)
    requires
        !cfg.indent || (config_wf(cfg) && steady_indentation(cfg)),
        lex(cfg, code) is Ok,
        0 <= j < code.len(),
        !is_blank(code[j]),
        code[j] != '\n',
    ensures
        in_a_token(lex(cfg, code)->Ok_0, j),
{
    lemma_what_is_dropped(cfg, code, j);
    if cfg.indent {
        lemma_indentation_goes_on(cfg, code, j as nat);
    }
}

} // verus!
