//! What the lexer drops: the characters that end up in no token.

use vstd::prelude::*;
use crate::compiling::lexing::compound_handler::{CompoundReaction, compound_react};
use crate::compiling::lexing::machine::{
    LexConfig,
    LexModel,
    Progress,
    begin,
    end,
    flush,
    flush_indent,
    grow,
    is_blank,
    lex,
    on_indent,
    on_opaque,
    on_pass,
    on_plain,
    on_tokenized,
    run,
    step,
    symbol,
};
use crate::compiling::lexing::order::{end_of, lemma_run_tidy, tidy};
use crate::compiling::lexing::balance::{config_wf, steady_indentation};
use crate::compiling::lexing::pieces::{
    in_a_token,
    lemma_only_white_space_is_dropped,
    lemma_read_as_indentation_starts_afresh,
    lemma_what_is_dropped,
    read_as_indentation,
};
use crate::compiling::token::TokenView;
use crate::compiling::lexing::reader::{col_at, peek_of, row_at};
use crate::compiling::lexing::region_handler::{RegionReaction, react};

verus! {

/// The character at index `j` is read as indentation though it is neither
/// a blank nor a line feed.
pub open spec fn lost_to_indentation(cfg: LexConfig, code: Seq<char>, j: int) -> bool {
    read_as_indentation(cfg, code, j) && !is_blank(code[j]) && code[j] != '\n'
}

/// No character before `bound` that was lost to indentation belongs to a
/// token of `s` or to the token in progress.
#[verifier::opaque]
spec fn kept_out(cfg: LexConfig, code: Seq<char>, s: LexModel, bound: nat) -> bool {
    forall|j: int|
        0 <= j < bound && #[trigger] lost_to_indentation(cfg, code, j) ==> !in_a_token(s.lexem, j)
            && (s.word.len() > 0 ==> j < s.token_start_index)
}

/// Whether two states hold the same tokens, the one in progress included.
spec fn same_tokens(s: LexModel, t: LexModel) -> bool {
    &&& s.word == t.word
    &&& s.lexem == t.lexem
    &&& s.token_start_index == t.token_start_index
}

proof fn lemma_same_out(cfg: LexConfig, code: Seq<char>, s: LexModel, t: LexModel, bound: nat)
    requires
        kept_out(cfg, code, s, bound),
        same_tokens(s, t),
    ensures
        kept_out(cfg, code, t, bound),
{
    reveal(kept_out);
}

proof fn lemma_flush_out(cfg: LexConfig, code: Seq<char>, s: LexModel, bound: nat)
    requires
        kept_out(cfg, code, s, bound),
    ensures
        kept_out(cfg, code, flush(s), bound),
{
    reveal(kept_out);
    let t = flush(s);
    if s.word.len() > 0 {
        assert forall|j: int|
            0 <= j < bound && #[trigger] lost_to_indentation(cfg, code, j) implies !in_a_token(
            t.lexem,
            j,
        ) by {
            if in_a_token(t.lexem, j) {
                let k = choose|k: int|
                    0 <= k < t.lexem.len() && (#[trigger] t.lexem[k]).start <= j < end_of(
                        t.lexem[k],
                    );
                if k < s.lexem.len() {
                    assert(t.lexem[k] == s.lexem[k]);
                    assert(in_a_token(s.lexem, j));
                }
            }
        }
    }
}

proof fn lemma_flush_indent_out(
    cfg: LexConfig,
    code: Seq<char>,
    s: LexModel,
    row: nat,
    bound: nat,
)
    requires
        kept_out(cfg, code, s, bound),
    ensures
        kept_out(cfg, code, flush_indent(s, row), bound),
{
    reveal(kept_out);
    let t = flush_indent(s, row);
    if s.word.len() > 0 {
        assert forall|j: int|
            0 <= j < bound && #[trigger] lost_to_indentation(cfg, code, j) implies !in_a_token(
            t.lexem,
            j,
        ) by {
            if in_a_token(t.lexem, j) {
                let k = choose|k: int|
                    0 <= k < t.lexem.len() && (#[trigger] t.lexem[k]).start <= j < end_of(
                        t.lexem[k],
                    );
                if k < s.lexem.len() {
                    assert(t.lexem[k] == s.lexem[k]);
                    assert(in_a_token(s.lexem, j));
                }
            }
        }
    }
}

proof fn lemma_grow_out(
    cfg: LexConfig,
    code: Seq<char>,
    s: LexModel,
    c: char,
    i: nat,
    pos: (nat, nat),
)
    requires
        kept_out(cfg, code, s, i),
    ensures
        kept_out(cfg, code, grow(s, c, i, pos), i),
{
    reveal(kept_out);
}

proof fn lemma_symbol_out(
    cfg: LexConfig,
    code: Seq<char>,
    s: LexModel,
    c: char,
    i: nat,
    pos: (nat, nat),
)
    requires
        kept_out(cfg, code, s, i),
    ensures
        kept_out(cfg, code, symbol(s, c, i, pos), i),
{
    lemma_flush_out(cfg, code, s, i);
    lemma_grow_out(cfg, code, flush(s), c, i, pos);
    lemma_flush_out(cfg, code, grow(flush(s), c, i, pos), i);
}

proof fn lemma_begin_out(
    cfg: LexConfig,
    code: Seq<char>,
    s: LexModel,
    c: char,
    i: nat,
    pos: (nat, nat),
)
    requires
        kept_out(cfg, code, s, i),
    ensures
        kept_out(cfg, code, begin(s, c, i, pos), i),
{
    lemma_flush_out(cfg, code, s, i);
    lemma_grow_out(cfg, code, flush(s), c, i, pos);
}

proof fn lemma_end_out(
    cfg: LexConfig,
    code: Seq<char>,
    s: LexModel,
    c: char,
    i: nat,
    pos: (nat, nat),
)
    requires
        kept_out(cfg, code, s, i),
    ensures
        kept_out(cfg, code, end(s, c, i, pos), i),
{
    lemma_grow_out(cfg, code, s, c, i, pos);
    lemma_flush_out(cfg, code, grow(s, c, i, pos), i);
}

proof fn lemma_indent_out(
    cfg: LexConfig,
    code: Seq<char>,
    s: LexModel,
    c: char,
    i: nat,
    next: Option<char>,
    pos: (nat, nat),
)
    requires
        kept_out(cfg, code, s, i),
    ensures
        kept_out(cfg, code, on_indent(s, c, i, next, pos), i),
{
    let joined = if s.is_indenting && is_blank(c) {
        grow(s, c, i, pos)
    } else {
        s
    };
    lemma_grow_out(cfg, code, s, c, i, pos);
    let marked = LexModel { is_indenting: true, ..joined };
    lemma_same_out(cfg, code, joined, marked, i);
    lemma_begin_out(cfg, code, marked, c, i, pos);
    let started = if c == '\n' {
        begin(marked, c, i, pos)
    } else {
        joined
    };
    lemma_flush_indent_out(cfg, code, started, pos.0, i);
    let flushed = flush_indent(started, pos.0);
    lemma_same_out(cfg, code, flushed, LexModel { is_indenting: false, ..flushed }, i);
}

proof fn lemma_plain_out(
    cfg: LexConfig,
    code: Seq<char>,
    s: LexModel,
    c: char,
    i: nat,
    pos: (nat, nat),
)
    requires
        kept_out(cfg, code, s, i),
    ensures
        kept_out(cfg, code, on_plain(cfg, s, c, i, pos), i),
{
    lemma_flush_out(cfg, code, s, i);
    lemma_symbol_out(cfg, code, s, c, i, pos);
    lemma_grow_out(cfg, code, s, c, i, pos);
}

proof fn lemma_pass_out(
    cfg: LexConfig,
    code: Seq<char>,
    s: LexModel,
    c: char,
    i: nat,
    next: Option<char>,
    pos: (nat, nat),
)
    requires
        kept_out(cfg, code, s, i),
    ensures
        on_pass(cfg, s, c, i, next, pos) matches Progress::Running(t) ==> kept_out(
            cfg,
            code,
            t,
            i,
        ),
{
    let tokenized = s.stack.last().region.tokenize;
    let (reaction, active) = compound_react(cfg.compounds, s.compound_active, c, next, tokenized);
    let t = LexModel { compound_active: active, ..s };
    lemma_same_out(cfg, code, s, t, i);
    match reaction {
        CompoundReaction::Begin => {
            lemma_begin_out(cfg, code, t, c, i, pos);
        },
        CompoundReaction::Keep => {
            lemma_grow_out(cfg, code, t, c, i, pos);
        },
        CompoundReaction::End => {
            lemma_end_out(cfg, code, t, c, i, pos);
        },
        CompoundReaction::Pass => {
            if tokenized {
                if cfg.indent && (t.is_indenting || c == '\n') {
                    lemma_indent_out(cfg, code, t, c, i, next, pos);
                } else {
                    lemma_plain_out(cfg, code, t, c, i, pos);
                }
                assert(on_tokenized(cfg, t, c, i, next, pos) == if cfg.indent && (t.is_indenting
                    || c == '\n') {
                    on_indent(t, c, i, next, pos)
                } else {
                    on_plain(cfg, t, c, i, pos)
                });
            } else {
                let u = LexModel { is_escaped: !t.is_escaped && c == cfg.escape, ..t };
                lemma_same_out(cfg, code, t, u, i);
                lemma_grow_out(cfg, code, u, c, i, pos);
                assert(on_opaque(cfg, t, c, i, pos) matches Progress::Running(v) ==> v == grow(
                    u,
                    c,
                    i,
                    pos,
                ));
            }
        },
    }
}

/// What the character at `i` adds to the tokens leaves out every
/// character before it that was lost.
proof fn lemma_step_out(cfg: LexConfig, code: Seq<char>, s: LexModel, i: nat)
    requires
        i < code.len(),
        kept_out(cfg, code, s, i),
    ensures
        step(cfg, code, s, i as int) matches Progress::Running(t) ==> kept_out(cfg, code, t, i),
{
    let c = code[i as int];
    let pos = (row_at(code, i as int), col_at(code, i as int));
    let (reaction, stack) = react(s.stack, cfg.entries, code, i as int, s.is_escaped);
    let t = LexModel { stack, ..s };
    lemma_same_out(cfg, code, s, t, i);
    match reaction {
        RegionReaction::Begin(tokenize) => {
            lemma_symbol_out(cfg, code, t, c, i, pos);
            lemma_begin_out(cfg, code, symbol(t, c, i, pos), c, i, pos);
            lemma_begin_out(cfg, code, t, c, i, pos);
        },
        RegionReaction::End(tokenize) => {
            lemma_symbol_out(cfg, code, t, c, i, pos);
            lemma_end_out(cfg, code, t, c, i, pos);
            lemma_symbol_out(cfg, code, end(t, c, i, pos), c, i, pos);
        },
        RegionReaction::Pass => {
            lemma_pass_out(cfg, code, t, c, i, peek_of(code, i as int), pos);
        },
    }
}

/// A character that is lost to indentation adds nothing to the tokens.
proof fn lemma_lost_adds_nothing(cfg: LexConfig, code: Seq<char>, s: LexModel, i: nat)
    requires
        run(cfg, code, i) == Progress::Running(s),
        lost_to_indentation(cfg, code, i as int),
        s.word.len() == 0,
    ensures
        step(cfg, code, s, i as int) matches Progress::Running(t) && t.lexem == s.lexem
            && t.word.len() == 0,
{
}

proof fn lemma_run_out(cfg: LexConfig, code: Seq<char>, n: nat)
    requires
        n <= code.len(),
    ensures
        run(cfg, code, n) matches Progress::Running(s) ==> kept_out(cfg, code, s, n),
    decreases n,
{
    if n == 0 {
        reveal(kept_out);
    } else {
        let i = (n - 1) as nat;
        lemma_run_out(cfg, code, i);
        match run(cfg, code, i) {
            Progress::Running(s) => {
                lemma_step_out(cfg, code, s, i);
                match step(cfg, code, s, i as int) {
                    Progress::Running(t) => {
                        if lost_to_indentation(cfg, code, i as int) {
                            lemma_read_as_indentation_starts_afresh(cfg, code, i as int);
                            lemma_lost_adds_nothing(cfg, code, s, i);
                            lemma_run_tidy(cfg, code, i);
                            assert(tidy(s, i));
                            assert(!in_a_token(t.lexem, i as int));
                        }
                        reveal(kept_out);
                    },
                    Progress::Failed(_) => {},
                }
            },
            Progress::Failed(_) => {},
        }
    }
}

/// What is dropped, exactly: whatever the rules, a character that is
/// neither a blank nor a line feed belongs to one of the tokens unless it
/// was read as indentation, and then it belongs to none.
pub proof fn lemma_dropped_is_read_as_indentation(cfg: LexConfig, code: Seq<char>, j: int)
    requires
        lex(cfg, code) is Ok,
        0 <= j < code.len(),
        !is_blank(code[j]),
        code[j] != '\n',
    ensures
        in_a_token(lex(cfg, code)->Ok_0, j) <==> !read_as_indentation(cfg, code, j),
{
    lemma_what_is_dropped(cfg, code, j);
    lemma_run_out(cfg, code, code.len());
    match run(cfg, code, code.len()) {
        Progress::Running(s) => {
            lemma_flush_out(cfg, code, s, code.len());
            reveal(kept_out);
            if read_as_indentation(cfg, code, j) {
                assert(lost_to_indentation(cfg, code, j));
            }
        },
        Progress::Failed(_) => {},
    }
}

/// Of the characters that are neither blanks nor line feeds, the tokens
/// hold exactly those that were not read as indentation.
pub open spec fn all_accounted_for(
    cfg: LexConfig,
    code: Seq<char>,
    tokens: Seq<TokenView>,
) -> bool {
    forall|j: int|
        0 <= j < code.len() && !is_blank(code[j]) && code[j] != '\n' ==> (in_a_token(tokens, j)
            <==> !#[trigger] read_as_indentation(cfg, code, j))
}

/// Every character that is neither a blank nor a line feed belongs to one
/// of the tokens.
pub open spec fn only_white_space_dropped(code: Seq<char>, tokens: Seq<TokenView>) -> bool {
    forall|j: int|
        0 <= j < code.len() && !is_blank(code[j]) && code[j] != '\n' ==> #[trigger] in_a_token(
            tokens,
            j,
        )
}

/// Concatenation, the other half, for a whole text: the tokens hold every
/// character that is neither a blank nor a line feed, but for those read
/// as indentation; and there are none of those under block scoping, nor
/// under indent scoping where no region below the root begins or ends at a
/// blank and no compound begins with one.
pub proof fn lemma_characters_accounted_for(cfg: LexConfig, code: Seq<char>)
    requires
        lex(cfg, code) is Ok,
    ensures
        all_accounted_for(cfg, code, lex(cfg, code)->Ok_0),
        !cfg.indent || (config_wf(cfg) && steady_indentation(cfg)) ==> only_white_space_dropped(
            code,
            lex(cfg, code)->Ok_0,
        ),
{
    let tokens = lex(cfg, code)->Ok_0;
    assert forall|j: int|
        0 <= j < code.len() && !is_blank(code[j]) && code[j] != '\n' implies (in_a_token(tokens, j)
        <==> !#[trigger] read_as_indentation(cfg, code, j)) by {
        lemma_dropped_is_read_as_indentation(cfg, code, j);
    }
    if !cfg.indent || (config_wf(cfg) && steady_indentation(cfg)) {
        assert forall|j: int|
            0 <= j < code.len() && !is_blank(code[j]) && code[j] != '\n' implies #[trigger] in_a_token(
            tokens,
            j,
        ) by {
            lemma_only_white_space_is_dropped(cfg, code, j);
        }
    }
}

} // verus!
