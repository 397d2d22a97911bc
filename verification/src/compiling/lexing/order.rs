//! The order of the tokens: each lies in the text after the one before it.

use vstd::prelude::*;
use crate::compiling::lexing::compound_handler::{CompoundReaction, compound_react};
use crate::compiling::lexing::machine::{
    LexConfig,
    LexModel,
    Progress,
    begin,
    end,
    flush,
    flush_indent,
    grow,
    is_blank,
    lex,
    on_begin,
    on_end,
    on_indent,
    on_opaque,
    on_pass,
    on_plain,
    on_tokenized,
    run,
    step,
    symbol,
};
use crate::compiling::lexing::balance::{
    children_hold,
    config_wf,
    lemma_begin_starts_here,
    lemma_end_ends_here,
    lemma_run_holds,
    stack_holds,
};
use crate::compiling::lexing::reader::{ReadMode, col_at, peek_of, row_at};
use crate::compiling::lexing::region_handler::{RegionReaction, first_match, lemma_first_match, react};
use crate::compiling_rules::region::Region;
use crate::compiling::token::TokenView;

verus! {

/// Where a token ends: the index just after its last character.
pub open spec fn end_of(token: TokenView) -> nat {
    token.start + token.word.len()
}

/// A token that starts at `start` with the character `first` comes after
/// `prev`: it starts where `prev` ends or later. The one exception is a
/// line feed that is emitted twice, once as the end or beginning of an
/// opaque region and once as a token of its own: then the two tokens share
/// that line feed.
pub open spec fn comes_after(prev: TokenView, start: nat, first: char) -> bool {
    ||| end_of(prev) <= start
    ||| (end_of(prev) == start + 1 && prev.word.len() > 0 && prev.word.last() == '\n' && first
        == '\n')
}

/// Each token comes after the one before it.
pub open spec fn in_order(tokens: Seq<TokenView>) -> bool {
    forall|k: int|
        0 <= k < tokens.len() - 1 ==> comes_after(
            #[trigger] tokens[k],
            tokens[k + 1].start,
            tokens[k + 1].word[0],
        )
}

/// No token is empty, and none reaches beyond the index `bound`.
pub open spec fn all_within(tokens: Seq<TokenView>, bound: nat) -> bool {
    forall|k: int|
        0 <= k < tokens.len() ==> (#[trigger] tokens[k]).word.len() >= 1 && end_of(tokens[k])
            <= bound
}

/// The token in progress, if there is one, comes after the tokens
/// produced and does not reach beyond the index `bound`.
pub open spec fn pending_fits(s: LexModel, bound: nat) -> bool {
    s.word.len() > 0 ==> {
        &&& s.token_start_index + s.word.len() <= bound
        &&& s.lexem.len() > 0 ==> comes_after(s.lexem.last(), s.token_start_index, s.word[0])
    }
}

/// The tokens of `s`, the one in progress included, are in order and lie
/// before the index `bound`.
pub open spec fn tidy(s: LexModel, bound: nat) -> bool {
    &&& in_order(s.lexem)
    &&& all_within(s.lexem, bound)
    &&& pending_fits(s, bound)
}

proof fn lemma_flush_tidy(s: LexModel, bound: nat)
    requires
        tidy(s, bound),
    ensures
        tidy(flush(s), bound),
        flush(s).word.len() == 0,
        s.word.len() > 0 ==> flush(s).lexem.len() > 0 && flush(s).lexem.last().word == s.word
            && flush(s).lexem.last().start == s.token_start_index,
        s.word.len() == 0 ==> flush(s) == s,
{
    let t = flush(s);
    if s.word.len() > 0 {
        assert forall|k: int| 0 <= k < t.lexem.len() - 1 implies comes_after(
            #[trigger] t.lexem[k],
            t.lexem[k + 1].start,
            t.lexem[k + 1].word[0],
        ) by {
            if k < s.lexem.len() - 1 {
                assert(t.lexem[k] == s.lexem[k]);
                assert(t.lexem[k + 1] == s.lexem[k + 1]);
            } else {
                assert(t.lexem[k] == s.lexem.last());
            }
        }
        assert forall|k: int| 0 <= k < t.lexem.len() implies (#[trigger] t.lexem[k]).word.len()
            >= 1 && end_of(t.lexem[k]) <= bound by {
            if k < s.lexem.len() {
                assert(t.lexem[k] == s.lexem[k]);
            }
        }
    }
}

proof fn lemma_flush_indent_tidy(s: LexModel, row: nat, bound: nat)
    requires
        tidy(s, bound),
    ensures
        tidy(flush_indent(s, row), bound),
        flush_indent(s, row).word.len() == 0,
{
    let t = flush_indent(s, row);
    if s.word.len() > 0 {
        assert forall|k: int| 0 <= k < t.lexem.len() - 1 implies comes_after(
            #[trigger] t.lexem[k],
            t.lexem[k + 1].start,
            t.lexem[k + 1].word[0],
        ) by {
            if k < s.lexem.len() - 1 {
                assert(t.lexem[k] == s.lexem[k]);
                assert(t.lexem[k + 1] == s.lexem[k + 1]);
            } else {
                assert(t.lexem[k] == s.lexem.last());
            }
        }
        assert forall|k: int| 0 <= k < t.lexem.len() implies (#[trigger] t.lexem[k]).word.len()
            >= 1 && end_of(t.lexem[k]) <= bound by {
            if k < s.lexem.len() {
                assert(t.lexem[k] == s.lexem[k]);
            }
        }
    }
}

/// The character at index `i` can join the state `s`: the token in
/// progress ends at `i` or before, and a new token would come after the
/// last one produced.
spec fn can_grow(s: LexModel, c: char, i: nat) -> bool {
    &&& tidy(s, i + 1)
    &&& s.word.len() > 0 ==> s.token_start_index + s.word.len() <= i
    &&& s.word.len() == 0 && s.lexem.len() > 0 ==> comes_after(s.lexem.last(), i, c)
}

proof fn lemma_grow_tidy(s: LexModel, c: char, i: nat, pos: (nat, nat))
    requires
        can_grow(s, c, i),
    ensures
        tidy(grow(s, c, i, pos), i + 1),
        grow(s, c, i, pos).word.len() > 0,
        grow(s, c, i, pos).word.last() == c,
        grow(s, c, i, pos).lexem == s.lexem,
{
}

proof fn lemma_tidy_can_grow(s: LexModel, c: char, i: nat)
    requires
        tidy(s, i),
    ensures
        can_grow(s, c, i),
{
    if s.lexem.len() > 0 {
        assert(end_of(s.lexem[s.lexem.len() - 1]) <= i);
    }
}

proof fn lemma_symbol_tidy(s: LexModel, c: char, i: nat, pos: (nat, nat))
    requires
        can_grow(flush(s), c, i),
        tidy(s, i + 1),
    ensures
        tidy(symbol(s, c, i, pos), i + 1),
        symbol(s, c, i, pos).word.len() == 0,
        symbol(s, c, i, pos).lexem.len() > 0,
        symbol(s, c, i, pos).lexem.last().word == seq![c],
        symbol(s, c, i, pos).lexem.last().start == i,
{
    lemma_flush_tidy(s, i + 1);
    let flushed = flush(s);
    lemma_grow_tidy(flushed, c, i, pos);
    let pushed = grow(flushed, c, i, pos);
    assert(pushed.word =~= seq![c]);
    lemma_flush_tidy(pushed, i + 1);
}

proof fn lemma_begin_tidy(s: LexModel, c: char, i: nat, pos: (nat, nat))
    requires
        can_grow(flush(s), c, i),
        tidy(s, i + 1),
    ensures
        tidy(begin(s, c, i, pos), i + 1),
{
    lemma_flush_tidy(s, i + 1);
    lemma_grow_tidy(flush(s), c, i, pos);
}

proof fn lemma_end_tidy(s: LexModel, c: char, i: nat, pos: (nat, nat))
    requires
        can_grow(s, c, i),
    ensures
        tidy(end(s, c, i, pos), i + 1),
        end(s, c, i, pos).word.len() == 0,
        end(s, c, i, pos).lexem.len() > 0,
        end(s, c, i, pos).lexem.last().word.len() > 0,
        end(s, c, i, pos).lexem.last().word.last() == c,
        end_of(end(s, c, i, pos).lexem.last()) <= i + 1,
{
    lemma_grow_tidy(s, c, i, pos);
    lemma_flush_tidy(grow(s, c, i, pos), i + 1);
}

/// Flushing a tidy state whose tokens lie before `i` leaves a state that
/// the character at `i` can join.
proof fn lemma_flushed_can_grow(s: LexModel, c: char, i: nat)
    requires
        tidy(s, i),
    ensures
        can_grow(flush(s), c, i),
        tidy(s, i + 1),
{
    lemma_flush_tidy(s, i);
    lemma_tidy_can_grow(flush(s), c, i);
}

proof fn lemma_on_begin_tidy(s: LexModel, tokenize: bool, c: char, i: nat, pos: (nat, nat))
    requires
        tidy(s, i),
    ensures
        tidy(on_begin(s, tokenize, c, i, pos), i + 1),
{
    lemma_flushed_can_grow(s, c, i);
    if tokenize {
        lemma_symbol_tidy(s, c, i, pos);
    } else if c == '\n' {
        lemma_symbol_tidy(s, c, i, pos);
        let t = symbol(s, c, i, pos);
        lemma_flush_tidy(t, i + 1);
        lemma_begin_tidy(t, c, i, pos);
    } else {
        lemma_begin_tidy(s, c, i, pos);
    }
}

proof fn lemma_on_end_tidy(s: LexModel, tokenize: bool, c: char, i: nat, pos: (nat, nat))
    requires
        tidy(s, i),
    ensures
        tidy(on_end(s, tokenize, c, i, pos), i + 1),
{
    lemma_flushed_can_grow(s, c, i);
    lemma_tidy_can_grow(s, c, i);
    if tokenize {
        lemma_symbol_tidy(s, c, i, pos);
    } else if c == '\n' {
        lemma_end_tidy(s, c, i, pos);
        let t = end(s, c, i, pos);
        lemma_flush_tidy(t, i + 1);
        lemma_symbol_tidy(t, c, i, pos);
    } else {
        lemma_end_tidy(s, c, i, pos);
    }
}

proof fn lemma_on_indent_tidy(s: LexModel, c: char, i: nat, next: Option<char>, pos: (nat, nat))
    requires
        tidy(s, i),
    ensures
        tidy(on_indent(s, c, i, next, pos), i + 1),
{
    lemma_tidy_can_grow(s, c, i);
    lemma_flushed_can_grow(s, c, i);
    let joined = if s.is_indenting && is_blank(c) {
        grow(s, c, i, pos)
    } else {
        s
    };
    if s.is_indenting && is_blank(c) {
        lemma_grow_tidy(s, c, i, pos);
    }
    let started = if c == '\n' {
        begin(LexModel { is_indenting: true, ..joined }, c, i, pos)
    } else {
        joined
    };
    if c == '\n' {
        let marked = LexModel { is_indenting: true, ..joined };
        assert(flush(marked) == LexModel { is_indenting: true, ..flush(s) });
        lemma_begin_tidy(marked, c, i, pos);
    }
    lemma_flush_indent_tidy(started, pos.0, i + 1);
}

proof fn lemma_on_plain_tidy(cfg: LexConfig, s: LexModel, c: char, i: nat, pos: (nat, nat))
    requires
        tidy(s, i),
    ensures
        tidy(on_plain(cfg, s, c, i, pos), i + 1),
{
    lemma_tidy_can_grow(s, c, i);
    lemma_flushed_can_grow(s, c, i);
    lemma_flush_tidy(s, i + 1);
    if cfg.manual && c == '\n' {
    } else if is_blank(c) {
    } else if cfg.symbols.contains(c) || c == '\n' {
        lemma_symbol_tidy(s, c, i, pos);
    } else {
        lemma_grow_tidy(s, c, i, pos);
    }
}

proof fn lemma_on_pass_tidy(
    cfg: LexConfig,
    s: LexModel,
    c: char,
    i: nat,
    next: Option<char>,
    pos: (nat, nat),
)
    requires
        tidy(s, i),
    ensures
        on_pass(cfg, s, c, i, next, pos) matches Progress::Running(t) ==> tidy(t, i + 1),
{
    let tokenized = s.stack.last().region.tokenize;
    let (reaction, active) = compound_react(cfg.compounds, s.compound_active, c, next, tokenized);
    let t = LexModel { compound_active: active, ..s };
    assert(tidy(t, i));
    lemma_tidy_can_grow(t, c, i);
    lemma_flushed_can_grow(t, c, i);
    match reaction {
        CompoundReaction::Begin => {
            lemma_begin_tidy(t, c, i, pos);
        },
        CompoundReaction::Keep => {
            lemma_grow_tidy(t, c, i, pos);
        },
        CompoundReaction::End => {
            lemma_end_tidy(t, c, i, pos);
        },
        CompoundReaction::Pass => {
            if tokenized {
                if cfg.indent && (t.is_indenting || c == '\n') {
                    lemma_on_indent_tidy(t, c, i, next, pos);
                } else {
                    lemma_on_plain_tidy(cfg, t, c, i, pos);
                }
            } else {
                let escaped = !t.is_escaped && c == cfg.escape;
                let u = LexModel { is_escaped: escaped, ..t };
                lemma_tidy_can_grow(u, c, i);
                lemma_grow_tidy(u, c, i, pos);
            }
        },
    }
}

proof fn lemma_step_tidy(cfg: LexConfig, code: Seq<char>, s: LexModel, i: nat)
    requires
        tidy(s, i),
    ensures
        step(cfg, code, s, i as int) matches Progress::Running(t) ==> tidy(t, i + 1),
{
    let c = code[i as int];
    let pos = (row_at(code, i as int), col_at(code, i as int));
    let (reaction, stack) = react(s.stack, cfg.entries, code, i as int, s.is_escaped);
    let t = LexModel { stack, ..s };
    assert(tidy(t, i));
    match reaction {
        RegionReaction::Begin(tokenize) => {
            lemma_on_begin_tidy(t, tokenize, c, i, pos);
        },
        RegionReaction::End(tokenize) => {
            lemma_on_end_tidy(t, tokenize, c, i, pos);
        },
        RegionReaction::Pass => {
            lemma_on_pass_tidy(cfg, t, c, i, peek_of(code, i as int), pos);
        },
    }
}

/// Throughout a run the tokens, the one in progress included, are in
/// order and lie before the index read up to.
pub proof fn lemma_run_tidy(cfg: LexConfig, code: Seq<char>, n: nat)
    ensures
        run(cfg, code, n) matches Progress::Running(s) ==> tidy(s, n),
    decreases n,
{
    if n > 0 {
        lemma_run_tidy(cfg, code, (n - 1) as nat);
        match run(cfg, code, (n - 1) as nat) {
            Progress::Running(s) => {
                lemma_step_tidy(cfg, code, s, (n - 1) as nat);
            },
            Progress::Failed(_) => {},
        }
    }
}

/// The tokens that a text is turned into lie within the text, one after
/// the other, and none is empty.
///
/// Any two consecutive tokens `a` and `b` satisfy `a.start + len(a.word)
/// <= b.start`, with one exception: where `a` ends with a line feed and
/// `b` begins with one, the two may share that line feed, so that
/// `a.start + len(a.word) == b.start + 1`. This happens where an opaque
/// region opens or closes with a line feed, which is emitted both within
/// the region's token and as a token of its own.
pub proof fn lemma_tokens_in_order(cfg: LexConfig, code: Seq<char>)
    requires
        lex(cfg, code) is Ok,
    ensures
        in_order(lex(cfg, code)->Ok_0),
        all_within(lex(cfg, code)->Ok_0, code.len()),
{
    lemma_run_tidy(cfg, code, code.len());
    match run(cfg, code, code.len()) {
        Progress::Running(s) => {
            lemma_flush_tidy(s, code.len());
        },
        Progress::Failed(_) => {},
    }
}

/// Consecutive tokens do not overlap unless they share a line feed: where
/// the first does not end with a line feed or the second does not begin
/// with one, the first ends before the second starts.
pub proof fn lemma_tokens_do_not_overlap(cfg: LexConfig, code: Seq<char>, k: int)
    requires
        lex(cfg, code) matches Ok(tokens) && 0 <= k < tokens.len() - 1 && !(tokens[k].word.last()
            == '\n' && tokens[k + 1].word[0] == '\n'),
    ensures
        lex(cfg, code) matches Ok(tokens) && tokens[k].start + tokens[k].word.len() <= tokens[k
            + 1].start,
{
    lemma_tokens_in_order(cfg, code);
}

/// Tokens are in the order of the text: no token starts before the one
/// before it.
pub proof fn lemma_starts_do_not_decrease(cfg: LexConfig, code: Seq<char>, k: int)
    requires
        lex(cfg, code) matches Ok(tokens) && 0 <= k < tokens.len() - 1,
    ensures
        lex(cfg, code) matches Ok(tokens) && tokens[k].start <= tokens[k + 1].start,
{
    lemma_tokens_in_order(cfg, code);
    let tokens = lex(cfg, code)->Ok_0;
    assert(tokens[k].word.len() >= 1);
}

/// A region that shares no line feed: it is tokenized, or its `begin` is
/// not empty and does not start with a line feed and its `end` is not empty
/// and does not end with one.
pub open spec fn feedless_region(region: Region) -> bool {
    ||| region.tokenize
    ||| {
        &&& region.begin@.len() > 0
        &&& region.begin@[0] != '\n'
        &&& region.end@.len() > 0
        &&& region.end@.last() != '\n'
    }
}

/// Rules under which no line feed is emitted twice: no opaque region below
/// the root opens or closes at a line feed.
pub open spec fn feedless_rules(cfg: LexConfig) -> bool {
    children_hold(cfg, |region: Region| feedless_region(region))
}

/// Each token ends before the next one starts.
pub open spec fn apart(tokens: Seq<TokenView>) -> bool {
    forall|k: int| 0 <= k < tokens.len() - 1 ==> end_of(#[trigger] tokens[k]) <= tokens[k + 1].start
}

/// The tokens of `s`, the one in progress included, lie apart and before
/// the index `bound`.
#[verifier::opaque]
spec fn neat(s: LexModel, bound: nat) -> bool {
    &&& apart(s.lexem)
    &&& all_within(s.lexem, bound)
    &&& s.word.len() > 0 ==> s.token_start_index + s.word.len() <= bound && (s.lexem.len() > 0
        ==> end_of(s.lexem.last()) <= s.token_start_index)
}

proof fn lemma_flush_neat(s: LexModel, bound: nat)
    requires
        neat(s, bound),
    ensures
        neat(flush(s), bound),
        flush(s).word.len() == 0,
{
    reveal(neat);
    let t = flush(s);
    if s.word.len() > 0 {
        assert forall|k: int| 0 <= k < t.lexem.len() - 1 implies end_of(#[trigger] t.lexem[k])
            <= t.lexem[k + 1].start by {
            if k < s.lexem.len() - 1 {
                assert(t.lexem[k] == s.lexem[k]);
                assert(t.lexem[k + 1] == s.lexem[k + 1]);
            } else {
                assert(t.lexem[k] == s.lexem.last());
            }
        }
        assert forall|k: int| 0 <= k < t.lexem.len() implies (#[trigger] t.lexem[k]).word.len()
            >= 1 && end_of(t.lexem[k]) <= bound by {
            if k < s.lexem.len() {
                assert(t.lexem[k] == s.lexem[k]);
            }
        }
    }
}

proof fn lemma_flush_indent_neat(s: LexModel, row: nat, bound: nat)
    requires
        neat(s, bound),
    ensures
        neat(flush_indent(s, row), bound),
        flush_indent(s, row).word.len() == 0,
{
    reveal(neat);
    let t = flush_indent(s, row);
    if s.word.len() > 0 {
        assert forall|k: int| 0 <= k < t.lexem.len() - 1 implies end_of(#[trigger] t.lexem[k])
            <= t.lexem[k + 1].start by {
            if k < s.lexem.len() - 1 {
                assert(t.lexem[k] == s.lexem[k]);
                assert(t.lexem[k + 1] == s.lexem[k + 1]);
            } else {
                assert(t.lexem[k] == s.lexem.last());
            }
        }
        assert forall|k: int| 0 <= k < t.lexem.len() implies (#[trigger] t.lexem[k]).word.len()
            >= 1 && end_of(t.lexem[k]) <= bound by {
            if k < s.lexem.len() {
                assert(t.lexem[k] == s.lexem[k]);
            }
        }
    }
}

proof fn lemma_grow_neat(s: LexModel, c: char, i: nat, pos: (nat, nat))
    requires
        neat(s, i),
    ensures
        neat(grow(s, c, i, pos), i + 1),
        grow(s, c, i, pos).word.len() > 0,
{
    reveal(neat);
    if s.lexem.len() > 0 {
        assert(end_of(s.lexem[s.lexem.len() - 1]) <= i);
    }
}

proof fn lemma_symbol_neat(s: LexModel, c: char, i: nat, pos: (nat, nat))
    requires
        neat(s, i),
    ensures
        neat(symbol(s, c, i, pos), i + 1),
{
    lemma_flush_neat(s, i);
    lemma_grow_neat(flush(s), c, i, pos);
    lemma_flush_neat(grow(flush(s), c, i, pos), i + 1);
}

proof fn lemma_begin_neat(s: LexModel, c: char, i: nat, pos: (nat, nat))
    requires
        neat(s, i),
    ensures
        neat(begin(s, c, i, pos), i + 1),
{
    lemma_flush_neat(s, i);
    lemma_grow_neat(flush(s), c, i, pos);
}

proof fn lemma_end_neat(s: LexModel, c: char, i: nat, pos: (nat, nat))
    requires
        neat(s, i),
    ensures
        neat(end(s, c, i, pos), i + 1),
{
    lemma_grow_neat(s, c, i, pos);
    lemma_flush_neat(grow(s, c, i, pos), i + 1);
}

proof fn lemma_wider_neat(s: LexModel, bound: nat)
    requires
        neat(s, bound),
    ensures
        neat(s, bound + 1),
{
    reveal(neat);
}

/// Whether two states hold the same tokens, the one in progress included.
spec fn same_tokens(s: LexModel, t: LexModel) -> bool {
    &&& s.word == t.word
    &&& s.lexem == t.lexem
    &&& s.token_start_index == t.token_start_index
}

proof fn lemma_same_neat(s: LexModel, t: LexModel, bound: nat)
    requires
        neat(s, bound),
        same_tokens(s, t),
    ensures
        neat(t, bound),
{
    reveal(neat);
}

proof fn lemma_opaque_neat(cfg: LexConfig, s: LexModel, c: char, i: nat, pos: (nat, nat))
    requires
        neat(s, i),
    ensures
        on_opaque(cfg, s, c, i, pos) matches Progress::Running(t) ==> neat(t, i + 1),
{
    let escaped = !s.is_escaped && c == cfg.escape;
    let u = LexModel { is_escaped: escaped, ..s };
    lemma_same_neat(s, u, i);
    lemma_grow_neat(u, c, i, pos);
}

proof fn lemma_tokenized_neat(
    cfg: LexConfig,
    s: LexModel,
    c: char,
    i: nat,
    next: Option<char>,
    pos: (nat, nat),
)
    requires
        neat(s, i),
    ensures
        neat(on_tokenized(cfg, s, c, i, next, pos), i + 1),
{
    if cfg.indent && (s.is_indenting || c == '\n') {
        lemma_indent_neat(s, c, i, next, pos);
    } else {
        lemma_plain_neat(cfg, s, c, i, pos);
    }
}

proof fn lemma_indent_neat(s: LexModel, c: char, i: nat, next: Option<char>, pos: (nat, nat))
    requires
        neat(s, i),
    ensures
        neat(on_indent(s, c, i, next, pos), i + 1),
{
    let joined = if s.is_indenting && is_blank(c) {
        grow(s, c, i, pos)
    } else {
        s
    };
    if s.is_indenting && is_blank(c) {
        lemma_grow_neat(s, c, i, pos);
    } else {
        lemma_wider_neat(s, i);
    }
    let started = if c == '\n' {
        begin(LexModel { is_indenting: true, ..joined }, c, i, pos)
    } else {
        joined
    };
    if c == '\n' {
        let marked = LexModel { is_indenting: true, ..joined };
        lemma_wider_neat(s, i);
        if !(s.is_indenting && is_blank(c)) {
            lemma_same_neat(s, marked, i);
            lemma_begin_neat(marked, c, i, pos);
        }
    }
    lemma_flush_indent_neat(started, pos.0, i + 1);
    let flushed = flush_indent(started, pos.0);
    lemma_same_neat(flushed, LexModel { is_indenting: false, ..flushed }, i + 1);
}

proof fn lemma_plain_neat(cfg: LexConfig, s: LexModel, c: char, i: nat, pos: (nat, nat))
    requires
        neat(s, i),
    ensures
        neat(on_plain(cfg, s, c, i, pos), i + 1),
{
    lemma_flush_neat(s, i);
    lemma_wider_neat(flush(s), i);
    if cfg.manual && c == '\n' {
    } else if is_blank(c) {
    } else if cfg.symbols.contains(c) || c == '\n' {
        lemma_symbol_neat(s, c, i, pos);
    } else {
        lemma_grow_neat(s, c, i, pos);
    }
}

proof fn lemma_pass_neat(
    cfg: LexConfig,
    s: LexModel,
    c: char,
    i: nat,
    next: Option<char>,
    pos: (nat, nat),
)
    requires
        neat(s, i),
    ensures
        on_pass(cfg, s, c, i, next, pos) matches Progress::Running(t) ==> neat(t, i + 1),
{
    let tokenized = s.stack.last().region.tokenize;
    let (reaction, active) = compound_react(cfg.compounds, s.compound_active, c, next, tokenized);
    let t = LexModel { compound_active: active, ..s };
    lemma_same_neat(s, t, i);
    match reaction {
        CompoundReaction::Begin => {
            lemma_begin_neat(t, c, i, pos);
        },
        CompoundReaction::Keep => {
            lemma_grow_neat(t, c, i, pos);
        },
        CompoundReaction::End => {
            lemma_end_neat(t, c, i, pos);
        },
        CompoundReaction::Pass => {
            if tokenized {
                lemma_tokenized_neat(cfg, t, c, i, next, pos);
            } else {
                lemma_opaque_neat(cfg, t, c, i, pos);
            }
        },
    }
}

proof fn lemma_step_neat(cfg: LexConfig, code: Seq<char>, s: LexModel, i: nat)
    requires
        stack_holds(cfg, s.stack, |region: Region| feedless_region(region)),
        neat(s, i),
        i < code.len(),
    ensures
        step(cfg, code, s, i as int) matches Progress::Running(t) ==> neat(t, i + 1),
{
    let holds = |region: Region| feedless_region(region);
    let c = code[i as int];
    let pos = (row_at(code, i as int), col_at(code, i as int));
    let top = s.stack.last();
    let (reaction, stack) = react(s.stack, cfg.entries, code, i as int, s.is_escaped);
    let t = LexModel { stack, ..s };
    lemma_same_neat(s, t, i);
    lemma_first_match(top.interp, code, i as int, ReadMode::Future, s.is_escaped, 0);
    match reaction {
        RegionReaction::Begin(tokenize) => {
            if tokenize {
                lemma_symbol_neat(t, c, i, pos);
            } else {
                let k = first_match(
                    top.interp,
                    code,
                    i as int,
                    ReadMode::Future,
                    s.is_escaped,
                    0,
                )->0;
                assert(holds(s.stack[s.stack.len() - 1].interp[k]));
                lemma_begin_starts_here(top.interp[k], code, i as int);
                lemma_begin_neat(t, c, i, pos);
            }
        },
        RegionReaction::End(tokenize) => {
            if tokenize {
                lemma_symbol_neat(t, c, i, pos);
            } else {
                assert(s.stack[0].region.global);
                assert(holds(s.stack[s.stack.len() - 1].region));
                lemma_end_ends_here(top.region, code, i as int);
                lemma_end_neat(t, c, i, pos);
            }
        },
        RegionReaction::Pass => {
            lemma_pass_neat(cfg, t, c, i, peek_of(code, i as int), pos);
        },
    }
}

proof fn lemma_run_neat(cfg: LexConfig, code: Seq<char>, n: nat)
    requires
        config_wf(cfg),
        feedless_rules(cfg),
        n <= code.len(),
    ensures
        run(cfg, code, n) matches Progress::Running(s) ==> neat(s, n),
    decreases n,
{
    reveal(neat);
    if n > 0 {
        lemma_run_neat(cfg, code, (n - 1) as nat);
        lemma_run_holds(cfg, code, (n - 1) as nat, |region: Region| feedless_region(region));
        match run(cfg, code, (n - 1) as nat) {
            Progress::Running(s) => {
                lemma_step_neat(cfg, code, s, (n - 1) as nat);
            },
            Progress::Failed(_) => {},
        }
    }
}

/// Concatenation: where no opaque region opens or closes at a line feed,
/// each token ends before the next one starts: for any two consecutive
/// tokens `a` and `b`, `a.start + len(a.word) <= b.start`.
pub proof fn lemma_tokens_lie_apart(cfg: LexConfig, code: Seq<char>)
    requires
        config_wf(cfg),
        feedless_rules(cfg),
        lex(cfg, code) is Ok,
    ensures
        apart(lex(cfg, code)->Ok_0),
{
    reveal(neat);
    lemma_run_neat(cfg, code, code.len());
    match run(cfg, code, code.len()) {
        Progress::Running(s) => {
            lemma_flush_neat(s, code.len());
        },
        Progress::Failed(_) => {},
    }
}

} // verus!
