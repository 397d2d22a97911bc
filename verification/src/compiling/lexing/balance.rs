//! The stack of open regions over a run of the lexer, and what the escape
//! character does to it.

use vstd::prelude::*;
use crate::compiling::lexing::lexer::Lexer;
use crate::compiling::lexing::machine::{
    LexConfig,
    LexModel,
    Progress,
    initial,
    is_blank,
    lex_end,
    run,
    step,
};
use crate::compiling::lexing::reader::{ReadMode, peek_of};
use crate::compiling::lexing::region_handler::{
    FrameModel,
    RegionReaction,
    delimiter_matches,
    first_match,
    lemma_first_match,
    lemma_react_keeps_wf,
    lemma_rules_tree_closed,
    opened,
    react,
    stack_wf,
    tree_closed,
};
use crate::compiling_rules::region::{
    Region,
    lemma_children_listed,
    lemma_lookup_listed,
    lookup,
    preorder,
};

verus! {

/// The configuration lists the regions of its tree, whose root is global
/// and whose references resolve.
pub open spec fn config_wf(cfg: LexConfig) -> bool {
    &&& cfg.root.global
    &&& cfg.entries == preorder(cfg.root)
    &&& tree_closed(cfg.entries)
}

/// A lexer with well-formed rules has a well-formed configuration.
pub proof fn lemma_config_wf(lexer: Lexer)
    requires
        lexer.rules.well_formed(),
    ensures
        config_wf(lexer.config()),
{
    lemma_rules_tree_closed(lexer.rules);
}

/// The frame of the global region, which lies at the bottom of the stack.
pub open spec fn root_frame(cfg: LexConfig) -> FrameModel {
    FrameModel { region: cfg.root, interp: cfg.root.interp@ }
}

/// `holds` is true of every region below the root: of every region that a
/// region of the tree lists in its `interp`.
pub open spec fn children_hold(cfg: LexConfig, holds: spec_fn(Region) -> bool) -> bool {
    forall|k: int, j: int|
        0 <= k < cfg.entries.len() && 0 <= j < cfg.entries[k].interp@.len() ==> holds(
            #[trigger] cfg.entries[k].interp@[j],
        )
}

/// The stack rests on the frame of the global region, and `holds` is true
/// of every region that is open above it and of every region that can
/// open from it.
pub open spec fn stack_holds(
    cfg: LexConfig,
    stack: Seq<FrameModel>,
    holds: spec_fn(Region) -> bool,
) -> bool {
    &&& stack_wf(stack, cfg.entries)
    &&& stack[0] == root_frame(cfg)
    &&& forall|f: int| 1 <= f < stack.len() ==> holds((#[trigger] stack[f]).region)
    &&& forall|f: int, j: int|
        0 <= f < stack.len() && 0 <= j < stack[f].interp.len() ==> holds(
            #[trigger] stack[f].interp[j],
        )
}

/// What is true of every region below the root stays true of the stack
/// when a character opens or closes a region.
pub proof fn lemma_react_holds(
    cfg: LexConfig,
    stack: Seq<FrameModel>,
    code: Seq<char>,
    i: int,
    escaped: bool,
    holds: spec_fn(Region) -> bool,
)
    requires
        config_wf(cfg),
        children_hold(cfg, holds),
        stack_holds(cfg, stack, holds),
    ensures
        stack_holds(cfg, react(stack, cfg.entries, code, i, escaped).1, holds),
{
    let entries = cfg.entries;
    let top = stack.last();
    let after = react(stack, entries, code, i, escaped).1;
    lemma_react_keeps_wf(stack, entries, code, i, escaped);
    lemma_first_match(top.interp, code, i, ReadMode::Future, escaped, 0);
    match first_match(top.interp, code, i, ReadMode::Future, escaped, 0) {
        Some(k) => {
            let region = top.interp[k];
            let frame = opened(region, entries);
            assert(entries.contains(region));
            let source = match region.references {
                Some(id) => match lookup(entries, id@) {
                    Some(target) => {
                        lemma_lookup_listed(entries, id@);
                        target
                    },
                    None => region,
                },
                None => region,
            };
            assert(entries.contains(source));
            let at = choose|at: int| 0 <= at < entries.len() && entries[at] == source;
            assert(frame.interp == entries[at].interp@);
            assert forall|f: int| 1 <= f < after.len() implies holds(
                (#[trigger] after[f]).region,
            ) by {
                if f < stack.len() {
                    assert(after[f] == stack[f]);
                } else {
                    assert(after[f] == frame);
                    assert(holds(stack[stack.len() - 1].interp[k]));
                }
            }
            assert forall|f: int, j: int|
                0 <= f < after.len() && 0 <= j < after[f].interp.len() implies holds(
                #[trigger] after[f].interp[j],
            ) by {
                if f < stack.len() {
                    assert(after[f] == stack[f]);
                } else {
                    assert(after[f] == frame);
                    assert(holds(entries[at].interp@[j]));
                }
            }
            assert(after[0] == stack[0]);
        },
        None => {
            if after != stack {
                assert(stack.len() >= 2);
                assert(after[0] == stack[0]);
                assert forall|f: int| 1 <= f < after.len() implies holds(
                    (#[trigger] after[f]).region,
                ) by {
                    assert(after[f] == stack[f]);
                }
                assert forall|f: int, j: int|
                    0 <= f < after.len() && 0 <= j < after[f].interp.len() implies holds(
                    #[trigger] after[f].interp[j],
                ) by {
                    assert(after[f] == stack[f]);
                }
            }
        },
    }
}

/// The stack of a state is what the reaction to the character made of it.
pub proof fn lemma_step_stack(cfg: LexConfig, code: Seq<char>, s: LexModel, i: int)
    ensures
        step(cfg, code, s, i) matches Progress::Running(t) ==> t.stack == react(
            s.stack,
            cfg.entries,
            code,
            i,
            s.is_escaped,
        ).1,
{
}

/// What is true of every region below the root is true of the stack
/// throughout a run.
pub proof fn lemma_run_holds(
    cfg: LexConfig,
    code: Seq<char>,
    n: nat,
    holds: spec_fn(Region) -> bool,
)
    requires
        config_wf(cfg),
        children_hold(cfg, holds),
    ensures
        run(cfg, code, n) matches Progress::Running(s) ==> stack_holds(cfg, s.stack, holds),
    decreases n,
{
    if n == 0 {
        let stack = initial(cfg).stack;
        assert(cfg.entries[0] == cfg.root);
        assert forall|f: int, j: int|
            0 <= f < stack.len() && 0 <= j < stack[f].interp.len() implies cfg.entries.contains(
            #[trigger] stack[f].interp[j],
        ) && holds(stack[f].interp[j]) by {
            lemma_children_listed(cfg.root, cfg.root, j);
            assert(holds(cfg.entries[0].interp@[j]));
        }
    } else {
        lemma_run_holds(cfg, code, (n - 1) as nat, holds);
        match run(cfg, code, (n - 1) as nat) {
            Progress::Running(s) => {
                lemma_step_stack(cfg, code, s, n - 1);
                lemma_react_holds(cfg, s.stack, code, n - 1, s.is_escaped, holds);
            },
            Progress::Failed(_) => {},
        }
    }
}

/// A region that must be closed: it is not global and may not be left
/// open at the end of the text.
pub open spec fn must_close(region: Region) -> bool {
    !region.global && !region.allow_unclosed
}

/// No region below the root is global or may be left open at the end of
/// the text.
pub open spec fn only_root_stays_open(cfg: LexConfig) -> bool {
    children_hold(cfg, |region: Region| must_close(region))
}

/// Region balance: where no region below the root is global or may be
/// left open, a successful run ends with only the global region on the
/// stack.
pub proof fn lemma_region_balance(cfg: LexConfig, code: Seq<char>)
    requires
        config_wf(cfg),
        only_root_stays_open(cfg),
        lex_end(cfg, code) is Ok,
    ensures
        lex_end(cfg, code)->Ok_0.stack == seq![root_frame(cfg)],
{
    let holds = |region: Region| must_close(region);
    lemma_run_holds(cfg, code, code.len(), holds);
    let stack = lex_end(cfg, code)->Ok_0.stack;
    if stack.len() >= 2 {
        assert(holds(stack[stack.len() - 1].region));
    }
    assert(stack =~= seq![root_frame(cfg)]);
}

/// Whatever the rules, the stack of a successful run rests on the global
/// region, and the run ends in a region that is global or may be left
/// open.
pub proof fn lemma_run_ends_in_open_region(cfg: LexConfig, code: Seq<char>)
    requires
        config_wf(cfg),
        lex_end(cfg, code) is Ok,
    ensures
        lex_end(cfg, code)->Ok_0.stack.len() >= 1,
        lex_end(cfg, code)->Ok_0.stack[0] == root_frame(cfg),
        lex_end(cfg, code)->Ok_0.stack.last().region.global || lex_end(
            cfg,
            code,
        )->Ok_0.stack.last().region.allow_unclosed,
{
    lemma_run_holds(cfg, code, code.len(), |region: Region| true);
}

/// A delimiter that matches ahead of index `i` starts with the character
/// at `i`, if it has one.
pub proof fn lemma_begin_starts_here(region: Region, code: Seq<char>, i: int)
    requires
        delimiter_matches(region, code, i, ReadMode::Future, false),
        region.begin@.len() > 0,
    ensures
        region.begin@[0] == code[i],
{
    let n = region.begin@.len() as int;
    assert(code.subrange(i, i + n)[0] == code[i]);
}

/// A delimiter that matches behind index `i` ends with the character at
/// `i`, if it has one.
pub proof fn lemma_end_ends_here(region: Region, code: Seq<char>, i: int)
    requires
        delimiter_matches(region, code, i, ReadMode::History, false),
        region.end@.len() > 0,
        0 <= i < code.len(),
    ensures
        region.end@.last() == code[i],
{
    let n = region.end@.len() as int;
    assert(code.subrange(i + 1 - n, i + 1)[n - 1] == code[i]);
}

/// A region whose delimiters keep clear of indentation: its `begin` is
/// not empty and does not start with a blank, and its `end` is not empty
/// and does not end with one.
pub open spec fn steady_region(region: Region) -> bool {
    &&& region.begin@.len() > 0
    &&& !is_blank(region.begin@[0])
    &&& region.end@.len() > 0
    &&& !is_blank(region.end@.last())
}

/// Rules under which a run of indentation is never cut short: no region
/// below the root begins or ends at a blank, and no compound begins with
/// one.
pub open spec fn steady_indentation(cfg: LexConfig) -> bool {
    &&& children_hold(cfg, |region: Region| steady_region(region))
    &&& forall|p: int| 0 <= p < cfg.compounds.len() ==> !is_blank((#[trigger] cfg.compounds[p]).0)
}

/// A run of indentation is in progress only under indent scoping, with
/// the run as the token in progress, in tokenized context, and before a
/// blank.
spec fn indenting_ok(cfg: LexConfig, code: Seq<char>, s: LexModel, i: nat) -> bool {
    s.is_indenting ==> {
        &&& cfg.indent
        &&& s.word.len() > 0
        &&& s.word[0] == '\n'
        &&& s.stack.last().region.tokenize
        &&& !s.compound_active
        &&& i < code.len() ==> is_blank(code[i as int])
    }
}

proof fn lemma_step_indenting(cfg: LexConfig, code: Seq<char>, s: LexModel, i: nat)
    requires
        config_wf(cfg),
        steady_indentation(cfg),
        stack_holds(cfg, s.stack, |region: Region| steady_region(region)),
        indenting_ok(cfg, code, s, i),
        i < code.len(),
    ensures
        step(cfg, code, s, i as int) matches Progress::Running(t) ==> indenting_ok(
            cfg,
            code,
            t,
            i + 1,
        ),
{
    let holds = |region: Region| steady_region(region);
    let c = code[i as int];
    let next = peek_of(code, i as int);
    let top = s.stack.last();
    let (reaction, stack) = react(s.stack, cfg.entries, code, i as int, s.is_escaped);
    lemma_first_match(top.interp, code, i as int, ReadMode::Future, s.is_escaped, 0);
    if s.is_indenting {
        match reaction {
            RegionReaction::Begin(_) => {
                let k = first_match(
                    top.interp,
                    code,
                    i as int,
                    ReadMode::Future,
                    s.is_escaped,
                    0,
                )->0;
                assert(holds(s.stack[s.stack.len() - 1].interp[k]));
                lemma_begin_starts_here(top.interp[k], code, i as int);
            },
            RegionReaction::End(_) => {
                assert(s.stack[0].region.global);
                assert(holds(s.stack[s.stack.len() - 1].region));
                lemma_end_ends_here(top.region, code, i as int);
            },
            RegionReaction::Pass => {
                if next is Some && cfg.compounds.contains((c, next->0)) {
                    let p = choose|p: int|
                        0 <= p < cfg.compounds.len() && cfg.compounds[p] == (c, next->0);
                    assert(!is_blank(cfg.compounds[p].0));
                }
            },
        }
    }
}

/// Under rules that keep clear of indentation, a run of indentation in
/// progress is the token in progress, starts with a line feed, and goes
/// on with a blank: the character after the ones read so far is a space
/// or a tab.
pub proof fn lemma_indentation_goes_on(cfg: LexConfig, code: Seq<char>, n: nat)
    requires
        config_wf(cfg),
        steady_indentation(cfg),
        n <= code.len(),
    ensures
        run(cfg, code, n) matches Progress::Running(s) ==> (s.is_indenting ==> s.word.len() > 0
            && s.word[0] == '\n' && (n < code.len() ==> is_blank(code[n as int]))),
{
    lemma_run_indenting(cfg, code, n);
}

proof fn lemma_run_indenting(cfg: LexConfig, code: Seq<char>, n: nat)
    requires
        config_wf(cfg),
        steady_indentation(cfg),
        n <= code.len(),
    ensures
        run(cfg, code, n) matches Progress::Running(s) ==> indenting_ok(cfg, code, s, n),
    decreases n,
{
    if n > 0 {
        lemma_run_indenting(cfg, code, (n - 1) as nat);
        lemma_run_holds(cfg, code, (n - 1) as nat, |region: Region| steady_region(region));
        match run(cfg, code, (n - 1) as nat) {
            Progress::Running(s) => {
                lemma_step_indenting(cfg, code, s, (n - 1) as nat);
            },
            Progress::Failed(_) => {},
        }
    }
}

/// The stack of open regions grows by at most one region per character:
/// after `n` characters no more than `n` regions are open above the global
/// one, however the regions are nested.
pub proof fn lemma_stack_depth(cfg: LexConfig, code: Seq<char>, n: nat)
    ensures
        run(cfg, code, n) matches Progress::Running(s) ==> s.stack.len() <= n + 1,
    decreases n,
{
    if n > 0 {
        lemma_stack_depth(cfg, code, (n - 1) as nat);
        match run(cfg, code, (n - 1) as nat) {
            Progress::Running(s) => {
                lemma_step_stack(cfg, code, s, n - 1);
            },
            Progress::Failed(_) => {},
        }
    }
}

/// Escape: inside an opaque region, an escape character that is not
/// itself escaped keeps the character after it from opening or closing a
/// region, whatever delimiter that character completes.
pub proof fn lemma_escape_blocks_delimiter(cfg: LexConfig, code: Seq<char>, n: nat)
    requires
        n + 1 < code.len(),
        code[n as int] == cfg.escape,
        run(cfg, code, n) matches Progress::Running(s) && !s.is_escaped
            && !s.stack.last().region.tokenize && react(
            s.stack,
            cfg.entries,
            code,
            n as int,
            false,
        ).0 == RegionReaction::Pass,
        run(cfg, code, n + 1) is Running,
    ensures
        run(cfg, code, n + 1) matches Progress::Running(t) && t.is_escaped && react(
            t.stack,
            cfg.entries,
            code,
            (n + 1) as int,
            t.is_escaped,
        ) == (RegionReaction::Pass, t.stack),
        run(cfg, code, n + 2) matches Progress::Running(u) ==> u.stack == run(
            cfg,
            code,
            n,
        )->Running_0.stack,
{
    let s = run(cfg, code, n)->Running_0;
    assert(run(cfg, code, n + 1) == step(cfg, code, s, n as int));
    let t = run(cfg, code, n + 1)->Running_0;
    lemma_step_stack(cfg, code, s, n as int);
    lemma_first_match(t.stack.last().interp, code, (n + 1) as int, ReadMode::Future, true, 0);
    assert(run(cfg, code, n + 2) == step(cfg, code, t, (n + 1) as int));
    lemma_step_stack(cfg, code, t, (n + 1) as int);
}

/// An escape character that is itself escaped escapes nothing: the
/// character after it is not escaped.
pub proof fn lemma_escaped_escape_is_plain(cfg: LexConfig, code: Seq<char>, n: nat)
    requires
        n < code.len(),
        run(cfg, code, n) matches Progress::Running(s) && s.is_escaped
            && !s.stack.last().region.tokenize,
        run(cfg, code, n + 1) is Running,
    ensures
        run(cfg, code, n + 1) matches Progress::Running(t) && !t.is_escaped,
{
    let s = run(cfg, code, n)->Running_0;
    assert(run(cfg, code, n + 1) == step(cfg, code, s, n as int));
    lemma_first_match(s.stack.last().interp, code, n as int, ReadMode::Future, true, 0);
}

} // verus!
