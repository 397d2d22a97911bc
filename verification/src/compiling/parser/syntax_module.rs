//! The trait that the syntax modules of a language implement.

use vstd::prelude::*;
use crate::compiling::failing::failure::Failure;
use crate::compiling::parser::metadata::{DebugEvent, DebugRecord, DebugRecordView, Metadata};
use crate::text::{fit, next_fit, string_of_str};

verus! {

/// What parsing a syntax module returns.
pub type SyntaxResult = Result<(), Failure>;

/// The depth that a module is traced at: that of the parse so far, or zero
/// where the parse was not traced yet.
pub open spec fn traced_depth<M: Metadata>(meta: M) -> usize {
    match meta.debug_depth() {
        Some(depth) => depth,
        None => 0,
    }
}

/// What happened to a module whose parse returned `result`.
pub open spec fn outcome_event(result: SyntaxResult) -> DebugEvent {
    match result {
        Ok(_) => DebugEvent::Left,
        Err(_) => DebugEvent::Failed,
    }
}

/// The state `after` is the state `before` with one more line in the
/// trace: the module called `name` is entered at `depth`, the depth of the
/// parse so far, and what is parsed next is one level deeper.
pub open spec fn entered<M: Metadata>(before: M, after: M, depth: usize, name: Seq<char>) -> bool {
    &&& depth == traced_depth(before)
    &&& after.debug_depth() == Some(fit((depth + 1) as nat))
    &&& after.debug_log() == before.debug_log().push(
        DebugRecordView { depth: depth as nat, event: DebugEvent::Entered, name },
    )
    &&& after.cursor() == before.cursor()
    &&& after.tokens() == before.tokens()
    &&& after.path() == before.path()
    &&& after.code() == before.code()
    &&& after.trace() == before.trace()
}

/// The state `after` is the state `before` with one more line in the
/// trace: the module called `name` was left, or has failed, as `result`
/// says; and the parse is back at `depth`.
pub open spec fn left<M: Metadata>(
    before: M,
    after: M,
    depth: usize,
    name: Seq<char>,
    result: SyntaxResult,
) -> bool {
    &&& after.debug_depth() == Some(depth)
    &&& after.debug_log() == before.debug_log().push(
        DebugRecordView { depth: depth as nat, event: outcome_event(result), name },
    )
    &&& after.cursor() == before.cursor()
    &&& after.tokens() == before.tokens()
    &&& after.path() == before.path()
    &&& after.code() == before.code()
    &&& after.trace() == before.trace()
}

/// Notes in the trace that the module called `name` is entered, and makes
/// what is parsed from within it one level deeper. Returns the depth of
/// the module.
pub fn enter_debug<M: Metadata>(meta: &mut M, name: &str) -> (depth: usize)
    ensures
        entered(*old(meta), *final(meta), depth, name@),
{
    let depth = match meta.get_debug() {
        Some(depth) => depth,
        None => 0,
    };
    meta.record_debug(DebugRecord { depth, event: DebugEvent::Entered, name: string_of_str(name) });
    meta.set_debug(next_fit(depth));
    depth
}

/// Notes in the trace how the parse of the module called `name` ended,
/// and goes back to the depth of the module.
pub fn leave_debug<M: Metadata>(meta: &mut M, depth: usize, name: &str, result: &SyntaxResult)
    ensures
        left(*old(meta), *final(meta), depth, name@, *result),
{
    let event = match result {
        Ok(_) => DebugEvent::Left,
        Err(_) => DebugEvent::Failed,
    };
    meta.record_debug(DebugRecord { depth, event, name: string_of_str(name) });
    meta.set_debug(depth);
}

/// A piece of syntax that can parse itself from the tokens.
pub trait SyntaxModule<M: Metadata>: Sized {
    /// What a parse of the module may come to: from the module `before`
    /// and the state `meta`, the module `after`, the state `done` and
    /// `result`. Each module says for itself what its `parse` does; one
    /// that says nothing allows every outcome.
    open spec fn parses(before: Self, meta: M, after: Self, done: M, result: SyntaxResult) -> bool {
        true
    }

    /// What the module may be called. Each module says for itself what
    /// its `name` is; one that says nothing allows every name.
    open spec fn names(name: Seq<char>) -> bool {
        true
    }

    /// An empty module, to be filled in by `parse`.
    fn new() -> Self;

    /// The name of the module, as it appears in the trace of a parse.
    fn name() -> (name: &'static str)
        ensures
            Self::names(name@),
    ;

    /// Consumes the tokens of the module and fills the module in. A
    /// module that does not apply at the cursor fails quietly.
    fn parse(&mut self, meta: &mut M) -> (result: SyntaxResult)
        ensures
            Self::parses(*old(self), *old(meta), *final(self), *final(meta), result),
    ;

    /// Parses like `parse` and keeps a trace of it in `meta`: a line when
    /// the module is entered and one when it is left or has failed, each at
    /// the depth that the module is nested at, under the name of the
    /// module. Modules parsed from within are traced one level deeper.
    fn parse_debug(&mut self, meta: &mut M) -> (result: SyntaxResult)
        ensures
            exists|inner: M, parsed: M, name: Seq<char>, again: Seq<char>|
                {
                    &&& Self::names(name)
                    &&& Self::names(again)
                    &&& #[trigger] entered(*old(meta), inner, traced_depth(*old(meta)), name)
                    &&& #[trigger] Self::parses(*old(self), inner, *final(self), parsed, result)
                    &&& #[trigger] left(
                        parsed,
                        *final(meta),
                        traced_depth(*old(meta)),
                        again,
                        result,
                    )
                },
            final(meta).debug_depth() == Some(traced_depth(*old(meta))),
            final(meta).debug_log().len() > 0,
            final(meta).debug_log().last().depth == traced_depth(*old(meta)),
            final(meta).debug_log().last().event == outcome_event(result),
    {
        let name = Self::name();
        let depth = enter_debug(meta, name);
        let ghost inner = *meta;
        let result = self.parse(meta);
        let ghost done = *meta;
        let again = Self::name();
        leave_debug(meta, depth, again, &result);
        proof {
            assert(entered(*old(meta), inner, traced_depth(*old(meta)), name@));
            assert(Self::parses(*old(self), inner, *self, done, result));
            assert(left(done, *meta, traced_depth(*old(meta)), again@, result));
        }
        result
    }
}

/// A traced parse of a module: the module is entered in the trace under
/// one of its names, parsed one level deeper, and left in the trace under
/// one of its names with the result of its parse.
pub open spec fn traced_parse<M: Metadata, S: SyntaxModule<M>>(
    before: S,
    meta: M,
    after: S,
    done: M,
    result: SyntaxResult,
) -> bool {
    exists|inner: M, parsed: M, name: Seq<char>, again: Seq<char>|
        {
            &&& S::names(name)
            &&& S::names(again)
            &&& #[trigger] entered(meta, inner, traced_depth(meta), name)
            &&& #[trigger] S::parses(before, inner, after, parsed, result)
            &&& #[trigger] left(parsed, done, traced_depth(meta), again, result)
        }
}

} // verus!
