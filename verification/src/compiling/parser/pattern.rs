//! The primitives that match tokens and parse syntax modules.

use std::cmp::Ordering;
use vstd::prelude::*;
use crate::compiling::failing::failure::{Failure, FailureView};
use crate::compiling::failing::position_info::{PositionInfo, current_token, token_span};
use crate::compiling::parser::metadata::{Metadata, same_but_cursor};
use crate::compiling::parser::syntax_module::{SyntaxModule, traced_parse};
use crate::text::{chars_of, same_text};

verus! {

/// The quiet failure that reports a mismatch at the cursor of `meta`: it
/// carries the span of the token under the cursor, or the end of the file.
pub open spec fn mismatch<M: Metadata>(meta: M) -> FailureView {
    FailureView::Quiet(token_span(meta.path(), meta.code(), current_token(meta)))
}

/// The state `after` is the state `before` with the cursor one token on.
pub open spec fn advanced<M: Metadata>(before: M, after: M) -> bool {
    same_but_cursor(after, before) && after.cursor() == before.cursor() + 1
}

/// The token under the cursor of `meta` has the word `text`.
pub open spec fn token_matches<M: Metadata>(meta: M, text: Seq<char>) -> bool {
    current_token(meta) matches Some(token) && token.word == text
}

/// A line feed followed by nothing but spaces.
pub open spec fn is_indent_word(word: Seq<char>) -> bool {
    &&& word.len() >= 1
    &&& word[0] == '\n'
    &&& forall|i: int| 1 <= i < word.len() ==> word[i] == ' '
}

/// Matches the token under the cursor against `text`. On a match the
/// cursor moves on and the word is returned; else the failure is quiet and
/// nothing changes.
pub fn token<M: Metadata>(meta: &mut M, text: &str) -> (result: Result<String, Failure>)
    ensures
        match result {
            Ok(word) => {
                &&& token_matches(*old(meta), text@)
                &&& word@ == text@
                &&& advanced(*old(meta), *final(meta))
            },
            Err(failure) => {
                &&& !token_matches(*old(meta), text@)
                &&& failure@ == mismatch(*old(meta))
                &&& *final(meta) == *old(meta)
            },
        },
{
    match meta.get_current_token() {
        Some(token) => {
            if same_text(token.word.as_str(), text) {
                meta.increment_index();
                Ok(token.word)
            } else {
                Err(Failure::Quiet(PositionInfo::from_token(meta, Some(token))))
            }
        },
        None => Err(Failure::Quiet(PositionInfo::at_eof(meta))),
    }
}

/// Matches the token under the cursor by the predicate `cb` on its word.
/// On a match the cursor moves on and the word is returned; else the
/// failure is quiet and nothing changes.
pub fn token_by<M: Metadata, F: Fn(&String) -> bool>(meta: &mut M, cb: F) -> (result: Result<
    String,
    Failure,
>)
    requires
        forall|word: &String| call_requires(cb, (word,)),
    ensures
        match result {
            Ok(word) => {
                &&& current_token(*old(meta)) matches Some(token)
                &&& word@ == token.word
                &&& call_ensures(cb, (&word,), true)
                &&& advanced(*old(meta), *final(meta))
            },
            Err(failure) => {
                &&& current_token(*old(meta)) matches Some(token) ==> exists|word: &String|
                    word@ == token.word && call_ensures(cb, (word,), false)
                &&& failure@ == mismatch(*old(meta))
                &&& *final(meta) == *old(meta)
            },
        },
{
    match meta.get_current_token() {
        Some(token) => {
            if cb(&token.word) {
                meta.increment_index();
                Ok(token.word)
            } else {
                Err(Failure::Quiet(PositionInfo::from_token(meta, Some(token))))
            }
        },
        None => Err(Failure::Quiet(PositionInfo::at_eof(meta))),
    }
}

/// What is left of a parse once a syntax module is done: its result as it
/// is, and on failure the cursor back where it stood, at `index`.
pub fn restore_on_failure<M: Metadata>(meta: &mut M, index: usize, result: Result<(), Failure>) -> (settled:
    Result<(), Failure>)
    ensures
        settled == result,
        match result {
            Ok(_) => *final(meta) == *old(meta),
            Err(_) => final(meta).cursor() == index && same_but_cursor(*final(meta), *old(meta)),
        },
{
    if result.is_err() {
        meta.set_index(index);
    }
    result
}

/// A parse of a module as `syntax` runs it: traced where the state says
/// so, plain where not.
pub open spec fn runs<M: Metadata, S: SyntaxModule<M>>(
    before: S,
    meta: M,
    after: S,
    done: M,
    result: Result<(), Failure>,
) -> bool {
    if meta.debug_depth() is Some {
        traced_parse::<M, S>(before, meta, after, done, result)
    } else {
        S::parses(before, meta, after, done, result)
    }
}

/// What is left of the state `done` that a module ended in: the state as
/// it is where the module succeeded, and the state with the cursor back at
/// `index` where it failed.
pub open spec fn settles<M: Metadata>(done: M, after: M, index: usize, result: Result<(), Failure>) -> bool {
    match result {
        Ok(_) => after == done,
        Err(_) => after.cursor() == index && same_but_cursor(after, done),
    }
}

/// Parses the syntax module `module`, traced if `meta` says so. The result
/// is that of the module. If the module succeeds, the state is as the
/// module left it; if it fails, the cursor is put back where it stood and
/// the failure is handed on.
pub fn syntax<M: Metadata, S: SyntaxModule<M>>(meta: &mut M, module: &mut S) -> (result: Result<
    (),
    Failure,
>)
    ensures
        exists|done: M|
            #[trigger] runs::<M, S>(*old(module), *old(meta), *final(module), done, result)
                && settles(done, *final(meta), old(meta).cursor(), result),
        result is Err ==> final(meta).cursor() == old(meta).cursor(),
{
    let index = meta.get_index();
    let result = match meta.get_debug() {
        Some(_) => module.parse_debug(meta),
        None => module.parse(meta),
    };
    let ghost done = *meta;
    let settled = restore_on_failure(meta, index, result);
    proof {
        assert(runs::<M, S>(*old(module), *old(meta), *module, done, settled));
        assert(settles(done, *meta, old(meta).cursor(), settled));
    }
    settled
}

/// Idempotence of `token`: after a successful match, with the cursor put
/// back where it stood, the same token matches again, and a mismatch would
/// be reported at the same place.
pub proof fn lemma_token_idempotent<M: Metadata>(before: M, after: M, rewound: M, text: Seq<char>)
    requires
        token_matches(before, text),
        advanced(before, after),
        same_but_cursor(rewound, after),
        rewound.cursor() == before.cursor(),
    ensures
        token_matches(rewound, text),
        mismatch(rewound) == mismatch(before),
        forall|again: M| advanced(rewound, again) ==> again.cursor() == after.cursor(),
{
}

/// Whether `word` is a line feed followed by nothing but spaces.
pub fn is_indent(word: &String) -> (fits: bool)
    ensures
        fits == is_indent_word(word@),
{
    let chars = chars_of(word.as_str());
    if chars.len() == 0 || chars[0] != '\n' {
        return false;
    }
    let mut i: usize = 1;
    while i < chars.len()
        invariant
            1 <= i <= chars@.len(),
            chars@ == word@,
            forall|k: int| 1 <= k < i ==> chars@[k] == ' ',
        decreases chars@.len() - i,
    {
        if chars[i] != ' ' {
            return false;
        }
        i += 1;
    }
    true
}

/// Matches an indentation: a token that is a line feed followed by
/// spaces. Returns the number of spaces.
pub fn indent<M: Metadata>(meta: &mut M) -> (result: Result<usize, Failure>)
    ensures
        match result {
            Ok(spaces) => {
                &&& current_token(*old(meta)) matches Some(token)
                &&& is_indent_word(token.word)
                &&& spaces == token.word.len() - 1
                &&& advanced(*old(meta), *final(meta))
            },
            Err(failure) => {
                &&& current_token(*old(meta)) matches Some(token) ==> !is_indent_word(token.word)
                &&& failure@ == mismatch(*old(meta))
                &&& *final(meta) == *old(meta)
            },
        },
{
    let fun = |word: &String| -> (fits: bool)
        ensures
            fits == is_indent_word(word@),
        { is_indent(word) };
    match token_by(meta, fun) {
        Ok(word) => Ok(word.as_str().unicode_len() - 1),
        Err(failure) => Err(failure),
    }
}

/// Matches an indentation and compares its number of spaces with `size`.
pub fn indent_with<M: Metadata>(meta: &mut M, size: usize) -> (result: Result<Ordering, Failure>)
    ensures
        match result {
            Ok(order) => {
                &&& current_token(*old(meta)) matches Some(token)
                &&& is_indent_word(token.word)
                &&& order == Ordering::Less <==> token.word.len() - 1 < size
                &&& order == Ordering::Equal <==> token.word.len() - 1 == size
                &&& order == Ordering::Greater <==> token.word.len() - 1 > size
                &&& advanced(*old(meta), *final(meta))
            },
            Err(failure) => {
                &&& current_token(*old(meta)) matches Some(token) ==> !is_indent_word(token.word)
                &&& failure@ == mismatch(*old(meta))
                &&& *final(meta) == *old(meta)
            },
        },
{
    match indent(meta) {
        Ok(spaces) => {
            if spaces < size {
                Ok(Ordering::Less)
            } else if spaces == size {
                Ok(Ordering::Equal)
            } else {
                Ok(Ordering::Greater)
            }
        },
        Err(details) => Err(details),
    }
}

} // verus!
