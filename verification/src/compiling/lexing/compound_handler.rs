//! The recognizer that merges configured pairs of adjacent characters into
//! single tokens, such as `<=` or `&&`.

use vstd::prelude::*;
use crate::compiling::lexing::reader::{Reader, peek_of};
use crate::compiling_rules::rules::Rules;

verus! {

/// What a character means for the compound token in progress.
#[derive(PartialEq, Eq, Clone, Copy, Debug)]
pub enum CompoundReaction {
    /// The character starts a compound token.
    Begin,
    /// The character continues the compound token in progress.
    Keep,
    /// The character is the last one of the compound token in progress.
    End,
    /// The character takes no part in a compound token.
    Pass,
}

/// The reaction to `letter` when `next` is the character after it, and
/// whether a compound token is in progress afterwards. A character that
/// forms a configured pair with its successor begins a compound, or keeps
/// one going; any other character ends the compound in progress, if there
/// is one. Outside tokenized context nothing is merged.
pub open spec fn compound_react(
    compounds: Seq<(char, char)>,
    active: bool,
    letter: char,
    next: Option<char>,
    tokenize: bool,
) -> (CompoundReaction, bool) {
    if !tokenize {
        (CompoundReaction::Pass, false)
    } else if next is Some && compounds.contains((letter, next->0)) {
        if active {
            (CompoundReaction::Keep, true)
        } else {
            (CompoundReaction::Begin, true)
        }
    } else if active {
        (CompoundReaction::End, false)
    } else {
        (CompoundReaction::Pass, false)
    }
}

/// Recognizes compound tokens one character at a time.
pub struct CompoundHandler<'a> {
    compounds: &'a Vec<(char, char)>,
    is_triggered: bool,
}

impl<'a> CompoundHandler<'a> {
    /// The configured pairs.
    pub closed spec fn compounds(&self) -> Seq<(char, char)> {
        self.compounds@
    }

    /// Whether a compound token is in progress.
    pub closed spec fn active(&self) -> bool {
        self.is_triggered
    }

    /// A handler for the compound pairs of `rules`, with no compound token
    /// in progress.
    pub fn new(rules: &'a Rules) -> (handler: CompoundHandler<'a>)
        ensures
            handler.compounds() == rules.compounds@,
            !handler.active(),
    {
        CompoundHandler { compounds: &rules.compounds, is_triggered: false }
    }

    /// Reacts to `letter`, the character that the reader stands on.
    pub fn handle_compound(&mut self, letter: char, reader: &Reader, is_tokenize: bool) -> (reaction:
        CompoundReaction)
        ensures
            final(self).compounds() == old(self).compounds(),
            (reaction, final(self).active()) == compound_react(
                old(self).compounds(),
                old(self).active(),
                letter,
                peek_of(reader.code@, reader.index as int),
                is_tokenize,
            ),
    {
        if !is_tokenize {
            self.is_triggered = false;
            return CompoundReaction::Pass;
        }
        match reader.peek() {
            Some(future_letter) => {
                if self.is_pair(letter, future_letter) {
                    return if self.is_triggered {
                        CompoundReaction::Keep
                    } else {
                        self.is_triggered = true;
                        CompoundReaction::Begin
                    };
                }
            },
            None => {},
        }
        if self.is_triggered {
            self.is_triggered = false;
            CompoundReaction::End
        } else {
            CompoundReaction::Pass
        }
    }

    fn is_pair(&self, left: char, right: char) -> (found: bool)
        ensures
            found == self.compounds().contains((left, right)),
    {
        let mut k: usize = 0;
        while k < self.compounds.len()
            invariant
                k <= self.compounds@.len(),
                forall|j: int| 0 <= j < k ==> self.compounds@[j] != (left, right),
            decreases self.compounds@.len() - k,
        {
            let pair = self.compounds[k];
            if pair.0 == left && pair.1 == right {
                return true;
            }
            k += 1;
        }
        false
    }
}

} // verus!
