//! Which position each token carries.

use vstd::prelude::*;
use crate::compiling::lexing::balance::{config_wf, steady_indentation};
use crate::compiling::lexing::machine::{LexConfig, lex};
use crate::compiling::lexing::order::end_of;
use crate::compiling::lexing::pieces::lemma_tokens_are_pieces_of_the_text;
use crate::compiling::lexing::reader::{col_at, lemma_position_bounds, row_at};
use crate::compiling::token::TokenView;

verus! {

/// Row and column of the character at index `i` of `code`, both counted
/// from one.
pub open spec fn position_at(code: Seq<char>, i: int) -> (nat, nat) {
    (row_at(code, i), col_at(code, i))
}

/// The token carries the position of its first character.
pub open spec fn accurate(code: Seq<char>, token: TokenView) -> bool {
    token.pos == position_at(code, token.start as int)
}

/// Under indent scoping, a token that is placed as a run of indentation
/// is: at the first column of the row that it ends in, which is the row of
/// the line that it indents.
pub open spec fn indent_token(cfg: LexConfig, code: Seq<char>, token: TokenView) -> bool {
    &&& cfg.indent
    &&& token.word.len() > 0
    &&& token.pos == (row_at(code, end_of(token) - 1), 1nat)
}

/// Each token carries the position of its first character, or is placed
/// as a run of indentation.
pub open spec fn all_placed(cfg: LexConfig, code: Seq<char>, tokens: Seq<TokenView>) -> bool {
    forall|k: int|
        0 <= k < tokens.len() ==> accurate(code, #[trigger] tokens[k]) || indent_token(
            cfg,
            code,
            tokens[k],
        )
}

/// Each token carries the position of its first character, or is a run
/// of indentation: a token that starts with a line feed and is placed at
/// the first column of the row that it ends in.
pub open spec fn all_placed_or_indentation(
    cfg: LexConfig,
    code: Seq<char>,
    tokens: Seq<TokenView>,
) -> bool {
    forall|k: int|
        0 <= k < tokens.len() ==> accurate(code, #[trigger] tokens[k]) || (indent_token(
            cfg,
            code,
            tokens[k],
        ) && tokens[k].word[0] == '\n')
}

/// Position consistency: whatever the rules, every token carries the row
/// and column of its first character, both counted from one. The one
/// exception is a run of indentation under indent scoping, which is
/// placed at the first column of the row that it ends in.
pub proof fn lemma_positions_point_at_tokens(cfg: LexConfig, code: Seq<char>)
    requires
        lex(cfg, code) is Ok,
    ensures
        all_placed(cfg, code, lex(cfg, code)->Ok_0),
{
    lemma_tokens_are_pieces_of_the_text(cfg, code);
}

/// Position consistency under indent scoping: where no region below the
/// root begins or ends at a blank and no compound begins with one, every
/// token carries the row and column of its first character, unless it is a
/// run of indentation: a token that starts with a line feed.
pub proof fn lemma_only_indentation_is_placed_apart(cfg: LexConfig, code: Seq<char>)
    requires
        config_wf(cfg),
        steady_indentation(cfg),
        lex(cfg, code) is Ok,
    ensures
        all_placed_or_indentation(cfg, code, lex(cfg, code)->Ok_0),
{
    lemma_tokens_are_pieces_of_the_text(cfg, code);
}

/// Rows and columns are counted from one.
pub open spec fn from_one(tokens: Seq<TokenView>) -> bool {
    forall|k: int|
        0 <= k < tokens.len() ==> (#[trigger] tokens[k]).pos.0 >= 1 && tokens[k].pos.1 >= 1
}

/// Whatever the rules, the row and the column of every token are at least
/// one.
pub proof fn lemma_positions_count_from_one(cfg: LexConfig, code: Seq<char>)
    requires
        lex(cfg, code) is Ok,
    ensures
        from_one(lex(cfg, code)->Ok_0),
{
    lemma_positions_point_at_tokens(cfg, code);
    let tokens = lex(cfg, code)->Ok_0;
    assert forall|k: int| 0 <= k < tokens.len() implies (#[trigger] tokens[k]).pos.0 >= 1
        && tokens[k].pos.1 >= 1 by {
        lemma_position_bounds(code, tokens[k].start as int);
        if tokens[k].word.len() > 0 {
            lemma_position_bounds(code, end_of(tokens[k]) - 1);
        }
    }
}

/// Under block scoping every token carries the row and column of its
/// first character, and both are at least one.
pub proof fn lemma_positions_under_block_scoping(cfg: LexConfig, code: Seq<char>, k: int)
    requires
        !cfg.indent,
        lex(cfg, code) matches Ok(tokens) && 0 <= k < tokens.len(),
    ensures
        lex(cfg, code) matches Ok(tokens) && accurate(code, tokens[k]) && tokens[k].pos.0 >= 1
            && tokens[k].pos.1 >= 1,
{
    lemma_positions_point_at_tokens(cfg, code);
    let tokens = lex(cfg, code)->Ok_0;
    lemma_position_bounds(code, tokens[k].start as int);
}

} // verus!
