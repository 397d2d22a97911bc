//! Tokens, the units that the lexer produces and the parser consumes.

use vstd::prelude::*;
use vstd::string::StringExecFns;
use crate::text::{decimal, push_decimal};

verus! {

/// A piece of the source text with the place where it was found.
#[derive(PartialEq, Eq, Default, Debug)]
pub struct Token {
    /// The text of the token, exactly as it stands in the source.
    pub word: String,
    /// Row and column of the token, both counted from one.
    pub pos: (usize, usize),
    /// Index in the source of the character that the token starts with,
    /// counted in characters from zero.
    pub start: usize,
}

/// A token as a mathematical value.
pub struct TokenView {
    pub word: Seq<char>,
    pub pos: (nat, nat),
    pub start: nat,
}

impl View for Token {
    type V = TokenView;

    open spec fn view(&self) -> TokenView {
        TokenView {
            word: self.word@,
            pos: (self.pos.0 as nat, self.pos.1 as nat),
            start: self.start as nat,
        }
    }
}

/// The views of a sequence of tokens, in order.
pub open spec fn token_views(tokens: Seq<Token>) -> Seq<TokenView> {
    tokens.map_values(|t: Token| t@)
}

impl Clone for Token {
    fn clone(&self) -> (out: Token)
        ensures
            out == *self,
    {
        Token { word: self.word.clone(), pos: self.pos, start: self.start }
    }
}

/// How a token's word is shown: whitespace and bracket-like symbols are
/// spelled out, every other word stands for itself.
pub open spec fn shown_word(word: Seq<char>) -> Seq<char> {
    if word == seq!['\n'] {
        "<new_line>"@
    } else if word == seq!['\t'] {
        "<tab>"@
    } else if word == seq![' '] {
        "<space>"@
    } else if word.len() == 1 && is_bracket_like(word[0]) {
        "<symbol: "@ + word + " >"@
    } else {
        word
    }
}

/// The one-character words that are shown as symbols.
pub open spec fn is_bracket_like(c: char) -> bool {
    c == '[' || c == ']' || c == '<' || c == '>' || c == '{' || c == '}' || c == '(' || c == ')'
        || c == ':' || c == ';'
}

/// The text that describes a token: `Tok[word row:col]`.
pub open spec fn shown_token(token: TokenView) -> Seq<char> {
    "Tok["@ + shown_word(token.word) + seq![' '] + decimal(token.pos.0) + seq![':'] + decimal(
        token.pos.1,
    ) + seq![']']
}

impl Token {
    /// Describes the token as `Tok[word row:col]`, with whitespace and
    /// bracket-like symbols spelled out.
    pub fn format(&self) -> (out: String)
        ensures
            out@ == shown_token(self@),
    {
        let word = self.word.as_str();
        let mut out = String::from_str("Tok[");
        let n = word.unicode_len();
        if n == 1 {
            let c = word.get_char(0);
            assert(word@ =~= seq![c]);
            if c == '\n' {
                out.append("<new_line>");
            } else if c == '\t' {
                out.append("<tab>");
            } else if c == ' ' {
                out.append("<space>");
            } else if c == '[' || c == ']' || c == '<' || c == '>' || c == '{' || c == '}' || c
                == '(' || c == ')' || c == ':' || c == ';' {
                out.append("<symbol: ");
                out.append(word);
                out.append(" >");
            } else {
                out.append(word);
            }
        } else {
            out.append(word);
        }
        out.push(' ');
        push_decimal(&mut out, self.pos.0);
        out.push(':');
        push_decimal(&mut out, self.pos.1);
        out.push(']');
        proof {
            assert(out@ =~= shown_token(self@));
        }
        out
    }
}

} // verus!
