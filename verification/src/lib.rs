//! A compiler frontend: a configurable lexer that turns source text into a
//! stream of positioned tokens, and backtracking primitives for writing
//! recursive-descent parsers on top of that stream.
//!
//! The lexer is driven by `Rules`: the characters that stand alone as
//! symbols, the pairs of characters that merge into compound tokens, and a
//! tree of regions such as string literals, which may hold interpolations
//! that are lexed in turn. What the lexer returns is stated against a
//! state machine over characters, and the order, the content and the
//! positions of the tokens are proved of every run of that machine.
//!
//! A parser is written as syntax modules that match tokens with the
//! primitives of `compiling::parser`. A primitive that does not match
//! fails quietly and leaves the cursor where it stood, so that the caller
//! can try something else; a module that knows the input to be malformed
//! fails loudly with a message for the user.
//!
//! Messages are laid out as text by `compiling::failing`; showing the text
//! is left to the caller.

pub mod text;
pub mod compiling_rules;
pub mod compiling;
pub mod prelude;
