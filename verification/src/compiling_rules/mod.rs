//! Rules for lexing: the symbols, compound pairs and region tree that tell
//! the lexer how to cut source text into tokens.

pub mod region;
pub mod rules;

pub use region::{Region, RegionMap};
pub use rules::Rules;
