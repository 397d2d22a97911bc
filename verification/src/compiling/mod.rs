//! Compiling a language: tokens, the lexer, the parser primitives and the
//! failures that they report.

pub mod token;
pub mod lexing;
pub mod failing;
pub mod compiler;
pub mod parser;

pub use token::{Token, TokenView};
pub use compiler::{Compiler, ScopingMode, SeparatorMode};
