//! The names that a language built on this library needs, in one place.

pub use crate::compiling::compiler::{Compiler, ScopingMode, SeparatorMode};
pub use crate::compiling::failing::failure::Failure;
pub use crate::compiling::failing::message::{Message, MessageType};
pub use crate::compiling::failing::position_info::{Position, PositionInfo};
pub use crate::compiling::lexing::lexer::{Lexer, LexerError};
pub use crate::compiling::lexing::machine::LexerErrorType;
pub use crate::compiling::parser::metadata::{DebugEvent, DebugRecord, DefaultMetadata, Metadata};
pub use crate::compiling::parser::pattern::{indent, indent_with, syntax, token, token_by};
pub use crate::compiling::parser::preset::{
    alphabetic,
    alphanumeric,
    float,
    integer,
    number,
    numeric,
    variable,
};
pub use crate::compiling::parser::syntax_module::{SyntaxModule, SyntaxResult};
pub use crate::compiling::token::Token;
pub use crate::compiling_rules::region::{Region, RegionMap};
pub use crate::compiling_rules::rules::Rules;
