//! Parsing on top of the token stream: the metadata that a parse is
//! carried out on, the primitives that match tokens, and the trait that
//! syntax modules implement.

pub mod metadata;
pub mod syntax_module;
pub mod pattern;
pub mod preset;

pub use metadata::{DebugEvent, DebugRecord, DefaultMetadata, Metadata};
pub use syntax_module::{SyntaxModule, SyntaxResult};
pub use pattern::{indent, indent_with, syntax, token, token_by};
pub use preset::{alphabetic, alphanumeric, float, integer, number, numeric, variable};
