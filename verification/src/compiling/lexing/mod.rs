//! The lexer and the parts it is made of.

pub mod reader;
pub mod region_handler;
pub mod compound_handler;
pub mod machine;
pub mod lexer;
pub mod order;
pub mod pieces;
pub mod dropped;
pub mod balance;
pub mod positions;

pub use reader::{ReadMode, Reader};
pub use region_handler::{RegionHandler, RegionReaction};
pub use compound_handler::{CompoundHandler, CompoundReaction};
pub use machine::LexerErrorType;
pub use lexer::{Lexer, LexerError};
