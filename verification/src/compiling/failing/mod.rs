//! Failures of lexing and parsing, and the messages that report them.

pub mod position_info;
pub mod message;
pub mod failure;
pub mod paint;
pub mod logger;
