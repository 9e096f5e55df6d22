//! Turning input into tokens.

pub mod byte_scanner;
pub mod lex;
pub mod outside;
pub mod pattern;
pub mod token;
pub mod token_source;

pub use crate::lexer::byte_scanner::{ByteScanner, ByteToken};
pub use crate::lexer::lex::{LexGen, Lexer};
