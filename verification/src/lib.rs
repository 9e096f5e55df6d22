//! Ambiguous syntax forests over the packed parse forest of an Earley-style
//! recognizer, together with the small parsing toolkit around them.

pub mod asf;
pub mod forest;
pub mod grammar;
pub mod lexer;
pub mod nid;
pub mod parser;
pub mod result;
pub mod stack;
pub mod thin;
pub mod tree_builder;
