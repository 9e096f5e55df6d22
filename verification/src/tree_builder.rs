//! Building a syntax tree from the steps of an evaluation.

pub mod builder;
pub mod render;
pub mod tree;

pub use crate::tree_builder::builder::TreeBuilder;
pub use crate::tree_builder::tree::{Handle, Node};
