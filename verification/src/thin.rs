//! The plain values that travel between the engine and the rest of the
//! toolkit: ids, the steps of an evaluation, events, progress reports and
//! the grammar under construction.

pub mod desc;
pub mod event;
pub mod grammar;
pub mod progress;
pub mod step;

pub use crate::thin::event::Event;
pub use crate::thin::grammar::Grammar;
pub use crate::thin::progress::{ProgressItem, ProgressReport};
pub use crate::thin::step::Step;

use vstd::prelude::*;

verus! {

/// The id of a symbol.
pub type Symbol = i32;

/// The id of a rule.
pub type Rule = i32;

/// The value that a token carries.
pub type TokValue = i32;

/// The id of an Earley set.
pub type EarleySet = i32;

/// A position in the input.
pub type Earleme = i32;

} // verus!
