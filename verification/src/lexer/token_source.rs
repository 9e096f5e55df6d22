//! Where tokens come from.

use vstd::prelude::*;
use crate::lexer::token::Token;

verus! {

/// A source of tokens: anything that yields tokens one after the other.
pub trait TokenSource<T>: Iterator<Item = T> where T: Token {

}

impl<T, U> TokenSource<U> for T where T: Iterator<Item = U>, U: Token {

}

} // verus!
