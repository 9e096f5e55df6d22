//! What the recognizer needs to know of a token.

use vstd::prelude::*;
use crate::thin::Symbol;

verus! {

/// A token: a symbol of the grammar together with a value.  A token can be
/// made from the two.
pub trait Token: From<(Symbol, i32)> + core::fmt::Debug {
    /// Whether `s` is the symbol of the token.  A kind of token that says
    /// nothing of itself may have any symbol.
    open spec fn is_sym(&self, s: Symbol) -> bool {
        true
    }

    /// Whether `v` is the value of the token.  A kind of token that says
    /// nothing of itself may have any value.
    open spec fn is_value(&self, v: i32) -> bool {
        true
    }

    /// The symbol that the token is an instance of.
    fn sym(&self) -> (s: Symbol)
        ensures
            self.is_sym(s),
    ;

    /// The value that the token carries.
    fn value(&self) -> (v: i32)
        ensures
            self.is_value(v),
    ;
}

} // verus!
