//! What makes the trees of an evaluation.

use vstd::prelude::*;
use crate::lexer::token::Token;
use crate::result::Fault;
use crate::thin::{Rule, Symbol};

verus! {

/// A maker of trees.  The evaluation stack calls it once for every step; a
/// step that it refuses ends the evaluation.
pub trait Processor: Sized {
    /// The tokens that the processor understands.
    type Token: Token;

    /// The trees that the processor makes.
    type Tree: Clone + Default;

    /// What the processor may make of rule `rule` over `children`, and how
    /// it may change in doing so.  A processor that says nothing of itself
    /// may do anything.
    open spec fn makes_rule(
        before: Self,
        rule: Rule,
        children: Seq<Self::Tree>,
        after: Self,
        r: Result<Self::Tree, Fault>,
    ) -> bool {
        true
    }

    /// What the processor may make of the token `tok`.
    open spec fn makes_token(
        before: Self,
        tok: Self::Token,
        after: Self,
        r: Result<Self::Tree, Fault>,
    ) -> bool {
        true
    }

    /// What the processor may make of the symbol `sym`.
    open spec fn makes_null(before: Self, sym: Symbol, after: Self, r: Result<Self::Tree, Fault>) -> bool {
        true
    }

    /// The tree of rule `rule` over the trees `children`.
    fn proc_rule(&mut self, rule: Rule, children: &[Self::Tree]) -> (r: Result<Self::Tree, Fault>)
        ensures
            Self::makes_rule(*old(self), rule, children@, *final(self), r),
    ;

    /// The tree of the token `tok`.
    fn proc_token(&mut self, tok: Self::Token) -> (r: Result<Self::Tree, Fault>)
        ensures
            Self::makes_token(*old(self), tok, *final(self), r),
    ;

    /// The tree of the symbol `sym`, which matched the empty input.
    fn proc_null(&mut self, sym: Symbol) -> (r: Result<Self::Tree, Fault>)
        ensures
            Self::makes_null(*old(self), sym, *final(self), r),
    ;
}

} // verus!
