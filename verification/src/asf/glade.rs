//! Glades and symches: what a visitor of the forest sees.

use vstd::prelude::*;
use crate::forest::NONE;

verus! {

/// One point of choice in a glade: the members of the glade that stand at one
/// grammar position, and the ways in which they split into children.
#[derive(Debug, Clone, PartialEq, Eq)]
pub struct Symch {
    /// The id of the nidset that holds the members of the symch.
    pub nidset: usize,
    /// The rule that drives the symch, or `TOKEN_RULE_ID` for token leaves.
    pub rule_id: i32,
    /// The factorings, each a list of the ids of the child glades from left
    /// to right.
    pub factorings: Vec<Vec<usize>>,
    /// Whether there are more factorings than are listed.
    pub omitted: bool,
}

impl Symch {
    /// The rule that drives the symch.
    pub fn rule_id(&self) -> (r: i32)
        ensures
            r == self.rule_id,
    {
        self.rule_id
    }

    /// How many factorings are listed.
    pub fn factoring_count(&self) -> (n: usize)
        ensures
            n == self.factorings@.len(),
    {
        self.factorings.len()
    }

    /// Whether factorings were left out because there are too many.
    pub fn factorings_omitted(&self) -> (b: bool)
        ensures
            b == self.omitted,
    {
        self.omitted
    }
}

/// The unit of traversal.  A glade belongs to one nidset and shares its id.
#[derive(Debug, Clone, PartialEq, Eq)]
pub struct Glade {
    /// The id of the glade, which is the id of its nidset.
    pub id: usize,
    /// The external id of the token the glade stands for, or `NONE`.
    pub symbol_id: i32,
    /// Whether the glade has been reached from the peak.
    pub registered: bool,
    /// Whether a visitor has marked the glade.
    pub visited: bool,
    /// The symches, once they have been computed.
    pub symches: Option<Vec<Symch>>,
}

impl Default for Glade {
    fn default() -> (g: Glade)
        ensures
            g.id == 0,
            g.symbol_id == NONE,
            !g.registered,
            !g.visited,
            g.symches is None,
    {
        Glade { id: 0, symbol_id: NONE, registered: false, visited: false, symches: None }
    }
}

impl Glade {
    /// The id under which the glade is kept.
    pub fn rule_id(&self) -> (r: usize)
        ensures
            r == self.id,
    {
        self.id
    }

    /// The external id of the token the glade stands for, or `NONE`.
    pub fn symbol_id(&self) -> (r: i32)
        ensures
            r == self.symbol_id,
    {
        self.symbol_id
    }

    /// How many symches the glade has; none before they are computed.
    pub fn symch_count(&self) -> (n: usize)
        ensures
            self.symches matches Some(s) ==> n == s@.len(),
            self.symches is None ==> n == 0,
    {
        match &self.symches {
            Some(s) => s.len(),
            None => 0,
        }
    }
}

} // verus!
