//! Nidsets and powersets: canonical sets of ids, each known by one id.

use vstd::prelude::*;

verus! {

/// A set of nids in canonical form, together with the id it is known by.
#[derive(Debug, Clone, PartialEq, Eq)]
pub struct Nidset {
    /// The members, strictly increasing.
    pub nids: Vec<i32>,
    /// The id of the set.
    pub id: usize,
}

impl Nidset {
    /// The member at `index`.
    pub fn get_nid(&self, index: usize) -> (nid: i32)
        requires
            index < self.nids@.len(),
        ensures
            nid == self.nids@[index as int],
    {
        self.nids[index]
    }

    /// How many members the set has.
    pub fn count(&self) -> (n: usize)
        ensures
            n == self.nids@.len(),
    {
        self.nids.len()
    }
}

/// A set of symch ids in canonical form, together with the id it is known by.
#[derive(Debug, Clone, PartialEq, Eq)]
pub struct Powerset {
    /// The ids of the symches, strictly increasing.
    pub symches: Vec<usize>,
    /// The id of the set.
    pub id: usize,
}

impl Powerset {
    /// How many symches are in this powerset.
    pub fn count(&self) -> (n: usize)
        ensures
            n == self.symches@.len(),
    {
        self.symches.len()
    }
}

} // verus!
