//! Rules, as the parser names them.

use vstd::prelude::*;
use vstd::std_specs::convert::FromSpecImpl;
use crate::thin;

verus! {

/// The id of a rule.
#[derive(Copy, Clone, Debug, PartialEq, Eq)]
pub struct Rule(pub thin::Rule);

impl From<thin::Rule> for Rule {
    fn from(other: thin::Rule) -> (r: Self) {
        Rule(other)
    }
}

impl FromSpecImpl<thin::Rule> for Rule {
    open spec fn obeys_from_spec() -> bool {
        true
    }

    open spec fn from_spec(other: thin::Rule) -> Self {
        Rule(other)
    }
}

impl Rule {
    /// The id itself.
    pub fn id(&self) -> (r: thin::Rule)
        ensures
            r == self.0,
    {
        self.0
    }
}

} // verus!
