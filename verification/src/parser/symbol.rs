//! Symbols, as the parser names them.

use vstd::prelude::*;
use vstd::string::StringSliceAdditionalSpecFns;
use vstd::std_specs::convert::FromSpecImpl;
use crate::thin;

verus! {

/// The id of a symbol.
#[derive(Copy, Clone, Debug, PartialEq, Eq)]
pub struct Symbol(pub thin::Symbol);

impl From<thin::Symbol> for Symbol {
    fn from(other: thin::Symbol) -> (s: Self) {
        Symbol(other)
    }
}

impl FromSpecImpl<thin::Symbol> for Symbol {
    open spec fn obeys_from_spec() -> bool {
        true
    }

    open spec fn from_spec(other: thin::Symbol) -> Self {
        Symbol(other)
    }
}

impl From<u8> for Symbol {
    fn from(other: u8) -> (s: Self) {
        Symbol(other as i32)
    }
}

impl FromSpecImpl<u8> for Symbol {
    open spec fn obeys_from_spec() -> bool {
        true
    }

    open spec fn from_spec(other: u8) -> Self {
        Symbol(other as i32)
    }
}

impl Symbol {
    /// The id itself.
    pub fn id(&self) -> (s: thin::Symbol)
        ensures
            s == self.0,
    {
        self.0
    }

    /// The symbols of the bytes of `s`.
    pub fn from_str(s: &str) -> (syms: Vec<Symbol>)
        ensures
            syms@.len() == s.spec_bytes().len(),
            forall|i: int| 0 <= i < syms@.len() ==> (#[trigger] syms@[i]).0 == s.spec_bytes()[i],
    {
        let bytes = s.as_bytes();
        let mut syms: Vec<Symbol> = Vec::new();
        let mut i: usize = 0;
        while i < bytes.len()
            invariant
                i <= bytes@.len(),
                bytes@ == s.spec_bytes(),
                syms@.len() == i,
                forall|k: int| 0 <= k < i ==> (#[trigger] syms@[k]).0 == bytes@[k],
            decreases bytes@.len() - i,
        {
            syms.push(Symbol(bytes[i] as i32));
            i += 1;
        }
        syms
    }
}

} // verus!
