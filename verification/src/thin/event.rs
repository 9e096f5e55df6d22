//! What the engine reports while it works.

use vstd::prelude::*;
use crate::thin::Symbol;

verus! {

/// An event of the engine.
#[derive(Debug, Clone, Copy, PartialEq, Eq)]
pub enum Event {
    /// Nothing happened.
    NoEvent,
    /// The symbol is counted and may match the empty input.
    CountedNullable(Symbol),
    /// There are more Earley items than the threshold allows.
    EarleyItemThreshold(i32),
    /// The recognizer can take no more input.
    Exhausted,
    /// The grammar has this many rules that loop.
    LoopRules(i32),
    /// The symbol is a terminal that matches only the empty input.
    NullingTerminal(Symbol),
    /// The symbol was completed.
    SymbolCompleted(Symbol),
    /// The symbol is expected next.
    SymbolExpected(Symbol),
    /// The symbol matched the empty input.
    SymbolNulled(Symbol),
    /// The symbol was predicted.
    SymbolPredicted(Symbol),
}

/// The engine's codes for its events.
pub const EVENT_NONE: i32 = 0;

pub const EVENT_COUNTED_NULLABLE: i32 = 1;

pub const EVENT_EARLEY_ITEM_THRESHOLD: i32 = 2;

pub const EVENT_EXHAUSTED: i32 = 3;

pub const EVENT_LOOP_RULES: i32 = 4;

pub const EVENT_NULLING_TERMINAL: i32 = 5;

pub const EVENT_SYMBOL_COMPLETED: i32 = 6;

pub const EVENT_SYMBOL_EXPECTED: i32 = 7;

pub const EVENT_SYMBOL_NULLED: i32 = 8;

pub const EVENT_SYMBOL_PREDICTED: i32 = 9;

impl Event {
    /// The event that the engine means by code `kind` and value `value`, or
    /// nothing where the engine has no such code.
    pub fn from_code(kind: i32, value: i32) -> (r: Option<Event>)
        ensures
            r == Self::decode(kind, value),
    {
        if kind == EVENT_NONE {
            Some(Event::NoEvent)
        } else if kind == EVENT_COUNTED_NULLABLE {
            Some(Event::CountedNullable(value))
        } else if kind == EVENT_EARLEY_ITEM_THRESHOLD {
            Some(Event::EarleyItemThreshold(value))
        } else if kind == EVENT_EXHAUSTED {
            Some(Event::Exhausted)
        } else if kind == EVENT_LOOP_RULES {
            Some(Event::LoopRules(value))
        } else if kind == EVENT_NULLING_TERMINAL {
            Some(Event::NullingTerminal(value))
        } else if kind == EVENT_SYMBOL_COMPLETED {
            Some(Event::SymbolCompleted(value))
        } else if kind == EVENT_SYMBOL_EXPECTED {
            Some(Event::SymbolExpected(value))
        } else if kind == EVENT_SYMBOL_NULLED {
            Some(Event::SymbolNulled(value))
        } else if kind == EVENT_SYMBOL_PREDICTED {
            Some(Event::SymbolPredicted(value))
        } else {
            None
        }
    }

    /// The reading of the engine's event codes.
    pub open spec fn decode(kind: i32, value: i32) -> Option<Event> {
        if kind == EVENT_NONE {
            Some(Event::NoEvent)
        } else if kind == EVENT_COUNTED_NULLABLE {
            Some(Event::CountedNullable(value))
        } else if kind == EVENT_EARLEY_ITEM_THRESHOLD {
            Some(Event::EarleyItemThreshold(value))
        } else if kind == EVENT_EXHAUSTED {
            Some(Event::Exhausted)
        } else if kind == EVENT_LOOP_RULES {
            Some(Event::LoopRules(value))
        } else if kind == EVENT_NULLING_TERMINAL {
            Some(Event::NullingTerminal(value))
        } else if kind == EVENT_SYMBOL_COMPLETED {
            Some(Event::SymbolCompleted(value))
        } else if kind == EVENT_SYMBOL_EXPECTED {
            Some(Event::SymbolExpected(value))
        } else if kind == EVENT_SYMBOL_NULLED {
            Some(Event::SymbolNulled(value))
        } else if kind == EVENT_SYMBOL_PREDICTED {
            Some(Event::SymbolPredicted(value))
        } else {
            None
        }
    }
}

} // verus!
