//! The steps of an evaluation.

use vstd::prelude::*;
use crate::thin::{Rule, Symbol, TokValue};

verus! {

/// One instruction for the evaluation stack.
#[derive(Debug, Clone, Copy, PartialEq, Eq)]
pub enum Step {
    /// Reduce by a rule: the children stand in the slots from the first
    /// number to the second, and the result goes to the first.
    Rule(Rule, i32, i32),
    /// Put a token with its value into a slot.
    Token(Symbol, i32, TokValue),
    /// Put a symbol that matched the empty input into a slot.
    NullingSymbol(Symbol, i32),
    /// The evaluation is over.
    Inactive,
    /// The evaluation has not begun.
    Initial,
}

/// The engine's codes for the kinds of steps.
pub const STEP_RULE: i32 = 1;

pub const STEP_TOKEN: i32 = 2;

pub const STEP_NULLING_SYMBOL: i32 = 3;

pub const STEP_INACTIVE: i32 = 5;

pub const STEP_INITIAL: i32 = 7;

/// What the engine says of a step, in its own numbers.
#[derive(Debug, Clone, Copy, PartialEq, Eq)]
pub struct RawStep {
    /// The kind of step.
    pub kind: i32,
    /// The rule, for a step of that kind.
    pub rule_id: i32,
    /// The symbol, for a token or a symbol that matched the empty input.
    pub token_id: i32,
    /// The value of the token.
    pub token_value: i32,
    /// The slot for the result, which is the slot of the first child.
    pub result: i32,
    /// The slot of the last child.
    pub arg_n: i32,
}

impl Step {
    /// The reading of the engine's steps: the step that the engine means,
    /// or nothing where the kind is one that evaluation has no use for.
    pub open spec fn decode(raw: RawStep) -> Option<Step> {
        if raw.kind == STEP_RULE {
            Some(Step::Rule(raw.rule_id, raw.result, raw.arg_n))
        } else if raw.kind == STEP_TOKEN {
            Some(Step::Token(raw.token_id, raw.result, raw.token_value))
        } else if raw.kind == STEP_NULLING_SYMBOL {
            Some(Step::NullingSymbol(raw.token_id, raw.result))
        } else if raw.kind == STEP_INACTIVE {
            Some(Step::Inactive)
        } else if raw.kind == STEP_INITIAL {
            Some(Step::Initial)
        } else {
            None
        }
    }

    /// Reads a step of the engine.
    pub fn from_raw(raw: RawStep) -> (r: Option<Step>)
        ensures
            r == Self::decode(raw),
    {
        if raw.kind == STEP_RULE {
            Some(Step::Rule(raw.rule_id, raw.result, raw.arg_n))
        } else if raw.kind == STEP_TOKEN {
            Some(Step::Token(raw.token_id, raw.result, raw.token_value))
        } else if raw.kind == STEP_NULLING_SYMBOL {
            Some(Step::NullingSymbol(raw.token_id, raw.result))
        } else if raw.kind == STEP_INACTIVE {
            Some(Step::Inactive)
        } else if raw.kind == STEP_INITIAL {
            Some(Step::Initial)
        } else {
            None
        }
    }

    /// Whether the step is one that the evaluation stack carries out.
    pub fn is_work(&self) -> (b: bool)
        ensures
            b == !(*self is Inactive || *self is Initial),
    {
        match self {
            Step::Inactive => false,
            Step::Initial => false,
            _ => true,
        }
    }

    /// A reduction by rule `ruleid` of the slots from `loc` to `last`.
    pub fn rule(ruleid: Rule, loc: i32, last: i32) -> (s: Step)
        ensures
            s == Step::Rule(ruleid, loc, last),
    {
        Step::Rule(ruleid, loc, last)
    }

    /// The token `symid` with value `value`, for slot `loc`.
    pub fn token(symid: Symbol, loc: i32, value: TokValue) -> (s: Step)
        ensures
            s == Step::Token(symid, loc, value),
    {
        Step::Token(symid, loc, value)
    }

    /// The empty symbol `symid`, for slot `loc`.
    pub fn nulling_symbol(symid: Symbol, loc: i32) -> (s: Step)
        ensures
            s == Step::NullingSymbol(symid, loc),
    {
        Step::NullingSymbol(symid, loc)
    }

    /// The highest slot that the step touches, where the step touches any
    /// and names its slots by numbers that are not negative and in order.
    pub open spec fn last_slot(self) -> Option<int> {
        match self {
            Step::Rule(_, start, end) => if 0 <= start <= end {
                Some(end as int)
            } else {
                None
            },
            Step::Token(_, res, _) => if 0 <= res {
                Some(res as int)
            } else {
                None
            },
            Step::NullingSymbol(_, res) => if 0 <= res {
                Some(res as int)
            } else {
                None
            },
            Step::Inactive => None,
            Step::Initial => None,
        }
    }
}

} // verus!
