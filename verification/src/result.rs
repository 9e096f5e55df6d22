//! Errors, and the helpers that build failed results.

use vstd::prelude::*;

verus! {

/// The engine's code for a symbol id that names no symbol.
pub const ERR_NO_SUCH_SYMBOL_ID: i32 = 90;

/// The engine's code for a rule id that names no rule.
pub const ERR_NO_SUCH_RULE_ID: i32 = 89;

/// The engine's code for a rule that is not a sequence rule.
pub const ERR_NOT_A_SEQUENCE: i32 = 99;

/// The engine's code for a recognizer that has not been started.
pub const ERR_RECCE_NOT_STARTED: i32 = 61;

/// Everything that can go wrong in this crate.
#[derive(Debug, Clone, PartialEq, Eq)]
pub enum Fault {
    /// A numeric error code of the engine.
    Code(i32),
    /// A failure described in words.
    Message(String),
    /// A syntax forest was asked for a parse of the empty input.
    NullParse,
    /// The tables of a parse forest contradict each other.
    MalformedForest,
    /// No or-node has this id.
    NoSuchOrNode(i32),
    /// No and-node has this id.
    NoSuchAndNode(i32),
    /// No token symbol has this id.
    NoSuchSymbol(i32),
    /// A step of an evaluation names no slot, or names its slots by negative
    /// numbers or out of order.
    InvalidStep,
    /// A rule that is to be read as one token has a kept rule or another
    /// such token below it.
    MarkedNodeInToken,
    /// A pattern was refused, for the reason given.
    Pattern(String),
    /// The parser got a reply that does not answer what it asked.
    UnexpectedReply,
}

/// A failure that carries `msg`.
pub fn err<T>(msg: &str) -> (r: Result<T, Fault>)
    ensures
        r matches Err(Fault::Message(m)) && m@ == msg@,
{
    Err(Fault::Message(msg.to_owned()))
}

/// A failure that carries the engine's error code `code`.
pub fn err_code<T>(code: i32) -> (r: Result<T, Fault>)
    ensures
        r matches Err(e) && e == Fault::Code(code),
{
    Err(Fault::Code(code))
}

/// The failure for an unknown symbol id.
pub fn err_nosym<T>() -> (r: Result<T, Fault>)
    ensures
        r matches Err(e) && e == Fault::Code(ERR_NO_SUCH_SYMBOL_ID),
{
    err_code(ERR_NO_SUCH_SYMBOL_ID)
}

/// The failure for an unknown rule id.
pub fn err_norule<T>() -> (r: Result<T, Fault>)
    ensures
        r matches Err(e) && e == Fault::Code(ERR_NO_SUCH_RULE_ID),
{
    err_code(ERR_NO_SUCH_RULE_ID)
}

/// The failure for a rule that is not a sequence rule.
pub fn err_notaseq<T>() -> (r: Result<T, Fault>)
    ensures
        r matches Err(e) && e == Fault::Code(ERR_NOT_A_SEQUENCE),
{
    err_code(ERR_NOT_A_SEQUENCE)
}

/// The failure for a recognizer that was used before it was started.
pub fn err_rnotstarted<T>() -> (r: Result<T, Fault>)
    ensures
        r matches Err(e) && e == Fault::Code(ERR_RECCE_NOT_STARTED),
{
    err_code(ERR_RECCE_NOT_STARTED)
}

} // verus!
