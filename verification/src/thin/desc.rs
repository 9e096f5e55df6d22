//! The words for the engine's error codes.
//!
//! The engine knows the words for its codes.  The words that are known here
//! are those for the code that says that the engine is not in an OK state;
//! a code below zero is no code of the engine, and has words that say so.

use vstd::prelude::*;
use vstd::string::StringExecFns;
use crate::tree_builder::render::{decimal, decimal_text};

verus! {

/// The engine's code for not being in an OK state.
pub const ERR_I_AM_NOT_OK: i32 = 29;

/// The words for the code `code`, where they are known.
pub open spec fn err_desc_text(code: i32) -> Option<Seq<char>> {
    if code == ERR_I_AM_NOT_OK {
        Some("Marpa is in a not OK state"@)
    } else {
        None
    }
}

/// The words of a failure with the code `code`: for a code below zero,
/// that the code is undefined; for any other, the words for the code where
/// they are known.
pub open spec fn err_words_text(code: i32) -> Option<Seq<char>> {
    if code < 0 {
        Some("undefined error code: "@ + decimal_text(code))
    } else {
        err_desc_text(code)
    }
}

/// The words for the code `code`, where they are known.
pub fn err_desc(code: i32) -> (r: Option<&'static str>)
    ensures
        match err_desc_text(code) {
            Some(text) => r matches Some(words) && words@ == text,
            None => r is None,
        },
{
    if code == ERR_I_AM_NOT_OK {
        Some("Marpa is in a not OK state")
    } else {
        None
    }
}

/// The words of a failure with the code `code`.
pub fn err_words(code: i32) -> (r: Option<String>)
    ensures
        match err_words_text(code) {
            Some(text) => r matches Some(words) && words@ == text,
            None => r is None,
        },
{
    if code < 0 {
        let mut words = String::from_str("undefined error code: ");
        words.append(decimal(code).as_str());
        Some(words)
    } else {
        match err_desc(code) {
            Some(words) => Some(String::from_str(words)),
            None => None,
        }
    }
}

} // verus!
