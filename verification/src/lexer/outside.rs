//! The types of the `regex` and `regex-syntax` crates that pass through
//! this library.  Nothing is known of what is inside them.

use vstd::prelude::*;

verus! {

/// A pattern as `regex-syntax` parses it: `regex_syntax::ast::Ast`.
#[verifier::external_type_specification]
#[verifier::external_body]
pub struct ExAst(regex_syntax::ast::Ast);

/// The flags written in a group: `regex_syntax::ast::Flags`.
#[verifier::external_type_specification]
#[verifier::external_body]
pub struct ExFlags(regex_syntax::ast::Flags);

/// How often a pattern is repeated: `regex_syntax::ast::RepetitionOp`.
#[verifier::external_type_specification]
#[verifier::external_body]
pub struct ExRepetitionOp(regex_syntax::ast::RepetitionOp);

/// The kind of a group: `regex_syntax::ast::GroupKind`.
#[verifier::external_type_specification]
#[verifier::external_body]
pub struct ExGroupKind(regex_syntax::ast::GroupKind);

/// Why a pattern could not be parsed: `regex_syntax::ast::Error`.
#[verifier::external_type_specification]
#[verifier::external_body]
pub struct ExAstError(regex_syntax::ast::Error);

/// A compiled pattern: `regex::Regex`.
#[verifier::external_type_specification]
#[verifier::external_body]
pub struct ExRegex(regex::Regex);

/// Why a pattern could not be compiled: `regex::Error`.
#[verifier::external_type_specification]
#[verifier::external_body]
pub struct ExRegexError(regex::Error);

} // verus!
