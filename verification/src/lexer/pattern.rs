//! Patterns, as far as a lexer has to look into them.
//!
//! A lexer tries several patterns at once and tells by the capture groups
//! which of them matched, so a pattern that goes into a lexer must have no
//! capture groups of its own.  The syntax of patterns is that of the
//! `regex-syntax` crate, which parses and prints them; this module holds a
//! pattern as a tree that shows its groups and takes the captures out.

use vstd::prelude::*;
use regex_syntax::ast::{Alternation, Ast, Concat, Flags, Group, Position, Repetition, RepetitionOp, Span};
use crate::result::Fault;

verus! {

/// What kind of group a group is.
pub enum Grouping {
    /// A capture group, with its number.
    CaptureIndex(u32),
    /// A capture group with a name, with its number.
    CaptureName { starts_with_p: bool, name: String, index: u32 },
    /// A group that captures nothing, with the flags written in it.
    NonCapturing(Flags),
}

/// A pattern.
pub enum Expr {
    /// A group around a pattern.
    Group { kind: Grouping, e: Box<Expr> },
    /// A pattern that is repeated.
    Repeat { e: Box<Expr>, r: RepetitionOp, greedy: bool },
    /// One pattern after the other.
    Concat(Vec<Expr>),
    /// One pattern or the other.
    Alternate(Vec<Expr>),
    /// A pattern without groups in it.
    Other(Ast),
}

/// Whether a group of this kind captures.
pub open spec fn captures(kind: Grouping) -> bool {
    !(kind is NonCapturing)
}

/// `after` is `before` with the captures taken out: every group that
/// captured has become a group that does not, and nothing else has changed.
pub open spec fn stripped(before: Expr, after: Expr) -> bool
    decreases before,
{
    match before {
        Expr::Group { kind, e } => after matches Expr::Group { kind: k, e: inner } && k is NonCapturing
            && (kind is NonCapturing ==> k == kind) && stripped(*e, *inner),
        Expr::Repeat { e, r, greedy } => after matches Expr::Repeat { e: inner, r: op, greedy: g }
            && op == r && g == greedy && stripped(*e, *inner),
        Expr::Concat(es) => after matches Expr::Concat(inner) && inner@.len() == es@.len()
            && forall|i: int| 0 <= i < es@.len() ==> stripped(#[trigger] es@[i], inner@[i]),
        Expr::Alternate(es) => after matches Expr::Alternate(inner) && inner@.len() == es@.len()
            && forall|i: int| 0 <= i < es@.len() ==> stripped(#[trigger] es@[i], inner@[i]),
        Expr::Other(ast) => after == Expr::Other(ast),
    }
}

/// Whether `pattern` is a well-formed pattern: whether
/// `regex_syntax::ast::parse::Parser::parse`, on a new parser, takes it.
pub uninterp spec fn pattern_parses(pattern: Seq<char>) -> bool;

/// Parses a pattern, by `regex_syntax::ast::parse::Parser::parse` on a new
/// parser.  Whether the parser takes a pattern rests with the pattern alone.
#[verifier::external_body]
fn parse(pattern: &str) -> (r: Result<Ast, regex_syntax::ast::Error>)
    ensures
        r is Ok <==> pattern_parses(pattern@),
{
    regex_syntax::ast::parse::Parser::new().parse(pattern)
}

/// The words of a syntax error, as `regex_syntax::ast::Error` displays
/// itself.
#[verifier::external_body]
fn describe(error: &regex_syntax::ast::Error) -> String {
    format!("{}", error)
}

/// Prints a pattern, as `Ast` displays itself.
#[verifier::external_body]
fn print(ast: &Ast) -> String {
    format!("{}", ast)
}

/// The flags of a group in which no flags are written: a value of
/// `Flags` without items.
#[verifier::external_body]
fn no_flags() -> Flags {
    let none = Position::new(0, 0, 0);
    Flags { span: Span::splat(none), items: Vec::new() }
}

/// The kind of a group of `regex_syntax::ast::GroupKind`, variant for
/// variant.
#[verifier::external_body]
fn kind_of(kind: regex_syntax::ast::GroupKind) -> Grouping {
    match kind {
        regex_syntax::ast::GroupKind::CaptureIndex(index) => Grouping::CaptureIndex(index),
        regex_syntax::ast::GroupKind::CaptureName { starts_with_p, name } => Grouping::CaptureName {
            starts_with_p,
            name: name.name,
            index: name.index,
        },
        regex_syntax::ast::GroupKind::NonCapturing(flags) => Grouping::NonCapturing(flags),
    }
}

/// The kind of a group for `regex_syntax::ast::GroupKind`, variant for
/// variant.
#[verifier::external_body]
fn kind_into(kind: Grouping) -> regex_syntax::ast::GroupKind {
    let span = Span::splat(Position::new(0, 0, 0));
    match kind {
        Grouping::CaptureIndex(index) => regex_syntax::ast::GroupKind::CaptureIndex(index),
        Grouping::CaptureName { starts_with_p, name, index } => {
            let name = regex_syntax::ast::CaptureName { span, name, index };
            regex_syntax::ast::GroupKind::CaptureName { starts_with_p, name }
        },
        Grouping::NonCapturing(flags) => regex_syntax::ast::GroupKind::NonCapturing(flags),
    }
}

/// The tree of a pattern of `Ast`: groups, repetitions,
/// concatenations and alternations variant for variant, anything else as it
/// is.
#[verifier::external_body]
fn expr_of(ast: &Ast) -> Expr {
    match ast {
        Ast::Group(g) => Expr::Group { kind: kind_of(g.kind.clone()), e: Box::new(expr_of(&g.ast)) },
        Ast::Repetition(r) => Expr::Repeat { e: Box::new(expr_of(&r.ast)), r: r.op.clone(), greedy: r.greedy },
        Ast::Concat(c) => Expr::Concat(c.asts.iter().map(|a| expr_of(a)).collect()),
        Ast::Alternation(a) => Expr::Alternate(a.asts.iter().map(|a| expr_of(a)).collect()),
        other => Expr::Other(other.clone()),
    }
}

/// The pattern of a tree, for `Ast`, variant for variant.
#[verifier::external_body]
fn ast_of(expr: Expr) -> Ast {
    let span = Span::splat(Position::new(0, 0, 0));
    match expr {
        Expr::Group { kind, e } => Ast::group(Group { span, kind: kind_into(kind), ast: Box::new(ast_of(*e)) }),
        Expr::Repeat { e, r, greedy } => Ast::repetition(Repetition { span, op: r, greedy, ast: Box::new(ast_of(*e)) }),
        Expr::Concat(es) => Ast::concat(Concat { span, asts: es.into_iter().map(|e| ast_of(e)).collect() }),
        Expr::Alternate(es) => Ast::alternation(Alternation { span, asts: es.into_iter().map(|e| ast_of(e)).collect() }),
        Expr::Other(ast) => ast,
    }
}

/// Takes the captures out of every pattern of `exprs`.
fn remove_captures_all(exprs: Vec<Expr>) -> (out: Vec<Expr>)
    ensures
        out@.len() == exprs@.len(),
        forall|i: int| 0 <= i < exprs@.len() ==> stripped(#[trigger] exprs@[i], out@[i]),
    decreases exprs@,
{
    let ghost all = exprs@;
    let mut rest = exprs;
    // the patterns in reverse order, with the captures taken out
    let mut turned: Vec<Expr> = Vec::new();
    while rest.len() > 0
        invariant
            all == exprs@,
            rest@.len() + turned@.len() == all.len(),
            rest@ == all.subrange(0, rest@.len() as int),
            forall|i: int|
                0 <= i < turned@.len() ==> stripped(all[all.len() - 1 - i], #[trigger] turned@[i]),
        decreases rest@.len(),
    {
        let ghost k = rest@.len() - 1;
        match rest.pop() {
            Some(e) => {
                proof {
                    assert(e == exprs@[k]);
                    assert(rest@ =~= all.subrange(0, k));
                    assert(decreases_to!(exprs@ => exprs@[k]));
                }
                turned.push(remove_captures_expr(e));
            },
            None => {},
        }
    }
    let mut out: Vec<Expr> = Vec::new();
    let ghost back = turned@;
    while turned.len() > 0
        invariant
            back.len() == all.len(),
            turned@.len() + out@.len() == all.len(),
            turned@ == back.subrange(0, turned@.len() as int),
            forall|i: int| 0 <= i < back.len() ==> stripped(all[all.len() - 1 - i], #[trigger] back[i]),
            forall|i: int| 0 <= i < out@.len() ==> stripped(all[i], #[trigger] out@[i]),
        decreases turned@.len(),
    {
        let ghost k = turned@.len() - 1;
        match turned.pop() {
            Some(e) => {
                proof {
                    assert(e == back[k]);
                    assert(turned@ =~= back.subrange(0, k));
                    assert(stripped(all[all.len() - 1 - k], back[k]));
                }
                out.push(e);
            },
            None => {},
        }
    }
    out
}

/// Takes the captures out of a pattern: every capture group in it becomes a
/// group that captures nothing.
pub fn remove_captures_expr(expr: Expr) -> (out: Expr)
    ensures
        stripped(expr, out),
    decreases expr,
{
    match expr {
        Expr::Group { kind, e } => {
            let plain = match kind {
                Grouping::NonCapturing(flags) => Grouping::NonCapturing(flags),
                _ => Grouping::NonCapturing(no_flags()),
            };
            Expr::Group { kind: plain, e: Box::new(remove_captures_expr(*e)) }
        },
        Expr::Repeat { e, r, greedy } => Expr::Repeat {
            e: Box::new(remove_captures_expr(*e)),
            r,
            greedy,
        },
        Expr::Concat(exprs) => Expr::Concat(remove_captures_all(exprs)),
        Expr::Alternate(exprs) => Expr::Alternate(remove_captures_all(exprs)),
        Expr::Other(ast) => Expr::Other(ast),
    }
}

/// Reads a pattern into a tree.  Fails, with the words of the parser, where
/// the pattern is not well-formed.
pub fn parse_expr(pattern: &str) -> (r: Result<Expr, Fault>)
    ensures
        r is Ok <==> pattern_parses(pattern@),
        r matches Err(e) ==> e is Pattern,
{
    match parse(pattern) {
        Ok(ast) => Ok(expr_of(&ast)),
        Err(e) => Err(Fault::Pattern(describe(&e))),
    }
}

/// Writes a tree out as a pattern.
pub fn print_expr(expr: Expr) -> String {
    print(&ast_of(expr))
}

/// The pattern `expr` without its captures.  Fails, with the words of the
/// parser, where `expr` is not well-formed.
pub fn remove_captures(expr: &str) -> (r: Result<String, Fault>)
    ensures
        r is Ok <==> pattern_parses(expr@),
        r matches Err(e) ==> e is Pattern,
{
    let r_expr = match parse_expr(expr) {
        Ok(e) => e,
        Err(e) => {
            return Err(e);
        },
    };
    Ok(print_expr(remove_captures_expr(r_expr)))
}

} // verus!
