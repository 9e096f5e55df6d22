//! Syntax trees.

use vstd::prelude::*;
use std::rc::Rc;
use crate::lexer::token::Token;
use crate::thin::{Rule, Symbol};

verus! {

/// A shared tree.
#[derive(Clone, Debug)]
pub struct Handle<T: Token>(pub Rc<Node<T>>);

/// A node of a syntax tree.
#[derive(Debug)]
pub enum Node<T> where T: Token {
    /// A rule that the builder was told to keep, with the marked nodes
    /// found below it.
    Rule(Rule, Vec<Handle<T>>),
    /// Any other rule, with its children.
    Tree(Rule, Vec<Handle<T>>),
    /// A rule that the builder was told to read as one token, with the bytes
    /// found below it.
    Token(Rule, Vec<u8>),
    /// A token of the input.
    Leaf(T),
    /// A symbol that matched the empty input.
    Null(Symbol),
}

impl<T: Token> Node<T> {
    /// A token node for rule `tok` with the bytes `val`.
    pub fn token(tok: Symbol, val: Vec<u8>) -> (n: Node<T>)
        ensures
            n == Node::<T>::Token(tok, val),
    {
        Node::Token(tok, val)
    }

    /// A leaf for the token `tok`.
    pub fn leaf(tok: T) -> (n: Node<T>)
        ensures
            n == Node::Leaf(tok),
    {
        Node::Leaf(tok)
    }

    /// A kept node for rule `rule` with the children `children`.
    pub fn rule(rule: Rule, children: Vec<Handle<T>>) -> (n: Node<T>)
        ensures
            n == Node::Rule(rule, children),
    {
        Node::Rule(rule, children)
    }

    /// A plain node for rule `rule` with the children `children`.
    pub fn tree(rule: Rule, children: Vec<Handle<T>>) -> (n: Node<T>)
        ensures
            n == Node::Tree(rule, children),
    {
        Node::Tree(rule, children)
    }

    /// A node for the symbol `sym`, which matched the empty input.
    pub fn null(sym: Symbol) -> (n: Node<T>)
        ensures
            n == Node::<T>::Null(sym),
    {
        Node::Null(sym)
    }
}

impl<T: Token> Default for Node<T> {
    fn default() -> (n: Node<T>)
        ensures
            n == Node::<T>::Null(-1i32),
    {
        Node::Null(-1)
    }
}

impl<T: Token> Default for Handle<T> {
    fn default() -> (h: Handle<T>)
        ensures
            *h.0 == Node::<T>::Null(-1i32),
    {
        Handle(Rc::new(Node::Null(-1)))
    }
}

impl<T: Token> Handle<T> {
    /// The tree in a handle of its own.
    pub fn new(node: Node<T>) -> (h: Handle<T>)
        ensures
            *h.0 == node,
    {
        Handle(Rc::new(node))
    }

    /// Another handle to the same tree, by `Rc::clone`: the new handle
    /// points at the value that the old one points at.
    #[verifier::external_body]
    pub(crate) fn share(&self) -> (h: Handle<T>)
        ensures
            h == *self,
    {
        Handle(Rc::clone(&self.0))
    }

    /// The node at the root of the tree.
    pub fn node(&self) -> (n: &Node<T>)
        ensures
            *n == *self.0,
    {
        &*self.0
    }
}

} // verus!
