//! A processor that builds syntax trees over bytes.
//!
//! The builder is told which rules to read as tokens, which to keep, and
//! which to drop.  A rule read as a token becomes one node with all the bytes
//! below it.  A kept rule becomes a node with the tokens and kept rules
//! below it.  A dropped rule becomes an empty node.  Every other rule becomes
//! a plain node, which a token or a kept rule above it looks through.

use vstd::prelude::*;
use std::collections::HashSet;
use crate::lexer::byte_scanner::ByteToken;
use crate::result::Fault;
use crate::stack::processor::Processor;
use crate::thin::{Rule, Symbol};
use crate::tree_builder::tree::{Handle, Node};

verus! {

/// The bytes of the leaves below the first `n` of `handles`, from left to
/// right, looking through plain nodes; nothing where a token or a kept rule
/// is met.
pub open spec fn token_bytes(handles: Seq<Handle<ByteToken>>, n: int) -> Option<Seq<u8>>
    decreases handles, n,
{
    if n <= 0 || n > handles.len() {
        Some(Seq::empty())
    } else {
        match token_bytes(handles, n - 1) {
            None => None,
            Some(before) => match *handles[n - 1].0 {
                Node::Leaf(tok) => Some(before.push(tok.0)),
                Node::Null(_) => Some(before),
                Node::Tree(_, chs) => match token_bytes(chs@, chs@.len() as int) {
                    Some(below) => Some(before + below),
                    None => None,
                },
                Node::Rule(_, _) => None,
                Node::Token(_, _) => None,
            },
        }
    }
}

/// The tokens and kept rules below the first `n` of `handles`, from left to
/// right, looking through plain nodes.
pub open spec fn kept_nodes(handles: Seq<Handle<ByteToken>>, n: int) -> Seq<Handle<ByteToken>>
    decreases handles, n,
{
    if n <= 0 || n > handles.len() {
        Seq::empty()
    } else {
        let before = kept_nodes(handles, n - 1);
        match *handles[n - 1].0 {
            Node::Token(_, _) => before.push(handles[n - 1]),
            Node::Rule(_, _) => before.push(handles[n - 1]),
            Node::Null(_) => before,
            Node::Tree(_, chs) => before + kept_nodes(chs@, chs@.len() as int),
            Node::Leaf(_) => before,
        }
    }
}

/// Collects the bytes of the leaves below `children`.
pub fn rollup_token(children: &[Handle<ByteToken>]) -> (r: Result<Vec<u8>, Fault>)
    ensures
        match token_bytes(children@, children@.len() as int) {
            Some(bytes) => r matches Ok(v) && v@ == bytes,
            None => r matches Err(e) && e == Fault::MarkedNodeInToken,
        },
{
    let mut bytes: Vec<u8> = Vec::new();
    match rollup_token_rec(children, &mut bytes) {
        Ok(()) => Ok(bytes),
        Err(e) => Err(e),
    }
}

/// Appends to `out` the bytes of the leaves below `handles`.
pub fn rollup_token_rec(handles: &[Handle<ByteToken>], out: &mut Vec<u8>) -> (r: Result<(), Fault>)
    ensures
        match token_bytes(handles@, handles@.len() as int) {
            Some(bytes) => r is Ok && final(out)@ == old(out)@ + bytes,
            None => r matches Err(e) && e == Fault::MarkedNodeInToken,
        },
    decreases handles@,
{
    let mut i: usize = 0;
    while i < handles.len()
        invariant
            i <= handles@.len(),
            token_bytes(handles@, i as int) matches Some(bytes) && out@ == old(out)@ + bytes,
        decreases handles@.len() - i,
    {
        let ghost before = token_bytes(handles@, i as int)->0;
        match handles[i].node() {
            Node::Leaf(tok) => {
                out.push(tok.byte());
                proof {
                    assert(out@ =~= old(out)@ + before.push(tok.0));
                }
            },
            Node::Null(_) => {},
            Node::Tree(_, chs) => {
                match rollup_token_rec(chs.as_slice(), out) {
                    Ok(()) => {
                        proof {
                            let below = token_bytes(chs@, chs@.len() as int)->0;
                            assert(out@ =~= old(out)@ + (before + below));
                        }
                    },
                    Err(e) => {
                        proof {
                            lemma_token_bytes_refused(handles@, i as int + 1, handles@.len() as int);
                        }
                        return Err(e);
                    },
                }
            },
            Node::Rule(_, _) => {
                proof {
                    lemma_token_bytes_refused(handles@, i as int + 1, handles@.len() as int);
                }
                return Err(Fault::MarkedNodeInToken);
            },
            Node::Token(_, _) => {
                proof {
                    lemma_token_bytes_refused(handles@, i as int + 1, handles@.len() as int);
                }
                return Err(Fault::MarkedNodeInToken);
            },
        }
        i += 1;
    }
    Ok(())
}

/// Once a token or a kept rule has been met, going on does not help.
pub proof fn lemma_token_bytes_refused(handles: Seq<Handle<ByteToken>>, k: int, n: int)
    requires
        0 <= k <= n <= handles.len(),
        token_bytes(handles, k) is None,
    ensures
        token_bytes(handles, n) is None,
    decreases n - k,
{
    if k < n {
        lemma_token_bytes_refused(handles, k, n - 1);
    }
}

/// Collects the tokens and kept rules below `children`.
pub fn rollup_rule(children: &[Handle<ByteToken>]) -> (r: Vec<Handle<ByteToken>>)
    ensures
        r@ == kept_nodes(children@, children@.len() as int),
{
    let mut new_children: Vec<Handle<ByteToken>> = Vec::new();
    rollup_rule_rec(children, &mut new_children);
    new_children
}

/// Appends to `out` the tokens and kept rules below `handles`.
pub fn rollup_rule_rec(handles: &[Handle<ByteToken>], out: &mut Vec<Handle<ByteToken>>)
    ensures
        final(out)@ == old(out)@ + kept_nodes(handles@, handles@.len() as int),
    decreases handles@,
{
    let mut i: usize = 0;
    proof {
        assert(out@ =~= old(out)@ + kept_nodes(handles@, 0));
    }
    while i < handles.len()
        invariant
            i <= handles@.len(),
            out@ == old(out)@ + kept_nodes(handles@, i as int),
        decreases handles@.len() - i,
    {
        let ghost before = kept_nodes(handles@, i as int);
        match handles[i].node() {
            Node::Token(_, _) => {
                out.push(handles[i].share());
                proof {
                    assert(out@ =~= old(out)@ + before.push(handles@[i as int]));
                }
            },
            Node::Rule(_, _) => {
                out.push(handles[i].share());
                proof {
                    assert(out@ =~= old(out)@ + before.push(handles@[i as int]));
                }
            },
            Node::Null(_) => {},
            Node::Tree(_, chs) => {
                rollup_rule_rec(chs.as_slice(), out);
                proof {
                    assert(out@ =~= old(out)@ + (before + kept_nodes(chs@, chs@.len() as int)));
                }
            },
            Node::Leaf(_) => {},
        }
        i += 1;
    }
}

/// A builder of syntax trees over bytes.
pub struct TreeBuilder {
    token_rules: HashSet<Rule>,
    discard_rules: HashSet<Rule>,
    rules: HashSet<Rule>,
}

impl TreeBuilder {
    /// The rules that are read as tokens.
    pub closed spec fn token_rules(self) -> Set<Rule> {
        self.token_rules@
    }

    /// The rules that are kept.
    pub closed spec fn kept_rules(self) -> Set<Rule> {
        self.rules@
    }

    /// The rules that are dropped.
    pub closed spec fn discard_rules(self) -> Set<Rule> {
        self.discard_rules@
    }

    /// A builder that has been told nothing yet.
    pub fn new() -> (b: TreeBuilder)
        ensures
            b.token_rules() == Set::<Rule>::empty(),
            b.kept_rules() == Set::<Rule>::empty(),
            b.discard_rules() == Set::<Rule>::empty(),
    {
        TreeBuilder { token_rules: HashSet::new(), discard_rules: HashSet::new(), rules: HashSet::new() }
    }

    /// Tells the builder to read rule `rule_id` as a token.
    pub fn token(&mut self, rule_id: Rule)
        ensures
            final(self).token_rules() == old(self).token_rules().insert(rule_id),
            final(self).kept_rules() == old(self).kept_rules(),
            final(self).discard_rules() == old(self).discard_rules(),
    {
        self.token_rules.insert(rule_id);
    }

    /// Whether rule `rule_id` is read as a token.
    pub fn is_token(&self, rule_id: Rule) -> (b: bool)
        ensures
            b == self.token_rules().contains(rule_id),
    {
        self.token_rules.contains(&rule_id)
    }

    /// Tells the builder to keep rule `rule_id`.
    pub fn rule(&mut self, rule_id: Rule)
        ensures
            final(self).kept_rules() == old(self).kept_rules().insert(rule_id),
            final(self).token_rules() == old(self).token_rules(),
            final(self).discard_rules() == old(self).discard_rules(),
    {
        self.rules.insert(rule_id);
    }

    /// Whether rule `rule_id` is kept.
    pub fn is_rule(&self, rule_id: Rule) -> (b: bool)
        ensures
            b == self.kept_rules().contains(rule_id),
    {
        self.rules.contains(&rule_id)
    }

    /// Tells the builder to drop rule `rule_id`.
    pub fn discard(&mut self, rule_id: Rule)
        ensures
            final(self).discard_rules() == old(self).discard_rules().insert(rule_id),
            final(self).token_rules() == old(self).token_rules(),
            final(self).kept_rules() == old(self).kept_rules(),
    {
        self.discard_rules.insert(rule_id);
    }

    /// Whether rule `rule_id` is dropped.
    pub fn is_discard(&mut self, rule_id: Rule) -> (b: bool)
        ensures
            b == old(self).discard_rules().contains(rule_id),
            *final(self) == *old(self),
    {
        self.discard_rules.contains(&rule_id)
    }

    /// What the builder makes of rule `rule` over `children`: a token where
    /// the rule is read as one, else a kept node where it is kept, else an
    /// empty node where it is dropped, else a plain node.  Nothing where a
    /// rule read as a token has a token or a kept rule below it.
    pub open spec fn rule_node(self, rule: Rule, children: Seq<Handle<ByteToken>>, node: Node<
        ByteToken,
    >) -> bool {
        if self.token_rules().contains(rule) {
            node matches Node::Token(r, bytes) && r == rule && Some(bytes@) == token_bytes(
                children,
                children.len() as int,
            )
        } else if self.kept_rules().contains(rule) {
            node matches Node::Rule(r, kept) && r == rule && kept@ == kept_nodes(
                children,
                children.len() as int,
            )
        } else if self.discard_rules().contains(rule) {
            node == Node::<ByteToken>::Null(0i32)
        } else {
            node matches Node::Tree(r, chs) && r == rule && chs@ == children
        }
    }

    /// Builds the tree of rule `rule` over `children`.
    pub fn build_rule(&mut self, rule: Rule, children: &[Handle<ByteToken>]) -> (r: Result<
        Handle<ByteToken>,
        Fault,
    >)
        ensures
            *final(self) == *old(self),
            old(self).token_rules().contains(rule) && token_bytes(
                children@,
                children@.len() as int,
            ) is None ==> (r matches Err(e) && e == Fault::MarkedNodeInToken),
            !(old(self).token_rules().contains(rule) && token_bytes(
                children@,
                children@.len() as int,
            ) is None) ==> (r matches Ok(h) && old(self).rule_node(rule, children@, *h.0)),
    {
        if self.is_token(rule) {
            match rollup_token(children) {
                Ok(bytes) => Ok(Handle::new(Node::token(rule, bytes))),
                Err(e) => Err(e),
            }
        } else if self.is_rule(rule) {
            Ok(Handle::new(Node::rule(rule, rollup_rule(children))))
        } else if self.is_discard(rule) {
            Ok(Handle::new(Node::Null(0)))
        } else {
            let mut chs: Vec<Handle<ByteToken>> = Vec::new();
            let mut i: usize = 0;
            while i < children.len()
                invariant
                    i <= children@.len(),
                    chs@ == children@.subrange(0, i as int),
                decreases children@.len() - i,
            {
                chs.push(children[i].share());
                proof {
                    assert(chs@ =~= children@.subrange(0, i as int + 1));
                }
                i += 1;
            }
            proof {
                assert(chs@ =~= children@);
            }
            Ok(Handle::new(Node::tree(rule, chs)))
        }
    }
}

impl Default for TreeBuilder {
    fn default() -> (b: TreeBuilder)
        ensures
            b.token_rules() == Set::<Rule>::empty(),
            b.kept_rules() == Set::<Rule>::empty(),
            b.discard_rules() == Set::<Rule>::empty(),
    {
        TreeBuilder::new()
    }
}

impl Processor for TreeBuilder {
    type Tree = Handle<ByteToken>;

    type Token = ByteToken;

    open spec fn makes_rule(
        before: Self,
        rule: Rule,
        children: Seq<Handle<ByteToken>>,
        after: Self,
        r: Result<Handle<ByteToken>, Fault>,
    ) -> bool {
        &&& after == before
        &&& if before.token_rules().contains(rule) && token_bytes(children, children.len() as int)
            is None {
            r matches Err(e) && e == Fault::MarkedNodeInToken
        } else {
            r matches Ok(h) && before.rule_node(rule, children, *h.0)
        }
    }

    open spec fn makes_token(
        before: Self,
        tok: ByteToken,
        after: Self,
        r: Result<Handle<ByteToken>, Fault>,
    ) -> bool {
        after == before && (r matches Ok(h) && *h.0 == Node::Leaf(tok))
    }

    open spec fn makes_null(
        before: Self,
        sym: Symbol,
        after: Self,
        r: Result<Handle<ByteToken>, Fault>,
    ) -> bool {
        after == before && (r matches Ok(h) && *h.0 == Node::<ByteToken>::Null(sym))
    }

    fn proc_rule(&mut self, rule: Rule, children: &[Handle<ByteToken>]) -> (r: Result<
        Handle<ByteToken>,
        Fault,
    >) {
        self.build_rule(rule, children)
    }

    fn proc_token(&mut self, tok: ByteToken) -> (r: Result<Handle<ByteToken>, Fault>) {
        Ok(Handle::new(Node::leaf(tok)))
    }

    fn proc_null(&mut self, sym: Symbol) -> (r: Result<Handle<ByteToken>, Fault>) {
        Ok(Handle::new(Node::null(sym)))
    }
}

} // verus!
