//! The packed parse forest that a recognizer leaves behind.
//!
//! The forest is held as plain tables.  An or-node says that one rule has
//! been recognized up to some position over some span of the input; each of
//! its and-nodes is one way in which that happened.  An and-node links back
//! to the or-node for the same rule one step earlier (its predecessor) and
//! names what was recognized in that last step (its cause): another or-node,
//! or a token.

use vstd::prelude::*;
use crate::result::Fault;

verus! {

/// The value that stands for "no node" and "no symbol" in the tables.
pub const NONE: i32 = -1;

/// The largest external token id the forest can hold.
pub const TOKEN_ID_MAX: i32 = i32::MAX - 3;

/// The largest number of and-nodes a forest can hold: each must have a nid.
pub const AND_NODES_MAX: usize = 2147483606;

/// One derivation of an or-node.
#[derive(Debug, Clone, Copy, PartialEq, Eq)]
pub struct AndNode {
    /// The or-node of the same rule one step earlier, or `NONE`.
    pub predecessor: i32,
    /// The or-node recognized in the last step, or `NONE` for a token.
    pub cause: i32,
    /// The internal symbol of the token of the last step, or `NONE`.
    pub symbol: i32,
}

/// A rule recognized up to a position, with all its derivations.
#[derive(Debug, Clone, PartialEq, Eq)]
pub struct OrNode {
    /// The id of the rule as the grammar's author wrote it, or `NONE` for
    /// a rule that the engine added.  Only an or-node with a rule of the
    /// author's can be the cause of an and-node.
    pub rule: i32,
    /// How many steps of the rule have been recognized.
    pub position: i32,
    /// The ids of the and-nodes, in the order the engine ranks them.
    pub and_nodes: Vec<i32>,
}

/// A parse forest.
#[derive(Debug, Clone, PartialEq, Eq)]
pub struct Forest {
    /// The or-node of the engine's augmenting start rule.
    pub top: i32,
    /// The or-nodes, by id.
    pub or_nodes: Vec<OrNode>,
    /// The and-nodes, by id.
    pub and_nodes: Vec<AndNode>,
    /// The external token id of each internal symbol, by internal id.
    pub tokens: Vec<i32>,
}

impl Forest {
    /// Whether `id` names an or-node.
    pub open spec fn has_or_node(self, id: int) -> bool {
        0 <= id < self.or_nodes@.len()
    }

    /// Whether `id` names an and-node.
    pub open spec fn has_and_node(self, id: int) -> bool {
        0 <= id < self.and_nodes@.len()
    }

    /// Whether `id` names an internal symbol.
    pub open spec fn has_symbol(self, id: int) -> bool {
        0 <= id < self.tokens@.len()
    }

    /// The and-node ids of or-node `o`.
    pub open spec fn and_ids(self, o: int) -> Seq<i32> {
        self.or_nodes@[o].and_nodes@
    }

    /// Whether and-node `a` by itself makes sense: what it points to exists.
    pub open spec fn and_node_ok(self, a: int) -> bool {
        let n = self.and_nodes@[a];
        &&& n.predecessor == NONE || self.has_or_node(n.predecessor as int)
        &&& if n.cause == NONE {
            self.has_symbol(n.symbol as int)
        } else {
            self.has_or_node(n.cause as int) && self.or_nodes@[n.cause as int].rule >= 0
                && n.symbol == NONE
        }
    }

    /// Whether the external id of internal symbol `s` is one a token can
    /// have.
    pub open spec fn token_ok(self, s: int) -> bool {
        0 <= self.tokens@[s] <= TOKEN_ID_MAX
    }

    /// Whether the `k`-th derivation of or-node `o` makes sense: its and-node
    /// exists and its predecessor stands at an earlier position.
    pub open spec fn link_ok(self, o: int, k: int) -> bool {
        let a = self.and_ids(o)[k];
        &&& self.has_and_node(a as int)
        &&& {
            let p = self.and_nodes@[a as int].predecessor;
            p != NONE ==> self.has_or_node(p as int) && self.or_nodes@[p as int].position
                < self.or_nodes@[o].position
        }
    }

    /// Whether or-node `o` makes sense.
    pub open spec fn or_node_ok(self, o: int) -> bool {
        let n = self.or_nodes@[o];
        &&& n.rule >= NONE
        &&& n.position >= 0
        &&& n.and_nodes@.len() >= 1
        &&& forall|k: int| 0 <= k < n.and_nodes@.len() ==> #[trigger] self.link_ok(o, k)
    }

    /// Whether the parse was of the empty input: such a forest has no nodes.
    pub open spec fn is_null(self) -> bool {
        self.or_nodes@.len() == 0
    }

    /// Whether the top or-node exists and its first derivation is by an
    /// or-node, the one for the grammar's own start rule.
    pub open spec fn top_ok(self) -> bool {
        &&& self.has_or_node(self.top as int)
        &&& self.and_ids(self.top as int).len() >= 1
        &&& {
            let a = self.and_ids(self.top as int)[0];
            self.has_and_node(a as int) && self.and_nodes@[a as int].cause != NONE
        }
    }

    /// Well-formedness: ids fit the machine's integers, every reference
    /// points at something, and predecessor links lead strictly backwards.
    pub open spec fn wf(self) -> bool {
        &&& self.or_nodes@.len() <= i32::MAX
        &&& self.and_nodes@.len() <= AND_NODES_MAX
        &&& self.tokens@.len() <= i32::MAX
        &&& forall|s: int| 0 <= s < self.tokens@.len() ==> #[trigger] self.token_ok(s)
        &&& forall|a: int| 0 <= a < self.and_nodes@.len() ==> #[trigger] self.and_node_ok(a)
        &&& forall|o: int| 0 <= o < self.or_nodes@.len() ==> #[trigger] self.or_node_ok(o)
        &&& !self.is_null() ==> self.top_ok()
    }

    /// Tells whether the parse was of the empty input.
    pub fn null(&self) -> (b: bool)
        ensures
            b == self.is_null(),
    {
        self.or_nodes.len() == 0
    }

    /// The top or-node.
    pub fn top_or_node(&self) -> (r: Result<i32, Fault>)
        ensures
            self.has_or_node(self.top as int) ==> r == Ok::<i32, Fault>(self.top),
            !self.has_or_node(self.top as int) ==> r == Err::<i32, Fault>(
                Fault::NoSuchOrNode(self.top),
            ),
    {
        if self.top >= 0 && (self.top as usize) < self.or_nodes.len() {
            Ok(self.top)
        } else {
            Err(Fault::NoSuchOrNode(self.top))
        }
    }

    /// The or-node that caused and-node `and_node`, or `NONE` where a token
    /// did.
    pub fn and_node_cause(&self, and_node: i32) -> (r: Result<i32, Fault>)
        ensures
            self.has_and_node(and_node as int) ==> r == Ok::<i32, Fault>(
                self.and_nodes@[and_node as int].cause,
            ),
            !self.has_and_node(and_node as int) ==> r == Err::<i32, Fault>(
                Fault::NoSuchAndNode(and_node),
            ),
    {
        if and_node >= 0 && (and_node as usize) < self.and_nodes.len() {
            Ok(self.and_nodes[and_node as usize].cause)
        } else {
            Err(Fault::NoSuchAndNode(and_node))
        }
    }

    /// The predecessor of and-node `and_node`, if it has one.
    pub fn and_node_predecessor(&self, and_node: i32) -> (r: Option<i32>)
        ensures
            r.is_some() <==> self.has_and_node(and_node as int) && self.and_nodes@[and_node as int].predecessor
                >= 0,
            r matches Some(p) ==> p == self.and_nodes@[and_node as int].predecessor,
    {
        if and_node >= 0 && (and_node as usize) < self.and_nodes.len() {
            let p = self.and_nodes[and_node as usize].predecessor;
            if p >= 0 {
                Some(p)
            } else {
                None
            }
        } else {
            None
        }
    }

    /// The internal symbol of the token of and-node `and_node`, or `NONE`
    /// where an or-node caused it.
    pub fn and_node_symbol(&self, and_node: i32) -> (r: Result<i32, Fault>)
        ensures
            self.has_and_node(and_node as int) ==> r == Ok::<i32, Fault>(
                self.and_nodes@[and_node as int].symbol,
            ),
            !self.has_and_node(and_node as int) ==> r == Err::<i32, Fault>(
                Fault::NoSuchAndNode(and_node),
            ),
    {
        if and_node >= 0 && (and_node as usize) < self.and_nodes.len() {
            Ok(self.and_nodes[and_node as usize].symbol)
        } else {
            Err(Fault::NoSuchAndNode(and_node))
        }
    }

    /// The id, as the grammar's author wrote it, of the rule of `or_node`.
    pub fn or_node_rule_source(&self, or_node: i32) -> (r: Result<i32, Fault>)
        ensures
            self.has_or_node(or_node as int) ==> r == Ok::<i32, Fault>(
                self.or_nodes@[or_node as int].rule,
            ),
            !self.has_or_node(or_node as int) ==> r == Err::<i32, Fault>(
                Fault::NoSuchOrNode(or_node),
            ),
    {
        if or_node >= 0 && (or_node as usize) < self.or_nodes.len() {
            Ok(self.or_nodes[or_node as usize].rule)
        } else {
            Err(Fault::NoSuchOrNode(or_node))
        }
    }

    /// The external token id of internal symbol `symbol`.
    pub fn source_token_id(&self, symbol: i32) -> (r: Result<i32, Fault>)
        ensures
            self.has_symbol(symbol as int) ==> r == Ok::<i32, Fault>(self.tokens@[symbol as int]),
            !self.has_symbol(symbol as int) ==> r == Err::<i32, Fault>(Fault::NoSuchSymbol(symbol)),
    {
        if symbol >= 0 && (symbol as usize) < self.tokens.len() {
            Ok(self.tokens[symbol as usize])
        } else {
            Err(Fault::NoSuchSymbol(symbol))
        }
    }

    /// The and-node ids of `or_node` in the engine's order; empty where the
    /// or-node does not exist.
    pub fn or_node_and_node_ids(&self, or_node: usize) -> (ids: Vec<i32>)
        ensures
            self.has_or_node(or_node as int) ==> ids@ == self.and_ids(or_node as int),
            !self.has_or_node(or_node as int) ==> ids@.len() == 0,
    {
        if or_node < self.or_nodes.len() {
            self.or_nodes[or_node].and_nodes.clone()
        } else {
            Vec::new()
        }
    }

    fn check_and_node(&self, a: usize) -> (b: bool)
        requires
            a < self.and_nodes@.len(),
        ensures
            b == self.and_node_ok(a as int),
    {
        let n = &self.and_nodes[a];
        let pred_ok = n.predecessor == NONE || (n.predecessor >= 0 && (n.predecessor as usize)
            < self.or_nodes.len());
        let cause_ok = if n.cause == NONE {
            n.symbol >= 0 && (n.symbol as usize) < self.tokens.len()
        } else {
            n.cause >= 0 && (n.cause as usize) < self.or_nodes.len()
                && self.or_nodes[n.cause as usize].rule >= 0 && n.symbol == NONE
        };
        pred_ok && cause_ok
    }

    fn check_link(&self, o: usize, k: usize) -> (b: bool)
        requires
            o < self.or_nodes@.len(),
            k < self.and_ids(o as int).len(),
        ensures
            b == self.link_ok(o as int, k as int),
    {
        let a = self.or_nodes[o].and_nodes[k];
        if a < 0 || (a as usize) >= self.and_nodes.len() {
            return false;
        }
        let p = self.and_nodes[a as usize].predecessor;
        if p == NONE {
            return true;
        }
        p >= 0 && (p as usize) < self.or_nodes.len() && self.or_nodes[p as usize].position
            < self.or_nodes[o].position
    }

    fn check_or_node(&self, o: usize) -> (b: bool)
        requires
            o < self.or_nodes@.len(),
        ensures
            b == self.or_node_ok(o as int),
    {
        let n = &self.or_nodes[o];
        if n.rule < NONE || n.position < 0 || n.and_nodes.len() == 0 {
            return false;
        }
        let mut k: usize = 0;
        while k < n.and_nodes.len()
            invariant
                o < self.or_nodes@.len(),
                *n == self.or_nodes@[o as int],
                k <= n.and_nodes@.len(),
                forall|j: int| 0 <= j < k ==> #[trigger] self.link_ok(o as int, j),
            decreases n.and_nodes@.len() - k,
        {
            if !self.check_link(o, k) {
                return false;
            }
            k += 1;
        }
        true
    }

    fn check_top(&self) -> (b: bool)
        ensures
            b == self.top_ok(),
    {
        if self.top < 0 || (self.top as usize) >= self.or_nodes.len() {
            return false;
        }
        let ids = &self.or_nodes[self.top as usize].and_nodes;
        if ids.len() == 0 {
            return false;
        }
        let a = ids[0];
        a >= 0 && (a as usize) < self.and_nodes.len() && self.and_nodes[a as usize].cause != NONE
    }

    /// Checks the tables against each other.
    pub fn is_well_formed(&self) -> (b: bool)
        ensures
            b == self.wf(),
    {
        if self.or_nodes.len() > i32::MAX as usize || self.and_nodes.len() > AND_NODES_MAX
            || self.tokens.len() > i32::MAX as usize {
            return false;
        }
        let mut s: usize = 0;
        while s < self.tokens.len()
            invariant
                s <= self.tokens@.len(),
                forall|j: int| 0 <= j < s ==> #[trigger] self.token_ok(j),
            decreases self.tokens@.len() - s,
        {
            if self.tokens[s] < 0 || self.tokens[s] > TOKEN_ID_MAX {
                proof {
                    assert(!self.token_ok(s as int));
                }
                return false;
            }
            s += 1;
        }
        let mut a: usize = 0;
        while a < self.and_nodes.len()
            invariant
                a <= self.and_nodes@.len(),
                forall|j: int| 0 <= j < a ==> #[trigger] self.and_node_ok(j),
            decreases self.and_nodes@.len() - a,
        {
            if !self.check_and_node(a) {
                return false;
            }
            a += 1;
        }
        let mut o: usize = 0;
        while o < self.or_nodes.len()
            invariant
                o <= self.or_nodes@.len(),
                forall|j: int| 0 <= j < o ==> #[trigger] self.or_node_ok(j),
            decreases self.or_nodes@.len() - o,
        {
            if !self.check_or_node(o) {
                return false;
            }
            o += 1;
        }
        self.or_nodes.len() == 0 || self.check_top()
    }
}

} // verus!
