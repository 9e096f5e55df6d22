//! Node ids.
//!
//! A nid is a signed integer.  A non-negative nid is the id of an or-node.
//! The values from -1 down to -42 are reserved for special purposes, and
//! every value from `NID_LEAF_BASE` downwards names the and-node of a token
//! leaf.

use vstd::prelude::*;

verus! {

/// The nid of and-node 0; the nid of and-node `n` lies `n` below it.
pub const NID_LEAF_BASE: i32 = -43;

/// The nid that stands for and-node `and_node`.
pub open spec fn leaf_nid(and_node: int) -> int {
    NID_LEAF_BASE - and_node
}

/// The and-node that `nid` stands for.
pub open spec fn leaf_and_node(nid: int) -> int {
    NID_LEAF_BASE - nid
}

/// Whether `nid` lies in the range that names and-nodes.
pub open spec fn is_leaf_nid(nid: int) -> bool {
    nid <= NID_LEAF_BASE
}

/// Maps the id of an and-node to its nid.
pub fn and_node_to_nid(offset: i32) -> (nid: i32)
    requires
        i32::MIN <= leaf_nid(offset as int) <= i32::MAX,
    ensures
        nid == leaf_nid(offset as int),
{
    NID_LEAF_BASE - offset
}

/// Maps a nid back to the id of its and-node.
pub fn nid_to_and_node(offset: i32) -> (and_node: i32)
    requires
        i32::MIN <= leaf_and_node(offset as int) <= i32::MAX,
    ensures
        and_node == leaf_and_node(offset as int),
{
    NID_LEAF_BASE - offset
}

/// The two encodings undo each other, and an and-node id that is not
/// negative always lands in the leaf range.
pub proof fn lemma_nid_encoding_bijective(n: int)
    ensures
        leaf_and_node(leaf_nid(n)) == n,
        leaf_nid(leaf_and_node(n)) == n,
        n >= 0 <==> is_leaf_nid(leaf_nid(n)),
{
}

} // verus!
