//! Factorings: the ways in which one or-node splits into children.
//!
//! An or-node stands for a rule recognized up to some position.  Each of its
//! and-nodes names the child recognized last and the or-node for everything
//! before it, so the children of one derivation are found by walking the
//! predecessor links backwards.  A factoring lists the nids of the children
//! from left to right.  The factorings of an or-node are ordered by its
//! and-nodes, in the engine's order; the derivations that share an and-node
//! are ordered as the factorings of its predecessor are.

use vstd::prelude::*;
use crate::asf::nidset::Nidset;
use crate::asf::symch::nid_ok;
use crate::forest::{Forest, NONE};
use crate::nid::{and_node_to_nid, leaf_nid};

verus! {

/// The nid of the child that and-node `a` adds: the or-node that caused it,
/// or the and-node's own leaf nid where a token did.
pub open spec fn child_nid(forest: Forest, a: int) -> i32 {
    let n = forest.and_nodes@[a];
    if n.cause != NONE {
        n.cause
    } else {
        leaf_nid(a) as i32
    }
}

/// Every sequence of `prefixes`, with `c` added at its end.
pub open spec fn extend_each(prefixes: Seq<Seq<i32>>, c: i32) -> Seq<Seq<i32>> {
    Seq::new(prefixes.len(), |i: int| prefixes[i].push(c))
}

/// The first `n` members of `s`, or all of `s` where it has fewer.
pub open spec fn first_n<T>(s: Seq<T>, n: int) -> Seq<T> {
    if n >= s.len() {
        s
    } else if n <= 0 {
        Seq::empty()
    } else {
        s.subrange(0, n)
    }
}

/// The factorings of or-node `o` that go through one of its first `k`
/// and-nodes.
pub open spec fn factorings_upto(forest: Forest, o: int, k: int) -> Seq<Seq<i32>>
    decreases forest.or_nodes@[o].position, k,
{
    if forest.has_or_node(o) && 0 < k <= forest.and_ids(o).len() && forest.link_ok(o, k - 1) {
        let a = forest.and_ids(o)[k - 1] as int;
        let p = forest.and_nodes@[a].predecessor;
        let prefixes = if p == NONE {
            seq![Seq::<i32>::empty()]
        } else if forest.or_nodes@[p as int].position >= 0 {
            factorings_upto(forest, p as int, forest.and_ids(p as int).len() as int)
        } else {
            Seq::empty()
        };
        factorings_upto(forest, o, k - 1) + extend_each(prefixes, child_nid(forest, a))
    } else {
        Seq::empty()
    }
}

/// All factorings of or-node `o`.
pub open spec fn factorings(forest: Forest, o: int) -> Seq<Seq<i32>> {
    factorings_upto(forest, o, forest.and_ids(o).len() as int)
}

/// The factorings of the first `m` or-nodes of `members`, one or-node after
/// the other.
pub open spec fn symch_factorings_upto(forest: Forest, members: Seq<i32>, m: int) -> Seq<Seq<i32>>
    decreases m,
{
    if 0 < m <= members.len() {
        symch_factorings_upto(forest, members, m - 1) + factorings(forest, members[m - 1] as int)
    } else {
        Seq::empty()
    }
}

/// All factorings of a symch whose members are the or-nodes `members`.
pub open spec fn symch_factorings(forest: Forest, members: Seq<i32>) -> Seq<Seq<i32>> {
    symch_factorings_upto(forest, members, members.len() as int)
}

/// The rows of a table, as sequences.
pub open spec fn rows<T>(v: Vec<Vec<T>>) -> Seq<Seq<T>> {
    Seq::new(v@.len(), |i: int| v@[i]@)
}

/// The index lists, or-node by or-node, the and-node ids of the forest.
pub open spec fn index_matches(forest: Forest, index: Seq<Nidset>) -> bool {
    &&& index.len() == forest.or_nodes@.len()
    &&& forall|o: int|
        0 <= o < index.len() ==> (#[trigger] index[o]).nids@ == forest.and_ids(o) && index[o].id == o
}

/// Going through more and-nodes only adds factorings at the end.
pub proof fn lemma_factorings_upto_prefix(forest: Forest, o: int, k: int, n: int)
    requires
        forest.wf(),
        forest.has_or_node(o),
        0 <= k <= n <= forest.and_ids(o).len(),
    ensures
        factorings_upto(forest, o, k).len() <= factorings_upto(forest, o, n).len(),
        factorings_upto(forest, o, n).subrange(0, factorings_upto(forest, o, k).len() as int)
            == factorings_upto(forest, o, k),
    decreases n - k,
{
    if k == n {
        assert(factorings_upto(forest, o, n).subrange(0, factorings_upto(forest, o, k).len() as int)
            =~= factorings_upto(forest, o, k));
    } else {
        lemma_factorings_upto_prefix(forest, o, k, n - 1);
        assert(forest.or_node_ok(o));
        assert(forest.link_ok(o, n - 1));
        let shorter = factorings_upto(forest, o, n - 1);
        let longer = factorings_upto(forest, o, n);
        let head = factorings_upto(forest, o, k);
        assert(longer.subrange(0, shorter.len() as int) =~= shorter);
        assert(longer.subrange(0, head.len() as int) =~= shorter.subrange(0, head.len() as int));
    }
}

/// Going through more members only adds factorings at the end.
pub proof fn lemma_symch_factorings_upto_prefix(forest: Forest, members: Seq<i32>, k: int, n: int)
    requires
        0 <= k <= n <= members.len(),
    ensures
        symch_factorings_upto(forest, members, k).len() <= symch_factorings_upto(
            forest,
            members,
            n,
        ).len(),
        symch_factorings_upto(forest, members, n).subrange(
            0,
            symch_factorings_upto(forest, members, k).len() as int,
        ) == symch_factorings_upto(forest, members, k),
    decreases n - k,
{
    if k == n {
        assert(symch_factorings_upto(forest, members, n).subrange(
            0,
            symch_factorings_upto(forest, members, k).len() as int,
        ) =~= symch_factorings_upto(forest, members, k));
    } else {
        lemma_symch_factorings_upto_prefix(forest, members, k, n - 1);
        let shorter = symch_factorings_upto(forest, members, n - 1);
        let longer = symch_factorings_upto(forest, members, n);
        let head = symch_factorings_upto(forest, members, k);
        assert(longer.subrange(0, shorter.len() as int) =~= shorter);
        assert(longer.subrange(0, head.len() as int) =~= shorter.subrange(0, head.len() as int));
    }
}

/// Every child that a factoring names is an or-node of the forest or one of
/// its token leaves.
pub proof fn lemma_factoring_nids_ok(forest: Forest, o: int, k: int, j: int, c: int)
    requires
        forest.wf(),
        forest.has_or_node(o),
        0 <= k <= forest.and_ids(o).len(),
        0 <= j < factorings_upto(forest, o, k).len(),
        0 <= c < factorings_upto(forest, o, k)[j].len(),
    ensures
        nid_ok(forest, factorings_upto(forest, o, k)[j][c] as int),
    decreases forest.or_nodes@[o].position, k,
{
    assert(forest.or_node_ok(o));
    assert(forest.link_ok(o, k - 1));
    let shorter = factorings_upto(forest, o, k - 1);
    if j < shorter.len() {
        lemma_factoring_nids_ok(forest, o, k - 1, j, c);
    } else {
        let a = forest.and_ids(o)[k - 1] as int;
        let p = forest.and_nodes@[a].predecessor;
        let child = child_nid(forest, a);
        assert(forest.and_node_ok(a));
        let row = factorings_upto(forest, o, k)[j];
        if p == NONE {
            assert(row == Seq::<i32>::empty().push(child));
        } else {
            assert(forest.or_node_ok(p as int));
            let all = factorings(forest, p as int);
            assert(row == all[j - shorter.len()].push(child));
            if c < row.len() - 1 {
                lemma_factoring_nids_ok(
                    forest,
                    p as int,
                    forest.and_ids(p as int).len() as int,
                    j - shorter.len(),
                    c,
                );
            }
        }
    }
}

/// Every child that a factoring of a symch names is an or-node of the forest
/// or one of its token leaves.
pub proof fn lemma_symch_factoring_nids_ok(forest: Forest, members: Seq<i32>, m: int, j: int, c: int)
    requires
        forest.wf(),
        forall|i: int| 0 <= i < members.len() ==> forest.has_or_node(#[trigger] members[i] as int),
        0 <= m <= members.len(),
        0 <= j < symch_factorings_upto(forest, members, m).len(),
        0 <= c < symch_factorings_upto(forest, members, m)[j].len(),
    ensures
        nid_ok(forest, symch_factorings_upto(forest, members, m)[j][c] as int),
    decreases m,
{
    let shorter = symch_factorings_upto(forest, members, m - 1);
    if j < shorter.len() {
        lemma_symch_factoring_nids_ok(forest, members, m - 1, j, c);
    } else {
        let o = members[m - 1] as int;
        lemma_factoring_nids_ok(forest, o, forest.and_ids(o).len() as int, j - shorter.len(), c);
    }
}

/// Appends to `out` every row of `sub` with `child` added at its end.
fn push_extended(out: &mut Vec<Vec<i32>>, sub: &Vec<Vec<i32>>, child: i32)
    ensures
        rows(*final(out)) == rows(*old(out)) + extend_each(rows(*sub), child),
{
    let mut i: usize = 0;
    while i < sub.len()
        invariant
            i <= sub@.len(),
            rows(*out) == rows(*old(out)) + extend_each(rows(*sub), child).subrange(0, i as int),
        decreases sub@.len() - i,
    {
        let mut row = sub[i].clone();
        row.push(child);
        let ghost before = rows(*out);
        out.push(row);
        proof {
            assert(rows(*out) =~= before.push(row@));
            assert(row@ == extend_each(rows(*sub), child)[i as int]);
            assert(extend_each(rows(*sub), child).subrange(0, i as int + 1) =~= extend_each(
                rows(*sub),
                child,
            ).subrange(0, i as int).push(row@));
        }
        i += 1;
    }
    proof {
        assert(extend_each(rows(*sub), child).subrange(0, i as int) =~= extend_each(
            rows(*sub),
            child,
        ));
    }
}

/// The first `limit` factorings of or-node `o`, or all of them where there
/// are fewer.  The work done grows with `limit`, not with the number of
/// factorings that the or-node has.
pub fn or_node_factorings(forest: &Forest, index: &Vec<Nidset>, o: i32, limit: usize) -> (out: Vec<
    Vec<i32>,
>)
    requires
        forest.wf(),
        index_matches(*forest, index@),
        forest.has_or_node(o as int),
    ensures
        rows(out) == first_n(factorings(*forest, o as int), limit as int),
    decreases forest.or_nodes@[o as int].position,
{
    let mut out: Vec<Vec<i32>> = Vec::new();
    let ands = &index[o as usize].nids;
    let mut k: usize = 0;
    proof {
        assert(forest.or_node_ok(o as int));
        assert(rows(out) =~= Seq::<Seq<i32>>::empty());
    }
    while k < ands.len() && out.len() < limit
        invariant
            forest.wf(),
            index_matches(*forest, index@),
            forest.has_or_node(o as int),
            forest.or_node_ok(o as int),
            ands@ == forest.and_ids(o as int),
            k <= ands@.len(),
            rows(out) == first_n(factorings_upto(*forest, o as int, k as int), limit as int),
        decreases ands@.len() - k,
    {
        let a = ands[k];
        proof {
            assert(forest.link_ok(o as int, k as int));
            assert(forest.and_node_ok(a as int));
        }
        let node = &forest.and_nodes[a as usize];
        let child = if node.cause != NONE {
            node.cause
        } else {
            and_node_to_nid(a)
        };
        let ghost before = factorings_upto(*forest, o as int, k as int);
        let ghost after = factorings_upto(*forest, o as int, k as int + 1);
        proof {
            assert(rows(out) == before);
            assert(child == child_nid(*forest, a as int));
        }
        if node.predecessor == NONE {
            let mut row: Vec<i32> = Vec::new();
            row.push(child);
            let ghost old_rows = rows(out);
            out.push(row);
            proof {
                assert(rows(out) =~= old_rows.push(row@));
                assert(extend_each(seq![Seq::<i32>::empty()], child) =~= seq![row@]);
                assert(after =~= before.push(row@));
            }
        } else {
            let p = node.predecessor;
            proof {
                assert(forest.or_node_ok(p as int));
            }
            let sub = or_node_factorings(forest, index, p, limit - out.len());
            let ghost old_rows = rows(out);
            let ghost all = factorings(*forest, p as int);
            push_extended(&mut out, &sub, child);
            proof {
                assert(after == before + extend_each(all, child));
                assert(rows(out) =~= first_n(after, limit as int));
            }
        }
        k += 1;
    }
    proof {
        lemma_factorings_upto_prefix(*forest, o as int, k as int, ands@.len() as int);
        assert(rows(out) =~= first_n(factorings(*forest, o as int), limit as int));
    }
    out
}

/// The first `limit` factorings of a symch whose members are the or-nodes
/// `members`, or all of them where there are fewer.
pub fn symch_factorings_limited(
    forest: &Forest,
    index: &Vec<Nidset>,
    members: &Vec<i32>,
    limit: usize,
) -> (out: Vec<Vec<i32>>)
    requires
        forest.wf(),
        index_matches(*forest, index@),
        forall|i: int| 0 <= i < members@.len() ==> forest.has_or_node(#[trigger] members@[i] as int),
    ensures
        rows(out) == first_n(symch_factorings(*forest, members@), limit as int),
{
    let mut out: Vec<Vec<i32>> = Vec::new();
    let mut m: usize = 0;
    proof {
        assert(rows(out) =~= Seq::<Seq<i32>>::empty());
    }
    while m < members.len() && out.len() < limit
        invariant
            forest.wf(),
            index_matches(*forest, index@),
            forall|i: int| 0 <= i < members@.len() ==> forest.has_or_node(#[trigger] members@[i] as int),
            m <= members@.len(),
            rows(out) == first_n(symch_factorings_upto(*forest, members@, m as int), limit as int),
        decreases members@.len() - m,
    {
        let o = members[m];
        let ghost before = symch_factorings_upto(*forest, members@, m as int);
        let ghost after = symch_factorings_upto(*forest, members@, m as int + 1);
        let mut sub = or_node_factorings(forest, index, o, limit - out.len());
        let ghost old_rows = rows(out);
        let ghost sub_rows = rows(sub);
        out.append(&mut sub);
        proof {
            assert(rows(out) =~= old_rows + sub_rows);
            assert(after == before + factorings(*forest, o as int));
            assert(rows(out) =~= first_n(after, limit as int));
        }
        m += 1;
    }
    proof {
        lemma_symch_factorings_upto_prefix(*forest, members@, m as int, members@.len() as int);
        assert(rows(out) =~= first_n(symch_factorings(*forest, members@), limit as int));
    }
    out
}

} // verus!
