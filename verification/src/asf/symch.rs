//! Symches: the members of a glade, grouped by grammar position.
//!
//! Every nid of a glade has a sort index.  For an or-node it is the id of
//! its rule as the grammar's author wrote it.  For a token leaf it is a
//! negative key made from the external id of the token.  The nids of a glade
//! that share a sort index form one symch: one point of choice.

use vstd::prelude::*;
use crate::asf::intset::{canonicalize, is_canonical_form, strictly_increasing, IntKey};
use crate::forest::{Forest, NONE};
use crate::nid::{is_leaf_nid, leaf_and_node, nid_to_and_node};
use crate::result::Fault;

verus! {

/// The sort index that stands for the end of the data.  No nid has it.
pub const SORT_IX_END_OF_DATA: i32 = -2;

/// The rule id of a symch of token leaves.
pub const TOKEN_RULE_ID: i32 = -1;

/// Whether `nid` names an or-node of the forest with a rule of the grammar's
/// author, or one of its token leaves.
pub open spec fn nid_ok(forest: Forest, nid: int) -> bool {
    if nid >= 0 {
        forest.has_or_node(nid) && forest.or_nodes@[nid].rule >= 0
    } else {
        forest.has_and_node(leaf_and_node(nid)) && forest.and_nodes@[leaf_and_node(nid)].cause == NONE
    }
}

/// The sort index of `nid`.
pub open spec fn sort_ix(forest: Forest, nid: int) -> int {
    if nid >= 0 {
        forest.or_nodes@[nid].rule as int
    } else {
        -forest.tokens@[forest.and_nodes@[leaf_and_node(nid)].symbol as int] - 3
    }
}

/// The rule that drives a symch whose first member is `nid`.
pub open spec fn rule_of(forest: Forest, nid: int) -> int {
    if nid >= 0 {
        forest.or_nodes@[nid].rule as int
    } else {
        TOKEN_RULE_ID as int
    }
}

/// Whether `key` is one of `keys`.
pub open spec fn has_key(keys: Seq<i32>, key: int) -> bool {
    exists|t: int| 0 <= t < keys.len() && #[trigger] keys[t] == key
}

/// `group` holds exactly the members of `nids` whose sort index is `key`.
pub open spec fn is_group(forest: Forest, nids: Seq<i32>, key: int, group: Seq<i32>) -> bool {
    forall|x: i32|
        #![trigger group.contains(x)]
        #![trigger nids.contains(x)]
        group.contains(x) <==> nids.contains(x) && sort_ix(forest, x as int) == key
}

/// The sort index of a nid is never the one reserved for the end of the
/// data, and tells an or-node from a token leaf.
pub proof fn lemma_sort_ix_ranges(forest: Forest, nid: int)
    requires
        forest.wf(),
        nid_ok(forest, nid),
    ensures
        i32::MIN <= sort_ix(forest, nid) <= i32::MAX,
        sort_ix(forest, nid) != SORT_IX_END_OF_DATA,
        nid >= 0 <==> sort_ix(forest, nid) >= 0,
        nid < 0 ==> sort_ix(forest, nid) <= -3,
{
    if nid >= 0 {
        assert(forest.or_node_ok(nid));
    } else {
        let a = leaf_and_node(nid);
        assert(forest.and_node_ok(a));
        assert(forest.token_ok(forest.and_nodes@[a].symbol as int));
    }
}

/// The sort index of `nid`, or the fault of the forest where `nid` names
/// neither an or-node nor a token leaf.
pub fn nid_sort_ix(forest: &Forest, nid: i32) -> (r: Result<i32, Fault>)
    requires
        forest.wf(),
    ensures
        nid_ok(*forest, nid as int) ==> (r matches Ok(ix) && ix == sort_ix(*forest, nid as int)),
        nid >= 0 && forest.has_or_node(nid as int) ==> r == Ok::<i32, Fault>(
            forest.or_nodes@[nid as int].rule,
        ),
        nid >= 0 && !forest.has_or_node(nid as int) ==> r == Err::<i32, Fault>(
            Fault::NoSuchOrNode(nid),
        ),
        nid < 0 && !forest.has_and_node(leaf_and_node(nid as int)) ==> r == Err::<i32, Fault>(
            Fault::NoSuchAndNode(leaf_and_node(nid as int) as i32),
        ),
        nid < 0 && forest.has_and_node(leaf_and_node(nid as int)) && !nid_ok(*forest, nid as int)
            ==> r == Err::<i32, Fault>(Fault::NoSuchSymbol(NONE)),
{
    if nid >= 0 {
        return forest.or_node_rule_source(nid);
    }
    let and_node = nid_to_and_node(nid);
    let symbol = match forest.and_node_symbol(and_node) {
        Ok(s) => s,
        Err(e) => {
            return Err(e);
        },
    };
    proof {
        assert(forest.and_node_ok(and_node as int));
    }
    let token = match forest.source_token_id(symbol) {
        Ok(t) => t,
        Err(e) => {
            return Err(e);
        },
    };
    proof {
        assert(forest.token_ok(symbol as int));
    }
    // -2 stands for the end of the data
    Ok(-token - 3)
}

/// A nid together with its sort index.  Pairs are ordered by sort index
/// first and by nid second.
#[derive(Debug, Clone, Copy)]
pub struct Keyed {
    /// The sort index of the nid.
    pub key: i32,
    /// The nid.
    pub nid: i32,
}

impl IntKey for Keyed {
    open spec fn rank(self) -> int {
        self.key * 0x1_0000_0000 + self.nid
    }

    proof fn rank_injective(a: Self, b: Self) {
    }

    fn less(&self, other: &Self) -> (r: bool) {
        self.key < other.key || (self.key == other.key && self.nid < other.nid)
    }
}

/// Each nid of `nids`, paired with its sort index.
pub open spec fn keyed(forest: Forest, nids: Seq<i32>) -> Seq<Keyed> {
    Seq::new(
        nids.len(),
        |i: int| Keyed { key: sort_ix(forest, nids[i] as int) as i32, nid: nids[i] },
    )
}

/// Groups the nids of a glade into symches.
///
/// The nids are paired with their sort indexes, the pairs are sorted, and
/// each run of one sort index becomes a group.  The groups come out by
/// increasing sort index, the members of each by increasing nid.
pub fn symch_groups(forest: &Forest, nids: &Vec<i32>) -> (r: (Vec<i32>, Vec<Vec<i32>>))
    requires
        forest.wf(),
        forall|i: int| 0 <= i < nids@.len() ==> nid_ok(*forest, #[trigger] nids@[i] as int),
    ensures
        r.0@.len() == r.1@.len(),
        strictly_increasing(r.0@),
        forall|i: int|
            0 <= i < nids@.len() ==> has_key(r.0@, sort_ix(*forest, #[trigger] nids@[i] as int)),
        forall|t: int|
            0 <= t < r.1@.len() ==> (#[trigger] r.1@[t])@.len() > 0 && strictly_increasing(r.1@[t]@)
                && is_group(*forest, nids@, r.0@[t] as int, r.1@[t]@),
{
    let mut data: Vec<Keyed> = Vec::new();
    let mut n: usize = 0;
    while n < nids.len()
        invariant
            forest.wf(),
            forall|i: int| 0 <= i < nids@.len() ==> nid_ok(*forest, #[trigger] nids@[i] as int),
            n <= nids@.len(),
            data@ == keyed(*forest, nids@).subrange(0, n as int),
        decreases nids@.len() - n,
    {
        let nid = nids[n];
        proof {
            lemma_sort_ix_ranges(*forest, nid as int);
        }
        let key = match nid_sort_ix(forest, nid) {
            Ok(k) => k,
            Err(_) => 0,
        };
        data.push(Keyed { key, nid });
        proof {
            assert(data@ =~= keyed(*forest, nids@).subrange(0, n as int + 1));
        }
        n += 1;
    }
    proof {
        assert(data@ =~= keyed(*forest, nids@));
    }
    let sorted = canonicalize(&data);
    let ghost pairs = keyed(*forest, nids@);
    let mut keys: Vec<i32> = Vec::new();
    let mut groups: Vec<Vec<i32>> = Vec::new();
    let mut i: usize = 0;
    while i < sorted.len()
        invariant
            forest.wf(),
            forall|k: int| 0 <= k < nids@.len() ==> nid_ok(*forest, #[trigger] nids@[k] as int),
            is_canonical_form(sorted@, pairs),
            pairs == keyed(*forest, nids@),
            i <= sorted@.len(),
            keys@.len() == groups@.len(),
            strictly_increasing(keys@),
            forall|t: int, b: int|
                0 <= t < keys@.len() && i <= b < sorted@.len() ==> (#[trigger] keys@[t]) < (
                #[trigger] sorted@[b]).key,
            forall|a: int, b: int|
                0 <= a < i && i <= b < sorted@.len() ==> (#[trigger] sorted@[a]).key < (
                #[trigger] sorted@[b]).key,
            forall|a: int| 0 <= a < i ==> keys@.contains((#[trigger] sorted@[a]).key),
            forall|t: int|
                0 <= t < groups@.len() ==> (#[trigger] groups@[t])@.len() > 0 && strictly_increasing(
                    groups@[t]@,
                ) && is_group(*forest, nids@, keys@[t] as int, groups@[t]@),
        decreases sorted@.len() - i,
    {
        let key = sorted[i].key;
        let mut group: Vec<i32> = Vec::new();
        let mut j: usize = i;
        while j < sorted.len() && sorted[j].key == key
            invariant
                strictly_increasing(sorted@),
                i <= j <= sorted@.len(),
                i < sorted@.len(),
                key == sorted@[i as int].key,
                group@.len() == j - i,
                forall|k: int| i <= k < j ==> (#[trigger] sorted@[k]).key == key,
                forall|k: int| 0 <= k < j - i ==> #[trigger] group@[k] == sorted@[i + k].nid,
            decreases sorted@.len() - j,
        {
            group.push(sorted[j].nid);
            j += 1;
        }
        proof {
            // the run [i, j) holds every pair whose sort index is `key`
            assert forall|a: int, b: int| 0 <= a < j && j <= b < sorted@.len() implies (
            #[trigger] sorted@[a]).key < (#[trigger] sorted@[b]).key by {
                if a >= i {
                    assert(sorted@[a].rank() < sorted@[b].rank());
                    assert(sorted@[j as int].rank() <= sorted@[b].rank());
                    assert(sorted@[j as int].key != key);
                    assert(sorted@[i as int].rank() <= sorted@[j as int].rank());
                }
            }
            assert(strictly_increasing(group@)) by {
                assert forall|p: int, q: int| 0 <= p < q < group@.len() implies (#[trigger] group@[p]).rank()
                    < (#[trigger] group@[q]).rank() by {
                    assert(sorted@[i + p].rank() < sorted@[i + q].rank());
                }
            }
            assert forall|x: i32|
                #![trigger group@.contains(x)]
                #![trigger nids@.contains(x)]
                group@.contains(x) <==> nids@.contains(x) && sort_ix(*forest, x as int)
                    == key as int by {
                if group@.contains(x) {
                    let k = choose|k: int| 0 <= k < group@.len() && group@[k] == x;
                    assert(sorted@[i + k].nid == x);
                    assert(sorted@.contains(sorted@[i + k]));
                    assert(pairs.contains(sorted@[i + k]));
                    let m = choose|m: int| 0 <= m < pairs.len() && pairs[m] == sorted@[i + k];
                    assert(nids@[m] == x);
                    lemma_sort_ix_ranges(*forest, nids@[m] as int);
                }
                if nids@.contains(x) && sort_ix(*forest, x as int) == key as int {
                    let m = choose|m: int| 0 <= m < nids@.len() && nids@[m] == x;
                    assert(pairs[m] == (Keyed { key, nid: x }));
                    assert(pairs.contains(Keyed { key, nid: x }));
                    assert(sorted@.contains(Keyed { key, nid: x }));
                    let a = choose|a: int| 0 <= a < sorted@.len() && sorted@[a] == (Keyed { key, nid: x });
                    if a < i {
                        assert(sorted@[a].key < sorted@[i as int].key);
                    }
                    if a >= j {
                        assert(sorted@[i as int].key < sorted@[a].key);
                    }
                    assert(group@[a - i] == x);
                }
            }
        }
        let ghost old_keys = keys@;
        let ghost old_groups = groups@;
        let ghost run = group@;
        proof {
            assert(is_group(*forest, nids@, key as int, run));
        }
        keys.push(key);
        groups.push(group);
        proof {
            assert forall|a: int| 0 <= a < j implies keys@.contains((#[trigger] sorted@[a]).key) by {
                if a < i {
                    let t = choose|t: int| 0 <= t < old_keys.len() && old_keys[t] == sorted@[a].key;
                    assert(keys@[t] == sorted@[a].key);
                } else {
                    assert(keys@[old_keys.len() as int] == key);
                }
            }
            assert forall|t: int| 0 <= t < groups@.len() implies (#[trigger] groups@[t])@.len() > 0
                && strictly_increasing(groups@[t]@) && is_group(
                *forest,
                nids@,
                keys@[t] as int,
                groups@[t]@,
            ) by {
                if t < old_groups.len() {
                    assert(groups@[t] == old_groups[t]);
                    assert(keys@[t] == old_keys[t]);
                } else {
                    assert(groups@[t]@ == run);
                    assert(keys@[t] == key);
                }
            }
            assert forall|t: int, b: int|
                0 <= t < keys@.len() && j <= b < sorted@.len() implies (#[trigger] keys@[t]) < (
            #[trigger] sorted@[b]).key by {
                if t < old_keys.len() {
                    assert(keys@[t] == old_keys[t]);
                } else {
                    assert(sorted@[i as int].key < sorted@[b].key);
                }
            }
            assert(strictly_increasing(keys@)) by {
                assert forall|p: int, q: int| 0 <= p < q < keys@.len() implies (#[trigger] keys@[p]).rank()
                    < (#[trigger] keys@[q]).rank() by {
                    if q < old_keys.len() {
                        assert(keys@[p] == old_keys[p] && keys@[q] == old_keys[q]);
                    } else {
                        assert(keys@[p] == old_keys[p]);
                        assert(old_keys[p] < sorted@[i as int].key);
                    }
                }
            }
        }
        i = j;
    }
    proof {
        assert forall|k: int| 0 <= k < nids@.len() implies has_key(
            keys@,
            sort_ix(*forest, #[trigger] nids@[k] as int),
        ) by {
            lemma_sort_ix_ranges(*forest, nids@[k] as int);
            assert(pairs.contains(pairs[k]));
            assert(sorted@.contains(pairs[k]));
            let a = choose|a: int| 0 <= a < sorted@.len() && sorted@[a] == pairs[k];
            assert(keys@.contains(sorted@[a].key));
            let t = choose|t: int| 0 <= t < keys@.len() && keys@[t] == sorted@[a].key;
            assert(keys@[t] == sort_ix(*forest, nids@[k] as int));
        }
    }
    (keys, groups)
}

} // verus!
