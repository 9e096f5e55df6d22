//! The ambiguous syntax forest.
//!
//! A parse forest packs every derivation of the input into or-nodes and
//! and-nodes.  The syntax forest presents the same derivations as glades.
//! A glade is a set of nids.  Its members fall into symches, one for each
//! grammar position, and every symch lists its factorings: the ways in which
//! it splits into child glades.  Sets of nids are kept once each and known by
//! their ids, and the symches of a glade are computed when the glade is first
//! asked for and kept from then on.

pub mod factoring;
pub mod glade;
pub mod intset;
pub mod nidset;
pub mod symch;

use vstd::prelude::*;
use crate::asf::factoring::{first_n, index_matches, lemma_symch_factoring_nids_ok, rows,
    symch_factorings, symch_factorings_limited};
use crate::asf::glade::{Glade, Symch};
use crate::asf::intset::{canonicalize, is_canonical_form, same_items, same_members,
    strictly_increasing, lemma_canonical_unique, IntKey};
use crate::asf::nidset::{Nidset, Powerset};
use crate::asf::symch::{has_key, is_group, nid_ok, rule_of, sort_ix, symch_groups, lemma_sort_ix_ranges,
    TOKEN_RULE_ID};
use crate::forest::{Forest, NONE};
use crate::nid::{leaf_and_node, nid_to_and_node};
use crate::result::Fault;

verus! {

/// The largest number of factorings that a symch lists.
pub const FACTORING_MAX: usize = 42;

/// What a syntax forest holds, as mathematical values.
pub struct Tables {
    /// The parse forest underneath.
    pub forest: Forest,
    /// The largest number of factorings that a symch lists.
    pub factoring_max: int,
    /// The nidsets.  The nidset with id `n` stands at position `n - 1`.
    pub nidsets: Seq<Seq<i32>>,
    /// The powersets.  The powerset with id `n` stands at position `n - 1`.
    pub powersets: Seq<Seq<usize>>,
    /// The glades.  The glade with id `n` stands at position `n - 1`.
    pub glades: Seq<Glade>,
    /// How many times the symches of a glade have been computed.
    pub computations: int,
}

/// How many of the glades have their symches.
pub open spec fn computed_count(glades: Seq<Glade>) -> nat
    decreases glades.len(),
{
    if glades.len() == 0 {
        0
    } else {
        computed_count(glades.drop_last()) + if glades.last().symches is Some {
            1nat
        } else {
            0nat
        }
    }
}

/// The token that a glade with members `nids` stands for: the external id of
/// the token of its first member where that is a leaf, `NONE` otherwise.
pub open spec fn glade_symbol(forest: Forest, nids: Seq<i32>) -> int {
    if nids.len() > 0 && nids[0] < 0 {
        forest.tokens@[forest.and_nodes@[leaf_and_node(nids[0] as int)].symbol as int] as int
    } else {
        NONE as int
    }
}

impl Tables {
    /// Whether `id` is the id of a nidset, and so of a glade.
    pub open spec fn has_nidset(self, id: int) -> bool {
        1 <= id <= self.nidsets.len() && id <= self.glades.len()
    }

    /// Whether `id` is the id of a powerset.
    pub open spec fn has_powerset(self, id: int) -> bool {
        1 <= id <= self.powersets.len()
    }

    /// The members of the nidset with id `id`.
    pub open spec fn nids(self, id: int) -> Seq<i32> {
        self.nidsets[id - 1]
    }

    /// The members of the powerset with id `id`.
    pub open spec fn symch_ids(self, id: int) -> Seq<usize> {
        self.powersets[id - 1]
    }

    /// The glade with id `id`.
    pub open spec fn glade(self, id: int) -> Glade {
        self.glades[id - 1]
    }

    /// Whether the glade with id `id` has been reached from the peak.
    pub open spec fn is_registered(self, id: int) -> bool {
        self.has_nidset(id) && self.glade(id).registered
    }

    /// Whether the glade with id `id` has its symches.
    pub open spec fn is_computed(self, id: int) -> bool {
        self.has_nidset(id) && self.glade(id).symches is Some
    }

    /// The glade with id `glade` is the registered glade of `nid` alone.
    pub open spec fn child_ok(self, glade: int, nid: i32) -> bool {
        self.has_nidset(glade) && self.nids(glade) == seq![nid] && self.glade(glade).registered
    }

    /// The glade ids of `factoring` name, one for one, the glades of `nids`.
    pub open spec fn factoring_ok(self, factoring: Seq<usize>, nids: Seq<i32>) -> bool {
        &&& factoring.len() == nids.len()
        &&& forall|k: int|
            0 <= k < factoring.len() ==> self.child_ok(#[trigger] factoring[k] as int, nids[k])
    }

    /// What a symch of token leaves holds: one factoring, which names the
    /// glade of the first leaf alone.
    pub open spec fn token_symch_ok(self, first: i32, sy: Symch) -> bool {
        &&& !sy.omitted
        &&& sy.factorings@.len() == 1
        &&& self.factoring_ok(sy.factorings@[0]@, seq![first])
    }

    /// What a symch of or-nodes holds: the factorings of its members in their
    /// order, cut off after `factoring_max` of them.
    pub open spec fn rule_symch_ok(self, members: Seq<i32>, sy: Symch) -> bool {
        let all = symch_factorings(self.forest, members);
        &&& sy.omitted == (all.len() > self.factoring_max)
        &&& sy.factorings@.len() == if all.len() > self.factoring_max {
            self.factoring_max
        } else {
            all.len() as int
        }
        &&& forall|j: int|
            0 <= j < sy.factorings@.len() ==> self.factoring_ok(
                (#[trigger] sy.factorings@[j])@,
                all[j],
            )
    }

    /// `sy` is a symch of a glade with members `glade_nids`: its members are
    /// those of the glade that share one sort index, and its rule and its
    /// factorings are those of its members.
    pub open spec fn symch_ok(self, glade_nids: Seq<i32>, sy: Symch) -> bool {
        &&& self.has_nidset(sy.nidset as int)
        &&& self.nids(sy.nidset as int).len() > 0
        &&& {
            let members = self.nids(sy.nidset as int);
            &&& is_group(self.forest, glade_nids, sort_ix(self.forest, members[0] as int), members)
            &&& sy.rule_id == rule_of(self.forest, members[0] as int)
            &&& if members[0] < 0 {
                self.token_symch_ok(members[0], sy)
            } else {
                self.rule_symch_ok(members, sy)
            }
        }
    }

    /// Whether some symch of `symches` has `nid` among its members.
    pub open spec fn covered(self, symches: Seq<Symch>, nid: i32) -> bool {
        exists|i: int|
            0 <= i < symches.len() && self.has_nidset((#[trigger] symches[i]).nidset as int)
                && self.nids(symches[i].nidset as int).contains(nid)
    }

    /// The sort index that the members of the symch `sy` share.
    pub open spec fn symch_key(self, sy: Symch) -> int {
        sort_ix(self.forest, self.nids(sy.nidset as int)[0] as int)
    }

    /// `symches` are the symches of a glade with members `glade_nids`: they
    /// come by increasing sort index, each is a symch of the glade, and every
    /// member of the glade is in one of them.
    pub open spec fn symches_ok(self, glade_nids: Seq<i32>, symches: Seq<Symch>) -> bool {
        &&& forall|i: int, j: int|
            0 <= i < j < symches.len() ==> self.symch_key(#[trigger] symches[i]) < self.symch_key(
                #[trigger] symches[j],
            )
        &&& forall|i: int| 0 <= i < symches.len() ==> self.symch_ok(glade_nids, #[trigger] symches[i])
        &&& forall|k: int|
            0 <= k < glade_nids.len() ==> self.covered(symches, #[trigger] glade_nids[k])
    }

    /// Whether every member of the nidset with id `id` is a node of the
    /// forest.
    pub open spec fn nids_ok(self, id: int) -> bool {
        forall|k: int| 0 <= k < self.nids(id).len() ==> nid_ok(self.forest, #[trigger] self.nids(id)[k] as int)
    }

    /// Whether the glade with id `id` is as it should be.
    pub open spec fn glade_ok(self, id: int) -> bool {
        let g = self.glade(id);
        &&& g.id == id
        &&& g.registered ==> self.nids_ok(id)
        &&& match g.symches {
            Some(s) => g.registered && self.symches_ok(self.nids(id), s@) && g.symbol_id
                == glade_symbol(self.forest, self.nids(id)),
            None => g.symbol_id == NONE,
        }
    }

    /// Well-formedness of the tables.
    pub open spec fn wf(self) -> bool {
        &&& self.forest.wf()
        &&& !self.forest.is_null()
        &&& 1 <= self.factoring_max < usize::MAX
        &&& self.glades.len() == self.nidsets.len()
        &&& forall|i: int| 0 <= i < self.nidsets.len() ==> strictly_increasing(#[trigger] self.nidsets[i])
        &&& forall|i: int, j: int|
            0 <= i < j < self.nidsets.len() ==> #[trigger] self.nidsets[i] != #[trigger] self.nidsets[j]
        &&& forall|i: int|
            0 <= i < self.powersets.len() ==> strictly_increasing(#[trigger] self.powersets[i])
        &&& forall|i: int, j: int|
            0 <= i < j < self.powersets.len() ==> #[trigger] self.powersets[i]
                != #[trigger] self.powersets[j]
        &&& forall|id: int| self.has_nidset(id) ==> #[trigger] self.glade_ok(id)
        &&& self.computations == computed_count(self.glades)
    }

    /// A glade may change only in ways that leave what has been seen of it
    /// true: it may become registered, it may be marked, and it may get its
    /// symches; it never loses them.
    pub open spec fn glade_kept(before: Glade, after: Glade) -> bool {
        &&& after.id == before.id
        &&& before.registered ==> after.registered
        &&& before.symches is Some ==> after.symches == before.symches && after.symbol_id
            == before.symbol_id
    }

    /// `self` has grown out of `before`: the same forest, every set under
    /// the id it had, and every glade kept.
    pub open spec fn extends(self, before: Tables) -> bool {
        &&& self.forest == before.forest
        &&& self.factoring_max == before.factoring_max
        &&& before.nidsets.len() <= self.nidsets.len()
        &&& forall|i: int| 0 <= i < before.nidsets.len() ==> #[trigger] self.nidsets[i] == before.nidsets[i]
        &&& before.powersets.len() <= self.powersets.len()
        &&& forall|i: int|
            0 <= i < before.powersets.len() ==> #[trigger] self.powersets[i] == before.powersets[i]
        &&& before.glades.len() <= self.glades.len()
        &&& forall|i: int|
            0 <= i < before.glades.len() ==> Self::glade_kept(before.glades[i], #[trigger] self.glades[i])
        &&& before.computations <= self.computations
    }
}

impl Tables {
    /// `self` has grown out of `before` without the symches of any glade
    /// having been computed: sets were added and glades registered, no more.
    pub open spec fn grown(self, before: Tables) -> bool {
        &&& self.extends(before)
        &&& self.computations == before.computations
        &&& forall|i: int|
            0 <= i < self.glades.len() ==> if i < before.glades.len() {
                (#[trigger] self.glades[i]).symches == before.glades[i].symches
                    && self.glades[i].symbol_id == before.glades[i].symbol_id
                    && self.glades[i].visited == before.glades[i].visited
            } else {
                self.glades[i].symches is None
            }
    }
}

/// Growing without computing is transitive.
pub proof fn lemma_grown_transitive(a: Tables, b: Tables, c: Tables)
    requires
        b.grown(a),
        c.grown(b),
    ensures
        c.grown(a),
{
    lemma_extends_transitive(a, b, c);
    assert forall|i: int| 0 <= i < c.glades.len() implies if i < a.glades.len() {
        (#[trigger] c.glades[i]).symches == a.glades[i].symches && c.glades[i].symbol_id
            == a.glades[i].symbol_id && c.glades[i].visited == a.glades[i].visited
    } else {
        c.glades[i].symches is None
    } by {
        if i < b.glades.len() {
            assert(c.glades[i].symches == b.glades[i].symches);
            if i < a.glades.len() {
                assert(b.glades[i].symches == a.glades[i].symches);
            }
        }
    }
}

/// The ids of the nidsets are unique: two ids with the same members are one
/// id.
pub proof fn lemma_nidset_ids_unique(t: Tables, a: int, b: int)
    requires
        t.wf(),
        t.has_nidset(a),
        t.has_nidset(b),
        t.nids(a) == t.nids(b),
    ensures
        a == b,
{
    if a < b {
        assert(t.nidsets[a - 1] != t.nidsets[b - 1]);
    } else if b < a {
        assert(t.nidsets[b - 1] != t.nidsets[a - 1]);
    }
}

/// The ids of the powersets are unique.
pub proof fn lemma_powerset_ids_unique(t: Tables, a: int, b: int)
    requires
        t.wf(),
        t.has_powerset(a),
        t.has_powerset(b),
        t.symch_ids(a) == t.symch_ids(b),
    ensures
        a == b,
{
    if a < b {
        assert(t.powersets[a - 1] != t.powersets[b - 1]);
    } else if b < a {
        assert(t.powersets[b - 1] != t.powersets[a - 1]);
    }
}

/// An id is never given to another set: whatever the forest does later, the
/// id keeps its members.
pub proof fn lemma_ids_never_reused(before: Tables, after: Tables, id: int)
    requires
        after.extends(before),
        before.has_nidset(id),
    ensures
        after.has_nidset(id),
        after.nids(id) == before.nids(id),
{
}

/// Lists with the same members are known by the same id, in whatever order
/// and however often the members were given, and however much the forest has
/// grown between the two requests.
pub proof fn lemma_set_equal_same_id(
    before: Tables,
    after: Tables,
    s1: Seq<i32>,
    id1: int,
    s2: Seq<i32>,
    id2: int,
)
    requires
        after.wf(),
        after.extends(before),
        before.has_nidset(id1),
        is_canonical_form(before.nids(id1), s1),
        after.has_nidset(id2),
        is_canonical_form(after.nids(id2), s2),
        same_members(s1, s2),
    ensures
        id1 == id2,
{
    lemma_canonical_unique(after.nids(id1), after.nids(id2));
    lemma_nidset_ids_unique(after, id1, id2);
}

/// Growing is transitive.
pub proof fn lemma_extends_transitive(a: Tables, b: Tables, c: Tables)
    requires
        b.extends(a),
        c.extends(b),
    ensures
        c.extends(a),
{
    assert forall|i: int| 0 <= i < a.glades.len() implies Tables::glade_kept(
        a.glades[i],
        #[trigger] c.glades[i],
    ) by {
        assert(Tables::glade_kept(a.glades[i], b.glades[i]));
        assert(Tables::glade_kept(b.glades[i], c.glades[i]));
    }
}

/// A glade that was as it should be stays so while the tables grow.
pub proof fn lemma_glade_ok_extends(before: Tables, after: Tables, id: int)
    requires
        after.extends(before),
        before.has_nidset(id),
        before.glade_ok(id),
        after.glade(id) == before.glade(id) || (after.glade(id).id == before.glade(id).id
            && after.glade(id).symbol_id == before.glade(id).symbol_id && after.glade(id).symches
            == before.glade(id).symches && before.glade(id).registered
            == after.glade(id).registered),
    ensures
        after.glade_ok(id),
{
    let g = after.glade(id);
    assert(after.nids(id) == before.nids(id));
    if g.registered {
        assert(before.nids_ok(id));
        assert(after.nids_ok(id));
    }
    match g.symches {
        Some(s) => {
            lemma_symches_ok_extends(before, after, before.nids(id), s@);
        },
        None => {},
    }
}

/// Symches that were right for a glade stay right while the tables grow.
pub proof fn lemma_symches_ok_extends(
    before: Tables,
    after: Tables,
    glade_nids: Seq<i32>,
    symches: Seq<Symch>,
)
    requires
        after.extends(before),
        before.symches_ok(glade_nids, symches),
    ensures
        after.symches_ok(glade_nids, symches),
{
    assert forall|i: int| 0 <= i < symches.len() implies after.symch_ok(
        glade_nids,
        #[trigger] symches[i],
    ) && after.symch_key(symches[i]) == before.symch_key(symches[i]) by {
        lemma_symch_ok_extends(before, after, glade_nids, symches[i]);
        assert(after.nids(symches[i].nidset as int) == before.nids(symches[i].nidset as int));
    }
    assert forall|i: int, j: int| 0 <= i < j < symches.len() implies after.symch_key(
        #[trigger] symches[i],
    ) < after.symch_key(#[trigger] symches[j]) by {
        assert(before.symch_key(symches[i]) < before.symch_key(symches[j]));
    }
    assert forall|k: int| 0 <= k < glade_nids.len() implies after.covered(
        symches,
        #[trigger] glade_nids[k],
    ) by {
        assert(before.covered(symches, glade_nids[k]));
        let i = choose|i: int|
            0 <= i < symches.len() && before.has_nidset((#[trigger] symches[i]).nidset as int)
                && before.nids(symches[i].nidset as int).contains(glade_nids[k]);
        assert(after.nids(symches[i].nidset as int) == before.nids(symches[i].nidset as int));
    }
}

/// A symch that was right for a glade stays right while the tables grow.
pub proof fn lemma_symch_ok_extends(before: Tables, after: Tables, glade_nids: Seq<i32>, sy: Symch)
    requires
        after.extends(before),
        before.symch_ok(glade_nids, sy),
    ensures
        after.symch_ok(glade_nids, sy),
{
    let members = before.nids(sy.nidset as int);
    assert(after.nids(sy.nidset as int) == members);
    if members[0] < 0 {
        lemma_factoring_ok_extends(before, after, sy.factorings@[0]@, seq![members[0]]);
    } else {
        let all = symch_factorings(before.forest, members);
        assert forall|j: int| 0 <= j < sy.factorings@.len() implies after.factoring_ok(
            (#[trigger] sy.factorings@[j])@,
            all[j],
        ) by {
            lemma_factoring_ok_extends(before, after, sy.factorings@[j]@, all[j]);
        }
    }
}

/// A factoring that named the right glades still does while the tables grow.
pub proof fn lemma_factoring_ok_extends(
    before: Tables,
    after: Tables,
    factoring: Seq<usize>,
    nids: Seq<i32>,
)
    requires
        after.extends(before),
        before.factoring_ok(factoring, nids),
    ensures
        after.factoring_ok(factoring, nids),
{
    assert forall|k: int| 0 <= k < factoring.len() implies after.child_ok(
        #[trigger] factoring[k] as int,
        nids[k],
    ) by {
        let g = factoring[k] as int;
        assert(before.child_ok(g, nids[k]));
        assert(after.nidsets[g - 1] == before.nidsets[g - 1]);
        assert(Tables::glade_kept(before.glades[g - 1], after.glades[g - 1]));
    }
}

/// A symch lists all its factorings where there are at most `factoring_max`
/// of them, and exactly `factoring_max` of them, flagged, where there are
/// more.
pub proof fn lemma_factoring_cap(t: Tables, glade_nids: Seq<i32>, sy: Symch)
    requires
        t.symch_ok(glade_nids, sy),
        t.nids(sy.nidset as int)[0] >= 0,
    ensures
        ({
            let all = symch_factorings(t.forest, t.nids(sy.nidset as int));
            &&& all.len() > t.factoring_max ==> sy.omitted && sy.factorings@.len() == t.factoring_max
            &&& all.len() <= t.factoring_max ==> !sy.omitted && sy.factorings@.len() == all.len()
        }),
{
}

/// No glade is counted twice, so there are at most as many computed glades
/// as glades.
pub proof fn lemma_computed_count_bound(glades: Seq<Glade>)
    ensures
        computed_count(glades) <= glades.len(),
    decreases glades.len(),
{
    if glades.len() > 0 {
        lemma_computed_count_bound(glades.drop_last());
    }
}

/// Changing one glade changes the count by what that glade adds to it.
pub proof fn lemma_computed_count_update(glades: Seq<Glade>, i: int, g: Glade)
    requires
        0 <= i < glades.len(),
    ensures
        computed_count(glades.update(i, g)) + (if glades[i].symches is Some {
            1nat
        } else {
            0nat
        }) == computed_count(glades) + (if g.symches is Some {
            1nat
        } else {
            0nat
        }),
    decreases glades.len(),
{
    let after = glades.update(i, g);
    if i == glades.len() - 1 {
        assert(after.drop_last() =~= glades.drop_last());
    } else {
        lemma_computed_count_update(glades.drop_last(), i, g);
        assert(after.drop_last() =~= glades.drop_last().update(i, g));
    }
}

/// An ambiguous syntax forest over one parse forest.
pub struct ASF {
    factoring_max: usize,
    nidsets: Vec<Nidset>,
    powersets: Vec<Powerset>,
    glades: Vec<Glade>,
    or_nodes: Vec<Nidset>,
    forest: Forest,
    computations: usize,
}

impl View for ASF {
    type V = Tables;

    closed spec fn view(&self) -> Tables {
        Tables {
            forest: self.forest,
            factoring_max: self.factoring_max as int,
            nidsets: Seq::new(self.nidsets@.len(), |i: int| self.nidsets@[i].nids@),
            powersets: Seq::new(self.powersets@.len(), |i: int| self.powersets@[i].symches@),
            glades: self.glades@,
            computations: self.computations as int,
        }
    }
}

/// A glade that nothing has reached yet.
pub open spec fn fresh_glade(id: int) -> Glade {
    Glade { id: id as usize, symbol_id: NONE, registered: false, visited: false, symches: None }
}

impl ASF {
    /// Well-formedness: the tables are well-formed, every record carries
    /// the id of its place, and the index lists the and-nodes of the forest.
    pub closed spec fn wf(self) -> bool {
        &&& self@.wf()
        &&& index_matches(self.forest, self.or_nodes@)
        &&& forall|i: int| 0 <= i < self.nidsets@.len() ==> (#[trigger] self.nidsets@[i]).id == i + 1
        &&& forall|i: int|
            0 <= i < self.powersets@.len() ==> (#[trigger] self.powersets@[i]).id == i + 1
    }

    /// A well-formed forest has well-formed tables.
    pub proof fn lemma_wf_tables(self)
        requires
            self.wf(),
        ensures
            self@.wf(),
    {
    }

    /// The position of the nidset with members `key`, counted from one, or
    /// zero where no nidset has these members.
    fn find_nidset(&self, key: &Vec<i32>) -> (id: usize)
        requires
            self.wf(),
        ensures
            id != 0 ==> self@.has_nidset(id as int) && self@.nids(id as int) == key@,
            id == 0 ==> forall|other: int| self@.has_nidset(other) ==> self@.nids(other) != key@,
    {
        let mut i: usize = 0;
        while i < self.nidsets.len()
            invariant
                self.wf(),
                i <= self.nidsets@.len(),
                forall|other: int| 1 <= other <= i ==> self@.nids(other) != key@,
            decreases self.nidsets@.len() - i,
        {
            if same_items(&self.nidsets[i].nids, key) {
                return i + 1;
            }
            i += 1;
        }
        0
    }

    /// The position of the powerset with members `key`, counted from one,
    /// or zero where no powerset has these members.
    fn find_powerset(&self, key: &Vec<usize>) -> (id: usize)
        requires
            self.wf(),
        ensures
            id != 0 ==> self@.has_powerset(id as int) && self@.symch_ids(id as int) == key@,
            id == 0 ==> forall|other: int|
                self@.has_powerset(other) ==> self@.symch_ids(other) != key@,
    {
        let mut i: usize = 0;
        while i < self.powersets.len()
            invariant
                self.wf(),
                i <= self.powersets@.len(),
                forall|other: int| 1 <= other <= i ==> self@.symch_ids(other) != key@,
            decreases self.powersets@.len() - i,
        {
            if same_items(&self.powersets[i].symches, key) {
                return i + 1;
            }
            i += 1;
        }
        0
    }

    /// Brings a list of nids into canonical form and finds the id of the
    /// set, giving the set the next id where it had none.
    pub fn intset_id(&mut self, ids: Vec<i32>) -> (r: (usize, Vec<i32>))
        requires
            old(self).wf(),
        ensures
            final(self).wf(),
            final(self)@.extends(old(self)@),
            is_canonical_form(r.1@, ids@),
            final(self)@.has_nidset(r.0 as int),
            final(self)@.nids(r.0 as int) == r.1@,
            (exists|id: int| old(self)@.has_nidset(id) && old(self)@.nids(id) == r.1@) ==> final(self)@ == old(self)@,
            !(exists|id: int| old(self)@.has_nidset(id) && old(self)@.nids(id) == r.1@) ==> final(self)@ == (Tables {
                nidsets: old(self)@.nidsets.push(r.1@),
                glades: old(self)@.glades.push(fresh_glade(r.0 as int)),
                ..old(self)@
            }) && r.0 == old(self)@.nidsets.len() + 1,
    {
        let key = canonicalize(&ids);
        let found = self.find_nidset(&key);
        if found != 0 {
            return (found, key);
        }
        let ghost before = self@;
        let copy = key.clone();
        self.nidsets.push(Nidset { nids: copy, id: 0 });
        let id = self.nidsets.len();
        self.nidsets[id - 1].id = id;
        self.glades.push(
            Glade { id, symbol_id: NONE, registered: false, visited: false, symches: None },
        );
        proof {
            let after = self@;
            assert(after.nidsets =~= before.nidsets.push(key@));
            assert(after.powersets =~= before.powersets);
            assert(after.glades =~= before.glades.push(fresh_glade(id as int)));
            assert(after.glades.drop_last() =~= before.glades);
            assert(after.extends(before));
            assert forall|other: int| after.has_nidset(other) implies #[trigger] after.glade_ok(
                other,
            ) by {
                if other < id {
                    assert(before.glade_ok(other));
                    lemma_glade_ok_extends(before, after, other);
                }
            }
            assert forall|i: int, j: int| 0 <= i < j < after.nidsets.len() implies #[trigger] after.nidsets[i]
                != #[trigger] after.nidsets[j] by {
                if j == id - 1 {
                    assert(before.has_nidset(i + 1));
                    assert(before.nids(i + 1) != key@);
                } else {
                    assert(before.nidsets[i] != before.nidsets[j]);
                }
            }
            assert(after == (Tables {
                nidsets: before.nidsets.push(key@),
                glades: before.glades.push(fresh_glade(id as int)),
                ..before
            }));
        }
        (id, key)
    }

    /// The nidset with the members of `nids`: the one there is, or a new
    /// one under the next id.  The order of `nids` and members given more
    /// than once make no difference.
    pub fn obtain_nidset(&mut self, nids: Vec<i32>) -> (r: &Nidset)
        requires
            old(self).wf(),
        ensures
            final(self).wf(),
            final(self)@.extends(old(self)@),
            is_canonical_form(r.nids@, nids@),
            final(self)@.has_nidset(r.id as int),
            final(self)@.nids(r.id as int) == r.nids@,
            (exists|id: int| old(self)@.has_nidset(id) && old(self)@.nids(id) == r.nids@)
                ==> final(self)@ == old(self)@,
            !(exists|id: int| old(self)@.has_nidset(id) && old(self)@.nids(id) == r.nids@)
                ==> final(self)@ == (Tables {
                nidsets: old(self)@.nidsets.push(r.nids@),
                glades: old(self)@.glades.push(fresh_glade(r.id as int)),
                ..old(self)@
            }) && r.id == old(self)@.nidsets.len() + 1,
    {
        let (id, _) = self.intset_id(nids);
        &self.nidsets[id - 1]
    }

    /// The powerset with the members of `symches`: the one there is, or a
    /// new one under the next id.
    pub fn obtain_powerset(&mut self, symches: Vec<usize>) -> (r: Powerset)
        requires
            old(self).wf(),
        ensures
            final(self).wf(),
            final(self)@.extends(old(self)@),
            is_canonical_form(r.symches@, symches@),
            final(self)@.has_powerset(r.id as int),
            final(self)@.symch_ids(r.id as int) == r.symches@,
            (exists|id: int| old(self)@.has_powerset(id) && old(self)@.symch_ids(id) == r.symches@)
                ==> final(self)@ == old(self)@,
            !(exists|id: int|
                old(self)@.has_powerset(id) && old(self)@.symch_ids(id) == r.symches@)
                ==> final(self)@ == (Tables {
                powersets: old(self)@.powersets.push(r.symches@),
                ..old(self)@
            }) && r.id == old(self)@.powersets.len() + 1,
    {
        let key = canonicalize(&symches);
        let found = self.find_powerset(&key);
        if found != 0 {
            return Powerset { symches: key, id: found };
        }
        let ghost before = self@;
        let copy = key.clone();
        self.powersets.push(Powerset { symches: copy, id: 0 });
        let id = self.powersets.len();
        self.powersets[id - 1].id = id;
        proof {
            let after = self@;
            assert(after.powersets =~= before.powersets.push(key@));
            assert(after.nidsets =~= before.nidsets);
            assert(after.extends(before));
            assert forall|other: int| after.has_nidset(other) implies #[trigger] after.glade_ok(
                other,
            ) by {
                assert(before.glade_ok(other));
                lemma_glade_ok_extends(before, after, other);
            }
            assert forall|i: int, j: int| 0 <= i < j < after.powersets.len() implies #[trigger] after.powersets[i]
                != #[trigger] after.powersets[j] by {
                if j == id - 1 {
                    assert(before.has_powerset(i + 1));
                    assert(before.symch_ids(i + 1) != key@);
                } else {
                    assert(before.powersets[i] != before.powersets[j]);
                }
            }
            assert(after == (Tables { powersets: before.powersets.push(key@), ..before }));
        }
        Powerset { symches: key, id }
    }

    /// Marks the glade with id `id` as reached.
    fn register(&mut self, id: usize)
        requires
            old(self).wf(),
            old(self)@.has_nidset(id as int),
            old(self)@.nids_ok(id as int),
        ensures
            final(self).wf(),
            final(self)@.grown(old(self)@),
            final(self)@.is_registered(id as int),
            final(self)@.nidsets == old(self)@.nidsets,
    {
        let ghost before = self@;
        self.glades[id - 1].registered = true;
        proof {
            let after = self@;
            assert(after.nidsets =~= before.nidsets);
            assert(after.powersets =~= before.powersets);
            assert(after.glades =~= before.glades.update(id - 1, after.glades[id - 1]));
            lemma_computed_count_update(before.glades, id - 1, after.glades[id - 1]);
            assert(after.extends(before));
            assert forall|other: int| after.has_nidset(other) implies #[trigger] after.glade_ok(
                other,
            ) by {
                assert(before.glade_ok(other));
                if other != id {
                    lemma_glade_ok_extends(before, after, other);
                } else {
                    assert(after.nids(id as int) == before.nids(id as int));
                    assert(after.nids_ok(id as int));
                    match after.glade(id as int).symches {
                        Some(sy) => {
                            lemma_symches_ok_extends(before, after, before.nids(id as int), sy@);
                        },
                        None => {},
                    }
                }
            }
        }
    }

    /// The glade of `nid` alone, registered.
    fn child_glade(&mut self, nid: i32) -> (glade: usize)
        requires
            old(self).wf(),
            nid_ok(old(self)@.forest, nid as int),
        ensures
            final(self).wf(),
            final(self)@.grown(old(self)@),
            final(self)@.child_ok(glade as int, nid),
    {
        let ghost before = self@;
        let (glade, key) = self.intset_id(vec![nid]);
        proof {
            assert(seq![nid][0] == nid);
            assert(seq![nid].contains(nid));
            lemma_canonical_unique(key@, seq![nid]);
            assert(self@.nids(glade as int)[0] == nid);
            assert(self@.grown(before));
        }
        let ghost middle = self@;
        self.register(glade);
        proof {
            lemma_grown_transitive(before, middle, self@);
        }
        glade
    }

    /// The glades of the children that one factoring names.
    fn factoring_glades(&mut self, row: &Vec<i32>) -> (out: Vec<usize>)
        requires
            old(self).wf(),
            forall|k: int| 0 <= k < row@.len() ==> nid_ok(old(self)@.forest, #[trigger] row@[k] as int),
        ensures
            final(self).wf(),
            final(self)@.grown(old(self)@),
            final(self)@.factoring_ok(out@, row@),
    {
        let mut out: Vec<usize> = Vec::new();
        let mut k: usize = 0;
        while k < row.len()
            invariant
                self.wf(),
                self@.grown(old(self)@),
                forall|c: int| 0 <= c < row@.len() ==> nid_ok(old(self)@.forest, #[trigger] row@[c] as int),
                k <= row@.len(),
                out@.len() == k,
                forall|c: int| 0 <= c < k ==> self@.child_ok(#[trigger] out@[c] as int, row@[c]),
            decreases row@.len() - k,
        {
            let ghost before = self@;
            let ghost done = out@;
            let glade = self.child_glade(row[k]);
            out.push(glade);
            proof {
                lemma_grown_transitive(old(self)@, before, self@);
                assert forall|c: int| 0 <= c < k + 1 implies self@.child_ok(
                    #[trigger] out@[c] as int,
                    row@[c],
                ) by {
                    if c < k {
                        assert(out@[c] == done[c]);
                        assert(before.child_ok(done[c] as int, row@[c]));
                        let g = done[c] as int;
                        assert(self@.nidsets[g - 1] == before.nidsets[g - 1]);
                        assert(Tables::glade_kept(before.glades[g - 1], self@.glades[g - 1]));
                    }
                }
            }
            k += 1;
        }
        out
    }

    /// The glades of the children that each of the factorings names.
    fn factorings_glades(&mut self, nid_rows: &Vec<Vec<i32>>) -> (out: Vec<Vec<usize>>)
        requires
            old(self).wf(),
            forall|j: int, c: int|
                0 <= j < nid_rows@.len() && 0 <= c < nid_rows@[j]@.len() ==> nid_ok(
                    old(self)@.forest,
                    #[trigger] nid_rows@[j]@[c] as int,
                ),
        ensures
            final(self).wf(),
            final(self)@.grown(old(self)@),
            out@.len() == nid_rows@.len(),
            forall|j: int|
                0 <= j < out@.len() ==> final(self)@.factoring_ok(
                    (#[trigger] out@[j])@,
                    nid_rows@[j]@,
                ),
    {
        let mut out: Vec<Vec<usize>> = Vec::new();
        let mut j: usize = 0;
        while j < nid_rows.len()
            invariant
                self.wf(),
                self@.grown(old(self)@),
                forall|r: int, c: int|
                    0 <= r < nid_rows@.len() && 0 <= c < nid_rows@[r]@.len() ==> nid_ok(
                        old(self)@.forest,
                        #[trigger] nid_rows@[r]@[c] as int,
                    ),
                j <= nid_rows@.len(),
                out@.len() == j,
                forall|r: int|
                    0 <= r < j ==> self@.factoring_ok((#[trigger] out@[r])@, nid_rows@[r]@),
            decreases nid_rows@.len() - j,
        {
            let ghost before = self@;
            let ghost done = out@;
            let glades = self.factoring_glades(&nid_rows[j]);
            out.push(glades);
            proof {
                lemma_grown_transitive(old(self)@, before, self@);
                assert forall|r: int| 0 <= r < j + 1 implies self@.factoring_ok(
                    (#[trigger] out@[r])@,
                    nid_rows@[r]@,
                ) by {
                    if r < j {
                        assert(out@[r] == done[r]);
                        lemma_factoring_ok_extends(before, self@, done[r]@, nid_rows@[r]@);
                    }
                }
            }
            j += 1;
        }
        out
    }

    /// The symch of the token leaves in the nidset with id `sid`.
    fn token_symch(&mut self, sid: usize, glade_nids: &Vec<i32>) -> (sy: Symch)
        requires
            old(self).wf(),
            old(self)@.has_nidset(sid as int),
            old(self)@.nids(sid as int).len() > 0,
            old(self)@.nids(sid as int)[0] < 0,
            nid_ok(old(self)@.forest, old(self)@.nids(sid as int)[0] as int),
            is_group(
                old(self)@.forest,
                glade_nids@,
                sort_ix(old(self)@.forest, old(self)@.nids(sid as int)[0] as int),
                old(self)@.nids(sid as int),
            ),
        ensures
            final(self).wf(),
            final(self)@.grown(old(self)@),
            sy.nidset == sid,
            final(self)@.symch_ok(glade_nids@, sy),
    {
        let first = self.nidsets[sid - 1].nids[0];
        let base = self.child_glade(first);
        let mut row: Vec<usize> = Vec::new();
        row.push(base);
        let mut factorings: Vec<Vec<usize>> = Vec::new();
        factorings.push(row);
        let sy = Symch { nidset: sid, rule_id: TOKEN_RULE_ID, factorings, omitted: false };
        proof {
            assert(self@.nids(sid as int) == old(self)@.nids(sid as int));
            assert(sy.factorings@[0]@ =~= seq![base]);
            assert(self@.factoring_ok(sy.factorings@[0]@, seq![first]));
        }
        sy
    }

    /// The symch of the or-nodes in the nidset with id `sid`.
    fn rule_symch(&mut self, sid: usize, glade_nids: &Vec<i32>) -> (sy: Symch)
        requires
            old(self).wf(),
            old(self)@.has_nidset(sid as int),
            old(self)@.nids(sid as int).len() > 0,
            old(self)@.nids(sid as int)[0] >= 0,
            forall|k: int|
                0 <= k < old(self)@.nids(sid as int).len() ==> old(self)@.forest.has_or_node(
                    #[trigger] old(self)@.nids(sid as int)[k] as int,
                ),
            is_group(
                old(self)@.forest,
                glade_nids@,
                sort_ix(old(self)@.forest, old(self)@.nids(sid as int)[0] as int),
                old(self)@.nids(sid as int),
            ),
        ensures
            final(self).wf(),
            final(self)@.grown(old(self)@),
            sy.nidset == sid,
            final(self)@.symch_ok(glade_nids@, sy),
    {
        let members = self.nidsets[sid - 1].nids.clone();
        let first = members[0];
        let rule_id = self.forest.or_nodes[first as usize].rule;
        let ghost all = symch_factorings(self@.forest, members@);
        let mut nid_rows = symch_factorings_limited(
            &self.forest,
            &self.or_nodes,
            &members,
            self.factoring_max + 1,
        );
        let omitted = nid_rows.len() > self.factoring_max;
        if omitted {
            nid_rows.truncate(self.factoring_max);
        }
        proof {
            assert(rows(nid_rows) =~= first_n(all, self.factoring_max as int));
            assert forall|j: int, c: int|
                0 <= j < nid_rows@.len() && 0 <= c < nid_rows@[j]@.len() implies nid_ok(
                self@.forest,
                #[trigger] nid_rows@[j]@[c] as int,
            ) by {
                assert(nid_rows@[j]@ == rows(nid_rows)[j]);
                assert(rows(nid_rows)[j] == all[j]);
                lemma_symch_factoring_nids_ok(
                    self@.forest,
                    members@,
                    members@.len() as int,
                    j,
                    c,
                );
            }
        }
        let factorings = self.factorings_glades(&nid_rows);
        let sy = Symch { nidset: sid, rule_id, factorings, omitted };
        proof {
            assert(self@.nids(sid as int) == old(self)@.nids(sid as int));
            assert forall|j: int| 0 <= j < sy.factorings@.len() implies self@.factoring_ok(
                (#[trigger] sy.factorings@[j])@,
                all[j],
            ) by {
                assert(nid_rows@[j]@ == rows(nid_rows)[j]);
            }
        }
        sy
    }

    /// Computes the symches of the glade with id `glade_id` and keeps them.
    fn compute_symches(&mut self, glade_id: usize)
        requires
            old(self).wf(),
            old(self)@.is_registered(glade_id as int),
            !old(self)@.is_computed(glade_id as int),
        ensures
            final(self).wf(),
            final(self)@.extends(old(self)@),
            final(self)@.is_computed(glade_id as int),
            final(self)@.computations == old(self)@.computations + 1,
    {
        let ghost start = self@;
        let members = self.nidsets[glade_id - 1].nids.clone();
        proof {
            assert(start.glade_ok(glade_id as int));
            assert(start.nids_ok(glade_id as int));
            assert(members@ == start.nids(glade_id as int));
        }
        let (keys, groups) = symch_groups(&self.forest, &members);
        // one nidset for every run of one sort index
        let mut symch_ids: Vec<usize> = Vec::new();
        let mut t: usize = 0;
        while t < groups.len()
            invariant
                self.wf(),
                self@.grown(start),
                t <= groups@.len(),
                symch_ids@.len() == t,
                forall|g: int|
                    0 <= g < groups@.len() ==> strictly_increasing((#[trigger] groups@[g])@),
                forall|g: int|
                    0 <= g < t ==> self@.has_nidset(#[trigger] symch_ids@[g] as int) && self@.nids(
                        symch_ids@[g] as int,
                    ) == groups@[g]@,
            decreases groups@.len() - t,
        {
            let ghost before = self@;
            let ghost done = symch_ids@;
            let (id, key) = self.intset_id(groups[t].clone());
            symch_ids.push(id);
            proof {
                lemma_canonical_unique(key@, groups@[t as int]@);
                assert(self@.grown(before));
                lemma_grown_transitive(start, before, self@);
                assert forall|g: int| 0 <= g < t + 1 implies self@.has_nidset(
                    #[trigger] symch_ids@[g] as int,
                ) && self@.nids(symch_ids@[g] as int) == groups@[g]@ by {
                    if g < t {
                        assert(symch_ids@[g] == done[g]);
                        lemma_ids_never_reused(before, self@, done[g] as int);
                    }
                }
            }
            t += 1;
        }
        let ghost grouped = self@;
        // the symch ids of the glade are kept as one powerset
        let _ = self.obtain_powerset(symch_ids.clone());
        proof {
            assert(self@.grown(grouped));
            lemma_grown_transitive(start, grouped, self@);
        }
        // the symches, in the order of the sort indexes
        let mut symches: Vec<Symch> = Vec::new();
        let mut i: usize = 0;
        while i < symch_ids.len()
            invariant
                self.wf(),
                self@.grown(start),
                start.wf(),
                start.is_registered(glade_id as int),
                members@ == start.nids(glade_id as int),
                start.nids_ok(glade_id as int),
                keys@.len() == groups@.len(),
                symch_ids@.len() == groups@.len(),
                forall|g: int|
                    0 <= g < groups@.len() ==> (#[trigger] groups@[g])@.len() > 0 && is_group(
                        start.forest,
                        members@,
                        keys@[g] as int,
                        groups@[g]@,
                    ),
                forall|g: int|
                    0 <= g < groups@.len() ==> self@.has_nidset(#[trigger] symch_ids@[g] as int)
                        && self@.nids(symch_ids@[g] as int) == groups@[g]@,
                i <= symch_ids@.len(),
                symches@.len() == i,
                forall|d: int|
                    0 <= d < i ==> (#[trigger] symches@[d]).nidset == symch_ids@[d]
                        && self@.symch_ok(members@, symches@[d]),
            decreases symch_ids@.len() - i,
        {
            let ghost before = self@;
            let ghost done = symches@;
            let sid = symch_ids[i];
            proof {
                let g = i as int;
                assert(self@.has_nidset(symch_ids@[g] as int));
                let run = groups@[g]@;
                assert(run.len() > 0);
                assert(run.contains(run[0]));
                assert forall|k: int| 0 <= k < run.len() implies nid_ok(
                    start.forest,
                    #[trigger] run[k] as int,
                ) && sort_ix(start.forest, run[k] as int) == keys@[g] by {
                    assert(run.contains(run[k]));
                    assert(members@.contains(run[k]));
                    let m = choose|m: int| 0 <= m < members@.len() && members@[m] == run[k];
                    assert(nid_ok(start.forest, start.nids(glade_id as int)[m] as int));
                }
                assert forall|k: int| 0 <= k < run.len() && run[0] >= 0 implies start.forest.has_or_node(
                    #[trigger] run[k] as int,
                ) by {
                    lemma_sort_ix_ranges(start.forest, run[k] as int);
                    lemma_sort_ix_ranges(start.forest, run[0] as int);
                }
            }
            let first = self.nidsets[sid - 1].nids[0];
            let sy = if first < 0 {
                self.token_symch(sid, &members)
            } else {
                self.rule_symch(sid, &members)
            };
            symches.push(sy);
            proof {
                lemma_grown_transitive(start, before, self@);
                assert forall|d: int| 0 <= d < i + 1 implies (#[trigger] symches@[d]).nidset
                    == symch_ids@[d] && self@.symch_ok(members@, symches@[d]) by {
                    if d < i {
                        assert(symches@[d] == done[d]);
                        lemma_symch_ok_extends(before, self@, members@, done[d]);
                    }
                }
                assert forall|g: int| 0 <= g < groups@.len() implies self@.has_nidset(
                    #[trigger] symch_ids@[g] as int,
                ) && self@.nids(symch_ids@[g] as int) == groups@[g]@ by {
                    lemma_ids_never_reused(before, self@, symch_ids@[g] as int);
                }
            }
            i += 1;
        }
        let symbol_id = if members.len() > 0 && members[0] < 0 {
            proof {
                assert(nid_ok(start.forest, start.nids(glade_id as int)[0] as int));
                assert(self.forest.and_node_ok(leaf_and_node(members@[0] as int)));
            }
            let and_node = nid_to_and_node(members[0]);
            self.forest.tokens[self.forest.and_nodes[and_node as usize].symbol as usize]
        } else {
            NONE
        };
        let total = self.glades.len();
        let ghost before = self@;
        proof {
            // every member of the glade is in one of the symches
            assert forall|k: int| 0 <= k < members@.len() implies before.covered(
                symches@,
                #[trigger] members@[k],
            ) by {
                let n = members@[k];
                assert(nid_ok(start.forest, start.nids(glade_id as int)[k] as int));
                lemma_sort_ix_ranges(start.forest, n as int);
                assert(has_key(keys@, sort_ix(start.forest, members@[k] as int)));
                let g = choose|g: int|
                    0 <= g < keys@.len() && #[trigger] keys@[g] == sort_ix(start.forest, n as int);
                assert(members@.contains(n));
                assert(groups@[g]@.contains(n));
                assert(before.has_nidset(symch_ids@[g] as int));
                assert(symches@[g].nidset == symch_ids@[g]);
            }
            // the symches come by increasing sort index
            assert forall|a: int| 0 <= a < symches@.len() implies before.symch_key(
                #[trigger] symches@[a],
            ) == keys@[a] by {
                assert(symches@[a].nidset == symch_ids@[a]);
                assert(before.has_nidset(symch_ids@[a] as int));
                let run = groups@[a]@;
                assert(run.contains(run[0]));
            }
            assert forall|a: int, b: int| 0 <= a < b < symches@.len() implies before.symch_key(
                #[trigger] symches@[a],
            ) < before.symch_key(#[trigger] symches@[b]) by {
                assert(keys@[a].rank() < keys@[b].rank());
            }
            assert(before.symches_ok(members@, symches@));
            assert(before.glades[glade_id - 1].symches == start.glades[glade_id - 1].symches);
            lemma_computed_count_bound(
                before.glades.update(
                    glade_id - 1,
                    Glade { symches: Some(symches), symbol_id, ..before.glades[glade_id - 1] },
                ),
            );
            lemma_computed_count_update(
                before.glades,
                glade_id - 1,
                Glade { symches: Some(symches), symbol_id, ..before.glades[glade_id - 1] },
            );
            assert(start.glades[glade_id - 1].symches is None);
            assert(before.computations == computed_count(before.glades));
            assert(before.computations + 1 <= before.glades.len());
            assert(before.glades.len() == total);
        }
        self.glades[glade_id - 1].symbol_id = symbol_id;
        self.glades[glade_id - 1].symches = Some(symches);
        self.computations = self.computations + 1;
        proof {
            let after = self@;
            assert(after.nidsets =~= before.nidsets);
            assert(after.powersets =~= before.powersets);
            assert(after.glades =~= before.glades.update(glade_id - 1, after.glades[glade_id - 1]));
            assert(after.extends(before));
            lemma_extends_transitive(start, before, after);
            assert forall|other: int| after.has_nidset(other) implies #[trigger] after.glade_ok(
                other,
            ) by {
                assert(before.glade_ok(other));
                if other != glade_id {
                    lemma_glade_ok_extends(before, after, other);
                } else {
                    assert(after.nids(other) == members@);
                    assert(Tables::glade_kept(start.glades[other - 1], before.glades[other - 1]));
                    lemma_symches_ok_extends(before, after, members@, symches@);
                }
            }
        }
    }

    /// The glade with id `glade_id`, with its symches.  They are computed
    /// when the glade is asked for the first time and kept from then on.
    pub fn glade_obtain(&mut self, glade_id: usize) -> (r: Result<&Glade, Fault>)
        requires
            old(self).wf(),
            old(self)@.is_registered(glade_id as int),
        ensures
            final(self).wf(),
            glade_obtained(old(self)@, glade_id as int, final(self)@),
            r matches Ok(g) && *g == final(self)@.glade(glade_id as int),
    {
        if self.glades[glade_id - 1].symches.is_none() {
            self.compute_symches(glade_id);
        }
        proof {
            assert(self@.glade_ok(glade_id as int));
            assert(self@.glade(glade_id as int).symches is Some);
        }
        Ok(&self.glades[glade_id - 1])
    }

    /// The syntax forest over `forest`, with nothing computed yet.
    ///
    /// The and-node ids of the or-nodes are read once, from or-node 0
    /// upwards, until an or-node reports none.
    pub fn new(forest: Forest) -> (r: Result<ASF, Fault>)
        ensures
            forest.is_null() ==> (r matches Err(e) && e == Fault::NullParse),
            !forest.is_null() && !forest.wf() ==> (r matches Err(e) && e == Fault::MalformedForest),
            !forest.is_null() && forest.wf() ==> (r matches Ok(asf) && asf.wf() && asf@ == (Tables {
                forest,
                factoring_max: FACTORING_MAX as int,
                nidsets: Seq::empty(),
                powersets: Seq::empty(),
                glades: Seq::empty(),
                computations: 0,
            })),
    {
        if forest.null() {
            return Err(Fault::NullParse);
        }
        if !forest.is_well_formed() {
            return Err(Fault::MalformedForest);
        }
        let mut or_nodes: Vec<Nidset> = Vec::new();
        let mut or_node_id: usize = 0;
        loop
            invariant_except_break
                forest.wf(),
                or_node_id <= forest.or_nodes@.len(),
                or_nodes@.len() == or_node_id,
                forall|o: int|
                    0 <= o < or_node_id ==> (#[trigger] or_nodes@[o]).nids@ == forest.and_ids(o)
                        && or_nodes@[o].id == o,
            ensures
                index_matches(forest, or_nodes@),
            decreases forest.or_nodes@.len() - or_node_id,
        {
            let and_node_ids = forest.or_node_and_node_ids(or_node_id);
            if and_node_ids.len() == 0 {
                proof {
                    if or_node_id < forest.or_nodes@.len() {
                        assert(forest.or_node_ok(or_node_id as int));
                    }
                }
                break ;
            }
            or_nodes.push(Nidset { id: or_node_id, nids: and_node_ids });
            or_node_id += 1;
        }
        let asf = ASF {
            factoring_max: FACTORING_MAX,
            nidsets: Vec::new(),
            powersets: Vec::new(),
            glades: Vec::new(),
            or_nodes,
            forest,
            computations: 0,
        };
        proof {
            assert(asf@.nidsets =~= Seq::empty());
            assert(asf@.powersets =~= Seq::empty());
            assert(asf@.glades =~= Seq::empty());
        }
        Ok(asf)
    }

    /// Finds the glade at the root of the forest, registers it and computes
    /// its symches.
    ///
    /// The engine's top or-node stands for a rule that the engine added
    /// around the grammar's start symbol.  The root glade is the glade of
    /// the or-node that caused the first and-node of the top or-node.
    pub fn peak(&mut self) -> (r: Result<usize, Fault>)
        requires
            old(self).wf(),
        ensures
            final(self).wf(),
            final(self)@.extends(old(self)@),
            r matches Ok(id) && final(self)@.child_ok(id as int, peak_nid(old(self)@.forest))
                && final(self)@.is_computed(id as int) && final(self)@.symches_ok(
                final(self)@.nids(id as int),
                final(self)@.glade(id as int).symches->0@,
            ),
    {
        let ghost start = self@;
        let augment_or_node_id = match self.forest.top_or_node() {
            Ok(id) => id,
            Err(e) => {
                return Err(e);
            },
        };
        let augment_and_node_id = self.or_nodes[augment_or_node_id as usize].nids[0];
        let start_or_node_id = match self.forest.and_node_cause(augment_and_node_id) {
            Ok(id) => id,
            Err(e) => {
                return Err(e);
            },
        };
        proof {
            assert(self.forest.and_node_ok(augment_and_node_id as int));
        }
        let glade_id = self.child_glade(start_or_node_id);
        let ghost registered = self@;
        // the glade is registered, so it can be obtained
        match self.glade_obtain(glade_id) {
            Ok(_) => {},
            Err(e) => {
                return Err(e);
            },
        }
        proof {
            lemma_extends_transitive(start, registered, self@);
            lemma_ids_never_reused(registered, self@, glade_id as int);
            assert(Tables::glade_kept(registered.glades[glade_id - 1], self@.glades[glade_id - 1]));
        }
        Ok(glade_id)
    }

    /// Walks the forest: finds the peak and hands it, with `init_state`, to
    /// `traverser`, whose result is returned as it is.
    pub fn traverse<V: Traverser>(&mut self, init_state: V::ParseState, traverser: V) -> (r: Result<
        (V::ParseTree, V::ParseState),
        Fault,
    >)
        requires
            old(self).wf(),
        ensures
            final(self).wf(),
            final(self)@.extends(old(self)@),
            traversed(traverser, old(self)@, init_state, final(self)@, r),
    {
        let peak = match self.peak() {
            Ok(id) => id,
            Err(e) => {
                return Err(e);
            },
        };
        let ghost at_peak = self@;
        let r = traverser.traverse_glade(self, peak, init_state);
        proof {
            assert(traverser.visits(at_peak, peak as int, init_state, self@, r));
            lemma_extends_transitive(old(self)@, at_peak, self@);
        }
        r
    }

    /// Whether a visitor has marked the glade with id `glade_id`.  A glade
    /// that does not exist is not marked.
    pub fn glade_is_visited(&self, glade_id: usize) -> (b: bool)
        requires
            self.wf(),
        ensures
            b == (self@.has_nidset(glade_id as int) && self@.glade(glade_id as int).visited),
    {
        if glade_id >= 1 && glade_id <= self.glades.len() {
            self.glades[glade_id - 1].visited
        } else {
            false
        }
    }

    /// Marks the glade with id `glade_id` for the visitor.  The mark has no
    /// bearing on what the forest computes.
    pub fn glade_visited(&mut self, glade_id: usize)
        requires
            old(self).wf(),
        ensures
            final(self).wf(),
            final(self)@.extends(old(self)@),
            !old(self)@.has_nidset(glade_id as int) ==> final(self)@ == old(self)@,
            old(self)@.has_nidset(glade_id as int) ==> final(self)@ == (Tables {
                glades: old(self)@.glades.update(
                    glade_id - 1,
                    Glade { visited: true, ..old(self)@.glade(glade_id as int) },
                ),
                ..old(self)@
            }),
    {
        if glade_id >= 1 && glade_id <= self.glades.len() {
            let ghost before = self@;
            self.glades[glade_id - 1].visited = true;
            proof {
                let after = self@;
                assert(after.nidsets =~= before.nidsets);
                assert(after.powersets =~= before.powersets);
                assert(after.glades =~= before.glades.update(
                    glade_id - 1,
                    Glade { visited: true, ..before.glade(glade_id as int) },
                ));
                lemma_computed_count_update(before.glades, glade_id - 1, after.glades[glade_id - 1]);
                assert(after.extends(before));
                assert forall|other: int| after.has_nidset(other) implies #[trigger] after.glade_ok(
                    other,
                ) by {
                    assert(before.glade_ok(other));
                    lemma_glade_ok_extends(before, after, other);
                }
            }
        }
    }

    /// Whether the glade with id `glade_id` exists and has been reached from
    /// the peak, so that it can be obtained.
    pub fn glade_is_registered(&self, glade_id: usize) -> (b: bool)
        requires
            self.wf(),
        ensures
            b == self@.is_registered(glade_id as int),
    {
        if glade_id >= 1 && glade_id <= self.glades.len() {
            self.glades[glade_id - 1].registered
        } else {
            false
        }
    }

    /// The nidset with id `id`, if there is one.
    pub fn nidset(&self, id: usize) -> (r: Option<&Nidset>)
        requires
            self.wf(),
        ensures
            r is Some <==> self@.has_nidset(id as int),
            r matches Some(n) ==> n.id == id && n.nids@ == self@.nids(id as int),
    {
        if id >= 1 && id <= self.nidsets.len() {
            Some(&self.nidsets[id - 1])
        } else {
            None
        }
    }

    /// The sort index of `nid`: for an or-node the id of its rule, for a
    /// token leaf a negative key made from the id of the token.  Fails with
    /// the fault of the forest where `nid` names neither.
    pub fn nid_sort_ix(&self, nid: i32) -> (r: Result<i32, Fault>)
        requires
            self.wf(),
        ensures
            nid_ok(self@.forest, nid as int) ==> (r matches Ok(ix) && ix == sort_ix(
                self@.forest,
                nid as int,
            )),
            nid >= 0 && self@.forest.has_or_node(nid as int) ==> r == Ok::<i32, Fault>(
                self@.forest.or_nodes@[nid as int].rule,
            ),
            nid >= 0 && !self@.forest.has_or_node(nid as int) ==> r == Err::<i32, Fault>(
                Fault::NoSuchOrNode(nid),
            ),
            nid < 0 && !self@.forest.has_and_node(leaf_and_node(nid as int)) ==> r == Err::<
                i32,
                Fault,
            >(Fault::NoSuchAndNode(leaf_and_node(nid as int) as i32)),
            nid < 0 && self@.forest.has_and_node(leaf_and_node(nid as int)) && !nid_ok(
                self@.forest,
                nid as int,
            ) ==> r == Err::<i32, Fault>(Fault::NoSuchSymbol(NONE)),
    {
        proof {
            if nid_ok(self@.forest, nid as int) {
                lemma_sort_ix_ranges(self@.forest, nid as int);
            }
        }
        crate::asf::symch::nid_sort_ix(&self.forest, nid)
    }

    /// How often the symches of a glade have been computed so far.
    pub fn symch_computations(&self) -> (n: usize)
        ensures
            n == self@.computations,
    {
        self.computations
    }

    /// The largest number of factorings that a symch lists.
    pub fn factoring_max(&self) -> (n: usize)
        ensures
            n == self@.factoring_max,
    {
        self.factoring_max
    }
}

/// The nid from which the root glade is made: the or-node that caused the
/// first and-node of the top or-node.
pub open spec fn peak_nid(forest: Forest) -> i32 {
    forest.and_nodes@[forest.and_ids(forest.top as int)[0] as int].cause
}

/// A strategy for walking the forest.
///
/// The forest hands the visitor a glade that has its symches.  What the
/// visitor makes of the choices is its own business: it may follow every
/// factoring or only one.  To look into a child glade it obtains the glade
/// from the forest.  The visitor works on the forest that it was handed: it
/// may make the tables grow, and must leave every set under its id and
/// every glade with what was computed for it.
pub trait Traverser {
    /// What the visitor makes of a glade.
    type ParseTree;

    /// What the visitor carries from glade to glade.
    type ParseState;

    /// What the visitor does: how a visit to the glade with id `glade`,
    /// begun with `state`, may leave the tables and what it may return.  A
    /// visitor that says nothing of itself may do anything.
    open spec fn visits(
        &self,
        before: Tables,
        glade: int,
        state: Self::ParseState,
        after: Tables,
        r: Result<(Self::ParseTree, Self::ParseState), Fault>,
    ) -> bool {
        true
    }

    /// Visits the glade with id `glade`.
    fn traverse_glade(&self, asf: &mut ASF, glade: usize, state: Self::ParseState) -> (r: Result<
        (Self::ParseTree, Self::ParseState),
        Fault,
    >)
        requires
            old(asf).wf(),
            old(asf)@.is_registered(glade as int),
            old(asf)@.is_computed(glade as int),
        ensures
            final(asf).wf(),
            final(asf)@.extends(old(asf)@),
            self.visits(old(asf)@, glade as int, state, final(asf)@, r),
    ;
}

/// What a traversal with `traverser` does: the peak is found and computed,
/// and the visitor visits it, beginning with `init_state`.  What the visitor
/// returns is the result.
pub open spec fn traversed<V: Traverser>(
    traverser: V,
    before: Tables,
    init_state: V::ParseState,
    after: Tables,
    r: Result<(V::ParseTree, V::ParseState), Fault>,
) -> bool {
    exists|at_peak: Tables, peak: int|
        {
            &&& at_peak.wf()
            &&& at_peak.extends(before)
            &&& at_peak.child_ok(peak, peak_nid(before.forest))
            &&& at_peak.is_computed(peak)
            &&& #[trigger] traverser.visits(at_peak, peak, init_state, after, r)
        }
}

/// How the tables stand after the glade with id `id` has been obtained:
/// they have grown out of what they were, and the glade has its symches,
/// which are those of its members.  Where the glade had its symches before,
/// nothing has changed at all; where it had none, one computation has been
/// counted.
pub open spec fn glade_obtained(before: Tables, id: int, after: Tables) -> bool {
    &&& after.extends(before)
    &&& after.is_registered(id)
    &&& after.is_computed(id)
    &&& after.symches_ok(after.nids(id), after.glade(id).symches->0@)
    &&& before.is_computed(id) ==> after == before
    &&& !before.is_computed(id) ==> after.computations == before.computations + 1
}

/// Obtaining a glade a second time computes nothing and gives the same
/// glade: the symches of a glade are computed once.
pub proof fn lemma_glade_obtain_once(t0: Tables, t1: Tables, t2: Tables, id: int)
    requires
        glade_obtained(t0, id, t1),
        glade_obtained(t1, id, t2),
    ensures
        t2 == t1,
        t2.glade(id) == t1.glade(id),
        t2.computations == t1.computations,
        t2.computations <= t0.computations + 1,
{
}

} // verus!
