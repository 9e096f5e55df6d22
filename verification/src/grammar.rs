//! A small language for writing grammars.
//!
//! The first 256 symbols of a grammar stand for the bytes.  Every helper
//! adds the rules for one construct and hands back an item that names the
//! last rule, which defines the symbol of the construct.

use vstd::prelude::*;
use vstd::string::StringSliceAdditionalSpecFns;
use std::collections::HashMap;
use std::collections::HashSet;
use crate::result::Fault;
use crate::thin;
use crate::thin::grammar::GrammarView;
use crate::thin::{Rule, Symbol};

verus! {

/// How many symbols stand for bytes.
pub const BYTE_SYMBOLS: i32 = 256;

/// A name for a symbol: the symbol itself, or a rule that defines it.
#[derive(Copy, Clone, Debug, PartialEq, Eq)]
pub enum Item {
    /// The symbol that this rule defines.
    Rule(Rule),
    /// This symbol.
    Symbol(Symbol),
}

impl Item {
    /// The rule that the item names.
    pub fn rule(self) -> (r: Rule)
        requires
            self is Rule,
        ensures
            self == Item::Rule(r),
    {
        match self {
            Item::Rule(r) => r,
            Item::Symbol(_) => vstd::pervasive::unreached(),
        }
    }

    /// The symbol that the item is.
    pub fn symbol(self) -> (s: Symbol)
        requires
            self is Symbol,
        ensures
            self == Item::Symbol(s),
    {
        match self {
            Item::Symbol(s) => s,
            Item::Rule(_) => vstd::pervasive::unreached(),
        }
    }
}

/// A grammar that is being written.
pub struct Grammar {
    internal: thin::Grammar,
    rules: HashMap<Rule, Symbol>,
}

/// The table has grown by `symbols` symbols and `rules` rules, and nothing
/// that was in it has changed.
pub open spec fn grew(before: GrammarView, after: GrammarView, symbols: int, rules: int) -> bool {
    &&& after.symbol_count == before.symbol_count + symbols
    &&& after.rules.len() == before.rules.len() + rules
    &&& after.rules.subrange(0, before.rules.len() as int) == before.rules
    &&& after.start == before.start
    &&& after.error == before.error
}

/// Rule `i` of the table is the plain rule `lhs -> rhs`.
pub open spec fn rule_at(g: GrammarView, i: int, lhs: Symbol, rhs: Seq<Symbol>) -> bool {
    &&& 0 <= i < g.rules.len()
    &&& g.rules[i].lhs == lhs
    &&& g.rules[i].rhs@ == rhs
    &&& g.rules[i].sequence is None
}

/// The symbols that stand for `bytes`.
pub open spec fn byte_symbols(bytes: Seq<u8>) -> Seq<Symbol> {
    Seq::new(bytes.len(), |i: int| bytes[i] as Symbol)
}

/// The symbols of the bytes below `upto` that are not in `bytes`, in
/// increasing order.
pub open spec fn bytes_outside(bytes: Seq<u8>, upto: int) -> Seq<Symbol>
    decreases upto,
{
    if upto <= 0 {
        Seq::empty()
    } else if bytes.contains((upto - 1) as u8) {
        bytes_outside(bytes, upto - 1)
    } else {
        bytes_outside(bytes, upto - 1).push((upto - 1) as Symbol)
    }
}

/// The bytes from `from` to `to`, both included.
pub open spec fn byte_range_seq(from: u8, to: u8) -> Seq<u8> {
    if from <= to {
        Seq::new((to - from + 1) as nat, |i: int| (from + i) as u8)
    } else {
        Seq::empty()
    }
}

impl Grammar {
    /// The table of symbols and rules.
    pub closed spec fn table(self) -> GrammarView {
        self.internal@
    }

    /// The symbol that each rule handed out as an item defines.
    pub closed spec fn lhs_of(self) -> Map<Rule, Symbol> {
        self.rules@
    }

    /// Well-formedness: the table is well-formed, and every rule that was
    /// handed out as an item is in it and defines the symbol on record.
    pub closed spec fn wf(self) -> bool {
        &&& self.internal@.wf()
        &&& forall|r: Rule| #[trigger]
            self.rules@.contains_key(r) ==> self.internal@.has_rule(r as int)
                && self.internal@.rules[r as int].lhs == self.rules@[r]
    }

    /// Whether the grammar can tell which symbol `item` names.
    pub open spec fn knows(self, item: Item) -> bool {
        match item {
            Item::Rule(r) => self.lhs_of().contains_key(r),
            Item::Symbol(_) => true,
        }
    }

    /// Whether the grammar knows all of `items`.
    pub open spec fn knows_all(self, items: Seq<Item>) -> bool {
        forall|i: int| 0 <= i < items.len() ==> self.knows(#[trigger] items[i])
    }

    /// The symbol that `item` names.
    pub open spec fn resolve(self, item: Item) -> Symbol {
        match item {
            Item::Rule(r) => self.lhs_of()[r],
            Item::Symbol(s) => s,
        }
    }

    /// The symbols that `items` name.
    pub open spec fn resolve_all(self, items: Seq<Item>) -> Seq<Symbol> {
        Seq::new(items.len(), |i: int| self.resolve(items[i]))
    }

    /// The symbol that a construct defines: the one that `lhs` names, or
    /// a new one.
    pub open spec fn lhs_symbol(self, lhs: Option<Item>) -> Symbol {
        match lhs {
            Some(item) => self.resolve(item),
            None => self.table().symbol_count as Symbol,
        }
    }

    /// How many symbols are added for the left side: one where none was
    /// given.
    pub open spec fn lhs_cost(lhs: Option<Item>) -> int {
        match lhs {
            Some(_) => 0,
            None => 1,
        }
    }

    /// Nothing that was in the grammar is lost: the table has only grown,
    /// and every item that was known names what it named.
    pub open spec fn extends(self, before: Grammar) -> bool {
        &&& before.table().symbol_count <= self.table().symbol_count
        &&& before.table().rules.len() <= self.table().rules.len()
        &&& self.table().rules.subrange(0, before.table().rules.len() as int)
            == before.table().rules
        &&& forall|k: Rule| #[trigger]
            before.lhs_of().contains_key(k) ==> self.lhs_of().contains_key(k)
                && self.lhs_of()[k] == before.lhs_of()[k]
    }

    /// What it means that plain rules were added for a construct: `inner`
    /// new symbols beside the left side, and rules whose last one defines
    /// the left side and is handed back as the item.
    pub open spec fn added(self, before: Grammar, lhs: Option<Item>, inner: int, rules: int, r: Item) -> bool {
        &&& grew(before.table(), self.table(), Self::lhs_cost(lhs) + inner, rules)
        &&& r == Item::Rule((self.table().rules.len() - 1) as Rule)
        &&& self.lhs_of() == before.lhs_of().insert(
            (self.table().rules.len() - 1) as Rule,
            before.lhs_symbol(lhs),
        )
    }

    /// Whether there is room for `symbols` more symbols and `rules` more
    /// rules.
    pub open spec fn has_room(self, symbols: int, rules: int) -> bool {
        &&& self.table().symbol_count + symbols <= i32::MAX
        &&& self.table().rules.len() + rules <= i32::MAX
    }

    /// Whether `sym` will be a symbol once `symbols` more have been added.
    pub open spec fn will_have(self, sym: Symbol, symbols: int) -> bool {
        0 <= sym < self.table().symbol_count + symbols
    }

    /// Whether all of `syms` will be symbols once `symbols` more have been
    /// added.
    pub open spec fn will_have_all(self, syms: Seq<Symbol>, symbols: int) -> bool {
        &&& syms.len() <= i32::MAX
        &&& forall|i: int| 0 <= i < syms.len() ==> self.will_have(#[trigger] syms[i], symbols)
    }

    /// A grammar with the 256 symbols of the bytes and no rules.
    pub fn new() -> (r: Result<Grammar, Fault>)
        ensures
            r matches Ok(g) && g.wf() && g.table().symbol_count == BYTE_SYMBOLS
                && g.table().rules.len() == 0 && g.table().start == -1 && g.lhs_of() == Map::<
                Rule,
                Symbol,
            >::empty(),
    {
        let internal = match thin::Grammar::new() {
            Ok(g) => g,
            Err(e) => {
                return Err(e);
            },
        };
        let mut g = Grammar { internal, rules: HashMap::new() };
        let mut n: i32 = 0;
        while n < BYTE_SYMBOLS
            invariant
                0 <= n <= BYTE_SYMBOLS,
                g.wf(),
                g.table().symbol_count == n,
                g.table().rules.len() == 0,
                g.table().start == -1,
                g.lhs_of() == Map::<Rule, Symbol>::empty(),
            decreases BYTE_SYMBOLS - n,
        {
            match g.internal.new_symbol() {
                Ok(_) => {},
                Err(e) => {
                    return Err(e);
                },
            }
            n += 1;
        }
        Ok(g)
    }

    /// The symbol for the left side of a construct.
    fn get_lhs(&mut self, lhs: Option<Item>) -> (r: Result<Symbol, Fault>)
        requires
            old(self).wf(),
            lhs matches Some(item) ==> old(self).knows(item),
        ensures
            final(self).wf(),
            final(self).extends(*old(self)),
            final(self).lhs_of() == old(self).lhs_of(),
            old(self).has_room(Self::lhs_cost(lhs), 0) ==> r == Ok::<Symbol, Fault>(
                old(self).lhs_symbol(lhs),
            ) && grew(old(self).table(), final(self).table(), Self::lhs_cost(lhs), 0),
            !old(self).has_room(Self::lhs_cost(lhs), 0) ==> r is Err,
    {
        proof {
            assert(self.table().rules.subrange(0, self.table().rules.len() as int)
                =~= self.table().rules);
        }
        match lhs {
            Some(it) => Ok(self.symbol(it)),
            None => {
                let r = self.internal.new_symbol();
                proof {
                    assert(self.table().rules.subrange(0, self.table().rules.len() as int)
                        =~= self.table().rules);
                }
                r
            },
        }
    }

    /// Adds a symbol to the grammar.
    pub fn new_symbol(&mut self) -> (r: Result<Item, Fault>)
        requires
            old(self).wf(),
        ensures
            final(self).wf(),
            final(self).extends(*old(self)),
            final(self).lhs_of() == old(self).lhs_of(),
            old(self).has_room(1, 0) ==> r == Ok::<Item, Fault>(
                Item::Symbol(old(self).table().symbol_count as Symbol),
            ) && grew(old(self).table(), final(self).table(), 1, 0),
            !old(self).has_room(1, 0) ==> r is Err && final(self).table() == old(self).table(),
    {
        proof {
            assert(self.table().rules.subrange(0, self.table().rules.len() as int)
                =~= self.table().rules);
        }
        match self.internal.new_symbol() {
            Ok(s) => Ok(Item::Symbol(s)),
            Err(e) => Err(e),
        }
    }

    /// Makes the symbol that `it` names the start symbol, and hands `it`
    /// back.
    pub fn set_start(&mut self, it: Item) -> (r: Result<Item, Fault>)
        requires
            old(self).wf(),
            old(self).knows(it),
        ensures
            final(self).wf(),
            final(self).extends(*old(self)),
            final(self).lhs_of() == old(self).lhs_of(),
            old(self).will_have(old(self).resolve(it), 0) ==> r == Ok::<Item, Fault>(it) && final(self).table() == (GrammarView {
                start: old(self).resolve(it) as int,
                ..old(self).table()
            }),
            !old(self).will_have(old(self).resolve(it), 0) ==> r is Err && final(self).table()
                == old(self).table(),
    {
        proof {
            assert(self.table().rules.subrange(0, self.table().rules.len() as int)
                =~= self.table().rules);
        }
        let sym = self.symbol(it);
        match self.internal.set_start_symbol(sym) {
            Ok(_) => Ok(it),
            Err(e) => Err(e),
        }
    }

    /// Whether the grammar can tell which symbol `item` names: it can for
    /// every symbol, and for every rule that one of its helpers handed out.
    pub fn knows_item(&self, item: Item) -> (b: bool)
        ensures
            b == self.knows(item),
    {
        match item {
            Item::Rule(rule) => self.rules.contains_key(&rule),
            Item::Symbol(_) => true,
        }
    }

    /// The symbol that `item` names.
    pub fn symbol(&self, item: Item) -> (s: Symbol)
        requires
            self.wf(),
            self.knows(item),
        ensures
            s == self.resolve(item),
    {
        match item {
            Item::Rule(rule) => {
                match self.rules.get(&rule) {
                    Some(s) => *s,
                    None => vstd::pervasive::unreached(),
                }
            },
            Item::Symbol(sym) => sym,
        }
    }

    /// The symbols that `items` name.
    pub fn symbols(&self, items: &[Item]) -> (syms: Vec<Symbol>)
        requires
            self.wf(),
            self.knows_all(items@),
        ensures
            syms@ == self.resolve_all(items@),
    {
        let mut syms: Vec<Symbol> = Vec::new();
        let mut i: usize = 0;
        while i < items.len()
            invariant
                self.wf(),
                self.knows_all(items@),
                i <= items@.len(),
                syms@ == self.resolve_all(items@).subrange(0, i as int),
            decreases items@.len() - i,
        {
            let s = self.symbol(items[i]);
            syms.push(s);
            proof {
                assert(syms@ =~= self.resolve_all(items@).subrange(0, i as int + 1));
            }
            i += 1;
        }
        proof {
            assert(syms@ =~= self.resolve_all(items@));
        }
        syms
    }

    /// How many symbols the grammar has.
    pub fn table_symbols(&self) -> (n: i32)
        requires
            self.wf(),
        ensures
            n == self.table().symbol_count,
    {
        match self.internal.num_symbols() {
            Ok(n) => n,
            Err(_) => 0,
        }
    }

    /// Hands the table over.
    pub fn unwrap(self) -> (g: thin::Grammar)
        ensures
            g@ == self.table(),
    {
        self.internal
    }

    /// Adds the rule `lhs -> rhs` to the table, without an item for it.
    fn inner_rule(&mut self, lhs: Symbol, rhs: Vec<Symbol>) -> (r: Result<Rule, Fault>)
        requires
            old(self).wf(),
        ensures
            final(self).wf(),
            final(self).extends(*old(self)),
            final(self).lhs_of() == old(self).lhs_of(),
            old(self).has_room(0, 1) && old(self).will_have(lhs, 0) && old(self).will_have_all(
                rhs@,
                0,
            ) ==> r == Ok::<Rule, Fault>(old(self).table().rules.len() as Rule) && grew(
                old(self).table(),
                final(self).table(),
                0,
                1,
            ) && rule_at(final(self).table(), old(self).table().rules.len() as int, lhs, rhs@),
            !(old(self).has_room(0, 1) && old(self).will_have(lhs, 0) && old(self).will_have_all(
                rhs@,
                0,
            )) ==> r is Err && final(self).table() == old(self).table(),
    {
        proof {
            assert(self.table().rules.subrange(0, self.table().rules.len() as int)
                =~= self.table().rules);
        }
        let ghost before = self.internal@;
        proof {
            if self.will_have_all(rhs@, 0) {
                assert forall|i: int| 0 <= i < rhs@.len() implies before.has_symbol(
                    #[trigger] rhs@[i] as int,
                ) by {
                    assert(self.will_have(rhs@[i], 0));
                }
            }
            if before.has_symbols(rhs@) {
                assert forall|i: int| 0 <= i < rhs@.len() implies self.will_have(
                    #[trigger] rhs@[i],
                    0,
                ) by {
                    assert(before.has_symbol(rhs@[i] as int));
                }
            }
        }
        let r = self.internal.new_rule(lhs, rhs.as_slice());
        proof {
            assert forall|k: Rule| #[trigger]
                self.rules@.contains_key(k) implies self.internal@.has_rule(k as int)
                && self.internal@.rules[k as int].lhs == self.rules@[k] by {
                if r is Ok {
                    assert(self.internal@.rules.subrange(0, before.rules.len() as int)[k as int]
                        == self.internal@.rules[k as int]);
                }
            }
        }
        r
    }

    /// Adds the rule `lhs -> rhs` to the table and makes an item for it.
    fn outer_rule(&mut self, lhs: Symbol, rhs: Vec<Symbol>) -> (r: Result<Item, Fault>)
        requires
            old(self).wf(),
        ensures
            final(self).wf(),
            final(self).extends(*old(self)),
            old(self).has_room(0, 1) && old(self).will_have(lhs, 0) && old(self).will_have_all(
                rhs@,
                0,
            ) ==> r == Ok::<Item, Fault>(Item::Rule(old(self).table().rules.len() as Rule))
                && grew(old(self).table(), final(self).table(), 0, 1) && rule_at(
                final(self).table(),
                old(self).table().rules.len() as int,
                lhs,
                rhs@,
            ) && final(self).lhs_of() == old(self).lhs_of().insert(
                old(self).table().rules.len() as Rule,
                lhs,
            ),
            !(old(self).has_room(0, 1) && old(self).will_have(lhs, 0) && old(self).will_have_all(
                rhs@,
                0,
            )) ==> r is Err && final(self).table() == old(self).table() && final(self).lhs_of()
                == old(self).lhs_of(),
    {
        let rule = match self.inner_rule(lhs, rhs) {
            Ok(r) => r,
            Err(e) => {
                return Err(e);
            },
        };
        let ghost before = self.rules@;
        self.rules.insert(rule, lhs);
        proof {
            assert forall|k: Rule| #[trigger] before.contains_key(k) implies self.rules@.contains_key(k)
                && self.rules@[k] == before[k] by {
                assert(old(self).internal@.has_rule(k as int));
            }
        }
        Ok(Item::Rule(rule))
    }

    /// Adds the rule `lhs -> rhs`.  Without `lhs`, the rule defines a new
    /// symbol.
    pub fn rule(&mut self, lhs: Option<Item>, rhs: &[Item]) -> (r: Result<Item, Fault>)
        requires
            old(self).wf(),
            lhs matches Some(item) ==> old(self).knows(item),
            old(self).knows_all(rhs@),
        ensures
            final(self).wf(),
            final(self).extends(*old(self)),
            old(self).rule_fits(lhs, old(self).resolve_all(rhs@)) ==> (r matches Ok(item)
                && final(self).rule_added(*old(self), lhs, old(self).resolve_all(rhs@), item)),
            !old(self).rule_fits(lhs, old(self).resolve_all(rhs@)) ==> r is Err,
    {
        let syms = self.symbols(rhs);
        self.rule_of_symbols(lhs, syms)
    }

    /// Whether the rule `lhs -> rhs` can be added.
    pub open spec fn rule_fits(self, lhs: Option<Item>, rhs: Seq<Symbol>) -> bool {
        &&& self.has_room(Self::lhs_cost(lhs), 1)
        &&& self.will_have(self.lhs_symbol(lhs), Self::lhs_cost(lhs))
        &&& self.will_have_all(rhs, Self::lhs_cost(lhs))
    }

    /// The rule `lhs -> rhs` has been added, and `r` names it.
    pub open spec fn rule_added(self, before: Grammar, lhs: Option<Item>, rhs: Seq<Symbol>, r: Item) -> bool {
        &&& self.added(before, lhs, 0, 1, r)
        &&& rule_at(self.table(), before.table().rules.len() as int, before.lhs_symbol(lhs), rhs)
    }

    fn rule_of_symbols(&mut self, lhs: Option<Item>, rhs: Vec<Symbol>) -> (r: Result<Item, Fault>)
        requires
            old(self).wf(),
            lhs matches Some(item) ==> old(self).knows(item),
        ensures
            final(self).wf(),
            final(self).extends(*old(self)),
            old(self).rule_fits(lhs, rhs@) ==> (r matches Ok(item) && final(self).rule_added(
                *old(self),
                lhs,
                rhs@,
                item,
            )),
            !old(self).rule_fits(lhs, rhs@) ==> r is Err,
    {
        let lhs_sym = match self.get_lhs(lhs) {
            Ok(s) => s,
            Err(e) => {
                return Err(e);
            },
        };
        let ghost middle = *self;
        let r = self.outer_rule(lhs_sym, rhs);
        proof {
            lemma_extends_transitive(*old(self), middle, *self);
            if r is Ok {
                assert(self.table().rules.subrange(0, old(self).table().rules.len() as int)
                    =~= old(self).table().rules);
            }
        }
        r
    }

    /// The symbols that are added beside the left side come right after it.
    pub open spec fn inner_symbol(self, lhs: Option<Item>, i: int) -> Symbol {
        (self.table().symbol_count + Self::lhs_cost(lhs) + i) as Symbol
    }

    /// Whether the alternatives `alts` can be added for `lhs`.
    pub open spec fn alternative_fits(self, lhs: Option<Item>, alts: Seq<Symbol>) -> bool {
        &&& self.has_room(Self::lhs_cost(lhs) + 1, alts.len() as int + 1)
        &&& self.will_have(self.lhs_symbol(lhs), Self::lhs_cost(lhs) + 1)
        &&& self.will_have_all(alts, Self::lhs_cost(lhs) + 1)
    }

    /// The alternatives `alts` have been added for `lhs`: one new symbol,
    /// one rule from it to each alternative in order, and one rule from the
    /// left side to it, which `r` names.
    pub open spec fn alternative_added(
        self,
        before: Grammar,
        lhs: Option<Item>,
        alts: Seq<Symbol>,
        r: Item,
    ) -> bool {
        let n = before.table().rules.len() as int;
        let inner = before.inner_symbol(lhs, 0);
        &&& self.added(before, lhs, 1, alts.len() as int + 1, r)
        &&& forall|i: int| 0 <= i < alts.len() ==> #[trigger] rule_at(self.table(), n + i, inner, seq![alts[i]])
        &&& rule_at(self.table(), n + alts.len(), before.lhs_symbol(lhs), seq![inner])
    }

    /// Adds a choice between the symbols `alts`.
    fn alternative_of_symbols(&mut self, lhs: Option<Item>, alts: Vec<Symbol>) -> (r: Result<
        Item,
        Fault,
    >)
        requires
            old(self).wf(),
            lhs matches Some(item) ==> old(self).knows(item),
        ensures
            final(self).wf(),
            final(self).extends(*old(self)),
            old(self).alternative_fits(lhs, alts@) ==> (r matches Ok(item) && final(self).alternative_added(*old(self), lhs, alts@, item)),
            !old(self).alternative_fits(lhs, alts@) ==> r is Err,
    {
        let ghost start = *self;
        let ghost n = self.table().rules.len() as int;
        let ghost k = Self::lhs_cost(lhs);
        let lhs_sym = match self.get_lhs(lhs) {
            Ok(s) => s,
            Err(e) => {
                return Err(e);
            },
        };
        let ghost with_lhs = *self;
        let internal = match self.get_lhs(None) {
            Ok(s) => s,
            Err(e) => {
                proof {
                    lemma_extends_transitive(start, with_lhs, *self);
                }
                return Err(e);
            },
        };
        proof {
            lemma_extends_transitive(start, with_lhs, *self);
            assert(self.table().rules.subrange(0, n) =~= start.table().rules) by {
                assert forall|j: int| 0 <= j < n implies self.table().rules[j]
                    == start.table().rules[j] by {
                    assert(self.table().rules.subrange(0, with_lhs.table().rules.len() as int)[j]
                        == self.table().rules[j]);
                    assert(with_lhs.table().rules.subrange(0, n)[j] == with_lhs.table().rules[j]);
                }
            }
        }
        let mut i: usize = 0;
        while i < alts.len()
            invariant
                self.wf(),
                self.extends(start),
                start == *old(self),
                start.wf(),
                i <= alts@.len(),
                n == start.table().rules.len(),
                k == Self::lhs_cost(lhs),
                lhs_sym == start.lhs_symbol(lhs),
                internal == start.inner_symbol(lhs, 0),
                start.has_room(k + 1, 0),
                grew(start.table(), self.table(), k + 1, i as int),
                self.lhs_of() == start.lhs_of(),
                forall|j: int| 0 <= j < i ==> start.will_have(#[trigger] alts@[j], k + 1),
                forall|j: int|
                    0 <= j < i ==> #[trigger] rule_at(self.table(), n + j, internal, seq![alts@[j]]),
            decreases alts@.len() - i,
        {
            let ghost before = *self;
            let mut rhs: Vec<Symbol> = Vec::new();
            rhs.push(alts[i]);
            proof {
                assert(rhs@ =~= seq![alts@[i as int]]);
                assert(rhs@[0] == alts@[i as int]);
                if start.alternative_fits(lhs, alts@) {
                    assert(start.will_have(alts@[i as int], k + 1));
                    assert forall|j: int| 0 <= j < rhs@.len() implies before.will_have(
                        #[trigger] rhs@[j],
                        0,
                    ) by {}
                    assert(before.will_have_all(rhs@, 0));
                    assert(before.will_have(internal, 0));
                    assert(before.has_room(0, 1));
                }
            }
            match self.inner_rule(internal, rhs) {
                Ok(_) => {},
                Err(e) => {
                    proof {
                        lemma_extends_transitive(start, before, *self);
                    }
                    return Err(e);
                },
            }
            proof {
                lemma_extends_transitive(start, before, *self);
                assert(before.will_have(rhs@[0], 0));
                assert(self.table().rules.subrange(0, n) =~= start.table().rules) by {
                    assert forall|j: int| 0 <= j < n implies self.table().rules[j]
                        == start.table().rules[j] by {
                        assert(self.table().rules.subrange(0, before.table().rules.len() as int)[j]
                            == self.table().rules[j]);
                        assert(before.table().rules.subrange(0, n)[j] == before.table().rules[j]);
                    }
                }
                assert forall|j: int| 0 <= j < i + 1 implies #[trigger] rule_at(
                    self.table(),
                    n + j,
                    internal,
                    seq![alts@[j]],
                ) by {
                    if j < i {
                        assert(rule_at(before.table(), n + j, internal, seq![alts@[j]]));
                        assert(self.table().rules.subrange(0, before.table().rules.len() as int)[n
                            + j] == self.table().rules[n + j]);
                    }
                }
            }
            i += 1;
        }
        let ghost before = *self;
        let mut rhs: Vec<Symbol> = Vec::new();
        rhs.push(internal);
        proof {
            assert(rhs@ =~= seq![internal]);
            assert(rhs@[0] == internal);
            assert(before.will_have(internal, 0));
            assert forall|j: int| 0 <= j < rhs@.len() implies before.will_have(#[trigger] rhs@[j], 0) by {}
        }
        let r = self.outer_rule(lhs_sym, rhs);
        proof {
            lemma_extends_transitive(start, before, *self);
            if r is Ok {
                assert(self.table().rules.subrange(0, n) =~= start.table().rules) by {
                    assert forall|j: int| 0 <= j < n implies self.table().rules[j]
                        == start.table().rules[j] by {
                        assert(self.table().rules.subrange(0, before.table().rules.len() as int)[j]
                            == self.table().rules[j]);
                        assert(before.table().rules.subrange(0, n)[j] == before.table().rules[j]);
                    }
                }
                assert forall|j: int| 0 <= j < alts@.len() implies #[trigger] rule_at(
                    self.table(),
                    n + j,
                    internal,
                    seq![alts@[j]],
                ) by {
                    assert(rule_at(before.table(), n + j, internal, seq![alts@[j]]));
                    assert(self.table().rules.subrange(0, before.table().rules.len() as int)[n + j]
                        == self.table().rules[n + j]);
                }
                assert forall|j: int| 0 <= j < alts@.len() implies start.will_have(
                    #[trigger] alts@[j],
                    k + 1,
                ) by {}
            }
        }
        r
    }

    /// Adds a choice between the symbols that `rhs` names.
    pub fn alternative(&mut self, lhs: Option<Item>, rhs: &[Item]) -> (r: Result<Item, Fault>)
        requires
            old(self).wf(),
            lhs matches Some(item) ==> old(self).knows(item),
            old(self).knows_all(rhs@),
        ensures
            final(self).wf(),
            final(self).extends(*old(self)),
            old(self).alternative_fits(lhs, old(self).resolve_all(rhs@)) ==> (r matches Ok(item)
                && final(self).alternative_added(
                *old(self),
                lhs,
                old(self).resolve_all(rhs@),
                item,
            )),
            !old(self).alternative_fits(lhs, old(self).resolve_all(rhs@)) ==> r is Err,
    {
        let alts = self.symbols(rhs);
        self.alternative_of_symbols(lhs, alts)
    }

    /// Whether a construct with `inner` symbols of its own and `rules`
    /// rules can be added around the symbol `rhs`.
    pub open spec fn wrapper_fits(self, lhs: Option<Item>, rhs: Symbol, inner: int, rules: int) -> bool {
        &&& self.has_room(Self::lhs_cost(lhs) + inner, rules)
        &&& self.will_have(self.lhs_symbol(lhs), Self::lhs_cost(lhs) + inner)
        &&& self.will_have(rhs, Self::lhs_cost(lhs) + inner)
    }

    /// One or more of `rhs` have been added for `lhs`: with the new symbols
    /// `item` and `rec`, the rules `item -> rhs`, `rec -> item`,
    /// `rec -> rec item` and `lhs -> rec`.
    pub open spec fn plus_added(self, before: Grammar, lhs: Option<Item>, rhs: Symbol, r: Item) -> bool {
        let n = before.table().rules.len() as int;
        let item = before.inner_symbol(lhs, 0);
        let rec = before.inner_symbol(lhs, 1);
        &&& self.added(before, lhs, 2, 4, r)
        &&& rule_at(self.table(), n, item, seq![rhs])
        &&& rule_at(self.table(), n + 1, rec, seq![item])
        &&& rule_at(self.table(), n + 2, rec, seq![rec, item])
        &&& rule_at(self.table(), n + 3, before.lhs_symbol(lhs), seq![rec])
    }

    /// Any number of `rhs` have been added for `lhs`: with the new symbols
    /// `item` and `rec`, the rules `item -> rhs`, `rec ->`, `rec -> rec item`
    /// and `lhs -> rec`.
    pub open spec fn star_added(self, before: Grammar, lhs: Option<Item>, rhs: Symbol, r: Item) -> bool {
        let n = before.table().rules.len() as int;
        let item = before.inner_symbol(lhs, 0);
        let rec = before.inner_symbol(lhs, 1);
        &&& self.added(before, lhs, 2, 4, r)
        &&& rule_at(self.table(), n, item, seq![rhs])
        &&& rule_at(self.table(), n + 1, rec, Seq::empty())
        &&& rule_at(self.table(), n + 2, rec, seq![rec, item])
        &&& rule_at(self.table(), n + 3, before.lhs_symbol(lhs), seq![rec])
    }

    /// At most one `rhs` has been added for `lhs`: with the new symbol
    /// `item`, the rules `item ->`, `item -> rhs` and `lhs -> item`.
    pub open spec fn maybe_added(self, before: Grammar, lhs: Option<Item>, rhs: Symbol, r: Item) -> bool {
        let n = before.table().rules.len() as int;
        let item = before.inner_symbol(lhs, 0);
        &&& self.added(before, lhs, 1, 3, r)
        &&& rule_at(self.table(), n, item, Seq::empty())
        &&& rule_at(self.table(), n + 1, item, seq![rhs])
        &&& rule_at(self.table(), n + 2, before.lhs_symbol(lhs), seq![item])
    }

    /// Whether the sequence rule can be added.
    pub open spec fn sequence_fits(self, lhs: Option<Item>, rhs: Symbol, sep: Symbol) -> bool {
        &&& self.has_room(Self::lhs_cost(lhs), 1)
        &&& self.will_have(self.lhs_symbol(lhs), Self::lhs_cost(lhs))
        &&& self.will_have(rhs, Self::lhs_cost(lhs))
        &&& sep == -1 || self.will_have(sep, Self::lhs_cost(lhs))
    }

    /// The sequence rule has been added, and `r` names it.
    pub open spec fn sequence_added(
        self,
        before: Grammar,
        lhs: Option<Item>,
        rhs: Symbol,
        sep: Symbol,
        nonempty: bool,
        proper: bool,
        r: Item,
    ) -> bool {
        let rule = self.table().rules[before.table().rules.len() as int];
        &&& self.added(before, lhs, 0, 1, r)
        &&& rule.lhs == before.lhs_symbol(lhs)
        &&& rule.rhs@ == seq![rhs]
        &&& rule.sequence == Some(
            thin::grammar::SequenceDef { separator: sep, min: if nonempty {
                1i32
            } else {
                0i32
            }, proper },
        )
    }

    /// Adds the rule that makes `lhs` a run of `rhs` with `sep` between
    /// them.  The run may be empty unless `nonempty` is set; with `proper`,
    /// no separator may follow the last item.
    pub fn sequence(&mut self, lhs: Option<Item>, rhs: Item, sep: Item, nonempty: bool, proper: bool) -> (r:
        Result<Item, Fault>)
        requires
            old(self).wf(),
            lhs matches Some(item) ==> old(self).knows(item),
            old(self).knows(rhs),
            old(self).knows(sep),
        ensures
            final(self).wf(),
            final(self).extends(*old(self)),
            old(self).sequence_fits(lhs, old(self).resolve(rhs), old(self).resolve(sep)) ==> (
            r matches Ok(item) && final(self).sequence_added(
                *old(self),
                lhs,
                old(self).resolve(rhs),
                old(self).resolve(sep),
                nonempty,
                proper,
                item,
            )),
            !old(self).sequence_fits(lhs, old(self).resolve(rhs), old(self).resolve(sep)) ==> r is Err,
    {
        let ghost start = *self;
        let lhs_sym = match self.get_lhs(lhs) {
            Ok(s) => s,
            Err(e) => {
                return Err(e);
            },
        };
        let sep_sym = self.symbol(sep);
        let rhs_sym = self.symbol(rhs);
        let ghost before = *self;
        let rule = match self.internal.new_sequence(lhs_sym, rhs_sym, sep_sym, nonempty, proper) {
            Ok(r) => r,
            Err(e) => {
                return Err(e);
            },
        };
        let ghost keys = self.rules@;
        self.rules.insert(rule, lhs_sym);
        proof {
            assert forall|k: Rule| #[trigger] self.rules@.contains_key(k) implies self.internal@.has_rule(
                k as int,
            ) && self.internal@.rules[k as int].lhs == self.rules@[k] by {
                if k != rule {
                    assert(keys.contains_key(k));
                    assert(before.internal@.has_rule(k as int));
                    assert(self.internal@.rules.subrange(0, before.internal@.rules.len() as int)[k as int]
                        == self.internal@.rules[k as int]);
                }
            }
            assert forall|k: Rule| #[trigger] before.lhs_of().contains_key(k) implies self.lhs_of().contains_key(k)
                && self.lhs_of()[k] == before.lhs_of()[k] by {
                assert(before.internal@.has_rule(k as int));
            }
            assert(self.extends(before));
            lemma_extends_transitive(start, before, *self);
            assert(self.table().rules.subrange(0, start.table().rules.len() as int)
                =~= start.table().rules);
        }
        Ok(Item::Rule(rule))
    }

    /// Adds the rules for one or more of `rhs`.
    pub fn plus(&mut self, lhs: Option<Item>, rhs: Item) -> (r: Result<Item, Fault>)
        requires
            old(self).wf(),
            lhs matches Some(item) ==> old(self).knows(item),
            old(self).knows(rhs),
        ensures
            final(self).wf(),
            final(self).extends(*old(self)),
            old(self).wrapper_fits(lhs, old(self).resolve(rhs), 2, 4) ==> (r matches Ok(item)
                && final(self).plus_added(*old(self), lhs, old(self).resolve(rhs), item)),
            !old(self).wrapper_fits(lhs, old(self).resolve(rhs), 2, 4) ==> r is Err,
    {
        let ghost start = *self;
        let lhs_sym = match self.get_lhs(lhs) {
            Ok(s) => s,
            Err(e) => {
                return Err(e);
            },
        };
        let ghost s1 = *self;
        let internal = match self.get_lhs(None) {
            Ok(s) => s,
            Err(e) => {
                proof {
                    lemma_extends_transitive(start, s1, *self);
                }
                return Err(e);
            },
        };
        let ghost s2 = *self;
        let rec = match self.get_lhs(None) {
            Ok(s) => s,
            Err(e) => {
                proof {
                    lemma_extends_transitive(start, s1, s2);
                    lemma_extends_transitive(start, s2, *self);
                }
                return Err(e);
            },
        };
        let ghost s3 = *self;
        let rhs_sym = self.symbol(rhs);
        proof {
            lemma_extends_transitive(start, s1, s2);
            lemma_extends_transitive(start, s2, s3);
            lemma_grew(start.table(), s1.table(), s2.table(), Self::lhs_cost(lhs), 0, 1, 0);
            lemma_grew(start.table(), s2.table(), s3.table(), Self::lhs_cost(lhs) + 1, 0, 1, 0);
        }
        let rhs1: Vec<Symbol> = vec![rhs_sym];
        proof {
            assert(rhs1@ =~= seq![rhs_sym]);
        }
        let r1 = self.inner_rule(internal, rhs1);
        let ghost s4 = *self;
        proof {
            lemma_extends_transitive(start, s3, s4);
        }
        match r1 {
            Ok(_) => {},
            Err(e) => {
                return Err(e);
            },
        }
        let rhs2: Vec<Symbol> = vec![internal];
        proof {
            assert(rhs2@ =~= seq![internal]);
        }
        let r2 = self.inner_rule(rec, rhs2);
        let ghost s5 = *self;
        proof {
            lemma_extends_transitive(start, s4, s5);
            lemma_grew(start.table(), s3.table(), s4.table(), Self::lhs_cost(lhs) + 2, 0, 0, 1);
        }
        match r2 {
            Ok(_) => {},
            Err(e) => {
                return Err(e);
            },
        }
        let rhs3: Vec<Symbol> = vec![rec, internal];
        proof {
            assert(rhs3@ =~= seq![rec, internal]);
        }
        let r3 = self.inner_rule(rec, rhs3);
        let ghost s6 = *self;
        proof {
            lemma_extends_transitive(start, s5, s6);
            lemma_grew(start.table(), s4.table(), s5.table(), Self::lhs_cost(lhs) + 2, 1, 0, 1);
        }
        match r3 {
            Ok(_) => {},
            Err(e) => {
                return Err(e);
            },
        }
        let rhs4: Vec<Symbol> = vec![rec];
        proof {
            assert(rhs4@ =~= seq![rec]);
        }
        let r = self.outer_rule(lhs_sym, rhs4);
        proof {
            lemma_extends_transitive(start, s6, *self);
            lemma_grew(start.table(), s5.table(), s6.table(), Self::lhs_cost(lhs) + 2, 2, 0, 1);
            if r is Ok {
                lemma_grew(start.table(), s6.table(), self.table(), Self::lhs_cost(lhs) + 2, 3, 0, 1);
                let n = start.table().rules.len() as int;
                lemma_rule_at_kept(s4.table(), s5.table(), n, internal, seq![rhs_sym]);
                lemma_rule_at_kept(s5.table(), s6.table(), n, internal, seq![rhs_sym]);
                lemma_rule_at_kept(s6.table(), self.table(), n, internal, seq![rhs_sym]);
                lemma_rule_at_kept(s5.table(), s6.table(), n + 1, rec, seq![internal]);
                lemma_rule_at_kept(s6.table(), self.table(), n + 1, rec, seq![internal]);
                lemma_rule_at_kept(s6.table(), self.table(), n + 2, rec, seq![rec, internal]);
            }
        }
        r
    }

    /// Adds the rules for any number of `rhs`.
    pub fn star(&mut self, lhs: Option<Item>, rhs: Item) -> (r: Result<Item, Fault>)
        requires
            old(self).wf(),
            lhs matches Some(item) ==> old(self).knows(item),
            old(self).knows(rhs),
        ensures
            final(self).wf(),
            final(self).extends(*old(self)),
            old(self).wrapper_fits(lhs, old(self).resolve(rhs), 2, 4) ==> (r matches Ok(item)
                && final(self).star_added(*old(self), lhs, old(self).resolve(rhs), item)),
            !old(self).wrapper_fits(lhs, old(self).resolve(rhs), 2, 4) ==> r is Err,
    {
        let ghost start = *self;
        let lhs_sym = match self.get_lhs(lhs) {
            Ok(s) => s,
            Err(e) => {
                return Err(e);
            },
        };
        let ghost s1 = *self;
        let internal = match self.get_lhs(None) {
            Ok(s) => s,
            Err(e) => {
                proof {
                    lemma_extends_transitive(start, s1, *self);
                }
                return Err(e);
            },
        };
        let ghost s2 = *self;
        let rec = match self.get_lhs(None) {
            Ok(s) => s,
            Err(e) => {
                proof {
                    lemma_extends_transitive(start, s1, s2);
                    lemma_extends_transitive(start, s2, *self);
                }
                return Err(e);
            },
        };
        let ghost s3 = *self;
        let rhs_sym = self.symbol(rhs);
        proof {
            lemma_extends_transitive(start, s1, s2);
            lemma_extends_transitive(start, s2, s3);
            lemma_grew(start.table(), s1.table(), s2.table(), Self::lhs_cost(lhs), 0, 1, 0);
            lemma_grew(start.table(), s2.table(), s3.table(), Self::lhs_cost(lhs) + 1, 0, 1, 0);
        }
        let rhs5: Vec<Symbol> = vec![rhs_sym];
        proof {
            assert(rhs5@ =~= seq![rhs_sym]);
        }
        let r1 = self.inner_rule(internal, rhs5);
        let ghost s4 = *self;
        proof {
            lemma_extends_transitive(start, s3, s4);
        }
        match r1 {
            Ok(_) => {},
            Err(e) => {
                return Err(e);
            },
        }
        let rhs6: Vec<Symbol> = Vec::new();
        proof {
            assert(rhs6@ =~= Seq::<Symbol>::empty());
        }
        let r2 = self.inner_rule(rec, rhs6);
        let ghost s5 = *self;
        proof {
            lemma_extends_transitive(start, s4, s5);
            lemma_grew(start.table(), s3.table(), s4.table(), Self::lhs_cost(lhs) + 2, 0, 0, 1);
        }
        match r2 {
            Ok(_) => {},
            Err(e) => {
                return Err(e);
            },
        }
        let rhs7: Vec<Symbol> = vec![rec, internal];
        proof {
            assert(rhs7@ =~= seq![rec, internal]);
        }
        let r3 = self.inner_rule(rec, rhs7);
        let ghost s6 = *self;
        proof {
            lemma_extends_transitive(start, s5, s6);
            lemma_grew(start.table(), s4.table(), s5.table(), Self::lhs_cost(lhs) + 2, 1, 0, 1);
        }
        match r3 {
            Ok(_) => {},
            Err(e) => {
                return Err(e);
            },
        }
        let rhs8: Vec<Symbol> = vec![rec];
        proof {
            assert(rhs8@ =~= seq![rec]);
        }
        let r = self.outer_rule(lhs_sym, rhs8);
        proof {
            lemma_extends_transitive(start, s6, *self);
            lemma_grew(start.table(), s5.table(), s6.table(), Self::lhs_cost(lhs) + 2, 2, 0, 1);
            if r is Ok {
                lemma_grew(start.table(), s6.table(), self.table(), Self::lhs_cost(lhs) + 2, 3, 0, 1);
                let n = start.table().rules.len() as int;
                lemma_rule_at_kept(s4.table(), s5.table(), n, internal, seq![rhs_sym]);
                lemma_rule_at_kept(s5.table(), s6.table(), n, internal, seq![rhs_sym]);
                lemma_rule_at_kept(s6.table(), self.table(), n, internal, seq![rhs_sym]);
                lemma_rule_at_kept(s5.table(), s6.table(), n + 1, rec, Seq::<Symbol>::empty());
                lemma_rule_at_kept(s6.table(), self.table(), n + 1, rec, Seq::<Symbol>::empty());
                lemma_rule_at_kept(s6.table(), self.table(), n + 2, rec, seq![rec, internal]);
            }
        }
        r
    }

    /// Adds the rules for at most one `rhs`.
    pub fn maybe(&mut self, lhs: Option<Item>, rhs: Item) -> (r: Result<Item, Fault>)
        requires
            old(self).wf(),
            lhs matches Some(item) ==> old(self).knows(item),
            old(self).knows(rhs),
        ensures
            final(self).wf(),
            final(self).extends(*old(self)),
            old(self).wrapper_fits(lhs, old(self).resolve(rhs), 1, 3) ==> (r matches Ok(item)
                && final(self).maybe_added(*old(self), lhs, old(self).resolve(rhs), item)),
            !old(self).wrapper_fits(lhs, old(self).resolve(rhs), 1, 3) ==> r is Err,
    {
        let ghost start = *self;
        let lhs_sym = match self.get_lhs(lhs) {
            Ok(s) => s,
            Err(e) => {
                return Err(e);
            },
        };
        let ghost s1 = *self;
        let rhs_sym = self.symbol(rhs);
        let internal = match self.get_lhs(None) {
            Ok(s) => s,
            Err(e) => {
                proof {
                    lemma_extends_transitive(start, s1, *self);
                }
                return Err(e);
            },
        };
        let ghost s2 = *self;
        proof {
            lemma_extends_transitive(start, s1, s2);
            lemma_grew(start.table(), s1.table(), s2.table(), Self::lhs_cost(lhs), 0, 1, 0);
        }
        let rhs9: Vec<Symbol> = Vec::new();
        proof {
            assert(rhs9@ =~= Seq::<Symbol>::empty());
        }
        let r1 = self.inner_rule(internal, rhs9);
        let ghost s3 = *self;
        proof {
            lemma_extends_transitive(start, s2, s3);
        }
        match r1 {
            Ok(_) => {},
            Err(e) => {
                return Err(e);
            },
        }
        let rhs10: Vec<Symbol> = vec![rhs_sym];
        proof {
            assert(rhs10@ =~= seq![rhs_sym]);
        }
        let r2 = self.inner_rule(internal, rhs10);
        let ghost s4 = *self;
        proof {
            lemma_extends_transitive(start, s3, s4);
            lemma_grew(start.table(), s2.table(), s3.table(), Self::lhs_cost(lhs) + 1, 0, 0, 1);
        }
        match r2 {
            Ok(_) => {},
            Err(e) => {
                return Err(e);
            },
        }
        let rhs11: Vec<Symbol> = vec![internal];
        proof {
            assert(rhs11@ =~= seq![internal]);
        }
        let r = self.outer_rule(lhs_sym, rhs11);
        proof {
            lemma_extends_transitive(start, s4, *self);
            lemma_grew(start.table(), s3.table(), s4.table(), Self::lhs_cost(lhs) + 1, 1, 0, 1);
            if r is Ok {
                lemma_grew(start.table(), s4.table(), self.table(), Self::lhs_cost(lhs) + 1, 2, 0, 1);
                let n = start.table().rules.len() as int;
                lemma_rule_at_kept(s3.table(), s4.table(), n, internal, Seq::<Symbol>::empty());
                lemma_rule_at_kept(s4.table(), self.table(), n, internal, Seq::<Symbol>::empty());
                lemma_rule_at_kept(s4.table(), self.table(), n + 1, internal, seq![rhs_sym]);
            }
        }
        r
    }

    /// Adds the rule that spells out the bytes of `input`.
    pub fn literal_string(&mut self, lhs: Option<Item>, input: &str) -> (r: Result<Item, Fault>)
        requires
            old(self).wf(),
            lhs matches Some(item) ==> old(self).knows(item),
        ensures
            final(self).wf(),
            final(self).extends(*old(self)),
            old(self).rule_fits(lhs, byte_symbols(input.spec_bytes())) ==> (r matches Ok(item)
                && final(self).rule_added(*old(self), lhs, byte_symbols(input.spec_bytes()), item)),
            !old(self).rule_fits(lhs, byte_symbols(input.spec_bytes())) ==> r is Err,
    {
        let syms = bytes_to_symbols(input.as_bytes());
        self.rule_of_symbols(lhs, syms)
    }

    /// Adds a choice between the bytes from `from` to `to`, both included.
    pub fn byte_range(&mut self, lhs: Option<Item>, from: u8, to: u8) -> (r: Result<Item, Fault>)
        requires
            old(self).wf(),
            lhs matches Some(item) ==> old(self).knows(item),
        ensures
            final(self).wf(),
            final(self).extends(*old(self)),
            old(self).alternative_fits(lhs, byte_symbols(byte_range_seq(from, to))) ==> (
            r matches Ok(item) && final(self).alternative_added(
                *old(self),
                lhs,
                byte_symbols(byte_range_seq(from, to)),
                item,
            )),
            !old(self).alternative_fits(lhs, byte_symbols(byte_range_seq(from, to))) ==> r is Err,
    {
        let mut bytes: Vec<u8> = Vec::new();
        if from <= to {
            let mut b: u8 = from;
            loop
                invariant_except_break
                    from <= b <= to,
                    bytes@ == byte_range_seq(from, to).subrange(0, b - from),
                ensures
                    bytes@ == byte_range_seq(from, to),
                decreases to - b,
            {
                bytes.push(b);
                proof {
                    assert(bytes@ =~= byte_range_seq(from, to).subrange(0, b - from + 1));
                }
                if b == to {
                    proof {
                        assert(bytes@ =~= byte_range_seq(from, to));
                    }
                    break ;
                }
                b += 1;
            }
        }
        self.byte_set(lhs, bytes.as_slice())
    }

    /// Adds a choice between the bytes of `bytes`.
    pub fn byte_set(&mut self, lhs: Option<Item>, bytes: &[u8]) -> (r: Result<Item, Fault>)
        requires
            old(self).wf(),
            lhs matches Some(item) ==> old(self).knows(item),
        ensures
            final(self).wf(),
            final(self).extends(*old(self)),
            old(self).alternative_fits(lhs, byte_symbols(bytes@)) ==> (r matches Ok(item) && final(self).alternative_added(*old(self), lhs, byte_symbols(bytes@), item)),
            !old(self).alternative_fits(lhs, byte_symbols(bytes@)) ==> r is Err,
    {
        let alts = bytes_to_symbols(bytes);
        self.alternative_of_symbols(lhs, alts)
    }

    /// Adds a choice between all bytes that are not in `bytes`.
    pub fn inverse_byte_set(&mut self, lhs: Option<Item>, bytes: &[u8]) -> (r: Result<Item, Fault>)
        requires
            old(self).wf(),
            lhs matches Some(item) ==> old(self).knows(item),
        ensures
            final(self).wf(),
            final(self).extends(*old(self)),
            old(self).alternative_fits(lhs, bytes_outside(bytes@, 256)) ==> (r matches Ok(item)
                && final(self).alternative_added(*old(self), lhs, bytes_outside(bytes@, 256), item)),
            !old(self).alternative_fits(lhs, bytes_outside(bytes@, 256)) ==> r is Err,
    {
        let mut set: HashSet<u8> = HashSet::new();
        let mut i: usize = 0;
        while i < bytes.len()
            invariant
                i <= bytes@.len(),
                forall|b: u8| set@.contains(b) <==> bytes@.subrange(0, i as int).contains(b),
            decreases bytes@.len() - i,
        {
            let ghost seen = bytes@.subrange(0, i as int);
            set.insert(bytes[i]);
            proof {
                let next = bytes@.subrange(0, i as int + 1);
                assert(next =~= seen.push(bytes@[i as int]));
                assert forall|b: u8| set@.contains(b) <==> next.contains(b) by {
                    if seen.contains(b) {
                        let k = choose|k: int| 0 <= k < seen.len() && seen[k] == b;
                        assert(next[k] == b);
                    }
                    if next.contains(b) {
                        let k = choose|k: int| 0 <= k < next.len() && next[k] == b;
                        if k < i {
                            assert(seen[k] == b);
                        }
                    }
                    if b == bytes@[i as int] {
                        assert(next[i as int] == b);
                    }
                }
            }
            i += 1;
        }
        proof {
            assert(bytes@.subrange(0, i as int) =~= bytes@);
        }
        let mut alts: Vec<Symbol> = Vec::new();
        let mut b: u16 = 0;
        while b < 256
            invariant
                b <= 256,
                forall|x: u8| set@.contains(x) <==> bytes@.contains(x),
                alts@ == bytes_outside(bytes@, b as int),
            decreases 256 - b,
        {
            if !set.contains(&(b as u8)) {
                alts.push(b as i32);
            }
            b += 1;
        }
        self.alternative_of_symbols(lhs, alts)
    }

    /// Adds a choice between the bytes from that of `from` to that of `to`.
    /// Of a character beyond the bytes, only the lowest eight bits count.
    pub fn char_range(&mut self, lhs: Option<Item>, from: char, to: char) -> (r: Result<
        Item,
        Fault,
    >)
        requires
            old(self).wf(),
            lhs matches Some(item) ==> old(self).knows(item),
        ensures
            final(self).wf(),
            final(self).extends(*old(self)),
            old(self).alternative_fits(
                lhs,
                byte_symbols(byte_range_seq(char_byte(from), char_byte(to))),
            ) ==> (r matches Ok(item) && final(self).alternative_added(
                *old(self),
                lhs,
                byte_symbols(byte_range_seq(char_byte(from), char_byte(to))),
                item,
            )),
            !old(self).alternative_fits(
                lhs,
                byte_symbols(byte_range_seq(char_byte(from), char_byte(to))),
            ) ==> r is Err,
    {
        self.byte_range(lhs, low_byte(from), low_byte(to))
    }

    /// Adds a choice between the bytes of `input`.
    pub fn string_set(&mut self, lhs: Option<Item>, input: &str) -> (r: Result<Item, Fault>)
        requires
            old(self).wf(),
            lhs matches Some(item) ==> old(self).knows(item),
        ensures
            final(self).wf(),
            final(self).extends(*old(self)),
            old(self).alternative_fits(lhs, byte_symbols(input.spec_bytes())) ==> (r matches Ok(
                item,
            ) && final(self).alternative_added(
                *old(self),
                lhs,
                byte_symbols(input.spec_bytes()),
                item,
            )),
            !old(self).alternative_fits(lhs, byte_symbols(input.spec_bytes())) ==> r is Err,
    {
        self.byte_set(lhs, input.as_bytes())
    }

    /// Adds a choice between all bytes that are not in `input`.
    pub fn inverse_string_set(&mut self, lhs: Option<Item>, input: &str) -> (r: Result<Item, Fault>)
        requires
            old(self).wf(),
            lhs matches Some(item) ==> old(self).knows(item),
        ensures
            final(self).wf(),
            final(self).extends(*old(self)),
            old(self).alternative_fits(lhs, bytes_outside(input.spec_bytes(), 256)) ==> (
            r matches Ok(item) && final(self).alternative_added(
                *old(self),
                lhs,
                bytes_outside(input.spec_bytes(), 256),
                item,
            )),
            !old(self).alternative_fits(lhs, bytes_outside(input.spec_bytes(), 256)) ==> r is Err,
    {
        self.inverse_byte_set(lhs, input.as_bytes())
    }
}

/// The byte that a character counts as: its lowest eight bits.
pub open spec fn char_byte(c: char) -> u8 {
    (c as u32 % 256) as u8
}

/// The lowest eight bits of a character.
pub fn low_byte(c: char) -> (b: u8)
    ensures
        b == char_byte(c),
{
    ((c as u32) % 256) as u8
}

/// The symbols that stand for `input`.
pub fn bytes_to_symbols(input: &[u8]) -> (syms: Vec<Symbol>)
    ensures
        syms@ == byte_symbols(input@),
{
    let mut syms: Vec<Symbol> = Vec::new();
    let mut i: usize = 0;
    while i < input.len()
        invariant
            i <= input@.len(),
            syms@ == byte_symbols(input@).subrange(0, i as int),
        decreases input@.len() - i,
    {
        syms.push(input[i] as i32);
        proof {
            assert(syms@ =~= byte_symbols(input@).subrange(0, i as int + 1));
        }
        i += 1;
    }
    proof {
        assert(syms@ =~= byte_symbols(input@));
    }
    syms
}

/// The items that stand for `input`.
pub fn bytes_to_items(input: &[u8]) -> (items: Vec<Item>)
    ensures
        items@.len() == input@.len(),
        forall|i: int| 0 <= i < input@.len() ==> #[trigger] items@[i] == Item::Symbol(input@[i] as Symbol),
{
    let mut items: Vec<Item> = Vec::new();
    let mut i: usize = 0;
    while i < input.len()
        invariant
            i <= input@.len(),
            items@.len() == i,
            forall|k: int| 0 <= k < i ==> #[trigger] items@[k] == Item::Symbol(input@[k] as Symbol),
        decreases input@.len() - i,
    {
        items.push(Item::Symbol(input[i] as i32));
        i += 1;
    }
    items
}

/// The items that stand for the bytes of `input`.
pub fn string_to_items(input: &str) -> (items: Vec<Item>)
    ensures
        items@.len() == input.spec_bytes().len(),
        forall|i: int|
            0 <= i < items@.len() ==> #[trigger] items@[i] == Item::Symbol(
                input.spec_bytes()[i] as Symbol,
            ),
{
    bytes_to_items(input.as_bytes())
}

/// Growth adds up.
pub proof fn lemma_grew(
    a: GrammarView,
    b: GrammarView,
    c: GrammarView,
    s1: int,
    r1: int,
    s2: int,
    r2: int,
)
    requires
        grew(a, b, s1, r1),
        grew(b, c, s2, r2),
        r1 >= 0,
        r2 >= 0,
    ensures
        grew(a, c, s1 + s2, r1 + r2),
{
    assert(c.rules.subrange(0, a.rules.len() as int) =~= a.rules) by {
        assert forall|i: int| 0 <= i < a.rules.len() implies c.rules[i] == a.rules[i] by {
            assert(b.rules.subrange(0, a.rules.len() as int)[i] == b.rules[i]);
            assert(c.rules.subrange(0, b.rules.len() as int)[i] == c.rules[i]);
        }
    }
}

/// A rule stays what it is while the table grows.
pub proof fn lemma_rule_at_kept(b: GrammarView, c: GrammarView, i: int, lhs: Symbol, rhs: Seq<Symbol>)
    requires
        rule_at(b, i, lhs, rhs),
        b.rules.len() <= c.rules.len(),
        c.rules.subrange(0, b.rules.len() as int) == b.rules,
    ensures
        rule_at(c, i, lhs, rhs),
{
    assert(c.rules.subrange(0, b.rules.len() as int)[i] == c.rules[i]);
}

/// Growing is transitive.
pub proof fn lemma_extends_transitive(a: Grammar, b: Grammar, c: Grammar)
    requires
        b.extends(a),
        c.extends(b),
    ensures
        c.extends(a),
{
    assert forall|k: Rule| #[trigger] a.lhs_of().contains_key(k) implies c.lhs_of().contains_key(k)
        && c.lhs_of()[k] == a.lhs_of()[k] by {
        assert(b.lhs_of().contains_key(k));
    }
    assert(c.table().rules.subrange(0, a.table().rules.len() as int) =~= a.table().rules) by {
        assert forall|i: int| 0 <= i < a.table().rules.len() implies c.table().rules[i]
            == a.table().rules[i] by {
            assert(b.table().rules.subrange(0, a.table().rules.len() as int)[i] == b.table().rules[i]);
            assert(c.table().rules.subrange(0, b.table().rules.len() as int)[i] == c.table().rules[i]);
        }
    }
}

} // verus!
