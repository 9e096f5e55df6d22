//! The grammar under construction.
//!
//! The grammar is kept as a table of symbols and rules that the engine takes
//! over when the grammar is complete.  Symbols and rules are known by
//! numbers that are handed out in order, from zero.  The table makes sure
//! that every rule speaks of symbols that exist; what else the engine asks of
//! a grammar, it checks when it takes the grammar over.

use vstd::prelude::*;
use crate::result::{err, err_code, err_norule, err_nosym, err_notaseq, Fault};
use crate::thin::{Rule, Symbol};

verus! {

/// What makes a rule a sequence rule.
#[derive(Debug, Clone, Copy, PartialEq, Eq)]
pub struct SequenceDef {
    /// The symbol between two items, or -1 where there is none.
    pub separator: Symbol,
    /// The least number of items: 0 or 1.
    pub min: i32,
    /// Whether a separator after the last item is refused.
    pub proper: bool,
}

/// A rule of the grammar.
#[derive(Debug, Clone, PartialEq, Eq)]
pub struct RuleDef {
    /// The symbol that the rule defines.
    pub lhs: Symbol,
    /// The symbols that make it up; for a sequence rule, the one item.
    pub rhs: Vec<Symbol>,
    /// The kind of sequence, for a sequence rule.
    pub sequence: Option<SequenceDef>,
}

/// A grammar under construction.
#[derive(Debug, Clone, PartialEq, Eq)]
pub struct Grammar {
    symbol_count: i32,
    rules: Vec<RuleDef>,
    start: Symbol,
    error: i32,
}

/// A grammar, as mathematical values.
pub struct GrammarView {
    /// How many symbols there are: the ids are the numbers below.
    pub symbol_count: int,
    /// The rules, by id.
    pub rules: Seq<RuleDef>,
    /// The start symbol, or -1 where none has been set.
    pub start: int,
    /// The code of the last failure, or 0.
    pub error: int,
}

impl GrammarView {
    /// Whether `sym` is the id of a symbol.
    pub open spec fn has_symbol(self, sym: int) -> bool {
        0 <= sym < self.symbol_count
    }

    /// Whether `rule` is the id of a rule.
    pub open spec fn has_rule(self, rule: int) -> bool {
        0 <= rule < self.rules.len()
    }

    /// Whether all of `syms` are ids of symbols.
    pub open spec fn has_symbols(self, syms: Seq<Symbol>) -> bool {
        forall|i: int| 0 <= i < syms.len() ==> self.has_symbol(#[trigger] syms[i] as int)
    }

    /// Whether rule `r` speaks only of symbols that exist.
    pub open spec fn rule_ok(self, r: RuleDef) -> bool {
        &&& self.has_symbol(r.lhs as int)
        &&& self.has_symbols(r.rhs@)
        &&& r.rhs@.len() <= i32::MAX
        &&& match r.sequence {
            Some(s) => r.rhs@.len() == 1 && (s.separator == -1 || self.has_symbol(
                s.separator as int,
            )) && 0 <= s.min <= 1,
            None => true,
        }
    }

    /// Well-formedness of the table.
    pub open spec fn wf(self) -> bool {
        &&& 0 <= self.symbol_count <= i32::MAX
        &&& self.rules.len() <= i32::MAX
        &&& self.start == -1 || self.has_symbol(self.start)
        &&& forall|i: int| 0 <= i < self.rules.len() ==> self.rule_ok(#[trigger] self.rules[i])
    }
}

impl View for Grammar {
    type V = GrammarView;

    closed spec fn view(&self) -> GrammarView {
        GrammarView {
            symbol_count: self.symbol_count as int,
            rules: self.rules@,
            start: self.start as int,
            error: self.error as int,
        }
    }
}

impl Grammar {
    /// An empty grammar.
    pub fn new() -> (r: Result<Grammar, Fault>)
        ensures
            r matches Ok(g) && g@.wf() && g@ == (GrammarView {
                symbol_count: 0,
                rules: Seq::empty(),
                start: -1,
                error: 0,
            }),
    {
        Ok(Grammar { symbol_count: 0, rules: Vec::new(), start: -1, error: 0 })
    }

    /// The failure that the grammar has recorded, if any.
    fn error(&self) -> (r: Result<(), Fault>)
        ensures
            self@.error == 0 ==> r is Ok,
            self@.error != 0 ==> (r matches Err(e) && e == Fault::Code(self@.error as i32)),
    {
        if self.error == 0 {
            Ok(())
        } else {
            err_code(self.error)
        }
    }

    /// A failure: with the code that the grammar has recorded, or, where it
    /// has recorded none, with the words of `s`.
    pub fn error_or<T>(&self, s: &str) -> (r: Result<T, Fault>)
        ensures
            self@.error == 0 ==> (r matches Err(Fault::Message(m)) && m@ == s@),
            self@.error != 0 ==> (r matches Err(e) && e == Fault::Code(self@.error as i32)),
    {
        match self.error() {
            Ok(()) => err(s),
            Err(error) => Err(error),
        }
    }

    /// Adds a symbol and returns its id.  Fails when the ids have run out.
    pub fn new_symbol(&mut self) -> (r: Result<Symbol, Fault>)
        requires
            old(self)@.wf(),
        ensures
            final(self)@.wf(),
            old(self)@.symbol_count < i32::MAX ==> r == Ok::<Symbol, Fault>(
                old(self)@.symbol_count as i32,
            ) && final(self)@ == (GrammarView {
                symbol_count: old(self)@.symbol_count + 1,
                ..old(self)@
            }),
            old(self)@.symbol_count == i32::MAX ==> r is Err && final(self)@ == old(self)@,
    {
        if self.symbol_count == i32::MAX {
            return self.error_or("error creating new symbol");
        }
        let sym = self.symbol_count;
        self.symbol_count = sym + 1;
        Ok(sym)
    }

    /// The start symbol.  Fails where none has been set.
    pub fn get_start_symbol(&self) -> (r: Result<Symbol, Fault>)
        requires
            self@.wf(),
        ensures
            self@.start >= 0 ==> r == Ok::<Symbol, Fault>(self@.start as i32),
            self@.start < 0 ==> (r matches Err(e) && e == Fault::Code(
                crate::result::ERR_NO_SUCH_SYMBOL_ID,
            )),
    {
        if self.start < 0 {
            err_nosym()
        } else {
            Ok(self.start)
        }
    }

    /// Makes `sym` the start symbol.  Fails where `sym` is no symbol.
    pub fn set_start_symbol(&mut self, sym: Symbol) -> (r: Result<Symbol, Fault>)
        requires
            old(self)@.wf(),
        ensures
            final(self)@.wf(),
            old(self)@.has_symbol(sym as int) ==> r == Ok::<Symbol, Fault>(sym) && final(self)@ == (
            GrammarView { start: sym as int, ..old(self)@ }),
            !old(self)@.has_symbol(sym as int) ==> (r matches Err(e) && e == Fault::Code(
                crate::result::ERR_NO_SUCH_SYMBOL_ID,
            )) && final(self)@ == old(self)@,
    {
        if sym < 0 || sym >= self.symbol_count {
            return err_nosym();
        }
        self.start = sym;
        Ok(sym)
    }

    /// How many symbols the grammar has.
    pub fn num_symbols(&self) -> (r: Result<i32, Fault>)
        ensures
            r == Ok::<i32, Fault>(self@.symbol_count as i32),
    {
        Ok(self.symbol_count)
    }

    /// The ids of the symbols.
    pub fn symbols(&self) -> (r: Result<std::ops::Range<Symbol>, Fault>)
        ensures
            r matches Ok(range) && range.start == 0 && range.end == self@.symbol_count,
    {
        Ok(0..self.symbol_count)
    }

    /// The ids of the rules.
    pub fn rules(&self) -> (r: Result<std::ops::Range<Rule>, Fault>)
        requires
            self@.wf(),
        ensures
            r matches Ok(range) && range.start == 0 && range.end == self@.rules.len(),
    {
        Ok(0..(self.rules.len() as i32))
    }

    fn has_symbols(&self, syms: &[Symbol]) -> (b: bool)
        ensures
            b == self@.has_symbols(syms@),
    {
        let mut i: usize = 0;
        while i < syms.len()
            invariant
                i <= syms@.len(),
                forall|k: int| 0 <= k < i ==> self@.has_symbol(#[trigger] syms@[k] as int),
            decreases syms@.len() - i,
        {
            if syms[i] < 0 || syms[i] >= self.symbol_count {
                return false;
            }
            i += 1;
        }
        true
    }

    /// Whether a rule can be added that speaks of `lhs` and `rhs`.
    pub open spec fn accepts_rule(self, lhs: Symbol, rhs: Seq<Symbol>) -> bool {
        &&& self@.has_symbol(lhs as int)
        &&& self@.has_symbols(rhs)
        &&& rhs.len() <= i32::MAX
        &&& self@.rules.len() < i32::MAX
    }

    /// Adds the rule `lhs -> rhs` and returns its id.  Fails, with nothing
    /// changed, where one of the symbols does not exist or the ids have run
    /// out.
    pub fn new_rule(&mut self, lhs: Symbol, rhs: &[Symbol]) -> (r: Result<Rule, Fault>)
        requires
            old(self)@.wf(),
        ensures
            final(self)@.wf(),
            old(self).accepts_rule(lhs, rhs@) ==> r == Ok::<Rule, Fault>(
                old(self)@.rules.len() as i32,
            ) && final(self)@.symbol_count == old(self)@.symbol_count && final(self)@.start == old(self)@.start && final(self)@.error == old(self)@.error && final(self)@.rules.len() == old(self)@.rules.len() + 1 && final(self)@.rules.subrange(0, old(self)@.rules.len() as int)
                == old(self)@.rules && final(self)@.rules.last().lhs == lhs && final(self)@.rules.last().rhs@ == rhs@ && final(self)@.rules.last().sequence is None,
            !old(self).accepts_rule(lhs, rhs@) ==> r is Err && final(self)@ == old(self)@,
            !(old(self)@.has_symbol(lhs as int) && old(self)@.has_symbols(rhs@)) ==> (
            r matches Err(e) && e == Fault::Code(crate::result::ERR_NO_SUCH_SYMBOL_ID)),
    {
        if lhs < 0 || lhs >= self.symbol_count || !self.has_symbols(rhs) {
            return err_nosym();
        }
        if rhs.len() > i32::MAX as usize || self.rules.len() >= i32::MAX as usize {
            return self.error_or("error creating rule");
        }
        let id = self.rules.len() as i32;
        let ghost before = self@;
        let symbols = vstd::slice::slice_to_vec(rhs);
        self.rules.push(RuleDef { lhs, rhs: symbols, sequence: None });
        proof {
            assert(self@.rules.subrange(0, before.rules.len() as int) =~= before.rules);
            assert forall|i: int| 0 <= i < self@.rules.len() implies self@.rule_ok(
                #[trigger] self@.rules[i],
            ) by {
                if i < before.rules.len() {
                    assert(before.rule_ok(before.rules[i]));
                }
            }
        }
        Ok(id)
    }

    /// Whether a sequence rule can be added that speaks of these symbols.
    pub open spec fn accepts_sequence(self, lhs: Symbol, rhs: Symbol, sep: Symbol) -> bool {
        &&& self@.has_symbol(lhs as int)
        &&& self@.has_symbol(rhs as int)
        &&& sep == -1 || self@.has_symbol(sep as int)
        &&& self@.rules.len() < i32::MAX
    }

    /// Adds the sequence rule that makes `lhs` a run of `rhs`, with `sep`
    /// between them unless `sep` is -1, and returns its id.  The run may be
    /// empty unless `nonempty` is set; with `proper`, no separator may
    /// follow the last item.
    pub fn new_sequence(
        &mut self,
        lhs: Symbol,
        rhs: Symbol,
        sep: Symbol,
        nonempty: bool,
        proper: bool,
    ) -> (r: Result<Rule, Fault>)
        requires
            old(self)@.wf(),
        ensures
            final(self)@.wf(),
            old(self).accepts_sequence(lhs, rhs, sep) ==> r == Ok::<Rule, Fault>(
                old(self)@.rules.len() as i32,
            ) && final(self)@.symbol_count == old(self)@.symbol_count && final(self)@.start == old(self)@.start && final(self)@.error == old(self)@.error && final(self)@.rules.len() == old(self)@.rules.len() + 1 && final(self)@.rules.subrange(0, old(self)@.rules.len() as int)
                == old(self)@.rules && final(self)@.rules.last().lhs == lhs && final(self)@.rules.last().rhs@ == seq![rhs] && final(self)@.rules.last().sequence == Some(
                SequenceDef { separator: sep, min: if nonempty {
                    1i32
                } else {
                    0i32
                }, proper },
            ),
            !old(self).accepts_sequence(lhs, rhs, sep) ==> r is Err && final(self)@ == old(self)@,
    {
        if lhs < 0 || lhs >= self.symbol_count || rhs < 0 || rhs >= self.symbol_count || (sep != -1
            && (sep < 0 || sep >= self.symbol_count)) {
            return err_nosym();
        }
        if self.rules.len() >= i32::MAX as usize {
            return self.error_or("error creating sequence");
        }
        let id = self.rules.len() as i32;
        let ghost before = self@;
        let mut symbols: Vec<Symbol> = Vec::new();
        symbols.push(rhs);
        let min: i32 = if nonempty {
            1
        } else {
            0
        };
        self.rules.push(
            RuleDef { lhs, rhs: symbols, sequence: Some(SequenceDef { separator: sep, min, proper }) },
        );
        proof {
            assert(self@.rules.subrange(0, before.rules.len() as int) =~= before.rules);
            assert(self@.rules.last().rhs@ =~= seq![rhs]);
            assert forall|i: int| 0 <= i < self@.rules.len() implies self@.rule_ok(
                #[trigger] self@.rules[i],
            ) by {
                if i < before.rules.len() {
                    assert(before.rule_ok(before.rules[i]));
                }
            }
        }
        Ok(id)
    }

    /// The symbol that rule `rule` defines.
    pub fn rule_lhs(&self, rule: Rule) -> (r: Result<Symbol, Fault>)
        ensures
            self@.has_rule(rule as int) ==> r == Ok::<Symbol, Fault>(self@.rules[rule as int].lhs),
            !self@.has_rule(rule as int) ==> (r matches Err(e) && e == Fault::Code(
                crate::result::ERR_NO_SUCH_RULE_ID,
            )),
    {
        if rule < 0 || rule as usize >= self.rules.len() {
            return err_norule();
        }
        Ok(self.rules[rule as usize].lhs)
    }

    /// How many symbols rule `rule` has on its right side.
    pub fn rule_length(&self, rule: Rule) -> (r: Result<i32, Fault>)
        requires
            self@.wf(),
        ensures
            self@.has_rule(rule as int) ==> r == Ok::<i32, Fault>(
                self@.rules[rule as int].rhs@.len() as i32,
            ),
            !self@.has_rule(rule as int) ==> (r matches Err(e) && e == Fault::Code(
                crate::result::ERR_NO_SUCH_RULE_ID,
            )),
    {
        if rule < 0 || rule as usize >= self.rules.len() {
            return err_norule();
        }
        proof {
            assert(self@.rule_ok(self@.rules[rule as int]));
        }
        Ok(self.rules[rule as usize].rhs.len() as i32)
    }

    /// The symbol at place `ix` on the right side of rule `rule`.
    pub fn rule_rhs_ix(&self, rule: Rule, ix: i32) -> (r: Result<Symbol, Fault>)
        ensures
            self@.has_rule(rule as int) && 0 <= ix < self@.rules[rule as int].rhs@.len() ==> r
                == Ok::<Symbol, Fault>(self@.rules[rule as int].rhs@[ix as int]),
            !self@.has_rule(rule as int) ==> (r matches Err(e) && e == Fault::Code(
                crate::result::ERR_NO_SUCH_RULE_ID,
            )),
            self@.has_rule(rule as int) && !(0 <= ix < self@.rules[rule as int].rhs@.len()) ==> r is Err,
    {
        if rule < 0 || rule as usize >= self.rules.len() {
            return err_norule();
        }
        if ix < 0 || ix as usize >= self.rules[rule as usize].rhs.len() {
            return self.error_or("error getting rhs ix");
        }
        Ok(self.rules[rule as usize].rhs[ix as usize])
    }

    /// The right side of rule `rule`.
    pub fn rule_rhs(&self, rule: Rule) -> (r: Result<Vec<Symbol>, Fault>)
        requires
            self@.wf(),
        ensures
            self@.has_rule(rule as int) ==> (r matches Ok(syms) && syms@
                == self@.rules[rule as int].rhs@),
            !self@.has_rule(rule as int) ==> (r matches Err(e) && e == Fault::Code(
                crate::result::ERR_NO_SUCH_RULE_ID,
            )),
    {
        let len = match self.rule_length(rule) {
            Ok(n) => n,
            Err(e) => {
                return Err(e);
            },
        };
        let mut syms: Vec<Symbol> = Vec::new();
        let mut id: i32 = 0;
        while id < len
            invariant
                self@.has_rule(rule as int),
                len == self@.rules[rule as int].rhs@.len(),
                0 <= id <= len,
                syms@ == self@.rules[rule as int].rhs@.subrange(0, id as int),
            decreases len - id,
        {
            let sym = match self.rule_rhs_ix(rule, id) {
                Ok(s) => s,
                Err(e) => {
                    return Err(e);
                },
            };
            syms.push(sym);
            proof {
                assert(syms@ =~= self@.rules[rule as int].rhs@.subrange(0, id as int + 1));
            }
            id += 1;
        }
        proof {
            assert(syms@ =~= self@.rules[rule as int].rhs@);
        }
        Ok(syms)
    }

    /// Whether rule `rule` is a sequence rule.
    pub fn rule_is_sequence(&self, rule: Rule) -> (r: Result<bool, Fault>)
        ensures
            self@.has_rule(rule as int) ==> r == Ok::<bool, Fault>(
                self@.rules[rule as int].sequence is Some,
            ),
            !self@.has_rule(rule as int) ==> (r matches Err(e) && e == Fault::Code(
                crate::result::ERR_NO_SUCH_RULE_ID,
            )),
    {
        if rule < 0 || rule as usize >= self.rules.len() {
            return err_norule();
        }
        Ok(self.rules[rule as usize].sequence.is_some())
    }

    /// The least number of items of sequence rule `rule`.
    pub fn sequence_min(&self, rule: Rule) -> (r: Result<i32, Fault>)
        ensures
            self@.has_rule(rule as int) ==> match self@.rules[rule as int].sequence {
                Some(s) => r == Ok::<i32, Fault>(s.min),
                None => r matches Err(e) && e == Fault::Code(crate::result::ERR_NOT_A_SEQUENCE),
            },
            !self@.has_rule(rule as int) ==> (r matches Err(e) && e == Fault::Code(
                crate::result::ERR_NO_SUCH_RULE_ID,
            )),
    {
        if rule < 0 || rule as usize >= self.rules.len() {
            return err_norule();
        }
        match self.rules[rule as usize].sequence {
            Some(s) => Ok(s.min),
            None => err_notaseq(),
        }
    }

    /// The separator of sequence rule `rule`.  Fails where the rule is no
    /// sequence rule, and where it is one without a separator.
    pub fn sequence_separator(&self, rule: Rule) -> (r: Result<Symbol, Fault>)
        ensures
            self@.has_rule(rule as int) ==> match self@.rules[rule as int].sequence {
                Some(s) => if s.separator == -1 {
                    r is Err
                } else {
                    r == Ok::<Symbol, Fault>(s.separator)
                },
                None => r matches Err(e) && e == Fault::Code(crate::result::ERR_NOT_A_SEQUENCE),
            },
            !self@.has_rule(rule as int) ==> (r matches Err(e) && e == Fault::Code(
                crate::result::ERR_NO_SUCH_RULE_ID,
            )),
    {
        if rule < 0 || rule as usize >= self.rules.len() {
            return err_norule();
        }
        match self.rules[rule as usize].sequence {
            Some(s) => {
                if s.separator == -1 {
                    self.error_or("Rule has no separator")
                } else {
                    Ok(s.separator)
                }
            },
            None => err_notaseq(),
        }
    }

    /// The definition of rule `rule`, for whoever takes the grammar over.
    pub fn rule_def(&self, rule: Rule) -> (r: Option<&RuleDef>)
        ensures
            self@.has_rule(rule as int) ==> r == Some(&self@.rules[rule as int]),
            !self@.has_rule(rule as int) ==> r is None,
    {
        if rule < 0 || rule as usize >= self.rules.len() {
            None
        } else {
            Some(&self.rules[rule as usize])
        }
    }
}

} // verus!
