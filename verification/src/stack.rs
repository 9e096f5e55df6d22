//! The evaluation stack.
//!
//! An evaluation is a list of steps.  Each step puts a tree into a slot of
//! the stack: the tree of a token, the tree of a symbol that matched the
//! empty input, or the tree that a rule makes of the trees in a run of
//! slots.  What the trees are is up to the processor.  When the steps are
//! done, the tree of the whole input stands in slot 0.

pub mod processor;

use vstd::prelude::*;
use crate::result::Fault;
use crate::stack::processor::Processor;
use crate::thin::Step;

verus! {

/// The stack of an evaluation, with the processor that makes the trees.
pub struct Stack<T> where T: Processor {
    items: Vec<T::Tree>,
    processor: T,
}

impl<T> Stack<T> where T: Processor {
    /// The trees in the slots.
    pub closed spec fn slots(self) -> Seq<T::Tree> {
        self.items@
    }

    /// The processor.
    pub closed spec fn maker(self) -> T {
        self.processor
    }

    /// How many slots the stack has.
    pub open spec fn size(self) -> nat {
        self.slots().len()
    }

    /// A stack with one slot.
    pub fn new(processor: T) -> (s: Stack<T>)
        ensures
            s.size() == 1,
            s.maker() == processor,
    {
        let mut items: Vec<T::Tree> = Vec::new();
        items.push(Default::default());
        Stack { items, processor }
    }

    /// Makes sure that the stack has a slot `last`.  The slots that there
    /// were keep their trees.
    pub fn size_stack(&mut self, last: usize)
        requires
            last < usize::MAX,
        ensures
            final(self).size() == if old(self).size() > last {
                old(self).size()
            } else {
                (last + 1) as nat
            },
            final(self).slots().subrange(0, old(self).size() as int) == old(self).slots(),
            final(self).maker() == old(self).maker(),
    {
        let size = last + 1;
        proof {
            assert(self.items@.subrange(0, old(self).items@.len() as int) =~= old(self).items@);
        }
        while self.items.len() < size
            invariant
                size == last + 1,
                self.items@.len() <= size || self.items@.len() == old(self).items@.len(),
                self.items@.len() >= old(self).items@.len(),
                self.items@.subrange(0, old(self).items@.len() as int) == old(self).items@,
                self.processor == old(self).processor,
            decreases size - self.items@.len(),
        {
            self.items.push(Default::default());
            proof {
                assert(self.items@.subrange(0, old(self).items@.len() as int) =~= old(self).items@);
            }
        }
    }

    /// What a step does to a stack that has the slots for it: the processor
    /// makes a tree, of the trees in the slots of the children where the
    /// step is for a rule, and the tree goes into the slot of the result,
    /// which for a rule is the slot of the first child.  Where the processor
    /// refuses, no slot changes.
    pub open spec fn stepped(sized: Seq<T::Tree>, before: T, value_step: Step, after: Self, ok: bool) -> bool {
        match value_step {
            Step::Rule(rule, start, end) => exists|r: Result<T::Tree, Fault>|
                #![trigger T::makes_rule(before, rule, sized.subrange(start as int, end + 1), after.maker(), r)]
                T::makes_rule(before, rule, sized.subrange(start as int, end + 1), after.maker(), r)
                    && ok == (r is Ok) && after.slots() == match r {
                    Ok(tree) => sized.update(start as int, tree),
                    Err(_) => sized,
                },
            Step::Token(sym, res, val) => exists|tok: T::Token, r: Result<T::Tree, Fault>|
                #![trigger T::makes_token(before, tok, after.maker(), r)]
                T::makes_token(before, tok, after.maker(), r) && call_ensures(
                    <T::Token as From<(crate::thin::Symbol, i32)>>::from,
                    ((sym, val),),
                    tok,
                ) && ok == (r is Ok) && after.slots() == match r {
                    Ok(tree) => sized.update(res as int, tree),
                    Err(_) => sized,
                },
            Step::NullingSymbol(sym, res) => exists|r: Result<T::Tree, Fault>|
                #![trigger T::makes_null(before, sym, after.maker(), r)]
                T::makes_null(before, sym, after.maker(), r) && ok == (r is Ok) && after.slots()
                    == match r {
                    Ok(tree) => sized.update(res as int, tree),
                    Err(_) => sized,
                },
            _ => false,
        }
    }

    /// The step names no slot, or names its slots by negative numbers or
    /// out of order: it is refused, the processor is not asked, and nothing
    /// changes.
    pub open spec fn step_refused(before: Self, value_step: Step, after: Self) -> bool {
        &&& value_step.last_slot() is None
        &&& after.slots() == before.slots()
        &&& after.maker() == before.maker()
    }

    /// The step names its slots properly and has been carried out on the
    /// stack `before`: the stack was made large enough, the slots that there
    /// were keeping their trees, and then the processor was asked.  With `ok`
    /// the processor made a tree, which stands in the slot of the result;
    /// without it the processor refused, and no tree was put anywhere.
    pub open spec fn step_done(before: Self, value_step: Step, after: Self, ok: bool) -> bool {
        &&& value_step.last_slot() is Some
        &&& after.size() == (if before.size() > value_step.last_slot()->0 {
            before.size()
        } else {
            (value_step.last_slot()->0 + 1) as nat
        })
        &&& exists|sized: Seq<T::Tree>|
            #![trigger Self::stepped(sized, before.maker(), value_step, after, ok)]
            sized.len() == after.size() && sized.subrange(0, before.size() as int)
                == before.slots() && Self::stepped(sized, before.maker(), value_step, after, ok)
    }

    /// The first `n` of `steps` have been carried out on the stack `before`,
    /// one after the other, the processor made a tree for each, and the
    /// stack is now `after`.
    pub open spec fn carried(before: Self, steps: Seq<Step>, n: int, after: Self) -> bool
        decreases n,
    {
        if n <= 0 {
            after.slots() == before.slots() && after.maker() == before.maker()
        } else {
            exists|mid: Self|
                #![trigger Self::step_done(mid, steps[n - 1], after, true)]
                Self::carried(before, steps, n - 1, mid) && Self::step_done(
                    mid,
                    steps[n - 1],
                    after,
                    true,
                )
        }
    }

    /// The first `k` of `steps` have been carried out on the stack `before`,
    /// and the next one was refused, by its slots or by the processor; the
    /// stack is now `after`.
    pub open spec fn stopped(before: Self, steps: Seq<Step>, k: int, after: Self) -> bool {
        exists|mid: Self|
            #![trigger Self::carried(before, steps, k, mid)]
            Self::carried(before, steps, k, mid) && (Self::step_refused(mid, steps[k], after)
                || Self::step_done(mid, steps[k], after, false))
    }

    /// Carries out one step.  A step that names no slot, or names its slots
    /// by negative numbers or out of order, is refused with nothing changed.
    /// For any other step the stack is first made large enough, and then
    /// the processor makes the tree for the slot of the result.
    pub fn step(&mut self, value_step: Step) -> (r: Result<(), Fault>)
        ensures
            value_step.last_slot() is None ==> (r matches Err(e) && e == Fault::InvalidStep)
                && Self::step_refused(*old(self), value_step, *final(self)),
            value_step.last_slot() is Some ==> Self::step_done(
                *old(self),
                value_step,
                *final(self),
                r is Ok,
            ),
    {
        match value_step {
            Step::Rule(rule, start, end) => {
                if start < 0 || end < start {
                    return Err(Fault::InvalidStep);
                }
                self.size_stack(end as usize);
                let ghost sized = self.items@;
                let children = vstd::slice::slice_subrange(
                    self.items.as_slice(),
                    start as usize,
                    end as usize + 1,
                );
                let made = self.processor.proc_rule(rule, children);
                let ghost said = made;
                proof {
                    assert(children@ == sized.subrange(start as int, end + 1));
                    assert(T::makes_rule(
                        old(self).maker(),
                        rule,
                        sized.subrange(start as int, end + 1),
                        self.maker(),
                        said,
                    ));
                }
                match made {
                    Ok(tree) => {
                        self.items[start as usize] = tree;
                        proof {
                            assert(self.slots() =~= sized.update(start as int, tree));
                            assert(said == Ok::<T::Tree, Fault>(tree));
                            assert(T::makes_rule(
                                old(self).maker(),
                                rule,
                                sized.subrange(start as int, end + 1),
                                self.maker(),
                                said,
                            ));
                            assert(Self::stepped(sized, old(self).maker(), value_step, *self, true));
                            assert(sized.len() == self.size());
                            assert(sized.subrange(0, old(self).size() as int) == old(self).slots());
                        }
                        Ok(())
                    },
                    Err(e) => {
                        proof {
                            assert(Self::stepped(sized, old(self).maker(), value_step, *self, false));
                            assert(sized.len() == self.size());
                            assert(sized.subrange(0, old(self).size() as int) == old(self).slots());
                        }
                        Err(e)
                    },
                }
            },
            Step::Token(sym, res, val) => {
                if res < 0 {
                    return Err(Fault::InvalidStep);
                }
                self.size_stack(res as usize);
                let ghost sized = self.items@;
                let tok: T::Token = (sym, val).into();
                let ghost offered = tok;
                let made = self.processor.proc_token(tok);
                let ghost said = made;
                proof {
                    assert(T::makes_token(old(self).maker(), offered, self.maker(), said));
                }
                match made {
                    Ok(tree) => {
                        self.items[res as usize] = tree;
                        proof {
                            assert(self.slots() =~= sized.update(res as int, tree));
                            assert(said == Ok::<T::Tree, Fault>(tree));
                            assert(T::makes_token(old(self).maker(), offered, self.maker(), said));
                            assert(Self::stepped(sized, old(self).maker(), value_step, *self, true));
                            assert(sized.len() == self.size());
                            assert(sized.subrange(0, old(self).size() as int) == old(self).slots());
                        }
                        Ok(())
                    },
                    Err(e) => {
                        proof {
                            assert(Self::stepped(sized, old(self).maker(), value_step, *self, false));
                            assert(sized.len() == self.size());
                            assert(sized.subrange(0, old(self).size() as int) == old(self).slots());
                        }
                        Err(e)
                    },
                }
            },
            Step::NullingSymbol(sym, res) => {
                if res < 0 {
                    return Err(Fault::InvalidStep);
                }
                self.size_stack(res as usize);
                let ghost sized = self.items@;
                let made = self.processor.proc_null(sym);
                let ghost said = made;
                proof {
                    assert(T::makes_null(old(self).maker(), sym, self.maker(), said));
                }
                match made {
                    Ok(tree) => {
                        self.items[res as usize] = tree;
                        proof {
                            assert(self.slots() =~= sized.update(res as int, tree));
                            assert(said == Ok::<T::Tree, Fault>(tree));
                            assert(T::makes_null(old(self).maker(), sym, self.maker(), said));
                            assert(Self::stepped(sized, old(self).maker(), value_step, *self, true));
                            assert(sized.len() == self.size());
                            assert(sized.subrange(0, old(self).size() as int) == old(self).slots());
                        }
                        Ok(())
                    },
                    Err(e) => {
                        proof {
                            assert(Self::stepped(sized, old(self).maker(), value_step, *self, false));
                            assert(sized.len() == self.size());
                            assert(sized.subrange(0, old(self).size() as int) == old(self).slots());
                        }
                        Err(e)
                    },
                }
            },
            _ => Err(Fault::InvalidStep),
        }
    }

    /// One more step that the processor made a tree for carries the steps
    /// one further.
    pub proof fn lemma_carried_on(before: Self, steps: Seq<Step>, n: int, mid: Self, after: Self)
        requires
            n >= 1,
            Self::carried(before, steps, n - 1, mid),
            Self::step_done(mid, steps[n - 1], after, true),
        ensures
            Self::carried(before, steps, n, after),
    {
    }

    /// Carries out the steps of `val` in order and hands out the tree in
    /// slot 0.  Stops at the first step that is refused, by its slots or by
    /// the processor, and fails as that step did.  Without steps, the tree
    /// that stands in slot 0 is handed out.
    pub fn proc_value(&mut self, val: &Vec<Step>) -> (r: Result<&T::Tree, Fault>)
        requires
            old(self).size() > 0,
        ensures
            (exists|i: int| 0 <= i < val@.len() && (#[trigger] val@[i]).last_slot() is None)
                ==> r is Err,
            val@.len() == 0 ==> r is Ok,
            r matches Ok(tree) ==> Self::carried(
                *old(self),
                val@,
                val@.len() as int,
                *final(self),
            ) && final(self).size() >= old(self).size() && *tree == final(self).slots()[0],
            r matches Err(e) ==> exists|k: int|
                #![trigger Self::stopped(*old(self), val@, k, *final(self))]
                0 <= k < val@.len() && Self::stopped(*old(self), val@, k, *final(self)) && (
                val@[k].last_slot() is None ==> e == Fault::InvalidStep),
    {
        let mut i: usize = 0;
        while i < val.len()
            invariant
                i <= val@.len(),
                self.items@.len() >= old(self).items@.len(),
                old(self).items@.len() > 0,
                forall|k: int| 0 <= k < i ==> (#[trigger] val@[k]).last_slot() is Some,
                Self::carried(*old(self), val@, i as int, *self),
            decreases val@.len() - i,
        {
            let ghost mid = *self;
            match self.step(val[i]) {
                Ok(()) => {
                    proof {
                        Self::lemma_carried_on(*old(self), val@, i as int + 1, mid, *self);
                    }
                },
                Err(e) => {
                    proof {
                        assert(Self::carried(*old(self), val@, i as int, mid));
                        assert(Self::stopped(*old(self), val@, i as int, *self));
                    }
                    return Err(e);
                },
            }
            i += 1;
        }
        Ok(&self.items[0])
    }
}

/// Evaluates the steps of `val` with the processor `eng` and returns the
/// tree of the whole input: the steps are carried out in order on a stack
/// of one slot, and a copy of the tree that then stands in slot 0 is
/// returned.  The first step that is refused, by its slots or by the
/// processor, ends the evaluation with its failure.
pub fn proc_value<T: Processor>(eng: T, val: Vec<Step>) -> (r: Result<T::Tree, Fault>)
    ensures
        (exists|i: int| 0 <= i < val@.len() && (#[trigger] val@[i]).last_slot() is None) ==> r is Err,
        val@.len() == 0 ==> r is Ok,
        r matches Ok(tree) ==> exists|start: Stack<T>, end: Stack<T>|
            #![trigger Stack::carried(start, val@, val@.len() as int, end)]
            start.size() == 1 && start.maker() == eng && Stack::carried(
                start,
                val@,
                val@.len() as int,
                end,
            ) && cloned(end.slots()[0], tree),
        r matches Err(e) ==> exists|start: Stack<T>, end: Stack<T>, k: int|
            #![trigger Stack::stopped(start, val@, k, end)]
            start.size() == 1 && start.maker() == eng && 0 <= k < val@.len() && Stack::stopped(
                start,
                val@,
                k,
                end,
            ) && (val@[k].last_slot() is None ==> e == Fault::InvalidStep),
{
    let mut stack = Stack::new(eng);
    let ghost start = stack;
    match stack.proc_value(&val) {
        Ok(tree) => {
            let copy = tree.clone();
            proof {
                assert(Stack::carried(start, val@, val@.len() as int, stack));
                assert(cloned(stack.slots()[0], copy));
            }
            Ok(copy)
        },
        Err(e) => {
            proof {
                let k = choose|k: int|
                    #![trigger Stack::stopped(start, val@, k, stack)]
                    0 <= k < val@.len() && Stack::stopped(start, val@, k, stack) && (
                    val@[k].last_slot() is None ==> e == Fault::InvalidStep);
                assert(Stack::stopped(start, val@, k, stack));
            }
            Err(e)
        },
    }
}

} // verus!
