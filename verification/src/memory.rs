//! The symbolic store, and the failure taxonomy of an evaluation.
//!
//! The store maps integer slots (slot 0 is the return slot) to symbolic
//! expressions. Its ghost view is a sequence of optional expression views:
//! a slot holds `Some` while it is live and `None` otherwise. Every
//! discipline violation is a named error, never a silent failure.

use vstd::pervasive::VecAdditionalExecFns;
use vstd::prelude::*;

use crate::sir::copy_expr;
use crate::sir::Expr;
use crate::sir::ExprV;

verus! {

/// Why the conversion of one function was abandoned.
///
/// `LoopUnsupported` reports a cyclic control-flow graph, found before any
/// store is touched. `UnsupportedConstruct` reports input outside the
/// supported subset. The remaining three report store-discipline
/// violations: reading or writing a slot that is not live, freeing a slot
/// twice, and finishing with live slots other than the return slot.
#[derive(Clone, Copy, Debug, PartialEq, Eq, Structural)]
pub enum EvalError {
    LoopUnsupported,
    UnsupportedConstruct,
    UnboundLocation,
    DoubleFree,
    UnbalancedLifetime,
}

pub open spec fn slot_view(s: Option<Expr>) -> Option<ExprV> {
    match s {
        Some(e) => Some(crate::sir::expr_view(e)),
        None => None,
    }
}

pub open spec fn slots_view(s: Seq<Option<Expr>>) -> Seq<Option<ExprV>>
    decreases s,
{
    if s.len() == 0 {
        Seq::empty()
    } else {
        slots_view(s.drop_last()).push(slot_view(s.last()))
    }
}

pub proof fn lemma_slots_view(s: Seq<Option<Expr>>)
    ensures
        slots_view(s).len() == s.len(),
        forall|i: int| 0 <= i < s.len() ==> slots_view(s)[i] == slot_view(s[i]),
    decreases s,
{
    if s.len() > 0 {
        lemma_slots_view(s.drop_last());
    }
}

/// The symbolic store: a fixed family of slots, each live or free.
#[derive(Debug)]
pub struct Memory {
    slots: Vec<Option<Expr>>,
}

impl View for Memory {
    type V = Seq<Option<ExprV>>;

    closed spec fn view(&self) -> Seq<Option<ExprV>> {
        slots_view(self.slots@)
    }
}

impl Memory {
    /// A store of `n` slots, all free.
    #[verifier::loop_isolation(false)]
    pub fn new(n: usize) -> (r: Memory)
        ensures
            r@.len() == n,
            forall|i: int| 0 <= i < n ==> r@[i] is None,
    {
        let mut slots: Vec<Option<Expr>> = Vec::new();
        let mut i: usize = 0;
        while i < n
            invariant
                i <= n,
                slots@.len() == i,
                forall|j: int| 0 <= j < i ==> slots@[j] is None,
            decreases n - i,
        {
            slots.push(None);
            i = i + 1;
        }
        proof {
            lemma_slots_view(slots@);
        }
        Memory { slots }
    }

    /// Make `slot` live, holding `e`; any expression it held is dropped.
    /// Fails with `UnboundLocation` when no such slot exists.
    pub fn allocate(&mut self, slot: usize, e: Expr) -> (r: Result<(), EvalError>)
        ensures
            final(self)@.len() == old(self)@.len(),
            slot < old(self)@.len() ==> r is Ok && final(self)@ == old(self)@.update(
                slot as int,
                Some(e@),
            ),
            slot >= old(self)@.len() ==> r == Result::<(), EvalError>::Err(
                EvalError::UnboundLocation,
            ) && final(self)@ == old(self)@,
    {
        proof {
            lemma_slots_view(self.slots@);
        }
        if slot < self.slots.len() {
            let ghost pre = self.slots@;
            self.slots.set(slot, Some(e));
            proof {
                lemma_slots_view(self.slots@);
                assert(slots_view(self.slots@) =~= slots_view(pre).update(slot as int, Some(e@)));
            }
            Ok(())
        } else {
            Err(EvalError::UnboundLocation)
        }
    }

    /// Read the expression a live slot holds. Fails with `UnboundLocation`
    /// when the slot does not exist or is not live.
    pub fn read(&self, slot: usize) -> (r: Result<&Expr, EvalError>)
        ensures
            (slot < self@.len() && self@[slot as int] is Some) <==> r is Ok,
            r matches Ok(e) ==> Some(e@) == self@[slot as int],
            r matches Err(err) ==> err == EvalError::UnboundLocation,
    {
        proof {
            lemma_slots_view(self.slots@);
        }
        if slot < self.slots.len() {
            match &self.slots[slot] {
                Some(e) => Ok(e),
                None => Err(EvalError::UnboundLocation),
            }
        } else {
            Err(EvalError::UnboundLocation)
        }
    }

    /// Overwrite the expression a live slot holds. Fails with
    /// `UnboundLocation` when the slot does not exist or is not live.
    pub fn write(&mut self, slot: usize, e: Expr) -> (r: Result<(), EvalError>)
        ensures
            final(self)@.len() == old(self)@.len(),
            (slot < old(self)@.len() && old(self)@[slot as int] is Some) <==> r is Ok,
            r is Ok ==> final(self)@ == old(self)@.update(slot as int, Some(e@)),
            r matches Err(err) ==> err == EvalError::UnboundLocation && final(self)@ == old(
                self,
            )@,
    {
        proof {
            lemma_slots_view(self.slots@);
        }
        if slot < self.slots.len() {
            let live = self.slots[slot].is_some();
            if live {
                let ghost pre = self.slots@;
                self.slots.set(slot, Some(e));
                proof {
                    lemma_slots_view(self.slots@);
                    assert(slots_view(self.slots@) =~= slots_view(pre).update(
                        slot as int,
                        Some(e@),
                    ));
                }
                Ok(())
            } else {
                Err(EvalError::UnboundLocation)
            }
        } else {
            Err(EvalError::UnboundLocation)
        }
    }

    /// End a slot's lifetime and hand its expression back. Fails with
    /// `DoubleFree` when the slot does not exist or is already free.
    pub fn free(&mut self, slot: usize) -> (r: Result<Expr, EvalError>)
        ensures
            final(self)@.len() == old(self)@.len(),
            (slot < old(self)@.len() && old(self)@[slot as int] is Some) <==> r is Ok,
            r matches Ok(e) ==> Some(e@) == old(self)@[slot as int] && final(self)@ == old(
                self,
            )@.update(slot as int, None),
            r matches Err(err) ==> err == EvalError::DoubleFree && final(self)@ == old(self)@,
    {
        proof {
            lemma_slots_view(self.slots@);
        }
        if slot < self.slots.len() {
            let mut taken: Option<Expr> = None;
            let ghost pre = self.slots@;
            self.slots.set_and_swap(slot, &mut taken);
            proof {
                lemma_slots_view(self.slots@);
                assert(slots_view(self.slots@) =~= slots_view(pre).update(slot as int, None));
            }
            match taken {
                Some(e) => Ok(e),
                None => {
                    proof {
                        assert(slots_view(self.slots@) =~= slots_view(pre));
                    }
                    Err(EvalError::DoubleFree)
                },
            }
        } else {
            Err(EvalError::DoubleFree)
        }
    }

    /// Is every slot free?
    #[verifier::loop_isolation(false)]
    pub fn is_empty(&self) -> (r: bool)
        ensures
            r == (forall|i: int| 0 <= i < self@.len() ==> self@[i] is None),
    {
        proof {
            lemma_slots_view(self.slots@);
        }
        let mut i: usize = 0;
        while i < self.slots.len()
            invariant
                i <= self@.len(),
                forall|j: int| 0 <= j < i ==> self@[j] is None,
            decreases self@.len() - i,
        {
            if self.slots[i].is_some() {
                proof {
                    assert(self@[i as int] is Some);
                }
                return false;
            }
            i = i + 1;
        }
        true
    }

    /// An independent deep copy of the whole store, so a forked evaluation
    /// can diverge without touching this one.
    #[verifier::loop_isolation(false)]
    pub fn fork(&self) -> (r: Memory)
        ensures
            r@ == self@,
    {
        proof {
            lemma_slots_view(self.slots@);
        }
        let mut slots: Vec<Option<Expr>> = Vec::new();
        let mut i: usize = 0;
        while i < self.slots.len()
            invariant
                i <= self.slots@.len(),
                slots@.len() == i,
                forall|j: int| 0 <= j < i ==> slot_view(slots@[j]) == slot_view(self.slots@[j]),
            decreases self.slots@.len() - i,
        {
            let c: Option<Expr> = match &self.slots[i] {
                Some(e) => Some(copy_expr(e)),
                None => None,
            };
            slots.push(c);
            i = i + 1;
        }
        proof {
            lemma_slots_view(slots@);
            assert(slots_view(slots@) =~= slots_view(self.slots@));
        }
        Memory { slots }
    }
}

} // verus!
