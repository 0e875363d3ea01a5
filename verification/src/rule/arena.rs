//! The arena: slots for rules that are used before they are defined.
use super::{Arena, Rule};
use super::model::lemma_slots_model;
use vstd::prelude::*;

verus! {

impl Arena {
    /// An arena without slots.
    pub fn new() -> (arena: Arena)
        ensures
            arena@.len() == 0,
    {
        Arena { slots: Vec::new() }
    }

    /// Adds an empty slot and returns its index.
    pub fn declare(&mut self) -> (slot: usize)
        ensures
            slot == old(self)@.len(),
            final(self)@ == old(self)@.push(None),
    {
        let slot = self.slots.len();
        self.slots.push(None);
        proof {
            assert(self@ =~= old(self)@.push(None));
        }
        slot
    }

    /// Fills the empty slot `slot` with `rule`.
    pub fn define(&mut self, slot: usize, rule: Rule)
        requires
            slot < old(self)@.len(),
            old(self)@[slot as int] is None,
        ensures
            final(self)@ == old(self)@.update(slot as int, Some(rule@)),
    {
        self.slots[slot] = Some(rule);
        proof {
            assert(self@ =~= old(self)@.update(slot as int, Some(rule@)));
        }
    }

    /// The number of slots.
    pub fn len(&self) -> (n: usize)
        ensures
            n == self@.len(),
    {
        proof {
            lemma_slots_model(self.slots@);
        }
        self.slots.len()
    }

    /// Whether every slot has been filled.
    pub fn is_complete(&self) -> (yes: bool)
        ensures
            yes == (forall|i: int| 0 <= i < self@.len() ==> (#[trigger] self@[i]) is Some),
    {
        proof {
            lemma_slots_model(self.slots@);
        }
        let mut i: usize = 0;
        while i < self.slots.len()
            invariant
                i <= self.slots.len(),
                self@.len() == self.slots@.len(),
                forall|j: int| 0 <= j < i ==> (#[trigger] self@[j]) is Some,
            decreases self.slots.len() - i,
        {
            if self.slots[i].is_none() {
                assert(self@[i as int] is None);
                return false;
            }
            i += 1;
        }
        true
    }

    /// Whether `slot` exists and has been filled.
    pub fn is_defined(&self, slot: usize) -> (filled: bool)
        ensures
            filled == (slot < self@.len() && self@[slot as int] is Some),
    {
        slot < self.slots.len() && self.slots[slot].is_some()
    }

    /// The rule in `slot`, if the slot exists and has been filled.
    pub fn get(&self, slot: usize) -> (rule: Option<&Rule>)
        ensures
            match rule {
                Some(rule) => slot < self@.len() && self@[slot as int] == Some(rule@),
                None => slot >= self@.len() || self@[slot as int] is None,
            },
    {
        if slot < self.slots.len() {
            self.slots[slot].as_ref()
        } else {
            None
        }
    }
}

} // verus!
