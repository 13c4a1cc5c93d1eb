//! Per-instruction bank write tracking.

use vstd::prelude::*;
use std::collections::BTreeMap;
use std::collections::BTreeSet;

verus! {

broadcast use {vstd::std_specs::btree::group_btree_axioms, vstd::laws_cmp::group_laws_cmp};

/// Records, for each instruction in flight, the physical banks it wrote.
/// A mutable bank access is recorded before the bytes change, so writes
/// that leave a bank unchanged are kept too.
pub struct BankScoreboard {
    pub instructions: BTreeMap<u64, BTreeSet<usize>>,
}

impl BankScoreboard {
    /// Instruction id -> the set of physical banks it wrote.
    pub open spec fn view(&self) -> Map<u64, Set<usize>> {
        self.instructions@.map_values(|s: BTreeSet<usize>| s@)
    }

    /// A scoreboard with no instruction in flight.
    pub fn new() -> (r: BankScoreboard)
        ensures
            r@ == Map::<u64, Set<usize>>::empty(),
    {
        let r = BankScoreboard { instructions: BTreeMap::new() };
        assert(r@ =~= Map::<u64, Set<usize>>::empty());
        r
    }

    /// Forgets every instruction in flight.
    pub fn reset(&mut self)
        ensures
            final(self)@ == Map::<u64, Set<usize>>::empty(),
    {
        self.instructions.clear();
        assert(self@ =~= Map::<u64, Set<usize>>::empty());
    }

    /// Starts tracking instruction `instruction_id`, with no writes yet.
    pub fn issue(&mut self, instruction_id: u64)
        requires
            !old(self)@.contains_key(instruction_id),
        ensures
            final(self)@ == old(self)@.insert(instruction_id, Set::<usize>::empty()),
    {
        let ghost before = self.instructions@;
        let empty: BTreeSet<usize> = BTreeSet::new();
        self.instructions.insert(instruction_id, empty);
        assert(self@ =~= old(self)@.insert(instruction_id, Set::<usize>::empty()));
    }

    /// Records that instruction `instruction_id` wrote physical bank
    /// `physical_bank_id`.
    pub fn record_write(&mut self, instruction_id: u64, physical_bank_id: usize)
        requires
            old(self)@.contains_key(instruction_id),
        ensures
            final(self)@ == old(self)@.insert(
                instruction_id,
                old(self)@[instruction_id].insert(physical_bank_id),
            ),
    {
        let mut writes = self.instructions.remove(&instruction_id).unwrap();
        writes.insert(physical_bank_id);
        self.instructions.insert(instruction_id, writes);
        assert(self@ =~= old(self)@.insert(
            instruction_id,
            old(self)@[instruction_id].insert(physical_bank_id),
        ));
    }

    /// Stops tracking instruction `instruction_id` and hands back the set of
    /// physical banks it wrote.
    pub fn complete(&mut self, instruction_id: u64) -> (r: BTreeSet<usize>)
        requires
            old(self)@.contains_key(instruction_id),
        ensures
            r@ == old(self)@[instruction_id],
            final(self)@ == old(self)@.remove(instruction_id),
    {
        let writes = self.instructions.remove(&instruction_id).unwrap();
        assert(self@ =~= old(self)@.remove(instruction_id));
        writes
    }
}

/// Completing an instruction gives back exactly the banks recorded for it
/// since it was issued.
pub proof fn lemma_issue_record_complete(m: Map<u64, Set<usize>>, id: u64, p: usize, q: usize)
    requires
        !m.contains_key(id),
    ensures
        ({
            let issued = m.insert(id, Set::<usize>::empty());
            let once = issued.insert(id, issued[id].insert(p));
            let twice = once.insert(id, once[id].insert(q));
            &&& twice[id] == set![p, q]
            &&& twice.remove(id) == m
        }),
{
    let issued = m.insert(id, Set::<usize>::empty());
    let once = issued.insert(id, issued[id].insert(p));
    let twice = once.insert(id, once[id].insert(q));
    assert(twice[id] =~= set![p, q]);
    assert(twice.remove(id) =~= m);
}

} // verus!
