//! Result records behind handles.
//!
//! A caller on the far side of a binary interface cannot hold a record of
//! this crate; it holds a handle, reads the fields through the accessors
//! and gives the handle back exactly once. The table owns every record
//! that is still out, so what has not been released can be counted.

use vstd::prelude::*;
use crate::estimate::PitchResult;

verus! {

/// The handle that names no record. Releasing it does nothing.
pub const NULL_HANDLE: usize = 0;

/// The records that were handed out and not yet released.
pub struct ResultTable {
    slots: Vec<Option<PitchResult>>,
    live: usize,
    model: Ghost<Map<usize, PitchResult>>,
}

/// The number of slots that hold a record.
spec fn occupied(slots: Seq<Option<PitchResult>>) -> nat
    decreases slots.len(),
{
    if slots.len() == 0 {
        0
    } else {
        occupied(slots.drop_last()) + if slots.last() is Some {
            1nat
        } else {
            0nat
        }
    }
}

proof fn lemma_occupied_bound(slots: Seq<Option<PitchResult>>)
    ensures
        occupied(slots) <= slots.len(),
    decreases slots.len(),
{
    if slots.len() > 0 {
        lemma_occupied_bound(slots.drop_last());
    }
}

proof fn lemma_occupied_push(slots: Seq<Option<PitchResult>>, slot: Option<PitchResult>)
    ensures
        occupied(slots.push(slot)) == occupied(slots) + if slot is Some {
            1nat
        } else {
            0nat
        },
{
    assert(slots.push(slot).drop_last() =~= slots);
}

proof fn lemma_occupied_update(slots: Seq<Option<PitchResult>>, index: int, slot: Option<PitchResult>)
    requires
        0 <= index < slots.len(),
    ensures
        occupied(slots.update(index, slot)) + if slots[index] is Some {
            1nat
        } else {
            0nat
        } == occupied(slots) + if slot is Some {
            1nat
        } else {
            0nat
        },
    decreases slots.len(),
{
    if index == slots.len() - 1 {
        assert(slots.update(index, slot).drop_last() =~= slots.drop_last());
    } else {
        lemma_occupied_update(slots.drop_last(), index, slot);
        assert(slots.update(index, slot).drop_last() =~= slots.drop_last().update(index, slot));
    }
}

impl View for ResultTable {
    type V = Map<usize, PitchResult>;

    /// The live handles, each with its record.
    closed spec fn view(&self) -> Map<usize, PitchResult> {
        self.model@
    }
}

impl ResultTable {
    /// The table is consistent: the null handle is not live, the live
    /// handles are finitely many, and the count of them is kept.
    pub closed spec fn wf(&self) -> bool {
        &&& self.model@.dom().finite()
        &&& self.live == self.model@.dom().len()
        &&& self.live == occupied(self.slots@)
        &&& forall|h: usize| #[trigger]
            self.model@.contains_key(h) <==> 1 <= h <= self.slots@.len() && self.slots@[h - 1] is Some
        &&& forall|h: usize| #[trigger]
            self.model@.contains_key(h) ==> self.slots@[h - 1] == Some(self.model@[h])
    }

    /// In a consistent table the null handle is never live.
    pub proof fn lemma_null_is_not_live(&self)
        requires
            self.wf(),
        ensures
            !self@.contains_key(NULL_HANDLE),
            self@.dom().finite(),
    {
    }

    /// A table with no record out.
    pub fn new() -> (table: ResultTable)
        ensures
            table.wf(),
            table@ == Map::<usize, PitchResult>::empty(),
    {
        ResultTable { slots: Vec::new(), live: 0, model: Ghost(Map::empty()) }
    }

    /// Takes a record into the table and hands out its handle: the least
    /// handle above null that is not live. Every other handle keeps its
    /// record.
    pub fn store(&mut self, result: PitchResult) -> (handle: usize)
        requires
            old(self).wf(),
        ensures
            final(self).wf(),
            handle != NULL_HANDLE,
            !old(self)@.contains_key(handle),
            forall|h: usize| 1 <= h < handle ==> old(self)@.contains_key(h),
            final(self)@ == old(self)@.insert(handle, result),
    {
        let n: usize = self.slots.len();
        let mut index: usize = 0;
        while index < n && self.slots[index].is_some()
            invariant
                index <= n,
                n == self.slots.len(),
                forall|i: int| 0 <= i < index ==> self.slots@[i] is Some,
            decreases n - index,
        {
            index += 1;
        }
        proof {
            lemma_occupied_bound(self.slots@);
            if index < n {
                lemma_occupied_update(self.slots@, index as int, Some(result));
                lemma_occupied_bound(self.slots@.update(index as int, Some(result)));
            } else {
                lemma_occupied_push(self.slots@, Some(result));
            }
            assert forall|h: usize| 1 <= h < index + 1 implies self.model@.contains_key(h) by {
                assert(self.slots@[h - 1] is Some);
            }
        }
        if index < n {
            self.slots.set(index, Some(result));
        } else {
            self.slots.push(Some(result));
        }
        assert(index < self.slots.len());
        let handle: usize = index + 1;
        self.live = self.live + 1;
        self.model = Ghost(self.model@.insert(handle, result));
        handle
    }

    /// Whether the handle names a record that is still out.
    pub fn is_live(&self, handle: usize) -> (r: bool)
        requires
            self.wf(),
        ensures
            r == self@.contains_key(handle),
    {
        handle >= 1 && handle <= self.slots.len() && self.slots[handle - 1].is_some()
    }

    /// How many records are out.
    pub fn live_count(&self) -> (r: usize)
        requires
            self.wf(),
        ensures
            r == self@.dom().len(),
    {
        self.live
    }

    /// The record behind a live handle.
    pub fn get(&self, handle: usize) -> (r: PitchResult)
        requires
            self.wf(),
            self@.contains_key(handle),
        ensures
            r == self@[handle],
    {
        self.slots[handle - 1].unwrap()
    }

    /// The frequency pattern of the record behind a live handle.
    pub fn get_frequency(&self, handle: usize) -> (r: u32)
        requires
            self.wf(),
            self@.contains_key(handle),
        ensures
            r == self@[handle].frequency,
    {
        self.get(handle).frequency
    }

    /// The clarity pattern of the record behind a live handle.
    pub fn get_clarity(&self, handle: usize) -> (r: u32)
        requires
            self.wf(),
            self@.contains_key(handle),
        ensures
            r == self@[handle].clarity,
    {
        self.get(handle).clarity
    }

    /// The detection flag of the record behind a live handle.
    pub fn get_detected(&self, handle: usize) -> (r: u32)
        requires
            self.wf(),
            self@.contains_key(handle),
        ensures
            r == self@[handle].detected,
    {
        self.get(handle).detected
    }

    /// Releases the record behind a handle. The null handle is accepted
    /// and releases nothing; any other handle must be live, and is not live
    /// afterwards. Every other handle keeps its record.
    pub fn free_result(&mut self, handle: usize)
        requires
            old(self).wf(),
            handle == NULL_HANDLE || old(self)@.contains_key(handle),
        ensures
            final(self).wf(),
            final(self)@ == old(self)@.remove(handle),
            handle == NULL_HANDLE ==> final(self)@ == old(self)@,
    {
        if handle != NULL_HANDLE {
            proof {
                lemma_occupied_update(self.slots@, handle - 1, None);
            }
            self.slots.set(handle - 1, None);
            self.live = self.live - 1;
            self.model = Ghost(self.model@.remove(handle));
        } else {
            assert(self.model@.remove(handle) =~= self.model@);
        }
    }
}

/// Releasing a handle undoes the store that handed it out: the table
/// holds exactly the records it held before, and as many.
pub proof fn lemma_release_undoes_store(before: Map<usize, PitchResult>, handle: usize, result: PitchResult)
    requires
        before.dom().finite(),
        !before.contains_key(handle),
    ensures
        before.insert(handle, result).remove(handle) == before,
        before.insert(handle, result).remove(handle).dom().len() == before.dom().len(),
        before.insert(handle, result).dom().len() == before.dom().len() + 1,
{
    assert(before.insert(handle, result).remove(handle) =~= before);
}

} // verus!
