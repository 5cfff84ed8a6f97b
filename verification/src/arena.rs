//! Storage for the incoming state of every substream handle.
//!
//! Each state is known by a number that is never given out twice, its handle,
//! and is kept in a slot that is used again once the state is gone.
use vstd::prelude::*;

use crate::incoming::{IncomingState, IncomingView};

verus! {

/// One place for a state. `handle` is the number of the state that it holds.
pub struct Slot<W> {
    handle: Ghost<nat>,
    incoming: Option<IncomingState<W>>,
}

/// States by handle.
pub struct Arena<W> {
    slots: Vec<Slot<W>>,
    free: Vec<usize>,
    places: Ghost<Map<nat, int>>,
}

impl<W> View for Arena<W> {
    type V = Map<nat, IncomingView<W>>;

    closed spec fn view(&self) -> Map<nat, IncomingView<W>> {
        self.places@.map_values(|i: int| self.slots@[i].incoming.unwrap()@)
    }
}

impl<W> Arena<W> {
    /// Every handle has its slot, and the slots on the free list are empty.
    pub closed spec fn wf(self) -> bool {
        &&& forall|h: nat| #[trigger]
            self.places@.contains_key(h) ==> {
                let i = self.places@[h];
                0 <= i < self.slots@.len() && self.slots@[i].incoming is Some
                    && self.slots@[i].handle@ == h
            }
        &&& forall|i: int|
            0 <= i < self.slots@.len() && (#[trigger] self.slots@[i]).incoming is Some
                ==> self.places@.contains_key(self.slots@[i].handle@)
                && self.places@[self.slots@[i].handle@] == i
        &&& forall|k: int|
            0 <= k < self.free@.len() ==> (#[trigger] self.free@[k]) < self.slots@.len()
                && self.slots@[self.free@[k] as int].incoming is None
        &&& self.free@.no_duplicates()
    }

    /// The handle of the state in a slot, if the slot holds one.
    pub closed spec fn handle_at(self, slot: usize) -> Option<nat> {
        if slot < self.slots@.len() && self.slots@[slot as int].incoming is Some {
            Some(self.slots@[slot as int].handle@)
        } else {
            None
        }
    }

    /// The slot that holds the state with a handle.
    pub closed spec fn slot_of(self, handle: nat) -> usize {
        self.places@[handle] as usize
    }

    /// The number of slots, used or not.
    pub closed spec fn size(self) -> nat {
        self.slots@.len()
    }

    /// A handle is found in one slot, its own, and what is in a slot has a
    /// handle.
    pub proof fn handles_are_places(self)
        requires
            self.wf(),
        ensures
            forall|s: usize|
                (#[trigger] self.handle_at(s)) matches Some(h) ==> self@.contains_key(h) && s
                    < self.size(),
            forall|s: usize, t: usize|
                self.handle_at(s) is Some && #[trigger] self.handle_at(s) == #[trigger] self.handle_at(t)
                    ==> s == t,
            forall|h: nat| #[trigger]
                self@.contains_key(h) ==> self.slot_of(h) < self.size() && self.handle_at(
                    self.slot_of(h),
                ) == Some(h),
    {
        assert(self.slots@.len() == self.slots.len());
    }

    /// An arena without states.
    pub fn new() -> (arena: Self)
        ensures
            arena.wf(),
            arena@ == Map::<nat, IncomingView<W>>::empty(),
    {
        let arena = Arena { slots: Vec::new(), free: Vec::new(), places: Ghost(Map::empty()) };
        assert(arena@ =~= Map::<nat, IncomingView<W>>::empty());
        arena
    }

    /// Stores a state under a new handle.
    pub(crate) fn insert(&mut self, incoming: IncomingState<W>, Ghost(handle): Ghost<nat>) -> (slot: usize)
        requires
            old(self).wf(),
            !old(self)@.contains_key(handle),
        ensures
            final(self).wf(),
            final(self)@ == old(self)@.insert(handle, incoming@),
            final(self).handle_at(slot) == Some(handle),
            forall|s: usize|
                (#[trigger] old(self).handle_at(s)) is Some ==> final(self).handle_at(s) == old(self).handle_at(s),
    {
        let ghost before = *self;
        let entry = Slot { handle: Ghost(handle), incoming: Some(incoming) };
        let slot = match self.free.pop() {
            Some(slot) => {
                assert(before.free@.last() == slot);
                self.slots.set(slot, entry);
                slot
            },
            None => {
                let slot = self.slots.len();
                self.slots.push(entry);
                slot
            },
        };
        self.places = Ghost(self.places@.insert(handle, slot as int));
        assert(self@ =~= before@.insert(handle, incoming@));
        slot
    }

    /// Returns how many slots there are, used or not.
    pub(crate) fn slot_count(&self) -> (count: usize)
        ensures
            count == self.size(),
    {
        self.slots.len()
    }

    /// Returns whether a slot holds a state.
    pub(crate) fn is_used(&self, slot: usize) -> (used: bool)
        requires
            slot < self.size(),
        ensures
            used == self.handle_at(slot) is Some,
    {
        self.slots[slot].incoming.is_some()
    }

    /// Returns whether the state in a slot is closed.
    pub(crate) fn closed_at(&self, slot: usize) -> (closed: bool)
        requires
            self.wf(),
            self.handle_at(slot) is Some,
        ensures
            closed == self@[self.handle_at(slot).unwrap()].closed,
    {
        match &self.slots[slot].incoming {
            Some(incoming) => incoming.is_closed(),
            None => true,
        }
    }

    /// Lends out the state in a slot.
    pub(crate) fn get_mut(&mut self, slot: usize) -> (incoming: &mut IncomingState<W>)
        requires
            old(self).wf(),
            old(self).handle_at(slot) is Some,
        ensures
            incoming@ == old(self)@[old(self).handle_at(slot).unwrap()],
            final(self).wf(),
            final(self)@ == old(self)@.insert(
                old(self).handle_at(slot).unwrap(),
                final(incoming)@,
            ),
            final(self).size() == old(self).size(),
            forall|s: usize| #[trigger] final(self).handle_at(s) == old(self).handle_at(s),
    {
        self.slots[slot].incoming.as_mut().unwrap()
    }

    /// Hands back the state in a slot, and gives up its handle.
    pub(crate) fn remove(&mut self, slot: usize) -> (incoming: IncomingState<W>)
        requires
            old(self).wf(),
            old(self).handle_at(slot) is Some,
        ensures
            final(self).wf(),
            final(self)@ == old(self)@.remove(old(self).handle_at(slot).unwrap()),
            incoming@ == old(self)@[old(self).handle_at(slot).unwrap()],
            forall|s: usize|
                s != slot ==> #[trigger] final(self).handle_at(s) == old(self).handle_at(s),
    {
        let ghost before = *self;
        let ghost handle = self.slots@[slot as int].handle@;
        let incoming = self.slots[slot].incoming.take().unwrap();
        self.free.push(slot);
        self.places = Ghost(self.places@.remove(handle));
        assert(self@ =~= before@.remove(handle));
        incoming
    }
}

} // verus!
