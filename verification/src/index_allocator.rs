//! Hands out the indices of a fixed number of slots, each to one holder at a
//! time.

use vstd::prelude::*;

verus! {

/// The index of a slot.
#[derive(Debug, Clone, Copy, PartialEq, Eq, Structural)]
pub struct SlotId(pub u32);

impl SlotId {
    /// The index as a number.
    pub fn index(self) -> (index: usize)
        ensures
            index == self.0,
    {
        self.0 as usize
    }
}

/// The free slots a fresh allocator of `capacity` slots starts with: all of
/// them, the lowest index last, so that it is handed out first.
pub open spec fn all_free(capacity: nat) -> Seq<u32> {
    Seq::new(capacity, |j: int| (capacity - 1 - j) as u32)
}

/// Allocator of slot indices. Freed indices are reused last in, first out.
#[derive(Debug)]
pub struct SimpleIndexAllocator {
    /// For each slot, whether it is handed out.
    in_use: Vec<bool>,
    /// The slots that are not handed out; the last one is handed out next.
    free_list: Vec<u32>,
}

impl SimpleIndexAllocator {
    /// Number of slots.
    pub closed spec fn capacity(&self) -> nat {
        self.in_use@.len()
    }

    /// The free slots, in the reverse of the order in which they will be
    /// handed out.
    pub closed spec fn free_slots(&self) -> Seq<u32> {
        self.free_list@
    }

    /// Whether slot `index` exists and is handed out.
    pub open spec fn is_allocated(&self, index: int) -> bool {
        0 <= index < self.capacity() && !self.free_slots().contains(index as u32)
    }

    /// The free list names each free slot once, the bookkeeping of the two
    /// representations agrees, and indices fit 32 bits.
    pub closed spec fn wf(&self) -> bool {
        &&& self.in_use@.len() <= u32::MAX
        &&& forall|j: int|
            0 <= j < self.free_list@.len() ==> (#[trigger] self.free_list@[j] as int)
                < self.in_use@.len() && !self.in_use@[self.free_list@[j] as int]
        &&& forall|j: int, k: int|
            0 <= j < k < self.free_list@.len() ==> self.free_list@[j] != self.free_list@[k]
        &&& forall|i: int|
            0 <= i < self.in_use@.len() && !#[trigger] self.in_use@[i]
                ==> self.free_list@.contains(i as u32)
    }

    /// In a well-formed allocator the free slots are distinct existing slots.
    pub proof fn lemma_free_slots_distinct(&self)
        requires
            self.wf(),
        ensures
            self.capacity() <= u32::MAX,
            self.free_slots().no_duplicates(),
            forall|j: int|
                0 <= j < self.free_slots().len() ==> (#[trigger] self.free_slots()[j] as int)
                    < self.capacity(),
    {
    }

    /// An allocator of `capacity` slots, all free.
    pub fn new(capacity: u32) -> (allocator: Self)
        ensures
            allocator.wf(),
            allocator.capacity() == capacity,
            allocator.free_slots() == all_free(capacity as nat),
    {
        let mut in_use: Vec<bool> = Vec::new();
        let mut free_list: Vec<u32> = Vec::new();
        let mut i: u32 = 0;
        while i < capacity
            invariant
                i <= capacity,
                in_use@.len() == i,
                free_list@.len() == i,
                forall|k: int| 0 <= k < i ==> !in_use@[k],
                forall|j: int| 0 <= j < i ==> free_list@[j] == capacity - 1 - j,
            decreases capacity - i,
        {
            in_use.push(false);
            free_list.push(capacity - 1 - i);
            i = i + 1;
        }
        let allocator = SimpleIndexAllocator { in_use, free_list };
        proof {
            assert(allocator.free_list@ =~= all_free(capacity as nat));
            assert forall|k: int|
                0 <= k < allocator.in_use@.len() && !#[trigger] allocator.in_use@[k]
                implies allocator.free_list@.contains(k as u32) by {
                assert(allocator.free_list@[capacity - 1 - k] == k as u32);
            }
        }
        allocator
    }

    /// Whether slot `index` exists and is handed out.
    pub fn is_in_use(&self, index: u32) -> (in_use: bool)
        requires
            self.wf(),
        ensures
            in_use == self.is_allocated(index as int),
    {
        if (index as usize) < self.in_use.len() {
            let in_use: bool = self.in_use[index as usize];
            proof {
                if in_use {
                    if self.free_list@.contains(index) {
                        let j = choose|j: int|
                            0 <= j < self.free_list@.len() && self.free_list@[j] == index;
                        assert(!self.in_use@[self.free_list@[j] as int]);
                    }
                }
            }
            in_use
        } else {
            false
        }
    }

    /// Hands out the free slot that was freed last, or `None` when every
    /// slot is handed out.
    pub fn allocate(&mut self) -> (slot: Option<SlotId>)
        requires
            old(self).wf(),
        ensures
            final(self).wf(),
            final(self).capacity() == old(self).capacity(),
            old(self).free_slots().len() == 0 ==> slot is None && final(self).free_slots() == old(self).free_slots(),
            old(self).free_slots().len() > 0 ==> slot == Some(
                SlotId(old(self).free_slots().last()),
            ) && final(self).free_slots() == old(self).free_slots().drop_last(),
            slot is None <==> forall|i: int|
                0 <= i < old(self).capacity() ==> old(self).is_allocated(i),
            slot matches Some(id) ==> !old(self).is_allocated(id.0 as int) && final(self).is_allocated(id.0 as int) && (id.0 as int) < old(self).capacity(),
    {
        match self.free_list.pop() {
            None => {
                proof {
                    assert forall|i: int| 0 <= i < self.capacity() implies self.is_allocated(
                        i,
                    ) by {
                        if !self.in_use@[i] {
                            assert(self.free_list@.contains(i as u32));
                        }
                    }
                }
                None
            },
            Some(index) => {
                let ghost before = *old(self);
                assert(before.free_list@.last() == index);
                assert(before.free_list@[before.free_list@.len() - 1] == index);
                self.in_use[index as usize] = true;
                proof {
                    assert(self.free_list@ =~= before.free_list@.drop_last());
                    assert forall|i: int|
                        0 <= i < self.in_use@.len() && !#[trigger] self.in_use@[i]
                        implies self.free_list@.contains(i as u32) by {
                        assert(before.free_list@.contains(i as u32));
                        let j = choose|j: int|
                            0 <= j < before.free_list@.len() && before.free_list@[j] == i as u32;
                        assert(self.free_list@[j] == i as u32);
                    }
                    assert(!self.free_list@.contains(index)) by {
                        if self.free_list@.contains(index) {
                            let j = choose|j: int|
                                0 <= j < self.free_list@.len() && self.free_list@[j] == index;
                            assert(before.free_list@[j] == index);
                        }
                    }
                    assert(before.free_list@.contains(index));
                    assert(!before.is_allocated(index as int));
                }
                Some(SlotId(index))
            },
        }
    }

    /// Takes slot `id` back. It is the next to be handed out.
    pub fn free(&mut self, id: SlotId)
        requires
            old(self).wf(),
            old(self).is_allocated(id.0 as int),
        ensures
            final(self).wf(),
            final(self).capacity() == old(self).capacity(),
            final(self).free_slots() == old(self).free_slots().push(id.0),
            !final(self).is_allocated(id.0 as int),
            forall|i: int| i != id.0 ==> final(self).is_allocated(i) == old(self).is_allocated(i),
    {
        let ghost before = *old(self);
        proof {
            if !before.in_use@[id.0 as int] {
                assert(before.free_list@.contains(id.0));
            }
        }
        self.in_use[id.0 as usize] = false;
        self.free_list.push(id.0);
        proof {
            assert(self.free_list@ =~= before.free_list@.push(id.0));
            assert(self.free_list@[before.free_list@.len() as int] == id.0);
            assert forall|i: int|
                0 <= i < self.in_use@.len() && !#[trigger] self.in_use@[i]
                implies self.free_list@.contains(i as u32) by {
                if i != id.0 {
                    assert(before.free_list@.contains(i as u32));
                    let j = choose|j: int|
                        0 <= j < before.free_list@.len() && before.free_list@[j] == i as u32;
                    assert(self.free_list@[j] == i as u32);
                }
            }
            assert forall|i: int| i != id.0 implies self.is_allocated(i) == before.is_allocated(
                i,
            ) by {
                if 0 <= i < self.capacity() {
                    if before.free_list@.contains(i as u32) {
                        let j = choose|j: int|
                            0 <= j < before.free_list@.len() && before.free_list@[j] == i as u32;
                        assert(self.free_list@[j] == i as u32);
                    }
                    if self.free_list@.contains(i as u32) {
                        let j = choose|j: int|
                            0 <= j < self.free_list@.len() && self.free_list@[j] == i as u32;
                        assert(before.free_list@[j] == i as u32);
                    }
                }
            }
        }
    }
}

} // verus!
