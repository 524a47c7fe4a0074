//! Slot storage for linked nodes.
//!
//! A node lives in a slot of a vector and is named by the slot's index, so a
//! link between two nodes is an index and never a pointer. A slot that was
//! given back is recorded in a free list and handed out again before the
//! vector grows.

use vstd::prelude::*;

verus! {

/// Slots that hold values of `V`. Its view maps the index of each occupied
/// slot to the value it holds.
pub struct Arena<V> {
    slots: Vec<Option<V>>,
    free: Vec<usize>,
}

impl<V> View for Arena<V> {
    type V = Map<usize, V>;

    closed spec fn view(&self) -> Map<usize, V> {
        Map::new(
            |i: usize| i < self.slots.len() && self.slots[i as int] is Some,
            |i: usize| self.slots[i as int].unwrap(),
        )
    }
}

impl<V> Arena<V> {
    /// The free list names exactly the empty slots, each of them once.
    pub closed spec fn well_formed(&self) -> bool {
        &&& forall|k: int|
            0 <= k < self.free.len() ==> (#[trigger] self.free[k]) < self.slots.len()
                && self.slots[self.free[k] as int] is None
        &&& forall|j: int, k: int|
            0 <= j < k < self.free.len() ==> self.free[j] != self.free[k]
        &&& forall|i: int|
            0 <= i < self.slots.len() && (#[trigger] self.slots[i]) is None ==> exists|k: int|
                0 <= k < self.free.len() && self.free[k] == i
    }

    /// An arena without slots.
    pub fn new() -> (arena: Self)
        ensures
            arena.well_formed(),
            arena@ == Map::<usize, V>::empty(),
    {
        Arena { slots: Vec::new(), free: Vec::new() }
    }

    /// Stores `value` in a slot that was empty and returns the slot's index.
    pub fn insert(&mut self, value: V) -> (index: usize)
        requires
            old(self).well_formed(),
        ensures
            final(self).well_formed(),
            !old(self)@.dom().contains(index),
            final(self)@ == old(self)@.insert(index, value),
    {
        match self.free.pop() {
            Some(index) => {
                self.slots[index] = Some(value);
                assert forall|i: int|
                    0 <= i < self.slots.len() && (#[trigger] self.slots[i]) is None implies exists|
                    k: int,
                | 0 <= k < self.free.len() && self.free[k] == i by {
                    let k = choose|k: int| 0 <= k < old(self).free.len() && old(self).free[k] == i;
                    assert(self.free[k] == i);
                }
                index
            },
            None => {
                let index = self.slots.len();
                self.slots.push(Some(value));
                index
            },
        }
    }

    /// Empties slot `index` and returns what it held.
    pub fn remove(&mut self, index: usize) -> (value: V)
        requires
            old(self).well_formed(),
            old(self)@.dom().contains(index),
        ensures
            final(self).well_formed(),
            value == old(self)@[index],
            final(self)@ == old(self)@.remove(index),
    {
        let value = self.slots[index].take().unwrap();
        self.free.push(index);
        assert forall|i: int|
            0 <= i < self.slots.len() && (#[trigger] self.slots[i]) is None implies exists|k: int|
            0 <= k < self.free.len() && self.free[k] == i by {
            if i == index {
                assert(self.free[self.free.len() - 1] == i);
            } else {
                let k = choose|k: int| 0 <= k < old(self).free.len() && old(self).free[k] == i;
                assert(self.free[k] == i);
            }
        }
        value
    }

    /// What slot `index` holds.
    pub fn get(&self, index: usize) -> (value: &V)
        requires
            self@.dom().contains(index),
        ensures
            *value == self@[index],
    {
        self.slots[index].as_ref().unwrap()
    }

    /// A mutable borrow of what slot `index` holds, if it holds anything; the
    /// arena ends up with whatever the borrower leaves there.
    pub fn get_mut(&mut self, index: usize) -> (value: Option<&mut V>)
        requires
            old(self).well_formed(),
        ensures
            final(self).well_formed(),
            (match value {
                Some(value) => old(self)@.dom().contains(index) && *value == old(self)@[index]
                    && final(self)@ == old(self)@.insert(index, *final(value)),
                None => !old(self)@.dom().contains(index) && final(self)@ == old(self)@,
            }),
        no_unwind
    {
        if index < self.slots.len() {
            match &mut self.slots[index] {
                Some(value) => Some(value),
                None => None,
            }
        } else {
            None
        }
    }
}

/// `order` lists the slots of `occupied`, each of them once.
pub open spec fn lists_each_once(order: Seq<usize>, occupied: Set<usize>) -> bool {
    &&& order.no_duplicates()
    &&& forall|i: usize| occupied.contains(i) <==> order.contains(i)
}

/// A list stays one when a slot that it did not name is put behind it.
pub proof fn lemma_listed_behind(order: Seq<usize>, occupied: Set<usize>, index: usize)
    requires
        lists_each_once(order, occupied),
        !occupied.contains(index),
    ensures
        lists_each_once(order.push(index), occupied.insert(index)),
{
    let longer = order.push(index);
    assert forall|i: usize| occupied.insert(index).contains(i) implies longer.contains(i) by {
        if i == index {
            assert(longer[order.len() as int] == i);
        } else {
            let k = choose|k: int| 0 <= k < order.len() && order[k] == i;
            assert(longer[k] == i);
        }
    }
}

/// A list stays one when a slot that it did not name is put before it.
pub proof fn lemma_listed_before(order: Seq<usize>, occupied: Set<usize>, index: usize)
    requires
        lists_each_once(order, occupied),
        !occupied.contains(index),
    ensures
        lists_each_once(seq![index] + order, occupied.insert(index)),
{
    let longer = seq![index] + order;
    assert forall|i: usize| occupied.insert(index).contains(i) implies longer.contains(i) by {
        if i == index {
            assert(longer[0] == i);
        } else {
            let k = choose|k: int| 0 <= k < order.len() && order[k] == i;
            assert(longer[k + 1] == i);
        }
    }
}

/// A list stays one when its first slot is emptied and leaves it.
pub proof fn lemma_listed_without_first(order: Seq<usize>, occupied: Set<usize>)
    requires
        lists_each_once(order, occupied),
        order.len() > 0,
    ensures
        lists_each_once(order.drop_first(), occupied.remove(order[0])),
{
    let shorter = order.drop_first();
    assert forall|i: usize| occupied.remove(order[0]).contains(i) implies shorter.contains(i) by {
        let k = choose|k: int| 0 <= k < order.len() && order[k] == i;
        assert(shorter[k - 1] == i);
    }
}

/// A list stays one when its last slot is emptied and leaves it.
pub proof fn lemma_listed_without_last(order: Seq<usize>, occupied: Set<usize>)
    requires
        lists_each_once(order, occupied),
        order.len() > 0,
    ensures
        lists_each_once(order.drop_last(), occupied.remove(order.last())),
{
    let shorter = order.drop_last();
    assert forall|i: usize| occupied.remove(order.last()).contains(i) implies shorter.contains(
        i,
    ) by {
        let k = choose|k: int| 0 <= k < order.len() && order[k] == i;
        assert(shorter[k] == i);
    }
}

} // verus!
