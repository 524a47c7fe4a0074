//! A first-in first-out queue of singly linked nodes.
//!
//! The queue owns every node it allocates. Nodes live in an [`Arena`] and are
//! linked by slot index: `head` names the oldest node, `tail` the newest, and
//! each node names the one that was pushed after it. A `push` links a new
//! node behind `tail` without walking the chain; a `pop` unlinks `head` and
//! gives its slot back in the same step, so no link ever names a slot that
//! was released.

use crate::arena::lemma_listed_behind;
use crate::arena::lemma_listed_without_first;
use crate::arena::lists_each_once;
use crate::arena::Arena;
use vstd::prelude::*;
use vstd::std_specs::convert::FromSpecImpl;
use vstd::std_specs::iter::IteratorSpecImpl;

verus! {

struct Node<T> {
    data: T,
    next: Option<usize>,
}

/// The linked nodes of a queue.
struct Chain<T> {
    arena: Arena<Node<T>>,
    head: Option<usize>,
    tail: Option<usize>,
    /// The slot indices of the nodes, oldest first.
    order: Ghost<Seq<usize>>,
}

impl<T> Chain<T> {
    /// The arena holds the nodes of `order` and no others, every node but the
    /// last links to its successor, the last links to nothing, and `head` and
    /// `tail` name the two ends, or nothing when there is no node.
    spec fn well_formed(&self) -> bool {
        let order = self.order@;
        &&& self.arena.well_formed()
        &&& lists_each_once(order, self.arena@.dom())
        &&& forall|k: int|
            0 <= k < order.len() ==> self.arena@[#[trigger] order[k]].next == if k + 1
                < order.len() {
                Some(order[k + 1])
            } else {
                None
            }
        &&& self.head == if order.len() > 0 {
            Some(order[0])
        } else {
            None
        }
        &&& self.tail == if order.len() > 0 {
            Some(order[order.len() - 1])
        } else {
            None
        }
    }

    spec fn elements(&self) -> Seq<T> {
        Seq::new(self.order@.len(), |k: int| self.arena@[self.order@[k]].data)
    }

    fn new() -> (chain: Self)
        ensures
            chain.well_formed(),
            chain.elements() == Seq::<T>::empty(),
    {
        Chain { arena: Arena::new(), head: None, tail: None, order: Ghost(Seq::empty()) }
    }

    fn push(&mut self, data: T)
        requires
            old(self).well_formed(),
        ensures
            final(self).well_formed(),
            final(self).elements() == old(self).elements().push(data),
    {
        let ghost before = self.order@;
        let ghost occupied = self.arena@.dom();
        let index = self.arena.insert(Node { data, next: None });
        proof {
            lemma_listed_behind(before, occupied, index);
        }
        match self.tail {
            Some(last) => {
                if let Some(node) = self.arena.get_mut(last) {
                    node.next = Some(index);
                }
            },
            None => {
                self.head = Some(index);
            },
        }
        self.tail = Some(index);
        proof {
            self.order@ = before.push(index);
        }
    }

    fn pop(&mut self) -> (item: Option<T>)
        requires
            old(self).well_formed(),
        ensures
            final(self).well_formed(),
            (match item {
                None => old(self).elements().len() == 0
                    && final(self).elements() == old(self).elements(),
                Some(data) => old(self).elements().len() > 0 && data == old(self).elements()[0]
                    && final(self).elements() == old(self).elements().drop_first(),
            }),
    {
        match self.head {
            None => None,
            Some(first) => {
                let ghost before = self.order@;
                proof {
                    lemma_listed_without_first(before, self.arena@.dom());
                }
                let node = self.arena.remove(first);
                self.head = node.next;
                if self.head.is_none() {
                    self.tail = None;
                }
                proof {
                    self.order@ = before.drop_first();
                }
                Some(node.data)
            },
        }
    }

    /// A mutable borrow of the element at position `at`, which node `index`
    /// holds. Only the element can change through it; the links stay.
    fn data_mut(&mut self, index: usize, Ghost(at): Ghost<int>) -> (data: Option<&mut T>)
        requires
            old(self).well_formed(),
            0 <= at < old(self).order@.len(),
            old(self).order@[at] == index,
        ensures
            final(self).well_formed(),
            final(self).order@ == old(self).order@,
            data is Some,
            *data.unwrap() == old(self).elements()[at],
            final(self).elements() == old(self).elements().update(at, *final(data.unwrap())),
        no_unwind
    {
        match self.arena.get_mut(index) {
            Some(node) => Some(&mut node.data),
            None => None,
        }
    }
}

/// A first-in first-out queue. Its view is the sequence of its elements,
/// oldest first.
pub struct Queue<T> {
    chain: Chain<T>,
}

impl<T> View for Queue<T> {
    type V = Seq<T>;

    closed spec fn view(&self) -> Seq<T> {
        self.chain.elements()
    }
}

impl<T> Queue<T> {
    #[verifier::type_invariant]
    spec fn well_formed(&self) -> bool {
        self.chain.well_formed()
    }

    /// Appends `data` behind the newest element.
    pub fn push(&mut self, data: T)
        ensures
            final(self)@ == old(self)@.push(data),
    {
        proof {
            use_type_invariant(&*self);
        }
        let mut chain = Chain::new();
        std::mem::swap(&mut chain, &mut self.chain);
        chain.push(data);
        self.chain = chain;
    }

    /// Removes the oldest element and returns it, or returns `None` and
    /// changes nothing when the queue is empty.
    pub fn pop(&mut self) -> (item: Option<T>)
        ensures
            (match item {
                None => old(self)@.len() == 0 && final(self)@ == old(self)@,
                Some(data) => old(self)@.len() > 0 && data == old(self)@[0]
                    && final(self)@ == old(self)@.drop_first(),
            }),
    {
        proof {
            use_type_invariant(&*self);
        }
        let mut chain = Chain::new();
        std::mem::swap(&mut chain, &mut self.chain);
        let item = chain.pop();
        self.chain = chain;
        item
    }

    /// An iterator that yields a copy of each element, oldest first.
    pub fn iter(&self) -> (iter: QueueIter<'_, T>)
        ensures
            iter@ == self@,
    {
        proof {
            use_type_invariant(self);
        }
        QueueIter { queue: self, current: self.chain.head, position: Ghost(0) }
    }

    /// A traversal that lends each element mutably, oldest first. Whatever
    /// it leaves in the elements is what the queue holds afterwards.
    pub fn iter_mut(&mut self) -> (iter: QueueIterMut<'_, T>)
        ensures
            iter.position() == 0,
            iter.elements() == old(self)@,
            final(iter.target())@ == final(self)@,
    {
        proof {
            use_type_invariant(&*self);
        }
        let head = self.chain.head;
        QueueIterMut { queue: self, cursor: (head, Ghost(0)) }
    }
}

impl<T> Default for Queue<T> {
    /// The empty queue.
    fn default() -> (queue: Self)
        ensures
            queue@ == Seq::<T>::empty(),
    {
        Queue { chain: Chain::new() }
    }
}

impl<T: Copy> From<&[T]> for Queue<T> {
    /// A queue of the elements of `value`, the first of them the oldest.
    fn from(value: &[T]) -> (queue: Self)
        ensures
            queue@ == value@,
    {
        let mut queue = Self::default();
        let mut i: usize = 0;
        while i < value.len()
            invariant
                i <= value.len(),
                queue@ == value@.take(i as int),
            decreases value.len() - i,
        {
            queue.push(value[i]);
            i += 1;
        }
        queue
    }
}

impl<T: Copy> FromSpecImpl<&[T]> for Queue<T> {
    /// The conversion fixes the elements of the queue, not the slots that
    /// hold them, so it is stated on the view alone.
    open spec fn obeys_from_spec() -> bool {
        false
    }

    open spec fn from_spec(value: &[T]) -> Self {
        arbitrary()
    }
}

/// Draining the queue: each step pops the oldest element.
impl<T> Iterator for Queue<T> {
    type Item = T;

    fn next(&mut self) -> (item: Option<T>)
        ensures
            (match item {
                None => old(self)@.len() == 0 && final(self)@ == old(self)@,
                Some(data) => old(self)@.len() > 0 && data == old(self)@[0]
                    && final(self)@ == old(self)@.drop_first(),
            }),
    {
        self.pop()
    }
}

impl<T> IteratorSpecImpl for Queue<T> {
    open spec fn obeys_prophetic_iter_laws(&self) -> bool {
        true
    }

    open spec fn remaining(&self) -> Seq<T> {
        self@
    }

    open spec fn will_return_none(&self) -> bool {
        true
    }

    open spec fn decrease(&self) -> Option<nat> {
        Some(self@.len())
    }

    open spec fn initial_value_relation(&self, init: &Self) -> bool {
        init@ == self@
    }

    open spec fn peek(&self, index: int) -> Option<T> {
        if 0 <= index < self@.len() {
            Some(self@[index])
        } else {
            None
        }
    }
}

/// A read-only traversal of a queue. Its view is the sequence of the
/// elements it has not yielded yet.
pub struct QueueIter<'a, T> {
    queue: &'a Queue<T>,
    current: Option<usize>,
    position: Ghost<nat>,
}

impl<'a, T> View for QueueIter<'a, T> {
    type V = Seq<T>;

    closed spec fn view(&self) -> Seq<T> {
        self.queue@.skip(self.position@ as int)
    }
}

impl<'a, T> QueueIter<'a, T> {
    /// `current` names the node at `position`, or nothing past the end.
    #[verifier::type_invariant]
    spec fn well_formed(&self) -> bool {
        let order = self.queue.chain.order@;
        &&& self.queue.chain.well_formed()
        &&& self.position@ <= order.len()
        &&& self.current == if self.position@ < order.len() {
            Some(order[self.position@ as int])
        } else {
            None
        }
    }
}

impl<'a, T: Copy> Iterator for QueueIter<'a, T> {
    type Item = T;

    fn next(&mut self) -> (item: Option<T>)
        ensures
            (match item {
                None => old(self)@.len() == 0 && final(self)@ == old(self)@,
                Some(data) => old(self)@.len() > 0 && data == old(self)@[0]
                    && final(self)@ == old(self)@.drop_first(),
            }),
    {
        proof {
            use_type_invariant(&*self);
        }
        match self.current {
            None => None,
            Some(index) => {
                let ghost at = self.position@;
                let node = self.queue.chain.arena.get(index);
                *self = QueueIter {
                    queue: self.queue,
                    current: node.next,
                    position: Ghost((at + 1) as nat),
                };
                Some(node.data)
            },
        }
    }
}

impl<'a, T: Copy> IteratorSpecImpl for QueueIter<'a, T> {
    open spec fn obeys_prophetic_iter_laws(&self) -> bool {
        true
    }

    open spec fn remaining(&self) -> Seq<T> {
        self@
    }

    open spec fn will_return_none(&self) -> bool {
        true
    }

    open spec fn decrease(&self) -> Option<nat> {
        Some(self@.len())
    }

    open spec fn initial_value_relation(&self, init: &Self) -> bool {
        init@ == self@
    }

    open spec fn peek(&self, index: int) -> Option<T> {
        if 0 <= index < self@.len() {
            Some(self@[index])
        } else {
            None
        }
    }
}

/// A traversal of a queue that lends each element mutably, oldest first.
///
/// The traversal holds the queue for as long as it lives. An element is lent
/// for the time between two calls of `next`, so this type is no
/// `std::iter::Iterator`: walk it with `while let Some(x) = iter.next()`.
pub struct QueueIterMut<'a, T> {
    queue: &'a mut Queue<T>,
    /// The node to lend next, and how many elements were lent before it.
    cursor: (Option<usize>, Ghost<nat>),
}

impl<'a, T> QueueIterMut<'a, T> {
    #[verifier::type_invariant]
    spec fn well_formed(&self) -> bool {
        let order = self.queue.chain.order@;
        &&& self.queue.chain.well_formed()
        &&& self.cursor.1@ <= order.len()
        &&& self.cursor.0 == if self.cursor.1@ < order.len() {
            Some(order[self.cursor.1@ as int])
        } else {
            None
        }
    }

    /// The borrow of the queue that this traversal holds. `final(..)` of it
    /// is the queue as the traversal will leave it.
    pub closed spec fn target(&self) -> &'a mut Queue<T> {
        self.queue
    }

    /// All elements of the queue as they stand now, oldest first.
    pub closed spec fn elements(&self) -> Seq<T> {
        self.queue@
    }

    /// The number of elements lent so far.
    pub closed spec fn position(&self) -> nat {
        self.cursor.1@
    }

    /// The elements not lent yet.
    pub open spec fn remaining(&self) -> Seq<T> {
        self.elements().skip(self.position() as int)
    }

    /// Lends the next element, or returns `None` past the newest one. What
    /// the borrower leaves in the element is what the queue holds at that
    /// position.
    pub fn next(&mut self) -> (item: Option<&mut T>)
        ensures
            final(final(self).target())@ == final(old(self).target())@,
            final(self).position() <= final(self).elements().len(),
            (match item {
                None => {
                    &&& old(self).position() == old(self).elements().len()
                    &&& final(self).position() == old(self).position()
                    &&& final(self).elements() == old(self).elements()
                },
                Some(data) => {
                    &&& old(self).position() < old(self).elements().len()
                    &&& *data == old(self).elements()[old(self).position() as int]
                    &&& final(self).position() == old(self).position() + 1
                    &&& final(self).elements() == old(self).elements().update(
                        old(self).position() as int,
                        *final(data),
                    )
                },
            }),
    {
        proof {
            use_type_invariant(&*self);
        }
        match self.cursor.0 {
            None => None,
            Some(index) => {
                let ghost at = self.cursor.1@;
                let next = self.queue.chain.arena.get(index).next;
                self.cursor = (next, Ghost((at + 1) as nat));
                self.queue.chain.data_mut(index, Ghost(at as int))
            },
        }
    }

    /// Once the traversal is over and done with, the queue holds the
    /// elements as the traversal last saw them.
    pub proof fn lemma_released(self)
        requires
            has_resolved(self),
        ensures
            final(self.target())@ == self.elements(),
    {
    }
}

/// The queue that results when the elements of `input` are pushed in turn
/// onto `queue`.
pub open spec fn after_pushes<T>(queue: Seq<T>, input: Seq<T>) -> Seq<T>
    decreases input.len(),
{
    if input.len() == 0 {
        queue
    } else {
        after_pushes(queue.push(input[0]), input.drop_first())
    }
}

/// The elements that successive pops return, in the order in which they are
/// returned, until the queue is empty.
pub open spec fn pop_order<T>(queue: Seq<T>) -> Seq<T>
    decreases queue.len(),
{
    if queue.len() == 0 {
        Seq::empty()
    } else {
        seq![queue[0]] + pop_order(queue.drop_first())
    }
}

/// Pushing the elements of `input` in turn puts them, in their order, behind
/// what the queue held.
pub proof fn lemma_after_pushes<T>(queue: Seq<T>, input: Seq<T>)
    ensures
        after_pushes(queue, input) == queue + input,
    decreases input.len(),
{
    if input.len() > 0 {
        lemma_after_pushes(queue.push(input[0]), input.drop_first());
    }
}

/// Popping until the queue is empty returns its elements oldest first.
pub proof fn lemma_pop_order<T>(queue: Seq<T>)
    ensures
        pop_order(queue) == queue,
    decreases queue.len(),
{
    if queue.len() > 0 {
        lemma_pop_order(queue.drop_first());
    }
}

/// First in, first out: a queue that starts empty, has the elements of
/// `input` pushed in turn and is then popped until it is empty returns them
/// in exactly the order in which they were pushed.
pub proof fn lemma_push_then_drain_keeps_order<T>(input: Seq<T>)
    ensures
        pop_order(after_pushes(Seq::empty(), input)) == input,
{
    lemma_after_pushes(Seq::empty(), input);
    lemma_pop_order(after_pushes(Seq::empty(), input));
}

} // verus!
