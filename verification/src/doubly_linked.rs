//! A doubly linked list that can be grown, shrunk and read at both ends.
//!
//! Nodes live in an [`Arena`] and are linked by slot index in both
//! directions. Only the arena owns a node: `next` and `prev` are plain
//! indices used to find a neighbour, so the two directions never own each
//! other and a node is released exactly once, when it leaves the list or when
//! the arena goes.

use crate::arena::lemma_listed_before;
use crate::arena::lemma_listed_behind;
use crate::arena::lemma_listed_without_first;
use crate::arena::lemma_listed_without_last;
use crate::arena::lists_each_once;
use crate::arena::Arena;
use vstd::prelude::*;
use vstd::std_specs::convert::FromSpecImpl;
use vstd::std_specs::iter::DoubleEndedIteratorSpecImpl;
use vstd::std_specs::iter::IteratorSpecImpl;

verus! {

struct Node<T> {
    data: T,
    next: Option<usize>,
    prev: Option<usize>,
}

impl<T> Node<T> {
    /// A node that is linked to nothing yet.
    fn new(data: T) -> (node: Self)
        ensures
            node.data == data,
            node.next is None,
            node.prev is None,
    {
        Node { data, next: None, prev: None }
    }
}

/// The linked nodes of a list.
struct Chain<T> {
    arena: Arena<Node<T>>,
    head: Option<usize>,
    tail: Option<usize>,
    /// The slot indices of the nodes, front to back.
    order: Ghost<Seq<usize>>,
}

impl<T> Chain<T> {
    /// The arena holds the nodes of `order` and no others; for two
    /// neighbours `a`, `b` in `order`, `a.next` names `b` and `b.prev` names
    /// `a`; the first node has no `prev`, the last no `next`; `head` and
    /// `tail` name the two ends, or nothing when there is no node.
    spec fn well_formed(&self) -> bool {
        let order = self.order@;
        &&& self.arena.well_formed()
        &&& lists_each_once(order, self.arena@.dom())
        &&& forall|k: int|
            0 <= k < order.len() ==> self.arena@[#[trigger] order[k]].next == if k + 1
                < order.len() {
                Some(order[k + 1])
            } else {
                None
            }
        &&& forall|k: int|
            0 <= k < order.len() ==> self.arena@[#[trigger] order[k]].prev == if 0 < k {
                Some(order[k - 1])
            } else {
                None
            }
        &&& self.head == if order.len() > 0 {
            Some(order[0])
        } else {
            None
        }
        &&& self.tail == if order.len() > 0 {
            Some(order[order.len() - 1])
        } else {
            None
        }
    }

    spec fn elements(&self) -> Seq<T> {
        Seq::new(self.order@.len(), |k: int| self.arena@[self.order@[k]].data)
    }

    fn new() -> (chain: Self)
        ensures
            chain.well_formed(),
            chain.elements() == Seq::<T>::empty(),
    {
        Chain { arena: Arena::new(), head: None, tail: None, order: Ghost(Seq::empty()) }
    }

    fn push_front(&mut self, data: T)
        requires
            old(self).well_formed(),
        ensures
            final(self).well_formed(),
            final(self).elements() == seq![data] + old(self).elements(),
    {
        let ghost before = self.order@;
        let ghost occupied = self.arena@.dom();
        let mut node = Node::new(data);
        node.next = self.head;
        let index = self.arena.insert(node);
        proof {
            lemma_listed_before(before, occupied, index);
        }
        match self.head {
            Some(first) => {
                if let Some(neighbour) = self.arena.get_mut(first) {
                    neighbour.prev = Some(index);
                }
            },
            None => {
                self.tail = Some(index);
            },
        }
        self.head = Some(index);
        proof {
            self.order@ = seq![index] + before;
        }
    }

    fn push_back(&mut self, data: T)
        requires
            old(self).well_formed(),
        ensures
            final(self).well_formed(),
            final(self).elements() == old(self).elements().push(data),
    {
        let ghost before = self.order@;
        let ghost occupied = self.arena@.dom();
        let mut node = Node::new(data);
        node.prev = self.tail;
        let index = self.arena.insert(node);
        proof {
            lemma_listed_behind(before, occupied, index);
        }
        match self.tail {
            Some(last) => {
                if let Some(neighbour) = self.arena.get_mut(last) {
                    neighbour.next = Some(index);
                }
            },
            None => {
                self.head = Some(index);
            },
        }
        self.tail = Some(index);
        proof {
            self.order@ = before.push(index);
        }
    }

    fn pop_front(&mut self) -> (item: Option<T>)
        requires
            old(self).well_formed(),
        ensures
            final(self).well_formed(),
            (match item {
                None => old(self).elements().len() == 0
                    && final(self).elements() == old(self).elements(),
                Some(data) => old(self).elements().len() > 0 && data == old(self).elements()[0]
                    && final(self).elements() == old(self).elements().drop_first(),
            }),
    {
        match self.head {
            None => None,
            Some(first) => {
                let ghost before = self.order@;
                let ghost occupied = self.arena@.dom();
                proof {
                    lemma_listed_without_first(before, occupied);
                }
                let node = self.arena.remove(first);
                match node.next {
                    Some(second) => {
                        if let Some(neighbour) = self.arena.get_mut(second) {
                            neighbour.prev = None;
                        }
                        self.head = Some(second);
                    },
                    None => {
                        self.head = None;
                        self.tail = None;
                    },
                }
                proof {
                    self.order@ = before.drop_first();
                }
                Some(node.data)
            },
        }
    }

    fn pop_back(&mut self) -> (item: Option<T>)
        requires
            old(self).well_formed(),
        ensures
            final(self).well_formed(),
            (match item {
                None => old(self).elements().len() == 0
                    && final(self).elements() == old(self).elements(),
                Some(data) => old(self).elements().len() > 0 && data == old(self).elements().last()
                    && final(self).elements() == old(self).elements().drop_last(),
            }),
    {
        match self.tail {
            None => None,
            Some(last) => {
                let ghost before = self.order@;
                let ghost occupied = self.arena@.dom();
                proof {
                    lemma_listed_without_last(before, occupied);
                }
                let node = self.arena.remove(last);
                match node.prev {
                    Some(second) => {
                        if let Some(neighbour) = self.arena.get_mut(second) {
                            neighbour.next = None;
                        }
                        self.tail = Some(second);
                    },
                    None => {
                        self.head = None;
                        self.tail = None;
                    },
                }
                proof {
                    self.order@ = before.drop_last();
                }
                Some(node.data)
            },
        }
    }

    fn peek_front(&self) -> (item: Option<&T>)
        requires
            self.well_formed(),
        ensures
            (match item {
                None => self.elements().len() == 0,
                Some(data) => self.elements().len() > 0 && *data == self.elements()[0],
            }),
    {
        match self.head {
            None => None,
            Some(first) => Some(&self.arena.get(first).data),
        }
    }

    fn peek_back(&self) -> (item: Option<&T>)
        requires
            self.well_formed(),
        ensures
            (match item {
                None => self.elements().len() == 0,
                Some(data) => self.elements().len() > 0 && *data == self.elements().last(),
            }),
    {
        match self.tail {
            None => None,
            Some(last) => Some(&self.arena.get(last).data),
        }
    }
}

/// A doubly linked list. Its view is the sequence of its elements, front to
/// back.
pub struct DoubleLinkList<T> {
    chain: Chain<T>,
}

impl<T> View for DoubleLinkList<T> {
    type V = Seq<T>;

    closed spec fn view(&self) -> Seq<T> {
        self.chain.elements()
    }
}

impl<T> DoubleLinkList<T> {
    #[verifier::type_invariant]
    spec fn well_formed(&self) -> bool {
        self.chain.well_formed()
    }
}

impl<T> Default for DoubleLinkList<T> {
    /// The empty list.
    fn default() -> (list: Self)
        ensures
            list@ == Seq::<T>::empty(),
    {
        DoubleLinkList { chain: Chain::new() }
    }
}

impl<T> DoubleLinkList<T> where T: Clone {
    /// Puts `data` in front of the first element.
    pub fn push_front(&mut self, data: T)
        ensures
            final(self)@ == seq![data] + old(self)@,
    {
        proof {
            use_type_invariant(&*self);
        }
        let mut chain = Chain::new();
        std::mem::swap(&mut chain, &mut self.chain);
        chain.push_front(data);
        self.chain = chain;
    }

    /// Puts `data` behind the last element.
    pub fn push_back(&mut self, data: T)
        ensures
            final(self)@ == old(self)@.push(data),
    {
        proof {
            use_type_invariant(&*self);
        }
        let mut chain = Chain::new();
        std::mem::swap(&mut chain, &mut self.chain);
        chain.push_back(data);
        self.chain = chain;
    }

    /// The first element, or `None` when the list is empty.
    pub fn peek_front(&self) -> (item: Option<&T>)
        ensures
            (match item {
                None => self@.len() == 0,
                Some(data) => self@.len() > 0 && *data == self@[0],
            }),
    {
        proof {
            use_type_invariant(self);
        }
        self.chain.peek_front()
    }

    /// The last element, or `None` when the list is empty.
    pub fn peek_back(&self) -> (item: Option<&T>)
        ensures
            (match item {
                None => self@.len() == 0,
                Some(data) => self@.len() > 0 && *data == self@.last(),
            }),
    {
        proof {
            use_type_invariant(self);
        }
        self.chain.peek_back()
    }

    /// Removes the first element and returns it, or returns `None` and
    /// changes nothing when the list is empty.
    pub fn pop_front(&mut self) -> (item: Option<T>)
        ensures
            (match item {
                None => old(self)@.len() == 0 && final(self)@ == old(self)@,
                Some(data) => old(self)@.len() > 0 && data == old(self)@[0]
                    && final(self)@ == old(self)@.drop_first(),
            }),
    {
        proof {
            use_type_invariant(&*self);
        }
        let mut chain = Chain::new();
        std::mem::swap(&mut chain, &mut self.chain);
        let item = chain.pop_front();
        self.chain = chain;
        item
    }

    /// Removes the last element and returns it, or returns `None` and
    /// changes nothing when the list is empty.
    pub fn pop_back(&mut self) -> (item: Option<T>)
        ensures
            (match item {
                None => old(self)@.len() == 0 && final(self)@ == old(self)@,
                Some(data) => old(self)@.len() > 0 && data == old(self)@.last()
                    && final(self)@ == old(self)@.drop_last(),
            }),
    {
        proof {
            use_type_invariant(&*self);
        }
        let mut chain = Chain::new();
        std::mem::swap(&mut chain, &mut self.chain);
        let item = chain.pop_back();
        self.chain = chain;
        item
    }
}

impl<T> From<&[T]> for DoubleLinkList<T> where T: Clone {
    /// A list to whose front a clone of each element of `value` was pushed
    /// in turn, so that the last of them is the first of the list.
    fn from(value: &[T]) -> (list: Self)
        ensures
            list@.len() == value@.len(),
            forall|i: int|
                0 <= i < value@.len() ==> cloned(value@[i], #[trigger] list@[value@.len() - 1 - i]),
    {
        let mut list = Self::default();
        let mut i: usize = 0;
        while i < value.len()
            invariant
                i <= value.len(),
                list@.len() == i,
                forall|j: int| 0 <= j < i ==> cloned(value@[j], #[trigger] list@[i - 1 - j]),
            decreases value.len() - i,
        {
            let ghost before = list@;
            let data = value[i].clone();
            list.push_front(data);
            assert forall|j: int| 0 <= j < i + 1 implies cloned(
                value@[j],
                #[trigger] list@[i + 1 - 1 - j],
            ) by {
                if j < i {
                    assert(list@[i - j] == before[i - 1 - j]);
                }
            }
            i += 1;
        }
        list
    }
}

impl<T> FromSpecImpl<&[T]> for DoubleLinkList<T> where T: Clone {
    /// What `clone` returns is not a function of its argument, so the
    /// conversion is stated on the view, element by element.
    open spec fn obeys_from_spec() -> bool {
        false
    }

    open spec fn from_spec(value: &[T]) -> Self {
        arbitrary()
    }
}

/// Draining the list from the front: each step pops the first element.
impl<T> Iterator for DoubleLinkList<T> where T: Clone {
    type Item = T;

    fn next(&mut self) -> (item: Option<T>)
        ensures
            (match item {
                None => old(self)@.len() == 0 && final(self)@ == old(self)@,
                Some(data) => old(self)@.len() > 0 && data == old(self)@[0]
                    && final(self)@ == old(self)@.drop_first(),
            }),
    {
        self.pop_front()
    }
}

impl<T> IteratorSpecImpl for DoubleLinkList<T> where T: Clone {
    open spec fn obeys_prophetic_iter_laws(&self) -> bool {
        true
    }

    open spec fn remaining(&self) -> Seq<T> {
        self@
    }

    open spec fn will_return_none(&self) -> bool {
        true
    }

    open spec fn decrease(&self) -> Option<nat> {
        Some(self@.len())
    }

    open spec fn initial_value_relation(&self, init: &Self) -> bool {
        init@ == self@
    }

    open spec fn peek(&self, index: int) -> Option<T> {
        if 0 <= index < self@.len() {
            Some(self@[index])
        } else {
            None
        }
    }
}

/// Draining the list from the back: each step pops the last element.
impl<T> DoubleEndedIterator for DoubleLinkList<T> where T: Clone {
    fn next_back(&mut self) -> (item: Option<T>)
        ensures
            (match item {
                None => old(self)@.len() == 0 && final(self)@ == old(self)@,
                Some(data) => old(self)@.len() > 0 && data == old(self)@.last()
                    && final(self)@ == old(self)@.drop_last(),
            }),
    {
        self.pop_back()
    }
}

impl<T> DoubleEndedIteratorSpecImpl for DoubleLinkList<T> where T: Clone {
    open spec fn peek_back(&self, index: int) -> Option<T> {
        if 0 <= index < self@.len() {
            Some(self@[self@.len() - 1 - index])
        } else {
            None
        }
    }
}

/// The elements that `next` and `next_back`, called in turn, return until
/// the list is empty, in the order in which they are returned. With `front`
/// the first call is `next`, else `next_back`.
pub open spec fn alternate_order<T>(list: Seq<T>, front: bool) -> Seq<T>
    decreases list.len(),
{
    if list.len() == 0 {
        Seq::empty()
    } else if front {
        seq![list[0]] + alternate_order(list.drop_first(), false)
    } else {
        seq![list.last()] + alternate_order(list.drop_last(), true)
    }
}

/// Taking from the two ends in turn drains every element exactly once: what
/// comes out has the length of the list, and each value comes out as often
/// as the list holds it.
pub proof fn lemma_alternate_order_is_a_permutation<T>(list: Seq<T>, front: bool)
    ensures
        alternate_order(list, front).len() == list.len(),
        alternate_order(list, front).to_multiset() == list.to_multiset(),
    decreases list.len(),
{
    broadcast use vstd::seq_lib::group_to_multiset_ensures;

    if list.len() > 0 {
        let out = alternate_order(list, front);
        if front {
            let rest = alternate_order(list.drop_first(), false);
            lemma_alternate_order_is_a_permutation(list.drop_first(), false);
            assert(out.remove(0) =~= rest);
            assert(list.remove(0) =~= list.drop_first());
            assert(list.to_multiset() =~= rest.to_multiset().insert(list[0]));
        } else {
            let rest = alternate_order(list.drop_last(), true);
            lemma_alternate_order_is_a_permutation(list.drop_last(), true);
            assert(out.remove(0) =~= rest);
            assert(list.remove(list.len() - 1) =~= list.drop_last());
            assert(list.to_multiset() =~= rest.to_multiset().insert(list.last()));
        }
    }
}

} // verus!
