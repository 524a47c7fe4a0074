//! A singly linked stack with exclusive ownership that can also be read,
//! changed in place and walked.
//!
//! Each node is owned by the link before it, and the first by the list, so
//! the chain has one owner all the way down and no node is reached twice.

use crate::elementwise::pairwise_eq;
use vstd::prelude::*;
use vstd::std_specs::cmp::PartialEqSpec;
use vstd::std_specs::cmp::PartialEqSpecImpl;
use vstd::std_specs::convert::FromSpecImpl;
use vstd::std_specs::iter::IteratorSpecImpl;

verus! {

/// A link to the rest of a list: the owner of its first node, or nothing at
/// the end.
pub type Link<T> = Option<Box<Node<T>>>;

/// A node: an element and the link to the nodes below it.
#[derive(Debug)]
pub struct Node<T> {
    pub data: T,
    pub next: Link<T>,
}

/// The elements that `link` reaches, first to last.
pub open spec fn elements<T>(link: Link<T>) -> Seq<T>
    decreases link,
{
    match link {
        None => Seq::empty(),
        Some(node) => seq![node.data] + elements(node.next),
    }
}

/// The element of `node` followed by those that its link reaches.
pub open spec fn elements_from<T>(node: Node<T>) -> Seq<T> {
    seq![node.data] + elements(node.next)
}

/// A stack. Its view is the sequence of its elements, the top first.
#[derive(Debug)]
pub struct List<T> {
    pub head: Link<T>,
}

impl<T> View for List<T> {
    type V = Seq<T>;

    open spec fn view(&self) -> Seq<T> {
        elements(self.head)
    }
}

impl<T> List<T> {
    /// Puts `data` on top.
    pub fn push(&mut self, data: T)
        ensures
            final(self)@ == seq![data] + old(self)@,
    {
        let mut rest: Link<T> = None;
        std::mem::swap(&mut rest, &mut self.head);
        self.head = Some(Box::new(Node { data, next: rest }));
    }

    /// Removes the top node and says whether there was one.
    pub fn pop_node(&mut self) -> (removed: bool)
        ensures
            removed == (old(self)@.len() > 0),
            final(self)@ == (if removed {
                old(self)@.drop_first()
            } else {
                old(self)@
            }),
    {
        let mut top: Link<T> = None;
        std::mem::swap(&mut top, &mut self.head);
        match top {
            None => false,
            Some(node) => {
                self.head = node.next;
                true
            },
        }
    }

    /// The top element, or `None` when the stack is empty.
    pub fn peek(&self) -> (top: Option<&T>)
        ensures
            (match top {
                None => self@.len() == 0,
                Some(data) => self@.len() > 0 && *data == self@[0],
            }),
    {
        match &self.head {
            None => None,
            Some(node) => Some(&node.data),
        }
    }

    /// A mutable borrow of the top element, or `None` when the stack is
    /// empty. What the borrower leaves there is the new top; the rest stays.
    pub fn peek_mut(&mut self) -> (top: Option<&mut T>)
        ensures
            (match top {
                None => old(self)@.len() == 0 && final(self)@ == old(self)@,
                Some(data) => old(self)@.len() > 0 && *data == old(self)@[0]
                    && final(self)@ == old(self)@.update(0, *final(data)),
            }),
    {
        match &mut self.head {
            None => None,
            Some(node) => Some(&mut node.data),
        }
    }

    /// An iterator that yields a copy of each element, the top first. It
    /// borrows the stack, so it can be asked for again and again.
    pub fn iter(&self) -> (iter: ListIter<'_, T>)
        ensures
            iter@ == self@,
    {
        match &self.head {
            None => ListIter { current: None },
            Some(node) => ListIter { current: Some(&**node) },
        }
    }

    /// An iterator that yields a mutable borrow of each element, the top
    /// first. The stack ends up with what the node under the cursor ends up
    /// reaching.
    pub fn iter_mut(&mut self) -> (iter: ListIterMut<'_, T>)
        ensures
            iter@ == old(self)@,
            final(self)@ == (match iter.cursor() {
                None => Seq::<T>::empty(),
                Some(node) => elements_from(*final(node)),
            }),
    {
        match &mut self.head {
            None => ListIterMut { current: None },
            Some(node) => ListIterMut { current: Some(&mut **node) },
        }
    }
}

/// Takes the nodes off the chain one after the other from the top, in a
/// loop, and leaves the stack empty, so that a long chain does not nest one
/// release inside the other.
impl<T> Drop for List<T> {
    fn drop(&mut self)
        ensures
            final(self)@ == Seq::<T>::empty(),
        opens_invariants none
        no_unwind
    {
        let mut link: Link<T> = None;
        std::mem::swap(&mut link, &mut self.head);
        loop
            decreases elements(link).len(),
        {
            match link {
                None => {
                    break ;
                },
                Some(node) => {
                    link = node.next;
                },
            }
        }
    }
}

impl<T> List<T> where T: Copy + Clone {
    /// Removes the top element and returns it, or returns `None` and changes
    /// nothing when the stack is empty.
    pub fn pop(&mut self) -> (top: Option<T>)
        ensures
            (match top {
                None => old(self)@.len() == 0 && final(self)@ == old(self)@,
                Some(data) => old(self)@.len() > 0 && data == old(self)@[0]
                    && final(self)@ == old(self)@.drop_first(),
            }),
    {
        let mut top: Link<T> = None;
        std::mem::swap(&mut top, &mut self.head);
        match top {
            None => None,
            Some(node) => {
                self.head = node.next;
                Some(node.data)
            },
        }
    }
}

impl<T> From<&[T]> for List<T> where T: Clone {
    /// A stack on which a clone of each element of `value` was pushed in
    /// turn, so that the last of them is on top.
    fn from(value: &[T]) -> (list: Self)
        ensures
            list@.len() == value@.len(),
            forall|i: int|
                0 <= i < value@.len() ==> cloned(value@[i], #[trigger] list@[value@.len() - 1 - i]),
    {
        let mut list = Self::default();
        let mut i: usize = 0;
        while i < value.len()
            invariant
                i <= value.len(),
                list@.len() == i,
                forall|j: int| 0 <= j < i ==> cloned(value@[j], #[trigger] list@[i - 1 - j]),
            decreases value.len() - i,
        {
            let ghost before = list@;
            let data = value[i].clone();
            list.push(data);
            assert forall|j: int| 0 <= j < i + 1 implies cloned(
                value@[j],
                #[trigger] list@[i + 1 - 1 - j],
            ) by {
                if j < i {
                    assert(list@[i - j] == before[i - 1 - j]);
                }
            }
            i += 1;
        }
        list
    }
}

impl<T> FromSpecImpl<&[T]> for List<T> where T: Clone {
    /// What `clone` returns is not a function of its argument, so the
    /// conversion is stated on the view, element by element.
    open spec fn obeys_from_spec() -> bool {
        false
    }

    open spec fn from_spec(value: &[T]) -> Self {
        arbitrary()
    }
}

impl<T> Default for List<T> {
    /// The empty stack.
    fn default() -> (list: Self)
        ensures
            list@ == Seq::<T>::empty(),
    {
        Self { head: None }
    }
}

/// A stack equals a link when both reach equal elements in the same order:
/// the result is `true` when the lengths agree and `==` gave `true` for the
/// elements at each position, and `false` when the lengths differ or `==`
/// gave `false` at some position.
impl<T: PartialEq> PartialEq<Link<T>> for List<T> {
    fn eq(&self, other: &Link<T>) -> (equal: bool)
        ensures
            self@.len() != elements(*other).len() ==> !equal,
            self@.len() == 0 && elements(*other).len() == 0 ==> equal,
            equal ==> forall|i: int|
                0 <= i < self@.len() ==> call_ensures(
                    T::eq,
                    (&#[trigger] self@[i], &elements(*other)[i]),
                    true,
                ),
            !equal && self@.len() == elements(*other).len() ==> exists|i: int|
                0 <= i < self@.len() && call_ensures(
                    T::eq,
                    (&#[trigger] self@[i], &elements(*other)[i]),
                    false,
                ),
    {
        let mut left: &Link<T> = &self.head;
        let mut right: &Link<T> = other;
        let ghost mut done: int = 0;
        loop
            invariant
                0 <= done <= self@.len(),
                done <= elements(*other).len(),
                elements(*left) == self@.skip(done),
                elements(*right) == elements(*other).skip(done),
                T::obeys_eq_spec() ==> forall|i: int|
                    0 <= i < done ==> (#[trigger] self@[i]).eq_spec(&elements(*other)[i]),
                forall|i: int|
                    0 <= i < done ==> call_ensures(
                        T::eq,
                        (&#[trigger] self@[i], &elements(*other)[i]),
                        true,
                    ),
            decreases elements(*left).len(),
        {
            match (left, right) {
                (None, None) => {
                    return true;
                },
                (Some(a), Some(b)) => {
                    let same = a.data == b.data;
                    proof {
                        assert(elements(*left) == seq![a.data] + elements(a.next));
                        assert(elements(*right) == seq![b.data] + elements(b.next));
                        assert(self@[done] == self@.skip(done)[0]);
                        assert(elements(*other)[done] == elements(*other).skip(done)[0]);
                        assert(self@.skip(done).drop_first() =~= self@.skip(done + 1));
                        assert(elements(*other).skip(done).drop_first() =~= elements(*other).skip(
                            done + 1,
                        ));
                    }
                    if !same {
                        return false;
                    }
                    left = &a.next;
                    right = &b.next;
                    proof {
                        done = done + 1;
                    }
                },
                _ => {
                    proof {
                        assert(elements(*left).len() > 0 || elements(*right).len() > 0);
                    }
                    return false;
                },
            }
        }
    }
}

impl<T: PartialEq> PartialEqSpecImpl<Link<T>> for List<T> {
    open spec fn obeys_eq_spec() -> bool {
        T::obeys_eq_spec()
    }

    open spec fn eq_spec(&self, other: &Link<T>) -> bool {
        pairwise_eq(self@, elements(*other))
    }
}

/// A read-only traversal of a stack. Its view is the sequence of the
/// elements it has not yielded yet.
pub struct ListIter<'a, T> {
    current: Option<&'a Node<T>>,
}

impl<'a, T> View for ListIter<'a, T> {
    type V = Seq<T>;

    closed spec fn view(&self) -> Seq<T> {
        match self.current {
            None => Seq::empty(),
            Some(node) => elements_from(*node),
        }
    }
}

impl<T> Iterator for ListIter<'_, T> where T: Copy {
    type Item = T;

    fn next(&mut self) -> (item: Option<T>)
        ensures
            (match item {
                None => old(self)@.len() == 0 && final(self)@ == old(self)@,
                Some(data) => old(self)@.len() > 0 && data == old(self)@[0]
                    && final(self)@ == old(self)@.drop_first(),
            }),
    {
        match self.current {
            None => None,
            Some(node) => {
                self.current = match &node.next {
                    None => None,
                    Some(next) => Some(&**next),
                };
                Some(node.data)
            },
        }
    }
}

impl<T> IteratorSpecImpl for ListIter<'_, T> where T: Copy {
    open spec fn obeys_prophetic_iter_laws(&self) -> bool {
        true
    }

    open spec fn remaining(&self) -> Seq<T> {
        self@
    }

    open spec fn will_return_none(&self) -> bool {
        true
    }

    open spec fn decrease(&self) -> Option<nat> {
        Some(self@.len())
    }

    open spec fn initial_value_relation(&self, init: &Self) -> bool {
        init@ == self@
    }

    open spec fn peek(&self, index: int) -> Option<T> {
        if 0 <= index < self@.len() {
            Some(self@[index])
        } else {
            None
        }
    }
}

/// Draining the stack: each step pops the top element.
impl<T> Iterator for List<T> where T: Copy + Clone {
    type Item = T;

    fn next(&mut self) -> (item: Option<T>)
        ensures
            (match item {
                None => old(self)@.len() == 0 && final(self)@ == old(self)@,
                Some(data) => old(self)@.len() > 0 && data == old(self)@[0]
                    && final(self)@ == old(self)@.drop_first(),
            }),
    {
        self.pop()
    }
}

impl<T> IteratorSpecImpl for List<T> where T: Copy + Clone {
    open spec fn obeys_prophetic_iter_laws(&self) -> bool {
        true
    }

    open spec fn remaining(&self) -> Seq<T> {
        self@
    }

    open spec fn will_return_none(&self) -> bool {
        true
    }

    open spec fn decrease(&self) -> Option<nat> {
        Some(self@.len())
    }

    open spec fn initial_value_relation(&self, init: &Self) -> bool {
        init@ == self@
    }

    open spec fn peek(&self, index: int) -> Option<T> {
        if 0 <= index < self@.len() {
            Some(self@[index])
        } else {
            None
        }
    }
}

/// A traversal of a stack that yields a mutable borrow of each element, the
/// top first. Its view is the sequence of the elements it has not yielded
/// yet, as they stand now.
///
/// The traversal holds the node under its cursor, and through it all nodes
/// below. With each step it lets go of that node: the node then ends up as
/// the yielded element, as its borrower leaves it, followed by what the next
/// node ends up reaching.
pub struct ListIterMut<'a, T> {
    current: Option<&'a mut Node<T>>,
}

impl<'a, T> View for ListIterMut<'a, T> {
    type V = Seq<T>;

    closed spec fn view(&self) -> Seq<T> {
        match self.current {
            None => Seq::empty(),
            Some(node) => elements_from(*node),
        }
    }
}

impl<'a, T> ListIterMut<'a, T> {
    /// The borrow of the node to yield next, or nothing past the last node.
    /// `final(..)` of it is that node as the traversal will leave it.
    pub closed spec fn cursor(&self) -> Option<&'a mut Node<T>> {
        self.current
    }

    /// Once the traversal is over and done with, the node under its cursor
    /// stays as it is.
    pub proof fn lemma_released(self)
        requires
            has_resolved(self),
        ensures
            (match self.cursor() {
                None => self@ == Seq::<T>::empty(),
                Some(node) => elements_from(*final(node)) == self@,
            }),
    {
    }
}

impl<'a, T> Iterator for ListIterMut<'a, T> {
    type Item = &'a mut T;

    fn next(&mut self) -> (item: Option<&'a mut T>)
        ensures
            (match item {
                None => {
                    &&& old(self)@.len() == 0
                    &&& final(self)@ == old(self)@
                    &&& old(self).cursor() is None
                    &&& final(self).cursor() is None
                },
                Some(data) => {
                    &&& old(self)@.len() > 0
                    &&& *data == old(self)@[0]
                    &&& final(self)@ == old(self)@.drop_first()
                    &&& old(self).cursor() is Some
                    &&& elements_from(*final(old(self).cursor().unwrap())) == seq![*final(data)]
                        + match final(self).cursor() {
                        None => Seq::<T>::empty(),
                        Some(node) => elements_from(*final(node)),
                    }
                },
            }),
    {
        match self.current.take() {
            None => None,
            Some(node) => {
                self.current = match &mut node.next {
                    None => None,
                    Some(next) => Some(&mut **next),
                };
                Some(&mut node.data)
            },
        }
    }
}

impl<'a, T> IteratorSpecImpl for ListIterMut<'a, T> {
    /// The items are borrows whose referents are still to be written, so
    /// the traversal is described by the contract of `next` and not by a
    /// sequence of items fixed in advance.
    open spec fn obeys_prophetic_iter_laws(&self) -> bool {
        false
    }

    open spec fn remaining(&self) -> Seq<&'a mut T> {
        Seq::empty()
    }

    open spec fn will_return_none(&self) -> bool {
        true
    }

    open spec fn decrease(&self) -> Option<nat> {
        Some(self@.len())
    }

    open spec fn initial_value_relation(&self, init: &Self) -> bool {
        init@ == self@
    }

    open spec fn peek(&self, index: int) -> Option<&'a mut T> {
        None
    }
}

} // verus!
