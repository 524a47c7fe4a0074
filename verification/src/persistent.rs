//! An immutable singly linked list whose tails can be shared between lists.
//!
//! A node is held through a reference-counted handle and is never changed
//! once it exists. `prepend` and `tail` build a new list around the nodes of
//! the old one, so two lists may end in the same nodes; a node goes when the
//! last list that reaches it goes.

use std::rc::Rc;
use crate::elementwise::pairwise_eq;
use vstd::prelude::*;
use vstd::std_specs::cmp::PartialEqSpec;
use vstd::std_specs::cmp::PartialEqSpecImpl;
use vstd::std_specs::convert::FromSpecImpl;
use vstd::std_specs::iter::IteratorSpecImpl;

verus! {

/// A link to the rest of a list: a shared handle to its first node, or
/// nothing at the end.
pub type Link<T> = Option<Rc<Node<T>>>;

/// A node: an element and the link to the nodes behind it.
#[derive(Debug)]
pub struct Node<T> {
    pub data: T,
    pub next: Link<T>,
}

/// The elements that `link` reaches, first to last.
pub open spec fn elements<T>(link: Link<T>) -> Seq<T>
    decreases link,
{
    match link {
        None => Seq::empty(),
        Some(node) => seq![node.data] + elements(node.next),
    }
}

/// The elements of a list with `data` put before them.
pub open spec fn prepended<T>(list: Seq<T>, data: T) -> Seq<T> {
    seq![data] + list
}

/// All elements of a list but the first; nothing when there is none.
pub open spec fn tail_of<T>(list: Seq<T>) -> Seq<T> {
    if list.len() > 0 {
        list.drop_first()
    } else {
        Seq::empty()
    }
}

/// `Rc::clone`: one more handle to the value that `handle` points to. The
/// value itself is shared, not copied.
#[verifier::external_body]
fn share<V>(handle: &Rc<V>) -> (shared: Rc<V>)
    ensures
        shared == *handle,
{
    Rc::clone(handle)
}

/// `Rc::try_unwrap`: the value itself where `handle` was the only handle to
/// it, else the handle back. The call neither panics nor unwinds, which is
/// what lets teardown make it.
#[verifier::external_body]
fn take_unique<V>(handle: Rc<V>) -> (outcome: Result<V, Rc<V>>)
    ensures
        (match outcome {
            Ok(value) => value == *handle,
            Err(same) => same == handle,
        }),
    opens_invariants none
    no_unwind
{
    Rc::try_unwrap(handle)
}

fn share_link<T>(link: &Link<T>) -> (shared: Link<T>)
    ensures
        shared == *link,
{
    match link {
        None => None,
        Some(node) => Some(share(node)),
    }
}

/// An immutable list. Its view is the sequence of its elements, first to
/// last.
#[derive(Debug)]
pub struct PersistentList<T> {
    head: Link<T>,
}

impl<T> View for PersistentList<T> {
    type V = Seq<T>;

    closed spec fn view(&self) -> Seq<T> {
        elements(self.head)
    }
}

impl<T> PersistentList<T> {
    /// A new list: `data` followed by the elements of this list, whose nodes
    /// it shares. This list stays as it is.
    pub fn prepend(&self, data: T) -> (list: Self)
        ensures
            list@ == prepended(self@, data),
    {
        PersistentList { head: Some(Rc::new(Node { data, next: share_link(&self.head) })) }
    }

    /// A new list of all elements but the first, whose nodes it shares; the
    /// empty list when this list is empty. This list stays as it is.
    pub fn tail(&self) -> (list: Self)
        ensures
            list@ == tail_of(self@),
    {
        match &self.head {
            None => PersistentList { head: None },
            Some(node) => {
                PersistentList { head: share_link(&node.next) }
            },
        }
    }

    /// An iterator over references to the elements, first to last.
    pub fn iter(&self) -> (iter: ListIter<'_, T>)
        ensures
            iter@ == self@,
    {
        match &self.head {
            None => ListIter { current: None },
            Some(node) => ListIter { current: Some(&**node) },
        }
    }
}

/// Takes the nodes off the chain one after the other from the front, in a
/// loop, and leaves the list empty. A node that no other list reaches is
/// released there and then; the walk stops at the first node that another
/// list still reaches, which stays with that list.
impl<T> Drop for PersistentList<T> {
    fn drop(&mut self)
        ensures
            final(self)@ == Seq::<T>::empty(),
        opens_invariants none
        no_unwind
    {
        let mut link: Link<T> = None;
        std::mem::swap(&mut link, &mut self.head);
        loop
            decreases elements(link).len(),
        {
            match link {
                None => {
                    break ;
                },
                Some(handle) => {
                    match take_unique(handle) {
                        Ok(node) => {
                            link = node.next;
                        },
                        Err(_) => {
                            break ;
                        },
                    }
                },
            }
        }
    }
}

impl<T> Default for PersistentList<T> {
    /// The empty list.
    fn default() -> (list: Self)
        ensures
            list@ == Seq::<T>::empty(),
    {
        Self { head: None }
    }
}

impl<T> From<&[T]> for PersistentList<T> where T: Clone {
    /// A list to whose front a clone of each element of `value` was
    /// prepended in turn, so that the last of them is the first of the list.
    fn from(value: &[T]) -> (list: Self)
        ensures
            list@.len() == value@.len(),
            forall|i: int|
                0 <= i < value@.len() ==> cloned(value@[i], #[trigger] list@[value@.len() - 1 - i]),
    {
        let mut list = Self::default();
        let mut i: usize = 0;
        while i < value.len()
            invariant
                i <= value.len(),
                list@.len() == i,
                forall|j: int| 0 <= j < i ==> cloned(value@[j], #[trigger] list@[i - 1 - j]),
            decreases value.len() - i,
        {
            let ghost before = list@;
            let data = value[i].clone();
            list = list.prepend(data);
            assert forall|j: int| 0 <= j < i + 1 implies cloned(
                value@[j],
                #[trigger] list@[i + 1 - 1 - j],
            ) by {
                if j < i {
                    assert(list@[i - j] == before[i - 1 - j]);
                }
            }
            i += 1;
        }
        list
    }
}

impl<T> FromSpecImpl<&[T]> for PersistentList<T> where T: Clone {
    /// What `clone` returns is not a function of its argument, so the
    /// conversion is stated on the view, element by element.
    open spec fn obeys_from_spec() -> bool {
        false
    }

    open spec fn from_spec(value: &[T]) -> Self {
        arbitrary()
    }
}

/// A list equals a link when both reach equal elements in the same order:
/// the result is `true` when the lengths agree and `==` gave `true` for the
/// elements at each position, and `false` when the lengths differ or `==`
/// gave `false` at some position.
impl<T: PartialEq> PartialEq<Link<T>> for PersistentList<T> {
    fn eq(&self, other: &Link<T>) -> (equal: bool)
        ensures
            self@.len() != elements(*other).len() ==> !equal,
            self@.len() == 0 && elements(*other).len() == 0 ==> equal,
            equal ==> forall|i: int|
                0 <= i < self@.len() ==> call_ensures(
                    T::eq,
                    (&#[trigger] self@[i], &elements(*other)[i]),
                    true,
                ),
            !equal && self@.len() == elements(*other).len() ==> exists|i: int|
                0 <= i < self@.len() && call_ensures(
                    T::eq,
                    (&#[trigger] self@[i], &elements(*other)[i]),
                    false,
                ),
    {
        let mut left: &Link<T> = &self.head;
        let mut right: &Link<T> = other;
        let ghost mut done: int = 0;
        loop
            invariant
                0 <= done <= self@.len(),
                done <= elements(*other).len(),
                elements(*left) == self@.skip(done),
                elements(*right) == elements(*other).skip(done),
                T::obeys_eq_spec() ==> forall|i: int|
                    0 <= i < done ==> (#[trigger] self@[i]).eq_spec(&elements(*other)[i]),
                forall|i: int|
                    0 <= i < done ==> call_ensures(
                        T::eq,
                        (&#[trigger] self@[i], &elements(*other)[i]),
                        true,
                    ),
            decreases elements(*left).len(),
        {
            match (left, right) {
                (None, None) => {
                    return true;
                },
                (Some(a), Some(b)) => {
                    let same = a.data == b.data;
                    proof {
                        assert(elements(*left) == seq![a.data] + elements(a.next));
                        assert(elements(*right) == seq![b.data] + elements(b.next));
                        assert(self@[done] == self@.skip(done)[0]);
                        assert(elements(*other)[done] == elements(*other).skip(done)[0]);
                        assert(self@.skip(done).drop_first() =~= self@.skip(done + 1));
                        assert(elements(*other).skip(done).drop_first() =~= elements(*other).skip(
                            done + 1,
                        ));
                    }
                    if !same {
                        return false;
                    }
                    left = &a.next;
                    right = &b.next;
                    proof {
                        done = done + 1;
                    }
                },
                _ => {
                    proof {
                        assert(elements(*left).len() > 0 || elements(*right).len() > 0);
                    }
                    return false;
                },
            }
        }
    }
}

impl<T: PartialEq> PartialEqSpecImpl<Link<T>> for PersistentList<T> {
    open spec fn obeys_eq_spec() -> bool {
        T::obeys_eq_spec()
    }

    open spec fn eq_spec(&self, other: &Link<T>) -> bool {
        pairwise_eq(self@, elements(*other))
    }
}

/// A read-only traversal of a list. Its view is the sequence of the elements
/// it has not yielded yet.
pub struct ListIter<'a, T> {
    current: Option<&'a Node<T>>,
}

impl<'a, T> View for ListIter<'a, T> {
    type V = Seq<T>;

    closed spec fn view(&self) -> Seq<T> {
        match self.current {
            None => Seq::empty(),
            Some(node) => seq![node.data] + elements(node.next),
        }
    }
}

impl<'a, T> Iterator for ListIter<'a, T> where T: Copy {
    type Item = &'a T;

    fn next(&mut self) -> (item: Option<&'a T>)
        ensures
            (match item {
                None => old(self)@.len() == 0 && final(self)@ == old(self)@,
                Some(data) => old(self)@.len() > 0 && *data == old(self)@[0]
                    && final(self)@ == old(self)@.drop_first(),
            }),
    {
        match self.current {
            None => None,
            Some(node) => {
                self.current = match &node.next {
                    None => None,
                    Some(next) => Some(&**next),
                };
                assert(self@.map_values(|x: T| &x) =~= old(self)@.map_values(
                    |x: T| &x,
                ).drop_first());
                Some(&node.data)
            },
        }
    }
}

impl<'a, T> IteratorSpecImpl for ListIter<'a, T> where T: Copy {
    open spec fn obeys_prophetic_iter_laws(&self) -> bool {
        true
    }

    open spec fn remaining(&self) -> Seq<&'a T> {
        self@.map_values(|x: T| &x)
    }

    open spec fn will_return_none(&self) -> bool {
        true
    }

    open spec fn decrease(&self) -> Option<nat> {
        Some(self@.len())
    }

    open spec fn initial_value_relation(&self, init: &Self) -> bool {
        init@ == self@
    }

    open spec fn peek(&self, index: int) -> Option<&'a T> {
        if 0 <= index < self@.len() {
            Some(&self@[index])
        } else {
            None
        }
    }
}

/// The tail of a list to which an element was prepended has the elements of
/// the list itself, in the same order.
pub proof fn lemma_prepend_then_tail<T>(list: Seq<T>, data: T)
    ensures
        tail_of(prepended(list, data)) == list,
{
}

} // verus!
