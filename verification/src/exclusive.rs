//! A singly linked stack with exclusive ownership.
//!
//! Each node is owned by the link before it, and the first by the list, so
//! the chain has one owner all the way down and no node is reached twice.

use crate::elementwise::pairwise_eq;
use vstd::prelude::*;
use vstd::std_specs::cmp::PartialEqSpec;
use vstd::std_specs::cmp::PartialEqSpecImpl;
use vstd::std_specs::convert::FromSpecImpl;

verus! {

/// A link to the rest of a list: the owner of its first node, or `Nil` at
/// the end. Its view is the sequence of the elements it reaches.
#[derive(Debug)]
pub enum Link<T> {
    Nil,
    Cons(Box<Node<T>>),
}

/// A node: an element and the link to the nodes below it.
#[derive(Debug)]
pub struct Node<T> {
    pub data: T,
    pub next: Link<T>,
}

impl<T> View for Link<T> {
    type V = Seq<T>;

    open spec fn view(&self) -> Seq<T>
        decreases self,
    {
        match self {
            Link::Nil => Seq::empty(),
            Link::Cons(node) => seq![node.data] + node.next.view(),
        }
    }
}

impl<T> Link<T> {
    /// The one chain of nodes that reaches the elements of `elements` in
    /// their order.
    pub open spec fn of(elements: Seq<T>) -> Link<T>
        decreases elements.len(),
    {
        if elements.len() == 0 {
            Link::Nil
        } else {
            Link::Cons(Box::new(Node { data: elements[0], next: Link::of(elements.drop_first()) }))
        }
    }
}

/// A stack. Its view is the sequence of its elements, the top first.
#[derive(Debug)]
pub struct List<T> {
    head: Link<T>,
}

impl<T> View for List<T> {
    type V = Seq<T>;

    closed spec fn view(&self) -> Seq<T> {
        self.head@
    }
}

impl<T> List<T> {
    /// Puts `data` on top.
    pub fn push(&mut self, data: T)
        ensures
            final(self)@ == seq![data] + old(self)@,
    {
        self.push_exact(data);
    }

    /// Removes the top node and says whether there was one.
    pub fn pop_node(&mut self) -> (removed: bool)
        ensures
            removed == (old(self)@.len() > 0),
            final(self)@ == (if removed {
                old(self)@.drop_first()
            } else {
                old(self)@
            }),
    {
        let mut top = Link::Nil;
        std::mem::swap(&mut top, &mut self.head);
        match top {
            Link::Nil => false,
            Link::Cons(node) => {
                self.head = node.next;
                assert(self@ =~= old(self)@.drop_first());
                true
            },
        }
    }
}

/// Takes the nodes off the chain one after the other from the top, in a
/// loop, and leaves the stack empty, so that a long chain does not nest one
/// release inside the other.
impl<T> Drop for List<T> {
    fn drop(&mut self)
        ensures
            final(self)@ == Seq::<T>::empty(),
        opens_invariants none
        no_unwind
    {
        let mut link = Link::Nil;
        std::mem::swap(&mut link, &mut self.head);
        loop
            decreases link@.len(),
        {
            match link {
                Link::Nil => {
                    break ;
                },
                Link::Cons(node) => {
                    link = node.next;
                },
            }
        }
    }
}

impl<T> List<T> where T: Copy {
    /// Removes the top element and returns it, or returns `None` and changes
    /// nothing when the stack is empty.
    pub fn pop(&mut self) -> (top: Option<T>)
        ensures
            (match top {
                None => old(self)@.len() == 0 && final(self)@ == old(self)@,
                Some(data) => old(self)@.len() > 0 && data == old(self)@[0]
                    && final(self)@ == old(self)@.drop_first(),
            }),
    {
        let mut top = Link::Nil;
        std::mem::swap(&mut top, &mut self.head);
        match top {
            Link::Nil => None,
            Link::Cons(node) => {
                self.head = node.next;
                assert(self@ =~= old(self)@.drop_first());
                Some(node.data)
            },
        }
    }
}

/// The chain of `elements` with `data` put before it is the chain of `data`
/// followed by `elements`.
proof fn lemma_of_cons<T>(data: T, elements: Seq<T>)
    ensures
        Link::of(seq![data] + elements) == Link::Cons(
            Box::new(Node { data, next: Link::of(elements) }),
        ),
{
    let whole = seq![data] + elements;
    assert(whole.drop_first() =~= elements);
}

/// A chain reaches the elements it was made of.
pub proof fn lemma_of_view<T>(elements: Seq<T>)
    ensures
        Link::of(elements)@ == elements,
    decreases elements.len(),
{
    if elements.len() > 0 {
        lemma_of_view(elements.drop_first());
    }
}

impl<T> From<Vec<T>> for List<T> {
    /// A stack on which the elements of `value` were pushed in turn, so that
    /// the last of them is on top.
    fn from(value: Vec<T>) -> (list: Self)
        ensures
            list@ == value@.reverse(),
    {
        let ghost items = value@;
        let mut list = List { head: Link::Nil };
        for data in iter: value
            invariant
                iter.seq() == items,
                list.head == Link::of(items.take(iter.index()).reverse()),
        {
            proof {
                let i = iter.index();
                lemma_of_cons(data, items.take(i).reverse());
                assert(seq![data] + items.take(i).reverse() =~= items.take(i + 1).reverse());
            }
            list.push_exact(data);
        }
        proof {
            assert(items.take(items.len() as int) =~= items);
            lemma_of_view(items.reverse());
        }
        list
    }
}

impl<T> List<T> {
    /// `push`, stated on the chain itself.
    fn push_exact(&mut self, data: T)
        ensures
            final(self).head == Link::Cons(Box::new(Node { data, next: old(self).head })),
    {
        let mut rest = Link::Nil;
        std::mem::swap(&mut rest, &mut self.head);
        self.head = Link::Cons(Box::new(Node { data, next: rest }));
    }
}

impl<T> FromSpecImpl<Vec<T>> for List<T> {
    open spec fn obeys_from_spec() -> bool {
        true
    }

    closed spec fn from_spec(value: Vec<T>) -> Self {
        List { head: Link::of(value@.reverse()) }
    }
}

impl<T> Default for List<T> {
    /// The empty stack.
    fn default() -> (list: Self)
        ensures
            list@ == Seq::<T>::empty(),
    {
        Self { head: Link::Nil }
    }
}

/// A stack equals a link when both reach equal elements in the same order:
/// the result is `true` when the lengths agree and `==` gave `true` for the
/// elements at each position, and `false` when the lengths differ or `==`
/// gave `false` at some position.
impl<T: PartialEq> PartialEq<Link<T>> for List<T> {
    fn eq(&self, other: &Link<T>) -> (equal: bool)
        ensures
            self@.len() != other@.len() ==> !equal,
            self@.len() == 0 && other@.len() == 0 ==> equal,
            equal ==> forall|i: int|
                0 <= i < self@.len() ==> call_ensures(
                    T::eq,
                    (&#[trigger] self@[i], &other@[i]),
                    true,
                ),
            !equal && self@.len() == other@.len() ==> exists|i: int|
                0 <= i < self@.len() && call_ensures(
                    T::eq,
                    (&#[trigger] self@[i], &other@[i]),
                    false,
                ),
    {
        self.head.eq(other)
    }
}

impl<T: PartialEq> PartialEqSpecImpl<Link<T>> for List<T> {
    open spec fn obeys_eq_spec() -> bool {
        T::obeys_eq_spec()
    }

    open spec fn eq_spec(&self, other: &Link<T>) -> bool {
        pairwise_eq(self@, other@)
    }
}

/// Two links are equal when they reach equal elements in the same order:
/// the result is `true` when the lengths agree and `==` gave `true` for the
/// elements at each position, and `false` when the lengths differ or `==`
/// gave `false` at some position.
impl<T: PartialEq> PartialEq for Link<T> {
    fn eq(&self, other: &Self) -> (equal: bool)
        ensures
            self@.len() != other@.len() ==> !equal,
            self@.len() == 0 && other@.len() == 0 ==> equal,
            equal ==> forall|i: int|
                0 <= i < self@.len() ==> call_ensures(
                    T::eq,
                    (&#[trigger] self@[i], &other@[i]),
                    true,
                ),
            !equal && self@.len() == other@.len() ==> exists|i: int|
                0 <= i < self@.len() && call_ensures(
                    T::eq,
                    (&#[trigger] self@[i], &other@[i]),
                    false,
                ),
    {
        let mut left: &Link<T> = self;
        let mut right: &Link<T> = other;
        let ghost mut done: int = 0;
        loop
            invariant
                0 <= done <= self@.len(),
                done <= other@.len(),
                left@ == self@.skip(done),
                right@ == other@.skip(done),
                T::obeys_eq_spec() ==> forall|i: int|
                    0 <= i < done ==> (#[trigger] self@[i]).eq_spec(&other@[i]),
                forall|i: int|
                    0 <= i < done ==> call_ensures(
                        T::eq,
                        (&#[trigger] self@[i], &other@[i]),
                        true,
                    ),
            decreases left@.len(),
        {
            match (left, right) {
                (Link::Nil, Link::Nil) => {
                    return true;
                },
                (Link::Cons(a), Link::Cons(b)) => {
                    let same = a.data == b.data;
                    proof {
                        assert(left@ == seq![a.data] + a.next@);
                        assert(right@ == seq![b.data] + b.next@);
                        assert(self@[done] == self@.skip(done)[0]);
                        assert(other@[done] == other@.skip(done)[0]);
                        assert(self@.skip(done).drop_first() =~= self@.skip(done + 1));
                        assert(other@.skip(done).drop_first() =~= other@.skip(done + 1));
                    }
                    if !same {
                        return false;
                    }
                    left = &a.next;
                    right = &b.next;
                    proof {
                        done = done + 1;
                    }
                },
                (Link::Nil, Link::Cons(b)) => {
                    proof {
                        assert(right@ == seq![b.data] + b.next@);
                    }
                    return false;
                },
                (Link::Cons(a), Link::Nil) => {
                    proof {
                        assert(left@ == seq![a.data] + a.next@);
                    }
                    return false;
                },
            }
        }
    }
}

impl<T: PartialEq> PartialEqSpecImpl for Link<T> {
    open spec fn obeys_eq_spec() -> bool {
        T::obeys_eq_spec()
    }

    open spec fn eq_spec(&self, other: &Self) -> bool {
        pairwise_eq(self@, other@)
    }
}

/// The stack that results when the elements of `input` are pushed in turn
/// onto `stack`.
pub open spec fn after_pushes<T>(stack: Seq<T>, input: Seq<T>) -> Seq<T>
    decreases input.len(),
{
    if input.len() == 0 {
        stack
    } else {
        after_pushes(seq![input[0]] + stack, input.drop_first())
    }
}

/// The elements that successive pops return, in the order in which they are
/// returned, until the stack is empty.
pub open spec fn pop_order<T>(stack: Seq<T>) -> Seq<T>
    decreases stack.len(),
{
    if stack.len() == 0 {
        Seq::empty()
    } else {
        seq![stack[0]] + pop_order(stack.drop_first())
    }
}

/// Pushing the elements of `input` in turn puts them, last first, on top of
/// what the stack held.
pub proof fn lemma_after_pushes<T>(stack: Seq<T>, input: Seq<T>)
    ensures
        after_pushes(stack, input) == input.reverse() + stack,
    decreases input.len(),
{
    if input.len() > 0 {
        lemma_after_pushes(seq![input[0]] + stack, input.drop_first());
        assert(input.drop_first().reverse() + (seq![input[0]] + stack) =~= input.reverse()
            + stack);
    }
}

/// Popping until the stack is empty returns its elements from the top down.
pub proof fn lemma_pop_order<T>(stack: Seq<T>)
    ensures
        pop_order(stack) == stack,
    decreases stack.len(),
{
    if stack.len() > 0 {
        lemma_pop_order(stack.drop_first());
    }
}

/// Last in, first out: a stack that starts empty, has the elements of
/// `input` pushed in turn and is then popped until it is empty returns them
/// in exactly the reverse order.
pub proof fn lemma_push_then_drain_reverses<T>(input: Seq<T>)
    ensures
        pop_order(after_pushes(Seq::empty(), input)) == input.reverse(),
{
    lemma_after_pushes(Seq::empty(), input);
    lemma_pop_order(after_pushes(Seq::empty(), input));
}

} // verus!
