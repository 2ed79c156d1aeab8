//! A singly linked first-in, first-out list whose nodes are reserved in an
//! arena one by one.

use crate::arena::{block, Arena};
use vstd::prelude::*;

verus! {

/// A node of a list: a value, and the place in the list's pool of the node
/// that follows it.
#[derive(Debug, PartialEq)]
pub struct Node<T> {
    next: Option<usize>,
    value: T,
}

/// A list that grows at the tail and shrinks at the head. Every node is
/// reserved in an arena when it is pushed and stays in the list's pool when
/// it is popped; `head` and `tail` are places in that pool.
#[derive(Debug, PartialEq)]
pub struct List<T> {
    generation: usize,
    count: usize,
    head: Option<usize>,
    tail: Option<usize>,
    nodes: Vec<Node<T>>,
}

impl<T> View for List<T> {
    type V = Seq<T>;

    /// The values in the list, head first.
    closed spec fn view(&self) -> Seq<T> {
        Seq::new(self.count as nat, |i: int| self.nodes@[self.start() + i].value)
    }
}

/// Whether `link` leads to the node at `place`.
spec fn linked(link: Option<usize>, place: int) -> bool {
    link matches Some(next) && next == place
}

impl<T> List<T> {
    /// The place in the pool of the first node that is still in the list.
    closed spec fn start(&self) -> int {
        self.nodes@.len() - self.count
    }

    /// The nodes in the list are the last `count` nodes of the pool, each
    /// linked to the one behind it and the last one to none; `head` and
    /// `tail` are the first and the last of them, and both are empty exactly
    /// when the list is.
    pub closed spec fn wf(&self) -> bool {
        &&& self.count <= self.nodes@.len()
        &&& self.count == 0 ==> self.head is None && self.tail is None
        &&& self.count > 0 ==> {
            &&& self.head matches Some(first) && first == self.start()
            &&& self.tail matches Some(last) && last == self.nodes@.len() - 1
            &&& self.nodes@[self.nodes@.len() - 1].next is None
        }
        &&& forall|i: int|
            self.start() <= i < self.nodes@.len() - 1 ==> linked(
                (#[trigger] self.nodes@[i]).next,
                i + 1,
            )
    }

    /// The place in the pool of the first node of the list.
    pub closed spec fn spec_head(&self) -> Option<usize> {
        self.head
    }

    /// The place in the pool of the last node of the list.
    pub closed spec fn spec_tail(&self) -> Option<usize> {
        self.tail
    }

    /// The generation of the arena when the list was made.
    pub closed spec fn spec_generation(&self) -> nat {
        self.generation as nat
    }

    /// How many nodes the list's pool holds, popped ones included.
    pub closed spec fn pool_len(&self) -> nat {
        self.nodes@.len()
    }

    /// Head and tail are empty exactly when the list holds no value.
    /// Otherwise the values of the list are in the last nodes of the pool:
    /// the head is the first of them and the tail the last node of all.
    pub proof fn lemma_ends(&self)
        requires
            self.wf(),
        ensures
            self.spec_head() is None <==> self@.len() == 0,
            self.spec_tail() is None <==> self@.len() == 0,
            self@.len() <= self.pool_len(),
            self.spec_head() matches Some(first) ==> first == self.pool_len() - self@.len(),
            self.spec_tail() matches Some(last) ==> last == self.pool_len() - 1,
    {
    }

    /// An empty list, bound to the generation that `arena` is in.
    pub fn new(arena: &Arena) -> (list: Self)
        ensures
            list.wf(),
            list@ == Seq::<T>::empty(),
            list.spec_generation() == arena@.generation,
            list.pool_len() == 0,
    {
        let generation: usize = arena.generation();
        let list = List { generation, count: 0, head: None, tail: None, nodes: Vec::new() };
        assert(list@ =~= Seq::<T>::empty());
        list
    }

    /// How many values the list holds.
    pub fn len(&self) -> (r: usize)
        ensures
            r == self@.len(),
    {
        self.count
    }

    /// Whether the list holds no value.
    pub fn is_empty(&self) -> (r: bool)
        ensures
            r <==> self@.len() == 0,
    {
        self.count == 0
    }

    /// The generation of the arena when the list was made.
    pub fn generation(&self) -> (r: usize)
        ensures
            r == self.spec_generation(),
    {
        self.generation
    }

    /// The place in the list's pool of the first node; `None` in an empty
    /// list.
    pub fn head(&self) -> (r: Option<usize>)
        requires
            self.wf(),
        ensures
            r == self.spec_head(),
            r is None <==> self@.len() == 0,
            r matches Some(first) ==> first == self.pool_len() - self@.len(),
    {
        self.head
    }

    /// The place in the list's pool of the last node; `None` in an empty
    /// list.
    pub fn tail(&self) -> (r: Option<usize>)
        requires
            self.wf(),
        ensures
            r == self.spec_tail(),
            r is None <==> self@.len() == 0,
            r matches Some(last) ==> last == self.pool_len() - 1,
    {
        self.tail
    }

    /// Reserves one node in `arena` and appends `value` in it at the tail.
    /// Where the node does not fit in the arena the value is dropped and the
    /// list stays as it was.
    pub fn push(&mut self, arena: &mut Arena, value: T) -> (r: Option<()>)
        requires
            old(self).wf(),
        ensures
            final(self).wf(),
            r is Some <==> old(arena)@.fits(block::<Node<T>>(1)),
            final(arena)@ == old(arena)@.request(block::<Node<T>>(1)),
            r is Some ==> {
                &&& final(self)@ == old(self)@.push(value)
                &&& final(self).pool_len() == old(self).pool_len() + 1
            },
            r is None ==> *final(self) == *old(self),
            final(self).spec_generation() == old(self).spec_generation(),
    {
        if arena.allocate::<Node<T>>(1).is_none() {
            return None;
        }
        let at: usize = self.nodes.len();
        self.nodes.push(Node { next: None, value });
        assert(self.nodes.len() == at + 1);
        match self.tail {
            None => {
                self.head = Some(at);
                self.tail = Some(at);
                self.count = 1;
            },
            Some(last) => {
                self.nodes[last].next = Some(at);
                self.tail = Some(at);
                self.count = self.count + 1;
            },
        }
        proof {
            assert(self@ =~= old(self)@.push(value));
        }
        Some(())
    }

    /// Takes the value at the head off the list and returns it; `None` where
    /// the list is empty. Taking the last value leaves head and tail empty.
    pub fn pop(&mut self) -> (r: Option<&T>)
        requires
            old(self).wf(),
        ensures
            final(self).wf(),
            old(self)@.len() > 0 ==> {
                &&& r == Some(&old(self)@[0])
                &&& final(self)@ == old(self)@.drop_first()
            },
            old(self)@.len() == 0 ==> r is None && *final(self) == *old(self),
            final(self).pool_len() == old(self).pool_len(),
            final(self).spec_generation() == old(self).spec_generation(),
    {
        match self.head {
            None => None,
            Some(first) => {
                let next: Option<usize> = self.nodes[first].next;
                self.head = next;
                self.count = self.count - 1;
                if next.is_none() {
                    self.tail = None;
                }
                proof {
                    assert(self@ =~= old(self)@.drop_first());
                }
                Some(&self.nodes[first].value)
            },
        }
    }

    /// The value at the tail; `None` where the list is empty.
    pub fn last(&self) -> (r: Option<&T>)
        requires
            self.wf(),
        ensures
            self@.len() > 0 ==> r == Some(&self@.last()),
            self@.len() == 0 ==> r is None,
    {
        match self.tail {
            None => None,
            Some(last) => Some(&self.nodes[last].value),
        }
    }

    /// The value `position` links behind the head, to change it in place;
    /// `None` where the list has no such value.
    pub fn get_mut(&mut self, position: usize) -> (r: Option<&mut T>)
        requires
            old(self).wf(),
        ensures
            final(self).wf(),
            r is Some <==> position < old(self)@.len(),
            r matches Some(slot) ==> {
                &&& *slot == old(self)@[position as int]
                &&& final(self)@ == old(self)@.update(position as int, *final(slot))
            },
            r is None ==> *final(self) == *old(self),
            final(self).pool_len() == old(self).pool_len(),
            final(self).spec_generation() == old(self).spec_generation(),
    {
        if position >= self.count {
            return None;
        }
        let mut at: usize = match self.head {
            Some(first) => first,
            None => {
                return None;
            },
        };
        let mut walked: usize = 0;
        while walked < position
            invariant
                self.wf(),
                *self == *old(self),
                position < self.count,
                walked <= position,
                at == self.start() + walked,
            decreases position - walked,
        {
            at = match self.nodes[at].next {
                Some(next) => next,
                None => {
                    return None;
                },
            };
            walked = walked + 1;
        }
        Some(&mut self.nodes[at].value)
    }

    /// A walk over the values of the list from the head on, along the links.
    pub fn iter(&self) -> (walk: ListIter<'_, T>)
        requires
            self.wf(),
        ensures
            walk.values() == self@,
            walk.position() == 0,
    {
        ListIter { list: self, current: self.head }
    }

    /// A walk over the values of the list from the head on, along the links,
    /// that lends each value out to be changed in place.
    pub fn iter_mut(&mut self) -> (walk: ListIterMut<'_, T>)
        requires
            old(self).wf(),
        ensures
            walk.wf(),
            walk.values() == old(self)@,
            walk.position() == 0,
    {
        let current: Option<usize> = self.head;
        ListIterMut { list: self, current }
    }
}

/// A walk over a list: it stands at a node, or behind the last one.
pub struct ListIter<'a, T> {
    list: &'a List<T>,
    current: Option<usize>,
}

impl<'a, T> ListIter<'a, T> {
    #[verifier::type_invariant]
    spec fn inv(self) -> bool {
        &&& self.list.wf()
        &&& self.current matches Some(at) ==> self.list.start() <= at < self.list.nodes@.len()
    }

    /// The values of the list that is walked, head first.
    pub closed spec fn values(&self) -> Seq<T> {
        self.list@
    }

    /// How many values the walk has left behind.
    pub closed spec fn position(&self) -> nat {
        match self.current {
            Some(at) => (at - self.list.start()) as nat,
            None => self.list.count as nat,
        }
    }

    /// The values that the walk has yet to yield, in order.
    pub open spec fn remaining(&self) -> Seq<T> {
        self.values().skip(self.position() as int)
    }

    /// Yields the value that the walk stands at and follows the link to the
    /// next node; `None` behind the last node.
    pub fn next(&mut self) -> (r: Option<&'a T>)
        ensures
            final(self).values() == old(self).values(),
            old(self).position() <= old(self).values().len(),
            old(self).position() < old(self).values().len() ==> {
                &&& r == Some(&old(self).values()[old(self).position() as int])
                &&& final(self).position() == old(self).position() + 1
            },
            old(self).position() == old(self).values().len() ==> {
                &&& r is None
                &&& final(self).position() == old(self).position()
            },
    {
        proof {
            use_type_invariant(&*self);
        }
        match self.current {
            None => None,
            Some(at) => {
                let node: &'a Node<T> = &self.list.nodes[at];
                self.current = node.next;
                Some(&node.value)
            },
        }
    }
}

/// A walk over a list that lends the values out to be changed: it stands at
/// a node, or behind the last one.
pub struct ListIterMut<'a, T> {
    list: &'a mut List<T>,
    current: Option<usize>,
}

impl<'a, T> ListIterMut<'a, T> {
    /// The walk stands at a node that is still in the list, or behind the
    /// last one.
    pub closed spec fn wf(&self) -> bool {
        &&& self.list.wf()
        &&& self.current matches Some(at) ==> self.list.start() <= at < self.list.nodes@.len()
    }

    /// The values of the list that is walked, head first, as they are now.
    pub closed spec fn values(&self) -> Seq<T> {
        self.list@
    }

    /// How many values the walk has left behind.
    pub closed spec fn position(&self) -> nat {
        match self.current {
            Some(at) => (at - self.list.start()) as nat,
            None => self.list.count as nat,
        }
    }

    /// The values that the walk has yet to yield, in order.
    pub open spec fn remaining(&self) -> Seq<T> {
        self.values().skip(self.position() as int)
    }

    /// Lends out the value that the walk stands at and follows the link to
    /// the next node; `None` behind the last node. What is written to the
    /// value is written to the list.
    pub fn next(&mut self) -> (r: Option<&mut T>)
        requires
            old(self).wf(),
        ensures
            final(self).wf(),
            old(self).position() <= old(self).values().len(),
            old(self).position() < old(self).values().len() ==> {
                &&& r matches Some(slot) && *slot == old(self).values()[old(self).position() as int]
                    && final(self).values() == old(self).values().update(
                    old(self).position() as int,
                    *final(slot),
                )
                &&& final(self).position() == old(self).position() + 1
            },
            old(self).position() == old(self).values().len() ==> {
                &&& r is None
                &&& final(self).values() == old(self).values()
                &&& final(self).position() == old(self).position()
            },
    {
        match self.current {
            None => None,
            Some(at) => {
                self.current = self.list.nodes[at].next;
                Some(&mut self.list.nodes[at].value)
            },
        }
    }
}

/// What a list holds once each of `values` is pushed in turn.
pub open spec fn pushed_all<T>(list: Seq<T>, values: Seq<T>) -> Seq<T>
    decreases values.len(),
{
    if values.len() == 0 {
        list
    } else {
        pushed_all(list.push(values[0]), values.drop_first())
    }
}

/// The values that `count` pops yield, in the order in which they come.
pub open spec fn popped<T>(list: Seq<T>, count: nat) -> Seq<T>
    decreases count,
{
    if count == 0 || list.len() == 0 {
        Seq::empty()
    } else {
        seq![list[0]] + popped(list.drop_first(), (count - 1) as nat)
    }
}

/// What a list holds once `count` values are popped.
pub open spec fn after_pops<T>(list: Seq<T>, count: nat) -> Seq<T>
    decreases count,
{
    if count == 0 || list.len() == 0 {
        list
    } else {
        after_pops(list.drop_first(), (count - 1) as nat)
    }
}

/// Pushing values leaves them behind what the list held, in the order in
/// which they were pushed.
pub proof fn lemma_pushes_append<T>(list: Seq<T>, values: Seq<T>)
    ensures
        pushed_all(list, values) == list + values,
    decreases values.len(),
{
    if values.len() == 0 {
        assert(list + values =~= list);
    } else {
        lemma_pushes_append(list.push(values[0]), values.drop_first());
        assert(list.push(values[0]) + values.drop_first() =~= list + values);
    }
}

/// Popping as often as the list has values yields them head first and leaves
/// the list empty.
pub proof fn lemma_pops_drain<T>(list: Seq<T>)
    ensures
        popped(list, list.len()) == list,
        after_pops(list, list.len()) == Seq::<T>::empty(),
    decreases list.len(),
{
    if list.len() == 0 {
        assert(popped(list, list.len()) =~= list);
        assert(after_pops(list, list.len()) =~= Seq::<T>::empty());
    } else {
        lemma_pops_drain(list.drop_first());
        assert(seq![list[0]] + list.drop_first() =~= list);
    }
}

/// First in, first out: values pushed on an empty list are walked in the
/// order in which they were pushed, and as many pops yield them in that order
/// and leave the list empty.
pub proof fn lemma_first_in_first_out<T>(values: Seq<T>)
    ensures
        pushed_all(Seq::<T>::empty(), values) == values,
        popped(pushed_all(Seq::<T>::empty(), values), values.len()) == values,
        after_pops(pushed_all(Seq::<T>::empty(), values), values.len()) == Seq::<T>::empty(),
{
    lemma_pushes_append(Seq::<T>::empty(), values);
    assert(Seq::<T>::empty() + values =~= values);
    lemma_pops_drain(values);
}

} // verus!
