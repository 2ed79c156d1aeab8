//! A single value whose slot is reserved in an arena.

use crate::arena::{block, Arena};
use core::ops::{Deref, DerefMut};
use vstd::prelude::*;

verus! {

/// One slot reserved in an arena, and the value in it.
#[derive(Debug, PartialEq, PartialOrd, Eq, Ord)]
pub struct Box<T> {
    offset: usize,
    value: T,
}

impl<T> View for Box<T> {
    type V = T;

    /// The value in the slot.
    closed spec fn view(&self) -> T {
        self.value
    }
}

impl<T> Box<T> {
    /// Where in the arena the slot is.
    pub closed spec fn spec_offset(&self) -> nat {
        self.offset as nat
    }

    /// Reserves one slot in `arena`; it starts out with `T::default()`.
    /// There is no box where the slot does not fit in the arena.
    pub fn new(arena: &mut Arena) -> (r: Option<Self>) where T: Default
        ensures
            r is Some <==> old(arena)@.fits(block::<T>(1)),
            final(arena)@ == old(arena)@.request(block::<T>(1)),
            r matches Some(boxed) ==> {
                &&& boxed.spec_offset() == old(arena)@.aligned_start(block::<T>(1))
                &&& call_ensures(T::default, (), boxed@)
            },
    {
        match arena.allocate::<T>(1) {
            Some(offset) => Some(Box { offset, value: T::default() }),
            None => None,
        }
    }

    /// Reserves one slot in `arena` and puts `value` in it. Where the slot
    /// does not fit in the arena there is no box, and the value is dropped.
    pub fn from_value(arena: &mut Arena, value: T) -> (r: Option<Self>)
        ensures
            r is Some <==> old(arena)@.fits(block::<T>(1)),
            final(arena)@ == old(arena)@.request(block::<T>(1)),
            r matches Some(boxed) ==> {
                &&& boxed.spec_offset() == old(arena)@.aligned_start(block::<T>(1))
                &&& boxed@ == value
            },
    {
        match arena.allocate::<T>(1) {
            Some(offset) => Some(Box { offset, value }),
            None => None,
        }
    }

    /// The slot, to read from.
    pub fn as_ptr(&self) -> (r: &T)
        ensures
            *r == self@,
    {
        &self.value
    }

    /// The slot, to write to.
    pub fn as_mut_ptr(&mut self) -> (r: &mut T)
        ensures
            *r == old(self)@,
            final(self)@ == *final(r),
            final(self).spec_offset() == old(self).spec_offset(),
    {
        &mut self.value
    }

    /// The value in the slot.
    pub fn as_ref(&self) -> (r: &T)
        ensures
            *r == self@,
    {
        &self.value
    }

    /// The value in the slot, to change it.
    pub fn as_mut(&mut self) -> (r: &mut T)
        ensures
            *r == old(self)@,
            final(self)@ == *final(r),
            final(self).spec_offset() == old(self).spec_offset(),
    {
        &mut self.value
    }

    /// Where in the arena the slot is.
    pub fn offset(&self) -> (r: usize)
        ensures
            r == self.spec_offset(),
    {
        self.offset
    }

    /// A copy of the value in a slot of its own, reserved in `arena`. There
    /// is no copy where the slot does not fit in the arena.
    pub fn clone(&self, arena: &mut Arena) -> (r: Option<Self>) where T: Copy
        ensures
            r is Some <==> old(arena)@.fits(block::<T>(1)),
            final(arena)@ == old(arena)@.request(block::<T>(1)),
            r matches Some(copy) ==> {
                &&& copy.spec_offset() == old(arena)@.aligned_start(block::<T>(1))
                &&& copy@ == self@
            },
    {
        Box::from_value(arena, self.value)
    }
}

impl<T> Deref for Box<T> {
    type Target = T;

    /// The value in the slot.
    fn deref(&self) -> (r: &T)
        ensures
            *r == self@,
    {
        &self.value
    }
}

impl<T> DerefMut for Box<T> {
    /// The value in the slot, to change it.
    fn deref_mut(&mut self) -> (r: &mut T)
        ensures
            *r == old(self)@,
            final(self)@ == *final(r),
            final(self).spec_offset() == old(self).spec_offset(),
    {
        &mut self.value
    }
}

} // verus!
