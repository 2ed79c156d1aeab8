//! A fixed-capacity array whose slots are reserved in an arena.

use crate::arena::{block, Arena};
use core::ops::Deref;
use vstd::prelude::*;

verus! {

/// An array of `capacity` slots reserved in an arena, of which the first
/// `len` are populated. The capacity is fixed when the array is made.
#[derive(Debug, PartialEq, PartialOrd, Eq, Ord)]
pub struct Array<T> {
    offset: usize,
    slots: Vec<T>,
    len: usize,
}

impl<T> View for Array<T> {
    type V = Seq<T>;

    /// The populated slots, in order.
    open spec fn view(&self) -> Seq<T> {
        self.slots().take(self.spec_len() as int)
    }
}

impl<T> Array<T> {
    #[verifier::type_invariant]
    spec fn inv(self) -> bool {
        self.len <= self.slots.len()
    }

    /// Every slot of the array, populated or not.
    pub closed spec fn slots(&self) -> Seq<T> {
        self.slots@
    }

    /// How many slots are populated.
    pub closed spec fn spec_len(&self) -> nat {
        self.len as nat
    }

    /// Where in the arena the slots start.
    pub closed spec fn spec_offset(&self) -> nat {
        self.offset as nat
    }

    /// The populated slots are among the slots.
    pub open spec fn wf(&self) -> bool {
        self.spec_len() <= self.slots().len()
    }

    /// Whether `other` has the slots, the length and the place of `self`.
    pub open spec fn same(&self, other: &Self) -> bool {
        &&& self.slots() == other.slots()
        &&& self.spec_len() == other.spec_len()
        &&& self.spec_offset() == other.spec_offset()
    }

    /// Reserves `capacity` slots in `arena` and marks the first `len` of them
    /// as populated. Every slot starts out with `T::default()`. There is no
    /// array where `len` exceeds `capacity` or the slots do not fit in the
    /// arena, and the arena is then left as it was.
    pub fn new(arena: &mut Arena, len: usize, capacity: usize) -> (r: Option<Self>) where
        T: Default,

        ensures
            r is Some <==> len <= capacity && old(arena)@.fits(block::<T>(capacity as nat)),
            r is Some ==> final(arena)@ == old(arena)@.grant(block::<T>(capacity as nat)),
            r is None ==> final(arena)@ == old(arena)@,
            r matches Some(array) ==> {
                &&& array.wf()
                &&& array.spec_len() == len
                &&& array.slots().len() == capacity
                &&& array.spec_offset() == old(arena)@.aligned_start(block::<T>(capacity as nat))
                &&& forall|i: int|
                    0 <= i < capacity ==> call_ensures(T::default, (), #[trigger] array.slots()[i])
            },
    {
        if capacity < len {
            return None;
        }
        let offset: usize = match arena.allocate::<T>(capacity) {
            Some(offset) => offset,
            None => {
                return None;
            },
        };
        let mut slots: Vec<T> = Vec::new();
        let mut i: usize = 0;
        while i < capacity
            invariant
                i <= capacity,
                slots@.len() == i,
                forall|j: int| 0 <= j < i ==> call_ensures(T::default, (), #[trigger] slots@[j]),
            decreases capacity - i,
        {
            slots.push(T::default());
            i += 1;
        }
        Some(Array { offset, slots, len })
    }

    /// Reserves as many slots as `slice` has items and copies the items into
    /// them. There is no array where the slots do not fit in the arena.
    pub fn from_slice(arena: &mut Arena, slice: &[T]) -> (r: Option<Self>) where T: Copy
        ensures
            r is Some <==> old(arena)@.fits(block::<T>(slice@.len())),
            final(arena)@ == old(arena)@.request(block::<T>(slice@.len())),
            r matches Some(array) ==> {
                &&& array.wf()
                &&& array@ == slice@
                &&& array.slots() == slice@
                &&& array.spec_offset() == old(arena)@.aligned_start(block::<T>(slice@.len()))
            },
    {
        let len: usize = slice.len();
        let offset: usize = match arena.allocate::<T>(len) {
            Some(offset) => offset,
            None => {
                return None;
            },
        };
        let mut slots: Vec<T> = Vec::new();
        let mut i: usize = 0;
        while i < len
            invariant
                i <= len,
                len == slice@.len(),
                slots@ == slice@.take(i as int),
            decreases len - i,
        {
            slots.push(slice[i]);
            i += 1;
        }
        Some(Array { offset, slots, len })
    }

    /// Appends `value` where a slot is free. A full array drops the value and
    /// stays as it was.
    pub fn push(&mut self, value: T)
        ensures
            final(self).wf(),
            final(self).spec_offset() == old(self).spec_offset(),
            old(self).spec_len() < old(self).slots().len() ==> {
                &&& final(self)@ == old(self)@.push(value)
                &&& final(self).spec_len() == old(self).spec_len() + 1
                &&& final(self).slots() == old(self).slots().update(
                    old(self).spec_len() as int,
                    value,
                )
            },
            old(self).spec_len() >= old(self).slots().len() ==> final(self).same(old(self)),
    {
        proof {
            use_type_invariant(&*self);
        }
        let len: usize = self.len;
        if len < self.slots.len() {
            self.slots[len] = value;
            self.len = len + 1;
        }
    }

    /// Takes the last populated slot off the array and returns what it
    /// holds; `None` where no slot is populated.
    pub fn pop(&mut self) -> (r: Option<&T>)
        ensures
            final(self).wf(),
            final(self).slots() == old(self).slots(),
            final(self).spec_offset() == old(self).spec_offset(),
            old(self)@.len() > 0 ==> {
                &&& r == Some(&old(self)@.last())
                &&& final(self)@ == old(self)@.drop_last()
                &&& final(self).spec_len() == old(self).spec_len() - 1
            },
            old(self)@.len() == 0 ==> r is None && final(self).same(old(self)),
    {
        proof {
            use_type_invariant(&*self);
        }
        let len: usize = self.len;
        if len > 0 {
            self.len = len - 1;
            Some(&self.slots[len - 1])
        } else {
            None
        }
    }

    /// Appends all of `values`, or nothing: where they do not all fit in the
    /// free slots the array stays as it was. Returns the new length.
    pub fn concat(&mut self, values: &[T]) -> (r: Option<usize>) where T: Copy
        ensures
            final(self).wf(),
            final(self).spec_offset() == old(self).spec_offset(),
            r is Some <==> old(self)@.len() + values@.len() <= old(self).slots().len(),
            r matches Some(new_len) ==> {
                &&& new_len == old(self)@.len() + values@.len()
                &&& final(self).spec_len() == new_len
                &&& final(self)@ == old(self)@ + values@
                &&& final(self).slots() == old(self)@ + values@ + old(self).slots().skip(
                    new_len as int,
                )
            },
            r is None ==> final(self).same(old(self)),
    {
        proof {
            use_type_invariant(&*self);
        }
        let len: usize = self.len;
        let count: usize = values.len();
        if count > self.slots.len() - len {
            return None;
        }
        let mut i: usize = 0;
        while i < count
            invariant
                i <= count,
                count == values@.len(),
                len == self.len,
                self.offset == old(self).offset,
                len + count <= self.slots@.len() <= usize::MAX,
                self.slots@.len() == old(self).slots@.len(),
                self.slots@.take(len as int) == old(self).slots@.take(len as int),
                self.slots@.subrange(len as int, len + i) == values@.take(i as int),
                self.slots@.skip(len + i) == old(self).slots@.skip(len + i),
            decreases count - i,
        {
            let ghost before = self.slots@;
            self.slots[len + i] = values[i];
            proof {
                assert(self.slots@.take(len as int) =~= before.take(len as int));
                assert(self.slots@.subrange(len as int, len + i + 1) =~= before.subrange(
                    len as int,
                    len + i,
                ).push(values@[i as int]));
                assert(values@.take(i + 1) =~= values@.take(i as int).push(values@[i as int]));
                assert(self.slots@.skip(len + i + 1) =~= before.skip(len + i).skip(1));
                assert(old(self).slots@.skip(len + i + 1) =~= old(self).slots@.skip(len + i).skip(
                    1,
                ));
            }
            i += 1;
        }
        self.len = len + count;
        proof {
            let filled = self.slots@;
            assert(values@.take(count as int) =~= values@);
            assert(filled.take(len + count) =~= filled.take(len as int) + filled.subrange(
                len as int,
                len + count,
            ));
            assert(filled =~= filled.take(len + count) + filled.skip(len + count));
        }
        Some(len + count)
    }

    /// How many slots are populated.
    pub fn len(&self) -> (r: usize)
        ensures
            r == self@.len(),
            r == self.spec_len(),
            self.wf(),
    {
        proof {
            use_type_invariant(self);
        }
        self.len
    }

    /// How many slots the array has.
    pub fn capacity(&self) -> (r: usize)
        ensures
            r == self.slots().len(),
            self.wf(),
    {
        proof {
            use_type_invariant(self);
        }
        self.slots.len()
    }

    /// Whether no slot is populated.
    pub fn is_empty(&self) -> (r: bool)
        ensures
            r <==> self@.len() == 0,
            r <==> self.spec_len() == 0,
            self.wf(),
    {
        proof {
            use_type_invariant(self);
        }
        self.len == 0
    }

    /// Marks every slot as free. The slots keep what they hold.
    pub fn clear(&mut self)
        ensures
            final(self).wf(),
            final(self)@ == Seq::<T>::empty(),
            final(self).spec_len() == 0,
            final(self).slots() == old(self).slots(),
            final(self).spec_offset() == old(self).spec_offset(),
    {
        self.len = 0;
    }

    /// The first slot of the array; `None` where the array has no slot.
    pub fn as_ptr(&self) -> (r: Option<&T>)
        ensures
            r == (if self.slots().len() > 0 {
                Some(&self.slots()[0])
            } else {
                None
            }),
    {
        if self.slots.len() > 0 {
            Some(&self.slots[0])
        } else {
            None
        }
    }

    /// The first slot of the array, to write to; `None` where the array has
    /// no slot.
    pub fn as_mut_ptr(&mut self) -> (r: Option<&mut T>)
        ensures
            final(self).wf(),
            final(self).spec_len() == old(self).spec_len(),
            final(self).spec_offset() == old(self).spec_offset(),
            r is Some <==> old(self).slots().len() > 0,
            r matches Some(slot) ==> {
                &&& *slot == old(self).slots()[0]
                &&& final(self).slots() == old(self).slots().update(0, *final(slot))
            },
            r is None ==> final(self).slots() == old(self).slots(),
    {
        self.get_mut(0)
    }

    /// Where in the arena the slots start.
    pub fn offset(&self) -> (r: usize)
        ensures
            r == self.spec_offset(),
    {
        self.offset
    }

    /// The slot at `index`, populated or not; `None` past the last slot.
    pub fn get(&self, index: usize) -> (r: Option<&T>)
        ensures
            r == (if index < self.slots().len() {
                Some(&self.slots()[index as int])
            } else {
                None
            }),
    {
        if index < self.slots.len() {
            Some(&self.slots[index])
        } else {
            None
        }
    }

    /// The slot at `index`, populated or not, to write to; `None` past the
    /// last slot.
    pub fn get_mut(&mut self, index: usize) -> (r: Option<&mut T>)
        ensures
            final(self).wf(),
            final(self).spec_len() == old(self).spec_len(),
            final(self).spec_offset() == old(self).spec_offset(),
            r is Some <==> index < old(self).slots().len(),
            r matches Some(slot) ==> {
                &&& *slot == old(self).slots()[index as int]
                &&& final(self).slots() == old(self).slots().update(index as int, *final(slot))
            },
            r is None ==> final(self).slots() == old(self).slots(),
    {
        proof {
            use_type_invariant(&*self);
        }
        if index < self.slots.len() {
            Some(&mut self.slots[index])
        } else {
            None
        }
    }

    /// Writes `value` to the slot at `index`, populated or not, and says
    /// whether there is such a slot. The length stays as it is.
    pub fn set(&mut self, index: usize, value: T) -> (r: bool)
        ensures
            final(self).wf(),
            final(self).spec_len() == old(self).spec_len(),
            final(self).spec_offset() == old(self).spec_offset(),
            r <==> index < old(self).slots().len(),
            r ==> final(self).slots() == old(self).slots().update(index as int, value),
            !r ==> final(self).slots() == old(self).slots(),
    {
        proof {
            use_type_invariant(&*self);
        }
        if index < self.slots.len() {
            self.slots[index] = value;
            true
        } else {
            false
        }
    }

    /// The populated slots.
    pub fn as_ref(&self) -> (r: &[T])
        ensures
            r@ == self@,
    {
        proof {
            use_type_invariant(self);
        }
        vstd::slice::slice_subrange(self.slots.as_slice(), 0, self.len)
    }

    /// A copy of the populated slots in slots of its own, reserved in
    /// `arena`; the copy has no free slot. There is no copy where the slots do
    /// not fit in the arena.
    pub fn clone(&self, arena: &mut Arena) -> (r: Option<Self>) where T: Copy
        ensures
            r is Some <==> old(arena)@.fits(block::<T>(self@.len())),
            final(arena)@ == old(arena)@.request(block::<T>(self@.len())),
            r matches Some(copy) ==> {
                &&& copy.wf()
                &&& copy@ == self@
                &&& copy.slots() == self@
                &&& copy.spec_offset() == old(arena)@.aligned_start(block::<T>(self@.len()))
            },
    {
        Array::from_slice(arena, self.as_ref())
    }
}

impl<T> Default for Array<T> {
    /// An array without a slot, reserved nowhere.
    fn default() -> (r: Self)
        ensures
            r.slots() == Seq::<T>::empty(),
            r.spec_len() == 0,
            r.spec_offset() == 0,
    {
        Array { offset: 0, slots: Vec::new(), len: 0 }
    }
}

impl<T> core::ops::Index<usize> for Array<T> {
    type Output = T;

    /// The slot at `index`, populated or not.
    fn index(&self, index: usize) -> (r: &T)
        ensures
            *r == self.slots()[index as int],
    {
        &self.slots[index]
    }
}

impl<T> vstd::std_specs::core::IndexSpecImpl<usize> for Array<T> {
    open spec fn index_req(&self, index: &usize) -> bool {
        *index < self.slots().len()
    }
}

impl<T> core::ops::IndexMut<usize> for Array<T> {
    /// The slot at `index`, populated or not, to write to.
    fn index_mut(&mut self, index: usize) -> (r: &mut T)
        requires
            index < old(self).slots().len(),
        ensures
            *r == old(self).slots()[index as int],
            final(self).slots() == old(self).slots().update(index as int, *final(r)),
            final(self).spec_len() == old(self).spec_len(),
            final(self).spec_offset() == old(self).spec_offset(),
            final(self).wf(),
    {
        proof {
            use_type_invariant(&*self);
        }
        &mut self.slots[index]
    }
}

impl<T> Deref for Array<T> {
    type Target = [T];

    /// Every slot of the array, populated or not.
    fn deref(&self) -> (r: &[T])
        ensures
            r@ == self.slots(),
    {
        self.slots.as_slice()
    }
}

} // verus!
