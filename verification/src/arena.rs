//! The arena: a fixed budget of bytes that is handed out front to back and
//! taken back all at once.

use crate::align::{align_up, lemma_align_up_least_multiple, round_up};
use crate::array::Array;
use crate::boxed::Box;
use crate::list::List;
use crate::string::{text_block, ArenaString};
use crate::table::{ArenaTable, Entry, Key};
use vstd::utf8::encode_utf8;
use vstd::layout::align_properties;
use vstd::prelude::*;

verus! {

/// An arena as three numbers: how many bytes it has, how many of them are
/// handed out, and how many resets followed an allocation.
pub struct ArenaView {
    pub size: nat,
    pub occupied: nat,
    pub generation: nat,
}

/// One allocation request: `bytes` bytes that start at a multiple of `align`.
pub struct Request {
    pub align: nat,
    pub bytes: nat,
}

/// The request for `len` values of `T` in a row.
pub open spec fn block<T>(len: nat) -> Request {
    Request {
        align: vstd::layout::align_of::<T>(),
        bytes: (vstd::layout::size_of::<T>() * len) as nat,
    }
}

impl ArenaView {
    /// No more is handed out than there is.
    pub open spec fn wf(self) -> bool {
        self.occupied <= self.size
    }

    /// Where the requested block would start.
    pub open spec fn aligned_start(self, request: Request) -> nat {
        align_up(self.occupied, request.align)
    }

    /// Where the requested block would end.
    pub open spec fn aligned_end(self, request: Request) -> nat {
        self.aligned_start(request) + request.bytes
    }

    /// Whether the requested block still fits.
    pub open spec fn fits(self, request: Request) -> bool {
        self.aligned_end(request) <= self.size
    }

    /// The arena once the requested block is handed out.
    pub open spec fn grant(self, request: Request) -> ArenaView {
        ArenaView { occupied: self.aligned_end(request), ..self }
    }

    /// The arena after a request: the block is handed out where it fits, and
    /// nothing changes where it does not.
    pub open spec fn request(self, request: Request) -> ArenaView {
        if self.fits(request) {
            self.grant(request)
        } else {
            self
        }
    }

    /// The arena after a reset: nothing is handed out, and the generation
    /// counts the reset if anything was.
    pub open spec fn reset(self) -> ArenaView {
        ArenaView {
            occupied: 0,
            generation: if self.occupied > 0 {
                self.generation + 1
            } else {
                self.generation
            },
            ..self
        }
    }

    /// The arena after the requests are served in order, up to the first one
    /// that does not fit.
    pub open spec fn serve(self, requests: Seq<Request>) -> ArenaView
        decreases requests.len(),
    {
        if requests.len() == 0 {
            self
        } else if self.fits(requests[0]) {
            self.grant(requests[0]).serve(requests.drop_first())
        } else {
            self
        }
    }

    /// The bytes that serving the requests takes, padding included, up to the
    /// first one that does not fit.
    pub open spec fn granted(self, requests: Seq<Request>) -> nat
        decreases requests.len(),
    {
        if requests.len() == 0 {
            0
        } else if self.fits(requests[0]) {
            let next = self.grant(requests[0]);
            (next.occupied - self.occupied) as nat + next.granted(requests.drop_first())
        } else {
            0
        }
    }
}

/// Whatever is requested of an arena, in whatever order, what is granted
/// before the first refusal is what the cursor moved by, and the cursor
/// never passes the arena's size.
pub proof fn lemma_granted_within_size(arena: ArenaView, requests: Seq<Request>)
    requires
        arena.wf(),
        forall|i: int| 0 <= i < requests.len() ==> (#[trigger] requests[i]).align > 0,
    ensures
        arena.serve(requests).wf(),
        arena.serve(requests).size == arena.size,
        arena.occupied + arena.granted(requests) == arena.serve(requests).occupied,
        arena.granted(requests) <= arena.size - arena.occupied,
    decreases requests.len(),
{
    if requests.len() > 0 && arena.fits(requests[0]) {
        let first = requests[0];
        lemma_align_up_least_multiple(arena.occupied, first.align);
        let next = arena.grant(first);
        let rest = requests.drop_first();
        assert forall|i: int| 0 <= i < rest.len() implies (#[trigger] rest[i]).align > 0 by {
            assert(rest[i] == requests[i + 1]);
        }
        lemma_granted_within_size(next, rest);
    }
}

/// A block that is granted lies behind everything that was handed out
/// before it, and within what is handed out after it.
pub proof fn lemma_block_lies_within(arena: ArenaView, request: Request)
    requires
        arena.wf(),
        request.align > 0,
        arena.fits(request),
    ensures
        arena.occupied <= arena.aligned_start(request),
        arena.aligned_start(request) + request.bytes == arena.grant(request).occupied,
        arena.grant(request).occupied <= arena.size,
        arena.grant(request).generation == arena.generation,
{
    lemma_align_up_least_multiple(arena.occupied, request.align);
}

/// A request that does not fit leaves the arena as it was.
pub proof fn lemma_refusal_changes_nothing(arena: ArenaView, request: Request)
    requires
        !arena.fits(request),
    ensures
        arena.request(request) == arena,
{
}

/// A reset empties the arena, and counts as a generation exactly when
/// something had been handed out.
pub proof fn lemma_reset_counts_use(arena: ArenaView)
    ensures
        arena.reset().occupied == 0,
        arena.reset().size == arena.size,
        arena.reset().generation == arena.generation + 1 <==> arena.occupied > 0,
        arena.reset().generation == arena.generation <==> arena.occupied == 0,
{
}

/// A fixed-size region of bytes. Blocks are handed out front to back, each
/// at the alignment of its type; nothing is given back but by `reset`.
#[derive(Debug, PartialEq, PartialOrd, Eq, Ord)]
pub struct Arena {
    size: usize,
    offset: usize,
    generation: usize,
}

impl View for Arena {
    type V = ArenaView;

    closed spec fn view(&self) -> ArenaView {
        ArenaView {
            size: self.size as nat,
            occupied: self.offset as nat,
            generation: self.generation as nat,
        }
    }
}

impl Arena {
    #[verifier::type_invariant]
    spec fn inv(self) -> bool {
        self.offset <= self.size
    }

    /// An arena of `size` bytes, none of them handed out.
    pub fn new(size: usize) -> (arena: Arena)
        ensures
            arena@ == (ArenaView { size: size as nat, occupied: 0, generation: 0 }),
    {
        Arena { size, offset: 0, generation: 0 }
    }

    /// Where `len` values of `T` would start and end if everything before
    /// `from` were handed out; `None` where they would end behind the arena.
    fn span<T>(&self, from: usize, len: usize) -> (r: Option<(usize, usize)>)
        ensures
            match r {
                Some((start, end)) => {
                    &&& start == align_up(from as nat, block::<T>(len as nat).align)
                    &&& end == start + block::<T>(len as nat).bytes
                    &&& end <= self@.size
                },
                None => align_up(from as nat, block::<T>(len as nat).align) + block::<T>(
                    len as nat,
                ).bytes > self@.size,
            },
    {
        proof {
            broadcast use align_properties;
        }
        let size: usize = core::mem::size_of::<T>();
        let align: usize = core::mem::align_of::<T>();
        let start: usize = match round_up(from, align) {
            Some(start) => start,
            None => {
                return None;
            },
        };
        let bytes: usize = match size.checked_mul(len) {
            Some(bytes) => bytes,
            None => {
                return None;
            },
        };
        let end: usize = match start.checked_add(bytes) {
            Some(end) => end,
            None => {
                return None;
            },
        };
        if end <= self.size {
            Some((start, end))
        } else {
            None
        }
    }

    /// Reserves room for `len` values of `T` at the alignment of `T` and
    /// returns the offset at which they start. Where they do not fit, nothing
    /// is reserved.
    pub fn allocate<T>(&mut self, len: usize) -> (r: Option<usize>)
        ensures
            r is Some <==> old(self)@.fits(block::<T>(len as nat)),
            r matches Some(at) ==> at == old(self)@.aligned_start(block::<T>(len as nat)),
            final(self)@ == old(self)@.request(block::<T>(len as nat)),
            final(self)@.wf(),
    {
        proof {
            use_type_invariant(&*self);
        }
        match self.span::<T>(self.offset, len) {
            Some((start, end)) => {
                self.offset = end;
                Some(start)
            },
            None => None,
        }
    }

    /// Whether `first` values of `A` and, behind them, `second` values of `B`
    /// both fit in what is left of the arena.
    pub(crate) fn fits_both<A, B>(&self, first: usize, second: usize) -> (r: bool)
        ensures
            r <==> self@.fits(block::<A>(first as nat)) && self@.grant(
                block::<A>(first as nat),
            ).fits(block::<B>(second as nat)),
    {
        match self.span::<A>(self.offset, first) {
            Some((_, end)) => self.span::<B>(end, second).is_some(),
            None => false,
        }
    }

    /// How many resets followed an allocation.
    pub fn generation(&self) -> (r: usize)
        ensures
            r == self@.generation,
    {
        self.generation
    }

    /// Takes every block back at once. The generation goes up by one if
    /// anything was handed out, and stays at `usize::MAX` once it is there.
    pub fn reset(&mut self)
        ensures
            final(self)@.size == old(self)@.size,
            final(self)@.occupied == 0,
            final(self)@.generation == if old(self)@.occupied > 0 && old(self)@.generation
                < usize::MAX {
                old(self)@.generation + 1
            } else {
                old(self)@.generation
            },
            old(self)@.generation < usize::MAX ==> final(self)@ == old(self)@.reset(),
            final(self)@.wf(),
    {
        proof {
            use_type_invariant(&*self);
        }
        if self.offset > 0 && self.generation < usize::MAX {
            self.generation = self.generation + 1;
        }
        self.offset = 0;
    }

    /// The number of bytes the arena has.
    pub fn size(&self) -> (r: usize)
        ensures
            r == self@.size,
    {
        self.size
    }

    /// The number of bytes handed out, padding included.
    pub fn occupied(&self) -> (r: usize)
        ensures
            r == self@.occupied,
            self@.wf(),
    {
        proof {
            use_type_invariant(self);
        }
        self.offset
    }

    /// Whether every byte is handed out.
    pub fn is_full(&self) -> (r: bool)
        ensures
            r <==> self@.occupied == self@.size,
    {
        self.occupied() == self.size()
    }

    /// A box with a slot of its own, which starts out with `T::default()`.
    pub fn make_box<T: Default>(&mut self) -> (r: Option<Box<T>>)
        ensures
            r is Some <==> old(self)@.fits(block::<T>(1)),
            final(self)@ == old(self)@.request(block::<T>(1)),
            r matches Some(boxed) ==> {
                &&& boxed.spec_offset() == old(self)@.aligned_start(block::<T>(1))
                &&& call_ensures(T::default, (), boxed@)
            },
    {
        Box::new(self)
    }

    /// An array of `capacity` slots, none of them populated.
    pub fn make_array<T: Default>(&mut self, capacity: usize) -> (r: Option<Array<T>>)
        ensures
            r is Some <==> old(self)@.fits(block::<T>(capacity as nat)),
            final(self)@ == old(self)@.request(block::<T>(capacity as nat)),
            r matches Some(array) ==> {
                &&& array.wf()
                &&& array@ == Seq::<T>::empty()
                &&& array.spec_len() == 0
                &&& array.slots().len() == capacity
                &&& array.spec_offset() == old(self)@.aligned_start(block::<T>(capacity as nat))
            },
    {
        Array::new(self, 0, capacity)
    }

    /// An empty string that can hold `capacity` bytes.
    pub fn make_string(&mut self, capacity: usize) -> (r: Option<ArenaString>)
        ensures
            r is Some <==> old(self)@.fits(block::<u8>(capacity as nat)),
            final(self)@ == old(self)@.request(block::<u8>(capacity as nat)),
            r matches Some(string) ==> {
                &&& string@ == Seq::<u8>::empty()
                &&& string.spec_capacity() == capacity
                &&& string.inner().wf()
                &&& string.inner().spec_offset() == old(self)@.aligned_start(
                    block::<u8>(capacity as nat),
                )
            },
    {
        ArenaString::new(self, capacity)
    }

    /// An empty table for `capacity` entries, with room for so many keys
    /// and, behind them, for so many values. Where not both fit there is no
    /// table, and nothing is reserved.
    pub fn make_table<V: Default>(&mut self, capacity: usize) -> (r: Option<ArenaTable<V>>)
        ensures
            r is Some <==> old(self)@.fits(block::<Key>(capacity as nat)) && old(self)@.grant(
                block::<Key>(capacity as nat),
            ).fits(block::<V>(capacity as nat)),
            r is Some ==> final(self)@ == old(self)@.grant(block::<Key>(capacity as nat)).grant(
                block::<V>(capacity as nat),
            ),
            r is None ==> final(self)@ == old(self)@,
            r matches Some(table) ==> {
                &&& table.wf()
                &&& table@ == Seq::<Entry<V>>::empty()
                &&& table.spec_capacity() == capacity
            },
    {
        ArenaTable::new(self, capacity)
    }

    /// An empty list, bound to the generation that the arena is in. The list
    /// reserves nothing until a value is pushed.
    pub fn make_list<T>(&self) -> (r: Option<List<T>>)
        ensures
            r matches Some(list) && list.wf() && list@ == Seq::<T>::empty()
                && list.spec_generation() == self@.generation && list.pool_len() == 0,
    {
        Some(List::new(self))
    }

    /// A box that holds `value` in a slot of its own. Where the slot does
    /// not fit, the value is dropped.
    pub fn push<T>(&mut self, value: T) -> (r: Option<Box<T>>)
        ensures
            r is Some <==> old(self)@.fits(block::<T>(1)),
            final(self)@ == old(self)@.request(block::<T>(1)),
            r matches Some(boxed) ==> {
                &&& boxed.spec_offset() == old(self)@.aligned_start(block::<T>(1))
                &&& boxed@ == value
            },
    {
        Box::from_value(self, value)
    }

    /// An array that holds a copy of `values` and has no free slot.
    pub fn push_array<T: Copy>(&mut self, values: &[T]) -> (r: Option<Array<T>>)
        ensures
            r is Some <==> old(self)@.fits(block::<T>(values@.len())),
            final(self)@ == old(self)@.request(block::<T>(values@.len())),
            r matches Some(array) ==> {
                &&& array.wf()
                &&& array@ == values@
                &&& array.slots() == values@
                &&& array.spec_offset() == old(self)@.aligned_start(block::<T>(values@.len()))
            },
    {
        Array::from_slice(self, values)
    }

    /// A string that holds a copy of `text` and has room for no more.
    pub fn push_string(&mut self, text: &str) -> (r: Option<ArenaString>)
        ensures
            r is Some <==> old(self)@.fits(text_block(text@)),
            final(self)@ == old(self)@.request(text_block(text@)),
            r matches Some(string) ==> {
                &&& string@ == encode_utf8(text@)
                &&& string.is_utf8()
                &&& string.text() == text@
                &&& string.spec_capacity() == string@.len()
                &&& string.inner().wf()
                &&& string.inner().spec_offset() == old(self)@.aligned_start(
                    text_block(text@),
                )
            },
    {
        ArenaString::from_str(self, text)
    }
}

} // verus!
