//! An append-only string whose bytes are reserved in an arena.

use crate::arena::{block, Arena, Request};
use crate::array::Array;
use crate::order::{compare_bytes, lemma_equal_is_same, lex_order};
use core::cmp::Ordering;
use core::ops::Deref;
use vstd::prelude::*;
use vstd::std_specs::cmp::{PartialEqSpecImpl, PartialOrdSpecImpl};
use vstd::utf8::{
    decode_utf8, decode_utf8_encode_utf8, encode_utf8, encode_utf8_decode_utf8,
    encode_utf8_valid_utf8, valid_utf8, valid_utf8_concat,
};

verus! {

/// The request for the bytes of `text`.
pub open spec fn text_block(text: Seq<char>) -> Request {
    block::<u8>(encode_utf8(text).len())
}

/// What `bytes` are once `more` is appended to them in `capacity` slots: all
/// of `more` is there, or none of it.
pub open spec fn appended(bytes: Seq<u8>, capacity: nat, more: Seq<u8>) -> Seq<u8> {
    if bytes.len() + more.len() <= capacity {
        bytes + more
    } else {
        bytes
    }
}

/// What `bytes` are once each of `inputs` is appended in turn.
pub open spec fn appended_all(bytes: Seq<u8>, capacity: nat, inputs: Seq<Seq<u8>>) -> Seq<u8>
    decreases inputs.len(),
{
    if inputs.len() == 0 {
        bytes
    } else {
        appended_all(appended(bytes, capacity, inputs[0]), capacity, inputs.drop_first())
    }
}

/// Appends that fit together in the capacity leave the inputs joined in
/// order behind what was there.
pub proof fn lemma_appends_join(bytes: Seq<u8>, capacity: nat, inputs: Seq<Seq<u8>>)
    requires
        bytes.len() + inputs.flatten().len() <= capacity,
    ensures
        appended_all(bytes, capacity, inputs) == bytes + inputs.flatten(),
    decreases inputs.len(),
{
    if inputs.len() == 0 {
        assert(inputs.flatten() =~= Seq::<u8>::empty());
        assert(bytes + inputs.flatten() =~= bytes);
    } else {
        let first = inputs[0];
        let rest = inputs.drop_first();
        assert(inputs.flatten() =~= first + rest.flatten());
        lemma_appends_join(bytes + first, capacity, rest);
        assert((bytes + first) + rest.flatten() =~= bytes + inputs.flatten());
    }
}

/// An append that does not fit leaves every byte as it was.
pub proof fn lemma_overflow_keeps_bytes(bytes: Seq<u8>, capacity: nat, more: Seq<u8>)
    requires
        bytes.len() + more.len() > capacity,
    ensures
        appended(bytes, capacity, more) == bytes,
{
}

/// The encoding of two texts in a row is the two encodings in a row.
pub proof fn lemma_encode_joins(first: Seq<char>, second: Seq<char>)
    ensures
        encode_utf8(first + second) == encode_utf8(first) + encode_utf8(second),
    decreases first.len(),
{
    if first.len() == 0 {
        assert(first + second =~= second);
        assert(encode_utf8(first) + encode_utf8(second) =~= encode_utf8(second));
    } else {
        lemma_encode_joins(first.drop_first(), second);
        assert((first + second).drop_first() =~= first.drop_first() + second);
        assert((first + second)[0] == first[0]);
        assert(encode_utf8(first + second) =~= encode_utf8(first) + encode_utf8(second));
    }
}

/// Two runs of valid UTF-8 in a row are valid UTF-8, and decode to the two
/// texts in a row.
pub proof fn lemma_decode_joins(first: Seq<u8>, second: Seq<u8>)
    requires
        valid_utf8(first),
        valid_utf8(second),
    ensures
        valid_utf8(first + second),
        decode_utf8(first + second) == decode_utf8(first) + decode_utf8(second),
{
    valid_utf8_concat(first, second);
    decode_utf8_encode_utf8(first);
    decode_utf8_encode_utf8(second);
    lemma_encode_joins(decode_utf8(first), decode_utf8(second));
    encode_utf8_decode_utf8(decode_utf8(first) + decode_utf8(second));
}

/// The encodings of `texts`, one for one.
pub open spec fn encoded_all(texts: Seq<Seq<char>>) -> Seq<Seq<u8>> {
    Seq::new(texts.len(), |i: int| encode_utf8(texts[i]))
}

/// The encodings of texts in a row are the encoding of the texts in a row.
pub proof fn lemma_encoded_all_joins(texts: Seq<Seq<char>>)
    ensures
        encoded_all(texts).flatten() == encode_utf8(texts.flatten()),
    decreases texts.len(),
{
    if texts.len() == 0 {
        assert(encoded_all(texts).flatten() =~= Seq::<u8>::empty());
        assert(texts.flatten() =~= Seq::<char>::empty());
    } else {
        let rest = texts.drop_first();
        lemma_encoded_all_joins(rest);
        assert(encoded_all(texts).drop_first() =~= encoded_all(rest));
        assert(encoded_all(texts).flatten() =~= encode_utf8(texts[0]) + encoded_all(
            rest,
        ).flatten());
        assert(texts.flatten() =~= texts[0] + rest.flatten());
        lemma_encode_joins(texts[0], rest.flatten());
    }
}

/// Texts that are appended to an empty string and fit together in its
/// capacity leave the string with the texts joined in order.
pub proof fn lemma_appended_texts_join(capacity: nat, texts: Seq<Seq<char>>)
    requires
        encode_utf8(texts.flatten()).len() <= capacity,
    ensures
        valid_utf8(appended_all(Seq::empty(), capacity, encoded_all(texts))),
        decode_utf8(appended_all(Seq::empty(), capacity, encoded_all(texts))) == texts.flatten(),
{
    lemma_encoded_all_joins(texts);
    lemma_appends_join(Seq::empty(), capacity, encoded_all(texts));
    assert(Seq::<u8>::empty() + encoded_all(texts).flatten() =~= encoded_all(texts).flatten());
    encode_utf8_valid_utf8(texts.flatten());
    encode_utf8_decode_utf8(texts.flatten());
}

/// `core::str::from_utf8`: the text that `bytes` hold. There is one exactly
/// when the bytes are valid UTF-8, and its encoding is those bytes.
#[verifier::external_body]
fn utf8_text(bytes: &[u8]) -> (r: Option<&str>)
    ensures
        r is Some <==> valid_utf8(bytes@),
        r matches Some(text) ==> encode_utf8(text@) == bytes@,
{
    match core::str::from_utf8(bytes) {
        Ok(text) => Some(text),
        Err(_) => None,
    }
}

/// What `{:?}` writes for a text: the text in double quotes, with what does
/// not print escaped.
pub uninterp spec fn debug_text(text: Seq<char>) -> Seq<char>;

/// `format!("{:?}", text)`, which is `<str as core::fmt::Debug>::fmt` into a
/// fresh `String`: what it writes, which the text alone decides.
#[verifier::external_body]
fn quoted(text: &str) -> (r: String)
    ensures
        r@ == debug_text(text@),
{
    format!("{:?}", text)
}

/// An append did not fit in the capacity that is left.
#[derive(Debug, Clone, Copy, PartialEq, Eq)]
pub struct CapacityExceeded;

/// A string of at most `capacity` bytes reserved in an arena. Text that is
/// appended as `&str` keeps it valid UTF-8; bytes that come in as a slice or
/// an array are taken as they are.
#[derive(Debug)]
pub struct ArenaString {
    inner: Array<u8>,
}

impl View for ArenaString {
    type V = Seq<u8>;

    /// The bytes of the string.
    open spec fn view(&self) -> Seq<u8> {
        self.inner()@
    }
}

impl ArenaString {
    /// The array that holds the bytes.
    pub closed spec fn inner(&self) -> Array<u8> {
        self.inner
    }

    /// How many bytes the string can hold.
    pub open spec fn spec_capacity(&self) -> nat {
        self.inner().slots().len()
    }

    /// Whether the bytes are valid UTF-8.
    pub open spec fn is_utf8(&self) -> bool {
        valid_utf8(self@)
    }

    /// The text that the bytes encode, where they are valid UTF-8.
    pub open spec fn text(&self) -> Seq<char>
        recommends
            self.is_utf8(),
    {
        decode_utf8(self@)
    }

    /// The text that the string reads as: what the bytes encode, and nothing
    /// where they are not valid UTF-8.
    pub open spec fn shown(&self) -> Seq<char> {
        if self.is_utf8() {
            self.text()
        } else {
            Seq::empty()
        }
    }

    /// An empty string that can hold `capacity` bytes. There is none where
    /// the bytes do not fit in the arena.
    pub fn new(arena: &mut Arena, capacity: usize) -> (r: Option<Self>)
        ensures
            r is Some <==> old(arena)@.fits(block::<u8>(capacity as nat)),
            final(arena)@ == old(arena)@.request(block::<u8>(capacity as nat)),
            r matches Some(string) ==> {
                &&& string@ == Seq::<u8>::empty()
                &&& string.spec_capacity() == capacity
                &&& string.inner().wf()
                &&& string.inner().spec_offset() == old(arena)@.aligned_start(
                    block::<u8>(capacity as nat),
                )
            },
    {
        match Array::new(arena, 0, capacity) {
            Some(inner) => Some(ArenaString { inner }),
            None => None,
        }
    }

    /// A string that holds the bytes of `slice` and has room for no more.
    /// There is none where the bytes do not fit in the arena.
    pub fn from_slice(arena: &mut Arena, slice: &[u8]) -> (r: Option<Self>)
        ensures
            r is Some <==> old(arena)@.fits(block::<u8>(slice@.len())),
            final(arena)@ == old(arena)@.request(block::<u8>(slice@.len())),
            r matches Some(string) ==> {
                &&& string@ == slice@
                &&& string.spec_capacity() == slice@.len()
                &&& string.inner().wf()
                &&& string.inner().spec_offset() == old(arena)@.aligned_start(
                    block::<u8>(slice@.len()),
                )
            },
    {
        match Array::from_slice(arena, slice) {
            Some(inner) => Some(ArenaString { inner }),
            None => None,
        }
    }

    /// A string that holds `text` and has room for no more. There is none
    /// where the bytes of `text` do not fit in the arena.
    pub fn from_str(arena: &mut Arena, text: &str) -> (r: Option<Self>)
        ensures
            r is Some <==> old(arena)@.fits(text_block(text@)),
            final(arena)@ == old(arena)@.request(text_block(text@)),
            r matches Some(string) ==> {
                &&& string@ == encode_utf8(text@)
                &&& string.is_utf8()
                &&& string.text() == text@
                &&& string.spec_capacity() == string@.len()
                &&& string.inner().wf()
                &&& string.inner().spec_offset() == old(arena)@.aligned_start(
                    text_block(text@),
                )
            },
    {
        proof {
            encode_utf8_valid_utf8(text@);
            encode_utf8_decode_utf8(text@);
        }
        ArenaString::from_slice(arena, text.as_bytes())
    }

    /// The string whose bytes are the populated slots of `inner`.
    pub fn from_array(inner: Array<u8>) -> (r: Self)
        ensures
            r.inner() == inner,
    {
        ArenaString { inner }
    }

    /// How many bytes the string holds.
    pub fn len(&self) -> (r: usize)
        ensures
            r == self@.len(),
    {
        self.inner.len()
    }

    /// How many bytes the string can hold.
    pub fn capacity(&self) -> (r: usize)
        ensures
            r == self.spec_capacity(),
            self@.len() <= self.spec_capacity(),
    {
        self.inner.capacity()
    }

    /// Whether the string holds no byte.
    pub fn is_empty(&self) -> (r: bool)
        ensures
            r <==> self@.len() == 0,
    {
        self.inner.is_empty()
    }

    /// Empties the string. Its capacity stays.
    pub fn clear(&mut self)
        ensures
            final(self)@ == Seq::<u8>::empty(),
            final(self).spec_capacity() == old(self).spec_capacity(),
            final(self).inner().spec_offset() == old(self).inner().spec_offset(),
            final(self).inner().wf(),
    {
        self.inner.clear();
    }

    /// Appends `text`, all of it or none: where its bytes do not fit in what
    /// is left of the capacity the string stays as it was. Returns the new
    /// length in bytes.
    pub fn concat(&mut self, text: &str) -> (r: Option<usize>)
        ensures
            r is Some <==> old(self)@.len() + encode_utf8(text@).len() <= old(self).spec_capacity(),
            r matches Some(new_len) ==> new_len == old(self)@.len() + encode_utf8(text@).len(),
            final(self)@ == appended(old(self)@, old(self).spec_capacity(), encode_utf8(text@)),
            r is Some && old(self).is_utf8() ==> {
                &&& final(self).is_utf8()
                &&& final(self).text() == old(self).text() + text@
            },
            final(self).spec_capacity() == old(self).spec_capacity(),
            final(self).inner().spec_offset() == old(self).inner().spec_offset(),
            final(self).inner().wf(),
    {
        proof {
            encode_utf8_valid_utf8(text@);
            encode_utf8_decode_utf8(text@);
            if valid_utf8(self@) {
                lemma_decode_joins(self@, encode_utf8(text@));
            }
        }
        self.inner.concat(text.as_bytes())
    }

    /// Appends `text` as `concat` does, for a writer of formatted text: an
    /// append that does not fit is an error, and the string stays as it was.
    pub fn write_str(&mut self, text: &str) -> (r: Result<(), CapacityExceeded>)
        ensures
            r is Ok <==> old(self)@.len() + encode_utf8(text@).len() <= old(self).spec_capacity(),
            final(self)@ == appended(old(self)@, old(self).spec_capacity(), encode_utf8(text@)),
            r is Ok && old(self).is_utf8() ==> {
                &&& final(self).is_utf8()
                &&& final(self).text() == old(self).text() + text@
            },
            final(self).spec_capacity() == old(self).spec_capacity(),
            final(self).inner().spec_offset() == old(self).inner().spec_offset(),
            final(self).inner().wf(),
    {
        match self.concat(text) {
            Some(_) => Ok(()),
            None => Err(CapacityExceeded),
        }
    }

    /// The bytes of the string.
    pub fn as_bytes(&self) -> (r: &[u8])
        ensures
            r@ == self@,
    {
        self.inner.as_ref()
    }

    /// The text of the string. Bytes that are not valid UTF-8 read as the
    /// empty text.
    pub fn as_str(&self) -> (r: &str)
        ensures
            r@ == self.shown(),
            self.is_utf8() ==> encode_utf8(r@) == self@,
    {
        match utf8_text(self.inner.as_ref()) {
            Some(text) => {
                proof {
                    encode_utf8_decode_utf8(text@);
                }
                text
            },
            None => {
                proof {
                    reveal_strlit("");
                    assert(""@ =~= Seq::<char>::empty());
                }
                ""
            },
        }
    }

    /// The text of the string, as `as_str` gives it.
    pub fn as_ref(&self) -> (r: &str)
        ensures
            r@ == self.shown(),
            self.is_utf8() ==> encode_utf8(r@) == self@,
    {
        self.as_str()
    }

    /// The text of the string in a `String` of its own.
    pub fn to_string(&self) -> (r: String)
        ensures
            r@ == self.shown(),
    {
        self.as_str().to_owned()
    }

    /// The text of the string as `{:?}` writes a text: in double quotes,
    /// with what does not print escaped.
    pub fn to_debug_string(&self) -> (r: String)
        ensures
            r@ == debug_text(self.shown()),
    {
        quoted(self.as_str())
    }

    /// A copy of the string with bytes of its own, reserved in `arena`; the
    /// copy has room for no more. There is none where the bytes do not fit in
    /// the arena.
    pub fn clone(&self, arena: &mut Arena) -> (r: Option<Self>)
        ensures
            r is Some <==> old(arena)@.fits(block::<u8>(self@.len())),
            final(arena)@ == old(arena)@.request(block::<u8>(self@.len())),
            r matches Some(copy) ==> {
                &&& copy@ == self@
                &&& copy.spec_capacity() == self@.len()
                &&& copy.inner().wf()
                &&& copy.inner().spec_offset() == old(arena)@.aligned_start(
                    block::<u8>(self@.len()),
                )
            },
    {
        ArenaString::from_slice(arena, self.inner.as_ref())
    }

    /// How the string stands to `other`: the bytes are compared one by one
    /// from the front, and a string stands before every longer one that it
    /// begins.
    pub fn cmp(&self, other: &Self) -> (r: Ordering)
        ensures
            r == lex_order(self@, other@),
    {
        compare_bytes(self.inner.as_ref(), other.inner.as_ref())
    }
}

impl Default for ArenaString {
    /// A string without a byte that can hold none, reserved nowhere.
    fn default() -> (r: Self)
        ensures
            r@ == Seq::<u8>::empty(),
            r.spec_capacity() == 0,
    {
        ArenaString { inner: Array::default() }
    }
}

impl PartialEq for ArenaString {
    /// Whether the two strings hold the same bytes.
    fn eq(&self, other: &Self) -> (r: bool) {
        proof {
            lemma_equal_is_same(self@, other@);
        }
        match compare_bytes(self.inner.as_ref(), other.inner.as_ref()) {
            Ordering::Equal => true,
            _ => false,
        }
    }
}

impl PartialEqSpecImpl for ArenaString {
    open spec fn obeys_eq_spec() -> bool {
        true
    }

    open spec fn eq_spec(&self, other: &Self) -> bool {
        self@ == other@
    }
}

impl Eq for ArenaString {

}

impl PartialEq<str> for ArenaString {
    /// Whether the string holds the bytes of `other`.
    fn eq(&self, other: &str) -> (r: bool) {
        proof {
            lemma_equal_is_same(self@, encode_utf8(other@));
        }
        match compare_bytes(self.inner.as_ref(), other.as_bytes()) {
            Ordering::Equal => true,
            _ => false,
        }
    }
}

impl PartialEqSpecImpl<str> for ArenaString {
    open spec fn obeys_eq_spec() -> bool {
        true
    }

    open spec fn eq_spec(&self, other: &str) -> bool {
        self@ == encode_utf8(other@)
    }
}

impl PartialOrd for ArenaString {
    /// How the string stands to `other`, as `cmp` says.
    fn partial_cmp(&self, other: &Self) -> (r: Option<Ordering>) {
        Some(self.cmp(other))
    }
}

impl PartialOrdSpecImpl for ArenaString {
    open spec fn obeys_partial_cmp_spec() -> bool {
        true
    }

    open spec fn partial_cmp_spec(&self, other: &Self) -> Option<Ordering> {
        Some(lex_order(self@, other@))
    }
}

impl Deref for ArenaString {
    type Target = str;

    /// The text of the string, as `as_str` gives it.
    fn deref(&self) -> (r: &str)
        ensures
            r@ == self.shown(),
            self.is_utf8() ==> encode_utf8(r@) == self@,
    {
        self.as_str()
    }
}

} // verus!
