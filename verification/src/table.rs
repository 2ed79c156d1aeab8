//! A table from text keys to values, of fixed capacity, that finds an entry
//! by the hash of its key alone.

use crate::arena::{block, Arena};
use crate::array::Array;
use crate::string::{text_block, ArenaString};
use vstd::prelude::*;

verus! {

/// The hash of a key: what `fxhash::hash` gives for its text. One build of
/// the library gives one text one hash; the width of `usize` and the byte
/// order of the target enter into its value.
pub uninterp spec fn key_hash(key: Seq<char>) -> usize;

/// `fxhash::hash` on a `&str`: the hash of the text, which the text alone
/// decides. Nothing is claimed of its value.
#[verifier::external_body]
fn hash_key(key: &str) -> (hash: usize)
    ensures
        hash == key_hash(key@),
{
    fxhash::hash(key)
}

/// A key as the table keeps it: a copy of the text, and its hash.
#[derive(Debug, PartialEq, PartialOrd, Eq)]
pub struct Key {
    key: ArenaString,
    hash: usize,
}

impl Key {
    /// The copy of the key's text.
    pub closed spec fn spec_key(&self) -> ArenaString {
        self.key
    }

    /// The hash that the key was stored under.
    pub closed spec fn spec_hash(&self) -> usize {
        self.hash
    }

    /// The copy of the key's text.
    pub fn key(&self) -> (r: &ArenaString)
        ensures
            *r == self.spec_key(),
    {
        &self.key
    }

    /// The hash that the key was stored under.
    pub fn hash(&self) -> (r: usize)
        ensures
            r == self.spec_hash(),
    {
        self.hash
    }
}

impl Default for Key {
    /// A key without text, stored under hash 0.
    fn default() -> (r: Self)
        ensures
            r.spec_key()@ == Seq::<u8>::empty(),
            r.spec_hash() == 0,
    {
        Key { key: ArenaString::default(), hash: 0 }
    }
}

/// One entry of a table: the key's text, the hash it is stored under, and
/// the value.
pub struct Entry<V> {
    pub key: Seq<char>,
    pub hash: usize,
    pub value: V,
}

/// Whether `index` is where a lookup of `hash` ends: the first entry that is
/// stored under that hash.
pub open spec fn found_at<V>(entries: Seq<Entry<V>>, hash: usize, index: int) -> bool {
    &&& 0 <= index < entries.len()
    &&& entries[index].hash == hash
    &&& forall|j: int| 0 <= j < index ==> (#[trigger] entries[j]).hash != hash
}

/// Whether no entry is stored under `hash`.
pub open spec fn absent<V>(entries: Seq<Entry<V>>, hash: usize) -> bool {
    forall|j: int| 0 <= j < entries.len() ==> (#[trigger] entries[j]).hash != hash
}

/// What a lookup of `hash` gives: the place of the first entry stored under
/// it.
pub open spec fn lookup<V>(entries: Seq<Entry<V>>, hash: usize) -> Option<int> {
    if absent(entries, hash) {
        None
    } else {
        Some(choose|index: int| found_at(entries, hash, index))
    }
}

/// Whether a walk that stands at `entry` yields `key` and `value`.
pub open spec fn yields<V>(entry: Entry<V>, key: Seq<char>, value: V) -> bool {
    entry.key == key && entry.value == value
}

/// The values of the entries, in their order.
pub open spec fn values_of<V>(entries: Seq<Entry<V>>) -> Seq<V> {
    Seq::new(entries.len(), |i: int| entries[i].value)
}

/// A lookup ends at one place at most.
pub proof fn lemma_found_once<V>(entries: Seq<Entry<V>>, hash: usize, first: int, second: int)
    requires
        found_at(entries, hash, first),
        found_at(entries, hash, second),
    ensures
        first == second,
{
    if first < second {
        assert(entries[first].hash != hash);
    }
    if second < first {
        assert(entries[second].hash != hash);
    }
}

/// A lookup gives the place where it ends, and none exactly where no entry
/// is stored under the hash.
pub proof fn lemma_lookup<V>(entries: Seq<Entry<V>>, hash: usize)
    ensures
        lookup(entries, hash) matches Some(index) ==> found_at(entries, hash, index),
        lookup(entries, hash) is None <==> absent(entries, hash),
        forall|index: int| found_at(entries, hash, index) ==> lookup(entries, hash) == Some(index),
    decreases entries.len(),
{
    if !absent(entries, hash) {
        let some = choose|j: int| 0 <= j < entries.len() && (#[trigger] entries[j]).hash == hash;
        lemma_first_match(entries, hash, some);
        let found = choose|index: int| found_at(entries, hash, index);
        assert forall|index: int| found_at(entries, hash, index) implies lookup(entries, hash)
            == Some(index) by {
            lemma_found_once(entries, hash, index, found);
        }
    } else {
        assert forall|index: int| found_at(entries, hash, index) implies lookup(entries, hash)
            == Some(index) by {
            assert(entries[index].hash != hash);
        }
    }
}

/// Where some entry is stored under the hash, a first one is.
proof fn lemma_first_match<V>(entries: Seq<Entry<V>>, hash: usize, some: int)
    requires
        0 <= some < entries.len(),
        entries[some].hash == hash,
    ensures
        exists|index: int| found_at(entries, hash, index),
    decreases some,
{
    if forall|j: int| 0 <= j < some ==> (#[trigger] entries[j]).hash != hash {
        assert(found_at(entries, hash, some));
    } else {
        let earlier = choose|j: int| 0 <= j < some && (#[trigger] entries[j]).hash == hash;
        lemma_first_match(entries, hash, earlier);
    }
}

/// Entries that are inserted under hashes of which no two are the same are
/// each found under their own hash, at the place where they were inserted.
pub proof fn lemma_distinct_hashes_found<V>(entries: Seq<Entry<V>>, index: int)
    requires
        0 <= index < entries.len(),
        forall|i: int, j: int|
            0 <= i < j < entries.len() ==> (#[trigger] entries[i]).hash != (
            #[trigger] entries[j]).hash,
    ensures
        lookup(entries, entries[index].hash) == Some(index),
{
    assert(found_at(entries, entries[index].hash, index));
    lemma_lookup(entries, entries[index].hash);
}

/// Two keys with one hash are looked up alike, whatever the table holds.
pub proof fn lemma_same_hash_same_lookup<V>(
    entries: Seq<Entry<V>>,
    first: Seq<char>,
    second: Seq<char>,
)
    requires
        key_hash(first) == key_hash(second),
    ensures
        lookup(entries, key_hash(first)) == lookup(entries, key_hash(second)),
{
}

/// An entry that is appended is found under its hash unless an earlier
/// entry is stored under the same hash, and then that one is still found.
pub proof fn lemma_lookup_after_insert<V>(entries: Seq<Entry<V>>, entry: Entry<V>, hash: usize)
    ensures
        lookup(entries, hash) is Some ==> lookup(entries.push(entry), hash) == lookup(
            entries,
            hash,
        ),
        lookup(entries, hash) is None && entry.hash == hash ==> lookup(entries.push(entry), hash)
            == Some(entries.len() as int),
        lookup(entries, hash) is None && entry.hash != hash ==> lookup(entries.push(entry), hash)
            is None,
{
    let more = entries.push(entry);
    lemma_lookup(entries, hash);
    lemma_lookup(more, hash);
    match lookup(entries, hash) {
        Some(index) => {
            assert forall|j: int| 0 <= j < index implies (#[trigger] more[j]).hash != hash by {
                assert(more[j] == entries[j]);
            }
            assert(more[index] == entries[index]);
            assert(found_at(more, hash, index));
        },
        None => {
            assert forall|j: int| 0 <= j < entries.len() implies (#[trigger] more[j]).hash
                != hash by {
                assert(more[j] == entries[j]);
            }
            if entry.hash == hash {
                assert(found_at(more, hash, entries.len() as int));
            } else {
                assert(absent(more, hash));
            }
        },
    }
}

/// A table of at most `capacity` entries, in the order in which they were
/// inserted. A key is found by its hash alone: the text is kept, and never
/// compared.
#[derive(Debug, PartialEq, PartialOrd, Eq)]
pub struct ArenaTable<V> {
    keys: Array<Key>,
    values: Array<V>,
}

impl<V> View for ArenaTable<V> {
    type V = Seq<Entry<V>>;

    /// The entries of the table, in the order in which they were inserted.
    closed spec fn view(&self) -> Seq<Entry<V>> {
        Seq::new(
            self.keys.spec_len(),
            |i: int|
                Entry {
                    key: self.keys@[i].key.text(),
                    hash: self.keys@[i].hash,
                    value: self.values@[i],
                },
        )
    }
}

impl<V> ArenaTable<V> {
    /// Keys and values stand side by side: as many of one as of the other,
    /// in as many slots, and every key's copy is text.
    pub closed spec fn wf(&self) -> bool {
        &&& self.keys.wf()
        &&& self.values.wf()
        &&& self.keys.spec_len() == self.values.spec_len()
        &&& self.keys.slots().len() == self.values.slots().len()
        &&& forall|i: int| 0 <= i < self.keys@.len() ==> (#[trigger] self.keys@[i]).key.is_utf8()
    }

    /// How many entries the table can hold.
    pub closed spec fn spec_capacity(&self) -> nat {
        self.keys.slots().len()
    }

    /// The array of the keys.
    pub closed spec fn spec_keys(&self) -> Array<Key> {
        self.keys
    }

    /// The array of the values.
    pub closed spec fn spec_values(&self) -> Array<V> {
        self.values
    }

    /// The arrays of keys and values hold what the entries say, one beside
    /// the other, and the table never holds more than its capacity.
    pub proof fn lemma_arrays(&self)
        requires
            self.wf(),
        ensures
            self@.len() <= self.spec_capacity(),
            self.spec_keys()@.len() == self@.len(),
            self.spec_values()@.len() == self@.len(),
            self.spec_keys().slots().len() == self.spec_capacity(),
            self.spec_values().slots().len() == self.spec_capacity(),
            self.spec_values()@ == values_of(self@),
            forall|i: int|
                0 <= i < self@.len() ==> {
                    &&& (#[trigger] self@[i]).value == self.spec_values()@[i]
                    &&& self@[i].hash == self.spec_keys()@[i].spec_hash()
                    &&& self.spec_keys()@[i].spec_key().is_utf8()
                    &&& self@[i].key == self.spec_keys()@[i].spec_key().text()
                },
    {
        assert(self.values@ =~= values_of(self@));
    }

    /// An empty table for `capacity` entries: room for so many keys is
    /// reserved in `arena`, and behind it room for so many values. Where not
    /// both fit there is no table, and nothing is reserved.
    pub fn new(arena: &mut Arena, capacity: usize) -> (r: Option<Self>) where V: Default
        ensures
            r is Some <==> old(arena)@.fits(block::<Key>(capacity as nat)) && old(arena)@.grant(
                block::<Key>(capacity as nat),
            ).fits(block::<V>(capacity as nat)),
            r is Some ==> final(arena)@ == old(arena)@.grant(block::<Key>(capacity as nat)).grant(
                block::<V>(capacity as nat),
            ),
            r is None ==> final(arena)@ == old(arena)@,
            r matches Some(table) ==> {
                &&& table.wf()
                &&& table@ == Seq::<Entry<V>>::empty()
                &&& table.spec_capacity() == capacity
            },
    {
        if !arena.fits_both::<Key, V>(capacity, capacity) {
            return None;
        }
        let keys: Array<Key> = match Array::new(arena, 0, capacity) {
            Some(keys) => keys,
            None => {
                return None;
            },
        };
        let values: Array<V> = match Array::new(arena, 0, capacity) {
            Some(values) => values,
            None => {
                return None;
            },
        };
        let table = ArenaTable { keys, values };
        proof {
            assert(table@ =~= Seq::<Entry<V>>::empty());
        }
        Some(table)
    }

    /// How many entries the table can hold.
    pub fn capacity(&self) -> (r: usize)
        ensures
            r == self.spec_capacity(),
    {
        self.keys.capacity()
    }

    /// How many entries the table holds.
    pub fn len(&self) -> (r: usize)
        ensures
            r == self@.len(),
    {
        self.keys.len()
    }

    /// Whether the table holds no entry.
    pub fn is_empty(&self) -> (r: bool)
        ensures
            r <==> self@.len() == 0,
    {
        self.keys.is_empty()
    }

    /// The place of the first entry that is stored under `hash`.
    pub fn find_hash(&self, hash: usize) -> (r: Option<usize>)
        requires
            self.wf(),
        ensures
            r matches Some(index) ==> found_at(self@, hash, index as int),
            r is None ==> absent(self@, hash),
            r matches Some(index) ==> lookup(self@, hash) == Some(index as int),
            r is None ==> lookup(self@, hash) is None,
    {
        let keys: &[Key] = self.keys.as_ref();
        let mut i: usize = 0;
        while i < keys.len()
            invariant
                i <= keys@.len(),
                keys@ == self.keys@,
                self@.len() == keys@.len(),
                forall|j: int| 0 <= j < i ==> (#[trigger] self@[j]).hash != hash,
            decreases keys@.len() - i,
        {
            if keys[i].hash == hash {
                proof {
                    assert(self@[i as int].hash == keys@[i as int].hash);
                    assert(found_at(self@, hash, i as int));
                    lemma_lookup(self@, hash);
                }
                return Some(i);
            }
            i += 1;
        }
        proof {
            lemma_lookup(self@, hash);
        }
        None
    }

    /// The place of the first entry whose key has the hash of `key`. Keys
    /// with one hash cannot be told apart.
    pub fn get_index(&self, key: &str) -> (r: Option<usize>)
        requires
            self.wf(),
        ensures
            r matches Some(index) ==> found_at(self@, key_hash(key@), index as int),
            r is None ==> absent(self@, key_hash(key@)),
            r matches Some(index) ==> lookup(self@, key_hash(key@)) == Some(index as int),
            r is None ==> lookup(self@, key_hash(key@)) is None,
    {
        self.find_hash(hash_key(key))
    }

    /// The value of the first entry whose key has the hash of `key`.
    pub fn get(&self, key: &str) -> (r: Option<&V>)
        requires
            self.wf(),
        ensures
            match lookup(self@, key_hash(key@)) {
                Some(index) => r == Some(&self@[index].value),
                None => r is None,
            },
    {
        match self.get_index(key) {
            Some(index) => self.values.get(index),
            None => None,
        }
    }

    /// Key and value of the first entry whose key has the hash of `key`.
    pub fn get_key_value(&self, key: &str) -> (r: Option<(&str, &V)>)
        requires
            self.wf(),
        ensures
            match lookup(self@, key_hash(key@)) {
                Some(index) => r matches Some(pair) && pair.0@ == self@[index].key && *pair.1
                    == self@[index].value,
                None => r is None,
            },
    {
        match self.get_index(key) {
            Some(index) => {
                match (self.keys.get(index), self.values.get(index)) {
                    (Some(stored), Some(value)) => Some((stored.key.as_str(), value)),
                    _ => None,
                }
            },
            None => None,
        }
    }

    /// The value of the first entry whose key has the hash of `key`, to
    /// change it in place.
    pub fn get_mut(&mut self, key: &str) -> (r: Option<&mut V>)
        requires
            old(self).wf(),
        ensures
            final(self).wf(),
            final(self).spec_capacity() == old(self).spec_capacity(),
            match lookup(old(self)@, key_hash(key@)) {
                Some(index) => {
                    &&& r matches Some(slot) && *slot == old(self)@[index].value && final(self)@
                        == old(self)@.update(
                        index,
                        Entry { value: *final(slot), ..old(self)@[index] },
                    )
                },
                None => r is None && final(self)@ == old(self)@,
            },
    {
        match self.get_index(key) {
            Some(index) => {
                self.values.get_mut(index)
            },
            None => None,
        }
    }

    /// Appends an entry for `key`, stored under the hash of `key`, with a
    /// copy of `key` that is reserved in `arena`. Where the table is full or
    /// the copy does not fit in the arena, nothing is inserted and nothing
    /// reserved.
    pub fn insert(&mut self, arena: &mut Arena, key: &str, value: V) -> (r: bool)
        requires
            old(self).wf(),
        ensures
            final(self).wf(),
            final(self).spec_capacity() == old(self).spec_capacity(),
            r <==> old(self)@.len() < old(self).spec_capacity() && old(arena)@.fits(
                text_block(key@),
            ),
            r ==> {
                &&& final(self)@ == old(self)@.push(
                    Entry { key: key@, hash: key_hash(key@), value },
                )
                &&& final(arena)@ == old(arena)@.grant(text_block(key@))
            },
            !r ==> final(self)@ == old(self)@ && final(arena)@ == old(arena)@,
    {
        self.insert_hashed(arena, key, hash_key(key), value)
    }

    /// Appends an entry for `key`, stored under `hash`, with a copy of `key`
    /// that is reserved in `arena`. Where the table is full or the copy does
    /// not fit in the arena, nothing is inserted and nothing reserved.
    pub fn insert_hashed(
        &mut self,
        arena: &mut Arena,
        key: &str,
        hash: usize,
        value: V,
    ) -> (r: bool)
        requires
            old(self).wf(),
        ensures
            final(self).wf(),
            final(self).spec_capacity() == old(self).spec_capacity(),
            r <==> old(self)@.len() < old(self).spec_capacity() && old(arena)@.fits(
                text_block(key@),
            ),
            r ==> {
                &&& final(self)@ == old(self)@.push(Entry { key: key@, hash, value })
                &&& final(arena)@ == old(arena)@.grant(text_block(key@))
            },
            !r ==> final(self)@ == old(self)@ && final(arena)@ == old(arena)@,
    {
        if self.keys.len() >= self.keys.capacity() {
            return false;
        }
        let copy: ArenaString = match ArenaString::from_str(arena, key) {
            Some(copy) => copy,
            None => {
                return false;
            },
        };
        self.keys.push(Key { key: copy, hash });
        self.values.push(value);
        proof {
            assert(self@ =~= old(self)@.push(Entry { key: key@, hash, value }));
        }
        true
    }

    /// Whether an entry is stored under the hash of `key`.
    pub fn contains_key(&self, key: &str) -> (r: bool)
        requires
            self.wf(),
        ensures
            r <==> lookup(self@, key_hash(key@)) is Some,
    {
        self.get_index(key).is_some()
    }

    /// The array of the keys.
    pub fn keys(&self) -> (r: &Array<Key>)
        ensures
            *r == self.spec_keys(),
    {
        &self.keys
    }

    /// The array of the values.
    pub fn values(&self) -> (r: &Array<V>)
        ensures
            *r == self.spec_values(),
    {
        &self.values
    }

    /// A walk over the values, in the order of the entries, that lends each
    /// value out to be changed in place.
    pub fn values_mut(&mut self) -> (walk: ValuesMut<'_, V>)
        requires
            old(self).wf(),
        ensures
            walk.wf(),
            walk.values() == values_of(old(self)@),
            walk.position() == 0,
    {
        proof {
            assert(self.values@ =~= values_of(self@));
        }
        ValuesMut { values: &mut self.values, at: 0 }
    }

    /// A walk over the entries, in the order in which they were inserted.
    pub fn iter(&self) -> (walk: Iter<'_, V>)
        requires
            self.wf(),
        ensures
            walk.entries() == self@,
            walk.position() == 0,
    {
        Iter { table: self, at: 0 }
    }

    /// A walk over the entries, in the order in which they were inserted,
    /// that lends each value out to be changed in place.
    pub fn iter_mut(&mut self) -> (walk: IterMut<'_, V>)
        requires
            old(self).wf(),
        ensures
            walk.wf(),
            walk.entries() == old(self)@,
            walk.position() == 0,
    {
        IterMut { table: self, at: 0 }
    }

    /// Empties the table. Its capacity stays, and nothing goes back to the
    /// arena.
    pub fn clear(&mut self)
        requires
            old(self).wf(),
        ensures
            final(self).wf(),
            final(self)@ == Seq::<Entry<V>>::empty(),
            final(self).spec_capacity() == old(self).spec_capacity(),
    {
        self.keys.clear();
        self.values.clear();
        proof {
            assert(self@ =~= Seq::<Entry<V>>::empty());
        }
    }
}

/// A walk over the entries of a table: it stands at an entry, or behind the
/// last one.
pub struct Iter<'a, V> {
    table: &'a ArenaTable<V>,
    at: usize,
}

impl<'a, V> Iter<'a, V> {
    #[verifier::type_invariant]
    spec fn inv(self) -> bool {
        &&& self.table.wf()
        &&& self.at <= self.table@.len()
    }

    /// The entries of the table that is walked.
    pub closed spec fn entries(&self) -> Seq<Entry<V>> {
        self.table@
    }

    /// How many entries the walk has left behind.
    pub closed spec fn position(&self) -> nat {
        self.at as nat
    }

    /// The entries that the walk has yet to yield, in order.
    pub open spec fn remaining(&self) -> Seq<Entry<V>> {
        self.entries().skip(self.position() as int)
    }

    /// Yields key and value of the entry that the walk stands at and steps
    /// to the next entry; `None` behind the last entry.
    pub fn next(&mut self) -> (r: Option<(&'a str, &'a V)>)
        ensures
            final(self).entries() == old(self).entries(),
            old(self).position() <= old(self).entries().len(),
            old(self).position() < old(self).entries().len() ==> {
                &&& r matches Some(pair) && yields(
                    old(self).entries()[old(self).position() as int],
                    pair.0@,
                    *pair.1,
                )
                &&& final(self).position() == old(self).position() + 1
            },
            old(self).position() == old(self).entries().len() ==> {
                &&& r is None
                &&& final(self).position() == old(self).position()
            },
    {
        proof {
            use_type_invariant(&*self);
        }
        let at: usize = self.at;
        if at >= self.table.keys.len() {
            return None;
        }
        match (self.table.keys.get(at), self.table.values.get(at)) {
            (Some(stored), Some(value)) => {
                self.at = at + 1;
                Some((stored.key.as_str(), value))
            },
            _ => None,
        }
    }
}

/// A walk over the entries of a table that lends the values out to be
/// changed: it stands at an entry, or behind the last one.
pub struct IterMut<'a, V> {
    table: &'a mut ArenaTable<V>,
    at: usize,
}

impl<'a, V> IterMut<'a, V> {
    /// The walk stands at an entry of the table, or behind the last one.
    pub closed spec fn wf(&self) -> bool {
        &&& self.table.wf()
        &&& self.at <= self.table@.len()
    }

    /// The entries of the table that is walked, as they are now.
    pub closed spec fn entries(&self) -> Seq<Entry<V>> {
        self.table@
    }

    /// How many entries the walk has left behind.
    pub closed spec fn position(&self) -> nat {
        self.at as nat
    }

    /// The entries that the walk has yet to yield, in order.
    pub open spec fn remaining(&self) -> Seq<Entry<V>> {
        self.entries().skip(self.position() as int)
    }

    /// Yields the key of the entry that the walk stands at, lends its value
    /// out, and steps to the next entry; `None` behind the last entry. What is
    /// written to the value is written to the table.
    pub fn next(&mut self) -> (r: Option<(&str, &mut V)>)
        requires
            old(self).wf(),
        ensures
            final(self).wf(),
            old(self).position() <= old(self).entries().len(),
            old(self).position() < old(self).entries().len() ==> {
                &&& r matches Some(pair) && yields(
                    old(self).entries()[old(self).position() as int],
                    pair.0@,
                    *pair.1,
                ) && final(self).entries() == old(self).entries().update(
                    old(self).position() as int,
                    Entry {
                        value: *final(pair.1),
                        ..old(self).entries()[old(self).position() as int]
                    },
                )
                &&& final(self).position() == old(self).position() + 1
            },
            old(self).position() == old(self).entries().len() ==> {
                &&& r is None
                &&& final(self).entries() == old(self).entries()
                &&& final(self).position() == old(self).position()
            },
    {
        let at: usize = self.at;
        if at >= self.table.keys.len() {
            return None;
        }
        self.at = at + 1;
        match (self.table.keys.get(at), self.table.values.get_mut(at)) {
            (Some(stored), Some(value)) => Some((stored.key.as_str(), value)),
            _ => None,
        }
    }
}

/// A walk over the values of a table that lends them out to be changed: it
/// stands at a value, or behind the last one.
pub struct ValuesMut<'a, V> {
    values: &'a mut Array<V>,
    at: usize,
}

impl<'a, V> ValuesMut<'a, V> {
    /// The walk stands at a value of the table, or behind the last one.
    pub closed spec fn wf(&self) -> bool {
        self.at <= self.values.spec_len() <= self.values.slots().len()
    }

    /// The values of the table that is walked, as they are now.
    pub closed spec fn values(&self) -> Seq<V> {
        self.values@
    }

    /// How many values the walk has left behind.
    pub closed spec fn position(&self) -> nat {
        self.at as nat
    }

    /// The values that the walk has yet to yield, in order.
    pub open spec fn remaining(&self) -> Seq<V> {
        self.values().skip(self.position() as int)
    }

    /// Lends out the value that the walk stands at and steps to the next
    /// one; `None` behind the last value. What is written to the value is
    /// written to the table.
    pub fn next(&mut self) -> (r: Option<&mut V>)
        requires
            old(self).wf(),
        ensures
            final(self).wf(),
            old(self).position() <= old(self).values().len(),
            old(self).position() < old(self).values().len() ==> {
                &&& r matches Some(slot) && *slot == old(self).values()[old(self).position() as int]
                    && final(self).values() == old(self).values().update(
                    old(self).position() as int,
                    *final(slot),
                )
                &&& final(self).position() == old(self).position() + 1
            },
            old(self).position() == old(self).values().len() ==> {
                &&& r is None
                &&& final(self).values() == old(self).values()
                &&& final(self).position() == old(self).position()
            },
    {
        let at: usize = self.at;
        if at >= self.values.len() {
            return None;
        }
        self.at = at + 1;
        self.values.get_mut(at)
    }
}

} // verus!
