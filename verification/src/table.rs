//! Tables: records of one type, kept in the store under numbered slots.

use vstd::prelude::*;
use std::marker::PhantomData;
use vstd::string::StringSliceAdditionalSpecFns;
use crate::base::Base;
use crate::counter::{counter_value, read_counter, slot_after};
use crate::key::{KeyRef, TableKey};
use crate::path::{
    build_counter_path, build_item_path, build_item_prefix, bytes_lt, counter_path, item_path,
    item_prefix, key_of_item_path, lemma_item_path_injective, lemma_item_path_under_prefix,
};
use crate::store::{bytes_of, is_scan_of, slot, with_slot};
use crate::TableError;

verus! {

/// What a type must offer to be stored in a table: the table's name, and a
/// way to and from bytes that gives every record back as it went in.
///
/// The three spec functions say what the three methods return. An
/// implementation that is verified defines them; one that is not leaves them
/// as they are, and what is proved of its tables then rests on its methods
/// being functions of their arguments that undo each other.
pub trait TableLayout: Sized {
    /// The bytes of the table's name.
    open spec fn name_bytes() -> Seq<u8> {
        arbitrary()
    }

    /// The bytes that stand for a record.
    open spec fn encoding(&self) -> Seq<u8> {
        arbitrary()
    }

    /// The record that bytes stand for, if they stand for one.
    open spec fn decoding(bytes: Seq<u8>) -> Option<Self> {
        arbitrary()
    }

    /// The name of the table that holds the records of this type.
    fn table_name() -> (name: &'static str)
        ensures
            name.spec_bytes() == Self::name_bytes(),
    ;

    /// Writes a record as bytes, from which `decode` reads it back.
    fn encode(&self) -> (bytes: Vec<u8>)
        ensures
            bytes@ == self.encoding(),
            Self::decoding(bytes@) == Some(*self),
    ;

    /// Reads a record from bytes.
    fn decode(bytes: &[u8]) -> (r: Option<Self>)
        ensures
            r == Self::decoding(bytes@),
    ;
}

/// The record that a slot's bytes stand for: none where the slot is empty or
/// the bytes do not decode.
pub open spec fn record_of<T: TableLayout>(held: Option<Seq<u8>>) -> Option<T> {
    match held {
        Some(bytes) => T::decoding(bytes),
        None => None,
    }
}

/// Whether a slot is empty or holds bytes that decode.
pub open spec fn readable<T: TableLayout>(held: Option<Seq<u8>>) -> bool {
    match held {
        Some(bytes) => T::decoding(bytes) is Some,
        None => true,
    }
}

/// The bytes to put in a slot for an optional record.
pub open spec fn encoding_of<T: TableLayout>(value: Option<T>) -> Option<Seq<u8>> {
    match value {
        Some(record) => Some(record.encoding()),
        None => None,
    }
}

/// The slot numbers that a sequence of keys names.
pub open spec fn key_values<T: TableLayout>(keys: Seq<KeyRef<'_, T>>) -> Seq<u64> {
    Seq::new(keys.len(), |i: int| keys[i].key())
}

/// The slot numbers that a sequence of keyed records names.
pub open spec fn item_keys<T: TableLayout>(items: Seq<(KeyRef<'_, T>, T)>) -> Seq<u64> {
    Seq::new(items.len(), |i: int| items[i].0.key())
}

/// Reads what `get` found in a slot: nothing for an empty slot, the record
/// for bytes that decode, and an error for bytes that do not.
pub fn decode_found<T: TableLayout>(found: Option<Vec<u8>>) -> (r: Result<Option<T>, TableError>)
    ensures
        match r {
            Ok(value) => readable::<T>(bytes_of(found)) && value == record_of::<T>(
                bytes_of(found),
            ),
            Err(e) => e is SerializationErr && !readable::<T>(bytes_of(found)),
        },
{
    match found {
        None => Ok(None),
        Some(bytes) => match T::decode(bytes.as_slice()) {
            Some(record) => Ok(Some(record)),
            None => Err(TableError::SerializationErr()),
        },
    }
}

/// Reads the key that was taken from a counter slot out of what the slot
/// held before: the number it stood for, unless it stood for none or for the
/// largest one.
pub fn key_taken(before: Option<Vec<u8>>) -> (r: Result<u64, TableError>)
    ensures
        match r {
            Ok(key) => counter_value(bytes_of(before)) == Some(key) && key < u64::MAX,
            Err(TableError::SerializationErr()) => counter_value(bytes_of(before)) is None,
            Err(TableError::KeySpaceExhausted()) => counter_value(bytes_of(before)) == Some(u64::MAX),
            Err(TableError::SledErr(_)) => false,
        },
{
    match read_counter(&before) {
        None => Err(TableError::SerializationErr()),
        Some(key) => if key < u64::MAX {
            Ok(key)
        } else {
            Err(TableError::KeySpaceExhausted())
        },
    }
}

/// A table of records of type `T` in a database. The table is no more than
/// its name: what it holds is what the database holds under that name.
#[derive(Debug)]
pub struct Table<T: TableLayout> {
    name: &'static str,
    _item_kind: PhantomData<T>,
}

impl<T: TableLayout> Table<T> {
    /// The bytes of the table's name.
    pub closed spec fn name(&self) -> Seq<u8> {
        self.name.spec_bytes()
    }

    /// What `store` holds in slot `key` of this table.
    pub open spec fn entry(&self, store: Map<Seq<u8>, Seq<u8>>, key: u64) -> Option<Seq<u8>> {
        slot(store, item_path(self.name(), key))
    }

    /// The record in slot `key` of this table.
    pub open spec fn record(&self, store: Map<Seq<u8>, Seq<u8>>, key: u64) -> Option<T> {
        record_of::<T>(self.entry(store, key))
    }

    /// The key that the next `push` gives, if the counter slot holds a number.
    pub open spec fn next_key_of(&self, store: Map<Seq<u8>, Seq<u8>>) -> Option<u64> {
        counter_value(slot(store, counter_path(self.name())))
    }

    /// The keys of the slots of this table that hold something.
    pub open spec fn present_keys(&self, store: Map<Seq<u8>, Seq<u8>>) -> Set<u64> {
        Set::new(|key: u64| store.dom().contains(item_path(self.name(), key)))
    }

    /// Whether every path of `store` under this table's item prefix is the
    /// path of one of its slots.
    pub open spec fn region_clean(&self, store: Map<Seq<u8>, Seq<u8>>) -> bool {
        forall|p: Seq<u8>|
            #[trigger] store.dom().contains(p) && item_prefix(self.name()).is_prefix_of(p)
                ==> exists|key: u64| p == #[trigger] item_path(self.name(), key)
    }

    /// Whether `keys` lists the present keys of this table, each once, in the
    /// order in which the store keeps their paths.
    pub open spec fn enumerates(&self, store: Map<Seq<u8>, Seq<u8>>, keys: Seq<u64>) -> bool {
        &&& forall|i: int| 0 <= i < keys.len() ==> self.present_keys(store).contains(#[trigger] keys[i])
        &&& forall|key: u64| #[trigger] self.present_keys(store).contains(key) ==> keys.contains(key)
        &&& keys.no_duplicates()
        &&& forall|i: int, j: int|
            0 <= i < j < keys.len() ==> bytes_lt(
                #[trigger] item_path(self.name(), keys[i]),
                #[trigger] item_path(self.name(), keys[j]),
            )
    }

    /// `store` with slot `key` of this table set to `value`, or emptied.
    pub open spec fn after_store(
        &self,
        store: Map<Seq<u8>, Seq<u8>>,
        key: u64,
        value: Option<T>,
    ) -> Map<Seq<u8>, Seq<u8>> {
        with_slot(store, item_path(self.name(), key), encoding_of(value))
    }

    /// `store` with the counter of this table advanced.
    pub open spec fn after_next_key(&self, store: Map<Seq<u8>, Seq<u8>>) -> Map<Seq<u8>, Seq<u8>> {
        with_slot(
            store,
            counter_path(self.name()),
            slot_after(slot(store, counter_path(self.name()))),
        )
    }

    /// `store` after `record` was pushed under `key`, the key that the
    /// counter gave.
    pub open spec fn after_push(&self, store: Map<Seq<u8>, Seq<u8>>, key: u64, record: T) -> Map<
        Seq<u8>,
        Seq<u8>,
    > {
        self.after_store(self.after_next_key(store), key, Some(record))
    }

    pub(crate) fn new() -> (table: Self)
        ensures
            table.name() == T::name_bytes(),
    {
        Table { name: T::table_name(), _item_kind: PhantomData }
    }

    /// Takes the next key from the counter slot.
    fn next_key(&self, base: &mut Base) -> (r: Result<u64, TableError>)
        ensures
            match r {
                Ok(key) => self.next_key_of(old(base)@) == Some(key) && key < u64::MAX
                    && final(base)@ == self.after_next_key(old(base)@),
                Err(TableError::SerializationErr()) => self.next_key_of(old(base)@) is None
                    && final(base)@ == old(base)@,
                Err(TableError::KeySpaceExhausted()) => self.next_key_of(old(base)@) == Some(u64::MAX)
                    && final(base)@ == old(base)@,
                Err(TableError::SledErr(_)) => true,
            },
    {
        let path = build_counter_path(self.name.as_bytes());
        match base.fetch_and_advance(path.as_slice()) {
            Err(e) => Err(e),
            Ok(before) => {
                proof {
                    let held = slot(old(base)@, counter_path(self.name()));
                    if !(counter_value(held) matches Some(n) && n < u64::MAX) {
                        assert(base@ =~= old(base)@);
                    }
                }
                key_taken(before)
            },
        }
    }

    /// Writes `item` into slot `key`.
    fn insert(&self, base: &mut Base, key: u64, item: &T) -> (r: Result<(), TableError>)
        ensures
            match r {
                Ok(()) => final(base)@ == self.after_store(old(base)@, key, Some(*item))
                    && self.record(final(base)@, key) == Some(*item),
                Err(e) => e is SledErr,
            },
    {
        let path = build_item_path(self.name.as_bytes(), key);
        let bytes = item.encode();
        base.write(path.as_slice(), Some(bytes))
    }

    /// Gets the record in slot `key`, if the slot holds one. Bytes that do
    /// not decode are an error, not an absence.
    pub fn get<K: TableKey<T>>(&self, base: &Base, key: &K) -> (r: Result<Option<T>, TableError>)
        ensures
            match r {
                Ok(value) => readable::<T>(self.entry(base@, key.key())) && value == self.record(
                    base@,
                    key.key(),
                ),
                Err(TableError::SerializationErr()) => !readable::<T>(self.entry(base@, key.key())),
                Err(TableError::KeySpaceExhausted()) => false,
                Err(TableError::SledErr(_)) => true,
            },
    {
        let path = build_item_path(self.name.as_bytes(), key.value(self));
        match base.read(path.as_slice()) {
            Err(e) => Err(e),
            Ok(found) => decode_found(found),
        }
    }

    /// Pushes a record into the slot that the counter gives next, and
    /// returns its key.
    pub fn push<'t>(&'t self, base: &mut Base, element: T) -> (r: Result<KeyRef<'t, T>, TableError>)
        ensures
            match r {
                Ok(key) => self.next_key_of(old(base)@) == Some(key.key()) && key.key() < u64::MAX
                    && final(base)@ == self.after_push(old(base)@, key.key(), element)
                    && self.record(final(base)@, key.key()) == Some(element),
                Err(TableError::SerializationErr()) => self.next_key_of(old(base)@) is None
                    && final(base)@ == old(base)@,
                Err(TableError::KeySpaceExhausted()) => self.next_key_of(old(base)@) == Some(u64::MAX)
                    && final(base)@ == old(base)@,
                Err(TableError::SledErr(_)) => true,
            },
    {
        let key = self.next_key(base)?;
        self.insert(base, key, &element)?;
        Ok(KeyRef::new(key, self))
    }

    /// Sets slot `key` to a record, whether or not the slot held one and
    /// whether or not the counter ever gave that key.
    pub fn set<K: TableKey<T>>(&self, base: &mut Base, key: &K, value: T) -> (r: Result<(), TableError>)
        ensures
            match r {
                Ok(()) => final(base)@ == self.after_store(old(base)@, key.key(), Some(value))
                    && self.record(final(base)@, key.key()) == Some(value),
                Err(e) => e is SledErr,
            },
    {
        let key = key.value(self);
        self.insert(base, key, &value)
    }

    /// Empties slot `key`. An empty slot stays empty.
    pub fn delete<K: TableKey<T>>(&self, base: &mut Base, key: &K) -> (r: Result<(), TableError>)
        ensures
            match r {
                Ok(()) => final(base)@ == self.after_store(old(base)@, key.key(), None)
                    && self.record(final(base)@, key.key()) is None,
                Err(e) => e is SledErr,
            },
    {
        let path = build_item_path(self.name.as_bytes(), key.value(self));
        base.write(path.as_slice(), None)
    }

    /// Puts an optional record into slot `key`: sets the slot where there is
    /// a record, empties it where there is none.
    pub fn replace<K: TableKey<T>>(&self, base: &mut Base, key: &K, value: Option<T>) -> (r: Result<
        (),
        TableError,
    >)
        ensures
            match r {
                Ok(()) => final(base)@ == self.after_store(old(base)@, key.key(), value)
                    && self.record(final(base)@, key.key()) == value,
                Err(e) => e is SledErr,
            },
    {
        match value {
            Some(record) => self.set(base, key, record),
            None => self.delete(base, key),
        }
    }

    /// Updates slot `key`: reads what it holds, lets `op` change that in
    /// place, and puts what `op` left. A record that `op` leaves where the
    /// slot was empty is stored; nothing left where it held one empties it.
    /// The read and the write are two steps in the store.
    pub fn update<K: TableKey<T>, F: FnOnce(&mut Option<T>)>(
        &self,
        base: &mut Base,
        key: &K,
        op: F,
    ) -> (r: Result<(), TableError>)
        requires
            forall|held: &mut Option<T>| op.requires((held,)),
        ensures
            match r {
                Ok(()) => readable::<T>(self.entry(old(base)@, key.key())) && exists|
                    held: &mut Option<T>,
                |
                    *held == self.record(old(base)@, key.key()) && #[trigger] op.ensures(
                        (held,),
                        (),
                    ) && final(base)@ == self.after_store(old(base)@, key.key(), *final(held))
                        && self.record(final(base)@, key.key()) == *final(held),
                Err(TableError::SerializationErr()) => !readable::<T>(
                    self.entry(old(base)@, key.key()),
                ) && final(base)@ == old(base)@,
                Err(TableError::KeySpaceExhausted()) => false,
                Err(TableError::SledErr(_)) => true,
            },
    {
        let mut value = self.get(base, key)?;
        op(&mut value);
        self.replace(base, key, value)
    }

    /// The keys of the slots that hold something, in the order in which the
    /// store keeps their paths: that of their decimal forms as byte strings.
    /// A path under the item prefix that is no slot's path is an error.
    pub fn keys<'t>(&'t self, base: &Base) -> (r: Result<Vec<KeyRef<'t, T>>, TableError>)
        ensures
            match r {
                Ok(keys) => self.region_clean(base@) && self.enumerates(base@, key_values(keys@)),
                Err(TableError::SerializationErr()) => !self.region_clean(base@),
                Err(TableError::KeySpaceExhausted()) => false,
                Err(TableError::SledErr(_)) => true,
            },
    {
        let prefix = build_item_prefix(self.name.as_bytes());
        let paths = base.scan(prefix.as_slice())?;
        let mut keys: Vec<KeyRef<'t, T>> = Vec::new();
        let mut i: usize = 0;
        while i < paths.len()
            invariant
                i <= paths.len(),
                keys.len() == i,
                is_scan_of(base@, item_prefix(self.name()), paths@),
                forall|j: int|
                    0 <= j < i ==> #[trigger] paths@[j]@ == item_path(self.name(), keys@[j].key()),
            decreases paths.len() - i,
        {
            match key_of_item_path(self.name.as_bytes(), paths[i].as_slice()) {
                None => {
                    proof {
                        assert(base@.dom().contains(paths@[i as int]@));
                    }
                    return Err(TableError::SerializationErr());
                },
                Some(key) => {
                    keys.push(KeyRef::new(key, self));
                },
            }
            i = i + 1;
        }
        proof {
            let listed = key_values(keys@);
            assert forall|p: Seq<u8>|
                #[trigger] base@.dom().contains(p) && item_prefix(self.name()).is_prefix_of(
                    p,
                ) implies exists|key: u64| p == #[trigger] item_path(self.name(), key) by {
                let j = choose|j: int| 0 <= j < paths@.len() && #[trigger] paths@[j]@ == p;
                assert(p == item_path(self.name(), keys@[j].key()));
            }
            assert forall|j: int| 0 <= j < listed.len() implies self.present_keys(base@).contains(
                #[trigger] listed[j],
            ) by {
                assert(base@.dom().contains(paths@[j]@));
            }
            assert forall|key: u64| #[trigger]
                self.present_keys(base@).contains(key) implies listed.contains(key) by {
                let p = item_path(self.name(), key);
                lemma_item_path_under_prefix(self.name(), key);
                assert(base@.dom().contains(p));
                let j = choose|j: int| 0 <= j < paths@.len() && #[trigger] paths@[j]@ == p;
                lemma_item_path_injective(self.name(), key, keys@[j].key());
                assert(listed[j] == key);
            }
            assert forall|a: int, b: int| 0 <= a < b < listed.len() implies listed[a] != listed[b]
                && bytes_lt(
                #[trigger] item_path(self.name(), listed[a]),
                #[trigger] item_path(self.name(), listed[b]),
            ) by {
                assert(paths@[a]@ != paths@[b]@);
                assert(bytes_lt(paths@[a]@, paths@[b]@));
            }
        }
        Ok(keys)
    }

    /// The present keys as `keys` gives them, each with the record in its
    /// slot. A slot whose bytes do not decode is an error.
    pub fn iter<'t>(&'t self, base: &Base) -> (r: Result<Vec<(KeyRef<'t, T>, T)>, TableError>)
        ensures
            match r {
                Ok(items) => self.region_clean(base@) && self.enumerates(base@, item_keys(items@))
                    && forall|i: int|
                    0 <= i < items@.len() ==> self.record(base@, (#[trigger] items@[i]).0.key())
                        == Some(items@[i].1),
                Err(TableError::SerializationErr()) => !self.region_clean(base@) || exists|key: u64|
                    #[trigger] self.present_keys(base@).contains(key) && !readable::<T>(
                        self.entry(base@, key),
                    ),
                Err(TableError::KeySpaceExhausted()) => false,
                Err(TableError::SledErr(_)) => true,
            },
    {
        let keys = self.keys(base)?;
        let ghost listed = key_values(keys@);
        let mut items: Vec<(KeyRef<'t, T>, T)> = Vec::new();
        let mut i: usize = 0;
        while i < keys.len()
            invariant
                i <= keys.len(),
                items.len() == i,
                listed == key_values(keys@),
                self.enumerates(base@, listed),
                forall|j: int| 0 <= j < i ==> (#[trigger] items@[j]).0.key() == listed[j],
                forall|j: int|
                    0 <= j < i ==> self.record(base@, (#[trigger] items@[j]).0.key()) == Some(
                        items@[j].1,
                    ),
            decreases keys.len() - i,
        {
            let key = KeyRef::new(keys[i].value(self), self);
            proof {
                assert(key.key() == listed[i as int]);
                assert(self.present_keys(base@).contains(listed[i as int]));
            }
            match self.get(base, &key) {
                Err(e) => {
                    return Err(e);
                },
                Ok(None) => {
                    return Err(TableError::SerializationErr());
                },
                Ok(Some(record)) => {
                    items.push((key, record));
                },
            }
            i = i + 1;
        }
        proof {
            assert(item_keys(items@) =~= listed);
        }
        Ok(items)
    }
}

} // verus!
