//! Handles to the records of a table.

use vstd::prelude::*;
use std::marker::PhantomData;
use crate::table::{Table, TableLayout};

verus! {

/// What a table accepts as a key.
pub trait TableKey<T: TableLayout> {
    /// The number of the slot that the key names.
    spec fn key(&self) -> u64;

    /// The number of the slot that the key names in `table`.
    fn value(&self, table: &Table<T>) -> (v: u64)
        ensures
            v == self.key(),
    ;
}

/// A key that borrows the table it came from.
#[derive(Debug)]
pub struct KeyRef<'t, T: TableLayout> {
    value: u64,
    _table: &'t Table<T>,
}

impl<'t, T: TableLayout> KeyRef<'t, T> {
    pub(crate) fn new(value: u64, _table: &'t Table<T>) -> (key: Self)
        ensures
            key.key() == value,
    {
        Self { value, _table }
    }

    /// Lets go of the table: the same key in a form that can be kept.
    pub fn owned(self) -> (key: KeyOwned<T>)
        ensures
            key.key() == self.key(),
    {
        KeyOwned { value: self.value, _item_kind: PhantomData }
    }
}

impl<'t, T: TableLayout> Clone for KeyRef<'t, T> {
    fn clone(&self) -> (key: Self)
        ensures
            key.key() == self.key(),
    {
        KeyRef { value: self.value, _table: self._table }
    }
}

impl<'t, T: TableLayout> TableKey<T> for KeyRef<'t, T> {
    closed spec fn key(&self) -> u64 {
        self.value
    }

    fn value(&self, _table: &Table<T>) -> (v: u64) {
        self.value
    }
}

/// A key that may be stored and used later.
#[derive(Debug)]
pub struct KeyOwned<T> {
    value: u64,
    _item_kind: PhantomData<T>,
}

impl<T> Clone for KeyOwned<T> {
    fn clone(&self) -> (key: Self)
        ensures
            key == *self,
    {
        KeyOwned { value: self.value, _item_kind: PhantomData }
    }
}

impl<T> Copy for KeyOwned<T> {

}

impl<T: TableLayout> KeyOwned<T> {
    /// The key of slot `value`, whether or not a record was ever put there.
    pub fn new(value: u64) -> (key: Self)
        ensures
            key.key() == value,
    {
        KeyOwned { value, _item_kind: PhantomData }
    }

    /// The bare number of the key, to store it somewhere.
    pub fn raw(&self) -> (value: u64)
        ensures
            value == self.key(),
    {
        self.value
    }
}

impl<T: TableLayout> TableKey<T> for KeyOwned<T> {
    closed spec fn key(&self) -> u64 {
        self.value
    }

    fn value(&self, _table: &Table<T>) -> (v: u64) {
        self.value
    }
}

} // verus!
