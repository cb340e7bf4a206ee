//! The database handle from which tables are made.

use vstd::prelude::*;
use crate::counter::slot_after;
use crate::store::{
    bytes_of, db_contents, db_fetch_and_advance, db_get, db_insert, db_open, db_remove,
    db_scan_keys, is_scan_of, slot, with_slot,
};
use crate::table::{Table, TableLayout};
use crate::TableError;

verus! {

/// A database: one connection to a sled store.
///
/// What it holds is seen as a map from byte strings to byte strings. Every
/// operation that writes takes the database by `&mut`, and its contract says
/// how the map changes. The contracts speak of this handle alone: they hold
/// as long as nothing else writes to the store behind it, which is why the
/// handle is not `Clone`.
#[derive(Debug)]
pub struct Base {
    db: sled::Db,
}

impl Base {
    /// What the database holds: a map from byte strings to byte strings.
    pub closed spec fn view(&self) -> Map<Seq<u8>, Seq<u8>> {
        db_contents(self.db)
    }

    /// The sled handle inside.
    pub closed spec fn handle(&self) -> sled::Db {
        self.db
    }

    /// Wraps a sled handle that is already open.
    pub fn new(db: sled::Db) -> (base: Base)
        ensures
            base.handle() == db,
    {
        Base { db }
    }

    /// The sled handle inside.
    pub fn inner(&self) -> (db: &sled::Db)
        ensures
            *db == self.handle(),
    {
        &self.db
    }

    /// Reads what the database holds at `path`.
    pub(crate) fn read(&self, path: &[u8]) -> (r: Result<Option<Vec<u8>>, TableError>)
        ensures
            match r {
                Ok(found) => bytes_of(found) == slot(self@, path@),
                Err(e) => e is SledErr,
            },
    {
        match db_get(&self.db, path) {
            Ok(found) => Ok(found),
            Err(e) => Err(TableError::SledErr(e)),
        }
    }

    /// Puts `bytes` at `path`, or empties `path` where there are none.
    pub(crate) fn write(&mut self, path: &[u8], bytes: Option<Vec<u8>>) -> (r: Result<
        (),
        TableError,
    >)
        ensures
            match r {
                Ok(()) => final(self)@ == with_slot(old(self)@, path@, bytes_of(bytes)),
                Err(e) => e is SledErr,
            },
    {
        let done = match bytes {
            Some(bytes) => db_insert(&mut self.db, path, bytes),
            None => db_remove(&mut self.db, path),
        };
        match done {
            Ok(()) => Ok(()),
            Err(e) => Err(TableError::SledErr(e)),
        }
    }

    /// Advances the counter at `path` in one atomic step, and returns what
    /// the slot held before.
    pub(crate) fn fetch_and_advance(&mut self, path: &[u8]) -> (r: Result<
        Option<Vec<u8>>,
        TableError,
    >)
        ensures
            match r {
                Ok(before) => bytes_of(before) == slot(old(self)@, path@) && final(self)@
                    == with_slot(old(self)@, path@, slot_after(bytes_of(before))),
                Err(e) => e is SledErr,
            },
    {
        match db_fetch_and_advance(&mut self.db, path) {
            Ok(before) => Ok(before),
            Err(e) => Err(TableError::SledErr(e)),
        }
    }

    /// Lists the paths of the database that start with `prefix`, in the
    /// database's order.
    pub(crate) fn scan(&self, prefix: &[u8]) -> (r: Result<Vec<Vec<u8>>, TableError>)
        ensures
            match r {
                Ok(paths) => is_scan_of(self@, prefix@, paths@),
                Err(e) => e is SledErr,
            },
    {
        match db_scan_keys(&self.db, prefix) {
            Ok(paths) => Ok(paths),
            Err(e) => Err(TableError::SledErr(e)),
        }
    }

    /// The table of the records of type `T`. Nothing is read or written: a
    /// table is its name.
    pub fn table<T>(&self) -> (table: Table<T>) where T: TableLayout
        ensures
            table.name() == T::name_bytes(),
    {
        Table::new()
    }
}

/// Opens the database at `path`, or creates one where the path holds none.
/// Fails only with what the store reports.
pub fn open(path: &str) -> (r: Result<Base, TableError>)
    ensures
        r matches Err(e) ==> e is SledErr,
{
    opened(db_open(path))
}

/// Makes of what the store answered to an attempt to open it what `open`
/// returns: the database around the handle, or the store's error.
pub fn opened(outcome: Result<sled::Db, sled::Error>) -> (r: Result<Base, TableError>)
    ensures
        match outcome {
            Ok(db) => r matches Ok(base) && base.handle() == db,
            Err(e) => r matches Err(TableError::SledErr(reported)) && reported == e,
        },
{
    match outcome {
        Ok(db) => Ok(Base { db }),
        Err(e) => Err(TableError::SledErr(e)),
    }
}

} // verus!
