//! Typed tables with auto-incrementing keys on top of a sled key-value store.
//!
//! A table is a name. Its records live in the store under paths derived from
//! that name, and a counter slot hands out their keys. Every operation states
//! what it does to the store's contents, seen as a map from byte strings to
//! byte strings.

use vstd::prelude::*;

pub mod base;
pub mod counter;
pub mod key;
pub mod laws;
pub mod path;
pub mod store;
pub mod table;

pub use crate::base::{open, opened, Base};
pub use crate::key::{KeyOwned, KeyRef, TableKey};
pub use crate::table::{Table, TableLayout};

verus! {

/// What can go wrong in an operation on a table.
#[derive(Debug)]
pub enum TableError {
    /// The store reported a failure.
    SledErr(sled::Error),
    /// Bytes found in the store are not what the table writes there: a record
    /// that does not decode, a counter that is too short, or a path under the
    /// item prefix that is no item path.
    SerializationErr(),
    /// The counter has reached the largest key, so no further key can be given.
    KeySpaceExhausted(),
}

} // verus!
