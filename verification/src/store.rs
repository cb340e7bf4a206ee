//! The sled database as this library sees it: a map from byte strings to byte
//! strings, read and changed through the few calls below. Nothing in this file
//! is proved; each contract says what sled's source shows of the call.

use vstd::prelude::*;
use crate::counter::{advance_counter, slot_after};
use crate::path::bytes_lt;

verus! {

/// sled's database handle.
#[verifier::external_type_specification]
#[verifier::external_body]
pub struct ExDb(sled::Db);

/// sled's error type.
#[verifier::external_type_specification]
#[verifier::external_body]
pub struct ExSledError(sled::Error);

/// The key-value pairs that the default tree of a database holds.
pub uninterp spec fn db_contents(db: sled::Db) -> Map<Seq<u8>, Seq<u8>>;

/// What a map holds at one key.
pub open spec fn slot(m: Map<Seq<u8>, Seq<u8>>, key: Seq<u8>) -> Option<Seq<u8>> {
    if m.dom().contains(key) {
        Some(m[key])
    } else {
        None
    }
}

/// The map with one key set to a value, or removed.
pub open spec fn with_slot(m: Map<Seq<u8>, Seq<u8>>, key: Seq<u8>, value: Option<Seq<u8>>) -> Map<
    Seq<u8>,
    Seq<u8>,
> {
    match value {
        Some(bytes) => m.insert(key, bytes),
        None => m.remove(key),
    }
}

/// The bytes of an optional byte vector.
pub open spec fn bytes_of(value: Option<Vec<u8>>) -> Option<Seq<u8>> {
    match value {
        Some(bytes) => Some(bytes@),
        None => None,
    }
}

/// `keys` lists, in the store's order, the keys of `m` that start with `prefix`.
pub open spec fn is_scan_of(m: Map<Seq<u8>, Seq<u8>>, prefix: Seq<u8>, keys: Seq<Vec<u8>>) -> bool {
    &&& forall|i: int|
        0 <= i < keys.len() ==> m.dom().contains(#[trigger] keys[i]@) && prefix.is_prefix_of(
            keys[i]@,
        )
    &&& forall|k: Seq<u8>|
        #[trigger] m.dom().contains(k) && prefix.is_prefix_of(k) ==> exists|i: int|
            0 <= i < keys.len() && #[trigger] keys[i]@ == k
    &&& forall|i: int, j: int|
        0 <= i < j < keys.len() ==> keys[i]@ != keys[j]@ && bytes_lt(
            #[trigger] keys[i]@,
            #[trigger] keys[j]@,
        )
}

/// Calls `sled::open`. Nothing is claimed of what the database holds: that is
/// whatever the directory at `path` held.
#[verifier::external_body]
pub(crate) fn db_open(path: &str) -> (r: Result<sled::Db, sled::Error>) {
    sled::open(path)
}

/// Calls `sled::Tree::get` on the default tree. When sled answers, the answer
/// is what the tree holds at `key`.
#[verifier::external_body]
pub(crate) fn db_get(db: &sled::Db, key: &[u8]) -> (r: Result<Option<Vec<u8>>, sled::Error>)
    ensures
        r matches Ok(found) ==> bytes_of(found) == slot(db_contents(*db), key@),
{
    match db.get(key) {
        Ok(found) => Ok(found.map(|v| v.to_vec())),
        Err(e) => Err(e),
    }
}

/// Calls `sled::Tree::insert` on the default tree. When sled answers, the tree
/// holds `value` at `key` and is otherwise as before. The value that was
/// there is dropped.
#[verifier::external_body]
pub(crate) fn db_insert(db: &mut sled::Db, key: &[u8], value: Vec<u8>) -> (r: Result<
    (),
    sled::Error,
>)
    ensures
        r is Ok ==> db_contents(*final(db)) == db_contents(*old(db)).insert(key@, value@),
{
    match db.insert(key, value) {
        Ok(_) => Ok(()),
        Err(e) => Err(e),
    }
}

/// Calls `sled::Tree::remove` on the default tree. When sled answers, the tree
/// holds nothing at `key` and is otherwise as before.
#[verifier::external_body]
pub(crate) fn db_remove(db: &mut sled::Db, key: &[u8]) -> (r: Result<(), sled::Error>)
    ensures
        r is Ok ==> db_contents(*final(db)) == db_contents(*old(db)).remove(key@),
{
    match db.remove(key) {
        Ok(_) => Ok(()),
        Err(e) => Err(e),
    }
}

/// Calls `sled::Tree::fetch_and_update` on the default tree, with
/// `advance_counter` as the update. When sled answers, the answer is what the
/// tree held at `key`, and the tree now holds there what `advance_counter`
/// makes of it, in one atomic step.
#[verifier::external_body]
pub(crate) fn db_fetch_and_advance(db: &mut sled::Db, key: &[u8]) -> (r: Result<
    Option<Vec<u8>>,
    sled::Error,
>)
    ensures
        r matches Ok(before) ==> bytes_of(before) == slot(db_contents(*old(db)), key@)
            && db_contents(*final(db)) == with_slot(
            db_contents(*old(db)),
            key@,
            slot_after(bytes_of(before)),
        ),
{
    match db.fetch_and_update(key, |held: Option<&[u8]>| advance_counter(held)) {
        Ok(before) => Ok(before.map(|v| v.to_vec())),
        Err(e) => Err(e),
    }
}

/// Calls `sled::Tree::scan_prefix` on the default tree and collects the keys
/// it walks. When sled answers for every entry, these are the keys of the tree
/// that start with `prefix`, each once, in ascending byte order.
#[verifier::external_body]
pub(crate) fn db_scan_keys(db: &sled::Db, prefix: &[u8]) -> (r: Result<Vec<Vec<u8>>, sled::Error>)
    ensures
        r matches Ok(keys) ==> is_scan_of(db_contents(*db), prefix@, keys@),
{
    db.scan_prefix(prefix).keys().map(|k| k.map(|k| k.to_vec())).collect()
}

} // verus!
