//! What holds of the table operations taken together, over the store's
//! contents before and after them.

use vstd::prelude::*;
use crate::counter::{lemma_counter_advances, lemma_counter_never_falls};
use crate::path::{
    counter_path, item_path, item_prefix, lemma_counter_apart_from_items,
    lemma_item_path_injective,
};
use crate::table::{readable, Table, TableLayout};

verus! {

/// A record that was pushed is what its key gives back right after.
pub proof fn lemma_push_then_get<T: TableLayout>(
    table: &Table<T>,
    store: Map<Seq<u8>, Seq<u8>>,
    key: u64,
    record: T,
)
    requires
        table.next_key_of(store) == Some(key),
        key < u64::MAX,
        T::decoding(record.encoding()) == Some(record),
    ensures
        readable::<T>(table.entry(table.after_push(store, key, record), key)),
        table.record(table.after_push(store, key, record), key) == Some(record),
{
}

/// On a table whose counter slot was never written, the first key is zero.
pub proof fn lemma_first_key_is_zero<T: TableLayout>(table: &Table<T>, store: Map<Seq<u8>, Seq<u8>>)
    requires
        !store.dom().contains(counter_path(table.name())),
    ensures
        table.next_key_of(store) == Some(0u64),
{
}

/// After a push that gave `key`, the next push gives `key + 1`: keys rise by
/// one, without gaps.
pub proof fn lemma_push_gives_successive_keys<T: TableLayout>(
    table: &Table<T>,
    store: Map<Seq<u8>, Seq<u8>>,
    key: u64,
    record: T,
)
    requires
        table.next_key_of(store) == Some(key),
        key < u64::MAX,
    ensures
        table.next_key_of(table.after_push(store, key, record)) == Some((key + 1) as u64),
{
    lemma_counter_apart_from_items(table.name());
    lemma_counter_advances(crate::store::slot(store, counter_path(table.name())), key);
}

/// Taking a key never moves the counter back: a counter that stands for a
/// number stands for that number or a larger one afterwards.
pub proof fn lemma_counter_is_monotonic<T: TableLayout>(
    table: &Table<T>,
    store: Map<Seq<u8>, Seq<u8>>,
    n: u64,
)
    requires
        table.next_key_of(store) == Some(n),
    ensures
        table.next_key_of(table.after_next_key(store)) matches Some(m) && m >= n,
{
    lemma_counter_never_falls(crate::store::slot(store, counter_path(table.name())), n);
}

/// Setting or emptying a slot leaves the counter as it was: only `push`
/// moves it.
pub proof fn lemma_store_keeps_counter<T: TableLayout>(
    table: &Table<T>,
    store: Map<Seq<u8>, Seq<u8>>,
    key: u64,
    value: Option<T>,
)
    ensures
        table.next_key_of(table.after_store(store, key, value)) == table.next_key_of(store),
{
    lemma_counter_apart_from_items(table.name());
}

/// Taking a key from the counter changes no slot of the table.
pub proof fn lemma_next_key_keeps_slots<T: TableLayout>(
    table: &Table<T>,
    store: Map<Seq<u8>, Seq<u8>>,
    key: u64,
)
    ensures
        table.entry(table.after_next_key(store), key) == table.entry(store, key),
{
    lemma_counter_apart_from_items(table.name());
}

/// After a delete the slot is empty, whatever it held and whether or not its
/// key was ever given out.
pub proof fn lemma_delete_then_get<T: TableLayout>(
    table: &Table<T>,
    store: Map<Seq<u8>, Seq<u8>>,
    key: u64,
)
    ensures
        table.entry(table.after_store(store, key, None), key) is None,
        table.record(table.after_store(store, key, None), key) is None,
        !table.present_keys(table.after_store(store, key, None)).contains(key),
{
}

/// Putting a record into a slot that was empty stores it: the slot then
/// gives that record.
pub proof fn lemma_update_stores_on_absence<T: TableLayout>(
    table: &Table<T>,
    store: Map<Seq<u8>, Seq<u8>>,
    key: u64,
    record: T,
)
    requires
        table.entry(store, key) is None,
        T::decoding(record.encoding()) == Some(record),
    ensures
        readable::<T>(table.entry(table.after_store(store, key, Some(record)), key)),
        table.record(table.after_store(store, key, Some(record)), key) == Some(record),
{
}

/// Putting nothing into a slot that held a record empties it.
pub proof fn lemma_update_deletes_on_clear<T: TableLayout>(
    table: &Table<T>,
    store: Map<Seq<u8>, Seq<u8>>,
    key: u64,
    held: T,
)
    requires
        table.record(store, key) == Some(held),
    ensures
        table.record(table.after_store(store, key, None), key) is None,
        table.entry(table.after_store(store, key, None), key) is None,
{
}

/// Setting or emptying one slot leaves every other slot of the table as it
/// was.
pub proof fn lemma_store_keeps_other_slots<T: TableLayout>(
    table: &Table<T>,
    store: Map<Seq<u8>, Seq<u8>>,
    key: u64,
    value: Option<T>,
    other: u64,
)
    requires
        other != key,
    ensures
        table.entry(table.after_store(store, key, value), other) == table.entry(store, other),
{
    if item_path(table.name(), key) == item_path(table.name(), other) {
        lemma_item_path_injective(table.name(), key, other);
    }
}

/// The present keys after a slot was set are those before and its key; after
/// it was emptied, those before without its key.
pub proof fn lemma_store_changes_one_key<T: TableLayout>(
    table: &Table<T>,
    store: Map<Seq<u8>, Seq<u8>>,
    key: u64,
    value: Option<T>,
)
    ensures
        table.present_keys(table.after_store(store, key, value)) == if value is Some {
            table.present_keys(store).insert(key)
        } else {
            table.present_keys(store).remove(key)
        },
{
    let after = table.after_store(store, key, value);
    let expected = if value is Some {
        table.present_keys(store).insert(key)
    } else {
        table.present_keys(store).remove(key)
    };
    assert forall|other: u64| table.present_keys(after).contains(other) == expected.contains(
        other,
    ) by {
        if other != key {
            lemma_store_keeps_other_slots(table, store, key, value, other);
        }
    }
    assert(table.present_keys(after) =~= expected);
}

/// A store that holds nothing has nothing under any table's item prefix.
pub proof fn lemma_empty_store_is_clean<T: TableLayout>(table: &Table<T>)
    ensures
        table.region_clean(Map::<Seq<u8>, Seq<u8>>::empty()),
        table.present_keys(Map::<Seq<u8>, Seq<u8>>::empty()) == Set::<u64>::empty(),
        table.next_key_of(Map::<Seq<u8>, Seq<u8>>::empty()) == Some(0u64),
{
    assert(table.present_keys(Map::<Seq<u8>, Seq<u8>>::empty()) =~= Set::<u64>::empty());
}

/// What a table writes keeps its item region clean: after setting or
/// emptying a slot, and after taking a key, every path under the item prefix
/// is still the path of a slot, so `keys` still lists them.
pub proof fn lemma_writes_keep_region_clean<T: TableLayout>(
    table: &Table<T>,
    store: Map<Seq<u8>, Seq<u8>>,
    key: u64,
    value: Option<T>,
)
    requires
        table.region_clean(store),
    ensures
        table.region_clean(table.after_store(store, key, value)),
        table.region_clean(table.after_next_key(store)),
{
    lemma_counter_apart_from_items(table.name());
    let stored = table.after_store(store, key, value);
    assert forall|p: Seq<u8>|
        #[trigger] stored.dom().contains(p) && item_prefix(table.name()).is_prefix_of(
            p,
        ) implies exists|k: u64| p == #[trigger] item_path(table.name(), k) by {
        if p == item_path(table.name(), key) {
        } else {
            assert(store.dom().contains(p));
        }
    }
    let taken = table.after_next_key(store);
    assert forall|p: Seq<u8>|
        #[trigger] taken.dom().contains(p) && item_prefix(table.name()).is_prefix_of(
            p,
        ) implies exists|k: u64| p == #[trigger] item_path(table.name(), k) by {
        assert(store.dom().contains(p));
    }
}

/// Two tables of one name over one store are one table: each sees what the
/// other wrote, and they share the counter.
pub proof fn lemma_same_name_same_table<T: TableLayout>(
    first: &Table<T>,
    second: &Table<T>,
    store: Map<Seq<u8>, Seq<u8>>,
    key: u64,
    value: Option<T>,
)
    requires
        first.name() == second.name(),
    ensures
        second.entry(first.after_store(store, key, value), key) == first.entry(
            first.after_store(store, key, value),
            key,
        ),
        second.after_store(store, key, value) == first.after_store(store, key, value),
        second.after_next_key(store) == first.after_next_key(store),
        second.next_key_of(store) == first.next_key_of(store),
        second.present_keys(store) == first.present_keys(store),
        forall|other: u64| second.entry(store, other) == first.entry(store, other),
{
    assert(second.present_keys(store) =~= first.present_keys(store));
}

} // verus!
