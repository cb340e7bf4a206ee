//! The counter slot of a table: eight bytes, little endian, that hold the
//! next key to give out. An absent slot counts as zero.

use vstd::prelude::*;
use vstd::bytes::{spec_u64_from_le_bytes, spec_u64_to_le_bytes};

verus! {

/// The number that the bytes of a counter slot hold, if they hold one: the
/// first eight bytes, little endian. Bytes after them are ignored.
pub open spec fn counter_of_bytes(bytes: Seq<u8>) -> Option<u64> {
    if bytes.len() >= 8 {
        Some(spec_u64_from_le_bytes(bytes.subrange(0, 8)))
    } else {
        None
    }
}

/// The next key that a counter slot stands for: zero where the slot is
/// absent, nothing where its bytes hold no number.
pub open spec fn counter_value(held: Option<Seq<u8>>) -> Option<u64> {
    match held {
        None => Some(0),
        Some(bytes) => counter_of_bytes(bytes),
    }
}

/// What a counter slot holds after one key was taken from it: the next
/// number. A slot that holds no number, or the largest one, is left as it is.
pub open spec fn slot_after(held: Option<Seq<u8>>) -> Option<Seq<u8>> {
    match counter_value(held) {
        Some(n) => if n < u64::MAX {
            Some(spec_u64_to_le_bytes((n + 1) as u64))
        } else {
            held
        },
        None => held,
    }
}

/// The bytes of an optional byte slice.
pub open spec fn slice_bytes_of(value: Option<&[u8]>) -> Option<Seq<u8>> {
    match value {
        Some(bytes) => Some(bytes@),
        None => None,
    }
}

/// Calls `bincode::serialize` on a `u64`. With bincode's default options that
/// is the number's eight bytes, little endian, and it cannot fail.
#[verifier::external_body]
fn encode_counter(n: u64) -> (r: Option<Vec<u8>>)
    ensures
        crate::store::bytes_of(r) == Some(spec_u64_to_le_bytes(n)),
{
    bincode::serialize(&n).ok()
}

/// Calls `bincode::deserialize` for a `u64`. With bincode's default options it
/// reads the first eight bytes as a little-endian number, accepts bytes after
/// them, and fails on fewer than eight.
#[verifier::external_body]
fn decode_counter(bytes: &[u8]) -> (r: Option<u64>)
    ensures
        r == counter_of_bytes(bytes@),
{
    bincode::deserialize::<u64>(bytes).ok()
}

/// The next key that the bytes read from a counter slot stand for.
pub fn read_counter(held: &Option<Vec<u8>>) -> (r: Option<u64>)
    ensures
        r == counter_value(crate::store::bytes_of(*held)),
{
    match held {
        None => Some(0),
        Some(bytes) => decode_counter(bytes.as_slice()),
    }
}

/// The update that takes one key from a counter slot: from what the slot
/// holds to what it holds afterwards.
pub fn advance_counter(held: Option<&[u8]>) -> (r: Option<Vec<u8>>)
    ensures
        crate::store::bytes_of(r) == slot_after(slice_bytes_of(held)),
{
    match held {
        None => encode_counter(1),
        Some(bytes) => {
            match decode_counter(bytes) {
                Some(n) => {
                    if n < u64::MAX {
                        encode_counter(n + 1)
                    } else {
                        Some(vstd::slice::slice_to_vec(bytes))
                    }
                },
                None => Some(vstd::slice::slice_to_vec(bytes)),
            }
        },
    }
}

/// A counter slot that was advanced from `n` stands for `n + 1`.
pub proof fn lemma_counter_advances(held: Option<Seq<u8>>, n: u64)
    requires
        counter_value(held) == Some(n),
        n < u64::MAX,
    ensures
        counter_value(slot_after(held)) == Some((n + 1) as u64),
{
    vstd::bytes::lemma_auto_spec_u64_to_from_le_bytes();
    let next = spec_u64_to_le_bytes((n + 1) as u64);
    assert(next.subrange(0, 8) =~= next);
}

/// A counter slot never stands for less after a key was taken from it.
pub proof fn lemma_counter_never_falls(held: Option<Seq<u8>>, n: u64)
    requires
        counter_value(held) == Some(n),
    ensures
        counter_value(slot_after(held)) matches Some(m) && m >= n,
{
    if n < u64::MAX {
        lemma_counter_advances(held, n);
    }
}

} // verus!
