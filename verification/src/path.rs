//! Byte layout of a table inside the key-value store: where the counter of a
//! table lives, where its items live, and how an item's key is written.

use vstd::prelude::*;

verus! {

/// The bytes of `"/t/"`, with which every path starts.
pub open spec fn root_prefix() -> Seq<u8> {
    seq![47u8, 116u8, 47u8]
}

/// The bytes of `"/next_key/"`.
pub open spec fn counter_suffix() -> Seq<u8> {
    seq![47u8, 110u8, 101u8, 120u8, 116u8, 95u8, 107u8, 101u8, 121u8, 47u8]
}

/// The bytes of `"/i/"`.
pub open spec fn item_suffix() -> Seq<u8> {
    seq![47u8, 105u8, 47u8]
}

/// `"/t/<name>/next_key/"`: the slot that holds the next key of table `name`.
pub open spec fn counter_path(name: Seq<u8>) -> Seq<u8> {
    root_prefix() + name + counter_suffix()
}

/// `"/t/<name>/i/"`: the prefix under which the items of table `name` live.
pub open spec fn item_prefix(name: Seq<u8>) -> Seq<u8> {
    root_prefix() + name + item_suffix()
}

/// `"/t/<name>/i/<key in decimal>"`: the slot of item `key` of table `name`.
pub open spec fn item_path(name: Seq<u8>, key: u64) -> Seq<u8> {
    item_prefix(name) + decimal(key as nat)
}

/// A byte that is an ASCII digit.
pub open spec fn is_digit(b: u8) -> bool {
    48 <= b <= 57
}

/// The decimal digits of `n` in ASCII, most significant first, without
/// leading zeros.
pub open spec fn decimal(n: nat) -> Seq<u8>
    decreases n,
{
    if n < 10 {
        seq![(48 + n) as u8]
    } else {
        decimal(n / 10).push((48 + n % 10) as u8)
    }
}

/// The number that a sequence of ASCII digits denotes.
pub open spec fn digits_value(s: Seq<u8>) -> nat
    decreases s.len(),
{
    if s.len() == 0 {
        0
    } else {
        digits_value(s.drop_last()) * 10 + (s.last() - 48) as nat
    }
}

/// Lexicographic order on byte strings, the order in which the store keeps
/// its keys.
pub open spec fn bytes_lt(a: Seq<u8>, b: Seq<u8>) -> bool
    decreases a.len(),
{
    if b.len() == 0 {
        false
    } else if a.len() == 0 {
        true
    } else if a[0] != b[0] {
        a[0] < b[0]
    } else {
        bytes_lt(a.drop_first(), b.drop_first())
    }
}

/// The decimal form of a number is never empty, holds digits only, has one
/// digit exactly for numbers under ten, and starts with a zero only for zero.
pub proof fn lemma_decimal_shape(n: nat)
    ensures
        decimal(n).len() >= 1,
        forall|i: int| 0 <= i < decimal(n).len() ==> is_digit(#[trigger] decimal(n)[i]),
        n < 10 <==> decimal(n).len() == 1,
        n >= 1 ==> decimal(n)[0] != 48,
    decreases n,
{
    if n >= 10 {
        lemma_decimal_shape(n / 10);
    }
}

/// Reading the decimal form of a number gives the number back.
pub proof fn lemma_value_of_decimal(n: nat)
    ensures
        digits_value(decimal(n)) == n,
    decreases n,
{
    if n < 10 {
        assert(decimal(n).drop_last() =~= Seq::<u8>::empty());
        assert(digits_value(decimal(n).drop_last()) == 0);
    } else {
        lemma_value_of_decimal(n / 10);
        assert(decimal(n).drop_last() =~= decimal(n / 10));
    }
}

/// A prefix of a digit string denotes no more than the whole string.
pub proof fn lemma_value_monotone(s: Seq<u8>, i: int)
    requires
        0 <= i <= s.len(),
    ensures
        digits_value(s.take(i)) <= digits_value(s),
    decreases s.len() - i,
{
    if i < s.len() {
        lemma_value_monotone(s.drop_last(), i);
        assert(s.drop_last().take(i) =~= s.take(i));
    } else {
        assert(s.take(i) =~= s);
    }
}

/// A non-empty digit string without a leading zero (but for `"0"` itself) is
/// the decimal form of the number it denotes.
pub proof fn lemma_canonical_digits(s: Seq<u8>)
    requires
        s.len() >= 1,
        forall|i: int| 0 <= i < s.len() ==> is_digit(#[trigger] s[i]),
        s.len() == 1 || s[0] != 48,
    ensures
        decimal(digits_value(s)) == s,
    decreases s.len(),
{
    if s.len() == 1 {
        assert(s.drop_last() =~= Seq::<u8>::empty());
        assert(digits_value(s.drop_last()) == 0);
        assert(decimal(digits_value(s)) =~= s);
    } else {
        let p = s.drop_last();
        lemma_canonical_digits(p);
        lemma_value_monotone(p, 1);
        assert(p.take(1).drop_last() =~= Seq::<u8>::empty());
        assert(digits_value(p.take(1).drop_last()) == 0);
        assert(digits_value(p.take(1)) == (p[0] - 48) as nat);
        let v = digits_value(s);
        assert(v / 10 == digits_value(p) && v % 10 == (s.last() - 48) as nat) by {
            assert(v == digits_value(p) * 10 + (s.last() - 48) as nat);
        }
        assert(decimal(v) =~= s);
    }
}

/// Two numbers with the same decimal form are the same number.
pub proof fn lemma_decimal_injective(a: nat, b: nat)
    requires
        decimal(a) == decimal(b),
    ensures
        a == b,
{
    lemma_value_of_decimal(a);
    lemma_value_of_decimal(b);
}

/// The item slots of one table are told apart by their keys.
pub proof fn lemma_item_path_injective(name: Seq<u8>, a: u64, b: u64)
    requires
        item_path(name, a) == item_path(name, b),
    ensures
        a == b,
{
    let p = item_prefix(name);
    assert(item_path(name, a).subrange(p.len() as int, item_path(name, a).len() as int)
        =~= decimal(a as nat));
    assert(item_path(name, b).subrange(p.len() as int, item_path(name, b).len() as int)
        =~= decimal(b as nat));
    lemma_decimal_injective(a as nat, b as nat);
}

/// The counter slot of a table is none of its item slots, nor does it lie
/// under the item prefix.
pub proof fn lemma_counter_apart_from_items(name: Seq<u8>)
    ensures
        !item_prefix(name).is_prefix_of(counter_path(name)),
        forall|key: u64| counter_path(name) != #[trigger] item_path(name, key),
{
    let at: int = (name.len() + 4) as int;
    assert(counter_path(name)[at] == 110u8);
    assert(item_prefix(name)[at] == 105u8);
    assert forall|key: u64| counter_path(name) != #[trigger] item_path(name, key) by {
        assert(item_path(name, key)[at] == 105u8);
    }
}

/// Every item slot of a table lies under the table's item prefix.
pub proof fn lemma_item_path_under_prefix(name: Seq<u8>, key: u64)
    ensures
        item_prefix(name).is_prefix_of(item_path(name, key)),
{
    assert(item_path(name, key).subrange(0, item_prefix(name).len() as int) =~= item_prefix(name));
}

/// Two byte strings that start alike are ordered as what follows the common
/// start.
pub proof fn lemma_order_after_common_prefix(p: Seq<u8>, a: Seq<u8>, b: Seq<u8>)
    ensures
        bytes_lt(p + a, p + b) == bytes_lt(a, b),
    decreases p.len(),
{
    if p.len() == 0 {
        assert(p + a =~= a);
        assert(p + b =~= b);
    } else {
        lemma_order_after_common_prefix(p.drop_first(), a, b);
        assert((p + a).drop_first() =~= p.drop_first() + a);
        assert((p + b).drop_first() =~= p.drop_first() + b);
    }
}

/// The item slots of one table are ordered as the decimal forms of their
/// keys, read as byte strings: `10` stands before `2`.
pub proof fn lemma_item_paths_in_decimal_order(name: Seq<u8>, a: u64, b: u64)
    ensures
        bytes_lt(item_path(name, a), item_path(name, b)) == bytes_lt(
            decimal(a as nat),
            decimal(b as nat),
        ),
{
    lemma_order_after_common_prefix(item_prefix(name), decimal(a as nat), decimal(b as nat));
}

/// Appends the decimal form of `key` to `out`.
pub fn push_decimal(out: &mut Vec<u8>, key: u64)
    ensures
        final(out)@ == old(out)@ + decimal(key as nat),
    decreases key,
{
    if key >= 10 {
        push_decimal(out, key / 10);
    }
    let digit: u8 = (key % 10) as u8;
    out.push(48 + digit);
    proof {
        if key >= 10 {
            assert(final(out)@ =~= old(out)@ + decimal(key as nat));
        } else {
            assert(final(out)@ =~= old(out)@ + decimal(key as nat));
        }
    }
}

/// Reads a key back from its decimal form. Only the form that `push_decimal`
/// writes is a key: digits alone, no sign, no leading zero, and a value that
/// fits 64 bits.
pub fn parse_decimal(s: &[u8]) -> (r: Option<u64>)
    ensures
        match r {
            Some(key) => decimal(key as nat) == s@,
            None => forall|key: u64| decimal(key as nat) != s@,
        },
{
    let n: usize = s.len();
    if n == 0 {
        proof {
            assert forall|key: u64| decimal(key as nat) != s@ by {
                lemma_decimal_shape(key as nat);
            }
        }
        return None;
    }
    if n > 1 && s[0] == 48 {
        proof {
            assert forall|key: u64| decimal(key as nat) != s@ by {
                lemma_decimal_shape(key as nat);
            }
        }
        return None;
    }
    let mut acc: u64 = 0;
    let mut i: usize = 0;
    proof {
        assert(s@.take(0) =~= Seq::<u8>::empty());
    }
    while i < n
        invariant
            n == s.len(),
            i <= n,
            forall|j: int| 0 <= j < i ==> is_digit(#[trigger] s@[j]),
            acc == digits_value(s@.take(i as int)),
        decreases n - i,
    {
        let c: u8 = s[i];
        if c < 48 || c > 57 {
            proof {
                assert forall|key: u64| decimal(key as nat) != s@ by {
                    lemma_decimal_shape(key as nat);
                }
            }
            return None;
        }
        let d: u64 = (c - 48) as u64;
        proof {
            assert(s@.take(i + 1).drop_last() =~= s@.take(i as int));
            assert(digits_value(s@.take(i + 1)) == acc * 10 + d);
        }
        if acc > (u64::MAX - d) / 10 {
            proof {
                assert(acc * 10 + d > u64::MAX);
                assert forall|key: u64| decimal(key as nat) != s@ by {
                    if decimal(key as nat) == s@ {
                        lemma_value_of_decimal(key as nat);
                        lemma_value_monotone(s@, i + 1);
                    }
                }
            }
            return None;
        }
        acc = acc * 10 + d;
        i = i + 1;
    }
    proof {
        assert(s@.take(n as int) =~= s@);
        lemma_canonical_digits(s@);
    }
    Some(acc)
}

/// Appends `part` to `out`.
fn push_bytes(out: &mut Vec<u8>, part: &[u8])
    ensures
        final(out)@ == old(out)@ + part@,
{
    let mut i: usize = 0;
    while i < part.len()
        invariant
            i <= part.len(),
            out@ == old(out)@ + part@.take(i as int),
        decreases part.len() - i,
    {
        out.push(part[i]);
        i = i + 1;
        proof {
            assert(out@ =~= old(out)@ + part@.take(i as int));
        }
    }
    proof {
        assert(part@.take(part.len() as int) =~= part@);
    }
}

/// Builds the path of the counter slot of table `name`.
pub fn build_counter_path(name: &[u8]) -> (path: Vec<u8>)
    ensures
        path@ == counter_path(name@),
{
    let mut path: Vec<u8> = Vec::new();
    path.push(47);
    path.push(116);
    path.push(47);
    push_bytes(&mut path, name);
    path.push(47);
    path.push(110);
    path.push(101);
    path.push(120);
    path.push(116);
    path.push(95);
    path.push(107);
    path.push(101);
    path.push(121);
    path.push(47);
    proof {
        assert(path@ =~= counter_path(name@));
    }
    path
}

/// Builds the prefix of the item slots of table `name`.
pub fn build_item_prefix(name: &[u8]) -> (path: Vec<u8>)
    ensures
        path@ == item_prefix(name@),
{
    let mut path: Vec<u8> = Vec::new();
    path.push(47);
    path.push(116);
    path.push(47);
    push_bytes(&mut path, name);
    path.push(47);
    path.push(105);
    path.push(47);
    proof {
        assert(path@ =~= item_prefix(name@));
    }
    path
}

/// Builds the path of the slot of item `key` of table `name`.
pub fn build_item_path(name: &[u8], key: u64) -> (path: Vec<u8>)
    ensures
        path@ == item_path(name@, key),
{
    let mut path = build_item_prefix(name);
    push_decimal(&mut path, key);
    path
}

/// Reads the key out of a path: the key whose item slot in table `name` the
/// path is, if it is one.
pub fn key_of_item_path(name: &[u8], path: &[u8]) -> (r: Option<u64>)
    ensures
        match r {
            Some(key) => path@ == item_path(name@, key),
            None => forall|key: u64| path@ != item_path(name@, key),
        },
{
    let prefix = build_item_prefix(name);
    let skip: usize = prefix.len();
    if path.len() < skip {
        proof {
            assert forall|key: u64| path@ != item_path(name@, key) by {
                lemma_item_path_under_prefix(name@, key);
            }
        }
        return None;
    }
    let mut i: usize = 0;
    while i < skip
        invariant
            i <= skip,
            skip == prefix.len(),
            skip <= path.len(),
            prefix@ == item_prefix(name@),
            forall|j: int| 0 <= j < i ==> path@[j] == prefix@[j],
        decreases skip - i,
    {
        if path[i] != prefix[i] {
            proof {
                assert forall|key: u64| path@ != item_path(name@, key) by {
                    lemma_item_path_under_prefix(name@, key);
                    if path@ == item_path(name@, key) {
                        assert(path@.subrange(0, skip as int)[i as int] == prefix@[i as int]);
                    }
                }
            }
            return None;
        }
        i = i + 1;
    }
    let rest = vstd::slice::slice_subrange(path, skip, path.len());
    let r = parse_decimal(rest);
    proof {
        let p = item_prefix(name@);
        assert(path@.subrange(0, skip as int) =~= p);
        assert(path@ =~= p + rest@);
        assert forall|key: u64| path@ == item_path(name@, key) implies decimal(key as nat)
            == rest@ by {
            assert(item_path(name@, key).subrange(skip as int, path@.len() as int) =~= decimal(
                key as nat,
            ));
        }
    }
    r
}

} // verus!
