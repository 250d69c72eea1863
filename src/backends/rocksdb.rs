//! The LSM engine side: the merge operators the engine is opened with, and
//! the writes each primitive operation becomes when read-modify-write is
//! pushed down to the engine.
use crate::codec::{Decode, Encode};
use crate::primitives::{count_in, count_of_record, merged, value_of_record, ManagedCount, ManagedMap, ManagedValue};
use crate::{bytes_view, i64_wrapping_add, i64_wrapping_sub, Rmw};
use vstd::prelude::*;

verus! {

/// The views of a list of byte strings.
pub open spec fn operand_views(operands: Seq<Vec<u8>>) -> Seq<Seq<u8>> {
    operands.map_values(|o: Vec<u8>| o@)
}

/// The sum of an existing count and every operand; `None` when a record does
/// not decode. A missing existing count is 0.
pub open spec fn sum_numbers(existing: Option<Seq<u8>>, operands: Seq<Seq<u8>>) -> Option<i64>
    decreases operands.len(),
{
    if operands.len() == 0 {
        match existing {
            Some(bytes) => <i64 as Decode>::decoding(bytes),
            None => Some(0),
        }
    } else {
        match (sum_numbers(existing, operands.drop_last()), <i64 as Decode>::decoding(operands.last())) {
            (Some(total), Some(n)) => Some(i64_wrapping_add(total, n)),
            _ => None,
        }
    }
}

/// Once a prefix of the operands fails to decode, so does the whole list.
proof fn lemma_sum_numbers_failure_persists(existing: Option<Seq<u8>>, operands: Seq<Seq<u8>>, j: int)
    requires
        0 <= j <= operands.len(),
        sum_numbers(existing, operands.subrange(0, j)) is None,
    ensures
        sum_numbers(existing, operands) is None,
    decreases operands.len() - j,
{
    if j < operands.len() {
        assert(operands.subrange(0, j + 1).drop_last() == operands.subrange(0, j));
        lemma_sum_numbers_failure_persists(existing, operands, j + 1);
    } else {
        assert(operands.subrange(0, j) == operands);
    }
}

/// The merge operator for counters: adds every operand to the existing
/// count (0 when there is none), wrapping on overflow.
pub fn merge_numbers(existing: Option<&[u8]>, operands: &Vec<Vec<u8>>) -> (r: Option<Vec<u8>>)
    ensures
        match sum_numbers(
            match existing {
                Some(e) => Some(e@),
                None => None,
            },
            operand_views(operands@),
        ) {
            Some(total) => r matches Some(bytes) && bytes@ == total.encoding(),
            None => r is None,
        },
{
    let ghost start = match existing {
        Some(e) => Some(e@),
        None => None,
    };
    let ghost ops = operand_views(operands@);
    let mut total: i64 = match existing {
        Some(e) => match i64::decode(e) {
            Some(n) => n,
            None => {
                proof {
                    lemma_sum_numbers_failure_persists(start, ops, 0);
                }
                return None;
            },
        },
        None => 0,
    };
    let mut i: usize = 0;
    while i < operands.len()
        invariant
            i <= operands@.len(),
            ops == operand_views(operands@),
            start == match existing {
                Some(e) => Some(e@),
                None => None,
            },
            sum_numbers(start, ops.subrange(0, i as int)) == Some(total),
        decreases operands@.len() - i,
    {
        assert(ops.subrange(0, i + 1).drop_last() == ops.subrange(0, i as int));
        match i64::decode(operands[i].as_slice()) {
            Some(n) => {
                total = total.wrapping_add(n);
            },
            None => {
                proof {
                    let pre = ops.subrange(0, i + 1);
                    assert(pre.last() == operands@[i as int]@);
                    assert(pre.drop_last() == ops.subrange(0, i as int));
                    assert(sum_numbers(start, pre) is None);
                    lemma_sum_numbers_failure_persists(start, ops, i + 1);
                }
                return None;
            },
        }
        i = i + 1;
    }
    assert(ops.subrange(0, i as int) == ops);
    Some(total.encode())
}

/// Merging every operand, in order, into the existing value: `None` when a
/// record does not decode, `Some(None)` when there is nothing at all.
pub open spec fn merge_all<V: Decode + Rmw>(existing: Option<Seq<u8>>, operands: Seq<Seq<u8>>) -> Option<Option<V>>
    decreases operands.len(),
{
    if operands.len() == 0 {
        match existing {
            Some(bytes) => match V::decoding(bytes) {
                Some(v) => Some(Some(v)),
                None => None,
            },
            None => Some(None),
        }
    } else {
        match (merge_all::<V>(existing, operands.drop_last()), V::decoding(operands.last())) {
            (Some(acc), Some(m)) => Some(Some(merged(acc, m))),
            _ => None,
        }
    }
}

/// Once a prefix of the operands fails to decode, so does the whole list.
proof fn lemma_merge_all_failure_persists<V: Decode + Rmw>(existing: Option<Seq<u8>>, operands: Seq<Seq<u8>>, j: int)
    requires
        0 <= j <= operands.len(),
        merge_all::<V>(existing, operands.subrange(0, j)) is None,
    ensures
        merge_all::<V>(existing, operands) is None,
    decreases operands.len() - j,
{
    if j < operands.len() {
        assert(operands.subrange(0, j + 1).drop_last() == operands.subrange(0, j));
        lemma_merge_all_failure_persists::<V>(existing, operands, j + 1);
    } else {
        assert(operands.subrange(0, j) == operands);
    }
}

/// The merge operator for values of one type: folds every operand into the
/// existing value with the value's own read-modify-write.
pub fn merge_operator<V: Decode + Rmw>(existing: Option<&[u8]>, operands: &Vec<Vec<u8>>) -> (r: Option<Vec<u8>>)
    ensures
        match merge_all::<V>(
            match existing {
                Some(e) => Some(e@),
                None => None,
            },
            operand_views(operands@),
        ) {
            Some(Some(v)) => r matches Some(bytes) && bytes@ == v.encoding(),
            _ => r is None,
        },
{
    let ghost start = match existing {
        Some(e) => Some(e@),
        None => None,
    };
    let ghost ops = operand_views(operands@);
    let mut acc: Option<V> = match existing {
        Some(e) => match V::decode(e) {
            Some(v) => Some(v),
            None => {
                proof {
                    lemma_merge_all_failure_persists::<V>(start, ops, 0);
                }
                return None;
            },
        },
        None => None,
    };
    let mut i: usize = 0;
    while i < operands.len()
        invariant
            i <= operands@.len(),
            ops == operand_views(operands@),
            start == match existing {
                Some(e) => Some(e@),
                None => None,
            },
            merge_all::<V>(start, ops.subrange(0, i as int)) == Some(acc),
        decreases operands@.len() - i,
    {
        assert(ops.subrange(0, i + 1).drop_last() == ops.subrange(0, i as int));
        match V::decode(operands[i].as_slice()) {
            Some(m) => {
                acc = match acc {
                    Some(v) => Some(v.rmw(m)),
                    None => Some(m),
                };
            },
            None => {
                proof {
                    let pre = ops.subrange(0, i + 1);
                    assert(pre.last() == operands@[i as int]@);
                    assert(pre.drop_last() == ops.subrange(0, i as int));
                    assert(merge_all::<V>(start, pre) is None);
                    lemma_merge_all_failure_persists::<V>(start, ops, i + 1);
                }
                return None;
            },
        }
        i = i + 1;
    }
    assert(ops.subrange(0, i as int) == ops);
    match acc {
        Some(v) => Some(v.encode()),
        None => None,
    }
}

/// One write to an LSM engine.
pub enum LsmWrite {
    /// Store `value` under `key`, written without the write-ahead log.
    Put { key: Vec<u8>, value: Vec<u8> },
    /// Hand `operand` to the engine's merge operator for `key`.
    Merge { key: Vec<u8>, operand: Vec<u8> },
    /// Delete the record under `key`.
    Delete { key: Vec<u8> },
}

impl LsmWrite {
    pub open spec fn is_put(&self, key: Seq<u8>, value: Seq<u8>) -> bool {
        self matches LsmWrite::Put { key: k, value: v } && k@ == key && v@ == value
    }

    pub open spec fn is_merge(&self, key: Seq<u8>, operand: Seq<u8>) -> bool {
        self matches LsmWrite::Merge { key: k, operand: o } && k@ == key && o@ == operand
    }

    pub open spec fn is_delete(&self, key: Seq<u8>) -> bool {
        self matches LsmWrite::Delete { key: k } && k@ == key
    }
}

/// A counter on an LSM engine opened with `merge_numbers`.
pub struct RocksDBManagedCount {
    count: ManagedCount,
}

impl RocksDBManagedCount {
    pub closed spec fn key(&self) -> Seq<u8> {
        self.count.key()
    }

    pub fn new(name: &str) -> (r: RocksDBManagedCount)
        ensures
            r.key() == crate::codec::str_encoding(name@),
    {
        RocksDBManagedCount { count: ManagedCount::new(name) }
    }

    /// The key to read the counter from.
    pub fn read_key(&self) -> (r: Vec<u8>)
        ensures
            r@ == self.key(),
    {
        self.count.physical_key()
    }

    /// The counter held by what the engine returned for its key.
    pub fn count_of(&self, stored: Option<Vec<u8>>) -> (r: i64)
        ensures
            r == count_of_record(bytes_view(stored)),
    {
        self.count.count_of(stored)
    }

    pub fn increase(&self, amount: i64) -> (r: LsmWrite)
        ensures
            r.is_merge(self.key(), amount.encoding()),
    {
        LsmWrite::Merge { key: self.read_key(), operand: amount.encode() }
    }

    /// The operand is the negated amount, wrapping for `i64::MIN`.
    pub fn decrease(&self, amount: i64) -> (r: LsmWrite)
        ensures
            r.is_merge(self.key(), i64_wrapping_sub(0, amount).encoding()),
    {
        let negated: i64 = 0i64.wrapping_sub(amount);
        LsmWrite::Merge { key: self.read_key(), operand: negated.encode() }
    }

    pub fn set(&self, value: i64) -> (r: LsmWrite)
        ensures
            r.is_put(self.key(), value.encoding()),
    {
        LsmWrite::Put { key: self.read_key(), value: value.encode() }
    }
}

/// A single value on an LSM engine opened with `merge_operator` for its type.
pub struct RocksDBManagedValue<V> {
    value: ManagedValue<V>,
}

impl<V: Decode + Rmw> RocksDBManagedValue<V> {
    pub closed spec fn key(&self) -> Seq<u8> {
        self.value.key()
    }

    pub fn new(name: &str) -> (r: RocksDBManagedValue<V>)
        ensures
            r.key() == crate::codec::str_encoding(name@),
    {
        RocksDBManagedValue { value: ManagedValue::new(name) }
    }

    pub fn read_key(&self) -> (r: Vec<u8>)
        ensures
            r@ == self.key(),
    {
        self.value.physical_key()
    }

    /// The value held by what the engine returned for its key.
    pub fn value_of(&self, stored: Option<Vec<u8>>) -> (r: Option<V>)
        ensures
            r == value_of_record::<V>(bytes_view(stored)),
    {
        self.value.value_of(stored)
    }

    pub fn set(&self, value: &V) -> (r: LsmWrite)
        ensures
            r.is_put(self.key(), value.encoding()),
    {
        LsmWrite::Put { key: self.read_key(), value: value.encode() }
    }

    pub fn rmw(&self, modification: &V) -> (r: LsmWrite)
        ensures
            r.is_merge(self.key(), modification.encoding()),
    {
        LsmWrite::Merge { key: self.read_key(), operand: modification.encode() }
    }

    /// Taking the value deletes its record.
    pub fn take(&self) -> (r: LsmWrite)
        ensures
            r.is_delete(self.key()),
    {
        LsmWrite::Delete { key: self.read_key() }
    }
}

/// A map on an LSM engine opened with `merge_operator` for its value type.
pub struct RocksDBManagedMap<K, V> {
    map: ManagedMap<K, V>,
}

impl<K: Encode, V: Decode + Rmw> RocksDBManagedMap<K, V> {
    pub closed spec fn entry_key(&self, key: K) -> Seq<u8> {
        self.map.entry_key(key)
    }

    pub closed spec fn map(&self) -> ManagedMap<K, V> {
        self.map
    }

    pub fn new(name: &str) -> (r: RocksDBManagedMap<K, V>)
        ensures
            r.map().prefix() == crate::codec::str_encoding(name@),
            forall|k: K| #[trigger] r.entry_key(k) == r.map().entry_key(k),
    {
        RocksDBManagedMap { map: ManagedMap::new(name) }
    }

    /// The key to read the entry for `key` from.
    pub fn prefix_key(&self, key: &K) -> (r: Vec<u8>)
        ensures
            r@ == self.entry_key(*key),
    {
        self.map.prefix_key(key)
    }

    /// The value held by what the engine returned for an entry.
    pub fn value_of(&self, stored: Option<Vec<u8>>) -> (r: Option<V>)
        ensures
            r == value_of_record::<V>(bytes_view(stored)),
    {
        self.map.value_of(stored)
    }

    pub fn insert(&self, key: &K, value: &V) -> (r: LsmWrite)
        ensures
            r.is_put(self.entry_key(*key), value.encoding()),
    {
        LsmWrite::Put { key: self.prefix_key(key), value: value.encode() }
    }

    pub fn rmw(&self, key: &K, modification: &V) -> (r: LsmWrite)
        ensures
            r.is_merge(self.entry_key(*key), modification.encoding()),
    {
        LsmWrite::Merge { key: self.prefix_key(key), operand: modification.encode() }
    }

    /// Removing deletes the entry's own record, under the prefixed key.
    pub fn remove(&self, key: &K) -> (r: LsmWrite)
        ensures
            r.is_delete(self.entry_key(*key)),
    {
        LsmWrite::Delete { key: self.prefix_key(key) }
    }
}

/// A counter's merge operand, folded in by `merge_numbers`, leaves the same
/// count as increasing it on the client side.
pub proof fn lemma_count_merge_is_increase(contents: Map<Seq<u8>, Seq<u8>>, count: ManagedCount, amount: i64)
    requires
        contents.contains_key(count.key()) ==> <i64 as Decode>::decoding(contents[count.key()]) is Some,
    ensures
        sum_numbers(crate::lookup(contents, count.key()), seq![amount.encoding()]) == Some(
            i64_wrapping_add(count_in(contents, count.key()), amount),
        ),
{
    reveal_with_fuel(sum_numbers, 2);
    <i64 as Decode>::lemma_round_trip(amount);
    let ops = seq![amount.encoding()];
    assert(ops.drop_last() =~= Seq::<Seq<u8>>::empty());
}

/// A map entry's merge operand, folded in by `merge_operator`, leaves the
/// same value as the client-side read-modify-write.
pub proof fn lemma_map_merge_is_rmw<K: Encode, V: Decode + Rmw>(
    contents: Map<Seq<u8>, Seq<u8>>,
    map: ManagedMap<K, V>,
    key: K,
    modification: V,
)
    requires
        contents.contains_key(map.entry_key(key)) ==> V::decoding(contents[map.entry_key(key)]) is Some,
    ensures
        merge_all::<V>(crate::lookup(contents, map.entry_key(key)), seq![modification.encoding()]) == Some(
            Some(merged(map.current(contents, key), modification)),
        ),
{
    reveal_with_fuel(merge_all, 2);
    V::lemma_round_trip(modification);
    let ops = seq![modification.encoding()];
    assert(ops.drop_last() =~= Seq::<Seq<u8>>::empty());
}

} // verus!
