//! Managed primitives: typed counters, values and maps over the byte-level
//! records of a backend.
use crate::codec::{copy_bytes, serialize_str, str_encoding, Decode, Encode};
use crate::{bytes_view, i64_wrapping_add, i64_wrapping_sub, lookup, Rmw, StateBackend};
use std::marker::PhantomData;
use std::rc::Rc;
use vstd::bytes::{lemma_auto_spec_u64_to_from_le_bytes, spec_u64_to_le_bytes};
use vstd::prelude::*;
use vstd::utf8::{encode_utf8, encode_utf8_decode_utf8};

verus! {

/// The count a record holds; a missing or unreadable record counts as 0.
pub open spec fn count_of_record(stored: Option<Seq<u8>>) -> i64 {
    match stored {
        Some(bytes) => match <i64 as Decode>::decoding(bytes) {
            Some(n) => n,
            None => 0,
        },
        None => 0,
    }
}

/// The count stored under `key`.
pub open spec fn count_in(contents: Map<Seq<u8>, Seq<u8>>, key: Seq<u8>) -> i64 {
    count_of_record(lookup(contents, key))
}

/// The value a record holds; a missing or unreadable record is absent.
pub open spec fn value_of_record<V: Decode>(stored: Option<Seq<u8>>) -> Option<V> {
    match stored {
        Some(bytes) => V::decoding(bytes),
        None => None,
    }
}

/// The value stored under `key`.
pub open spec fn value_in<V: Decode>(contents: Map<Seq<u8>, Seq<u8>>, key: Seq<u8>) -> Option<V> {
    value_of_record(lookup(contents, key))
}

/// The value a record holds, read with the codec.
fn decode_record<V: Decode>(stored: Option<Vec<u8>>) -> (r: Option<V>)
    ensures
        r == value_of_record::<V>(bytes_view(stored)),
{
    match stored {
        Some(bytes) => V::decode(bytes.as_slice()),
        None => None,
    }
}

/// The value after merging `modification` into `current`; with nothing to
/// merge into, the modification itself.
pub open spec fn merged<V: Rmw>(current: Option<V>, modification: V) -> V {
    match current {
        Some(v) => v.rmw_spec(modification),
        None => modification,
    }
}

/// The values behind optional shared references.
pub open spec fn shared_view<V>(r: Option<Rc<V>>) -> Option<V> {
    match r {
        Some(v) => Some(*v),
        None => None,
    }
}

/// The client side of a read-modify-write: the bytes to store after
/// merging `modification` into what a record holds.
fn merge_record<V: Decode + Rmw>(stored: Option<Vec<u8>>, modification: V) -> (r: Vec<u8>)
    ensures
        r@ == merged(value_of_record::<V>(bytes_view(stored)), modification).encoding(),
{
    let value = match decode_record::<V>(stored) {
        Some(current) => current.rmw(modification),
        None => modification,
    };
    value.encode()
}

/// A signed 64-bit counter stored under one physical key.
pub struct ManagedCount {
    key: Vec<u8>,
}

impl ManagedCount {
    /// The physical key of the counter.
    pub closed spec fn key(&self) -> Seq<u8> {
        self.key@
    }

    pub open spec fn count(&self, contents: Map<Seq<u8>, Seq<u8>>) -> i64 {
        count_in(contents, self.key())
    }

    pub open spec fn after_set(&self, contents: Map<Seq<u8>, Seq<u8>>, value: i64) -> Map<Seq<u8>, Seq<u8>> {
        contents.insert(self.key(), value.encoding())
    }

    pub open spec fn after_increase(&self, contents: Map<Seq<u8>, Seq<u8>>, amount: i64) -> Map<Seq<u8>, Seq<u8>> {
        self.after_set(contents, i64_wrapping_add(self.count(contents), amount))
    }

    pub open spec fn after_decrease(&self, contents: Map<Seq<u8>, Seq<u8>>, amount: i64) -> Map<Seq<u8>, Seq<u8>> {
        self.after_set(contents, i64_wrapping_sub(self.count(contents), amount))
    }

    /// The counter named `name`; its key is the encoded name.
    pub fn new(name: &str) -> (r: ManagedCount)
        ensures
            r.key() == str_encoding(name@),
    {
        ManagedCount { key: serialize_str(name) }
    }

    /// A copy of the physical key.
    pub fn physical_key(&self) -> (r: Vec<u8>)
        ensures
            r@ == self.key(),
    {
        copy_bytes(&self.key)
    }

    /// The count held by what an engine returned for the counter's key.
    pub fn count_of(&self, stored: Option<Vec<u8>>) -> (r: i64)
        ensures
            r == count_of_record(bytes_view(stored)),
    {
        match decode_record::<i64>(stored) {
            Some(n) => n,
            None => 0,
        }
    }

    /// The bytes to store after increasing the count a record holds.
    pub fn increased(&self, stored: Option<Vec<u8>>, amount: i64) -> (r: Vec<u8>)
        ensures
            r@ == i64_wrapping_add(count_of_record(bytes_view(stored)), amount).encoding(),
    {
        self.count_of(stored).wrapping_add(amount).encode()
    }

    /// The bytes to store after decreasing the count a record holds.
    pub fn decreased(&self, stored: Option<Vec<u8>>, amount: i64) -> (r: Vec<u8>)
        ensures
            r@ == i64_wrapping_sub(count_of_record(bytes_view(stored)), amount).encoding(),
    {
        self.count_of(stored).wrapping_sub(amount).encode()
    }

    pub fn get<S: StateBackend>(&self, backend: &mut S) -> (r: i64)
        requires
            old(backend).valid(),
        ensures
            final(backend).valid(),
            final(backend).contents() == old(backend).contents(),
            r == self.count(old(backend).contents()),
    {
        let stored = backend.get(&self.key);
        self.count_of(stored)
    }

    pub fn set<S: StateBackend>(&self, backend: &mut S, value: i64)
        requires
            old(backend).valid(),
        ensures
            final(backend).valid(),
            final(backend).contents() == self.after_set(old(backend).contents(), value),
    {
        backend.put(copy_bytes(&self.key), value.encode());
    }

    /// Adds `amount`, wrapping on overflow.
    pub fn increase<S: StateBackend>(&self, backend: &mut S, amount: i64)
        requires
            old(backend).valid(),
        ensures
            final(backend).valid(),
            final(backend).contents() == self.after_increase(old(backend).contents(), amount),
    {
        let stored = backend.get(&self.key);
        let bytes = self.increased(stored, amount);
        backend.put(copy_bytes(&self.key), bytes);
    }

    /// Subtracts `amount`, wrapping on overflow.
    pub fn decrease<S: StateBackend>(&self, backend: &mut S, amount: i64)
        requires
            old(backend).valid(),
        ensures
            final(backend).valid(),
            final(backend).contents() == self.after_decrease(old(backend).contents(), amount),
    {
        let stored = backend.get(&self.key);
        let bytes = self.decreased(stored, amount);
        backend.put(copy_bytes(&self.key), bytes);
    }
}

/// A single optional value stored under one physical key.
pub struct ManagedValue<V> {
    key: Vec<u8>,
    value: PhantomData<V>,
}

impl<V: Decode + Rmw> ManagedValue<V> {
    /// The physical key of the value.
    pub closed spec fn key(&self) -> Seq<u8> {
        self.key@
    }

    pub open spec fn current(&self, contents: Map<Seq<u8>, Seq<u8>>) -> Option<V> {
        value_in(contents, self.key())
    }

    pub open spec fn after_set(&self, contents: Map<Seq<u8>, Seq<u8>>, value: V) -> Map<Seq<u8>, Seq<u8>> {
        contents.insert(self.key(), value.encoding())
    }

    pub open spec fn after_rmw(&self, contents: Map<Seq<u8>, Seq<u8>>, modification: V) -> Map<Seq<u8>, Seq<u8>> {
        self.after_set(contents, merged(self.current(contents), modification))
    }

    /// The value named `name`; its key is the encoded name.
    pub fn new(name: &str) -> (r: ManagedValue<V>)
        ensures
            r.key() == str_encoding(name@),
    {
        ManagedValue { key: serialize_str(name), value: PhantomData }
    }

    /// A copy of the physical key.
    pub fn physical_key(&self) -> (r: Vec<u8>)
        ensures
            r@ == self.key(),
    {
        copy_bytes(&self.key)
    }

    pub fn set<S: StateBackend>(&self, backend: &mut S, value: V)
        requires
            old(backend).valid(),
        ensures
            final(backend).valid(),
            final(backend).contents() == self.after_set(old(backend).contents(), value),
    {
        backend.put(copy_bytes(&self.key), value.encode());
    }

    /// The value held by what an engine returned for the value's key.
    pub fn value_of(&self, stored: Option<Vec<u8>>) -> (r: Option<V>)
        ensures
            r == value_of_record::<V>(bytes_view(stored)),
    {
        decode_record::<V>(stored)
    }

    /// The bytes to store after merging `modification` into what a record
    /// holds.
    pub fn merged_record(&self, stored: Option<Vec<u8>>, modification: V) -> (r: Vec<u8>)
        ensures
            r@ == merged(value_of_record::<V>(bytes_view(stored)), modification).encoding(),
    {
        merge_record(stored, modification)
    }

    pub fn get<S: StateBackend>(&self, backend: &mut S) -> (r: Option<Rc<V>>)
        requires
            old(backend).valid(),
        ensures
            final(backend).valid(),
            final(backend).contents() == old(backend).contents(),
            shared_view(r) == self.current(old(backend).contents()),
    {
        let stored = backend.get(&self.key);
        match self.value_of(stored) {
            Some(v) => Some(Rc::new(v)),
            None => None,
        }
    }

    /// Removes the value and hands it to the caller.
    pub fn take<S: StateBackend>(&self, backend: &mut S) -> (r: Option<V>)
        requires
            old(backend).valid(),
        ensures
            final(backend).valid(),
            final(backend).contents() == old(backend).contents().remove(self.key()),
            r == self.current(old(backend).contents()),
    {
        let stored = backend.get(&self.key);
        backend.delete(&self.key);
        self.value_of(stored)
    }

    /// Merges `modification` into the value; with no value, stores it.
    pub fn rmw<S: StateBackend>(&self, backend: &mut S, modification: V)
        requires
            old(backend).valid(),
        ensures
            final(backend).valid(),
            final(backend).contents() == self.after_rmw(old(backend).contents(), modification),
    {
        let stored = backend.get(&self.key);
        let bytes = self.merged_record(stored, modification);
        backend.put(copy_bytes(&self.key), bytes);
    }
}

/// A map whose entries are stored under the map's encoded name followed by
/// the encoded key.
pub struct ManagedMap<K, V> {
    prefix: Vec<u8>,
    key: PhantomData<K>,
    value: PhantomData<V>,
}

impl<K: Encode, V: Decode + Rmw> ManagedMap<K, V> {
    /// The encoded name that starts every entry's physical key.
    pub closed spec fn prefix(&self) -> Seq<u8> {
        self.prefix@
    }

    pub open spec fn entry_key(&self, key: K) -> Seq<u8> {
        self.prefix() + key.encoding()
    }

    pub open spec fn current(&self, contents: Map<Seq<u8>, Seq<u8>>, key: K) -> Option<V> {
        value_in(contents, self.entry_key(key))
    }

    pub open spec fn after_insert(&self, contents: Map<Seq<u8>, Seq<u8>>, key: K, value: V) -> Map<Seq<u8>, Seq<u8>> {
        contents.insert(self.entry_key(key), value.encoding())
    }

    pub open spec fn after_rmw(&self, contents: Map<Seq<u8>, Seq<u8>>, key: K, modification: V) -> Map<Seq<u8>, Seq<u8>> {
        self.after_insert(contents, key, merged(self.current(contents, key), modification))
    }

    /// The map named `name`.
    pub fn new(name: &str) -> (r: ManagedMap<K, V>)
        ensures
            r.prefix() == str_encoding(name@),
    {
        ManagedMap { prefix: serialize_str(name), key: PhantomData, value: PhantomData }
    }

    /// The physical key of the entry for `key`.
    pub fn prefix_key(&self, key: &K) -> (r: Vec<u8>)
        ensures
            r@ == self.entry_key(*key),
    {
        let mut physical = copy_bytes(&self.prefix);
        let mut encoded = key.encode();
        physical.append(&mut encoded);
        physical
    }

    /// The value held by what an engine returned for an entry's key.
    pub fn value_of(&self, stored: Option<Vec<u8>>) -> (r: Option<V>)
        ensures
            r == value_of_record::<V>(bytes_view(stored)),
    {
        decode_record::<V>(stored)
    }

    /// The bytes to store after merging `modification` into what an
    /// entry's record holds.
    pub fn merged_record(&self, stored: Option<Vec<u8>>, modification: V) -> (r: Vec<u8>)
        ensures
            r@ == merged(value_of_record::<V>(bytes_view(stored)), modification).encoding(),
    {
        merge_record(stored, modification)
    }

    pub fn insert<S: StateBackend>(&self, backend: &mut S, key: K, value: V)
        requires
            old(backend).valid(),
        ensures
            final(backend).valid(),
            final(backend).contents() == self.after_insert(old(backend).contents(), key, value),
    {
        let physical = self.prefix_key(&key);
        backend.put(physical, value.encode());
    }

    pub fn get<S: StateBackend>(&self, backend: &mut S, key: &K) -> (r: Option<Rc<V>>)
        requires
            old(backend).valid(),
        ensures
            final(backend).valid(),
            final(backend).contents() == old(backend).contents(),
            shared_view(r) == self.current(old(backend).contents(), *key),
    {
        let physical = self.prefix_key(key);
        let stored = backend.get(&physical);
        match self.value_of(stored) {
            Some(v) => Some(Rc::new(v)),
            None => None,
        }
    }

    /// Deletes the entry for `key` and hands its value to the caller.
    pub fn remove<S: StateBackend>(&self, backend: &mut S, key: &K) -> (r: Option<V>)
        requires
            old(backend).valid(),
        ensures
            final(backend).valid(),
            final(backend).contents() == old(backend).contents().remove(self.entry_key(*key)),
            r == self.current(old(backend).contents(), *key),
    {
        let physical = self.prefix_key(key);
        let stored = backend.get(&physical);
        backend.delete(&physical);
        self.value_of(stored)
    }

    /// Merges `modification` into the entry for `key`; with no entry, inserts it.
    pub fn rmw<S: StateBackend>(&self, backend: &mut S, key: K, modification: V)
        requires
            old(backend).valid(),
        ensures
            final(backend).valid(),
            final(backend).contents() == self.after_rmw(old(backend).contents(), key, modification),
    {
        let physical = self.prefix_key(&key);
        let stored = backend.get(&physical);
        let bytes = self.merged_record(stored, modification);
        backend.put(physical, bytes);
    }

    /// Whether an entry is stored for `key`.
    pub fn contains<S: StateBackend>(&self, backend: &mut S, key: &K) -> (r: bool)
        requires
            old(backend).valid(),
        ensures
            final(backend).valid(),
            final(backend).contents() == old(backend).contents(),
            r == old(backend).contents().contains_key(self.entry_key(*key)),
    {
        let physical = self.prefix_key(key);
        let stored = backend.get(&physical);
        stored.is_some()
    }
}

/// A counter that was never written reads 0.
pub proof fn lemma_new_count_is_zero(count: ManagedCount, contents: Map<Seq<u8>, Seq<u8>>)
    requires
        !contents.contains_key(count.key()),
    ensures
        count.count(contents) == 0,
{
}

/// On a counter that was never written, increasing by `a` and then
/// decreasing by `b` reads `a - b` (whenever `a - b` fits in an `i64`).
pub proof fn lemma_count_arithmetic(count: ManagedCount, contents: Map<Seq<u8>, Seq<u8>>, a: i64, b: i64)
    requires
        !contents.contains_key(count.key()),
        i64::MIN <= a - b <= i64::MAX,
    ensures
        count.count(count.after_decrease(count.after_increase(contents, a), b)) == a - b,
{
    let first = count.after_increase(contents, a);
    <i64 as Decode>::lemma_round_trip(a);
    assert(count.count(first) == a);
    <i64 as Decode>::lemma_round_trip((a - b) as i64);
}

/// Setting a value and reading it gives the value back.
pub proof fn lemma_value_set_get<V: Decode + Rmw>(cell: ManagedValue<V>, contents: Map<Seq<u8>, Seq<u8>>, v: V)
    ensures
        cell.current(cell.after_set(contents, v)) == Some(v),
{
    V::lemma_round_trip(v);
}

/// Setting `v` and then merging `m` reads `v.rmw(m)`; merging `m` into no
/// value reads `m`.
pub proof fn lemma_value_rmw<V: Decode + Rmw>(cell: ManagedValue<V>, contents: Map<Seq<u8>, Seq<u8>>, v: V, m: V)
    ensures
        cell.current(cell.after_rmw(cell.after_set(contents, v), m)) == Some(v.rmw_spec(m)),
        cell.current(contents) is None ==> cell.current(cell.after_rmw(contents, m)) == Some(m),
{
    V::lemma_round_trip(v);
    V::lemma_round_trip(v.rmw_spec(m));
    V::lemma_round_trip(m);
}

/// Inserting an entry and reading its key gives the value back.
pub proof fn lemma_map_insert_get<K: Encode, V: Decode + Rmw>(
    map: ManagedMap<K, V>,
    contents: Map<Seq<u8>, Seq<u8>>,
    k: K,
    v: V,
)
    ensures
        map.current(map.after_insert(contents, k, v), k) == Some(v),
{
    V::lemma_round_trip(v);
}

/// Inserting `v` under `k` and then merging `m` reads `v.rmw(m)`; merging
/// `m` under a key with no entry reads `m`.
pub proof fn lemma_map_rmw<K: Encode, V: Decode + Rmw>(
    map: ManagedMap<K, V>,
    contents: Map<Seq<u8>, Seq<u8>>,
    k: K,
    v: V,
    m: V,
)
    ensures
        map.current(map.after_rmw(map.after_insert(contents, k, v), k, m), k) == Some(v.rmw_spec(m)),
        map.current(contents, k) is None ==> map.current(map.after_rmw(contents, k, m), k) == Some(m),
{
    V::lemma_round_trip(v);
    V::lemma_round_trip(v.rmw_spec(m));
    V::lemma_round_trip(m);
}

/// Distinct keys of one map have distinct physical keys.
pub proof fn lemma_entry_keys_distinct<K: Encode, V: Decode + Rmw>(map: ManagedMap<K, V>, k1: K, k2: K)
    requires
        k1 != k2,
    ensures
        map.entry_key(k1) != map.entry_key(k2),
{
    K::lemma_encoding_injective(k1, k2);
    if map.entry_key(k1) == map.entry_key(k2) {
        let p = map.prefix().len() as int;
        assert(map.entry_key(k1).subrange(p, map.entry_key(k1).len() as int) =~= k1.encoding());
        assert(map.entry_key(k2).subrange(p, map.entry_key(k2).len() as int) =~= k2.encoding());
    }
}

/// Writing the entry for `k1` never changes what `k2 != k1` reads, whatever
/// the bytes of the two keys.
pub proof fn lemma_map_keys_independent<K: Encode, V: Decode + Rmw>(
    map: ManagedMap<K, V>,
    contents: Map<Seq<u8>, Seq<u8>>,
    k1: K,
    k2: K,
    v: V,
)
    requires
        k1 != k2,
    ensures
        map.current(map.after_insert(contents, k1, v), k2) == map.current(contents, k2),
        map.current(map.after_rmw(contents, k1, v), k2) == map.current(contents, k2),
        map.current(contents.remove(map.entry_key(k1)), k2) == map.current(contents, k2),
{
    lemma_entry_keys_distinct(map, k1, k2);
}

/// Two maps on one backend never share a physical key: entry keys are equal
/// only for equal map names and equal keys (names shorter than 2^64 bytes).
pub proof fn lemma_entry_keys_unique<K: Encode, V1: Decode + Rmw, V2: Decode + Rmw>(
    map1: ManagedMap<K, V1>,
    map2: ManagedMap<K, V2>,
    name1: Seq<char>,
    name2: Seq<char>,
    k1: K,
    k2: K,
)
    requires
        map1.prefix() == str_encoding(name1),
        map2.prefix() == str_encoding(name2),
        encode_utf8(name1).len() <= u64::MAX,
        encode_utf8(name2).len() <= u64::MAX,
    ensures
        map1.entry_key(k1) == map2.entry_key(k2) ==> name1 == name2 && k1 == k2,
{
    lemma_auto_spec_u64_to_from_le_bytes();
    K::lemma_encoding_injective(k1, k2);
    let e1 = map1.entry_key(k1);
    let e2 = map2.entry_key(k2);
    let b1 = encode_utf8(name1);
    let b2 = encode_utf8(name2);
    if e1 == e2 {
        assert(e1.subrange(0, 8) =~= spec_u64_to_le_bytes(b1.len() as u64));
        assert(e2.subrange(0, 8) =~= spec_u64_to_le_bytes(b2.len() as u64));
        assert(b1.len() == b2.len());
        let n = 8 + b1.len() as int;
        assert(e1.subrange(8, n) =~= b1);
        assert(e2.subrange(8, n) =~= b2);
        encode_utf8_decode_utf8(name1);
        encode_utf8_decode_utf8(name2);
        assert(e1.subrange(n, e1.len() as int) =~= k1.encoding());
        assert(e2.subrange(n, e2.len() as int) =~= k2.encoding());
    }
}

} // verus!
