//! Managed state for dataflow operators: named counters, single values and
//! key-value maps kept in a pluggable storage backend under hierarchical names.
pub mod backends;
pub mod codec;
pub mod config;
pub mod primitives;

use crate::codec::{lemma_str_encoding_injective, str_encoding, Decode, Encode};
use crate::primitives::{ManagedCount, ManagedMap, ManagedValue};
use vstd::prelude::*;
use vstd::string::StringExecFns;

verus! {

/// The bytes stored under `key`, if any.
pub open spec fn lookup(contents: Map<Seq<u8>, Seq<u8>>, key: Seq<u8>) -> Option<Seq<u8>> {
    if contents.contains_key(key) {
        Some(contents[key])
    } else {
        None
    }
}

/// The view of optional bytes.
pub open spec fn bytes_view(b: Option<Vec<u8>>) -> Option<Seq<u8>> {
    match b {
        Some(v) => Some(v@),
        None => None,
    }
}

/// Read-modify-write: merges a modification into an existing value.
pub trait Rmw: Sized {
    spec fn rmw_spec(self, modification: Self) -> Self;

    fn rmw(&self, modification: Self) -> (r: Self)
        ensures
            r == self.rmw_spec(modification),
    ;
}

/// Sum modulo 2^64.
pub open spec fn u64_wrapping_add(a: u64, b: u64) -> u64 {
    if a + b > u64::MAX {
        (a + b - 0x1_0000_0000_0000_0000) as u64
    } else {
        (a + b) as u64
    }
}

/// Sum in two's complement, modulo 2^64.
pub open spec fn i64_wrapping_add(a: i64, b: i64) -> i64 {
    if a + b > i64::MAX {
        (a + b - 0x1_0000_0000_0000_0000) as i64
    } else if a + b < i64::MIN {
        (a + b + 0x1_0000_0000_0000_0000) as i64
    } else {
        (a + b) as i64
    }
}

/// Sum in two's complement, modulo 2^32.
pub open spec fn i32_wrapping_add(a: i32, b: i32) -> i32 {
    if a + b > i32::MAX {
        (a + b - 0x1_0000_0000) as i32
    } else if a + b < i32::MIN {
        (a + b + 0x1_0000_0000) as i32
    } else {
        (a + b) as i32
    }
}

/// Difference in two's complement, modulo 2^64.
pub open spec fn i64_wrapping_sub(a: i64, b: i64) -> i64 {
    if a - b > i64::MAX {
        (a - b - 0x1_0000_0000_0000_0000) as i64
    } else if a - b < i64::MIN {
        (a - b + 0x1_0000_0000_0000_0000) as i64
    } else {
        (a - b) as i64
    }
}

impl Rmw for u64 {
    /// Numbers merge by addition, wrapping on overflow.
    open spec fn rmw_spec(self, modification: u64) -> u64 {
        u64_wrapping_add(self, modification)
    }

    fn rmw(&self, modification: u64) -> (r: u64) {
        self.wrapping_add(modification)
    }
}

impl Rmw for i64 {
    /// Numbers merge by addition, wrapping on overflow.
    open spec fn rmw_spec(self, modification: i64) -> i64 {
        i64_wrapping_add(self, modification)
    }

    fn rmw(&self, modification: i64) -> (r: i64) {
        self.wrapping_add(modification)
    }
}

impl Rmw for i32 {
    /// Numbers merge by addition, wrapping on overflow.
    open spec fn rmw_spec(self, modification: i32) -> i32 {
        i32_wrapping_add(self, modification)
    }

    fn rmw(&self, modification: i32) -> (r: i32) {
        self.wrapping_add(modification)
    }
}

/// A storage engine seen as a map from physical keys to stored bytes.
pub trait StateBackend: Sized {
    spec fn contents(&self) -> Map<Seq<u8>, Seq<u8>>;

    /// The backend's internal invariant.
    spec fn valid(&self) -> bool;

    fn new() -> (r: Self)
        ensures
            r.valid(),
            r.contents() == Map::<Seq<u8>, Seq<u8>>::empty(),
    ;

    fn get(&mut self, key: &Vec<u8>) -> (r: Option<Vec<u8>>)
        requires
            old(self).valid(),
        ensures
            final(self).valid(),
            final(self).contents() == old(self).contents(),
            bytes_view(r) == lookup(old(self).contents(), key@),
    ;

    fn put(&mut self, key: Vec<u8>, value: Vec<u8>)
        requires
            old(self).valid(),
        ensures
            final(self).valid(),
            final(self).contents() == old(self).contents().insert(key@, value@),
    ;

    fn delete(&mut self, key: &Vec<u8>)
        requires
            old(self).valid(),
        ensures
            final(self).valid(),
            final(self).contents() == old(self).contents().remove(key@),
    ;
}

/// The name of a sub-handle: the parent's name, a dot, then the suffix.
pub open spec fn sub_name(parent: Seq<char>, suffix: Seq<char>) -> Seq<char> {
    parent + seq!['.'] + suffix
}

/// The physical name of a primitive: the handle's name followed by the
/// logical name, with no separator.
pub open spec fn physical_name(handle: Seq<char>, logical: Seq<char>) -> Seq<char> {
    handle + logical
}

/// A position in the hierarchical namespace of managed state; the only way
/// operators obtain managed primitives.
#[derive(Clone)]
pub struct StateHandle {
    name: String,
}

impl StateHandle {
    pub closed spec fn name(&self) -> Seq<char> {
        self.name@
    }

    pub fn new(name: &str) -> (r: StateHandle)
        ensures
            r.name() == name@,
    {
        StateHandle { name: String::from_str(name) }
    }

    /// A handle one level down, named `<name>.<suffix>`.
    pub fn create_sub_handle(&self, name: &str) -> (r: StateHandle)
        ensures
            r.name() == sub_name(self.name(), name@),
    {
        let mut full = self.name.clone();
        full.append(".");
        full.append(name);
        proof {
            reveal_strlit(".");
        }
        StateHandle { name: full }
    }

    /// The same namespace over a backend of its own, fresh and empty.
    pub fn spawn_new_backend<S: StateBackend>(&self) -> (r: (StateHandle, S))
        ensures
            r.0.name() == self.name(),
            r.1.valid(),
            r.1.contents() == Map::<Seq<u8>, Seq<u8>>::empty(),
    {
        (StateHandle { name: self.name.clone() }, S::new())
    }

    fn physical_name(&self, name: &str) -> (r: String)
        ensures
            r@ == physical_name(self.name(), name@),
    {
        let mut full = self.name.clone();
        full.append(name);
        full
    }

    pub fn get_managed_count(&self, name: &str) -> (r: ManagedCount)
        ensures
            r.key() == str_encoding(physical_name(self.name(), name@)),
    {
        ManagedCount::new(self.physical_name(name).as_str())
    }

    pub fn get_managed_value<V: Decode + Rmw>(&self, name: &str) -> (r: ManagedValue<V>)
        ensures
            r.key() == str_encoding(physical_name(self.name(), name@)),
    {
        ManagedValue::new(self.physical_name(name).as_str())
    }

    pub fn get_managed_map<K: Encode, V: Decode + Rmw>(&self, name: &str) -> (r: ManagedMap<K, V>)
        ensures
            r.prefix() == str_encoding(physical_name(self.name(), name@)),
    {
        ManagedMap::new(self.physical_name(name).as_str())
    }
}

/// Counters of the same logical name under two sibling sub-handles with
/// different names have different physical keys, so no write to one changes
/// what the other reads.
pub proof fn lemma_sub_handles_isolated(
    parent: Seq<char>,
    a: Seq<char>,
    b: Seq<char>,
    logical: Seq<char>,
    count_a: ManagedCount,
    count_b: ManagedCount,
    contents: Map<Seq<u8>, Seq<u8>>,
)
    requires
        a != b,
        count_a.key() == str_encoding(physical_name(sub_name(parent, a), logical)),
        count_b.key() == str_encoding(physical_name(sub_name(parent, b), logical)),
    ensures
        count_a.key() != count_b.key(),
        forall|v: i64| #[trigger] count_b.count(count_a.after_set(contents, v)) == count_b.count(contents),
        forall|n: i64| #[trigger] count_b.count(count_a.after_increase(contents, n)) == count_b.count(contents),
        forall|n: i64| #[trigger] count_b.count(count_a.after_decrease(contents, n)) == count_b.count(contents),
{
    let na = physical_name(sub_name(parent, a), logical);
    let nb = physical_name(sub_name(parent, b), logical);
    lemma_str_encoding_injective(na, nb);
    if na == nb {
        let p = parent.len() as int + 1;
        assert(na.subrange(p, p + a.len()) =~= a);
        assert(nb.subrange(p, p + b.len()) =~= b);
    }
}

} // verus!
