//! A process-local backend: every record lives in memory, nothing persists.
use crate::codec::{bytes_equal, copy_bytes};
use crate::{i64_wrapping_add, i64_wrapping_sub, StateBackend};
use vstd::prelude::*;

verus! {

/// The in-memory backend: one record per physical key.
pub struct InMemoryBackend {
    entries: Vec<(Vec<u8>, Vec<u8>)>,
    model: Ghost<Map<Seq<u8>, Seq<u8>>>,
}

impl InMemoryBackend {
    /// Each record agrees with the model, each key of the model has a
    /// record, and no key has two.
    spec fn well_formed(&self) -> bool {
        &&& forall|i: int|
            #![trigger self.entries@[i]]
            0 <= i < self.entries@.len() ==> self.model@.contains_key(self.entries@[i].0@)
                && self.model@[self.entries@[i].0@] == self.entries@[i].1@
        &&& forall|k: Seq<u8>|
            #![trigger self.model@.contains_key(k)]
            self.model@.contains_key(k) ==> exists|i: int|
                0 <= i < self.entries@.len() && #[trigger] self.entries@[i].0@ == k
        &&& forall|i: int, j: int|
            #![trigger self.entries@[i], self.entries@[j]]
            0 <= i < j < self.entries@.len() ==> self.entries@[i].0@ != self.entries@[j].0@
    }

    /// The position of the record stored under `key`.
    fn find(&self, key: &Vec<u8>) -> (r: Option<usize>)
        requires
            self.well_formed(),
        ensures
            match r {
                Some(i) => i < self.entries@.len() && self.entries@[i as int].0@ == key@,
                None => !self.model@.contains_key(key@),
            },
    {
        let mut i: usize = 0;
        while i < self.entries.len()
            invariant
                i <= self.entries@.len(),
                forall|j: int| 0 <= j < i ==> #[trigger] self.entries@[j].0@ != key@,
            decreases self.entries@.len() - i,
        {
            if bytes_equal(&self.entries[i].0, key) {
                return Some(i);
            }
            i = i + 1;
        }
        None
    }
}

impl StateBackend for InMemoryBackend {
    closed spec fn contents(&self) -> Map<Seq<u8>, Seq<u8>> {
        self.model@
    }

    closed spec fn valid(&self) -> bool {
        self.well_formed()
    }

    fn new() -> (r: InMemoryBackend) {
        InMemoryBackend { entries: Vec::new(), model: Ghost(Map::empty()) }
    }

    fn get(&mut self, key: &Vec<u8>) -> (r: Option<Vec<u8>>) {
        match self.find(key) {
            Some(i) => Some(copy_bytes(&self.entries[i].1)),
            None => None,
        }
    }

    fn put(&mut self, key: Vec<u8>, value: Vec<u8>) {
        let ghost k = key@;
        let ghost v = value@;
        let ghost old_entries = self.entries@;
        let ghost old_model = self.model@;
        match self.find(&key) {
            Some(i) => {
                self.entries.set(i, (key, value));
                proof {
                    self.model@ = old_model.insert(k, v);
                    assert forall|q: Seq<u8>| #[trigger] self.model@.contains_key(q) implies exists|j: int|
                        0 <= j < self.entries@.len() && #[trigger] self.entries@[j].0@ == q by {
                        if q == k {
                            assert(self.entries@[i as int].0@ == q);
                        } else {
                            assert(old_model.contains_key(q));
                            let j = choose|j: int| 0 <= j < old_entries.len() && #[trigger] old_entries[j].0@ == q;
                            assert(self.entries@[j].0@ == q);
                        }
                    }
                    assert forall|a: int, b: int|
                        #![trigger self.entries@[a], self.entries@[b]]
                        0 <= a < b < self.entries@.len() implies self.entries@[a].0@ != self.entries@[b].0@ by {
                        assert(old_entries[a].0@ != old_entries[b].0@);
                    }
                }
            },
            None => {
                self.entries.push((key, value));
                proof {
                    self.model@ = old_model.insert(k, v);
                    assert forall|q: Seq<u8>| #[trigger] self.model@.contains_key(q) implies exists|j: int|
                        0 <= j < self.entries@.len() && #[trigger] self.entries@[j].0@ == q by {
                        if q == k {
                            assert(self.entries@[old_entries.len() as int].0@ == q);
                        } else {
                            assert(old_model.contains_key(q));
                            let j = choose|j: int| 0 <= j < old_entries.len() && #[trigger] old_entries[j].0@ == q;
                            assert(self.entries@[j].0@ == q);
                        }
                    }
                    assert forall|a: int, b: int|
                        #![trigger self.entries@[a], self.entries@[b]]
                        0 <= a < b < self.entries@.len() implies self.entries@[a].0@ != self.entries@[b].0@ by {
                        if b == old_entries.len() {
                            assert(old_model.contains_key(old_entries[a].0@));
                        } else {
                            assert(old_entries[a].0@ != old_entries[b].0@);
                        }
                    }
                }
            },
        }
    }

    fn delete(&mut self, key: &Vec<u8>) {
        let ghost k = key@;
        let ghost old_entries = self.entries@;
        let ghost old_model = self.model@;
        match self.find(key) {
            Some(i) => {
                self.entries.remove(i);
                proof {
                    self.model@ = old_model.remove(k);
                    assert forall|j: int|
                        #![trigger self.entries@[j]]
                        0 <= j < self.entries@.len() implies self.model@.contains_key(self.entries@[j].0@)
                            && self.model@[self.entries@[j].0@] == self.entries@[j].1@ by {
                        if j < i {
                            assert(old_entries[j] == self.entries@[j]);
                            assert(old_entries[j].0@ != old_entries[i as int].0@);
                        } else {
                            assert(old_entries[j + 1] == self.entries@[j]);
                            assert(old_entries[i as int].0@ != old_entries[j + 1].0@);
                        }
                    }
                    assert forall|q: Seq<u8>| #[trigger] self.model@.contains_key(q) implies exists|j: int|
                        0 <= j < self.entries@.len() && #[trigger] self.entries@[j].0@ == q by {
                        assert(old_model.contains_key(q));
                        let j = choose|j: int| 0 <= j < old_entries.len() && #[trigger] old_entries[j].0@ == q;
                        assert(j != i);
                        if j < i {
                            assert(self.entries@[j].0@ == q);
                        } else {
                            assert(self.entries@[j - 1].0@ == q);
                        }
                    }
                    assert forall|a: int, b: int|
                        #![trigger self.entries@[a], self.entries@[b]]
                        0 <= a < b < self.entries@.len() implies self.entries@[a].0@ != self.entries@[b].0@ by {
                        let a0 = if a < i { a } else { a + 1 };
                        let b0 = if b < i { b } else { b + 1 };
                        assert(self.entries@[a] == old_entries[a0]);
                        assert(self.entries@[b] == old_entries[b0]);
                        assert(old_entries[a0].0@ != old_entries[b0].0@);
                    }
                }
            },
            None => {
                proof {
                    assert(old_model.remove(k) =~= old_model);
                }
            },
        }
    }
}

/// A counter that lives in its own memory, outside any backend.
pub struct InMemoryManagedCount {
    count: i64,
}

impl InMemoryManagedCount {
    pub closed spec fn value(&self) -> i64 {
        self.count
    }

    pub fn new() -> (r: InMemoryManagedCount)
        ensures
            r.value() == 0,
    {
        InMemoryManagedCount { count: 0 }
    }

    /// Subtracts `amount`, wrapping on overflow.
    pub fn decrease(&mut self, amount: i64)
        ensures
            final(self).value() == i64_wrapping_sub(old(self).value(), amount),
    {
        self.count = self.count.wrapping_sub(amount);
    }

    /// Adds `amount`, wrapping on overflow.
    pub fn increase(&mut self, amount: i64)
        ensures
            final(self).value() == i64_wrapping_add(old(self).value(), amount),
    {
        self.count = self.count.wrapping_add(amount);
    }

    pub fn get(&self) -> (r: i64)
        ensures
            r == self.value(),
    {
        self.count
    }

    pub fn set(&mut self, value: i64)
        ensures
            final(self).value() == value,
    {
        self.count = value;
    }
}

} // verus!
