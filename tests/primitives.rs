use managed_state::backends::in_memory::InMemoryBackend;
use managed_state::primitives::{ManagedCount, ManagedMap, ManagedValue};
use managed_state::{StateBackend, StateHandle};
use std::rc::Rc;

#[test]
fn new_count_returns_zero() {
    let mut backend = InMemoryBackend::new();
    let managed_count = ManagedCount::new("count");
    assert_eq!(managed_count.get(&mut backend), 0);
}

#[test]
fn can_increase_count() {
    let mut backend = InMemoryBackend::new();
    let managed_count = ManagedCount::new("count");
    assert_eq!(managed_count.get(&mut backend), 0);
    managed_count.increase(&mut backend, 42);
    assert_eq!(managed_count.get(&mut backend), 42);
}

#[test]
fn can_increase_and_decrease_count() {
    let mut backend = InMemoryBackend::new();
    let managed_count = ManagedCount::new("count");
    assert_eq!(managed_count.get(&mut backend), 0);
    managed_count.increase(&mut backend, 42);
    managed_count.decrease(&mut backend, 12);
    assert_eq!(managed_count.get(&mut backend), 30);
}

#[test]
fn can_set_count_directly() {
    let mut backend = InMemoryBackend::new();
    let managed_count = ManagedCount::new("count");
    assert_eq!(managed_count.get(&mut backend), 0);
    managed_count.increase(&mut backend, 10);
    managed_count.set(&mut backend, 42);
    assert_eq!(managed_count.get(&mut backend), 42);
}

#[test]
fn count_decrease_below_zero_is_negative() {
    let mut backend = InMemoryBackend::new();
    let managed_count = ManagedCount::new("count");
    managed_count.decrease(&mut backend, 42);
    assert_eq!(managed_count.get(&mut backend), -42);
}

#[test]
fn count_increase_wraps_on_overflow() {
    let mut backend = InMemoryBackend::new();
    let managed_count = ManagedCount::new("count");
    managed_count.set(&mut backend, i64::MAX);
    managed_count.increase(&mut backend, 2);
    assert_eq!(managed_count.get(&mut backend), i64::MIN + 1);
}

#[test]
fn value_is_none_before_set() {
    let mut backend = InMemoryBackend::new();
    let value: ManagedValue<u64> = ManagedValue::new("value");
    assert_eq!(value.get(&mut backend), None);
}

#[test]
fn value_set_get_round_trip() {
    let mut backend = InMemoryBackend::new();
    let value: ManagedValue<u64> = ManagedValue::new("test");
    value.set(&mut backend, 1337);
    assert_eq!(value.get(&mut backend), Some(Rc::new(1337)));
}

#[test]
fn value_set_then_rmw() {
    let mut backend = InMemoryBackend::new();
    let value: ManagedValue<u64> = ManagedValue::new("test");
    value.set(&mut backend, 1337);
    value.rmw(&mut backend, 10);
    assert_eq!(value.get(&mut backend), Some(Rc::new(1347)));
}

#[test]
fn value_rmw_without_prior_value_sets_it() {
    let mut backend = InMemoryBackend::new();
    let value: ManagedValue<i64> = ManagedValue::new("test");
    value.rmw(&mut backend, -7);
    assert_eq!(value.get(&mut backend), Some(Rc::new(-7)));
}

#[test]
fn value_take_removes_the_value() {
    let mut backend = InMemoryBackend::new();
    let value: ManagedValue<i64> = ManagedValue::new("value");
    value.set(&mut backend, 32);
    value.rmw(&mut backend, 10);
    assert_eq!(value.take(&mut backend), Some(42));
    assert_eq!(value.take(&mut backend), None);
    assert_eq!(value.get(&mut backend), None);
}

#[test]
fn value_is_shared_by_primitives_of_the_same_name() {
    let mut backend = InMemoryBackend::new();
    let first: ManagedValue<i64> = ManagedValue::new("shared");
    first.set(&mut backend, 32);
    first.rmw(&mut backend, 10);
    let second: ManagedValue<i64> = ManagedValue::new("shared");
    assert_eq!(second.take(&mut backend), Some(42));
    assert_eq!(first.get(&mut backend), None);
}

#[test]
fn map_gets_none_when_empty() {
    let mut backend = InMemoryBackend::new();
    let map: ManagedMap<u64, u64> = ManagedMap::new("map");
    assert_eq!(map.get(&mut backend, &1), None);
    assert!(!map.contains(&mut backend, &1));
}

#[test]
fn map_insert_then_get() {
    let mut backend = InMemoryBackend::new();
    let map: ManagedMap<u64, u64> = ManagedMap::new("test");
    map.insert(&mut backend, 1, 1337);
    assert_eq!(map.get(&mut backend, &1), Some(Rc::new(1337)));
    assert!(map.contains(&mut backend, &1));
}

#[test]
fn map_insert_rmw_get_scenario() {
    let mut backend = InMemoryBackend::new();
    let map: ManagedMap<u64, u64> = ManagedMap::new("test");
    map.insert(&mut backend, 1u64, 1337u64);
    map.rmw(&mut backend, 1u64, 10u64);
    assert_eq!(map.get(&mut backend, &1u64), Some(Rc::new(1347u64)));
}

#[test]
fn map_rmw_without_prior_entry_inserts() {
    let mut backend = InMemoryBackend::new();
    let map: ManagedMap<u64, i64> = ManagedMap::new("test");
    map.rmw(&mut backend, 5, 10);
    assert_eq!(map.get(&mut backend, &5), Some(Rc::new(10)));
}

#[test]
fn map_remove_deletes_the_entry() {
    let mut backend = InMemoryBackend::new();
    let map: ManagedMap<u64, i64> = ManagedMap::new("test");
    map.insert(&mut backend, 1, 42);
    assert_eq!(map.remove(&mut backend, &1), Some(42));
    assert_eq!(map.get(&mut backend, &1), None);
    assert_eq!(map.remove(&mut backend, &1), None);
    assert!(!map.contains(&mut backend, &1));
}

#[test]
fn map_keys_are_independent() {
    let mut backend = InMemoryBackend::new();
    let map: ManagedMap<u64, u64> = ManagedMap::new("m");
    map.insert(&mut backend, 1, 100);
    map.insert(&mut backend, 256, 200);
    map.rmw(&mut backend, 1, 5);
    assert_eq!(map.get(&mut backend, &1), Some(Rc::new(105)));
    assert_eq!(map.get(&mut backend, &256), Some(Rc::new(200)));
    assert_eq!(map.get(&mut backend, &2), None);
}

#[test]
fn maps_of_different_names_are_independent() {
    let mut backend = InMemoryBackend::new();
    let a: ManagedMap<u64, u64> = ManagedMap::new("a");
    let ab: ManagedMap<u64, u64> = ManagedMap::new("ab");
    a.insert(&mut backend, 7, 1);
    assert_eq!(ab.get(&mut backend, &7), None);
    ab.insert(&mut backend, 7, 2);
    assert_eq!(a.get(&mut backend, &7), Some(Rc::new(1)));
}

#[test]
fn sub_handles_hold_independent_counters() {
    let mut backend = InMemoryBackend::new();
    let handle = StateHandle::new("0.");
    let a = handle.create_sub_handle("a").get_managed_count("x");
    let b = handle.create_sub_handle("b").get_managed_count("x");
    a.increase(&mut backend, 5);
    b.decrease(&mut backend, 3);
    assert_eq!(a.get(&mut backend), 5);
    assert_eq!(b.get(&mut backend), -3);
}

#[test]
fn handle_names_are_concatenated_without_separator() {
    let mut backend = InMemoryBackend::new();
    let handle = StateHandle::new("op");
    let through_handle = handle.get_managed_count("count");
    let direct = ManagedCount::new("opcount");
    through_handle.set(&mut backend, 9);
    assert_eq!(direct.get(&mut backend), 9);
    let sub = handle.create_sub_handle("inner").get_managed_count("c");
    let sub_direct = ManagedCount::new("op.innerc");
    sub.set(&mut backend, 4);
    assert_eq!(sub_direct.get(&mut backend), 4);
}

#[test]
fn handle_builds_values_and_maps() {
    let mut backend = InMemoryBackend::new();
    let handle = StateHandle::new("1.");
    let value: ManagedValue<u64> = handle.get_managed_value("v");
    let map: ManagedMap<u64, u64> = handle.get_managed_map("m");
    value.set(&mut backend, 3);
    map.insert(&mut backend, 3, 4);
    let cloned = handle.clone();
    let again: ManagedValue<u64> = cloned.get_managed_value("v");
    assert_eq!(again.get(&mut backend), Some(Rc::new(3)));
    assert_eq!(map.get(&mut backend, &3), Some(Rc::new(4)));
}

#[test]
fn count_and_value_of_one_name_share_the_record() {
    let mut backend = InMemoryBackend::new();
    let count = ManagedCount::new("n");
    let value: ManagedValue<i64> = ManagedValue::new("n");
    count.set(&mut backend, 11);
    assert_eq!(value.get(&mut backend), Some(Rc::new(11)));
}

#[test]
fn spawned_backend_starts_empty_under_the_same_name() {
    let mut backend = InMemoryBackend::new();
    let handle = StateHandle::new("w.");
    handle.get_managed_count("n").set(&mut backend, 3);
    let (spawned, mut fresh): (StateHandle, InMemoryBackend) = handle.spawn_new_backend();
    let count = spawned.get_managed_count("n");
    assert_eq!(count.get(&mut fresh), 0);
    assert_eq!(count.get(&mut backend), 3);
}
