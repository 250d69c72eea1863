use managed_state::backends::in_memory::InMemoryBackend;
use managed_state::primitives::ManagedValue;
use managed_state::StateBackend;
use std::rc::Rc;

#[test]
fn new_in_memory_managed_value_contains_none() {
    let mut backend = InMemoryBackend::new();
    let value: ManagedValue<i32> = ManagedValue::new("");
    assert_eq!(value.get(&mut backend), None);
}

#[test]
fn in_memory_managed_value_take_removes_value() {
    let mut backend = InMemoryBackend::new();
    let value: ManagedValue<i32> = ManagedValue::new("");
    value.set(&mut backend, 42);
    assert_eq!(value.take(&mut backend), Some(42));
    assert_eq!(value.take(&mut backend), None);
}

#[test]
fn in_memory_managed_value_rmw() {
    let mut backend = InMemoryBackend::new();
    let value: ManagedValue<i32> = ManagedValue::new("");
    value.set(&mut backend, 32);
    value.rmw(&mut backend, 10);
    assert_eq!(value.take(&mut backend), Some(42));
}

#[test]
fn new_value_contains_none() {
    let mut backend = InMemoryBackend::new();
    let value: ManagedValue<i32> = ManagedValue::new("");
    assert!(value.get(&mut backend).is_none());
}

#[test]
fn value_take_removes_value() {
    let mut backend = InMemoryBackend::new();
    let value: ManagedValue<i32> = ManagedValue::new("");
    value.set(&mut backend, 42);
    assert_eq!(value.take(&mut backend), Some(42));
    assert_eq!(value.take(&mut backend), None);
}

#[test]
fn managed_value_value_rmw() {
    let mut backend = InMemoryBackend::new();
    let value: ManagedValue<i32> = ManagedValue::new("");
    value.set(&mut backend, 32);
    value.rmw(&mut backend, 10);
    assert_eq!(value.take(&mut backend), Some(42));
}

#[test]
fn value_drop() {
    let mut backend = InMemoryBackend::new();
    {
        let value: ManagedValue<i32> = ManagedValue::new("");
        value.set(&mut backend, 32);
        value.rmw(&mut backend, 10);
        assert_eq!(value.get(&mut backend), Some(Rc::new(42)));
    }
    {
        let value: ManagedValue<i32> = ManagedValue::new("");
        assert_eq!(value.take(&mut backend), Some(42));
    }
}

#[test]
fn i32_values_wrap_on_rmw() {
    let mut backend = InMemoryBackend::new();
    let value: ManagedValue<i32> = ManagedValue::new("w");
    value.set(&mut backend, i32::MAX);
    value.rmw(&mut backend, 1);
    assert_eq!(value.get(&mut backend), Some(Rc::new(i32::MIN)));
}
