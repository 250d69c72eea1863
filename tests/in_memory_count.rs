use managed_state::backends::in_memory::InMemoryManagedCount;

#[test]
fn new_in_memory_managed_count_returns_0() {
    let count = InMemoryManagedCount::new();
    assert_eq!(count.get(), 0);
}

#[test]
fn in_memory_managed_count_can_increase() {
    let mut count = InMemoryManagedCount::new();
    count.increase(42);
    assert_eq!(count.get(), 42);
}

#[test]
fn in_memory_managed_count_can_decrease() {
    let mut count = InMemoryManagedCount::new();
    count.decrease(42);
    assert_eq!(count.get(), -42);
}

#[test]
fn in_memory_managed_count_can_set_directly() {
    let mut count = InMemoryManagedCount::new();
    count.set(42);
    assert_eq!(count.get(), 42);
}

#[test]
fn managed_count_new_count_returns_0() {
    let count = InMemoryManagedCount::new();
    assert_eq!(count.get(), 0);
}

#[test]
fn managed_count_count_can_increase() {
    let mut count = InMemoryManagedCount::new();
    count.increase(42);
    assert_eq!(count.get(), 42);
}

#[test]
fn managed_count_count_can_decrease() {
    let mut count = InMemoryManagedCount::new();
    count.decrease(42);
    assert_eq!(count.get(), -42);
}

#[test]
fn managed_count_count_can_set_directly() {
    let mut count = InMemoryManagedCount::new();
    count.set(42);
    assert_eq!(count.get(), 42);
}

#[test]
fn in_memory_count_wraps_at_the_ends_of_the_range() {
    let mut count = InMemoryManagedCount::new();
    count.set(i64::MAX);
    count.increase(1);
    assert_eq!(count.get(), i64::MIN);
    count.decrease(1);
    assert_eq!(count.get(), i64::MAX);
}

#[test]
fn in_memory_count_increase_then_decrease() {
    let mut count = InMemoryManagedCount::new();
    count.increase(42);
    count.decrease(12);
    assert_eq!(count.get(), 30);
}
