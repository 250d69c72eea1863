use managed_state::backends::faster::{maintenance_for, rmw_logic, Maintenance, Session, Ticket};
use managed_state::backends::rocksdb::{
    merge_numbers, merge_operator, LsmWrite, RocksDBManagedCount, RocksDBManagedMap, RocksDBManagedValue,
};
use managed_state::codec::Encode;
use managed_state::primitives::ManagedCount;

fn name_key(name: &str) -> Vec<u8> {
    ManagedCount::new(name).physical_key()
}

#[test]
fn maintenance_follows_the_serial_number() {
    let none = Maintenance { refresh: false, complete_pending: false, checkpoint: false };
    assert_eq!(maintenance_for(17), none);
    assert_eq!(maintenance_for(1), none);
    assert_eq!(
        maintenance_for(32),
        Maintenance { refresh: true, complete_pending: false, checkpoint: false }
    );
    assert_eq!(
        maintenance_for(2048),
        Maintenance { refresh: true, complete_pending: true, checkpoint: false }
    );
    assert_eq!(
        maintenance_for(1 << 20),
        Maintenance { refresh: true, complete_pending: true, checkpoint: true }
    );
}

#[test]
fn session_numbers_operations_from_one() {
    let mut session = Session::new();
    let first = session.next_operation().unwrap();
    let second = session.next_operation().unwrap();
    assert_eq!(first.serial, 1);
    assert_eq!(second.serial, 2);
    assert!(!first.maintenance.refresh);
}

#[test]
fn session_reaches_the_first_maintenance_tick() {
    let mut session = Session::new();
    let mut last: Option<Ticket> = None;
    for _ in 0..16 {
        last = session.next_operation();
    }
    let tick = last.unwrap();
    assert_eq!(tick.serial, 16);
    assert!(tick.maintenance.refresh);
    assert!(!tick.maintenance.complete_pending);
}

#[test]
fn rmw_logic_merges_stored_bytes() {
    let merged = rmw_logic::<u64>(&1337u64.encode(), &10u64.encode());
    assert_eq!(merged, Some(1347u64.encode()));
    assert_eq!(rmw_logic::<u64>(&[1, 2], &10u64.encode()), None);
}

#[test]
fn merge_numbers_adds_operands_to_existing() {
    let existing = 5i64.encode();
    let operands = vec![2i64.encode(), (-3i64).encode()];
    assert_eq!(merge_numbers(Some(existing.as_slice()), &operands), Some(4i64.encode()));
    assert_eq!(merge_numbers(None, &operands), Some((-1i64).encode()));
    assert_eq!(merge_numbers(None, &vec![]), Some(0i64.encode()));
}

#[test]
fn merge_numbers_rejects_malformed_operands() {
    let operands = vec![2i64.encode(), vec![1u8, 2, 3]];
    assert_eq!(merge_numbers(None, &operands), None);
    assert_eq!(merge_numbers(Some(&[9u8][..]), &vec![]), None);
}

#[test]
fn merge_operator_folds_with_rmw() {
    let operands = vec![10u64.encode(), 5u64.encode()];
    let existing = 1337u64.encode();
    assert_eq!(merge_operator::<u64>(Some(existing.as_slice()), &operands), Some(1352u64.encode()));
    assert_eq!(merge_operator::<u64>(None, &operands), Some(15u64.encode()));
    assert_eq!(merge_operator::<u64>(None, &vec![]), None);
    assert_eq!(merge_operator::<u64>(None, &vec![vec![0u8]]), None);
}

#[test]
fn lsm_count_writes() {
    let count = RocksDBManagedCount::new("c");
    let key = name_key("c");
    assert_eq!(count.read_key(), key);
    match count.increase(42) {
        LsmWrite::Merge { key: k, operand } => {
            assert_eq!(k, key);
            assert_eq!(operand, 42i64.encode());
        }
        _ => panic!("increase must merge"),
    }
    match count.decrease(42) {
        LsmWrite::Merge { operand, .. } => assert_eq!(operand, (-42i64).encode()),
        _ => panic!("decrease must merge"),
    }
    match count.set(7) {
        LsmWrite::Put { value, .. } => assert_eq!(value, 7i64.encode()),
        _ => panic!("set must put"),
    }
    assert_eq!(count.count_of(None), 0);
    assert_eq!(count.count_of(Some((-42i64).encode())), -42);
}

#[test]
fn lsm_value_writes() {
    let value: RocksDBManagedValue<u64> = RocksDBManagedValue::new("v");
    assert!(matches!(value.rmw(&10), LsmWrite::Merge { .. }));
    assert!(matches!(value.take(), LsmWrite::Delete { .. }));
    assert_eq!(value.value_of(Some(1337u64.encode())), Some(1337));
    assert_eq!(value.value_of(None), None);
}

#[test]
fn lsm_map_remove_deletes_the_prefixed_key() {
    let map: RocksDBManagedMap<u64, u64> = RocksDBManagedMap::new("m");
    let mut expected = name_key("m");
    expected.extend(1u64.encode());
    assert_eq!(map.prefix_key(&1), expected);
    match map.remove(&1) {
        LsmWrite::Delete { key } => assert_eq!(key, expected),
        _ => panic!("remove must delete"),
    }
    match map.insert(&1, &1337) {
        LsmWrite::Put { key, value } => {
            assert_eq!(key, expected);
            assert_eq!(value, 1337u64.encode());
        }
        _ => panic!("insert must put"),
    }
}
