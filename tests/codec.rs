use managed_state::codec::{Decode, Encode};
use managed_state::primitives::ManagedCount;
use managed_state::Rmw;

fn name_key(name: &str) -> Vec<u8> {
    ManagedCount::new(name).physical_key()
}

#[test]
fn u64_is_eight_little_endian_bytes() {
    assert_eq!(0x0102u64.encode(), vec![2, 1, 0, 0, 0, 0, 0, 0]);
}

#[test]
fn i64_is_twos_complement_little_endian() {
    assert_eq!((-1i64).encode(), vec![255; 8]);
    assert_eq!(i64::decode(&[254, 255, 255, 255, 255, 255, 255, 255]), Some(-2));
}

#[test]
fn str_is_length_then_utf8() {
    assert_eq!(name_key("ab"), vec![2, 0, 0, 0, 0, 0, 0, 0, 97, 98]);
    assert_eq!(name_key(""), vec![0; 8]);
    assert_eq!(name_key("é"), vec![2, 0, 0, 0, 0, 0, 0, 0, 0xc3, 0xa9]);
}

#[test]
fn short_input_does_not_decode() {
    assert_eq!(u64::decode(&[1, 2, 3]), None);
    assert_eq!(i64::decode(&[]), None);
}

#[test]
fn trailing_bytes_are_ignored() {
    assert_eq!(u64::decode(&[5, 0, 0, 0, 0, 0, 0, 0, 9, 9]), Some(5));
}

#[test]
fn u64_rmw_wraps() {
    assert_eq!(u64::MAX.rmw(2), 1);
    assert_eq!(1337u64.rmw(10), 1347);
    assert_eq!(i64::MIN.rmw(-1), i64::MAX);
}

#[test]
fn decode_reverses_encode() {
    for v in [0u64, 1, 1337, u64::MAX] {
        assert_eq!(u64::decode(&v.encode()), Some(v));
    }
    for v in [i64::MIN, -1, 0, 42, i64::MAX] {
        assert_eq!(i64::decode(&v.encode()), Some(v));
    }
}
