//! Byte codec: the bincode layout of the keys, values and names that cross
//! into a storage engine.
use vstd::bytes::{
    lemma_auto_spec_u32_to_from_le_bytes, lemma_auto_spec_u64_to_from_le_bytes, spec_u32_from_le_bytes,
    spec_u32_to_le_bytes, spec_u64_from_le_bytes, spec_u64_to_le_bytes,
};
use vstd::prelude::*;
use vstd::utf8::{encode_utf8, encode_utf8_decode_utf8};

verus! {

/// Whether two byte strings are equal.
pub fn bytes_equal(a: &Vec<u8>, b: &Vec<u8>) -> (r: bool)
    ensures
        r == (a@ == b@),
{
    if a.len() != b.len() {
        return false;
    }
    let mut i: usize = 0;
    while i < a.len()
        invariant
            a@.len() == b@.len(),
            i <= a@.len(),
            a@.subrange(0, i as int) == b@.subrange(0, i as int),
        decreases a@.len() - i,
    {
        if a[i] != b[i] {
            assert(a@[i as int] != b@[i as int]);
            return false;
        }
        assert(a@.subrange(0, i + 1) == a@.subrange(0, i as int).push(a@[i as int]));
        assert(b@.subrange(0, i + 1) == b@.subrange(0, i as int).push(b@[i as int]));
        i = i + 1;
    }
    assert(a@ == a@.subrange(0, i as int));
    assert(b@ == b@.subrange(0, i as int));
    true
}

/// Copies a byte string.
pub fn copy_bytes(b: &Vec<u8>) -> (r: Vec<u8>)
    ensures
        r@ == b@,
{
    let mut r: Vec<u8> = Vec::new();
    let mut i: usize = 0;
    while i < b.len()
        invariant
            i <= b@.len(),
            r@ == b@.subrange(0, i as int),
        decreases b@.len() - i,
    {
        r.push(b[i]);
        i = i + 1;
    }
    r
}

/// The bytes bincode writes for a string: the length of its UTF-8 form as a
/// little-endian `u64`, then that UTF-8 form.
pub open spec fn str_encoding(s: Seq<char>) -> Seq<u8> {
    spec_u64_to_le_bytes(encode_utf8(s).len() as u64) + encode_utf8(s)
}

/// Two strings with the same encoding are the same string.
pub proof fn lemma_str_encoding_injective(a: Seq<char>, b: Seq<char>)
    ensures
        str_encoding(a) == str_encoding(b) ==> a == b,
{
    lemma_auto_spec_u64_to_from_le_bytes();
    if str_encoding(a) == str_encoding(b) {
        let la = spec_u64_to_le_bytes(encode_utf8(a).len() as u64);
        let lb = spec_u64_to_le_bytes(encode_utf8(b).len() as u64);
        assert(str_encoding(a).subrange(8, str_encoding(a).len() as int) == encode_utf8(a));
        assert(str_encoding(b).subrange(8, str_encoding(b).len() as int) == encode_utf8(b));
        encode_utf8_decode_utf8(a);
        encode_utf8_decode_utf8(b);
    }
}

/// A value that has a byte encoding, one to one.
pub trait Encode: Sized {
    spec fn encoding(self) -> Seq<u8>;

    proof fn lemma_encoding_injective(a: Self, b: Self)
        ensures
            a.encoding() == b.encoding() ==> a == b,
    ;

    fn encode(&self) -> (r: Vec<u8>)
        ensures
            r@ == self.encoding(),
    ;
}

/// A value that can be read back from its encoding.
pub trait Decode: Encode {
    spec fn decoding(bytes: Seq<u8>) -> Option<Self>;

    proof fn lemma_round_trip(v: Self)
        ensures
            Self::decoding(v.encoding()) == Some(v),
    ;

    fn decode(bytes: &[u8]) -> (r: Option<Self>)
        ensures
            r == Self::decoding(bytes@),
    ;
}

/// Relies on `bincode::serialize`: a `str` is written as its byte length
/// (`u64`, little endian) followed by its UTF-8 bytes; writing into a `Vec`
/// cannot fail.
#[verifier::external_body]
pub(crate) fn serialize_str(s: &str) -> (r: Vec<u8>)
    ensures
        r@ == str_encoding(s@),
{
    match bincode::serialize(s) {
        Ok(bytes) => bytes,
        Err(_) => Vec::new(),
    }
}

/// Relies on `bincode::serialize`: a `u64` is written as its eight
/// little-endian bytes; writing into a `Vec` cannot fail.
#[verifier::external_body]
fn serialize_u64(v: u64) -> (r: Vec<u8>)
    ensures
        r@ == spec_u64_to_le_bytes(v),
{
    match bincode::serialize(&v) {
        Ok(bytes) => bytes,
        Err(_) => Vec::new(),
    }
}

/// Relies on `bincode::deserialize`: a `u64` is read from the first eight
/// bytes, little endian (later bytes are allowed and ignored); fewer than
/// eight bytes are an error.
#[verifier::external_body]
fn deserialize_u64(b: &[u8]) -> (r: Option<u64>)
    ensures
        b@.len() >= 8 ==> r == Some(spec_u64_from_le_bytes(b@.subrange(0, 8))),
        b@.len() < 8 ==> r is None,
{
    bincode::deserialize::<u64>(b).ok()
}

/// Relies on `bincode::serialize`: an `i64` is written as the eight
/// little-endian bytes of its two's complement form; writing into a `Vec`
/// cannot fail.
#[verifier::external_body]
fn serialize_i64(v: i64) -> (r: Vec<u8>)
    ensures
        r@ == spec_u64_to_le_bytes(v as u64),
{
    match bincode::serialize(&v) {
        Ok(bytes) => bytes,
        Err(_) => Vec::new(),
    }
}

/// Relies on `bincode::deserialize`: an `i64` is read from the first eight
/// bytes as a little-endian two's complement number (later bytes are allowed
/// and ignored); fewer than eight bytes are an error.
#[verifier::external_body]
fn deserialize_i64(b: &[u8]) -> (r: Option<i64>)
    ensures
        b@.len() >= 8 ==> r == Some(spec_u64_from_le_bytes(b@.subrange(0, 8)) as i64),
        b@.len() < 8 ==> r is None,
{
    bincode::deserialize::<i64>(b).ok()
}

/// Relies on `bincode::serialize`: an `i32` is written as the four
/// little-endian bytes of its two's complement form; writing into a `Vec`
/// cannot fail.
#[verifier::external_body]
fn serialize_i32(v: i32) -> (r: Vec<u8>)
    ensures
        r@ == spec_u32_to_le_bytes(v as u32),
{
    match bincode::serialize(&v) {
        Ok(bytes) => bytes,
        Err(_) => Vec::new(),
    }
}

/// Relies on `bincode::deserialize`: an `i32` is read from the first four
/// bytes as a little-endian two's complement number (later bytes are allowed
/// and ignored); fewer than four bytes are an error.
#[verifier::external_body]
fn deserialize_i32(b: &[u8]) -> (r: Option<i32>)
    ensures
        b@.len() >= 4 ==> r == Some(spec_u32_from_le_bytes(b@.subrange(0, 4)) as i32),
        b@.len() < 4 ==> r is None,
{
    bincode::deserialize::<i32>(b).ok()
}

impl Encode for u64 {
    open spec fn encoding(self) -> Seq<u8> {
        spec_u64_to_le_bytes(self)
    }

    proof fn lemma_encoding_injective(a: u64, b: u64) {
        lemma_auto_spec_u64_to_from_le_bytes();
    }

    fn encode(&self) -> (r: Vec<u8>) {
        serialize_u64(*self)
    }
}

impl Decode for u64 {
    open spec fn decoding(bytes: Seq<u8>) -> Option<u64> {
        if bytes.len() >= 8 {
            Some(spec_u64_from_le_bytes(bytes.subrange(0, 8)))
        } else {
            None
        }
    }

    proof fn lemma_round_trip(v: u64) {
        lemma_auto_spec_u64_to_from_le_bytes();
        assert(v.encoding().subrange(0, 8) == v.encoding());
    }

    fn decode(bytes: &[u8]) -> (r: Option<u64>) {
        deserialize_u64(bytes)
    }
}

impl Encode for i64 {
    open spec fn encoding(self) -> Seq<u8> {
        spec_u64_to_le_bytes(self as u64)
    }

    proof fn lemma_encoding_injective(a: i64, b: i64) {
        lemma_auto_spec_u64_to_from_le_bytes();
        assert((a as u64) == (b as u64) ==> a == b) by (bit_vector);
    }

    fn encode(&self) -> (r: Vec<u8>) {
        serialize_i64(*self)
    }
}

impl Decode for i64 {
    open spec fn decoding(bytes: Seq<u8>) -> Option<i64> {
        if bytes.len() >= 8 {
            Some(spec_u64_from_le_bytes(bytes.subrange(0, 8)) as i64)
        } else {
            None
        }
    }

    proof fn lemma_round_trip(v: i64) {
        lemma_auto_spec_u64_to_from_le_bytes();
        assert(v.encoding().subrange(0, 8) == v.encoding());
        assert(((v as u64) as i64) == v) by (bit_vector);
    }

    fn decode(bytes: &[u8]) -> (r: Option<i64>) {
        deserialize_i64(bytes)
    }
}

impl Encode for i32 {
    open spec fn encoding(self) -> Seq<u8> {
        spec_u32_to_le_bytes(self as u32)
    }

    proof fn lemma_encoding_injective(a: i32, b: i32) {
        lemma_auto_spec_u32_to_from_le_bytes();
        assert(spec_u32_to_le_bytes(a as u32).len() == 4);
        assert(spec_u32_to_le_bytes(b as u32).len() == 4);
        assert((a as u32) == (b as u32) ==> a == b) by (bit_vector);
    }

    fn encode(&self) -> (r: Vec<u8>) {
        serialize_i32(*self)
    }
}

impl Decode for i32 {
    open spec fn decoding(bytes: Seq<u8>) -> Option<i32> {
        if bytes.len() >= 4 {
            Some(spec_u32_from_le_bytes(bytes.subrange(0, 4)) as i32)
        } else {
            None
        }
    }

    proof fn lemma_round_trip(v: i32) {
        lemma_auto_spec_u32_to_from_le_bytes();
        assert(spec_u32_to_le_bytes(v as u32).len() == 4);
        assert(v.encoding().subrange(0, 4) == v.encoding());
        assert(((v as u32) as i32) == v) by (bit_vector);
    }

    fn decode(bytes: &[u8]) -> (r: Option<i32>) {
        deserialize_i32(bytes)
    }
}

} // verus!
