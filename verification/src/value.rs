//! The runtime datum of the machine and its wire encoding.

use vstd::bytes::{
    lemma_auto_spec_u64_to_from_le_bytes, spec_u64_from_le_bytes, spec_u64_to_le_bytes,
};
use vstd::prelude::*;

verus! {

/// A value held on the operand stack or in a register.
pub type Value = i64;

/// Number of bytes an encoded [`Value`] occupies in bytecode.
pub const VALUE_WIDTH: usize = 8;

/// The eight little-endian bytes of the two's complement pattern of `value`.
pub open spec fn value_to_le_bytes(value: Value) -> Seq<u8> {
    spec_u64_to_le_bytes(value as u64)
}

/// The value whose two's complement pattern is given by eight little-endian
/// bytes.
pub open spec fn value_from_le_bytes(bytes: Seq<u8>) -> Value
    recommends
        bytes.len() == VALUE_WIDTH,
{
    spec_u64_from_le_bytes(bytes) as i64
}

/// Encoding a value always yields exactly eight bytes, and decoding them
/// gives the value back; negative values included.
pub proof fn lemma_value_bytes_roundtrip(value: Value)
    ensures
        value_to_le_bytes(value).len() == VALUE_WIDTH,
        value_from_le_bytes(value_to_le_bytes(value)) == value,
{
    lemma_auto_spec_u64_to_from_le_bytes();
    assert((value as u64) as i64 == value) by (bit_vector);
}

/// Any eight bytes are the encoding of the value they decode to.
pub proof fn lemma_bytes_value_roundtrip(bytes: Seq<u8>)
    requires
        bytes.len() == VALUE_WIDTH,
    ensures
        value_to_le_bytes(value_from_le_bytes(bytes)) == bytes,
{
    lemma_auto_spec_u64_to_from_le_bytes();
    let pattern = spec_u64_from_le_bytes(bytes);
    assert((pattern as i64) as u64 == pattern) by (bit_vector);
}

} // verus!
