//! The byte-level encoding of the format's primitive values.
//!
//! Integers are little-endian; a boolean is one byte, 1 or 0; strings and
//! byte arrays are a `u32` length followed by their bytes.

use vstd::prelude::*;
use vstd::bytes::*;

verus! {

/// Little-endian bytes of a `u16`.
pub open spec fn le16(v: u16) -> Seq<u8> {
    spec_u16_to_le_bytes(v)
}

/// Little-endian bytes of a `u32`.
pub open spec fn le32(v: u32) -> Seq<u8> {
    spec_u32_to_le_bytes(v)
}

/// Little-endian bytes of a `u64`.
pub open spec fn le64(v: u64) -> Seq<u8> {
    spec_u64_to_le_bytes(v)
}

/// The encoding of a boolean.
pub open spec fn bool_byte(b: bool) -> u8 {
    if b { 1 } else { 0 }
}

/// The encoding of a byte array or string body: its length as a `u32`
/// (truncated, as the writer does), then the bytes.
pub open spec fn length_prefixed(body: Seq<u8>) -> Seq<u8> {
    le32(body.len() as u32) + body
}

/// The first `n` bytes of `input`, when it has that many.
pub open spec fn take_exact(input: Seq<u8>, n: nat) -> Option<Seq<u8>> {
    if n <= input.len() {
        Some(input.take(n as int))
    } else {
        None
    }
}

/// The `u32` read from the front of `input`.
pub open spec fn decode_u32(input: Seq<u8>) -> Option<u32> {
    match take_exact(input, 4) {
        Some(b) => Some(spec_u32_from_le_bytes(b)),
        None => None,
    }
}

/// A length-prefixed body read from the front of `input`, with the number of
/// bytes it takes (prefix included).
pub open spec fn decode_length_prefixed(input: Seq<u8>) -> Option<(Seq<u8>, nat)> {
    match decode_u32(input) {
        Some(len) => match take_exact(input.skip(4), len as nat) {
            Some(body) => Some((body, 4 + len as nat)),
            None => None,
        },
        None => None,
    }
}

/// The fixed-width encodings read back to the values written.
pub proof fn lemma_le_roundtrip()
    ensures
        forall|v: u16|
            {
                &&& #[trigger] le16(v).len() == 2
                &&& spec_u16_from_le_bytes(le16(v)) == v
            },
        forall|v: u32|
            {
                &&& #[trigger] le32(v).len() == 4
                &&& spec_u32_from_le_bytes(le32(v)) == v
            },
        forall|v: u64|
            {
                &&& #[trigger] le64(v).len() == 8
                &&& spec_u64_from_le_bytes(le64(v)) == v
            },
{
    lemma_auto_spec_u16_to_from_le_bytes();
    lemma_auto_spec_u32_to_from_le_bytes();
    lemma_auto_spec_u64_to_from_le_bytes();
}

/// A length-prefixed body is read back whole, whatever follows it, as long
/// as its length fits the `u32` prefix.
pub proof fn lemma_length_prefixed_roundtrip(body: Seq<u8>, rest: Seq<u8>)
    requires
        body.len() <= u32::MAX,
    ensures
        length_prefixed(body).len() == 4 + body.len(),
        decode_length_prefixed(length_prefixed(body) + rest) == Some((body, 4 + body.len())),
{
    lemma_le_roundtrip();
    let input = length_prefixed(body) + rest;
    assert(input.take(4) =~= le32(body.len() as u32));
    assert(input.skip(4).take(body.len() as int) =~= body);
}

} // verus!
