use vstd::prelude::*;

verus! {

/// One step of the CRC-32 (IEEE) shift register, least significant bit
/// first: shift right, and fold in the reflected polynomial `0xEDB88320`
/// when a one was shifted out.
pub open spec fn crc_round(s: u32) -> u32 {
    if s & 1 == 1 {
        (s >> 1) ^ 0xEDB8_8320u32
    } else {
        s >> 1
    }
}

/// The register after byte `b` was fed to it: eight steps after the byte
/// was folded into its low bits.
pub open spec fn crc_byte(s: u32, b: u8) -> u32 {
    crc_round(crc_round(crc_round(crc_round(crc_round(crc_round(crc_round(crc_round(s ^ (b as u32)))))))))
}

/// The register after the bytes of `data`, from all ones.
pub open spec fn crc_state(data: Seq<u8>) -> u32
    decreases data.len(),
{
    if data.len() == 0 {
        0xFFFF_FFFFu32
    } else {
        crc_byte(crc_state(data.drop_last()), data.last())
    }
}

/// The CRC-32 (IEEE) checksum of a byte sequence: the register after all of
/// it, inverted.
pub open spec fn crc32_of(data: Seq<u8>) -> u32 {
    crc_state(data) ^ 0xFFFF_FFFFu32
}

/// Calls `crc32fast::hash`, which computes the CRC-32 (IEEE) checksum of
/// `data`, the function `crc32_of` states.
#[verifier::external_body]
pub(crate) fn crc32(data: &[u8]) -> (r: u32)
    ensures
        r == crc32_of(data@),
{
    crc32fast::hash(data)
}

/// A step of the register loses nothing: different registers step to
/// different ones.
proof fn lemma_round_injective(a: u32, b: u32)
    ensures
        crc_round(a) == crc_round(b) ==> a == b,
{
    assert((if a & 1 == 1 { (a >> 1) ^ 0xEDB8_8320u32 } else { a >> 1 }) == (if b & 1 == 1 {
        (b >> 1) ^ 0xEDB8_8320u32
    } else {
        b >> 1
    }) ==> a == b) by (bit_vector);
}

/// Different registers, or different bytes fed to one register, give
/// different registers.
proof fn lemma_byte_injective(s1: u32, s2: u32, b1: u8, b2: u8)
    requires
        s1 != s2 && b1 == b2 || s1 == s2 && b1 != b2,
    ensures
        crc_byte(s1, b1) != crc_byte(s2, b2),
{
    let x1 = s1 ^ (b1 as u32);
    let x2 = s2 ^ (b2 as u32);
    assert(x1 != x2) by (bit_vector)
        requires
            x1 == s1 ^ (b1 as u32),
            x2 == s2 ^ (b2 as u32),
            s1 != s2 && b1 == b2 || s1 == s2 && b1 != b2,
    ;
    let a1 = crc_round(x1);
    let b1 = crc_round(x2);
    lemma_round_injective(x1, x2);
    let a2 = crc_round(a1);
    let b2_ = crc_round(b1);
    lemma_round_injective(a1, b1);
    let a3 = crc_round(a2);
    let b3 = crc_round(b2_);
    lemma_round_injective(a2, b2_);
    let a4 = crc_round(a3);
    let b4 = crc_round(b3);
    lemma_round_injective(a3, b3);
    let a5 = crc_round(a4);
    let b5 = crc_round(b4);
    lemma_round_injective(a4, b4);
    let a6 = crc_round(a5);
    let b6 = crc_round(b5);
    lemma_round_injective(a5, b5);
    let a7 = crc_round(a6);
    let b7 = crc_round(b6);
    lemma_round_injective(a6, b6);
    lemma_round_injective(a7, b7);
}

/// CRC-32 detects a changed byte: two byte sequences of one length that
/// differ at one position have different checksums.
pub proof fn lemma_crc_detects_changed_byte(d1: Seq<u8>, d2: Seq<u8>, i: int)
    requires
        d1.len() == d2.len(),
        0 <= i < d1.len(),
        d1[i] != d2[i],
        forall|j: int| 0 <= j < d1.len() && j != i ==> d1[j] == d2[j],
    ensures
        crc32_of(d1) != crc32_of(d2),
{
    lemma_states_differ(d1, d2, i);
    let s1 = crc_state(d1);
    let s2 = crc_state(d2);
    assert(s1 ^ 0xFFFF_FFFFu32 != s2 ^ 0xFFFF_FFFFu32) by (bit_vector)
        requires
            s1 != s2,
    ;
}

/// The registers after two byte sequences that differ at one position
/// differ.
proof fn lemma_states_differ(d1: Seq<u8>, d2: Seq<u8>, i: int)
    requires
        d1.len() == d2.len(),
        0 <= i < d1.len(),
        d1[i] != d2[i],
        forall|j: int| 0 <= j < d1.len() && j != i ==> d1[j] == d2[j],
    ensures
        crc_state(d1) != crc_state(d2),
    decreases d1.len(),
{
    let n = d1.len() as int;
    if i == n - 1 {
        assert(d1.drop_last() =~= d2.drop_last());
        lemma_byte_injective(crc_state(d1.drop_last()), crc_state(d2.drop_last()), d1.last(), d2.last());
    } else {
        assert(d1.last() == d2.last());
        lemma_states_differ(d1.drop_last(), d2.drop_last(), i);
        lemma_byte_injective(crc_state(d1.drop_last()), crc_state(d2.drop_last()), d1.last(), d2.last());
    }
}

} // verus!
