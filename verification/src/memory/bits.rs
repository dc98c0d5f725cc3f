//! Single bits inside the bytes of a bitmap.
//!
//! A bitmap stores eight slots per byte. The most significant bit of a byte
//! belongs to the lowest slot that the byte covers.

use vstd::prelude::*;

verus! {

/// Whether bit `bit` (0 is the least significant) of `byte` is set.
pub open spec fn bit_set(byte: u8, bit: u8) -> bool {
    (byte >> bit) & 1u8 == 1u8
}

/// The bit of a byte that stands for slot `slot`.
pub open spec fn slot_bit(slot: int) -> u8 {
    (7 - slot % 8) as u8
}

/// Whether slot `slot` of the bitmap `bytes` reads as used.
pub open spec fn slot_used(bytes: Seq<u8>, slot: int) -> bool {
    bit_set(bytes[slot / 8], slot_bit(slot))
}

/// Testing a bit with shift and mask gives the bit.
pub proof fn lemma_test_bit(byte: u8, bit: u8)
    by (bit_vector)
    requires
        bit < 8,
    ensures
        ((byte >> bit) & 1u8 == 0u8) == !bit_set(byte, bit),
{
}

/// Or-ing in a single bit sets that bit and keeps the others.
pub proof fn lemma_set_bit(byte: u8, bit: u8, other: u8)
    by (bit_vector)
    requires
        bit < 8,
        other < 8,
    ensures
        bit_set(byte | (1u8 << bit), other) == (other == bit || bit_set(byte, other)),
{
}

/// Masking out a single bit clears that bit and keeps the others.
pub proof fn lemma_clear_bit(byte: u8, bit: u8, other: u8)
    by (bit_vector)
    requires
        bit < 8,
        other < 8,
    ensures
        bit_set(byte & !(1u8 << bit), other) == (other != bit && bit_set(byte, other)),
{
}

/// Testing two neighbouring bits at once: the pair reads zero exactly when
/// both bits are clear.
pub proof fn lemma_test_pair(byte: u8, low: u8)
    by (bit_vector)
    requires
        low < 7,
    ensures
        ((byte >> low) & 3u8 == 0u8) == (!bit_set(byte, low) && !bit_set(byte, (low + 1) as u8)),
{
}

/// Or-ing in two neighbouring bits sets both and keeps the others.
pub proof fn lemma_set_pair(byte: u8, low: u8, other: u8)
    by (bit_vector)
    requires
        low < 7,
        other < 8,
    ensures
        bit_set(byte | (3u8 << low), other) == (other == low || other == low + 1 || bit_set(
            byte,
            other,
        )),
{
}

/// Masking out two neighbouring bits clears both and keeps the others.
pub proof fn lemma_clear_pair(byte: u8, low: u8, other: u8)
    by (bit_vector)
    requires
        low < 7,
        other < 8,
    ensures
        bit_set(byte & !(3u8 << low), other) == (other != low && other != low + 1 && bit_set(
            byte,
            other,
        )),
{
}

/// Two bytes with the same eight bits are the same byte.
pub proof fn lemma_byte_by_bits(a: u8, b: u8)
    by (bit_vector)
    requires
        bit_set(a, 0) == bit_set(b, 0),
        bit_set(a, 1) == bit_set(b, 1),
        bit_set(a, 2) == bit_set(b, 2),
        bit_set(a, 3) == bit_set(b, 3),
        bit_set(a, 4) == bit_set(b, 4),
        bit_set(a, 5) == bit_set(b, 5),
        bit_set(a, 6) == bit_set(b, 6),
        bit_set(a, 7) == bit_set(b, 7),
    ensures
        a == b,
{
}

/// Every bit of the byte `0xFF` is set.
pub proof fn lemma_full_byte(bit: u8)
    by (bit_vector)
    requires
        bit < 8,
    ensures
        bit_set(0xFFu8, bit),
{
}

} // verus!
