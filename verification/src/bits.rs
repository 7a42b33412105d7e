//! Bit-level facts about single bytes of the frame buffer.

use vstd::prelude::*;

verus! {

/// Bit `i` (0 is the least significant) of `b` is set.
pub open spec fn bit_set(b: u8, i: u8) -> bool {
    (b >> i) & 1u8 == 1u8
}

/// The byte whose bits are those of `b` in the opposite order.
pub open spec fn reversed(b: u8) -> u8 {
    ((b & 0x01u8) << 7u8) | ((b & 0x02u8) << 5u8) | ((b & 0x04u8) << 3u8) | ((b & 0x08u8) << 1u8)
        | ((b & 0x10u8) >> 1u8) | ((b & 0x20u8) >> 3u8) | ((b & 0x40u8) >> 5u8) | ((b & 0x80u8) >> 7u8)
}

/// The mask of the bit that stands `k` places below the most significant one.
pub open spec fn msb_mask(k: u8) -> u8 {
    0x80u8 >> k
}

/// `reversed(b)` holds bit `i` of `b` at place `7 - i`, for every place.
pub proof fn lemma_reversed_bits(b: u8, i: u8)
    requires
        i < 8,
    ensures
        bit_set(reversed(b), i) == bit_set(b, (7 - i) as u8),
{
    assert(i < 8 ==> (((((b & 0x01u8) << 7u8) | ((b & 0x02u8) << 5u8) | ((b & 0x04u8) << 3u8) | ((b
        & 0x08u8) << 1u8) | ((b & 0x10u8) >> 1u8) | ((b & 0x20u8) >> 3u8) | ((b & 0x40u8) >> 5u8) | ((b
        & 0x80u8) >> 7u8)) >> i) & 1u8 == 1u8) == (((b >> ((7 - i) as u8)) & 1u8) == 1u8))
        by (bit_vector);
}

/// Reversing the bits twice gives the byte back.
pub proof fn lemma_reversed_involution(b: u8)
    ensures
        reversed(reversed(b)) == b,
{
    assert(reversed(reversed(b)) == b) by (bit_vector);
}

/// Reverses the order of the bits of `b`: the least significant bit becomes
/// the most significant one, and so on.
pub fn reverse_bits(b: u8) -> (r: u8)
    ensures
        forall|i: u8| i < 8 ==> #[trigger] bit_set(r, i) == bit_set(b, (7 - i) as u8),
        r == reversed(b),
    no_unwind
{
    proof {
        assert forall|i: u8| i < 8 implies #[trigger] bit_set(reversed(b), i) == bit_set(
            b,
            (7 - i) as u8,
        ) by {
            lemma_reversed_bits(b, i);
        }
    }
    let r: u8 = ((b & 0x01) << 7) | ((b & 0x02) << 5) | ((b & 0x04) << 3) | ((b & 0x08) << 1) | ((b
        & 0x10) >> 1) | ((b & 0x20) >> 3) | ((b & 0x40) >> 5) | ((b & 0x80) >> 7);
    assert(r == reversed(b));
    r
}

/// What clearing, setting and toggling the bit of `msb_mask(k)` does to that bit and to the others.
pub proof fn lemma_mask_ops(b: u8, k: u8, j: u8)
    requires
        k < 8,
        j < 8,
    ensures
        (b & !msb_mask(k)) & msb_mask(k) == 0,
        (b | msb_mask(k)) & msb_mask(k) != 0,
        ((b ^ msb_mask(k)) & msb_mask(k) == 0) == (b & msb_mask(k) != 0),
        (b ^ msb_mask(k)) ^ msb_mask(k) == b,
        j != k ==> (((b & !msb_mask(k)) & msb_mask(j) == 0) == (b & msb_mask(j) == 0)),
        j != k ==> (((b | msb_mask(k)) & msb_mask(j) == 0) == (b & msb_mask(j) == 0)),
        j != k ==> (((b ^ msb_mask(k)) & msb_mask(j) == 0) == (b & msb_mask(j) == 0)),
        (b & msb_mask(k) == 0) ==> (b & !msb_mask(k)) == b,
        (b & msb_mask(k) != 0) ==> (b | msb_mask(k)) == b,
        (b & msb_mask(k) != 0) ==> (b ^ msb_mask(k)) == (b & !msb_mask(k)),
        (b & msb_mask(k) == 0) ==> (b ^ msb_mask(k)) == (b | msb_mask(k)),
{
    assert((b & !(0x80u8 >> k)) & (0x80u8 >> k) == 0) by (bit_vector);
    assert(k < 8 ==> (b | (0x80u8 >> k)) & (0x80u8 >> k) != 0) by (bit_vector);
    assert(k < 8 ==> (((b ^ (0x80u8 >> k)) & (0x80u8 >> k) == 0) == (b & (0x80u8 >> k) != 0)))
        by (bit_vector);
    assert((b ^ (0x80u8 >> k)) ^ (0x80u8 >> k) == b) by (bit_vector);
    assert(k < 8 && j < 8 && j != k ==> (((b & !(0x80u8 >> k)) & (0x80u8 >> j) == 0) == (b & (0x80u8
        >> j) == 0))) by (bit_vector);
    assert(k < 8 && j < 8 && j != k ==> (((b | (0x80u8 >> k)) & (0x80u8 >> j) == 0) == (b & (0x80u8
        >> j) == 0))) by (bit_vector);
    assert(k < 8 && j < 8 && j != k ==> (((b ^ (0x80u8 >> k)) & (0x80u8 >> j) == 0) == (b & (0x80u8
        >> j) == 0))) by (bit_vector);
    assert((b & (0x80u8 >> k) == 0) ==> (b & !(0x80u8 >> k)) == b) by (bit_vector);
    assert((b & (0x80u8 >> k) != 0) ==> (b | (0x80u8 >> k)) == b) by (bit_vector);
    assert((b & (0x80u8 >> k) != 0) ==> (b ^ (0x80u8 >> k)) == (b & !(0x80u8 >> k))) by (bit_vector);
    assert((b & (0x80u8 >> k) == 0) ==> (b ^ (0x80u8 >> k)) == (b | (0x80u8 >> k))) by (bit_vector);
}

/// A byte is determined by which of its eight bits are set.
pub proof fn lemma_byte_from_bits(a: u8, b: u8)
    requires
        forall|k: u8| k < 8 ==> ((a & #[trigger] msb_mask(k) == 0) == (b & msb_mask(k) == 0)),
    ensures
        a == b,
{
    assert(msb_mask(0) == 0x80u8) by (bit_vector);
    assert(msb_mask(1) == 0x40u8) by (bit_vector);
    assert(msb_mask(2) == 0x20u8) by (bit_vector);
    assert(msb_mask(3) == 0x10u8) by (bit_vector);
    assert(msb_mask(4) == 0x08u8) by (bit_vector);
    assert(msb_mask(5) == 0x04u8) by (bit_vector);
    assert(msb_mask(6) == 0x02u8) by (bit_vector);
    assert(msb_mask(7) == 0x01u8) by (bit_vector);
    assert(((a & 0x80u8 == 0) == (b & 0x80u8 == 0)) && ((a & 0x40u8 == 0) == (b & 0x40u8 == 0)) && ((a
        & 0x20u8 == 0) == (b & 0x20u8 == 0)) && ((a & 0x10u8 == 0) == (b & 0x10u8 == 0)) && ((a & 0x08u8
        == 0) == (b & 0x08u8 == 0)) && ((a & 0x04u8 == 0) == (b & 0x04u8 == 0)) && ((a & 0x02u8 == 0)
        == (b & 0x02u8 == 0)) && ((a & 0x01u8 == 0) == (b & 0x01u8 == 0)) ==> a == b) by (bit_vector);
}

} // verus!
