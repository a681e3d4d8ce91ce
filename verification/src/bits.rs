//! A bit-level model of byte sequences.
//!
//! A byte sequence is read as a stream of bits, most significant bit of
//! each byte first; an index selects one bit.  Powers of two and single-bit
//! extraction from an accumulated integer complete the model.

use vstd::prelude::*;

verus! {

/// Bit `i` of `data` read most-significant-bit first: bit 0 is the top bit
/// of `data[0]`, bit 7 its bottom bit, bit 8 the top bit of `data[1]`.
pub open spec fn bit_of(data: Seq<u8>, i: int) -> u8 {
    (data[i / 8] >> ((7 - i % 8) as u8)) & 1
}

/// Two to the power `k` (1 for `k <= 0`).
pub open spec fn two_pow(k: int) -> int
    decreases k,
{
    if k <= 0 {
        1
    } else {
        2 * two_pow(k - 1)
    }
}

/// A bit is a bit: whatever the byte and position, the extracted value is 0 or 1.
pub proof fn lemma_bit_of_is_bit(data: Seq<u8>, i: int)
    ensures
        bit_of(data, i) == 0 || bit_of(data, i) == 1,
{
    let x = data[i / 8];
    let s = (7 - i % 8) as u8;
    assert((x >> s) & 1 == 0 || (x >> s) & 1 == 1) by (bit_vector);
}

pub proof fn lemma_two_pow_positive(k: int)
    ensures
        two_pow(k) >= 1,
    decreases k,
{
    if k > 0 {
        lemma_two_pow_positive(k - 1);
    }
}

pub proof fn lemma_two_pow_monotonic(j: int, k: int)
    requires
        j <= k,
    ensures
        two_pow(j) <= two_pow(k),
    decreases k - j,
{
    if j < k {
        lemma_two_pow_monotonic(j, k - 1);
        lemma_two_pow_positive(k - 1);
    }
}

} // verus!
