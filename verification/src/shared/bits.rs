//! Single-bit and bit-field helpers on 64-bit words.

use vstd::prelude::*;

verus! {

/// The word `num` with bit `n` forced to `value`.
pub open spec fn with_bit(num: u64, n: u8, value: bool) -> u64 {
    if value {
        num | (1u64 << n)
    } else {
        num & !(1u64 << n)
    }
}

/// The field that `get_bits` reads: `num` shifted down by `start`, masked by
/// all-ones shifted down by `end` (no mask when `end` is 64).
pub open spec fn bit_field(num: u64, start: u8, end: u8) -> u64 {
    if end != 64 {
        (num >> start) & (0xffff_ffff_ffff_ffffu64 >> end)
    } else {
        num >> start
    }
}

proof fn lemma_field_bound(num: u64, start: u8, end: u8)
    by (bit_vector)
    requires
        start < 64,
    ensures
        num >> start <= num,
        (num >> start) & (0xffff_ffff_ffff_ffffu64 >> end) <= num,
{
}

/// Sets or clears bit `n` of `num`.
pub fn set_bit(num: &mut u64, n: u8, value: bool)
    requires
        n < 64,
    ensures
        *final(num) == with_bit(*old(num), n, value),
{
    let mask: u64 = 1u64 << n;
    if value {
        *num |= mask;
    } else {
        *num &= !mask;
    }
}

/// Ors `mask`, shifted left by `shift`, into `num`.
pub fn set_bits(num: &mut u64, mask: u64, shift: u8)
    requires
        shift < 64,
    ensures
        *final(num) == *old(num) | (mask << shift),
{
    let mask: u64 = mask << shift;
    *num |= mask;
}

/// Reads the field of `num` that starts at bit `range.start`.
pub fn get_bits(num: u64, range: core::ops::Range<u8>) -> (field: u64)
    requires
        range.start < 64,
        range.end <= 64,
    ensures
        field == bit_field(num, range.start, range.end),
        field <= num,
{
    proof {
        lemma_field_bound(num, range.start, range.end);
    }
    let cut_first_bits: u64 = num >> range.start;
    if range.end != 64 {
        cut_first_bits & (0xffff_ffff_ffff_ffffu64 >> range.end)
    } else {
        cut_first_bits
    }
}

} // verus!
