//! CRC-32 with the reflected polynomial 0xEDB88320.

use vstd::prelude::*;

verus! {

/// The reflected polynomial.
pub const POLYNOMIAL: u32 = 0xEDB88320;

/// The remainder `crc` after `steps` more bits of `ch`, lowest bit first:
/// each bit that differs from the lowest bit of the remainder folds the
/// polynomial into the shifted remainder.
pub open spec fn after_bits(crc: u32, ch: u32, steps: nat) -> u32
    decreases steps,
{
    if steps == 0 {
        crc
    } else {
        let shifted = crc >> 1;
        let next = if (ch ^ crc) & 1 != 0 {
            shifted ^ POLYNOMIAL
        } else {
            shifted
        };
        after_bits(next, ch >> 1, (steps - 1) as nat)
    }
}

/// The entry of the CRC table for the byte `index`.
pub open spec fn table_entry(index: u32) -> u32 {
    after_bits(0, index, 8)
}

/// The remainder after one more byte.
pub open spec fn crc_update(crc: u32, byte: u8) -> u32 {
    (crc >> 8) ^ table_entry((byte as u32 ^ crc) & 0xFF)
}

/// The remainder after the bytes of `input`, starting from `crc`.
pub open spec fn crc_fold(input: Seq<u8>, crc: u32) -> u32
    decreases input.len(),
{
    if input.len() == 0 {
        crc
    } else {
        crc_update(crc_fold(input.drop_last(), crc), input.last())
    }
}

/// The CRC-32 of `input`.
pub open spec fn crc32(input: Seq<u8>) -> u32 {
    !crc_fold(input, 0xFFFFFFFF)
}

/// The entry of the CRC table for the byte `index`.
pub fn crc32_table_entry(index: u32) -> (entry: u32)
    ensures
        entry == table_entry(index),
{
    let mut ch: u32 = index;
    let mut crc: u32 = 0;
    let mut j: u32 = 0;
    while j < 8
        invariant
            j <= 8,
            after_bits(crc, ch, (8 - j) as nat) == table_entry(index),
        decreases 8 - j,
    {
        let b = (ch ^ crc) & 1;
        crc = crc >> 1;
        if b != 0 {
            crc = crc ^ POLYNOMIAL;
        }
        ch = ch >> 1;
        j = j + 1;
    }
    crc
}

/// Carries the remainder `crc` on over the bytes of `input`.
pub fn calculate_crc32_partial(input: &[u8], crc: u32) -> (result: u32)
    ensures
        result == crc_fold(input@, crc),
{
    let mut crc: u32 = crc;
    let ghost start = crc;
    let mut i: usize = 0;
    assert(input@.take(0) =~= Seq::<u8>::empty());
    while i < input.len()
        invariant
            i <= input@.len(),
            crc == crc_fold(input@.take(i as int), start),
        decreases input@.len() - i,
    {
        let byte = input[i];
        let idx: u32 = (byte as u32 ^ crc) & 0xFF;
        assert(input@.take(i + 1).drop_last() =~= input@.take(i as int));
        crc = (crc >> 8) ^ crc32_table_entry(idx);
        i = i + 1;
    }
    assert(input@.take(i as int) =~= input@);
    crc
}

/// The CRC-32 of `input`.
pub fn calculate_crc32(input: &[u8]) -> (result: u32)
    ensures
        result == crc32(input@),
{
    !calculate_crc32_partial(input, 0xFFFFFFFF)
}

} // verus!
