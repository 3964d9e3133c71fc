use rust_os::shared::bits::{get_bits, set_bit, set_bits};
use rust_os::shared::crc::{calculate_crc32, calculate_crc32_partial, crc32_table_entry};

#[test]
fn set_bit_test() {
    let mut num = 0b1000_0000;

    set_bit(&mut num, 4, true);
    assert_eq!(0b1001_0000, num);

    set_bit(&mut num, 7, false);
    assert_eq!(0b0001_0000, num);
}

#[test]
fn set_bits_test() {
    let mask = 0b1001_1010;

    let mut num = 1 << 47;

    set_bits(&mut num, mask, 16);

    assert_eq!(0x8000_009a_0000, num);
}

#[test]
fn get_bits_test() {
    assert_eq!(0b101, get_bits(0b0010_1000, 3..6));
    assert_eq!(1, get_bits(0x8000_0000_0000_0000, 63..64));
    assert_eq!(0x3777, get_bits(0x0000_3777_0000_0000, 32..48));
    assert_eq!(0x22, get_bits(0x0000_0000_0000_0022, 0..6));
}

#[test]
fn get_bits_masks_with_all_ones_shifted_by_the_end() {
    assert_eq!(get_bits(u64::MAX, 0..60), 0xf);
    assert_eq!(get_bits(0xff00, 8..64), 0xff);
    assert_eq!(get_bits(0x1234, 0..0), 0x1234);
}

#[test]
fn simple_crc32_test() {
    assert_eq!(1267612143, calculate_crc32("abcdef".as_bytes()));
    assert_eq!(0xCBF43926, calculate_crc32("123456789".as_bytes()));
}

#[test]
fn crc32_of_nothing_and_table_entries() {
    assert_eq!(calculate_crc32(&[]), 0);
    assert_eq!(crc32_table_entry(0), 0);
    assert_eq!(crc32_table_entry(1), 0x77073096);
    assert_eq!(crc32_table_entry(255), 0x2D02EF8D);
}

#[test]
fn crc32_in_two_parts_is_crc32_of_the_whole() {
    let first = calculate_crc32_partial(b"12345", 0xFFFF_FFFF);
    let both = calculate_crc32_partial(b"6789", first);
    assert_eq!(!both, 0xCBF43926);
}
