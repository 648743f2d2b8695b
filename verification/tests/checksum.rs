use actionkv::checksum::{crc32_checksum, parity_bit};

#[test]
fn parity_bit_test() {
    assert_eq!(parity_bit(b"abc"), 1);
    assert_eq!(parity_bit(b"abcd"), 0);
}

#[test]
fn crc32_checksum_test() {
    // compare with crc32 from python zlib
    assert_eq!(crc32_checksum(b"abc"), 891568578);
    assert_eq!(crc32_checksum(b"abcd"), 3984772369);
}

#[test]
fn parity_bit_of_nothing_is_one() {
    assert_eq!(parity_bit(b""), 1);
}

#[test]
fn parity_bit_counts_every_bit() {
    assert_eq!(parity_bit(&[0b0000_0001]), 0);
    assert_eq!(parity_bit(&[0b1000_0000]), 0);
    assert_eq!(parity_bit(&[0b1000_0001]), 1);
    assert_eq!(parity_bit(&[0xff]), 1);
    assert_eq!(parity_bit(&[0xff, 0x01]), 0);
    assert_eq!(parity_bit(&[0x10, 0x01]), 1);
    assert_eq!(parity_bit(&[0x7f, 0x00, 0x00]), 0);
}

#[test]
fn crc32_checksum_of_nothing_is_zero() {
    assert_eq!(crc32_checksum(b""), 0);
}

#[test]
fn crc32_checksum_check_value() {
    assert_eq!(crc32_checksum(b"123456789"), 0xcbf4_3926);
}
