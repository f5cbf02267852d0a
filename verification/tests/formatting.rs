use byte_histogram::text::{format_decimal, format_fixed2, format_hex_byte, format_padded};

#[test]
fn bytes_in_lower_case_hexadecimal() {
    assert_eq!(format_hex_byte(0x00), "00");
    assert_eq!(format_hex_byte(0x01), "01");
    assert_eq!(format_hex_byte(0x0a), "0a");
    assert_eq!(format_hex_byte(0x10), "10");
    assert_eq!(format_hex_byte(0x9f), "9f");
    assert_eq!(format_hex_byte(0xff), "ff");
}

#[test]
fn every_byte_as_the_formatter_of_the_standard_library_writes_it() {
    for byte in 0..=255u8 {
        assert_eq!(format_hex_byte(byte), format!("{:02x}", byte));
    }
}

#[test]
fn numbers_in_decimal() {
    assert_eq!(format_decimal(0), "0");
    assert_eq!(format_decimal(7), "7");
    assert_eq!(format_decimal(10), "10");
    assert_eq!(format_decimal(12_345), "12345");
    assert_eq!(format_decimal(1_000_000), "1000000");
    assert_eq!(format_decimal(u128::MAX), u128::MAX.to_string());
}

#[test]
fn hundredths_with_two_places() {
    assert_eq!(format_fixed2(0), "0.00");
    assert_eq!(format_fixed2(5), "0.05");
    assert_eq!(format_fixed2(39), "0.39");
    assert_eq!(format_fixed2(100), "1.00");
    assert_eq!(format_fixed2(2500), "25.00");
    assert_eq!(format_fixed2(5000), "50.00");
    assert_eq!(format_fixed2(9999), "99.99");
    assert_eq!(format_fixed2(10_000), "100.00");
    assert_eq!(format_fixed2(123_456), "1234.56");
}

#[test]
fn short_text_is_aligned_to_the_right() {
    assert_eq!(format_padded("0.39", 5), " 0.39");
    assert_eq!(format_padded("7", 5), "    7");
    assert_eq!(format_padded("", 3), "   ");
}

#[test]
fn long_text_is_left_as_it_is() {
    assert_eq!(format_padded("50.00", 5), "50.00");
    assert_eq!(format_padded("100.00", 5), "100.00");
    assert_eq!(format_padded("abc", 0), "abc");
}
