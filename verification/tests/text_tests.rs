//! Tests of the shared normalization and digit-rendering helpers.

use wambo::text::check_digits;
use wambo::text::i64_to_dec_string;
use wambo::text::normalize_str;
use wambo::text::parse_digits_u64;
use wambo::text::parse_digits_usize;
use wambo::text::u64_to_radix_string;
use wambo::text::u64_to_radix_string_padded;

#[test]
fn test_normalize_str() {
    assert_eq!("0xdeadbeefmb", normalize_str("0x_dead_beefMB"));
    assert_eq!("abc", normalize_str("\t A_bC \n"));
    assert_eq!("", normalize_str("   "));
    assert_eq!("", normalize_str(""));
    assert_eq!("a b", normalize_str(" a b "));
}

#[test]
fn test_check_digits() {
    assert!(check_digits("1234567890", 10));
    assert!(check_digits("19afd", 16));
    assert!(!check_digits("19afg", 16));
    assert!(!check_digits("12a34", 10));
    assert!(!check_digits("102", 2));
    assert!(check_digits("", 10));
}

#[test]
fn test_parse_digits() {
    assert_eq!(Some(255), parse_digits_u64("ff", 16));
    assert_eq!(Some(12234), parse_digits_u64("12234", 10));
    assert_eq!(Some(5), parse_digits_u64("101", 2));
    assert_eq!(Some(0), parse_digits_u64("0000", 8));
    assert_eq!(Some(u64::MAX), parse_digits_u64("ffffffffffffffff", 16));
    assert_eq!(None, parse_digits_u64("10000000000000000", 16));
    assert_eq!(None, parse_digits_u64("18446744073709551616", 10));
    assert_eq!(Some(255), parse_digits_usize("ff", 16));
}

#[test]
fn test_u64_to_radix_string() {
    assert_eq!("0", u64_to_radix_string(0, 10));
    assert_eq!("12234", u64_to_radix_string(12234, 10));
    assert_eq!("ff", u64_to_radix_string(255, 16));
    assert_eq!("11111111", u64_to_radix_string(255, 2));
    assert_eq!("777", u64_to_radix_string(511, 8));
    assert_eq!("18446744073709551615", u64_to_radix_string(u64::MAX, 10));
}

#[test]
fn test_u64_to_radix_string_padded() {
    assert_eq!("00ff", u64_to_radix_string_padded(255, 16, 4));
    assert_eq!("ff", u64_to_radix_string_padded(255, 16, 2));
    assert_eq!("0000000011", u64_to_radix_string_padded(3, 2, 10));
}

#[test]
fn test_i64_to_dec_string() {
    assert_eq!("0", i64_to_dec_string(0));
    assert_eq!("-5", i64_to_dec_string(-5));
    assert_eq!("120", i64_to_dec_string(120));
    assert_eq!("-9223372036854775808", i64_to_dec_string(i64::MIN));
    assert_eq!("9223372036854775807", i64_to_dec_string(i64::MAX));
}
