//! Tests of the compact one-shot decoder.

use wambo::decode::input_valid;
use wambo::decode::parse_input;
use wambo::decode::input_normalizer;
use wambo::decode::NumeralSystem;
use wambo::decode::Unit;

#[test]
fn test_input_valid() {
    assert!(input_valid("12234"));
    assert!(input_valid("12234mb"));
    assert!(input_valid("12234gib"));
    assert!(input_valid("0x2000"));
    assert!(input_valid("0b1000000011110000"));
    assert!(input_valid("0x6020kb"));

    assert!(!input_valid("12234gib124"));
}

#[test]
fn test_numeral_system_from_input() {
    assert_eq!(NumeralSystem::Decimal, NumeralSystem::from_input("11314"));
    assert_eq!(NumeralSystem::Decimal, NumeralSystem::from_input("11314kb"));
    assert_eq!(NumeralSystem::Hex, NumeralSystem::from_input("0x2000"));
    assert_eq!(NumeralSystem::Bin, NumeralSystem::from_input("0b00101"));
}

#[test]
fn parse_test_parse_input() {
    parse_input("1234").expect("should work");
    parse_input("1234kb").expect("should work");
    parse_input("0x2000_4000_mb").expect("should work");
    let parsed = parse_input("0x2000_4000_mib").expect("should work");
    assert_eq!(parsed.unit(), Unit::Mibi);
    assert_eq!(*parsed.numeral_sysem(), NumeralSystem::Hex);
}

#[test]
fn test_unit_to_base() {
    assert_eq!(Unit::value_to_base(1, Unit::Kibi), 1024)
}

#[test]
fn test_decode_fields() {
    let parsed = parse_input(" 0x20_00KB ").unwrap();
    assert_eq!(" 0x20_00KB ", parsed.original_input());
    assert_eq!("0x2000kb", parsed.normalized_input());
    assert_eq!("2000", parsed.number_string());
    assert_eq!("kb", parsed.unit_string());
    assert_eq!(Unit::Kilo, parsed.unit());
    assert_eq!(NumeralSystem::Hex, *parsed.numeral_sysem());
    assert_eq!(0x2000 * 1000, parsed.actual_value());
}

#[test]
fn test_decode_folds_unit_in() {
    assert_eq!(1234, parse_input("1234").unwrap().actual_value());
    assert_eq!(1_234_000, parse_input("1234kb").unwrap().actual_value());
    assert_eq!(2048, parse_input("2ki").unwrap().actual_value());
}

#[test]
fn test_decode_rejects() {
    assert!(parse_input("12234gib124").is_err());
    assert!(parse_input("").is_err());
    // `a` is not a decimal digit
    assert!(parse_input("12a34").is_err());
    // unknown suffixes are not part of the smaller grammar
    assert!(parse_input("1tb").is_err());
}

#[test]
fn test_input_normalizer() {
    assert_eq!("0xdeadbeefmb", input_normalizer("0x_dead_beefMB"));
    assert_eq!("abc", input_normalizer("  A_B_C  "));
}

#[test]
fn test_unit_from_str() {
    assert_eq!(Unit::Kilo, Unit::from_str("k"));
    assert_eq!(Unit::Kilo, Unit::from_str("kb"));
    assert_eq!(Unit::Mibi, Unit::from_str("mi"));
    assert_eq!(Unit::Gibi, Unit::from_str("gib"));
    // unrecognized suffixes resolve to the base unit
    assert_eq!(Unit::Base, Unit::from_str(""));
    assert_eq!(Unit::Base, Unit::from_str("zz"));
}
