//! Tests of the main input decoder and its field parsers.

use wambo::parse::error::ParseError;
use wambo::parse::get_input_split;
use wambo::parse::normalize_input;
use wambo::parse::ns::NumeralSystem;
use wambo::parse::parse_input;
use wambo::parse::sign::Sign;
use wambo::parse::unit::Unit;

#[test]
fn test_get_input_split() {
    let split = get_input_split("-0x123ki").unwrap();
    assert_eq!("-", split.sign.unwrap());
    assert_eq!("0x", split.ns.unwrap());
    assert_eq!("123", split.value);
    assert_eq!("ki", split.unit.unwrap());

    let split = get_input_split("123").unwrap();
    assert!(split.sign.is_none());
    assert!(split.ns.is_none());
    assert_eq!("123", split.value);
    assert!(split.unit.is_none());
}

#[test]
fn mod_test_parse_input() {
    let parsed = parse_input("-0xFMib").unwrap();
    assert_eq!(Sign::Negative, parsed.sign());
    assert_eq!(15, parsed.value());
    assert_eq!(NumeralSystem::Hex, parsed.numeral_system());
    assert_eq!(Unit::Mibi, parsed.unit());
}

#[test]
fn test_normalized_input() {
    assert_eq!("0xdeadbeefmb", normalize_input("0x_dead_beefMB"));
    assert_eq!("123456789", normalize_input("123456789"));
}

#[test]
fn ns_test_parse_numeral_system() {
    // we test only normalized inputs here
    assert_eq!(
        NumeralSystem::Bin,
        NumeralSystem::from_input("0b1"),
        "Must be NumeralSystem::Bin"
    );
    assert_eq!(
        NumeralSystem::Octal,
        NumeralSystem::from_input("0o1"),
        "Must be NumeralSystem::Octal"
    );
    assert_eq!(
        NumeralSystem::Decimal,
        NumeralSystem::from_input("12345"),
        "Must be NumeralSystem::Decimal"
    );
    assert_eq!(
        NumeralSystem::Hex,
        NumeralSystem::from_input("0x1"),
        "Must be NumeralSystem::Hex"
    );
}

#[test]
fn sign_test_parse_numeral_system() {
    // we test only normalized inputs here
    assert_eq!(Sign::Positive, Sign::from_input(""), "Must be Sign::Positive");
    assert_eq!(Sign::Negative, Sign::from_input("-"), "Must be Sign::Negative");
}

#[test]
fn test_parse_unit() {
    // only lowercase here
    // because user input gets transformed to lowercase
    assert_eq!(Unit::Base, Unit::from_input("").unwrap(), "Must be Unit::Base");
    assert_eq!(Unit::Kilo, Unit::from_input("k").unwrap(), "Must be Unit::Kilo");
    assert_eq!(Unit::Kibi, Unit::from_input("ki").unwrap(), "Must be Unit::Kibi");
    assert_eq!(Unit::Kibi, Unit::from_input("kib").unwrap(), "Must be Unit::Kibi");
    assert_eq!(Unit::Mega, Unit::from_input("m").unwrap(), "Must be Unit::Mega");
    assert_eq!(Unit::Giga, Unit::from_input("gb").unwrap(), "Must be Unit::Giga");
    assert_eq!(Unit::Tera, Unit::from_input("tb").unwrap(), "Must be Unit::Tera");
    assert!(Unit::from_input("afaf").is_err());
}

#[test]
fn test_invalid_format() {
    assert!(matches!(parse_input("12234gib124"), Err(ParseError::InvalidFormat)));
    assert!(matches!(parse_input(""), Err(ParseError::InvalidFormat)));
    assert!(matches!(parse_input("-"), Err(ParseError::InvalidFormat)));
    assert!(matches!(parse_input("kb"), Err(ParseError::InvalidFormat)));
}

#[test]
fn test_invalid_unit() {
    match parse_input("123afafx") {
        Err(ParseError::InvalidUnit(suffix)) => assert_eq!("x", suffix),
        other => panic!("expected InvalidUnit, got {:?}", other),
    }
    match parse_input("1xyz") {
        Err(ParseError::InvalidUnit(suffix)) => assert_eq!("xyz", suffix),
        other => panic!("expected InvalidUnit, got {:?}", other),
    }
}

#[test]
fn test_radix_digit_error() {
    // `a` is in the grammar's digit class but not a decimal digit
    assert!(matches!(parse_input("123a"), Err(ParseError::RadixDigitError)));
    // `2` is not a binary digit
    assert!(matches!(parse_input("0b102"), Err(ParseError::RadixDigitError)));
    // `9` is not an octal digit
    assert!(matches!(parse_input("0o9"), Err(ParseError::RadixDigitError)));
}

#[test]
fn test_overflow() {
    // one above u64::MAX
    assert!(matches!(
        parse_input("18446744073709551616"),
        Err(ParseError::Overflow)
    ));
    // fits raw, but not after scaling to base units
    assert!(matches!(
        parse_input("18446744073709551615kb"),
        Err(ParseError::Overflow)
    ));
    // the largest value is still fine without a unit
    assert_eq!(
        u64::MAX,
        parse_input("18446744073709551615").unwrap().value()
    );
}

#[test]
fn test_decimal_round_trip_concrete() {
    assert_eq!(0, parse_input("0").unwrap().value());
    assert_eq!(12234, parse_input("12234").unwrap().value());
    assert_eq!(12234, parse_input("  12_2_34  ").unwrap().value());
}

#[test]
fn test_normalized_input_rederivable() {
    let parsed = parse_input("-0x_F_Mib").unwrap();
    assert_eq!("-0xfmib", parsed.normalized_input());
    let parsed = parse_input("0x6020kb").unwrap();
    assert_eq!("0x6020kb", parsed.normalized_input());
    assert_eq!(0x6020, parsed.value());
    assert_eq!(Unit::Kilo, parsed.unit());
}

#[test]
fn test_value_is_pre_scaled() {
    // the unit stays metadata: the magnitude is not folded
    let parsed = parse_input("5mb").unwrap();
    assert_eq!(5, parsed.value());
    assert_eq!(5, parsed.value_str());
    assert_eq!(Unit::Mega, parsed.unit());
    assert_eq!(5_000_000, parsed.unit().value_to_base_u64(parsed.value()));
}

#[test]
fn test_value_to_base_u64() {
    assert_eq!(1024, Unit::Kibi.value_to_base_u64(1));
    assert_eq!(3_000_000, Unit::Mega.value_to_base_u64(3));
    assert_eq!(7, Unit::Base.value_to_base_u64(7));
    assert_eq!(2_199_023_255_552, Unit::Tebi.value_to_base_u64(2));
    assert_eq!(4_000_000_000_000, Unit::Tera.value_to_base_u64(4));
}

#[test]
fn test_sign_helpers() {
    assert!(Sign::Positive.is_pos());
    assert!(!Sign::Positive.is_neg());
    assert!(Sign::Negative.is_neg());
    assert!(!Sign::Negative.is_pos());
}

#[test]
fn test_error_messages() {
    assert_eq!(
        "unrecognized unit suffix: afaf",
        ParseError::InvalidUnit("afaf".to_string()).message()
    );
    assert_eq!(
        "input does not match the grammar",
        ParseError::InvalidFormat.message()
    );
}
