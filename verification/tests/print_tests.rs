//! Tests of the representation generator and the alignment engine.

use wambo::parse::parse_input;
use wambo::print::fraction_fmt::fmt_align_fraction_strings;
use wambo::print::fraction_fmt::fractional_part_count_zeroes;
use wambo::print::fraction_fmt::fractional_part_remove_zeroes;
use wambo::print::fraction_fmt::get_fractional_number_parts;
use wambo::print::fraction_fmt::normalized_fractional_part_or_none;
use wambo::print::format_64bit_bin_rust_style;
use wambo::print::format_num_add_delimiters;
use wambo::print::get_output_group;
use wambo::print::Interpretation;
use wambo::print::OutputGroup;
use wambo::print::OutputLine;
use wambo::print::ValueAlignment;

#[test]
fn test_get_fractional_number_parts() {
    let num = -13.37_f64;
    let num_fmt = format!("{:.2}", num);
    let parts = get_fractional_number_parts(&num_fmt);
    assert_eq!(true, parts.has_sign);
    assert_eq!("13", parts.whole_part);
    assert_eq!("37", parts.fractional_part.unwrap());

    let num = 1411010_f64;
    let num_fmt = format!("{}", num);
    let parts = get_fractional_number_parts(&num_fmt);
    assert_eq!(false, parts.has_sign);
    assert_eq!("1411010", parts.whole_part);
    assert_eq!(true, parts.fractional_part.is_none());
}

#[test]
fn test_fractional_part_count_zeroes() {
    assert_eq!(3, fractional_part_count_zeroes("123000"));
    assert_eq!(0, fractional_part_count_zeroes("123"));
    assert_eq!(1, fractional_part_count_zeroes("0"));
}

#[test]
fn test_fractional_part_remove_zeroes() {
    assert_eq!("123", fractional_part_remove_zeroes("123000"));
    assert_eq!("123", fractional_part_remove_zeroes("123"));
    assert_eq!("", fractional_part_remove_zeroes("0"));
}

#[test]
fn test_fractional_part_or_none() {
    assert_eq!(
        Some("123".to_owned()),
        normalized_fractional_part_or_none(Some("123000".to_owned()))
    );
    assert_eq!(
        Some("123".to_owned()),
        normalized_fractional_part_or_none(Some("123".to_owned()))
    );
    assert_eq!(None, normalized_fractional_part_or_none(Some("0".to_owned())));
    assert_eq!(None, normalized_fractional_part_or_none(Some("00000".to_owned())));
    assert_eq!(None, normalized_fractional_part_or_none(None));
}

#[test]
fn test_fmt_align_fraction_strings() {
    // "2" gets one space for the missing decimal point and one for the
    // missing fraction digit, so that the pair right-aligns cleanly
    assert_eq!(
        ("2  ".to_owned(), "2.5".to_owned()),
        fmt_align_fraction_strings("2", "2.5")
    );
    // the shorter fraction part is padded on the right, no zero is added
    assert_eq!(
        ("2.123".to_owned(), "2.12 ".to_owned()),
        fmt_align_fraction_strings("2.123", "2.12")
    );
}

#[test]
fn test_fmt_align_fraction_signs() {
    let (first, second) = fmt_align_fraction_strings("-13.37", "1411010");
    assert_eq!("-13.37", first);
    assert_eq!(" 1411010   ", second);
    let (first, second) = fmt_align_fraction_strings("2.5000", "2");
    assert_eq!("2.5", first);
    assert_eq!("2  ", second);
}

fn fold_og_iter_to_string(og: &OutputGroup) -> String {
    let mut it = og.iter();
    let mut base = String::new();
    while let Some((key, value)) = it.next() {
        base.push_str(key.as_str());
        base.push_str(value.as_str());
        base.push('\n');
    }
    base
}

fn get_output_base_group() -> OutputGroup {
    OutputGroup {
        title: Interpretation::NumeralSystems,
        lines: vec![
            OutputLine {
                key: "foo".to_string(),
                value: "foobar".to_string(),
            },
            OutputLine {
                key: "foo2".to_string(),
                value: "foobar2".to_string(),
            },
        ],
        value_alignment: ValueAlignment::Left,
    }
}

#[test]
fn test_output_group_iter_align_left() {
    let mut og = get_output_base_group();
    og.value_alignment = ValueAlignment::Left;

    let final_str = fold_og_iter_to_string(&og);

    assert_eq!(
        // it is up to library users to add sth like ": " to the key
        "foo foobar\n\
             foo2foobar2\n\
            ",
        final_str
    );
}

#[test]
fn test_output_group_iter_align_right() {
    let mut og = get_output_base_group();
    og.value_alignment = ValueAlignment::Right;

    let final_str = fold_og_iter_to_string(&og);

    assert_eq!(
        // it is up to library users to add sth like ": " to the key
        "foo  foobar\n\
             foo2foobar2\n\
            ",
        final_str
    );
}

#[test]
fn test_numeral_systems_group() {
    let parsed = parse_input("-0xF").unwrap();
    let og = get_output_group(&parsed, Interpretation::NumeralSystems).unwrap();
    assert!(matches!(og.title(), Interpretation::NumeralSystems));
    assert_eq!(4, og.lines.len());
    assert_eq!("Dec", og.lines[0].key());
    assert_eq!("-15", og.lines[0].value());
    assert_eq!("Bin (0b)", og.lines[1].key());
    assert_eq!("-1111", og.lines[1].value());
    assert_eq!("Oct (0o)", og.lines[2].key());
    assert_eq!("-17", og.lines[2].value());
    assert_eq!("Hex (0x)", og.lines[3].key());
    assert_eq!("-f", og.lines[3].value());
}

#[test]
fn test_bits_group() {
    let parsed = parse_input("0b1000000011110000").unwrap();
    let og = get_output_group(&parsed, Interpretation::Bit64BigEndian).unwrap();
    assert_eq!(3, og.lines.len());
    assert_eq!("Bin (Rust-style)", og.lines[0].key());
    assert_eq!(
        "0b00000000_00000000_00000000_00000000_00000000_00000000_10000000_11110000",
        og.lines[0].value()
    );
    assert_eq!("Bin (C-style)", og.lines[1].key());
    assert_eq!(
        "0b0000000000000000000000000000000000000000000000001000000011110000",
        og.lines[1].value()
    );
    assert_eq!("Hex", og.lines[2].key());
    assert_eq!("0x00000000000080f0", og.lines[2].value());
}

#[test]
fn test_signed_integers_group() {
    let parsed = parse_input("200").unwrap();
    let og = get_output_group(&parsed, Interpretation::SignedIntegers).unwrap();
    assert_eq!(4, og.lines.len());
    assert_eq!(" i8", og.lines[0].key());
    assert_eq!("-56", og.lines[0].value());
    assert_eq!("i16", og.lines[1].key());
    assert_eq!("200", og.lines[1].value());
    assert_eq!("i32", og.lines[2].key());
    assert_eq!("200", og.lines[2].value());
    assert_eq!("i64", og.lines[3].key());
    assert_eq!("200", og.lines[3].value());

    let parsed = parse_input("18446744073709551615").unwrap();
    let og = get_output_group(&parsed, Interpretation::SignedIntegers).unwrap();
    assert_eq!("-1", og.lines[0].value());
    assert_eq!("-1", og.lines[3].value());
}

#[test]
fn test_unsigned_integers_group() {
    let parsed = parse_input("-200").unwrap();
    let og = get_output_group(&parsed, Interpretation::UnsignedIntegers).unwrap();
    assert_eq!(4, og.lines.len());
    assert_eq!(" u8", og.lines[0].key());
    assert_eq!("200", og.lines[0].value());
    assert_eq!("u16", og.lines[1].key());
    assert_eq!("200", og.lines[1].value());
    assert_eq!("u32", og.lines[2].key());
    assert_eq!("200", og.lines[2].value());
    assert_eq!("u64", og.lines[3].key());
    assert_eq!("200", og.lines[3].value());

    let parsed = parse_input("0x1_0000_0001").unwrap();
    let og = get_output_group(&parsed, Interpretation::UnsignedIntegers).unwrap();
    assert_eq!("1", og.lines[0].value());
    assert_eq!("1", og.lines[1].value());
    assert_eq!("1", og.lines[2].value());
    assert_eq!("4294967297", og.lines[3].value());
}

#[test]
fn test_float_lenses_left_to_presentation() {
    let parsed = parse_input("1").unwrap();
    assert!(get_output_group(&parsed, Interpretation::IEEE754).is_none());
    assert!(get_output_group(&parsed, Interpretation::Bytes).is_none());
    assert!(get_output_group(&parsed, Interpretation::Ibibytes).is_none());
}

#[test]
fn test_format_num_add_delimiters() {
    assert_eq!(
        "11110000_10101010",
        format_num_add_delimiters("1111000010101010", 8)
    );
    assert_eq!("12_34_56", format_num_add_delimiters("123456", 2));
    assert_eq!("123456", format_num_add_delimiters("123456", 6));
    assert_eq!("", format_num_add_delimiters("", 8));
}

#[test]
fn test_format_64bit_bin_rust_style() {
    assert_eq!(
        "00000000_00000000_00000000_00000000_00000000_00000000_00000000_00000001",
        format_64bit_bin_rust_style(1)
    );
}

#[test]
fn test_interpretation_labels() {
    assert_eq!("Numeral Systems", Interpretation::NumeralSystems.label());
    assert_eq!("64 bit (Big Endian)", Interpretation::Bit64BigEndian.label());
    assert_eq!("Signed Integers", Interpretation::SignedIntegers.label());
    assert_eq!("Unsigned Integers", Interpretation::UnsignedIntegers.label());
    assert_eq!("Integer Bits as IEEE-754", Interpretation::IEEE754.label());
    assert_eq!("Size in Bytes", Interpretation::Bytes.label());
    assert_eq!("Size in *ebi/*ibi Bytes", Interpretation::Ibibytes.label());
}

#[test]
fn test_group_iteration_alignment() {
    let parsed = parse_input("200").unwrap();
    let og = get_output_group(&parsed, Interpretation::SignedIntegers).unwrap();
    let mut it = og.iter();
    // all keys and all values have the same width here, so no padding
    assert_eq!(
        Some((" i8".to_string(), "-56".to_string())),
        it.next()
    );
    assert_eq!(Some(("i16".to_string(), "200".to_string())), it.next());
    assert_eq!(Some(("i32".to_string(), "200".to_string())), it.next());
    assert_eq!(Some(("i64".to_string(), "200".to_string())), it.next());
    assert_eq!(None, it.next());
}
