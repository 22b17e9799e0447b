use smartcalc::number::{notation_exponent, parse_radix, read_number, NumberParts, NumberReading};
use smartcalc::types::NumberType;

fn parts(binary: Option<&str>, hex: Option<&str>, octal: Option<&str>, decimal: Option<&str>, notation: Option<&str>) -> NumberParts {
    NumberParts {
        binary: binary.map(|s| s.to_string()),
        hex: hex.map(|s| s.to_string()),
        octal: octal.map(|s| s.to_string()),
        decimal: decimal.map(|s| s.to_string()),
        notation: notation.map(|s| s.to_string()),
    }
}

#[test]
fn integers_in_other_bases_read_as_std_reads_them() {
    assert_eq!(parse_radix("100", 2), Some(4));
    assert_eq!(parse_radix("100", 16), Some(256));
    assert_eq!(parse_radix("ff", 16), Some(255));
    assert_eq!(parse_radix("FF", 16), Some(255));
    assert_eq!(parse_radix("100", 8), Some(64));
    assert_eq!(parse_radix("-10", 8), Some(-8));
    assert_eq!(parse_radix("+11", 2), Some(3));
    assert_eq!(parse_radix("7fffffffffffffff", 16), Some(i64::MAX));
    assert_eq!(parse_radix("-8000000000000000", 16), Some(i64::MIN));
    for (text, radix) in [("2", 2), ("8", 8), ("g", 16), ("", 2), ("+", 2), ("-", 16), ("1 0", 2), ("8000000000000000", 16)] {
        assert_eq!(parse_radix(text, radix), None);
        assert_eq!(parse_radix(text, radix), i64::from_str_radix(text, radix).ok());
    }
}

#[test]
fn notation_letters_are_powers_of_ten() {
    assert_eq!(notation_exponent("k"), 3);
    assert_eq!(notation_exponent("K"), 3);
    assert_eq!(notation_exponent("M"), 6);
    assert_eq!(notation_exponent("G"), 9);
    assert_eq!(notation_exponent("T"), 12);
    assert_eq!(notation_exponent("P"), 15);
    assert_eq!(notation_exponent("Z"), 18);
    assert_eq!(notation_exponent("Y"), 21);
    assert_eq!(notation_exponent("m"), 0);
    assert_eq!(notation_exponent(""), 0);
}

#[test]
fn the_first_captured_base_decides() {
    match read_number(&parts(Some("0101"), Some("ff"), None, Some("3"), None), ".", ",") {
        Some(NumberReading::Integer(5, NumberType::Binary)) => {},
        _ => panic!("binary expected"),
    }
    match read_number(&parts(None, Some("1A"), Some("7"), None, None), ".", ",") {
        Some(NumberReading::Integer(26, NumberType::Hexadecimal)) => {},
        _ => panic!("hexadecimal expected"),
    }
    match read_number(&parts(None, None, Some("17"), Some("3"), None), ".", ",") {
        Some(NumberReading::Integer(15, NumberType::Octal)) => {},
        _ => panic!("octal expected"),
    }
    assert!(read_number(&parts(Some("102"), None, None, None, None), ".", ",").is_none());
    assert!(matches!(read_number(&parts(None, None, None, None, None), ".", ","), Some(NumberReading::Zero)));
}

#[test]
fn decimal_text_uses_the_configured_separators() {
    match read_number(&parts(None, None, None, Some("1.234.567,5"), Some("k")), ".", ",") {
        Some(NumberReading::Decimal(text, exponent)) => {
            assert_eq!(text, "1234567.5");
            assert_eq!(exponent, 3);
        },
        _ => panic!("decimal expected"),
    }
    match read_number(&parts(None, None, None, Some("1,024.1"), Some("q")), ",", ".") {
        Some(NumberReading::Decimal(text, exponent)) => {
            assert_eq!(text, "1024.1");
            assert_eq!(exponent, 0);
        },
        _ => panic!("decimal expected"),
    }
    match read_number(&parts(None, None, None, Some("-1024,1"), None), ".", ",") {
        Some(NumberReading::Decimal(text, exponent)) => {
            assert_eq!(text, "-1024.1");
            assert_eq!(exponent, 0);
        },
        _ => panic!("decimal expected"),
    }
}

#[test]
fn separators_are_replaced_as_std_replaces() {
    match read_number(&parts(None, None, None, Some("1.5"), None), "", ".") {
        Some(NumberReading::Decimal(text, _)) => assert_eq!(text, "1.5"),
        _ => panic!("decimal expected"),
    }
    match read_number(&parts(None, None, None, Some("12"), None), ",", "") {
        Some(NumberReading::Decimal(text, _)) => assert_eq!(text, "12".replace("", ".")),
        _ => panic!("decimal expected"),
    }
    match read_number(&parts(None, None, None, Some("1aaa2aa"), None), "aa", "") {
        Some(NumberReading::Decimal(text, _)) => assert_eq!(text, "1aaa2aa".replace("aa", "").replace("", ".")),
        _ => panic!("decimal expected"),
    }
}
