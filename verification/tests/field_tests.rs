use smartcalc::field::{find_key, get_field_type, read_currency};
use smartcalc::session::{variables_well_formed, Session, VariableInfo};
use smartcalc::tools::{clock_readable_text, offset_readable_text, read_clock, TimeCapture, TimezoneCapture};
use smartcalc::types::{CurrencyInfo, FieldType, NumberType, NumberValue, TokenType};

fn currency(code: &str, symbol: &str) -> CurrencyInfo {
    CurrencyInfo {
        code: code.to_string(),
        symbol: symbol.to_string(),
        thousands_separator: ",".to_string(),
        decimal_separator: ".".to_string(),
        symbol_on_left: true,
        space_between_amount_and_symbol: false,
        decimal_digits: 2,
    }
}

fn groups(entries: &[(&str, &[&str])]) -> Vec<(String, Vec<String>)> {
    entries.iter().map(|(name, words)| (name.to_string(), words.iter().map(|w| w.to_string()).collect())).collect()
}

fn number(value: f64) -> TokenType {
    TokenType::Number(NumberValue { bits: value.to_bits(), display: format!("{}", value), sign_flipped: false }, NumberType::Decimal)
}

#[test]
fn fixed_field_types_keep_their_name() {
    let none = groups(&[]);
    assert!(matches!(get_field_type(&none, &none, "NUMBER", "value", &None), Some(FieldType::Number(n)) if n == "value"));
    assert!(matches!(get_field_type(&none, &none, "DATE_TIME", "when", &None), Some(FieldType::DateTime(n)) if n == "when"));
    assert!(matches!(get_field_type(&none, &none, "TIMEZONE", "tz", &None), Some(FieldType::Timezone(n)) if n == "tz"));
    assert!(matches!(
        get_field_type(&none, &none, "TEXT", "type", &Some("a".to_string())),
        Some(FieldType::Text(n, Some(e))) if n == "type" && e == "a"
    ));
    assert!(matches!(get_field_type(&none, &none, "DYNAMIC_TYPE", "source", &None), Some(FieldType::DynamicType(n, None)) if n == "source"));
}

#[test]
fn groups_take_their_words_or_kinds() {
    let words = groups(&[("conversion", &["to", "in"]), ("hour", &["hour", "hours"])]);
    let kinds = groups(&[("TIME_GROUP", &["TIME", "DATE"])]);
    match get_field_type(&words, &kinds, "GROUP", "op", &Some("conversion".to_string())) {
        Some(FieldType::Group(name, items)) => {
            assert_eq!(name, "op");
            assert_eq!(items, vec!["to".to_string(), "in".to_string()]);
        },
        _ => panic!("group expected"),
    }
    assert!(get_field_type(&words, &kinds, "GROUP", "op", &Some("missing".to_string())).is_none());
    assert!(get_field_type(&words, &kinds, "GROUP", "op", &None).is_none());
    match get_field_type(&words, &kinds, "TIME_GROUP", "when", &None) {
        Some(FieldType::TypeGroup(items, name)) => {
            assert_eq!(name, "when");
            assert_eq!(items, vec!["TIME".to_string(), "DATE".to_string()]);
        },
        _ => panic!("type group expected"),
    }
    assert!(get_field_type(&words, &kinds, "UNKNOWN", "x", &None).is_none());
    assert_eq!(find_key(&words, "hour"), Some(1));
    assert_eq!(find_key(&words, "minute"), None);
}

#[test]
fn currencies_are_found_by_alias_then_by_code_in_lower_case() {
    let aliases = vec![("dollar".to_string(), currency("USD", "$"))];
    let currencies = vec![("usd".to_string(), currency("USD", "$")), ("try".to_string(), currency("TRY", "₺"))];
    assert_eq!(read_currency(&aliases, &currencies, "Dollar").map(|c| c.code), Some("USD".to_string()));
    assert_eq!(read_currency(&aliases, &currencies, "TRY").map(|c| c.symbol), Some("₺".to_string()));
    assert_eq!(read_currency(&aliases, &currencies, "usd").map(|c| c.code), Some("USD".to_string()));
    assert!(read_currency(&aliases, &currencies, "euro").is_none());
}

#[test]
fn clocks_read_hours_minutes_seconds_and_meridiem() {
    let capture = TimeCapture {
        hour: "11".to_string(),
        minute: Some(("30".to_string(), 5)),
        second: None,
        meridiem: Some(("PM".to_string(), 8)),
    };
    assert!(clock_readable_text(&capture));
    assert_eq!(read_clock(&capture), (23, 30, 0, 8));

    let capture = TimeCapture { hour: "12".to_string(), minute: Some(("05".to_string(), 5)), second: Some(("09".to_string(), 8)), meridiem: Some(("pm".to_string(), 11)) };
    assert_eq!(read_clock(&capture), (12, 5, 9, 11));

    let capture = TimeCapture { hour: "7".to_string(), minute: None, second: None, meridiem: None };
    assert_eq!(read_clock(&capture), (7, 0, 0, 0));

    let capture = TimeCapture { hour: "7".to_string(), minute: Some(("x".to_string(), 3)), second: None, meridiem: None };
    assert!(!clock_readable_text(&capture));
    let capture = TimeCapture { hour: "".to_string(), minute: None, second: None, meridiem: None };
    assert!(!clock_readable_text(&capture));
}

fn offset(hour: Option<&str>, minute: Option<&str>, sign: Option<&str>) -> TimezoneCapture {
    TimezoneCapture {
        timezone_1: None,
        timezone_2: Some("GMT".to_string()),
        timezone_hour: hour.map(|h| h.to_string()),
        timezone_minute: minute.map(|m| m.to_string()),
        timezone_type: sign.map(|s| s.to_string()),
    }
}

#[test]
fn offsets_read_when_their_minutes_fit() {
    assert!(offset_readable_text(&offset(Some("03"), Some("30"), Some("-"))));
    assert!(offset_readable_text(&offset(Some("2"), None, Some("+"))));
    assert!(!offset_readable_text(&offset(None, None, None)));
    assert!(!offset_readable_text(&offset(Some("x"), None, None)));
    assert!(!offset_readable_text(&offset(Some("1"), Some("y"), None)));
    assert!(!offset_readable_text(&offset(Some("35791395"), None, None)));
    assert!(offset_readable_text(&offset(Some("35791394"), Some("7"), None)));
    assert!(!offset_readable_text(&offset(Some("35791394"), Some("8"), None)));
    assert!(offset_readable_text(&offset(Some("-35791394"), Some("-8"), None)));
    assert!(!offset_readable_text(&offset(Some("-35791394"), Some("-8"), Some("-"))));
}

#[test]
fn variables_are_numbered_by_their_place() {
    let good = vec![
        VariableInfo { index: 0, name: "a".to_string(), tokens: vec![TokenType::Text("a".to_string())] },
        VariableInfo { index: 1, name: "b".to_string(), tokens: vec![TokenType::Text("b".to_string()), number(1.0)] },
    ];
    assert!(variables_well_formed(&good));
    let misplaced = vec![VariableInfo { index: 1, name: "a".to_string(), tokens: vec![TokenType::Text("a".to_string())] }];
    assert!(!variables_well_formed(&misplaced));
    let empty_name = vec![VariableInfo { index: 0, name: "a".to_string(), tokens: vec![] }];
    assert!(!variables_well_formed(&empty_name));
    assert!(variables_well_formed(&Vec::new()));
}

#[test]
fn sessions_count_their_lines() {
    let mut session = Session::new();
    assert_eq!(session.line_count(), 0);
    assert!(!session.has_value());
    session.set_text("1 + 2\r\nx = 3\n4".to_string());
    assert_eq!(session.line_count(), 3);
    assert!(session.has_value());
    assert_eq!(session.current(), "1 + 2");
}
