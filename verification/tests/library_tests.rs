use smartcalc::constants::{ConstantType, DurationFormat, DurationFormatType, MonthInfo, NumberNotationType};
use smartcalc::formatter::{
    duration_clock_parts, duration_formatter, get_high_duration_number, get_month_info, group_number, print_duration,
    DAY, HOUR, MINUTE, MONTH, WEEK, YEAR,
};
use smartcalc::interpreter::{InterpretError, Instruction, Interpreter, OperationType, UnaryType};
use smartcalc::session::Session;
use smartcalc::syntax::SmartCalcAstType;
use smartcalc::text::{left_padding, parse_i64, uppercase_first_letter};
use smartcalc::tools::{parse_timezone, TimezoneCapture};
use smartcalc::types::{CharTraits, FieldType, NumberType, NumberValue, TokenType};

fn number(value: f64) -> TokenType {
    TokenType::Number(
        NumberValue { bits: value.to_bits(), display: format!("{}", value), sign_flipped: false },
        NumberType::Decimal,
    )
}

fn english_durations() -> Vec<DurationFormat> {
    let mut formats = Vec::new();
    let units = [
        (DurationFormatType::Year, "year"),
        (DurationFormatType::Month, "month"),
        (DurationFormatType::Week, "week"),
        (DurationFormatType::Day, "day"),
        (DurationFormatType::Hour, "hour"),
        (DurationFormatType::Minute, "minute"),
        (DurationFormatType::Second, "second"),
    ];
    for (unit, name) in units.iter() {
        formats.push(DurationFormat { count: "1".to_string(), format: format!("{{{}}} {}", name, name), duration_type: *unit });
        formats.push(DurationFormat { count: "".to_string(), format: format!("{{{}}} {}s", name, name), duration_type: *unit });
    }
    formats
}

#[test]
fn duration_test() {
    let formats = english_durations();
    assert_eq!(print_duration(&formats, 12 * HOUR), "12 hours");
    assert_eq!(print_duration(&formats, 24 * HOUR), "1 day");
    assert_eq!(print_duration(&formats, 25 * HOUR), "1 day 1 hour");
    assert_eq!(print_duration(&formats, 48 * HOUR), "2 days");
    assert_eq!(print_duration(&formats, 48 * MINUTE), "48 minutes");
    assert_eq!(print_duration(&formats, 60 * MINUTE), "1 hour");
    assert_eq!(print_duration(&formats, 61 * MINUTE), "1 hour 1 minute");
    assert_eq!(print_duration(&formats, 161 * MINUTE), "2 hours 41 minutes");
    assert_eq!(print_duration(&formats, 1), "1 second");
    assert_eq!(print_duration(&formats, 30), "30 seconds");
    assert_eq!(print_duration(&formats, 15 * HOUR + MINUTE), "15 hours 1 minute");
    assert_eq!(print_duration(&formats, 15 * HOUR - MINUTE), "14 hours 59 minutes");
}

#[test]
fn negative_durations_print_their_length() {
    let formats = english_durations();
    assert_eq!(print_duration(&formats, -(2 * WEEK + 3 * DAY)), "2 weeks 3 days");
    assert_eq!(print_duration(&formats, YEAR + MONTH), "1 year 1 month");
    assert_eq!(print_duration(&formats, 0), "");
}

#[test]
fn duration_without_formats_prints_numbers() {
    let formats: Vec<DurationFormat> = Vec::new();
    assert_eq!(print_duration(&formats, HOUR + 5), "1 5");
    let mut buffer = String::from("x ");
    duration_formatter(&formats, &mut buffer, "{hour}", 3, DurationFormatType::Hour);
    assert_eq!(buffer, "x 3 ");
}

#[test]
fn exact_count_format_wins_over_general_one() {
    let formats = vec![
        DurationFormat { count: " two ".to_string(), format: "{day} days".to_string(), duration_type: DurationFormatType::Day },
        DurationFormat { count: "2".to_string(), format: "a couple of days".to_string(), duration_type: DurationFormatType::Day },
    ];
    let mut buffer = String::new();
    duration_formatter(&formats, &mut buffer, "{day}", 2, DurationFormatType::Day);
    assert_eq!(buffer, "a couple of days ");
    let mut buffer = String::new();
    duration_formatter(&formats, &mut buffer, "{day}", 3, DurationFormatType::Day);
    assert_eq!(buffer, "3 days ");
}

#[test]
fn largest_unit_number_of_a_duration() {
    assert_eq!(get_high_duration_number(2 * YEAR + DAY), 2);
    assert_eq!(get_high_duration_number(-(3 * DAY)), 3);
    assert_eq!(get_high_duration_number(5 * HOUR + 7), 5);
    assert_eq!(get_high_duration_number(45 * MINUTE), 45);
    assert_eq!(get_high_duration_number(59), 59);
    assert_eq!(get_high_duration_number(2 * MONTH), 2);
}

#[test]
fn clock_parts_of_a_duration() {
    assert_eq!(duration_clock_parts(3 * HOUR + 25 * MINUTE + 9), (3, 25, 9));
    assert_eq!(duration_clock_parts(-(61)), (0, 1, 1));
    assert_eq!(duration_clock_parts(DAY + HOUR), (1, 0, 0));
}

#[test]
fn digits_are_grouped_by_threes() {
    assert_eq!(group_number("123.00", 3, false, ",", ".", true), "123.00");
    assert_eq!(group_number("1234.01", 4, false, ",", ".", true), "1,234.01");
    assert_eq!(group_number("123456.12", 6, false, ",", ".", true), "123,456.12");
    assert_eq!(group_number("123456.10", 6, true, ",", ".", true), "-123,456.10");
    assert_eq!(group_number("123", 3, false, ",", ".", false), "123");
    assert_eq!(group_number("123.1", 3, false, ".", ",", false), "123");
    assert_eq!(group_number("1234567.5", 7, false, ".", ",", true), "1.234.567,5");
}

/// The part of a fraction after the point as an integer, as the calculator
/// reads it for deciding whether a fraction is shown.
fn fract_information(f: f64) -> u64 {
    let eps = 1e-4;
    let mut f = f.abs().fract();
    if f == 0.0 {
        return 0;
    }
    while (f.round() - f).abs() <= eps {
        f *= 10.0;
    }
    while (f.round() - f).abs() > eps {
        f *= 10.0;
    }
    f.round() as u64
}

/// A double written as the calculator writes it: the digits come from the
/// standard float formatting, the grouping from the library.
fn format_number(number: f64, thousands_separator: String, decimal_separator: String, decimal_digits: u8, remove_fract_if_zero: bool, use_fract_rounding: bool) -> String {
    let divider = 10_u32.pow(decimal_digits.into());
    let mut fract_number = (number * divider as f64).round() / divider as f64;
    if fract_number.is_infinite() || fract_number.is_nan() {
        fract_number = 0.0;
    }
    let trunc_part = fract_number.trunc().abs().to_string();
    let formated_number = match use_fract_rounding {
        true => format!("{:.width$}", &number.abs(), width = decimal_digits.into()),
        false => format!("{}", &number.abs()),
    };
    let fract_part = fract_information(fract_number.fract());
    group_number(&formated_number, trunc_part.len(), number < 0.0, &thousands_separator, &decimal_separator, fract_part > 0 || !remove_fract_if_zero)
}

#[test]
fn format_number_test() {
    assert_eq!(format_number(123.0, ",".to_string(), ".".to_string(), 2, false, true), "123.00".to_string());
    assert_eq!(format_number(123.1, ",".to_string(), ".".to_string(), 2, false, true), "123.10".to_string());
    assert_eq!(format_number(123.01, ",".to_string(), ".".to_string(), 2, false, true), "123.01".to_string());
    assert_eq!(format_number(1234.01, ",".to_string(), ".".to_string(), 2, false, true), "1,234.01".to_string());
    assert_eq!(format_number(123456.01, ",".to_string(), ".".to_string(), 2, false, true), "123,456.01".to_string());
    assert_eq!(format_number(123456.123456789, ",".to_string(), ".".to_string(), 2, false, true), "123,456.12".to_string());
    assert_eq!(format_number(123456.1, ",".to_string(), ".".to_string(), 2, false, true), "123,456.10".to_string());
    assert_eq!(format_number(-123456.1, ",".to_string(), ".".to_string(), 2, false, true), "-123,456.10".to_string());

    assert_eq!(format_number(123.0, ",".to_string(), ".".to_string(), 2, true, false), "123".to_string());
    assert_eq!(format_number(123.0000, ",".to_string(), ".".to_string(), 2, true, false), "123".to_string());
    assert_eq!(format_number(123.1, ",".to_string(), ".".to_string(), 2, false, false), "123.1".to_string());
    assert_eq!(format_number(123.01, ",".to_string(), ".".to_string(), 2, false, false), "123.01".to_string());
    assert_eq!(format_number(1234.01, ",".to_string(), ".".to_string(), 2, false, false), "1,234.01".to_string());
    assert_eq!(format_number(123456.01, ",".to_string(), ".".to_string(), 2, false, false), "123,456.01".to_string());
    assert_eq!(format_number(123456.123456789, ",".to_string(), ".".to_string(), 2, false, false), "123,456.123456789".to_string());
    assert_eq!(format_number(123456.1, ",".to_string(), ".".to_string(), 2, false, false), "123,456.1".to_string());
    assert_eq!(format_number(-123456.1, ",".to_string(), ".".to_string(), 2, false, false), "-123,456.1".to_string());
}

#[test]
fn month_by_number() {
    let months = vec![
        MonthInfo { short: "jan".to_string(), long: "january".to_string(), month: 1 },
        MonthInfo { short: "feb".to_string(), long: "february".to_string(), month: 2 },
    ];
    assert_eq!(get_month_info(&months, 2).map(|m| m.long), Some("february".to_string()));
    assert!(get_month_info(&months, 3).is_none());
}

#[test]
fn constants_by_number() {
    assert_eq!(ConstantType::from_u8(1), Some(ConstantType::Day));
    assert_eq!(ConstantType::from_u8(11), Some(ConstantType::Now));
    assert_eq!(ConstantType::from_u8(0), None);
    assert_eq!(ConstantType::from_u8(12), None);
    assert_eq!(ConstantType::Tomorrow.to_u8(), 9);
    assert_eq!(NumberNotationType::from_u8(2), Some(NumberNotationType::Million));
    assert_eq!(NumberNotationType::from_u8(8), None);
    assert_eq!(NumberNotationType::Sextillion.to_u8(), 7);
}

#[test]
fn compiled_program_runs_operands_first() {
    let ast = SmartCalcAstType::Assignment {
        index: 2,
        expression: Box::new(SmartCalcAstType::Binary {
            left: Box::new(SmartCalcAstType::Item(number(1.0))),
            operator: '+',
            right: Box::new(SmartCalcAstType::PrefixUnary('-', Box::new(SmartCalcAstType::Month(4)))),
        }),
    };
    let program = Interpreter::compile(&ast);
    assert_eq!(program.len(), 5);
    assert!(matches!(program[0], Instruction::Item(_)));
    assert!(matches!(program[1], Instruction::Month(4)));
    assert!(matches!(program[2], Instruction::Unary('-')));
    assert!(matches!(program[3], Instruction::Binary('+')));
    assert!(matches!(program[4], Instruction::Store(2)));
    let words = SmartCalcAstType::Symbol("hello".to_string());
    let program = Interpreter::compile(&words);
    assert!(matches!(program[0], Instruction::Empty));
}

#[test]
fn operator_decisions() {
    assert_eq!(Interpreter::binary_decision('+', true, true), Ok(OperationType::Add));
    assert_eq!(Interpreter::binary_decision('/', true, true), Ok(OperationType::Div));
    assert_eq!(Interpreter::binary_decision('^', true, true), Err(InterpretError::UnknownOperator('^')));
    assert_eq!(Interpreter::binary_decision('+', true, false), Err(InterpretError::UnknownCalculation));
    assert_eq!(Interpreter::binary_decision('+', false, false), Err(InterpretError::UnknownCalculationResult));
    assert_eq!(Interpreter::unary_decision('+', false), Ok(None));
    assert_eq!(Interpreter::unary_decision('-', true), Ok(Some(UnaryType::Minus)));
    assert_eq!(Interpreter::unary_decision('-', false), Err(InterpretError::SyntaxError));
    assert_eq!(Interpreter::unary_decision('*', true), Err(InterpretError::SyntaxError));
    assert_eq!(InterpretError::UnknownOperator('^').message(), "Unknown operator. (^)");
    assert_eq!(InterpretError::UnknownCalculationResult.message(), "Uknown calculation result");
}

#[test]
fn session_splits_lines() {
    let mut session = Session::new();
    session.set_text("1 + 2\r\nx = 3\n\ny".to_string());
    assert_eq!(session.text_parts, vec!["1 + 2", "x = 3", "", "y"]);
    assert!(session.has_value());
    assert_eq!(session.current(), "1 + 2");
    assert_eq!(session.next(), Some("1 + 2".to_string()));
    assert_eq!(session.current(), "x = 3");
    session.set_text(String::new());
    assert_eq!(session.text_parts, vec![""]);
    session.set_text("a\rb\n".to_string());
    assert_eq!(session.text_parts, vec!["a\rb", ""]);
}

#[test]
fn session_next_stops_at_the_last_line() {
    let mut session = Session::new();
    session.set_text("a\nb".to_string());
    assert_eq!(session.next(), Some("a".to_string()));
    assert_eq!(session.next(), None);
    assert_eq!(session.position, 1);
    session.set_language("tr".to_string());
    assert_eq!(session.get_language(), "tr");
}

#[test]
fn timezone_by_name_or_offset() {
    let zones = vec![("UTC".to_string(), 0), ("EST".to_string(), -300)];
    let named = TimezoneCapture { timezone_1: Some("est".to_string()), timezone_2: None, timezone_hour: None, timezone_minute: None, timezone_type: None };
    assert_eq!(parse_timezone(&zones, &named), Some(("EST".to_string(), -300)));
    let unknown = TimezoneCapture { timezone_1: Some("xyz".to_string()), timezone_2: None, timezone_hour: None, timezone_minute: None, timezone_type: None };
    assert_eq!(parse_timezone(&zones, &unknown), None);
    let offset = TimezoneCapture {
        timezone_1: None,
        timezone_2: Some("GMT-03:30".to_string()),
        timezone_hour: Some("03".to_string()),
        timezone_minute: Some("30".to_string()),
        timezone_type: Some("-".to_string()),
    };
    assert_eq!(parse_timezone(&zones, &offset), Some(("GMT-03:30".to_string(), -210)));
    let hours_only = TimezoneCapture {
        timezone_1: None,
        timezone_2: Some("GMT+2".to_string()),
        timezone_hour: Some("2".to_string()),
        timezone_minute: None,
        timezone_type: Some("+".to_string()),
    };
    assert_eq!(parse_timezone(&zones, &hours_only), Some(("GMT+2".to_string(), 120)));
    let nothing = TimezoneCapture { timezone_1: None, timezone_2: None, timezone_hour: None, timezone_minute: None, timezone_type: None };
    assert_eq!(parse_timezone(&zones, &nothing), None);
}

#[test]
fn padding_and_capitals() {
    assert_eq!(left_padding(7, 3), "007");
    assert_eq!(left_padding(-7, 3), "-07");
    assert_eq!(left_padding(1234, 2), "1234");
    assert_eq!(uppercase_first_letter("abc"), "Abc");
    assert_eq!(uppercase_first_letter("ßa"), "SSa");
    assert_eq!(uppercase_first_letter(""), "");
}

#[test]
fn integers_read_as_std_reads_them() {
    assert_eq!(parse_i64("42"), Some(42));
    assert_eq!(parse_i64("-17"), Some(-17));
    assert_eq!(parse_i64("+5"), Some(5));
    assert_eq!(parse_i64("9223372036854775807"), Some(i64::MAX));
    assert_eq!(parse_i64("9223372036854775808"), None);
    assert_eq!(parse_i64("-9223372036854775808"), Some(i64::MIN));
    assert_eq!(parse_i64(""), None);
    assert_eq!(parse_i64("1.5"), None);
    assert_eq!(parse_i64("-"), None);
}

#[test]
fn token_names_and_texts() {
    assert_eq!(number(3.0).type_label(), "NUMBER");
    assert_eq!(FieldType::Money("price".to_string()).type_label(), "MONEY");
    assert_eq!(FieldType::Money("price".to_string()).name(), "price");
    assert_eq!(number(2.5).display(), "2.5");
    assert_eq!(TokenType::Month(4).display(), "4");
    assert_eq!(TokenType::Timezone("UTC".to_string(), -60).display(), "UTC -60");
    assert_eq!(TokenType::Operator('+').display(), "+");
    match number(2.5) {
        TokenType::Number(v, _) => {
            let negative = v.negated();
            assert_eq!(f64::from_bits(negative.bits), -2.5);
            assert_eq!(negative.text(), "-2.5");
            assert_eq!(negative.negated().text(), "2.5");
        },
        _ => unreachable!(),
    }
}

#[test]
fn tokens_compare_as_the_calculator_compares_them() {
    assert!(TokenType::Text("Hello".to_string()).token_eq(&TokenType::Text("hELLO".to_string())));
    assert!(number(0.0).token_eq(&number(-0.0)));
    assert!(!number(f64::NAN).token_eq(&number(f64::NAN)));
    assert!(!number(1.0).token_eq(&TokenType::Text("1".to_string())));
    let group = FieldType::Group("op".to_string(), vec!["plus".to_string(), "add".to_string()]);
    assert!(TokenType::Text("ADD".to_string()).field_compare(&group));
    let types = FieldType::TypeGroup(vec!["NUMBER".to_string(), "MONEY".to_string()], "value".to_string());
    assert!(number(1.0).field_compare(&types));
    assert!(!TokenType::Month(1).field_compare(&types));
}

#[test]
fn whitespace_and_new_lines() {
    assert!('\n'.is_new_line());
    assert!(!' '.is_new_line());
    assert!('\t'.is_whitespace());
    assert!(!'x'.is_whitespace());
}

#[test]
fn counts_are_read_without_surrounding_white_space() {
    let formats = vec![
        DurationFormat { count: "\u{A0}\u{3000}2\t\n".to_string(), format: "a pair of days".to_string(), duration_type: DurationFormatType::Day },
        DurationFormat { count: "".to_string(), format: "{day} days".to_string(), duration_type: DurationFormatType::Day },
    ];
    assert_eq!(print_duration(&formats, 2 * DAY), "a pair of days");
    assert_eq!(print_duration(&formats, 3 * DAY), "3 days");
}

#[test]
fn field_type_names_agree_exactly_when_kinds_agree() {
    let a = FieldType::Number("left".to_string());
    let b = FieldType::Number("right".to_string());
    let c = FieldType::Text("left".to_string(), None);
    assert_eq!(a.type_label(), b.type_label());
    assert_ne!(a.type_label(), c.type_label());
    assert_eq!(c.type_label(), TokenType::Text("x".to_string()).type_label());
    assert_eq!(a.type_label(), number(1.0).type_label());
    assert_ne!(FieldType::Group("g".to_string(), vec![]).type_label(), TokenType::Text("g".to_string()).type_label());
}
