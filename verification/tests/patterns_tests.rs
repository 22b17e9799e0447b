use smartcalc::session::Session;
use smartcalc::tokinizer::Tokinizer;
use smartcalc::patterns::{read_timezone_setting, TimezoneSetting};
use smartcalc::types::{FieldType, TokenType};

fn line(data: &str) -> Tokinizer {
    let mut session = Session::new();
    session.set_language("en".to_string());
    session.set_text(data.to_string());
    Tokinizer::new(&session)
}

fn patterns(texts: &[&str]) -> Vec<String> {
    texts.iter().map(|t| t.to_string()).collect()
}

const TIMEZONE: &str = r"(?P<timezone>(?P<timezone_2>GMT(?P<timezone_type>[+-])?(?P<timezone_hour>[0-9]{1,2})(:(?P<timezone_minute>[0-9]{2}))?)|(?P<timezone_1>GMT|EST|UTC))";
const FIELD: &str = r"\{(?P<FIELD>[A-Z_]+):(?P<NAME>[^:}]+)(:(?P<EXTRA>[^}]+))?\}";
const WHITESPACE: &str = r"[ \t]+";
const OPERATOR: &str = r"[^0-9a-zA-Z_ \t]";

fn zones() -> Vec<(String, i32)> {
    vec![("GMT".to_string(), 0), ("EST".to_string(), -300), ("UTC".to_string(), 0)]
}

fn timezones(tokinizer: &Tokinizer) -> Vec<(usize, usize, String, i32)> {
    tokinizer
        .token_infos
        .iter()
        .map(|info| match &info.token_type {
            Some(TokenType::Timezone(name, offset)) => (info.start, info.end, name.clone(), *offset),
            _ => panic!("not a time zone"),
        })
        .collect()
}

#[test]
fn timezone_test_1() {
    let mut tokinizer = line("GMT EST GMT+10:00");
    assert!(tokinizer.timezone_regex_parser(&patterns(&[TIMEZONE]), &zones()));
    let tokens = timezones(&tokinizer);
    assert_eq!(tokens.len(), 3);
    assert_eq!(tokens[0], (0, 3, "GMT".to_string(), 0));
    assert_eq!(tokens[1], (4, 7, "EST".to_string(), -300));
    assert_eq!(tokens[2], (8, 17, "GMT+10:00".to_string(), 600));
}

#[test]
fn timezone_test_2() {
    let mut tokinizer = line("GMT EST GMT+10:00 GMT-10:00 GMT11:00 GMT+10 GMT-10 GMT11 GMT1");
    assert!(tokinizer.timezone_regex_parser(&patterns(&[TIMEZONE]), &zones()));
    let tokens = timezones(&tokinizer);
    assert_eq!(tokens.len(), 9);
    assert_eq!(tokens[0], (0, 3, "GMT".to_string(), 0));
    assert_eq!(tokens[1], (4, 7, "EST".to_string(), -300));
    assert_eq!(tokens[2], (8, 17, "GMT+10:00".to_string(), 600));
    assert_eq!(tokens[3], (18, 27, "GMT-10:00".to_string(), -600));
    assert_eq!(tokens[4], (28, 36, "GMT11:00".to_string(), 660));
    assert_eq!(tokens[5], (37, 43, "GMT+10".to_string(), 600));
    assert_eq!(tokens[6], (44, 50, "GMT-10".to_string(), -600));
    assert_eq!(tokens[7], (51, 56, "GMT11".to_string(), 660));
    assert_eq!(tokens[8], (57, 61, "GMT1".to_string(), 60));
}

#[test]
fn time_zones_are_read_from_the_upper_cased_line() {
    let mut tokinizer = line("at est or gmt-3");
    assert!(tokinizer.timezone_regex_parser(&patterns(&[TIMEZONE]), &zones()));
    let tokens = timezones(&tokinizer);
    assert_eq!(tokens, vec![(3, 6, "EST".to_string(), -300), (10, 15, "GMT-3".to_string(), -180)]);
}

#[test]
fn an_unknown_zone_name_records_nothing() {
    let mut tokinizer = line("CET");
    assert!(tokinizer.timezone_regex_parser(&patterns(&[r"(?P<timezone_1>CET)"]), &zones()));
    assert!(tokinizer.token_infos.is_empty());
}

#[test]
fn an_offset_that_does_not_fit_is_refused() {
    let mut tokinizer = line("GMT EST GMT+99999999999");
    let pattern = r"(?P<timezone_2>GMT(?P<timezone_type>[+-])(?P<timezone_hour>[0-9]+))|(?P<timezone_1>GMT|EST)";
    assert!(!tokinizer.timezone_regex_parser(&patterns(&[pattern]), &zones()));
    assert!(tokinizer.token_infos.is_empty());
}

#[test]
fn field_test() {
    let mut tokinizer = line("{TEXT:merhaba} {PERCENT:percent}");
    assert!(tokinizer.field_regex_parser(&patterns(&[FIELD]), &Vec::new(), &Vec::new(), true));
    let tokens = &tokinizer.token_infos;
    assert_eq!(tokens.len(), 2);
    assert_eq!(tokens[0].start, 0);
    assert_eq!(tokens[0].end, 14);
    match &tokens[0].token_type {
        Some(TokenType::Field(field)) => {
            assert!(matches!(field.as_ref(), FieldType::Text(name, None) if name == "merhaba"));
            assert!(!matches!(field.as_ref(), FieldType::Text(name, None) if name == "test"));
        },
        _ => panic!("not a field"),
    }
    assert_eq!(tokens[1].start, 15);
    assert_eq!(tokens[1].end, 32);
    assert!(matches!(&tokens[1].token_type, Some(TokenType::Field(field)) if matches!(field.as_ref(), FieldType::Percent(name) if name == "percent")));
}

#[test]
fn a_field_of_no_known_kind_records_nothing() {
    let mut tokinizer = line("{COLOUR:red} {NUMBER:count}");
    assert!(tokinizer.field_regex_parser(&patterns(&[FIELD]), &Vec::new(), &Vec::new(), true));
    assert_eq!(tokinizer.token_infos.len(), 1);
    assert_eq!(tokinizer.token_infos[0].start, 13);
    assert!(matches!(&tokinizer.token_infos[0].token_type, Some(TokenType::Field(field)) if matches!(field.as_ref(), FieldType::Number(name) if name == "count")));
}

#[test]
fn a_group_field_needs_the_word_groups_of_the_language() {
    let words = vec![("hours".to_string(), vec!["hour".to_string(), "hours".to_string()])];
    let mut tokinizer = line("{NUMBER:n} {GROUP:unit:hours}");
    assert!(!tokinizer.field_regex_parser(&patterns(&[FIELD]), &Vec::new(), &Vec::new(), false));
    assert!(tokinizer.token_infos.is_empty());
    assert!(tokinizer.field_regex_parser(&patterns(&[FIELD]), &words, &Vec::new(), true));
    assert_eq!(tokinizer.token_infos.len(), 2);
    match &tokinizer.token_infos[1].token_type {
        Some(TokenType::Field(field)) => match field.as_ref() {
            FieldType::Group(name, items) => {
                assert_eq!(name, "unit");
                assert_eq!(items, &vec!["hour".to_string(), "hours".to_string()]);
            },
            _ => panic!("not a group"),
        },
        _ => panic!("not a field"),
    }
}

#[test]
fn months_are_recorded_month_after_month() {
    let mut tokinizer = line("january or jan, then march");
    let months = vec![("january|jan".to_string(), 1u32), ("march|mar".to_string(), 3u32)];
    tokinizer.month_parser(&months, "january or jan, then march");
    let found: Vec<(usize, usize, u32)> = tokinizer
        .token_infos
        .iter()
        .map(|info| match &info.token_type {
            Some(TokenType::Month(m)) => (info.start, info.end, *m),
            _ => panic!("not a month"),
        })
        .collect();
    assert_eq!(found, vec![(0, 7, 1), (11, 14, 1), (21, 26, 3)]);
}

#[test]
fn a_month_where_a_token_stands_is_not_recorded() {
    let mut tokinizer = line("may");
    tokinizer.add_token_location(0, 3, Some(TokenType::Text("may".to_string())), "may".to_string());
    tokinizer.month_parser(&vec![("may".to_string(), 5u32)], "may");
    assert_eq!(tokinizer.token_infos.len(), 1);
    assert!(matches!(&tokinizer.token_infos[0].token_type, Some(TokenType::Text(_))));
}

#[test]
fn whitespace_test_1() {
    let mut tokinizer = line("                                          ");
    tokinizer.whitespace_regex_parser(&patterns(&[WHITESPACE]));
    tokinizer.cleanup_token_infos();
    assert_eq!(tokinizer.token_infos.len(), 0);
}

#[test]
fn operator_test_2() {
    let mut tokinizer = line("- ' * ` /,");
    tokinizer.whitespace_regex_parser(&patterns(&[WHITESPACE]));
    assert!(tokinizer.operator_regex_parser(&patterns(&[OPERATOR])));
    tokinizer.cleanup_token_infos();
    let found: Vec<(usize, usize, char)> = tokinizer
        .token_infos
        .iter()
        .map(|info| match &info.token_type {
            Some(TokenType::Operator(c)) => (info.start, info.end, *c),
            _ => panic!("not an operator"),
        })
        .collect();
    assert_eq!(found, vec![(0, 1, '-'), (2, 3, '\''), (4, 5, '*'), (6, 7, '`'), (8, 9, '/'), (9, 10, ',')]);
}

#[test]
fn a_time_zone_setting_reads_the_first_match() {
    let pattern = r"(?i)(?P<timezone>(?P<timezone_2>GMT(?P<timezone_type>[+-])?(?P<timezone_hour>[0-9]+)(:(?P<timezone_minute>[0-9]{2}))?)|(?P<timezone_1>GMT|EST|CET))";
    assert!(matches!(read_timezone_setting(pattern, "est", &zones()), TimezoneSetting::Zone(name, -300) if name == "EST"));
    assert!(matches!(read_timezone_setting(pattern, "gmt+3:30 gmt", &zones()), TimezoneSetting::Zone(name, 210) if name == "GMT+3:30"));
    assert!(matches!(read_timezone_setting(pattern, "CET", &zones()), TimezoneSetting::NotFound));
    assert!(matches!(read_timezone_setting(pattern, "xyz", &zones()), TimezoneSetting::NoMatch));
    assert!(matches!(read_timezone_setting(pattern, "GMT-99999999999", &zones()), TimezoneSetting::Unreadable));
    assert!(matches!(read_timezone_setting(r"(?P<timezone_1>EST)", "EST", &zones()), TimezoneSetting::NotFound));
}
