use std::rc::Rc;

use smartcalc::rule::{
    find_match, get_field_name, next_rule_step, start_rules, variable_compare, variable_hits, RuleAction, RuleCursor, RuleOutcome,
};
use smartcalc::session::{Session, VariableInfo};
use smartcalc::tokinizer::{find_location, is_percent_token, CaptureSpan, TokenInfo, TokenInfoStatus, Tokinizer};
use smartcalc::types::{FieldType, NumberType, NumberValue, TokenType, VariableRef};

fn number(value: f64) -> TokenType {
    TokenType::Number(
        NumberValue { bits: value.to_bits(), display: format!("{}", value), sign_flipped: false },
        NumberType::Decimal,
    )
}

fn text(s: &str) -> TokenType {
    TokenType::Text(s.to_string())
}

fn op(c: char) -> TokenType {
    TokenType::Operator(c)
}

fn info(start: usize, end: usize, token: TokenType, written: &str) -> TokenInfo {
    TokenInfo { start, end, token_type: Some(token), original_text: written.to_string(), status: TokenInfoStatus::Active }
}

fn line(data: &str) -> Tokinizer {
    let mut session = Session::new();
    session.set_language("en".to_string());
    session.set_text(data.to_string());
    Tokinizer::new(&session)
}

fn is_number(t: &TokenType, value: f64) -> bool {
    matches!(t, TokenType::Number(v, _) if f64::from_bits(v.bits) == value)
}

#[test]
fn new_token_list_reads_the_current_line() {
    let tokinizer = line("first\nsecond");
    assert_eq!(tokinizer.data, "first");
    assert_eq!(tokinizer.language, "en");
    assert!(tokinizer.token_infos.is_empty());
    assert!(tokinizer.tokens.is_empty());
}

#[test]
fn overlapping_locations_are_refused() {
    let mut tokinizer = line("12 + 3");
    assert!(tokinizer.add_token_location(0, 2, Some(number(12.0)), "12".to_string()));
    assert!(!tokinizer.add_token_location(1, 2, Some(number(2.0)), "2".to_string()));
    assert!(!tokinizer.add_token_location(0, 1, None, "1".to_string()));
    assert!(tokinizer.add_token_location(3, 4, Some(op('+')), "+".to_string()));
    assert!(tokinizer.add_token_location(5, 6, Some(number(3.0)), "3".to_string()));
    assert_eq!(tokinizer.token_infos.len(), 3);
}

#[test]
fn token_from_a_missing_match_is_not_added() {
    let mut tokinizer = line("abc");
    assert!(!tokinizer.add_token_from_match(&None, Some(text("abc"))));
    let capture = CaptureSpan { start: 0, end: 3, text: "abc".to_string() };
    assert!(tokinizer.add_token_from_match(&Some(capture), Some(text("abc"))));
    assert_eq!(tokinizer.token_infos[0].original_text, "abc");
}

#[test]
fn generator_takes_active_tokens_in_order() {
    let mut tokinizer = line("x");
    tokinizer.token_infos.push(info(0, 1, number(1.0), "1"));
    tokinizer.token_infos.push(TokenInfo { start: 2, end: 3, token_type: Some(op('+')), original_text: "+".to_string(), status: TokenInfoStatus::Removed });
    tokinizer.token_infos.push(TokenInfo { start: 4, end: 5, token_type: None, original_text: "?".to_string(), status: TokenInfoStatus::Active });
    tokinizer.token_infos.push(info(6, 7, number(2.0), "2"));
    tokinizer.token_generator();
    assert_eq!(tokinizer.tokens.len(), 2);
    assert!(is_number(&tokinizer.tokens[0], 1.0));
    assert!(is_number(&tokinizer.tokens[1], 2.0));
}

#[test]
fn cleaner_drops_words_after_the_assignment() {
    let mut tokinizer = line("x");
    tokinizer.token_infos.push(info(0, 1, text("total"), "total"));
    tokinizer.token_infos.push(info(2, 3, op('='), "="));
    tokinizer.token_infos.push(info(4, 5, number(1.0), "1"));
    tokinizer.token_infos.push(info(6, 7, text("and"), "and"));
    tokinizer.token_infos.push(info(8, 9, number(2.0), "2"));
    tokinizer.token_generator();
    tokinizer.token_cleaner();
    assert_eq!(tokinizer.tokens.len(), 4);
    assert!(matches!(tokinizer.tokens[0], TokenType::Text(_)));
    assert!(is_number(&tokinizer.tokens[3], 2.0));
}

#[test]
fn cleaner_drops_all_words_without_assignment() {
    let mut tokinizer = line("x");
    tokinizer.tokens = vec![text("the"), number(1.0), text("plus"), number(2.0)];
    tokinizer.token_cleaner();
    assert_eq!(tokinizer.tokens.len(), 2);
}

#[test]
fn adder_joins_two_operands_with_plus() {
    let mut tokinizer = line("x");
    tokinizer.tokens = vec![number(5.0), number(3.0)];
    tokinizer.missing_token_adder();
    assert_eq!(tokinizer.tokens.len(), 3);
    assert!(matches!(tokinizer.tokens[1], TokenType::Operator('+')));
}

#[test]
fn adder_puts_zero_before_a_leading_operator() {
    let mut tokinizer = line("x");
    tokinizer.tokens = vec![op('-'), number(5.0)];
    tokinizer.missing_token_adder();
    assert_eq!(tokinizer.tokens.len(), 3);
    assert!(is_number(&tokinizer.tokens[0], 0.0));
    match &tokinizer.tokens[0] {
        TokenType::Number(v, NumberType::Decimal) => assert_eq!(v.display, "0"),
        _ => panic!("not a zero"),
    }
}

#[test]
fn adder_repairs_only_after_the_assignment() {
    let mut tokinizer = line("x");
    tokinizer.tokens = vec![text("a"), text("b"), op('='), number(5.0), number(3.0)];
    tokinizer.missing_token_adder();
    assert_eq!(tokinizer.tokens.len(), 6);
    assert!(matches!(tokinizer.tokens[1], TokenType::Text(_)));
    assert!(matches!(tokinizer.tokens[4], TokenType::Operator('+')));
}

#[test]
fn adder_leaves_short_lines_alone() {
    let mut tokinizer = line("x");
    tokinizer.tokens = vec![number(5.0)];
    tokinizer.missing_token_adder();
    assert_eq!(tokinizer.tokens.len(), 1);
    tokinizer.tokens = vec![];
    tokinizer.missing_token_adder();
    assert_eq!(tokinizer.tokens.len(), 0);
}

#[test]
fn cleanup_keeps_typed_tokens_ordered_by_start() {
    let mut tokinizer = line("x");
    tokinizer.token_infos.push(info(6, 7, number(2.0), "2"));
    tokinizer.token_infos.push(TokenInfo { start: 0, end: 1, token_type: None, original_text: "?".to_string(), status: TokenInfoStatus::Active });
    tokinizer.token_infos.push(info(2, 3, op('+'), "+"));
    tokinizer.token_infos.push(info(0, 1, number(1.0), "1"));
    tokinizer.cleanup_token_infos();
    let starts: Vec<usize> = tokinizer.token_infos.iter().map(|i| i.start).collect();
    assert_eq!(starts, vec![0, 2, 6]);
}

#[test]
fn cleanup_keeps_the_order_of_tokens_at_the_same_place() {
    let mut tokinizer = line("x");
    tokinizer.token_infos.push(info(4, 5, text("b"), "b"));
    tokinizer.token_infos.push(info(0, 1, text("first"), "f"));
    tokinizer.token_infos.push(info(4, 6, text("c"), "c"));
    tokinizer.token_infos.push(info(0, 2, text("second"), "s"));
    tokinizer.token_infos.push(info(4, 4, text("d"), "d"));
    tokinizer.cleanup_token_infos();
    let texts: Vec<String> = tokinizer.token_infos.iter().map(|i| i.original_text.clone()).collect();
    assert_eq!(texts, vec!["f", "s", "b", "c", "d"]);
}

#[test]
fn location_of_a_pattern_in_tokens() {
    let tokens = vec![number(1.0), text("Plus"), number(2.0)];
    let rule = vec![text("plus"), number(2.0)];
    assert_eq!(find_location(tokens.as_slice(), rule.as_slice()), Some(1));
    let missing = vec![text("minus")];
    assert_eq!(find_location(tokens.as_slice(), missing.as_slice()), None);
}

#[test]
fn location_scan_does_not_look_back_after_a_mismatch() {
    let tokens = vec![text("a"), text("a"), text("b")];
    let rule = vec![text("a"), text("b")];
    assert_eq!(find_location(tokens.as_slice(), rule.as_slice()), None);
    let tokens = vec![text("a"), text("c"), text("a"), text("b")];
    assert_eq!(find_location(tokens.as_slice(), rule.as_slice()), Some(2));
}

#[test]
fn fields_match_their_kind_of_token() {
    let infos = vec![info(0, 3, text("add"), "add"), info(4, 5, number(7.0), "7")];
    let rule = vec![text("add"), TokenType::Field(Rc::new(FieldType::Number("value".to_string())))];
    assert_eq!(find_location(infos.as_slice(), rule.as_slice()), Some(0));
    let bare = vec![text("add"), number(7.0)];
    assert_eq!(find_location(bare.as_slice(), rule.as_slice()), None);
}

#[test]
fn text_tokens_may_be_percentages() {
    assert!(is_percent_token(text("%"), 0, vec![]));
    assert!(!is_percent_token(number(1.0), 0, vec![]));
}

#[test]
fn variables_replace_the_tokens_that_spell_them() {
    let mut tokinizer = line("x");
    tokinizer.token_infos.push(info(0, 4, text("unit"), "unit"));
    tokinizer.token_infos.push(info(5, 10, text("price"), "price"));
    tokinizer.token_infos.push(info(11, 12, op('*'), "*"));
    tokinizer.token_infos.push(info(13, 14, number(2.0), "2"));
    let variables = vec![VariableInfo { index: 0, name: "unitprice".to_string(), tokens: vec![text("unit"), text("price")] }];
    tokinizer.update_token_variables(&variables);
    assert_eq!(tokinizer.token_infos.len(), 3);
    let first = &tokinizer.token_infos[0];
    assert_eq!(first.start, 0);
    assert_eq!(first.end, 10);
    assert_eq!(first.original_text, "unitprice");
    assert!(matches!(&first.token_type, Some(TokenType::Variable(VariableRef { index: 0, .. }))));
}

#[test]
fn longer_variable_wins_at_the_same_place() {
    let mut tokinizer = line("x");
    tokinizer.token_infos.push(info(0, 1, text("a"), "a"));
    tokinizer.token_infos.push(info(2, 3, text("b"), "b"));
    let variables = vec![
        VariableInfo { index: 0, name: "a".to_string(), tokens: vec![text("a")] },
        VariableInfo { index: 1, name: "ab".to_string(), tokens: vec![text("a"), text("b")] },
    ];
    tokinizer.update_token_variables(&variables);
    assert_eq!(tokinizer.token_infos.len(), 1);
    assert!(matches!(&tokinizer.token_infos[0].token_type, Some(TokenType::Variable(VariableRef { index: 1, .. }))));
}

#[test]
fn variables_are_not_put_into_their_own_definition() {
    let mut tokinizer = line("x");
    tokinizer.token_infos.push(info(0, 1, text("a"), "a"));
    tokinizer.token_infos.push(info(2, 3, op('='), "="));
    tokinizer.token_infos.push(info(4, 5, text("a"), "a"));
    let variables = vec![VariableInfo { index: 0, name: "a".to_string(), tokens: vec![text("a")] }];
    tokinizer.update_token_variables(&variables);
    assert!(matches!(&tokinizer.token_infos[0].token_type, Some(TokenType::Text(_))));
    assert!(matches!(&tokinizer.token_infos[2].token_type, Some(TokenType::Variable(_))));
}

#[test]
fn rule_pattern_match_captures_fields() {
    let mut tokinizer = line("x");
    tokinizer.token_infos.push(info(0, 3, text("add"), "add"));
    tokinizer.token_infos.push(info(4, 5, number(4.0), "4"));
    tokinizer.token_infos.push(TokenInfo { start: 6, end: 9, token_type: Some(text("and")), original_text: "and".to_string(), status: TokenInfoStatus::Removed });
    tokinizer.token_infos.push(info(10, 11, number(5.0), "5"));
    let rule = vec![
        info(0, 0, text("add"), "add"),
        info(0, 0, TokenType::Field(Rc::new(FieldType::Number("left".to_string()))), "{NUMBER:left}"),
        info(0, 0, TokenType::Field(Rc::new(FieldType::Number("right".to_string()))), "{NUMBER:right}"),
    ];
    let hits = vec![vec![false; 3]; 4];
    let (total, matched, start, target, fields) = find_match(&rule, &tokinizer, &hits);
    assert_eq!(total, 3);
    assert_eq!(matched, 3);
    assert_eq!(start, 0);
    assert_eq!(target, 4);
    assert_eq!(fields.len(), 2);
    assert_eq!(fields[0].name, "left");
    assert_eq!(fields[0].index, 1);
    assert_eq!(fields[1].name, "right");
    assert_eq!(fields[1].index, 3);
    assert_eq!(get_field_name(&rule[1]), Some("left".to_string()));
    assert_eq!(get_field_name(&rule[0]), None);

    tokinizer.replace_rule_match(start, target, number(9.0));
    assert_eq!(tokinizer.token_infos.len(), 5);
    assert_eq!(tokinizer.token_infos[0].start, 0);
    assert_eq!(tokinizer.token_infos[0].end, 11);
    assert_eq!(tokinizer.token_infos[0].status, TokenInfoStatus::Active);
    assert!(tokinizer.token_infos[1..].iter().all(|i| i.status == TokenInfoStatus::Removed));
    tokinizer.token_generator();
    assert_eq!(tokinizer.tokens.len(), 1);
    assert!(is_number(&tokinizer.tokens[0], 9.0));
}

#[test]
fn rule_pattern_restarts_after_a_mismatch() {
    let mut tokinizer = line("x");
    tokinizer.token_infos.push(info(0, 1, number(1.0), "1"));
    tokinizer.token_infos.push(info(2, 5, text("add"), "add"));
    tokinizer.token_infos.push(info(6, 7, number(2.0), "2"));
    let rule = vec![
        info(0, 0, text("add"), "add"),
        info(0, 0, TokenType::Field(Rc::new(FieldType::Number("value".to_string()))), "{NUMBER:value}"),
    ];
    let hits = vec![vec![false; 2]; 3];
    let (total, matched, start, target, _fields) = find_match(&rule, &tokinizer, &hits);
    assert_eq!((total, matched, start, target), (2, 2, 1, 3));
}

#[test]
fn variables_match_patterns_by_their_values() {
    let mut tokinizer = line("x");
    tokinizer.token_infos.push(info(0, 3, text("add"), "add"));
    tokinizer.token_infos.push(info(4, 7, TokenType::Variable(VariableRef { index: 0, name: "a b".to_string() }), "a b"));
    tokinizer.token_infos.push(info(8, 9, TokenType::Variable(VariableRef { index: 1, name: "c".to_string() }), "c"));
    tokinizer.token_infos.push(info(10, 11, TokenType::Variable(VariableRef { index: 7, name: "d".to_string() }), "d"));
    let rule = vec![
        info(0, 0, text("add"), "add"),
        info(0, 0, TokenType::Field(Rc::new(FieldType::Number("value".to_string()))), "{NUMBER:value}"),
        info(0, 0, number(3.0), "3"),
    ];
    let values = vec![Some(number(3.0)), None];
    let hits = variable_hits(&tokinizer.token_infos, &rule, &values);
    assert_eq!(hits, vec![vec![false, false, false], vec![false, true, true], vec![false, false, false], vec![false, false, false]]);
    assert!(variable_compare(&rule[1], &Some(number(2.0))));
    assert!(!variable_compare(&rule[1], &Some(text("two"))));
    assert!(!variable_compare(&rule[0], &None));

    let pattern = vec![rule[0].duplicate(), rule[1].duplicate()];
    let hits = variable_hits(&tokinizer.token_infos, &pattern, &values);
    let (total, matched, start, target, fields) = find_match(&pattern, &tokinizer, &hits);
    assert_eq!((total, matched, start, target), (2, 2, 0, 2));
    assert_eq!(fields.len(), 1);
    assert_eq!(fields[0].name, "value");
    assert_eq!(fields[0].index, 1);
}

#[test]
fn rules_are_tried_in_rounds_until_none_applies() {
    let lens = vec![2, 0, 1];
    let at = |rule: usize, pattern: usize, changed: bool| RuleAction::Try(RuleCursor { rule, pattern, changed });
    assert_eq!(start_rules(&lens), at(0, 0, false));
    assert_eq!(start_rules(&vec![0, 0]), RuleAction::Finish);
    assert_eq!(next_rule_step(RuleCursor { rule: 0, pattern: 0, changed: false }, RuleOutcome::NotApplied, &lens), at(0, 1, false));
    assert_eq!(next_rule_step(RuleCursor { rule: 0, pattern: 1, changed: false }, RuleOutcome::NotApplied, &lens), at(2, 0, false));
    assert_eq!(next_rule_step(RuleCursor { rule: 0, pattern: 0, changed: false }, RuleOutcome::Applied, &lens), at(2, 0, true));
    assert_eq!(next_rule_step(RuleCursor { rule: 2, pattern: 0, changed: true }, RuleOutcome::NotApplied, &lens), at(0, 0, false));
    assert_eq!(next_rule_step(RuleCursor { rule: 2, pattern: 0, changed: false }, RuleOutcome::Applied, &lens), at(0, 0, false));
    assert_eq!(next_rule_step(RuleCursor { rule: 2, pattern: 0, changed: false }, RuleOutcome::NotApplied, &lens), RuleAction::Finish);
}

#[test]
fn rule_replacements_keep_the_earlier_tokens_in_order() {
    let mut tokinizer = line("x");
    tokinizer.token_infos.push(info(0, 1, number(1.0), "1"));
    tokinizer.token_infos.push(info(2, 3, text("+"), "+"));
    tokinizer.token_infos.push(info(4, 5, number(2.0), "2"));
    tokinizer.token_infos.push(info(6, 7, text("*"), "*"));
    tokinizer.token_infos.push(info(8, 9, number(3.0), "3"));
    let before: Vec<(usize, usize, String)> =
        tokinizer.token_infos.iter().map(|i| (i.start, i.end, i.original_text.clone())).collect();
    tokinizer.replace_rule_match(2, 5, number(6.0));
    tokinizer.replace_rule_match(0, 3, number(7.0));
    assert_eq!(tokinizer.token_infos.len(), 7);
    let kept: Vec<(usize, usize, String)> = tokinizer
        .token_infos
        .iter()
        .filter(|i| !i.original_text.is_empty())
        .map(|i| (i.start, i.end, i.original_text.clone()))
        .collect();
    assert_eq!(kept, before);
    let statuses: Vec<TokenInfoStatus> = tokinizer.token_infos.iter().map(|i| i.status).collect();
    assert_eq!(
        statuses,
        vec![
            TokenInfoStatus::Active,
            TokenInfoStatus::Removed,
            TokenInfoStatus::Removed,
            TokenInfoStatus::Removed,
            TokenInfoStatus::Removed,
            TokenInfoStatus::Removed,
            TokenInfoStatus::Removed,
        ]
    );
    assert_eq!((tokinizer.token_infos[0].start, tokinizer.token_infos[0].end), (0, 9));
}
