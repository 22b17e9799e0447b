use smartcalc::scan::Alias;
use smartcalc::session::Session;
use smartcalc::tokinizer::{TokenInfo, TokenInfoStatus, Tokinizer};
use smartcalc::types::{NumberType, NumberValue, TokenType};

fn line(data: &str) -> Tokinizer {
    let mut session = Session::new();
    session.set_language("en".to_string());
    session.set_text(data.to_string());
    Tokinizer::new(&session)
}

fn patterns(texts: &[&str]) -> Vec<String> {
    texts.iter().map(|t| t.to_string()).collect()
}

#[test]
fn a_pattern_that_does_not_compile_matches_nothing() {
    let mut tokinizer = line("(1)");
    tokinizer.comment_regex_parser(&patterns(&["("]));
    assert!(tokinizer.token_infos.is_empty());
    let mut tokinizer = line("x");
    tokinizer.token_infos.push(info("(", None));
    tokinizer.alias_tokinizer(&vec![Alias { pattern: "(".to_string(), target: "y".to_string(), atoms: vec![] }]);
    assert!(tokinizer.token_infos[0].token_type.is_none());
}

#[test]
fn operators_are_recorded_where_nothing_else_is() {
    let mut tokinizer = line("1 + 2 * 3");
    tokinizer.add_token_location(4, 5, Some(TokenType::Text("taken".to_string())), "2".to_string());
    assert!(tokinizer.operator_regex_parser(&patterns(&[r"[+*]", r"\d"])));
    let kinds: Vec<(usize, usize, Option<TokenType>)> =
        tokinizer.token_infos.iter().map(|i| (i.start, i.end, i.token_type.clone())).collect();
    assert_eq!(kinds.len(), 5);
    assert!(matches!(kinds[1], (2, 3, Some(TokenType::Operator('+')))));
    assert!(matches!(kinds[2], (6, 7, Some(TokenType::Operator('*')))));
    assert!(matches!(kinds[3], (0, 1, Some(TokenType::Operator('1')))));
    assert!(matches!(kinds[4], (8, 9, Some(TokenType::Operator('3')))));
}

#[test]
fn an_empty_operator_match_records_nothing() {
    let mut tokinizer = line("1 + 2");
    assert!(!tokinizer.operator_regex_parser(&patterns(&[r"\+", r"x*"])));
    assert!(tokinizer.token_infos.is_empty());
}

#[test]
fn comments_and_whitespace_are_recorded_without_a_kind() {
    let mut tokinizer = line("12 # note");
    tokinizer.comment_regex_parser(&patterns(&[r"#.*"]));
    tokinizer.whitespace_regex_parser(&patterns(&[r"\s+"]));
    let spans: Vec<(usize, usize, bool)> = tokinizer.token_infos.iter().map(|i| (i.start, i.end, i.token_type.is_none())).collect();
    assert_eq!(spans, vec![(3, 9, true), (2, 3, true)]);
    assert_eq!(tokinizer.token_infos[0].original_text, "# note");
}

fn info(text: &str, token: Option<TokenType>) -> TokenInfo {
    TokenInfo { start: 0, end: text.len(), token_type: token, original_text: text.to_string(), status: TokenInfoStatus::Active }
}

#[test]
fn aliases_give_their_token() {
    let five = TokenType::Number(NumberValue { bits: 5.0f64.to_bits(), display: "5".to_string(), sign_flipped: false }, NumberType::Decimal);
    let aliases = vec![
        Alias { pattern: r"\bboth\b".to_string(), target: "x".to_string(), atoms: vec![Some(TokenType::Operator('+')), Some(TokenType::Operator('-'))] },
        Alias { pattern: r"\bplus\b".to_string(), target: "[OPERATOR:+]".to_string(), atoms: vec![Some(TokenType::Operator('+'))] },
        Alias { pattern: r"\bfive\b".to_string(), target: "[NUMBER:5]".to_string(), atoms: vec![Some(five)] },
        Alias { pattern: r"\b(both|km)\b".to_string(), target: "kilometer".to_string(), atoms: vec![] },
    ];
    let mut tokinizer = line("x");
    tokinizer.token_infos.push(info("PLUS", Some(TokenType::Text("PLUS".to_string()))));
    tokinizer.token_infos.push(info("km", None));
    tokinizer.token_infos.push(info("both", None));
    tokinizer.token_infos.push(info("other", Some(TokenType::Operator('/'))));
    tokinizer.token_infos.push(info("Five", None));
    tokinizer.alias_tokinizer(&aliases);
    let kinds: Vec<Option<TokenType>> = tokinizer.token_infos.iter().map(|i| i.token_type.clone()).collect();
    assert!(matches!(kinds[0], Some(TokenType::Operator('+'))));
    assert!(matches!(&kinds[1], Some(TokenType::Text(t)) if t == "kilometer"));
    assert!(matches!(&kinds[2], Some(TokenType::Text(t)) if t == "kilometer"));
    assert!(matches!(kinds[3], Some(TokenType::Operator('/'))));
    assert!(matches!(&kinds[4], Some(TokenType::Number(v, _)) if v.display == "5"));
    assert_eq!(tokinizer.token_infos[0].original_text, "PLUS");
}
