use smartcalc::session::{Session, VariableInfo};
use smartcalc::syntax::{
    AddSubtractParser, AssignmentParser, BinaryLevel, ModuloParser, MultiplyDivideParser, PrimativeParser,
    SmartCalcAstType, StatementParser, SyntaxError, SyntaxParser, SyntaxParserTrait, UnaryParser, err_or_message,
    is_ast_empty, parse_binary,
};
use smartcalc::types::{CurrencyInfo, NumberType, NumberValue, TokenType, VariableRef};

fn number(value: f64) -> TokenType {
    TokenType::Number(
        NumberValue { bits: value.to_bits(), display: format!("{}", value), sign_flipped: false },
        NumberType::Decimal,
    )
}

fn text(s: &str) -> TokenType {
    TokenType::Text(s.to_string())
}

fn op(c: char) -> TokenType {
    TokenType::Operator(c)
}

fn money(value: f64) -> TokenType {
    TokenType::Money(
        NumberValue { bits: value.to_bits(), display: format!("{}", value), sign_flipped: false },
        CurrencyInfo {
            code: "USD".to_string(),
            symbol: "$".to_string(),
            thousands_separator: ",".to_string(),
            decimal_separator: ".".to_string(),
            symbol_on_left: true,
            space_between_amount_and_symbol: false,
            decimal_digits: 2,
        },
    )
}

fn parser_for(tokens: Vec<TokenType>) -> SyntaxParser {
    let mut session = Session::new();
    session.tokens = tokens;
    SyntaxParser::new(session)
}

fn number_bits(ast: &SmartCalcAstType) -> Option<f64> {
    match ast {
        SmartCalcAstType::Item(TokenType::Number(v, _)) => Some(f64::from_bits(v.bits)),
        _ => None,
    }
}

#[test]
fn multiplication_binds_tighter_than_addition() {
    let mut parser = parser_for(vec![number(1.0), op('+'), number(2.0), op('*'), number(3.0)]);
    let ast = AddSubtractParser::parse(&mut parser).unwrap();
    match ast {
        SmartCalcAstType::Binary { left, operator, right } => {
            assert_eq!(operator, '+');
            assert_eq!(number_bits(&left), Some(1.0));
            match *right {
                SmartCalcAstType::Binary { left, operator, right } => {
                    assert_eq!(operator, '*');
                    assert_eq!(number_bits(&left), Some(2.0));
                    assert_eq!(number_bits(&right), Some(3.0));
                },
                _ => panic!("right side is not a product"),
            }
        },
        _ => panic!("not a sum"),
    }
    assert_eq!(parser.index, 5);
}

#[test]
fn operators_of_a_level_group_from_the_left() {
    let mut parser = parser_for(vec![number(8.0), op('-'), number(3.0), op('-'), number(1.0)]);
    let ast = parse_binary(&mut parser, BinaryLevel::AddSubtract).unwrap();
    match ast {
        SmartCalcAstType::Binary { left, operator, right } => {
            assert_eq!(operator, '-');
            assert_eq!(number_bits(&right), Some(1.0));
            assert!(matches!(*left, SmartCalcAstType::Binary { operator: '-', .. }));
        },
        _ => panic!("not a difference"),
    }
}

#[test]
fn modulo_sits_between_products_and_sums() {
    let mut parser = parser_for(vec![number(7.0), op('%'), number(4.0), op('*'), number(2.0)]);
    let ast = ModuloParser::parse(&mut parser).unwrap();
    match ast {
        SmartCalcAstType::Binary { operator, right, .. } => {
            assert_eq!(operator, '%');
            assert!(matches!(*right, SmartCalcAstType::Binary { operator: '*', .. }));
        },
        _ => panic!("not a remainder"),
    }
}

#[test]
fn multiply_divide_parser_stops_at_a_sum() {
    let mut parser = parser_for(vec![number(6.0), op('/'), number(3.0), op('+'), number(1.0)]);
    let ast = MultiplyDivideParser::parse(&mut parser).unwrap();
    assert!(matches!(ast, SmartCalcAstType::Binary { operator: '/', .. }));
    assert_eq!(parser.index, 3);
}

#[test]
fn minus_sign_goes_into_the_number_and_leaves_it_unconsumed() {
    let mut parser = parser_for(vec![op('-'), number(5.0)]);
    let ast = UnaryParser::parse(&mut parser).unwrap();
    assert_eq!(number_bits(&ast), Some(-5.0));
    match ast {
        SmartCalcAstType::Item(TokenType::Number(v, _)) => assert!(v.sign_flipped),
        _ => panic!("not a number"),
    }
    assert_eq!(parser.index, 1);
}

#[test]
fn plus_sign_keeps_the_number() {
    let mut parser = parser_for(vec![op('+'), number(5.0)]);
    let ast = UnaryParser::parse(&mut parser).unwrap();
    assert_eq!(number_bits(&ast), Some(5.0));
}

#[test]
fn sign_before_an_amount_applies_twice() {
    let mut parser = parser_for(vec![op('-'), money(10.0)]);
    let ast = UnaryParser::parse(&mut parser).unwrap();
    match ast {
        SmartCalcAstType::PrefixUnary('-', inner) => {
            assert!(matches!(*inner, SmartCalcAstType::PrefixUnary('-', _)));
        },
        _ => panic!("not a signed amount"),
    }
}

#[test]
fn sign_before_a_word_is_an_error_and_goes_back() {
    let mut parser = parser_for(vec![op('-'), text("apples")]);
    let result = UnaryParser::parse(&mut parser);
    assert!(matches!(result, Err(SyntaxError::UnaryWorksWithNumber)));
    assert_eq!(parser.index, 0);
}

#[test]
fn sign_at_the_end_gives_nothing_after_consuming_it() {
    let mut parser = parser_for(vec![op('-')]);
    let result = UnaryParser::parse(&mut parser);
    assert!(matches!(result, Err(SyntaxError::NoMoreToken)));
    assert_eq!(parser.index, 1);
}

#[test]
fn words_are_skipped_between_operands() {
    let mut parser = parser_for(vec![number(2.0), op('+'), text("and"), number(3.0)]);
    let ast = AddSubtractParser::parse(&mut parser).unwrap();
    match ast {
        SmartCalcAstType::Binary { operator, right, .. } => {
            assert_eq!(operator, '+');
            assert_eq!(number_bits(&right), Some(3.0));
        },
        _ => panic!("not a sum"),
    }
    assert_eq!(parser.index, 4);
}

#[test]
fn parentheses_group_an_expression() {
    let mut parser = parser_for(vec![op('('), number(1.0), op('+'), number(2.0), op(')'), op('*'), number(3.0)]);
    let ast = AddSubtractParser::parse(&mut parser).unwrap();
    match ast {
        SmartCalcAstType::Binary { left, operator, .. } => {
            assert_eq!(operator, '*');
            assert!(matches!(*left, SmartCalcAstType::Binary { operator: '+', .. }));
        },
        _ => panic!("not a product"),
    }
    assert_eq!(parser.index, 7);
}

#[test]
fn unclosed_parenthesis_is_an_error_and_goes_back() {
    let mut parser = parser_for(vec![op('('), number(1.0), op('+'), number(2.0)]);
    let result = PrimativeParser::parse_parenthesis(&mut parser);
    assert!(matches!(result, Err(SyntaxError::ParenthesesNotClosed)));
    assert_eq!(parser.index, 0);
}

#[test]
fn parenthesis_around_words_is_an_invalid_expression() {
    let mut parser = parser_for(vec![op('('), text("some"), op(')')]);
    let result = PrimativeParser::parse_parenthesis(&mut parser);
    assert!(matches!(result, Err(SyntaxError::InvalidExpression)));
    assert_eq!(parser.index, 0);
}

#[test]
fn operator_where_a_value_is_expected_is_consumed_with_an_error() {
    let mut parser = parser_for(vec![op('*'), number(2.0)]);
    let result = PrimativeParser::parse_basic_primatives(&mut parser);
    assert!(matches!(result, Err(SyntaxError::NoMoreToken)));
    assert_eq!(parser.index, 1);
}

#[test]
fn empty_line_has_no_token_left() {
    let mut parser = parser_for(vec![]);
    let result = AddSubtractParser::parse(&mut parser);
    assert!(matches!(result, Err(SyntaxError::NoMoreToken)));
    assert_eq!(parser.index, 0);
}

#[test]
fn position_past_the_end_gives_no_token_left() {
    let mut parser = parser_for(vec![number(1.0)]);
    parser.set_index(5);
    let result = AddSubtractParser::parse(&mut parser);
    assert!(matches!(result, Err(SyntaxError::NoMoreToken)));
    assert_eq!(parser.index, 5);
}

#[test]
fn assignment_adds_a_variable_named_by_its_tokens() {
    let mut parser = parser_for(vec![text("Total"), text("Cost"), op('='), number(5.0)]);
    let ast = AssignmentParser::parse(&mut parser).unwrap();
    match ast {
        SmartCalcAstType::Assignment { index, expression } => {
            assert_eq!(index, 0);
            assert_eq!(number_bits(&expression), Some(5.0));
        },
        _ => panic!("not an assignment"),
    }
    assert_eq!(parser.session.variables.len(), 1);
    let variable = &parser.session.variables[0];
    assert_eq!(variable.name, "totalcost");
    assert_eq!(variable.index, 0);
    assert_eq!(variable.tokens.len(), 2);
    assert_eq!(parser.index, 4);
}

#[test]
fn assignment_to_a_known_name_reuses_the_variable() {
    let mut session = Session::new();
    session.variables.push(VariableInfo { index: 0, name: "x".to_string(), tokens: vec![text("x")] });
    session.tokens = vec![text("X"), op('='), number(2.0), op('+'), number(3.0)];
    let mut parser = SyntaxParser::new(session);
    let ast = parser.parse().unwrap();
    match ast {
        SmartCalcAstType::Assignment { index, expression } => {
            assert_eq!(index, 0);
            assert!(matches!(*expression, SmartCalcAstType::Binary { operator: '+', .. }));
        },
        _ => panic!("not an assignment"),
    }
    assert_eq!(parser.session.variables.len(), 1);
}

#[test]
fn assignment_with_an_empty_expression_adds_no_variable() {
    let mut parser = parser_for(vec![text("x"), op('='), text("nothing")]);
    let result = StatementParser::parse(&mut parser);
    assert!(matches!(result, Ok(SmartCalcAstType::Empty)));
    assert_eq!(parser.session.variables.len(), 0);
    assert_eq!(parser.index, 3);
}

#[test]
fn line_without_assignment_parses_as_an_expression() {
    let mut parser = parser_for(vec![number(4.0), op('*'), number(2.0)]);
    let ast = parser.parse().unwrap();
    assert!(matches!(ast, SmartCalcAstType::Binary { operator: '*', .. }));
    assert_eq!(parser.session.variables.len(), 0);
}

#[test]
fn assignment_parser_leaves_other_lines_alone() {
    let mut parser = parser_for(vec![number(4.0)]);
    let result = AssignmentParser::parse(&mut parser);
    assert!(matches!(result, Ok(SmartCalcAstType::Empty)));
    assert_eq!(parser.index, 0);
}

#[test]
fn variable_tokens_parse_to_variables() {
    let variable = TokenType::Variable(VariableRef { index: 0, name: "x".to_string() });
    let mut parser = parser_for(vec![variable, op('+'), number(1.0)]);
    let ast = AddSubtractParser::parse(&mut parser).unwrap();
    match ast {
        SmartCalcAstType::Binary { left, .. } => {
            assert!(matches!(*left, SmartCalcAstType::Variable(VariableRef { index: 0, .. })));
        },
        _ => panic!("not a sum"),
    }
}

#[test]
fn empty_results_and_messages() {
    assert!(is_ast_empty(&Ok(SmartCalcAstType::Empty)));
    assert!(is_ast_empty(&Err(SyntaxError::NoMoreToken)));
    assert!(!is_ast_empty(&Ok(SmartCalcAstType::Month(3))));
    assert!(matches!(err_or_message(&Ok(SmartCalcAstType::Empty), SyntaxError::InvalidExpression), Err(SyntaxError::InvalidExpression)));
    assert!(matches!(err_or_message(&Ok(SmartCalcAstType::Month(1)), SyntaxError::InvalidExpression), Ok(SmartCalcAstType::Empty)));
    assert!(matches!(err_or_message(&Err(SyntaxError::NoMoreToken), SyntaxError::InvalidExpression), Err(SyntaxError::NoMoreToken)));
    assert_eq!(SyntaxError::NoMoreToken.message(), "No more token");
    assert_eq!(SyntaxError::InvalidExpression.message(), "Invalid expression");
    assert_eq!(SyntaxError::ParenthesesNotClosed.message(), "Parentheses not closed");
    assert_eq!(SyntaxError::UnaryWorksWithNumber.message(), "Unary works with number");
}
