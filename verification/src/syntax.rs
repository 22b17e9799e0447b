//! The parser that turns the tokens of a line into a syntax tree:
//! assignments, the binary operators by precedence, prefix signs,
//! parentheses and single values.
use vstd::prelude::*;
use std::rc::Rc;
use crate::types::{TokenType, FieldType, VariableRef, spec_negated, spec_token_display};
use crate::session::{Session, VariableInfo, variables_ok, token_ok_in_line};
use crate::text::{to_lowercase, append_str, text_eq, spec_lowercase};

verus! {

/// Why a line could not be parsed.
#[derive(Clone, Copy, Debug, PartialEq, Eq, Structural)]
pub enum SyntaxError {
    NoMoreToken,
    InvalidExpression,
    ParenthesesNotClosed,
    UnaryWorksWithNumber,
}

impl SyntaxError {
    /// The message shown for the error.
    pub fn message(&self) -> (r: &'static str)
        ensures
            *self == SyntaxError::NoMoreToken ==> r@ == "No more token"@,
            *self == SyntaxError::InvalidExpression ==> r@ == "Invalid expression"@,
            *self == SyntaxError::ParenthesesNotClosed ==> r@ == "Parentheses not closed"@,
            *self == SyntaxError::UnaryWorksWithNumber ==> r@ == "Unary works with number"@,
    {
        match self {
            SyntaxError::NoMoreToken => "No more token",
            SyntaxError::InvalidExpression => "Invalid expression",
            SyntaxError::ParenthesesNotClosed => "Parentheses not closed",
            SyntaxError::UnaryWorksWithNumber => "Unary works with number",
        }
    }
}

/// A node of the syntax tree of a line.
#[derive(Debug)]
pub enum SmartCalcAstType {
    Empty,
    Field(Rc<FieldType>),
    Item(TokenType),
    Month(u32),
    Binary { left: Box<SmartCalcAstType>, operator: char, right: Box<SmartCalcAstType> },
    PrefixUnary(char, Box<SmartCalcAstType>),
    Assignment { index: usize, expression: Box<SmartCalcAstType> },
    Symbol(String),
    Variable(VariableRef),
}

/// What a parser gives back: a tree, possibly empty, or an error.
pub type AstResult = Result<SmartCalcAstType, SyntaxError>;

/// A parse result together with the token position the parser stopped at.
pub type Parsed = (AstResult, int);

/// The three levels of binary operators, from the tightest binding.
#[derive(Clone, Copy, Debug, PartialEq, Eq, Structural)]
pub enum BinaryLevel {
    MultiplyDivide,
    Modulo,
    AddSubtract,
}

/// The operators of a level.
pub open spec fn is_level_operator(level: BinaryLevel, c: char) -> bool {
    match level {
        BinaryLevel::MultiplyDivide => c == '*' || c == '/',
        BinaryLevel::Modulo => c == '%',
        BinaryLevel::AddSubtract => c == '+' || c == '-',
    }
}

/// The order in which the parsers of a line call each other, used to show
/// that parsing ends.
pub open spec fn level_rank(level: BinaryLevel) -> int {
    match level {
        BinaryLevel::MultiplyDivide => 6,
        BinaryLevel::Modulo => 9,
        BinaryLevel::AddSubtract => 12,
    }
}

/// Whether a result is empty: an error or no tree.
pub open spec fn spec_is_ast_empty(ast: AstResult) -> bool {
    match ast {
        Ok(SmartCalcAstType::Empty) => true,
        Ok(_) => false,
        Err(_) => true,
    }
}

/// Whether a result is a tree that is not empty.
pub open spec fn spec_is_tree(ast: AstResult) -> bool {
    !spec_is_ast_empty(ast)
}

/// An empty tree becomes the given error, a tree becomes an empty tree, and
/// an error stays.
pub open spec fn spec_err_or_message(ast: AstResult, message: SyntaxError) -> AstResult {
    match ast {
        Ok(SmartCalcAstType::Empty) => Err(message),
        Ok(_) => Ok(SmartCalcAstType::Empty),
        Err(e) => Err(e),
    }
}

/// A sign in front of a number, a variable, a percentage or an amount.
/// The sign is consumed and the value after it is not; a number takes the
/// sign into itself, an amount gets it twice. A sign at the end of the line
/// gives an empty tree.
pub open spec fn spec_prefix_unary(tokens: Seq<TokenType>, i: int) -> Parsed {
    if 0 <= i < tokens.len() && (tokens[i] == TokenType::Operator('-') || tokens[i] == TokenType::Operator('+')) {
        let op = if tokens[i] == TokenType::Operator('-') { '-' } else { '+' };
        if i + 1 < tokens.len() {
            match tokens[i + 1] {
                TokenType::Number(v, n) => (Ok(SmartCalcAstType::Item(
                    TokenType::Number(if op == '-' { spec_negated(v) } else { v }, n),
                )), i + 1),
                TokenType::Variable(v) => (Ok(SmartCalcAstType::PrefixUnary(op, Box::new(SmartCalcAstType::Variable(v)))), i + 1),
                TokenType::Percent(p) => (Ok(SmartCalcAstType::PrefixUnary(
                    op,
                    Box::new(SmartCalcAstType::Item(TokenType::Percent(p))),
                )), i + 1),
                TokenType::Money(m, c) => (Ok(SmartCalcAstType::PrefixUnary(
                    op,
                    Box::new(SmartCalcAstType::PrefixUnary(op, Box::new(SmartCalcAstType::Item(TokenType::Money(m, c))))),
                )), i + 1),
                _ => (Err(SyntaxError::UnaryWorksWithNumber), i),
            }
        } else {
            (Ok(SmartCalcAstType::Empty), i + 1)
        }
    } else {
        (Ok(SmartCalcAstType::Empty), i)
    }
}

/// A single value: texts and time zones are skipped with an empty tree,
/// values become items, fields and variables stand for themselves; an
/// operator or a month there, or the end of the line, is an error.
pub open spec fn spec_basic_primative(tokens: Seq<TokenType>, i: int) -> Parsed {
    if 0 <= i < tokens.len() {
        match tokens[i] {
            TokenType::Timezone(_, _) => (Ok(SmartCalcAstType::Empty), i + 1),
            TokenType::Text(_) => (Ok(SmartCalcAstType::Empty), i + 1),
            TokenType::Field(f) => (Ok(SmartCalcAstType::Field(f)), i + 1),
            TokenType::Variable(v) => (Ok(SmartCalcAstType::Variable(v)), i + 1),
            TokenType::Operator(_) => (Err(SyntaxError::NoMoreToken), i + 1),
            TokenType::Month(_) => (Err(SyntaxError::NoMoreToken), i + 1),
            _ => (Ok(SmartCalcAstType::Item(tokens[i])), i + 1),
        }
    } else {
        (Err(SyntaxError::NoMoreToken), i)
    }
}

/// An expression in parentheses. When nothing follows the `(` or the `)`
/// is missing, the position goes back to the `(`.
pub open spec fn spec_parenthesis(tokens: Seq<TokenType>, i: int) -> Parsed
    decreases tokens.len() - i, 1int,
{
    if 0 <= i < tokens.len() && tokens[i] == TokenType::Operator('(') {
        let (ast, j) = spec_binary(BinaryLevel::AddSubtract, tokens, i + 1);
        if spec_is_ast_empty(ast) {
            (spec_err_or_message(ast, SyntaxError::InvalidExpression), i)
        } else if 0 <= j < tokens.len() && tokens[j] == TokenType::Operator(')') {
            (ast, j + 1)
        } else {
            (Err(SyntaxError::ParenthesesNotClosed), i)
        }
    } else {
        (Ok(SmartCalcAstType::Empty), i)
    }
}

/// An expression in parentheses, or else a single value.
pub open spec fn spec_primative(tokens: Seq<TokenType>, i: int) -> Parsed
    decreases tokens.len() - i, 2int,
{
    let (r, j) = spec_parenthesis(tokens, i);
    match r {
        Ok(SmartCalcAstType::Empty) => spec_basic_primative(tokens, j),
        _ => (r, j),
    }
}

/// A signed value, or else a value.
pub open spec fn spec_unary(tokens: Seq<TokenType>, i: int) -> Parsed
    decreases tokens.len() - i, 3int,
{
    let (r, j) = spec_prefix_unary(tokens, i);
    match r {
        Ok(SmartCalcAstType::Empty) => if j == i || (i < j && j <= tokens.len()) {
            spec_primative(tokens, j)
        } else {
            (r, j)
        },
        _ => (r, j),
    }
}

/// An operand of a level's operators: the next tighter level.
pub open spec fn spec_operand(level: BinaryLevel, tokens: Seq<TokenType>, i: int) -> Parsed
    decreases tokens.len() - i, level_rank(level) - 2,
{
    match level {
        BinaryLevel::MultiplyDivide => spec_unary(tokens, i),
        BinaryLevel::Modulo => spec_binary(BinaryLevel::MultiplyDivide, tokens, i),
        BinaryLevel::AddSubtract => spec_binary(BinaryLevel::Modulo, tokens, i),
    }
}

/// The operators of a level between operands, grouped from the left.
pub open spec fn spec_binary(level: BinaryLevel, tokens: Seq<TokenType>, i: int) -> Parsed
    decreases tokens.len() - i, level_rank(level),
{
    let (l, j) = spec_operand(level, tokens, i);
    match l {
        Ok(SmartCalcAstType::Empty) => (l, j),
        Ok(left) => if i < j && j <= tokens.len() {
            spec_binary_loop(level, tokens, left, j)
        } else {
            (Ok(left), j)
        },
        Err(e) => (Err(e), j),
    }
}

/// After a left operand: an operator of the level continues the expression,
/// anything else ends it.
pub open spec fn spec_binary_loop(level: BinaryLevel, tokens: Seq<TokenType>, left: SmartCalcAstType, i: int) -> Parsed
    decreases tokens.len() - i, level_rank(level) - 1,
{
    if 0 <= i < tokens.len() {
        match tokens[i] {
            TokenType::Operator(c) => if is_level_operator(level, c) {
                spec_binary_right(level, tokens, left, c, i + 1)
            } else {
                (Ok(left), i)
            },
            _ => (Ok(left), i),
        }
    } else {
        (Ok(left), i)
    }
}

/// After an operator: operands that parse to an empty tree are skipped
/// until one gives a tree, which becomes the right side.
pub open spec fn spec_binary_right(level: BinaryLevel, tokens: Seq<TokenType>, left: SmartCalcAstType, op: char, i: int) -> Parsed
    decreases tokens.len() - i, level_rank(level) - 1,
{
    let (r, j) = spec_operand(level, tokens, i);
    match r {
        Ok(SmartCalcAstType::Empty) => if i < j && j <= tokens.len() {
            spec_binary_right(level, tokens, left, op, j)
        } else {
            (Ok(left), j)
        },
        Ok(right) => {
            let ast = SmartCalcAstType::Binary { left: Box::new(left), operator: op, right: Box::new(right) };
            if i < j && j <= tokens.len() {
                spec_binary_loop(level, tokens, ast, j)
            } else {
                (Ok(ast), j)
            }
        },
        Err(e) => (Err(e), j),
    }
}

/// The position a parser stops at stays within the line, and a parser that
/// gives a tree, or an empty tree, has moved forward.
pub open spec fn moves_forward(p: Parsed, i: int, len: int) -> bool {
    &&& i <= p.1 <= len
    &&& p.0 is Ok ==> i < p.1
}

/// A prefix sign moves by at most the sign, and only when it is consumed.
pub proof fn lemma_prefix_unary_bounds(tokens: Seq<TokenType>, i: int)
    requires
        0 <= i <= tokens.len(),
    ensures
        ({
            let (r, j) = spec_prefix_unary(tokens, i);
            &&& i <= j <= tokens.len()
            &&& j == i || j == i + 1
            &&& spec_is_tree(r) ==> j == i + 1
            &&& r is Err ==> j == i
        }),
{
}

proof fn lemma_basic_bounds(tokens: Seq<TokenType>, i: int)
    requires
        0 <= i <= tokens.len(),
    ensures
        moves_forward(spec_basic_primative(tokens, i), i, tokens.len() as int),
        i == tokens.len() ==> spec_basic_primative(tokens, i) == (Err::<SmartCalcAstType, SyntaxError>(SyntaxError::NoMoreToken), i),
{
}

proof fn lemma_parenthesis_bounds(tokens: Seq<TokenType>, i: int)
    requires
        0 <= i <= tokens.len(),
    ensures
        ({
            let (r, j) = spec_parenthesis(tokens, i);
            &&& i <= j <= tokens.len()
            &&& spec_is_tree(r) ==> i < j
            &&& !spec_is_tree(r) ==> j == i
        }),
    decreases tokens.len() - i, 1int,
{
    if 0 <= i < tokens.len() && tokens[i] == TokenType::Operator('(') {
        lemma_binary_bounds(BinaryLevel::AddSubtract, tokens, i + 1);
    }
}

proof fn lemma_primative_bounds(tokens: Seq<TokenType>, i: int)
    requires
        0 <= i <= tokens.len(),
    ensures
        moves_forward(spec_primative(tokens, i), i, tokens.len() as int),
    decreases tokens.len() - i, 2int,
{
    lemma_parenthesis_bounds(tokens, i);
    lemma_basic_bounds(tokens, i);
}

proof fn lemma_unary_bounds(tokens: Seq<TokenType>, i: int)
    requires
        0 <= i <= tokens.len(),
    ensures
        moves_forward(spec_unary(tokens, i), i, tokens.len() as int),
    decreases tokens.len() - i, 3int,
{
    lemma_prefix_unary_bounds(tokens, i);
    let (r, j) = spec_prefix_unary(tokens, i);
    if r == Ok::<SmartCalcAstType, SyntaxError>(SmartCalcAstType::Empty) {
        lemma_primative_bounds(tokens, j);
    }
}

proof fn lemma_operand_bounds(level: BinaryLevel, tokens: Seq<TokenType>, i: int)
    requires
        0 <= i <= tokens.len(),
    ensures
        moves_forward(spec_operand(level, tokens, i), i, tokens.len() as int),
    decreases tokens.len() - i, level_rank(level) - 2,
{
    match level {
        BinaryLevel::MultiplyDivide => lemma_unary_bounds(tokens, i),
        BinaryLevel::Modulo => lemma_binary_bounds(BinaryLevel::MultiplyDivide, tokens, i),
        BinaryLevel::AddSubtract => lemma_binary_bounds(BinaryLevel::Modulo, tokens, i),
    }
}

proof fn lemma_binary_bounds(level: BinaryLevel, tokens: Seq<TokenType>, i: int)
    requires
        0 <= i <= tokens.len(),
    ensures
        moves_forward(spec_binary(level, tokens, i), i, tokens.len() as int),
    decreases tokens.len() - i, level_rank(level),
{
    lemma_operand_bounds(level, tokens, i);
    let (l, j) = spec_operand(level, tokens, i);
    if spec_is_tree(l) && i < j && j <= tokens.len() {
        lemma_binary_loop_bounds(level, tokens, l->Ok_0, j);
    }
}

proof fn lemma_binary_loop_bounds(level: BinaryLevel, tokens: Seq<TokenType>, left: SmartCalcAstType, i: int)
    requires
        0 <= i <= tokens.len(),
    ensures
        ({
            let (r, j) = spec_binary_loop(level, tokens, left, i);
            i <= j <= tokens.len()
        }),
    decreases tokens.len() - i, level_rank(level) - 1,
{
    if 0 <= i < tokens.len() {
        match tokens[i] {
            TokenType::Operator(c) => if is_level_operator(level, c) {
                lemma_binary_right_bounds(level, tokens, left, c, i + 1);
            },
            _ => {},
        }
    }
}

proof fn lemma_binary_right_bounds(level: BinaryLevel, tokens: Seq<TokenType>, left: SmartCalcAstType, op: char, i: int)
    requires
        0 <= i <= tokens.len(),
    ensures
        ({
            let (r, j) = spec_binary_right(level, tokens, left, op, i);
            i <= j <= tokens.len()
        }),
    decreases tokens.len() - i, level_rank(level) - 1,
{
    lemma_operand_bounds(level, tokens, i);
    let (r, j) = spec_operand(level, tokens, i);
    if r is Ok && i < j && j <= tokens.len() {
        match r {
            Ok(SmartCalcAstType::Empty) => lemma_binary_right_bounds(level, tokens, left, op, j),
            Ok(right) => lemma_binary_loop_bounds(
                level,
                tokens,
                SmartCalcAstType::Binary { left: Box::new(left), operator: op, right: Box::new(right) },
                j,
            ),
            Err(_) => {},
        }
    }
}

/// Every parser of a level stops within the line, and moves forward when it
/// gives a tree or an empty tree; at the end of the line it gives the error
/// that no token is left.
pub proof fn lemma_binary_moves_forward(level: BinaryLevel, tokens: Seq<TokenType>, i: int)
    requires
        0 <= i <= tokens.len(),
    ensures
        moves_forward(spec_binary(level, tokens, i), i, tokens.len() as int),
        i == tokens.len() ==> spec_binary(level, tokens, i).0 is Err,
{
    lemma_binary_bounds(level, tokens, i);
}


/// The parser of one line: the session it reads the tokens from and adds
/// variables to, and the position of the next token.
pub struct SyntaxParser {
    pub index: usize,
    pub session: Session,
}

/// A parser of one kind of expression.
pub trait SyntaxParserTrait {
    /// When the parser may run on a parser state: every token it must
    /// read is there.
    spec fn ready(parser: &SyntaxParser) -> bool;

    fn parse(parser: &mut SyntaxParser) -> (r: AstResult)
        requires
            Self::ready(old(parser)),
    ;
}

/// An assignment reads the token at the position when the line has an `=`.
pub open spec fn assignment_ready(parser: &SyntaxParser) -> bool {
    has_assignment(parser.session.tokens@) ==> parser.index < parser.session.tokens@.len()
}

/// The token at a position, when the line has one there.
pub open spec fn spec_peek(tokens: Seq<TokenType>, i: int) -> Option<TokenType> {
    if 0 <= i < tokens.len() { Some(tokens[i]) } else { None }
}

impl SyntaxParser {
    /// A parser at the first token of the session's line.
    pub fn new(session: Session) -> (r: SyntaxParser)
        ensures
            r.index == 0,
            r.session == session,
    {
        SyntaxParser { index: 0, session }
    }

    pub fn set_index(&mut self, index: usize)
        ensures
            final(self).index == index,
            final(self).session == old(self).session,
    {
        self.index = index;
    }

    pub fn get_index(&self) -> (r: usize)
        ensures
            r == self.index,
    {
        self.index
    }

    /// The token at the current position.
    pub fn peek_token(&self) -> (r: Result<TokenType, ()>)
        ensures
            self.index < self.session.tokens@.len() ==> r == Ok::<TokenType, ()>(self.session.tokens@[self.index as int]),
            self.index >= self.session.tokens@.len() ==> r is Err,
    {
        if self.index < self.session.tokens.len() {
            Ok(self.session.tokens[self.index].duplicate())
        } else {
            Err(())
        }
    }

    /// Moves to the next position and gives the token there.
    pub fn consume_token(&mut self) -> (r: Option<TokenType>)
        requires
            old(self).index < usize::MAX,
        ensures
            final(self).index == old(self).index + 1,
            r == spec_peek(old(self).session.tokens@, old(self).index + 1),
            final(self).session == old(self).session,
    {
        self.index = self.index + 1;
        if self.index < self.session.tokens.len() {
            Some(self.session.tokens[self.index].duplicate())
        } else {
            None
        }
    }

    /// Consumes the current token when it is one of the operators, and
    /// gives the operator.
    fn match_operator(&mut self, operators: &[char]) -> (r: Option<char>)
        ensures
            ({
                let tokens = old(self).session.tokens@;
                let i = old(self).index as int;
                if 0 <= i < tokens.len() && tokens[i] is Operator && operators@.contains(tokens[i]->Operator_0) {
                    r == Some(tokens[i]->Operator_0) && final(self).index == i + 1
                } else {
                    r is None && final(self).index == i
                }
            }),
            final(self).session == old(self).session,
    {
        let mut k: usize = 0;
        while k < operators.len()
            invariant
                k <= operators@.len(),
                *self == *old(self),
                forall|j: int| 0 <= j < k ==> !self.check_operator_spec(#[trigger] operators@[j]),
            decreases operators@.len() - k,
        {
            if self.check_operator(operators[k]) {
                let n = self.session.tokens.len();
                assert(self.index < n);
                self.index = self.index + 1;
                return Some(operators[k]);
            }
            k = k + 1;
        }
        None
    }

    spec fn check_operator_spec(&self, operator: char) -> bool {
        self.index < self.session.tokens@.len() && self.session.tokens@[self.index as int] == TokenType::Operator(operator)
    }

    /// Whether the current token is the given operator.
    fn check_operator(&self, operator: char) -> (r: bool)
        ensures
            r == self.check_operator_spec(operator),
    {
        if self.index < self.session.tokens.len() {
            match &self.session.tokens[self.index] {
                TokenType::Operator(token_operator) => operator == *token_operator,
                _ => false,
            }
        } else {
            false
        }
    }
}


/// Past the end of the line every parser gives the error that no token is
/// left, and stays where it is.
proof fn lemma_beyond_end(tokens: Seq<TokenType>, i: int)
    requires
        i > tokens.len(),
    ensures
        spec_unary(tokens, i) == (Err::<SmartCalcAstType, SyntaxError>(SyntaxError::NoMoreToken), i),
        spec_binary(BinaryLevel::MultiplyDivide, tokens, i) == (Err::<SmartCalcAstType, SyntaxError>(SyntaxError::NoMoreToken), i),
        spec_binary(BinaryLevel::Modulo, tokens, i) == (Err::<SmartCalcAstType, SyntaxError>(SyntaxError::NoMoreToken), i),
        spec_binary(BinaryLevel::AddSubtract, tokens, i) == (Err::<SmartCalcAstType, SyntaxError>(SyntaxError::NoMoreToken), i),
{
    assert(spec_primative(tokens, i) == (Err::<SmartCalcAstType, SyntaxError>(SyntaxError::NoMoreToken), i));
    assert(spec_operand(BinaryLevel::MultiplyDivide, tokens, i) == spec_unary(tokens, i));
    assert(spec_operand(BinaryLevel::Modulo, tokens, i) == spec_binary(BinaryLevel::MultiplyDivide, tokens, i));
    assert(spec_operand(BinaryLevel::AddSubtract, tokens, i) == spec_binary(BinaryLevel::Modulo, tokens, i));
}

/// Whether a result is empty: an error or no tree.
pub fn is_ast_empty(ast: &AstResult) -> (r: bool)
    ensures
        r == spec_is_ast_empty(*ast),
{
    match ast {
        Ok(SmartCalcAstType::Empty) => true,
        Ok(_) => false,
        Err(_) => true,
    }
}

/// An empty tree becomes the given error, a tree becomes an empty tree, and
/// an error stays.
pub fn err_or_message(ast: &AstResult, message: SyntaxError) -> (r: AstResult)
    ensures
        r == spec_err_or_message(*ast, message),
{
    match ast {
        Ok(SmartCalcAstType::Empty) => Err(message),
        Ok(_) => Ok(SmartCalcAstType::Empty),
        Err(e) => Err(*e),
    }
}

/// The operators of a level, in the order they are tried.
fn level_operators(level: BinaryLevel) -> (r: Vec<char>)
    ensures
        forall|c: char| r@.contains(c) <==> is_level_operator(level, c),
{
    let mut r: Vec<char> = Vec::new();
    match level {
        BinaryLevel::MultiplyDivide => {
            r.push('*');
            r.push('/');
        },
        BinaryLevel::Modulo => {
            r.push('%');
        },
        BinaryLevel::AddSubtract => {
            r.push('+');
            r.push('-');
        },
    }
    assert forall|c: char| r@.contains(c) <==> is_level_operator(level, c) by {
        if is_level_operator(level, c) {
            if r@[0] == c {
                assert(r@.contains(c));
            } else {
                assert(r@[1] == c);
                assert(r@.contains(c));
            }
        }
    }
    r
}

/// One operator, as a list.
fn single_operator(c: char) -> (r: Vec<char>)
    ensures
        forall|d: char| r@.contains(d) <==> d == c,
{
    let mut r: Vec<char> = Vec::new();
    r.push(c);
    assert(r@[0] == c);
    r
}

/// The two signs, as a list.
fn sign_operators() -> (r: Vec<char>)
    ensures
        forall|d: char| r@.contains(d) <==> (d == '-' || d == '+'),
{
    let mut r: Vec<char> = Vec::new();
    r.push('-');
    r.push('+');
    assert forall|d: char| r@.contains(d) <==> (d == '-' || d == '+') by {
        if d == '-' {
            assert(r@[0] == d);
        }
        if d == '+' {
            assert(r@[1] == d);
        }
    }
    r
}

/// Parses signed values.
pub struct UnaryParser;

impl UnaryParser {
    /// A sign in front of a value.
    fn parse_prefix_unary(parser: &mut SyntaxParser) -> (r: AstResult)
        ensures
            (r, final(parser).index as int) == spec_prefix_unary(old(parser).session.tokens@, old(parser).index as int),
            final(parser).session == old(parser).session,
    {
        let index_backup = parser.get_index();
        let operators = sign_operators();
        match parser.match_operator(operators.as_slice()) {
            Some(operator) => {
                match parser.peek_token() {
                    Ok(token) => match token {
                        TokenType::Number(double, number_type) => {
                            let value = if operator == '-' { double.negated() } else { double };
                            Ok(SmartCalcAstType::Item(TokenType::Number(value, number_type)))
                        },
                        TokenType::Variable(variable) => Ok(SmartCalcAstType::PrefixUnary(
                            operator,
                            Box::new(SmartCalcAstType::Variable(variable)),
                        )),
                        TokenType::Percent(percent) => Ok(SmartCalcAstType::PrefixUnary(
                            operator,
                            Box::new(SmartCalcAstType::Item(TokenType::Percent(percent))),
                        )),
                        TokenType::Money(money, currency) => Ok(SmartCalcAstType::PrefixUnary(
                            operator,
                            Box::new(SmartCalcAstType::PrefixUnary(
                                operator,
                                Box::new(SmartCalcAstType::Item(TokenType::Money(money, currency))),
                            )),
                        )),
                        _ => {
                            parser.set_index(index_backup);
                            Err(SyntaxError::UnaryWorksWithNumber)
                        },
                    },
                    Err(_) => Ok(SmartCalcAstType::Empty),
                }
            },
            None => Ok(SmartCalcAstType::Empty),
        }
    }

    fn parse_unary(parser: &mut SyntaxParser) -> (r: AstResult)
        ensures
            (r, final(parser).index as int) == spec_unary(old(parser).session.tokens@, old(parser).index as int),
            final(parser).session == old(parser).session,
        decreases old(parser).session.tokens@.len() - old(parser).index, 3int,
    {
        proof {
            if old(parser).index <= old(parser).session.tokens@.len() {
                lemma_prefix_unary_bounds(old(parser).session.tokens@, old(parser).index as int);
            }
        }
        let prefix = Self::parse_prefix_unary(parser);
        let ast = match prefix {
            Ok(SmartCalcAstType::Empty) => PrimativeParser::parse_primative(parser),
            other => other,
        };
        let index_backup = parser.get_index();
        parser.set_index(index_backup);
        ast
    }
}

impl SyntaxParserTrait for UnaryParser {
    open spec fn ready(parser: &SyntaxParser) -> bool {
        true
    }

    fn parse(parser: &mut SyntaxParser) -> (r: AstResult)
        ensures
            (r, final(parser).index as int) == spec_unary(old(parser).session.tokens@, old(parser).index as int),
            final(parser).session == old(parser).session,
    {
        Self::parse_unary(parser)
    }
}

/// Parses parentheses and single values.
pub struct PrimativeParser;

impl PrimativeParser {
    /// A single value.
    pub fn parse_basic_primatives(parser: &mut SyntaxParser) -> (r: AstResult)
        ensures
            (r, final(parser).index as int) == spec_basic_primative(old(parser).session.tokens@, old(parser).index as int),
            final(parser).session == old(parser).session,
    {
        let token = parser.peek_token();
        match token {
            Err(_) => Err(SyntaxError::NoMoreToken),
            Ok(token) => {
                let n = parser.session.tokens.len();
                assert(parser.index < n);
                parser.consume_token();
                match token {
                    TokenType::Timezone(_, _) => Ok(SmartCalcAstType::Empty),
                    TokenType::Text(_) => Ok(SmartCalcAstType::Empty),
                    TokenType::Field(field_type) => Ok(SmartCalcAstType::Field(field_type)),
                    TokenType::Variable(variable) => Ok(SmartCalcAstType::Variable(variable)),
                    TokenType::Operator(_) => Err(SyntaxError::NoMoreToken),
                    TokenType::Month(_) => Err(SyntaxError::NoMoreToken),
                    TokenType::DynamicType(a, b) => Ok(SmartCalcAstType::Item(TokenType::DynamicType(a, b))),
                    TokenType::Money(a, b) => Ok(SmartCalcAstType::Item(TokenType::Money(a, b))),
                    TokenType::Number(a, b) => Ok(SmartCalcAstType::Item(TokenType::Number(a, b))),
                    TokenType::Percent(a) => Ok(SmartCalcAstType::Item(TokenType::Percent(a))),
                    TokenType::Time(a, b) => Ok(SmartCalcAstType::Item(TokenType::Time(a, b))),
                    TokenType::Date(a, b) => Ok(SmartCalcAstType::Item(TokenType::Date(a, b))),
                    TokenType::DateTime(a, b) => Ok(SmartCalcAstType::Item(TokenType::DateTime(a, b))),
                    TokenType::Duration(a) => Ok(SmartCalcAstType::Item(TokenType::Duration(a))),
                }
            },
        }
    }

    /// An expression in parentheses.
    pub fn parse_parenthesis(parser: &mut SyntaxParser) -> (r: AstResult)
        ensures
            (r, final(parser).index as int) == spec_parenthesis(old(parser).session.tokens@, old(parser).index as int),
            final(parser).session == old(parser).session,
        decreases old(parser).session.tokens@.len() - old(parser).index, 1int,
    {
        let index_backup = parser.get_index();
        let open = single_operator('(');
        if parser.match_operator(open.as_slice()).is_some() {
            let ast = parse_binary(parser, BinaryLevel::AddSubtract);
            if is_ast_empty(&ast) {
                parser.set_index(index_backup);
                return err_or_message(&ast, SyntaxError::InvalidExpression);
            }
            let close = single_operator(')');
            if parser.match_operator(close.as_slice()).is_none() {
                parser.set_index(index_backup);
                return Err(SyntaxError::ParenthesesNotClosed);
            }
            return ast;
        }
        parser.set_index(index_backup);
        Ok(SmartCalcAstType::Empty)
    }

    fn parse_primative(parser: &mut SyntaxParser) -> (r: AstResult)
        ensures
            (r, final(parser).index as int) == spec_primative(old(parser).session.tokens@, old(parser).index as int),
            final(parser).session == old(parser).session,
        decreases old(parser).session.tokens@.len() - old(parser).index, 2int,
    {
        let first = Self::parse_parenthesis(parser);
        match first {
            Ok(SmartCalcAstType::Empty) => Self::parse_basic_primatives(parser),
            other => other,
        }
    }
}

impl SyntaxParserTrait for PrimativeParser {
    open spec fn ready(parser: &SyntaxParser) -> bool {
        true
    }

    fn parse(parser: &mut SyntaxParser) -> (r: AstResult)
        ensures
            (r, final(parser).index as int) == spec_primative(old(parser).session.tokens@, old(parser).index as int),
            final(parser).session == old(parser).session,
    {
        Self::parse_primative(parser)
    }
}

fn parse_operand(parser: &mut SyntaxParser, level: BinaryLevel) -> (r: AstResult)
    ensures
        (r, final(parser).index as int) == spec_operand(level, old(parser).session.tokens@, old(parser).index as int),
        final(parser).session == old(parser).session,
    decreases old(parser).session.tokens@.len() - old(parser).index, level_rank(level) - 2,
{
    match level {
        BinaryLevel::MultiplyDivide => UnaryParser::parse_unary(parser),
        BinaryLevel::Modulo => parse_binary(parser, BinaryLevel::MultiplyDivide),
        BinaryLevel::AddSubtract => parse_binary(parser, BinaryLevel::Modulo),
    }
}

/// Operands joined by the operators of a level, grouped from the left.
#[verifier::loop_isolation(false)]
pub fn parse_binary(parser: &mut SyntaxParser, level: BinaryLevel) -> (r: AstResult)
    ensures
        (r, final(parser).index as int) == spec_binary(level, old(parser).session.tokens@, old(parser).index as int),
        final(parser).session == old(parser).session,
    decreases old(parser).session.tokens@.len() - old(parser).index, level_rank(level),
{
    let ghost tokens = old(parser).session.tokens@;
    let ghost i0 = old(parser).index as int;
    proof {
        if i0 <= tokens.len() {
            lemma_operand_bounds(level, tokens, i0);
        } else {
            lemma_beyond_end(tokens, i0);
        }
    }
    let first = parse_operand(parser, level);
    let mut left = match first {
        Ok(SmartCalcAstType::Empty) => return Ok(SmartCalcAstType::Empty),
        Ok(ast) => ast,
        Err(e) => return Err(e),
    };
    loop
        invariant
            parser.session == old(parser).session,
            i0 < parser.index <= tokens.len(),
            spec_binary(level, tokens, i0) == spec_binary_loop(level, tokens, left, parser.index as int),
        decreases tokens.len() - parser.index,
    {
        let index_backup = parser.get_index();
        let operators = level_operators(level);
        match parser.match_operator(operators.as_slice()) {
            Some(operator) => {
                loop
                    invariant
                        parser.session == old(parser).session,
                        index_backup < parser.index <= tokens.len(),
                        spec_binary(level, tokens, i0) == spec_binary_right(level, tokens, left, operator, parser.index as int),
                    decreases tokens.len() - parser.index,
                {
                    let before = parser.get_index();
                    proof {
                        lemma_operand_bounds(level, tokens, before as int);
                    }
                    let right = parse_operand(parser, level);
                    match right {
                        Ok(SmartCalcAstType::Empty) => {},
                        Ok(right_ast) => {
                            left = SmartCalcAstType::Binary { left: Box::new(left), operator, right: Box::new(right_ast) };
                            break;
                        },
                        Err(e) => return Err(e),
                    }
                }
            },
            None => {
                parser.set_index(index_backup);
                break;
            },
        }
    }
    Ok(left)
}

/// Products and quotients.
pub struct MultiplyDivideParser;

/// Remainders.
pub struct ModuloParser;

/// Sums and differences.
pub struct AddSubtractParser;

impl SyntaxParserTrait for MultiplyDivideParser {
    open spec fn ready(parser: &SyntaxParser) -> bool {
        true
    }

    fn parse(parser: &mut SyntaxParser) -> (r: AstResult)
        ensures
            (r, final(parser).index as int) == spec_binary(BinaryLevel::MultiplyDivide, old(parser).session.tokens@, old(parser).index as int),
            final(parser).session == old(parser).session,
    {
        parse_binary(parser, BinaryLevel::MultiplyDivide)
    }
}

impl SyntaxParserTrait for ModuloParser {
    open spec fn ready(parser: &SyntaxParser) -> bool {
        true
    }

    fn parse(parser: &mut SyntaxParser) -> (r: AstResult)
        ensures
            (r, final(parser).index as int) == spec_binary(BinaryLevel::Modulo, old(parser).session.tokens@, old(parser).index as int),
            final(parser).session == old(parser).session,
    {
        parse_binary(parser, BinaryLevel::Modulo)
    }
}

impl SyntaxParserTrait for AddSubtractParser {
    open spec fn ready(parser: &SyntaxParser) -> bool {
        true
    }

    fn parse(parser: &mut SyntaxParser) -> (r: AstResult)
        ensures
            (r, final(parser).index as int) == spec_binary(BinaryLevel::AddSubtract, old(parser).session.tokens@, old(parser).index as int),
            final(parser).session == old(parser).session,
    {
        parse_binary(parser, BinaryLevel::AddSubtract)
    }
}


/// Whether the line has an `=` token.
pub open spec fn has_assignment(tokens: Seq<TokenType>) -> bool {
    exists|k: int| 0 <= k < tokens.len() && tokens[k] == TokenType::Operator('=')
}

/// The first `=` token at or after position `k`, or the length of the line.
pub open spec fn spec_first_assign_from(tokens: Seq<TokenType>, k: int) -> int
    decreases tokens.len() - k,
{
    if k < 0 || k >= tokens.len() {
        tokens.len() as int
    } else if tokens[k] == TokenType::Operator('=') {
        k
    } else {
        spec_first_assign_from(tokens, k + 1)
    }
}

/// What a token adds to the name of a variable: its text in lower case;
/// an operator adds nothing.
pub open spec fn spec_name_piece(t: TokenType) -> Seq<char> {
    if t is Operator {
        Seq::empty()
    } else {
        spec_lowercase(spec_token_display(t))
    }
}

/// The name pieces of the tokens at `from..to`, one after another.
pub open spec fn spec_name_pieces(tokens: Seq<TokenType>, from: int, to: int) -> Seq<char>
    decreases to - from,
{
    if from >= to {
        Seq::empty()
    } else {
        spec_name_pieces(tokens, from, to - 1) + spec_name_piece(tokens[to - 1])
    }
}

/// The name an assignment at `i` gives its variable: the first token's text
/// in lower case, then the pieces of the tokens up to the next `=`.
pub open spec fn spec_variable_name(tokens: Seq<TokenType>, i: int) -> Seq<char> {
    spec_lowercase(spec_token_display(tokens[i]))
        + spec_name_pieces(tokens, i + 1, spec_first_assign_from(tokens, i + 1))
}

/// Where the expression of an assignment at `i` starts: after the next `=`,
/// or at the end of the line when there is none.
pub open spec fn spec_assigned_expression_index(tokens: Seq<TokenType>, i: int) -> int {
    let e = spec_first_assign_from(tokens, i + 1);
    if e < tokens.len() { e + 1 } else { tokens.len() as int }
}

/// The first variable with the given name.
pub open spec fn spec_find_variable(vars: Seq<VariableInfo>, name: Seq<char>) -> Option<int>
    decreases vars.len(),
{
    if vars.len() == 0 {
        None
    } else {
        match spec_find_variable(vars.drop_last(), name) {
            Some(k) => Some(k),
            None => if vars.last().name@ == name { Some(vars.len() - 1) } else { None },
        }
    }
}

proof fn lemma_first_assign_from_bounds(tokens: Seq<TokenType>, k: int)
    requires
        0 <= k <= tokens.len(),
    ensures
        k <= spec_first_assign_from(tokens, k) <= tokens.len(),
        spec_first_assign_from(tokens, k) < tokens.len()
            ==> tokens[spec_first_assign_from(tokens, k)] == TokenType::Operator('='),
        forall|m: int| k <= m < spec_first_assign_from(tokens, k) ==> #[trigger] tokens[m] != TokenType::Operator('='),
    decreases tokens.len() - k,
{
    if k < tokens.len() && tokens[k] != TokenType::Operator('=') {
        lemma_first_assign_from_bounds(tokens, k + 1);
    }
}

/// The expression of an assignment, parsed from just after its `=`, and
/// where its parse stopped.
pub open spec fn spec_assigned_expression(parser: SyntaxParser) -> Parsed {
    let tokens = parser.session.tokens@;
    spec_binary(BinaryLevel::AddSubtract, tokens, spec_assigned_expression_index(tokens, parser.index as int))
}

/// An assignment whose expression parsed to a tree: a variable of the same
/// name is assigned anew; otherwise a variable is added at the end of the
/// list, named by the tokens before the `=`, which it keeps as its
/// definition. The parser stops where the expression stopped.
pub open spec fn spec_assignment_made(before: SyntaxParser, after: SyntaxParser, r: AstResult) -> bool {
    let tokens = before.session.tokens@;
    let i = before.index as int;
    let vars = before.session.variables@;
    let x = spec_assigned_expression_index(tokens, i);
    let (e, j) = spec_assigned_expression(before);
    let name = spec_variable_name(tokens, i);
    &&& after.index == j
    &&& match spec_find_variable(vars, name) {
        Some(k) => {
            &&& r == Ok::<SmartCalcAstType, SyntaxError>(SmartCalcAstType::Assignment {
                index: vars[k].index,
                expression: Box::new(e->Ok_0),
            })
            &&& after.session == before.session
        },
        None => {
            let added = after.session.variables@.last();
            &&& r == Ok::<SmartCalcAstType, SyntaxError>(SmartCalcAstType::Assignment {
                index: vars.len() as usize,
                expression: Box::new(e->Ok_0),
            })
            &&& after.session.variables@.len() == vars.len() + 1
            &&& after.session.variables@.drop_last() == vars
            &&& added.index == vars.len()
            &&& added.name@ == name
            &&& added.tokens@ == tokens.subrange(i, x - 1)
            &&& after.session.tokens == before.session.tokens
            &&& after.session.token_infos == before.session.token_infos
            &&& after.session.text == before.session.text
            &&& after.session.text_parts == before.session.text_parts
            &&& after.session.language == before.session.language
            &&& after.session.position == before.session.position
        },
    }
}

/// Parses an assignment: the tokens up to the `=` name a variable, the
/// expression after it is its value.
pub struct AssignmentParser;

impl AssignmentParser {
    fn find_variable(session: &Session, name: &String) -> (r: Option<usize>)
        ensures
            r matches Some(k) ==> spec_find_variable(session.variables@, name@) == Some(k as int)
                && k < session.variables@.len(),
            r is None ==> spec_find_variable(session.variables@, name@) is None,
    {
        let mut k: usize = 0;
        while k < session.variables.len()
            invariant
                k <= session.variables@.len(),
                spec_find_variable(session.variables@.take(k as int), name@) is None,
            decreases session.variables@.len() - k,
        {
            assert(session.variables@.take(k + 1).drop_last() =~= session.variables@.take(k as int));
            if text_eq(session.variables[k].name.as_str(), name.as_str()) {
                proof {
                    lemma_find_variable_prefix(session.variables@, name@, k + 1, session.variables@.len() as int);
                    assert(session.variables@.take(session.variables@.len() as int) =~= session.variables@);
                }
                return Some(k);
            }
            k = k + 1;
        }
        assert(session.variables@.take(k as int) =~= session.variables@);
        None
    }

    fn has_assignment_token(parser: &SyntaxParser) -> (r: bool)
        ensures
            r == has_assignment(parser.session.tokens@),
    {
        let mut k: usize = 0;
        while k < parser.session.tokens.len()
            invariant
                k <= parser.session.tokens@.len(),
                forall|m: int| 0 <= m < k ==> #[trigger] parser.session.tokens@[m] != TokenType::Operator('='),
            decreases parser.session.tokens@.len() - k,
        {
            let hit = match &parser.session.tokens[k] {
                TokenType::Operator(c) => *c == '=',
                _ => false,
            };
            if hit {
                return true;
            }
            k = k + 1;
        }
        false
    }

    /// The tokens at `start..end`.
    fn copy_tokens(tokens: &Vec<TokenType>, start: usize, end: usize) -> (r: Vec<TokenType>)
        requires
            start <= end <= tokens@.len(),
        ensures
            r@ == tokens@.subrange(start as int, end as int),
    {
        let mut r: Vec<TokenType> = Vec::new();
        let mut k: usize = start;
        while k < end
            invariant
                start <= k <= end,
                end <= tokens@.len(),
                r@ == tokens@.subrange(start as int, k as int),
            decreases end - k,
        {
            r.push(tokens[k].duplicate());
            k = k + 1;
            assert(r@ =~= tokens@.subrange(start as int, k as int));
        }
        r
    }
}

proof fn lemma_find_variable_prefix(vars: Seq<VariableInfo>, name: Seq<char>, n: int, m: int)
    requires
        0 < n <= m <= vars.len(),
        spec_find_variable(vars.take(n - 1), name) is None,
        vars[n - 1].name@ == name,
    ensures
        spec_find_variable(vars.take(m), name) == Some(n - 1),
    decreases m,
{
    assert(vars.take(m).drop_last() =~= vars.take(m - 1));
    if m > n {
        lemma_find_variable_prefix(vars, name, n, m - 1);
    }
}

/// The variable found by name is one of the list.
pub proof fn lemma_find_variable_bound(vars: Seq<VariableInfo>, name: Seq<char>)
    ensures
        spec_find_variable(vars, name) matches Some(k) ==> 0 <= k < vars.len() && vars[k].name@ == name,
    decreases vars.len(),
{
    if vars.len() > 0 {
        lemma_find_variable_bound(vars.drop_last(), name);
    }
}

impl SyntaxParserTrait for AssignmentParser {
    open spec fn ready(parser: &SyntaxParser) -> bool {
        assignment_ready(parser)
    }

    #[verifier::loop_isolation(false)]
    fn parse(parser: &mut SyntaxParser) -> (r: AstResult)
        ensures
            !has_assignment(old(parser).session.tokens@) ==> {
                &&& r == Ok::<SmartCalcAstType, SyntaxError>(SmartCalcAstType::Empty)
                &&& *final(parser) == *old(parser)
            },
            has_assignment(old(parser).session.tokens@) && !spec_is_tree(spec_assigned_expression(*old(parser)).0) ==> {
                &&& r == spec_assigned_expression(*old(parser)).0
                &&& final(parser).index == spec_assigned_expression(*old(parser)).1
                &&& final(parser).session == old(parser).session
            },
            has_assignment(old(parser).session.tokens@) && spec_is_tree(spec_assigned_expression(*old(parser)).0)
                ==> spec_assignment_made(*old(parser), *final(parser), r),
            variables_ok(old(parser).session.variables@)
                && (forall|k: int| 0 <= k < old(parser).session.tokens@.len()
                    ==> token_ok_in_line(#[trigger] old(parser).session.tokens@[k], old(parser).session.variables@.len() as int))
                ==> variables_ok(final(parser).session.variables@),
    {
        let ghost tokens = old(parser).session.tokens@;
        let ghost i = old(parser).index as int;
        let index_backup = parser.get_index();
        if !Self::has_assignment_token(parser) {
            parser.set_index(index_backup);
            return Ok(SmartCalcAstType::Empty);
        }
        let start = parser.get_index();
        let first_text = parser.session.tokens[start].display();
        let mut variable_name = to_lowercase(first_text.as_str());
        proof {
            lemma_first_assign_from_bounds(tokens, i + 1);
        }
        let ghost e = spec_first_assign_from(tokens, i + 1);
        loop
            invariant
                parser.session == old(parser).session,
                i <= parser.index < e,
                variable_name@ == spec_lowercase(spec_token_display(tokens[i]))
                    + spec_name_pieces(tokens, i + 1, parser.index + 1),
            decreases tokens.len() - parser.index,
        {
            let n = parser.session.tokens.len();
            let token = parser.consume_token();
            match token {
                Some(TokenType::Operator(operator)) => {
                    if operator == '=' {
                        assert(parser.index == e);
                        parser.consume_token();
                        break;
                    }
                    assert(spec_name_pieces(tokens, i + 1, parser.index + 1)
                        =~= spec_name_pieces(tokens, i + 1, parser.index as int));
                },
                Some(other) => {
                    let piece_text = other.display();
                    let piece = to_lowercase(piece_text.as_str());
                    append_str(&mut variable_name, piece.as_str());
                    assert(variable_name@ =~= spec_lowercase(spec_token_display(tokens[i]))
                        + spec_name_pieces(tokens, i + 1, parser.index + 1));
                },
                None => {
                    assert(parser.index == e);
                    break;
                },
            }
        }
        assert(variable_name@ == spec_variable_name(tokens, i));
        let end = parser.get_index() - 1;
        proof {
            lemma_binary_moves_forward(BinaryLevel::AddSubtract, tokens, parser.index as int);
        }
        let expression = parse_binary(parser, BinaryLevel::AddSubtract);
        let ast = match expression {
            Ok(SmartCalcAstType::Empty) => return expression,
            Ok(ast) => ast,
            Err(_) => return expression,
        };
        match Self::find_variable(&parser.session, &variable_name) {
            Some(k) => {
                let index = parser.session.variables[k].index;
                Ok(SmartCalcAstType::Assignment { index, expression: Box::new(ast) })
            },
            None => {
                let index = parser.session.variables.len();
                let variable_tokens = Self::copy_tokens(&parser.session.tokens, start, end);
                let ghost vars = parser.session.variables@;
                parser.session.add_variable(VariableInfo { index, name: variable_name, tokens: variable_tokens });
                assert(parser.session.variables@.drop_last() =~= vars);
                Ok(SmartCalcAstType::Assignment { index, expression: Box::new(ast) })
            },
        }
    }
}

/// Parses a statement: an assignment.
pub struct StatementParser;

impl SyntaxParserTrait for StatementParser {
    open spec fn ready(parser: &SyntaxParser) -> bool {
        assignment_ready(parser)
    }

    fn parse(parser: &mut SyntaxParser) -> (r: AstResult)
        ensures
            !has_assignment(old(parser).session.tokens@) ==> {
                &&& r == Ok::<SmartCalcAstType, SyntaxError>(SmartCalcAstType::Empty)
                &&& *final(parser) == *old(parser)
            },
            has_assignment(old(parser).session.tokens@) && !spec_is_tree(spec_assigned_expression(*old(parser)).0) ==> {
                &&& r == spec_assigned_expression(*old(parser)).0
                &&& final(parser).index == spec_assigned_expression(*old(parser)).1
                &&& final(parser).session == old(parser).session
            },
            has_assignment(old(parser).session.tokens@) && spec_is_tree(spec_assigned_expression(*old(parser)).0)
                ==> spec_assignment_made(*old(parser), *final(parser), r),
    {
        AssignmentParser::parse(parser)
    }
}

impl SyntaxParser {
    /// Parses the line: an assignment, or else an expression. When an
    /// assignment's expression is empty, the expression is parsed again from
    /// where that parse stopped.
    pub fn parse(&mut self) -> (r: AstResult)
        requires
            assignment_ready(old(self)),
        ensures
            !has_assignment(old(self).session.tokens@) ==> {
                &&& (r, final(self).index as int) == spec_binary(BinaryLevel::AddSubtract, old(self).session.tokens@, old(self).index as int)
                &&& final(self).session == old(self).session
            },
            has_assignment(old(self).session.tokens@) && spec_assigned_expression(*old(self)).0 == Ok::<SmartCalcAstType, SyntaxError>(SmartCalcAstType::Empty) ==> {
                &&& (r, final(self).index as int) == spec_binary(BinaryLevel::AddSubtract, old(self).session.tokens@, spec_assigned_expression(*old(self)).1)
                &&& final(self).session == old(self).session
            },
            has_assignment(old(self).session.tokens@) && spec_assigned_expression(*old(self)).0 is Err ==> {
                &&& r == spec_assigned_expression(*old(self)).0
                &&& final(self).index == spec_assigned_expression(*old(self)).1
                &&& final(self).session == old(self).session
            },
            has_assignment(old(self).session.tokens@) && spec_is_tree(spec_assigned_expression(*old(self)).0)
                ==> spec_assignment_made(*old(self), *final(self), r),
    {
        let first = AssignmentParser::parse(self);
        match first {
            Ok(SmartCalcAstType::Empty) => AddSubtractParser::parse(self),
            other => other,
        }
    }
}

} // verus!
