//! The interpreter of syntax trees: the order in which a tree is worked
//! out, as a program of steps, and what each operator does with the kinds
//! of its operands. Working out a value itself is left to the caller.
use vstd::prelude::*;
use crate::types::{TokenType, VariableRef, spec_negated};
use crate::syntax::{SmartCalcAstType, SyntaxError, spec_prefix_unary};
use crate::text::{push_char, append_str};

verus! {

/// The four calculations on two values.
#[derive(Clone, Copy, Debug, PartialEq, Eq, Structural)]
pub enum OperationType {
    Add,
    Div,
    Mul,
    Sub,
}

/// The two signs in front of a value.
#[derive(Clone, Copy, Debug, PartialEq, Eq, Structural)]
pub enum UnaryType {
    Plus,
    Minus,
}

/// Why a tree could not be worked out.
#[derive(Clone, Copy, Debug, PartialEq, Eq, Structural)]
pub enum InterpretError {
    UnknownCalculation,
    UnknownOperator(char),
    UnknownCalculationResult,
    SyntaxError,
}

impl InterpretError {
    /// The message shown for the error.
    pub fn message(&self) -> (r: String)
        ensures
            *self == InterpretError::UnknownCalculation ==> r@ == "Unknown calculation"@,
            *self == InterpretError::UnknownCalculationResult ==> r@ == "Uknown calculation result"@,
            *self == InterpretError::SyntaxError ==> r@ == "Syntax error"@,
            *self matches InterpretError::UnknownOperator(c) ==> r@ == "Unknown operator. ("@ + seq![c] + ")"@,
    {
        match self {
            InterpretError::UnknownCalculation => String::from_str("Unknown calculation"),
            InterpretError::UnknownCalculationResult => String::from_str("Uknown calculation result"),
            InterpretError::SyntaxError => String::from_str("Syntax error"),
            InterpretError::UnknownOperator(c) => {
                let mut r = String::from_str("Unknown operator. (");
                push_char(&mut r, *c);
                append_str(&mut r, ")");
                r
            },
        }
    }
}

/// One step of working out a tree.
#[derive(Debug)]
pub enum Instruction {
    /// A value read from a token.
    Item(TokenType),
    /// A month.
    Month(u32),
    /// No value.
    Empty,
    /// The value of a variable.
    Variable(VariableRef),
    /// A sign applied to the last value.
    Unary(char),
    /// An operator applied to the last two values.
    Binary(char),
    /// The last value becomes the value of the variable at this place.
    Store(usize),
}

/// The steps that work out a tree: operands first, left before right, then
/// the operator; an assignment's expression, then the store. Fields and
/// words give no value.
pub open spec fn spec_program(ast: SmartCalcAstType) -> Seq<Instruction>
    decreases ast,
{
    match ast {
        SmartCalcAstType::Binary { left, operator, right } => spec_program(*left) + spec_program(*right)
            + seq![Instruction::Binary(operator)],
        SmartCalcAstType::Assignment { index, expression } => spec_program(*expression) + seq![Instruction::Store(index)],
        SmartCalcAstType::Variable(v) => seq![Instruction::Variable(v)],
        SmartCalcAstType::Item(t) => seq![Instruction::Item(t)],
        SmartCalcAstType::Month(m) => seq![Instruction::Month(m)],
        SmartCalcAstType::PrefixUnary(c, a) => spec_program(*a) + seq![Instruction::Unary(c)],
        SmartCalcAstType::Empty => seq![Instruction::Empty],
        SmartCalcAstType::Field(_) => seq![Instruction::Empty],
        SmartCalcAstType::Symbol(_) => seq![Instruction::Empty],
    }
}

/// What a sign does with a value: `+` keeps it, `-` negates an item;
/// anything else is a syntax error.
pub open spec fn spec_unary_decision(operator: char, is_item: bool) -> Result<Option<UnaryType>, InterpretError> {
    if operator == '+' {
        Ok(None)
    } else if operator == '-' {
        if is_item { Ok(Some(UnaryType::Minus)) } else { Err(InterpretError::SyntaxError) }
    } else {
        Err(InterpretError::SyntaxError)
    }
}

/// What an operator does with two values: with two items, one of the four
/// calculations; with one item, an unknown calculation; with none, an
/// unknown result. An operator other than `+ - * /` between two items is
/// unknown.
pub open spec fn spec_binary_decision(operator: char, left_is_item: bool, right_is_item: bool) -> Result<OperationType, InterpretError> {
    if !left_is_item && !right_is_item {
        Err(InterpretError::UnknownCalculationResult)
    } else if !left_is_item || !right_is_item {
        Err(InterpretError::UnknownCalculation)
    } else if operator == '+' {
        Ok(OperationType::Add)
    } else if operator == '-' {
        Ok(OperationType::Sub)
    } else if operator == '*' {
        Ok(OperationType::Mul)
    } else if operator == '/' {
        Ok(OperationType::Div)
    } else {
        Err(InterpretError::UnknownOperator(operator))
    }
}

/// The operator character that names a calculation.
pub open spec fn spec_operation_symbol(op: OperationType) -> char {
    match op {
        OperationType::Add => '+',
        OperationType::Sub => '-',
        OperationType::Mul => '*',
        OperationType::Div => '/',
    }
}

/// Between two items an operator is worked out by the calculation it
/// names, and any of `+`, `-`, `*` and `/` is worked out; where either side
/// is not an item, nothing is calculated.
pub proof fn lemma_binary_decision_names_the_calculation(operator: char, left_is_item: bool, right_is_item: bool)
    ensures
        left_is_item && right_is_item ==> (spec_binary_decision(operator, left_is_item, right_is_item) matches Ok(op)
            ==> spec_operation_symbol(op) == operator),
        left_is_item && right_is_item && (operator == '+' || operator == '-' || operator == '*' || operator == '/')
            ==> spec_binary_decision(operator, left_is_item, right_is_item) is Ok,
        !left_is_item && !right_is_item ==> spec_binary_decision(operator, left_is_item, right_is_item)
            == Err::<OperationType, InterpretError>(InterpretError::UnknownCalculationResult),
        left_is_item != right_is_item ==> spec_binary_decision(operator, left_is_item, right_is_item)
            == Err::<OperationType, InterpretError>(InterpretError::UnknownCalculation),
        left_is_item && right_is_item && !(operator == '+' || operator == '-' || operator == '*' || operator == '/')
            ==> spec_binary_decision(operator, left_is_item, right_is_item)
            == Err::<OperationType, InterpretError>(InterpretError::UnknownOperator(operator)),
{
}

/// A sign consumed in front of a variable or a percentage is applied to it:
/// the tree made for the sign and the value works out to the sign applied
/// to the value, under any way of working out values; a number takes a
/// `-` sign into itself.
pub proof fn lemma_prefix_sign_applies<V, E>(sem: Semantics<V, E>, tokens: Seq<TokenType>, i: int, sign: char)
    requires
        0 <= i,
        i + 1 < tokens.len(),
        sign == '-' || sign == '+',
        tokens[i] == TokenType::Operator(sign),
    ensures
        tokens[i + 1] matches TokenType::Variable(v) ==> {
            &&& spec_prefix_unary(tokens, i).0 matches Ok(tree)
            &&& spec_eval(sem, tree) == (sem.unary)(sign, (sem.variable)(v))
        },
        tokens[i + 1] matches TokenType::Percent(p) ==> {
            &&& spec_prefix_unary(tokens, i).0 matches Ok(tree)
            &&& spec_eval(sem, tree) == (sem.unary)(sign, (sem.item)(TokenType::Percent(p)))
        },
        tokens[i + 1] matches TokenType::Number(v, kind) ==> {
            &&& spec_prefix_unary(tokens, i).0 matches Ok(tree)
            &&& spec_eval(sem, tree) == Ok::<V, E>((sem.item)(TokenType::Number(if sign == '-' { spec_negated(v) } else { v }, kind)))
        },
        tokens[i + 1] matches TokenType::Money(m, c) ==> {
            &&& spec_prefix_unary(tokens, i).0 matches Ok(tree)
            &&& spec_eval(sem, tree) == match (sem.unary)(sign, (sem.item)(TokenType::Money(m, c))) {
                Ok(once) => (sem.unary)(sign, once),
                Err(e) => Err(e),
            }
        },
        !(tokens[i + 1] is Variable || tokens[i + 1] is Percent || tokens[i + 1] is Number || tokens[i + 1] is Money)
            ==> spec_prefix_unary(tokens, i) == (Err::<SmartCalcAstType, SyntaxError>(SyntaxError::UnaryWorksWithNumber), i),
        spec_prefix_unary(tokens, i).1 == i + 1 || spec_prefix_unary(tokens, i).0 is Err,
{
    match tokens[i + 1] {
        TokenType::Variable(v) => {
            assert(spec_eval(sem, SmartCalcAstType::Variable(v)) == Ok::<V, E>((sem.variable)(v)));
        },
        TokenType::Percent(p) => {
            assert(spec_eval(sem, SmartCalcAstType::Item(TokenType::Percent(p))) == Ok::<V, E>((sem.item)(TokenType::Percent(p))));
        },
        TokenType::Money(m, c) => {
            let item = SmartCalcAstType::Item(TokenType::Money(m, c));
            assert(spec_eval(sem, item) == Ok::<V, E>((sem.item)(TokenType::Money(m, c))));
            assert(spec_eval(sem, SmartCalcAstType::PrefixUnary(sign, Box::new(item)))
                == (sem.unary)(sign, (sem.item)(TokenType::Money(m, c))));
        },
        _ => {},
    }
}

/// Works out syntax trees.
pub struct Interpreter;

impl Interpreter {
    /// The steps that work out a tree.
    pub fn compile(ast: &SmartCalcAstType) -> (r: Vec<Instruction>)
        ensures
            r@ == spec_program(*ast),
        decreases ast,
    {
        match ast {
            SmartCalcAstType::Binary { left, operator, right } => {
                let mut r = Self::compile(left);
                let mut right_steps = Self::compile(right);
                r.append(&mut right_steps);
                r.push(Instruction::Binary(*operator));
                r
            },
            SmartCalcAstType::Assignment { index, expression } => {
                let mut r = Self::compile(expression);
                r.push(Instruction::Store(*index));
                r
            },
            SmartCalcAstType::Variable(v) => {
                let mut r = Vec::new();
                r.push(Instruction::Variable(v.duplicate()));
                assert(r@ =~= spec_program(*ast));
                r
            },
            SmartCalcAstType::Item(t) => {
                let mut r = Vec::new();
                r.push(Instruction::Item(t.duplicate()));
                assert(r@ =~= spec_program(*ast));
                r
            },
            SmartCalcAstType::Month(m) => {
                let mut r = Vec::new();
                r.push(Instruction::Month(*m));
                assert(r@ =~= spec_program(*ast));
                r
            },
            SmartCalcAstType::PrefixUnary(c, a) => {
                let mut r = Self::compile(a);
                r.push(Instruction::Unary(*c));
                r
            },
            _ => {
                let mut r = Vec::new();
                r.push(Instruction::Empty);
                assert(r@ =~= spec_program(*ast));
                r
            },
        }
    }

    /// What a sign does with a value that is an item or not: nothing,
    /// a negation, or an error.
    pub fn unary_decision(operator: char, is_item: bool) -> (r: Result<Option<UnaryType>, InterpretError>)
        ensures
            r == spec_unary_decision(operator, is_item),
    {
        match operator {
            '+' => Ok(None),
            '-' => if is_item { Ok(Some(UnaryType::Minus)) } else { Err(InterpretError::SyntaxError) },
            _ => Err(InterpretError::SyntaxError),
        }
    }

    /// What an operator does with two values that are items or not.
    pub fn binary_decision(operator: char, left_is_item: bool, right_is_item: bool) -> (r: Result<OperationType, InterpretError>)
        ensures
            r == spec_binary_decision(operator, left_is_item, right_is_item),
    {
        if !left_is_item && !right_is_item {
            return Err(InterpretError::UnknownCalculationResult);
        }
        if !left_is_item || !right_is_item {
            return Err(InterpretError::UnknownCalculation);
        }
        match operator {
            '+' => Ok(OperationType::Add),
            '-' => Ok(OperationType::Sub),
            '*' => Ok(OperationType::Mul),
            '/' => Ok(OperationType::Div),
            _ => Err(InterpretError::UnknownOperator(operator)),
        }
    }
}

/// How values are worked out: what a token, a month, no value and a
/// variable are, and what a sign, an operator and a store do.
#[verifier::reject_recursive_types(V)]
#[verifier::reject_recursive_types(E)]
pub struct Semantics<V, E> {
    pub item: spec_fn(TokenType) -> V,
    pub month: spec_fn(u32) -> V,
    pub empty: V,
    pub variable: spec_fn(VariableRef) -> V,
    pub unary: spec_fn(char, V) -> Result<V, E>,
    pub binary: spec_fn(char, V, V) -> Result<V, E>,
    pub store: spec_fn(usize, V) -> V,
}

/// The value of a tree, worked out from its leaves; the first error stops it.
pub open spec fn spec_eval<V, E>(sem: Semantics<V, E>, ast: SmartCalcAstType) -> Result<V, E>
    decreases ast,
{
    match ast {
        SmartCalcAstType::Binary { left, operator, right } => match spec_eval(sem, *left) {
            Err(e) => Err(e),
            Ok(l) => match spec_eval(sem, *right) {
                Err(e) => Err(e),
                Ok(r) => (sem.binary)(operator, l, r),
            },
        },
        SmartCalcAstType::Assignment { index, expression } => match spec_eval(sem, *expression) {
            Err(e) => Err(e),
            Ok(v) => Ok((sem.store)(index, v)),
        },
        SmartCalcAstType::Variable(v) => Ok((sem.variable)(v)),
        SmartCalcAstType::Item(t) => Ok((sem.item)(t)),
        SmartCalcAstType::Month(m) => Ok((sem.month)(m)),
        SmartCalcAstType::PrefixUnary(c, a) => match spec_eval(sem, *a) {
            Err(e) => Err(e),
            Ok(v) => (sem.unary)(c, v),
        },
        _ => Ok(sem.empty),
    }
}

/// One step on a stack of values.
pub open spec fn spec_step<V, E>(sem: Semantics<V, E>, ins: Instruction, stack: Seq<V>) -> Result<Seq<V>, E> {
    match ins {
        Instruction::Item(t) => Ok(stack.push((sem.item)(t))),
        Instruction::Month(m) => Ok(stack.push((sem.month)(m))),
        Instruction::Empty => Ok(stack.push(sem.empty)),
        Instruction::Variable(v) => Ok(stack.push((sem.variable)(v))),
        Instruction::Unary(c) => if stack.len() >= 1 {
            match (sem.unary)(c, stack.last()) {
                Ok(v) => Ok(stack.drop_last().push(v)),
                Err(e) => Err(e),
            }
        } else {
            Ok(stack)
        },
        Instruction::Binary(c) => if stack.len() >= 2 {
            match (sem.binary)(c, stack[stack.len() - 2], stack.last()) {
                Ok(v) => Ok(stack.drop_last().drop_last().push(v)),
                Err(e) => Err(e),
            }
        } else {
            Ok(stack)
        },
        Instruction::Store(i) => if stack.len() >= 1 {
            Ok(stack.drop_last().push((sem.store)(i, stack.last())))
        } else {
            Ok(stack)
        },
    }
}

/// The steps run one after another on a stack; the first error stops them.
pub open spec fn spec_run<V, E>(sem: Semantics<V, E>, program: Seq<Instruction>, stack: Seq<V>) -> Result<Seq<V>, E>
    decreases program.len(),
{
    if program.len() == 0 {
        Ok(stack)
    } else {
        match spec_step(sem, program[0], stack) {
            Err(e) => Err(e),
            Ok(next) => spec_run(sem, program.drop_first(), next),
        }
    }
}

proof fn lemma_run_append<V, E>(sem: Semantics<V, E>, a: Seq<Instruction>, b: Seq<Instruction>, stack: Seq<V>)
    ensures
        spec_run(sem, a + b, stack) == match spec_run(sem, a, stack) {
            Err(e) => Err(e),
            Ok(mid) => spec_run(sem, b, mid),
        },
    decreases a.len(),
{
    if a.len() > 0 {
        assert((a + b).drop_first() =~= a.drop_first() + b);
        assert((a + b)[0] == a[0]);
        match spec_step(sem, a[0], stack) {
            Err(e) => {},
            Ok(next) => lemma_run_append(sem, a.drop_first(), b, next),
        }
    } else {
        assert(a + b =~= b);
    }
}

/// Running the steps of a tree on a stack pushes the tree's value on it,
/// or stops with the tree's error; the stack below is left as it was.
pub proof fn lemma_program_evaluates<V, E>(sem: Semantics<V, E>, ast: SmartCalcAstType, stack: Seq<V>)
    ensures
        spec_run(sem, spec_program(ast), stack) == match spec_eval(sem, ast) {
            Err(e) => Err(e),
            Ok(v) => Ok(stack.push(v)),
        },
    decreases ast,
{
    reveal_with_fuel(spec_run, 2);
    match ast {
        SmartCalcAstType::Binary { left, operator, right } => {
            let pl = spec_program(*left);
            let pr = spec_program(*right);
            let last = seq![Instruction::Binary(operator)];
            assert(spec_program(ast) == (pl + pr) + last);
            lemma_run_append(sem, pl + pr, last, stack);
            lemma_run_append(sem, pl, pr, stack);
            lemma_program_evaluates(sem, *left, stack);
            match spec_eval(sem, *left) {
                Err(e) => {
                    assert(spec_run(sem, pl + pr, stack) == Err::<Seq<V>, E>(e));
                    assert(spec_eval(sem, ast) == Err::<V, E>(e));
                    assert(spec_run(sem, spec_program(ast), stack) == Err::<Seq<V>, E>(e));
                },
                Ok(l) => {
                    lemma_program_evaluates(sem, *right, stack.push(l));
                    match spec_eval(sem, *right) {
                        Err(e) => {
                            assert(spec_run(sem, pl + pr, stack) == Err::<Seq<V>, E>(e));
                            assert(spec_eval(sem, ast) == Err::<V, E>(e));
                            assert(spec_run(sem, spec_program(ast), stack) == Err::<Seq<V>, E>(e));
                        },
                        Ok(r) => {
                            let st = stack.push(l).push(r);
                            assert(st[st.len() - 2] == l);
                            assert(st.last() == r);
                            assert(st.drop_last().drop_last() =~= stack);
                            assert(last.drop_first() =~= Seq::<Instruction>::empty());
                            assert(last[0] == Instruction::Binary(operator));
                            assert(spec_run(sem, pl + pr, stack) == Ok::<Seq<V>, E>(st));
                            match (sem.binary)(operator, l, r) {
                                Ok(v) => {
                                    assert(spec_step(sem, last[0], st) == Ok::<Seq<V>, E>(stack.push(v)));
                                    assert(spec_run(sem, last.drop_first(), stack.push(v)) == Ok::<Seq<V>, E>(stack.push(v)));
                                    assert(spec_run(sem, last, st) == Ok::<Seq<V>, E>(stack.push(v)));
                                    assert(spec_eval(sem, ast) == Ok::<V, E>(v));
                                    assert(spec_run(sem, spec_program(ast), stack) == Ok::<Seq<V>, E>(stack.push(v)));
                                },
                                Err(e) => {
                                    assert(spec_run(sem, last, st) == Err::<Seq<V>, E>(e));
                                    assert(spec_eval(sem, ast) == Err::<V, E>(e));
                                    assert(spec_run(sem, spec_program(ast), stack) == Err::<Seq<V>, E>(e));
                                },
                            }
                        },
                    }
                },
            }
        },
        SmartCalcAstType::Assignment { index, expression } => {
            let last = seq![Instruction::Store(index)];
            lemma_run_append(sem, spec_program(*expression), last, stack);
            lemma_program_evaluates(sem, *expression, stack);
            match spec_eval(sem, *expression) {
                Err(e) => {},
                Ok(v) => {
                    assert(stack.push(v).drop_last() =~= stack);
                    assert(last.drop_first() =~= Seq::<Instruction>::empty());
                },
            }
        },
        SmartCalcAstType::PrefixUnary(c, a) => {
            let last = seq![Instruction::Unary(c)];
            lemma_run_append(sem, spec_program(*a), last, stack);
            lemma_program_evaluates(sem, *a, stack);
            match spec_eval(sem, *a) {
                Err(e) => {},
                Ok(v) => {
                    assert(stack.push(v).drop_last() =~= stack);
                    assert(last.drop_first() =~= Seq::<Instruction>::empty());
                },
            }
        },
        _ => {
            assert(spec_program(ast).drop_first() =~= Seq::<Instruction>::empty());
        },
    }
}

} // verus!
