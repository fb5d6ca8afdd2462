//! The interpreter: from an expression tree to the numeric operations that
//! evaluate it.
//!
//! The tree is walked operands first, the left one before the right one.
//! What comes out is a program for a machine with a stack of numbers: it
//! says which number to push, which function to apply to the top of the
//! stack and which operator to apply to the two numbers on top. Running
//! it, in whatever arithmetic, is the caller's part.

use vstd::prelude::*;
use vstd::string::*;
use crate::ascii::same_text;
use crate::expression::{Expression, Number, NumberView, Tree};
use crate::token::{Token, TokenView};

verus! {

/// The functions of one argument.
#[derive(Clone, Copy, Debug, PartialEq, Eq)]
pub enum Function {
    /// From degrees to radians.
    Radian,
    /// From radians to degrees.
    Degrees,
    /// To the nearest integer, halves away from zero.
    Round,
    /// To the integer part.
    Trunc,
    /// The absolute value.
    Abs,
    /// The natural logarithm.
    Ln,
    /// The logarithm to base 10.
    Log10,
    /// The logarithm to base 2.
    Log2,
    /// The square root.
    Sqrt,
    Asin,
    Acos,
    Atan,
    Sin,
    Cos,
    Tan,
    Sinh,
    Cosh,
    Tanh,
}

/// The operators of two arguments.
#[derive(Clone, Copy, Debug, PartialEq, Eq)]
pub enum Operator {
    Add,
    Subtract,
    Multiply,
    Divide,
    /// The left operand to the power of the right one.
    Power,
}

/// One operation on the stack of numbers.
#[derive(Debug, PartialEq, Clone)]
pub enum Step {
    /// Puts the number on the stack.
    Push(Number),
    /// Replaces the number on top by the function's value on it.
    Apply(Function),
    /// Replaces the two numbers on top by the operator's value on them,
    /// the lower one being the left operand.
    Combine(Operator),
}

/// A step as contracts see it.
pub enum StepView {
    Push(NumberView),
    Apply(Function),
    Combine(Operator),
}

impl View for Step {
    type V = StepView;

    open spec fn view(&self) -> StepView {
        match self {
            Step::Push(number) => StepView::Push(number@),
            Step::Apply(function) => StepView::Apply(*function),
            Step::Combine(operator) => StepView::Combine(*operator),
        }
    }
}

/// The steps of a vector as contracts see them.
pub open spec fn step_views(steps: Seq<Step>) -> Seq<StepView> {
    steps.map_values(|s: Step| s@)
}

/// Why an expression cannot be evaluated.
#[derive(Debug, PartialEq)]
pub enum EvalError {
    /// No function has this name.
    UnknownFunction(String),
    /// The token between two operands is none of the five operators.
    UnsupportedOperator(Token),
}

/// An evaluation error as contracts see it.
pub enum EvalErrorView {
    UnknownFunction(Seq<char>),
    UnsupportedOperator(TokenView),
}

impl View for EvalError {
    type V = EvalErrorView;

    open spec fn view(&self) -> EvalErrorView {
        match self {
            EvalError::UnknownFunction(name) => EvalErrorView::UnknownFunction(name@),
            EvalError::UnsupportedOperator(token) => EvalErrorView::UnsupportedOperator(token@),
        }
    }
}

impl Token {
    /// The name of the token's kind.
    pub fn kind(&self) -> (name: &'static str)
        ensures
            name@ == self@.kind(),
    {
        match self {
            Token::Plus => "Plus",
            Token::Minus => "Minus",
            Token::Divide => "Divide",
            Token::Multiply => "Multiply",
            Token::Exponentiate => "Exponentiate",
            Token::LeftParenthesis => "LeftParenthesis",
            Token::RightParenthesis => "RightParenthesis",
            Token::PI => "PI",
            Token::EulersConstant => "EulersConstant",
            Token::Equals => "Equals",
            Token::FunctionCall => "FunctionCall",
            Token::Numeric(_) => "Numeric",
            Token::Error => "Error",
        }
    }
}

impl TokenView {
    /// The name of the token's kind.
    pub open spec fn kind(self) -> Seq<char> {
        match self {
            TokenView::Plus => "Plus"@,
            TokenView::Minus => "Minus"@,
            TokenView::Divide => "Divide"@,
            TokenView::Multiply => "Multiply"@,
            TokenView::Exponentiate => "Exponentiate"@,
            TokenView::LeftParenthesis => "LeftParenthesis"@,
            TokenView::RightParenthesis => "RightParenthesis"@,
            TokenView::PI => "PI"@,
            TokenView::EulersConstant => "EulersConstant"@,
            TokenView::Equals => "Equals"@,
            TokenView::FunctionCall => "FunctionCall"@,
            TokenView::Numeric(_) => "Numeric"@,
            TokenView::Error => "Error"@,
        }
    }
}

impl EvalErrorView {
    /// The words of [`EvalError::message`]: they name the function or the
    /// token that stood in the way.
    pub open spec fn words(self) -> Seq<char> {
        match self {
            EvalErrorView::UnknownFunction(name) => "prefix unary operator "@ + name
                + " not available"@,
            EvalErrorView::UnsupportedOperator(token) => "infix operator "@ + token.kind()
                + " not available"@,
        }
    }
}

impl EvalError {
    /// The error in words.
    pub fn message(&self) -> (text: String)
        ensures
            text@ == self@.words(),
    {
        match self {
            EvalError::UnknownFunction(name) => {
                let mut text = "prefix unary operator ".to_owned();
                text.append(name.as_str());
                text.append(" not available");
                text
            },
            EvalError::UnsupportedOperator(token) => {
                let mut text = "infix operator ".to_owned();
                text.append(token.kind());
                text.append(" not available");
                text
            },
        }
    }
}

/// The function that a lexeme names. The name ends with the opening
/// parenthesis and has to match to the letter.
pub open spec fn function_named(name: Seq<char>) -> Option<Function> {
    if name == "radian("@ {
        Some(Function::Radian)
    } else if name == "degrees("@ {
        Some(Function::Degrees)
    } else if name == "round("@ {
        Some(Function::Round)
    } else if name == "trunc("@ {
        Some(Function::Trunc)
    } else if name == "abs("@ {
        Some(Function::Abs)
    } else if name == "ln("@ {
        Some(Function::Ln)
    } else if name == "log10("@ {
        Some(Function::Log10)
    } else if name == "log2("@ {
        Some(Function::Log2)
    } else if name == "sqrt("@ {
        Some(Function::Sqrt)
    } else if name == "asin("@ {
        Some(Function::Asin)
    } else if name == "acos("@ {
        Some(Function::Acos)
    } else if name == "atan("@ {
        Some(Function::Atan)
    } else if name == "sin("@ {
        Some(Function::Sin)
    } else if name == "cos("@ {
        Some(Function::Cos)
    } else if name == "tan("@ {
        Some(Function::Tan)
    } else if name == "sinh("@ {
        Some(Function::Sinh)
    } else if name == "cosh("@ {
        Some(Function::Cosh)
    } else if name == "tanh("@ {
        Some(Function::Tanh)
    } else {
        None
    }
}

/// The operator that a token stands for.
pub open spec fn operator_of(token: TokenView) -> Option<Operator> {
    match token {
        TokenView::Plus => Some(Operator::Add),
        TokenView::Minus => Some(Operator::Subtract),
        TokenView::Multiply => Some(Operator::Multiply),
        TokenView::Divide => Some(Operator::Divide),
        TokenView::Exponentiate => Some(Operator::Power),
        _ => None,
    }
}

/// The program that evaluates a tree, or the first thing that stands in
/// the way.
///
/// A node's operands come before the node, the left operand before the
/// right one; this is also the order in which errors are found. A
/// parenthesis adds nothing to what it holds.
pub open spec fn program_of(tree: Tree) -> Result<Seq<StepView>, EvalErrorView>
    decreases tree,
{
    match tree {
        Tree::Numeric(number) => Ok(seq![StepView::Push(number)]),
        Tree::Parenthesis(inner) => program_of(*inner),
        Tree::LeftUnary(name, operand) => match program_of(*operand) {
            Err(error) => Err(error),
            Ok(steps) => match function_named(name) {
                None => Err(EvalErrorView::UnknownFunction(name)),
                Some(function) => Ok(steps.push(StepView::Apply(function))),
            },
        },
        Tree::Binary(left, token, right) => match program_of(*left) {
            Err(error) => Err(error),
            Ok(first) => match program_of(*right) {
                Err(error) => Err(error),
                Ok(second) => match operator_of(token) {
                    None => Err(EvalErrorView::UnsupportedOperator(token)),
                    Some(operator) => Ok((first + second).push(StepView::Combine(operator))),
                },
            },
        },
    }
}

/// What [`interpreter`] returned, as contracts see it.
pub open spec fn evaluation(result: Result<Vec<Step>, EvalError>) -> Result<
    Seq<StepView>,
    EvalErrorView,
> {
    match result {
        Ok(steps) => Ok(step_views(steps@)),
        Err(error) => Err(error@),
    }
}

impl Function {
    /// The function that `name` names, if any does.
    pub fn from_name(name: &str) -> (found: Option<Function>)
        ensures
            found == function_named(name@),
    {
        if same_text(name, "radian(") {
            Some(Function::Radian)
        } else if same_text(name, "degrees(") {
            Some(Function::Degrees)
        } else if same_text(name, "round(") {
            Some(Function::Round)
        } else if same_text(name, "trunc(") {
            Some(Function::Trunc)
        } else if same_text(name, "abs(") {
            Some(Function::Abs)
        } else if same_text(name, "ln(") {
            Some(Function::Ln)
        } else if same_text(name, "log10(") {
            Some(Function::Log10)
        } else if same_text(name, "log2(") {
            Some(Function::Log2)
        } else if same_text(name, "sqrt(") {
            Some(Function::Sqrt)
        } else if same_text(name, "asin(") {
            Some(Function::Asin)
        } else if same_text(name, "acos(") {
            Some(Function::Acos)
        } else if same_text(name, "atan(") {
            Some(Function::Atan)
        } else if same_text(name, "sin(") {
            Some(Function::Sin)
        } else if same_text(name, "cos(") {
            Some(Function::Cos)
        } else if same_text(name, "tan(") {
            Some(Function::Tan)
        } else if same_text(name, "sinh(") {
            Some(Function::Sinh)
        } else if same_text(name, "cosh(") {
            Some(Function::Cosh)
        } else if same_text(name, "tanh(") {
            Some(Function::Tanh)
        } else {
            None
        }
    }
}

impl Operator {
    /// The operator that the token stands for, if it is one of the five.
    pub fn from_token(token: &Token) -> (found: Option<Operator>)
        ensures
            found == operator_of(token@),
    {
        match token {
            Token::Plus => Some(Operator::Add),
            Token::Minus => Some(Operator::Subtract),
            Token::Multiply => Some(Operator::Multiply),
            Token::Divide => Some(Operator::Divide),
            Token::Exponentiate => Some(Operator::Power),
            _ => None,
        }
    }
}

/// Adding a step to a vector adds its view.
proof fn lemma_step_push(steps: Seq<Step>, step: Step)
    ensures
        step_views(steps.push(step)) == step_views(steps).push(step@),
{
    assert(step_views(steps.push(step)) =~= step_views(steps).push(step@));
}

/// Writes the program of `ast` behind the steps that `program` holds.
fn emit(ast: Expression, program: &mut Vec<Step>) -> (result: Result<(), EvalError>)
    ensures
        match result {
            Ok(_) => program_of(ast@) is Ok && step_views(final(program)@) == step_views(
                old(program)@,
            ) + program_of(ast@)->Ok_0,
            Err(error) => program_of(ast@) == Err::<Seq<StepView>, EvalErrorView>(error@),
        },
    decreases ast,
{
    let ghost before = step_views(program@);
    match ast {
        Expression::Numeric(number) => {
            proof {
                lemma_step_push(program@, Step::Push(number));
                assert(before.push(StepView::Push(number@)) =~= before + seq![
                    StepView::Push(number@),
                ]);
            }
            program.push(Step::Push(number));
            Ok(())
        },
        Expression::Parenthesis(inner) => emit(*inner, program),
        Expression::LeftUnary(name, operand) => {
            match emit(*operand, program) {
                Err(error) => Err(error),
                Ok(_) => match Function::from_name(name.as_str()) {
                    None => Err(EvalError::UnknownFunction(name)),
                    Some(function) => {
                        proof {
                            lemma_step_push(program@, Step::Apply(function));
                            let steps = program_of(operand@)->Ok_0;
                            assert((before + steps).push(StepView::Apply(function)) =~= before
                                + steps.push(StepView::Apply(function)));
                        }
                        program.push(Step::Apply(function));
                        Ok(())
                    },
                },
            }
        },
        Expression::Binary(left, token, right) => {
            match emit(*left, program) {
                Err(error) => Err(error),
                Ok(_) => match emit(*right, program) {
                    Err(error) => Err(error),
                    Ok(_) => match Operator::from_token(&token) {
                        None => Err(EvalError::UnsupportedOperator(token)),
                        Some(operator) => {
                            proof {
                                lemma_step_push(program@, Step::Combine(operator));
                                let first = program_of(left@)->Ok_0;
                                let second = program_of(right@)->Ok_0;
                                assert(((before + first) + second).push(
                                    StepView::Combine(operator),
                                ) =~= before + (first + second).push(
                                    StepView::Combine(operator),
                                ));
                            }
                            program.push(Step::Combine(operator));
                            Ok(())
                        },
                    },
                },
            }
        },
    }
}

/// Turns an expression into the program that evaluates it.
///
/// It fails where a function's name is not known, or where the token
/// between two operands is not an operator; of several such places, the
/// one that evaluation meets first is reported.
pub fn interpreter(ast: Expression) -> (result: Result<Vec<Step>, EvalError>)
    ensures
        evaluation(result) == program_of(ast@),
{
    let mut program: Vec<Step> = Vec::new();
    assert(step_views(program@) =~= Seq::<StepView>::empty());
    match emit(ast, &mut program) {
        Ok(_) => {
            assert(Seq::<StepView>::empty() + program_of(ast@)->Ok_0 =~= program_of(ast@)->Ok_0);
            Ok(program)
        },
        Err(error) => Err(error),
    }
}

/// The number of numbers on the stack after `steps`, run on a stack of
/// `height` numbers; `None` where a step finds too few numbers to work on.
pub open spec fn height_after(steps: Seq<StepView>, height: nat) -> Option<nat>
    decreases steps.len(),
{
    if steps.len() == 0 {
        Some(height)
    } else {
        match steps[0] {
            StepView::Push(_) => height_after(steps.drop_first(), height + 1),
            StepView::Apply(_) => if height >= 1 {
                height_after(steps.drop_first(), height)
            } else {
                None
            },
            StepView::Combine(_) => if height >= 2 {
                height_after(steps.drop_first(), (height - 1) as nat)
            } else {
                None
            },
        }
    }
}

/// Running two programs in a row is running the second on the stack that
/// the first leaves.
pub proof fn lemma_height_after_both(first: Seq<StepView>, second: Seq<StepView>, height: nat)
    ensures
        height_after(first + second, height) == match height_after(first, height) {
            Some(between) => height_after(second, between),
            None => None,
        },
    decreases first.len(),
{
    if first.len() == 0 {
        assert(first + second =~= second);
    } else {
        assert((first + second).drop_first() =~= first.drop_first() + second);
        assert((first + second)[0] == first[0]);
        match first[0] {
            StepView::Push(_) => {
                lemma_height_after_both(first.drop_first(), second, height + 1);
            },
            StepView::Apply(_) => {
                if height >= 1 {
                    lemma_height_after_both(first.drop_first(), second, height);
                }
            },
            StepView::Combine(_) => {
                if height >= 2 {
                    lemma_height_after_both(first.drop_first(), second, (height - 1) as nat);
                }
            },
        }
    }
}

/// The program of a tree never finds too few numbers on the stack, and
/// leaves one number more than it found: the value of the tree.
pub proof fn lemma_program_leaves_one_number(tree: Tree, height: nat)
    requires
        program_of(tree) is Ok,
    ensures
        height_after(program_of(tree)->Ok_0, height) == Some(height + 1),
    decreases tree,
{
    reveal_with_fuel(height_after, 3);
    match tree {
        Tree::Numeric(number) => {
            let steps = seq![StepView::Push(number)];
            assert(steps.drop_first().len() == 0);
        },
        Tree::Parenthesis(inner) => {
            lemma_program_leaves_one_number(*inner, height);
        },
        Tree::LeftUnary(name, operand) => {
            let steps = program_of(*operand)->Ok_0;
            let function = function_named(name)->Some_0;
            let last = seq![StepView::Apply(function)];
            lemma_program_leaves_one_number(*operand, height);
            lemma_height_after_both(steps, last, height);
            assert(last.drop_first().len() == 0);
            assert(steps.push(StepView::Apply(function)) =~= steps + last);
        },
        Tree::Binary(left, token, right) => {
            let first = program_of(*left)->Ok_0;
            let second = program_of(*right)->Ok_0;
            let operator = operator_of(token)->Some_0;
            let last = seq![StepView::Combine(operator)];
            lemma_program_leaves_one_number(*left, height);
            lemma_program_leaves_one_number(*right, height + 1);
            lemma_height_after_both(first, second, height);
            lemma_height_after_both(first + second, last, height);
            assert(last.drop_first().len() == 0);
            assert((first + second).push(StepView::Combine(operator)) =~= (first + second) + last);
        },
    }
}

} // verus!
