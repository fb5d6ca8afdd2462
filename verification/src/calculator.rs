//! The three stages in a row: text to tokens, tokens to a tree, the tree
//! to its program.

use vstd::prelude::*;
use vstd::string::*;
use crate::interpreter::{
    interpreter, program_of, step_views, EvalError, EvalErrorView, Step, StepView,
};
use crate::lexer::{from_logos, lexed, lexemes_of, tokens_of};
use crate::parser::{parse_expression, ParseError, Parser};

verus! {

/// Why a text has no value.
#[derive(Debug, PartialEq)]
pub enum CalculationError {
    /// The tokens of the text are not an expression.
    Syntax(ParseError),
    /// The expression cannot be evaluated.
    Evaluation(EvalError),
}

/// A calculation error as contracts see it.
pub enum CalculationErrorView {
    Syntax(ParseError),
    Evaluation(EvalErrorView),
}

impl View for CalculationError {
    type V = CalculationErrorView;

    open spec fn view(&self) -> CalculationErrorView {
        match self {
            CalculationError::Syntax(error) => CalculationErrorView::Syntax(*error),
            CalculationError::Evaluation(error) => CalculationErrorView::Evaluation(error@),
        }
    }
}

/// The program that evaluates the expression written in `input`, or the
/// first error on the way to it. Whatever follows the expression is not
/// looked at.
pub open spec fn calculation(input: Seq<u8>) -> Result<Seq<StepView>, CalculationErrorView> {
    let stream = lexed(input);
    match parse_expression(tokens_of(stream), lexemes_of(stream), 0, 0).result {
        Err(error) => Err(CalculationErrorView::Syntax(error)),
        Ok(tree) => match program_of(tree) {
            Err(error) => Err(CalculationErrorView::Evaluation(error)),
            Ok(steps) => Ok(steps),
        },
    }
}

/// What [`calculate`] returned, as contracts see it.
pub open spec fn calculated(result: Result<Vec<Step>, CalculationError>) -> Result<
    Seq<StepView>,
    CalculationErrorView,
> {
    match result {
        Ok(steps) => Ok(step_views(steps@)),
        Err(error) => Err(error@),
    }
}

/// Lexes and parses `corpus`, and writes the program that evaluates it.
pub fn calculate(corpus: &str) -> (result: Result<Vec<Step>, CalculationError>)
    ensures
        calculated(result) == calculation(corpus.spec_bytes()),
{
    let (tokens, slices) = from_logos(corpus);
    let mut parser = Parser::new(tokens.as_slice(), slices.as_slice());
    match parser.expression(0) {
        Err(error) => Err(CalculationError::Syntax(error)),
        Ok(ast) => match interpreter(ast) {
            Err(error) => Err(CalculationError::Evaluation(error)),
            Ok(steps) => Ok(steps),
        },
    }
}

} // verus!
