//! Expression trees.

use vstd::prelude::*;
use crate::token::{Token, TokenView};

verus! {

/// A number as contracts see it.
pub enum NumberView {
    Decimal(Seq<char>),
    Pi,
    Euler,
}

/// A number as it stands in an expression. It is kept exact: a literal as
/// the text that wrote it, a constant by its name.
#[derive(Debug, PartialEq, Clone)]
pub enum Number {
    /// A decimal literal, such as `-4.25`.
    Decimal(String),
    /// The ratio of a circle's circumference to its diameter.
    Pi,
    /// The base of the natural logarithm.
    Euler,
}

impl View for Number {
    type V = NumberView;

    open spec fn view(&self) -> NumberView {
        match self {
            Number::Decimal(text) => NumberView::Decimal(text@),
            Number::Pi => NumberView::Pi,
            Number::Euler => NumberView::Euler,
        }
    }
}

/// An expression as contracts see it: the same tree, with sequences of
/// characters for strings.
pub enum Tree {
    Numeric(NumberView),
    Binary(Box<Tree>, TokenView, Box<Tree>),
    LeftUnary(Seq<char>, Box<Tree>),
    Parenthesis(Box<Tree>),
}

/// An expression. Every node owns its operands.
#[derive(Debug, PartialEq)]
pub enum Expression {
    /// A number.
    Numeric(Number),
    /// Two operands and the token between them.
    Binary(Box<Expression>, Token, Box<Expression>),
    /// A function, named by its lexeme with the opening parenthesis, such
    /// as `sin(`, and its argument.
    LeftUnary(String, Box<Expression>),
    /// An expression that was written in parentheses.
    Parenthesis(Box<Expression>),
}

/// The tree that an expression stands for.
pub open spec fn tree_of(expression: Expression) -> Tree
    decreases expression,
{
    match expression {
        Expression::Numeric(number) => Tree::Numeric(number@),
        Expression::Binary(left, operator, right) => Tree::Binary(
            Box::new(tree_of(*left)),
            operator@,
            Box::new(tree_of(*right)),
        ),
        Expression::LeftUnary(name, operand) => Tree::LeftUnary(name@, Box::new(tree_of(*operand))),
        Expression::Parenthesis(inner) => Tree::Parenthesis(Box::new(tree_of(*inner))),
    }
}

impl View for Expression {
    type V = Tree;

    open spec fn view(&self) -> Tree {
        tree_of(*self)
    }
}

} // verus!
