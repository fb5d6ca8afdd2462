//! A calculator front end: text is cut into tokens, the tokens are parsed
//! into an expression tree by operator precedence, and the tree is turned
//! into the sequence of numeric operations that evaluates it.
//!
//! Every stage is exact: numbers stay as the text that wrote them, so no
//! rounding happens here. Carrying out the operations in floating point is
//! left to the caller.

pub mod ascii;
pub mod calculator;
pub mod expression;
pub mod grammar;
pub mod interpreter;
pub mod lexer;
pub mod parser;
pub mod token;
