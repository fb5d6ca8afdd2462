//! The parser: from tokens to an expression tree, by operator precedence.
//!
//! An expression is a prefix part (a number, a parenthesised expression or
//! a function call) followed by any number of operators with their right
//! operands. `expression(rbp)` takes operators only while they bind more
//! tightly than `rbp`, and parses each right operand at the binding power
//! of its operator.

use vstd::prelude::*;
use crate::expression::{Expression, Number, NumberView, Tree};
use crate::token::{string_views, token_views, Token, TokenView};

verus! {

/// Why a sequence of tokens is not an expression.
#[derive(Clone, Copy, Debug, PartialEq, Eq)]
pub enum ParseError {
    /// A number or a constant was due, and another token stands there.
    ExpectingLiteral,
    /// A token binds tightly enough to go on with the expression, but is
    /// none of the five operators.
    ExpectingOperator,
    /// The tokens end where an operand was due.
    IncompleteExpression,
    /// A function call has no lexeme, so the function has no name.
    NoSliceToDefineFunction,
    /// A parenthesis or a function call was opened, and what follows its
    /// content is not a closing parenthesis.
    ExpectedClosingParenthesis,
}

impl ParseError {
    /// The error in words.
    pub fn message(&self) -> (text: String)
        ensures
            text@ == self.words(),
    {
        match self {
            ParseError::ExpectingLiteral => "expecting literal".to_owned(),
            ParseError::ExpectingOperator => "expecting operator".to_owned(),
            ParseError::IncompleteExpression => "incomplete expression".to_owned(),
            ParseError::NoSliceToDefineFunction => "no slice to define function".to_owned(),
            ParseError::ExpectedClosingParenthesis => "expected closing parenthesis".to_owned(),
        }
    }

    /// The words of [`ParseError::message`].
    pub open spec fn words(self) -> Seq<char> {
        match self {
            ParseError::ExpectingLiteral => "expecting literal"@,
            ParseError::ExpectingOperator => "expecting operator"@,
            ParseError::IncompleteExpression => "incomplete expression"@,
            ParseError::NoSliceToDefineFunction => "no slice to define function"@,
            ParseError::ExpectedClosingParenthesis => "expected closing parenthesis"@,
        }
    }
}

/// What parsing from some token on gives: the tree or the error, and the
/// number of tokens that were taken.
pub struct Parsed {
    pub result: Result<Tree, ParseError>,
    pub consumed: nat,
}

/// How many tokens are left from `pos` on.
pub open spec fn tokens_left(tokens: Seq<TokenView>, pos: nat) -> nat {
    if pos < tokens.len() {
        (tokens.len() - pos) as nat
    } else {
        0
    }
}

/// The leaf that a token stands for: a number or a constant.
pub open spec fn null_denotation(token: TokenView) -> Result<Tree, ParseError> {
    match token {
        TokenView::Numeric(text) => Ok(Tree::Numeric(NumberView::Decimal(text))),
        TokenView::PI => Ok(Tree::Numeric(NumberView::Pi)),
        TokenView::EulersConstant => Ok(Tree::Numeric(NumberView::Euler)),
        _ => Err(ParseError::ExpectingLiteral),
    }
}

/// The prefix part of an expression that starts at `pos`.
///
/// A function call and an opening parenthesis take an expression and
/// then a closing parenthesis, which is not kept. Any other token is taken
/// as a leaf.
pub open spec fn parse_prefix(tokens: Seq<TokenView>, slices: Seq<Seq<char>>, pos: nat) -> Parsed
    decreases tokens_left(tokens, pos), 0nat,
{
    if pos >= tokens.len() {
        Parsed { result: Err(ParseError::IncompleteExpression), consumed: 0 }
    } else if tokens[pos as int] is FunctionCall && pos >= slices.len() {
        Parsed { result: Err(ParseError::NoSliceToDefineFunction), consumed: 0 }
    } else if tokens[pos as int] is FunctionCall || tokens[pos as int] is LeftParenthesis {
        let inner = parse_expression(tokens, slices, pos + 1, 0);
        let close = pos + 1 + inner.consumed;
        match inner.result {
            Err(error) => Parsed { result: Err(error), consumed: 1 + inner.consumed },
            Ok(tree) => if close < tokens.len() && tokens[close as int] is RightParenthesis {
                Parsed {
                    result: Ok(
                        if tokens[pos as int] is FunctionCall {
                            Tree::LeftUnary(slices[pos as int], Box::new(tree))
                        } else {
                            Tree::Parenthesis(Box::new(tree))
                        },
                    ),
                    consumed: 2 + inner.consumed,
                }
            } else {
                Parsed {
                    result: Err(ParseError::ExpectedClosingParenthesis),
                    consumed: 1 + inner.consumed,
                }
            },
        }
    } else {
        Parsed { result: null_denotation(tokens[pos as int]), consumed: 1 }
    }
}

/// What an operator that was just taken makes of the expression `left` on
/// its left and of the tokens from `pos` on: it takes its right operand at
/// its own binding power.
pub open spec fn left_denotation(
    tokens: Seq<TokenView>,
    slices: Seq<Seq<char>>,
    pos: nat,
    operator: TokenView,
    left: Tree,
) -> Parsed
    decreases tokens_left(tokens, pos), 3nat,
{
    if operator.is_infix() {
        let right = parse_expression(tokens, slices, pos, operator.left_binding_power());
        match right.result {
            Err(error) => Parsed { result: Err(error), consumed: right.consumed },
            Ok(tree) => Parsed {
                result: Ok(Tree::Binary(Box::new(left), operator, Box::new(tree))),
                consumed: right.consumed,
            },
        }
    } else {
        Parsed { result: Err(ParseError::ExpectingOperator), consumed: 0 }
    }
}

/// The operators that follow the expression `left`, from `pos` on, as long
/// as the next token binds more tightly than `rbp`. Each one folds what
/// stands to its left and its right operand into one node.
///
/// A closing parenthesis binds with power 0: it always ends the loop and
/// is left for whoever opened the parenthesis.
pub open spec fn parse_infix(
    tokens: Seq<TokenView>,
    slices: Seq<Seq<char>>,
    pos: nat,
    rbp: nat,
    left: Tree,
) -> Parsed
    decreases tokens_left(tokens, pos), 1nat,
{
    if pos < tokens.len() && tokens[pos as int].left_binding_power() > rbp {
        let folded = left_denotation(tokens, slices, pos + 1, tokens[pos as int], left);
        match folded.result {
            Err(error) => Parsed { result: Err(error), consumed: 1 + folded.consumed },
            Ok(tree) => {
                let rest = parse_infix(tokens, slices, pos + 1 + folded.consumed, rbp, tree);
                Parsed { result: rest.result, consumed: 1 + folded.consumed + rest.consumed }
            },
        }
    } else {
        Parsed { result: Ok(left), consumed: 0 }
    }
}

/// What taking the token at `pos` as an operator gives, with the
/// expression `left` on its left. Where no token is left, nothing is taken
/// and the expression is incomplete.
pub open spec fn operator_step(
    tokens: Seq<TokenView>,
    slices: Seq<Seq<char>>,
    pos: nat,
    left: Tree,
) -> Parsed {
    if pos >= tokens.len() {
        Parsed { result: Err(ParseError::IncompleteExpression), consumed: 0 }
    } else {
        let folded = left_denotation(tokens, slices, pos + 1, tokens[pos as int], left);
        Parsed { result: folded.result, consumed: 1 + folded.consumed }
    }
}

/// The expression that starts at `pos` and goes on while operators bind
/// more tightly than `rbp`.
pub open spec fn parse_expression(
    tokens: Seq<TokenView>,
    slices: Seq<Seq<char>>,
    pos: nat,
    rbp: nat,
) -> Parsed
    decreases tokens_left(tokens, pos), 2nat,
{
    let prefix = parse_prefix(tokens, slices, pos);
    match prefix.result {
        Err(error) => prefix,
        Ok(left) => {
            let rest = parse_infix(tokens, slices, pos + prefix.consumed, rbp, left);
            Parsed { result: rest.result, consumed: prefix.consumed + rest.consumed }
        },
    }
}

/// What a parsing function returned, as contracts see it.
pub open spec fn outcome(result: Result<Expression, ParseError>) -> Result<Tree, ParseError> {
    match result {
        Ok(expression) => Ok(expression@),
        Err(error) => Err(error),
    }
}

impl Token {
    /// The leaf that the token stands for, if it is a number or a
    /// constant.
    pub fn null_denotion(&self) -> (result: Result<Expression, ParseError>)
        ensures
            outcome(result) == null_denotation(self@),
    {
        match self {
            Token::Numeric(text) => Ok(Expression::Numeric(Number::Decimal(text.clone()))),
            Token::PI => Ok(Expression::Numeric(Number::Pi)),
            Token::EulersConstant => Ok(Expression::Numeric(Number::Euler)),
            _ => Err(ParseError::ExpectingLiteral),
        }
    }

    /// What this token, just taken as an operator, makes of the expression
    /// `lhs` on its left: it parses its right operand at its own binding
    /// power.
    pub fn left_denotion(&self, parser: &mut Parser, lhs: Expression) -> (result: Result<
        Expression,
        ParseError,
    >)
        ensures
            final(parser).tokens() == old(parser).tokens(),
            final(parser).slices() == old(parser).slices(),
            final(parser).position() == old(parser).position() + left_denotation(
                old(parser).tokens(),
                old(parser).slices(),
                old(parser).position(),
                self@,
                lhs@,
            ).consumed,
            outcome(result) == left_denotation(
                old(parser).tokens(),
                old(parser).slices(),
                old(parser).position(),
                self@,
                lhs@,
            ).result,
        decreases tokens_left(old(parser).tokens(), old(parser).position()), 3nat,
    {
        if self.is_infix() {
            match parser.expression(self.left_binding_power()) {
                Ok(rhs) => Ok(Expression::Binary(Box::new(lhs), self.duplicate(), Box::new(rhs))),
                Err(error) => Err(error),
            }
        } else {
            Err(ParseError::ExpectingOperator)
        }
    }
}

/// A place in a sequence of tokens and their lexemes.
///
/// One cursor serves both sequences: the lexeme of a token is the string
/// at the token's own index.
pub struct Parser<'a> {
    tokens: &'a [Token],
    slices: &'a [String],
    position: usize,
}

impl<'a> Parser<'a> {
    /// The tokens that the parser reads.
    pub closed spec fn tokens(&self) -> Seq<TokenView> {
        token_views(self.tokens@)
    }

    /// The lexemes that go with the tokens.
    pub closed spec fn slices(&self) -> Seq<Seq<char>> {
        string_views(self.slices@)
    }

    /// The number of tokens taken so far.
    pub closed spec fn position(&self) -> nat {
        self.position as nat
    }

    /// A parser at the start of `tokens`. `slices` holds the lexeme of
    /// each token; only those of function calls are read.
    pub fn new(tokens: &'a [Token], slices: &'a [String]) -> (parser: Self)
        ensures
            parser.tokens() == token_views(tokens@),
            parser.slices() == string_views(slices@),
            parser.position() == 0,
    {
        Parser { tokens, slices, position: 0 }
    }

    /// Takes one token, if any is left.
    fn next(&mut self)
        ensures
            final(self).tokens() == old(self).tokens(),
            final(self).slices() == old(self).slices(),
            final(self).position() == if old(self).position() < old(self).tokens().len() {
                old(self).position() + 1
            } else {
                old(self).position()
            },
    {
        if self.position < self.tokens.len() {
            self.position = self.position + 1;
        }
    }

    /// Whether a token is left and binds more tightly than
    /// `right_binding_power`.
    fn next_binds_tighter_than(&self, right_binding_power: u32) -> (tighter: bool)
        ensures
            tighter == (self.position() < self.tokens().len() && self.tokens()[self.position() as int].left_binding_power()
                > right_binding_power),
    {
        if self.position < self.tokens.len() {
            self.tokens[self.position].left_binding_power() > right_binding_power
        } else {
            false
        }
    }

    /// Takes one token as a leaf. Where no token is left, nothing is taken
    /// and the expression is incomplete.
    pub fn parse_null_denotion(&mut self) -> (result: Result<Expression, ParseError>)
        ensures
            final(self).tokens() == old(self).tokens(),
            final(self).slices() == old(self).slices(),
            final(self).position() == if old(self).position() < old(self).tokens().len() {
                old(self).position() + 1
            } else {
                old(self).position()
            },
            outcome(result) == if old(self).position() < old(self).tokens().len() {
                null_denotation(old(self).tokens()[old(self).position() as int])
            } else {
                Err(ParseError::IncompleteExpression)
            },
    {
        if self.position < self.tokens.len() {
            let tokens = self.tokens;
            let token = &tokens[self.position];
            self.position = self.position + 1;
            token.null_denotion()
        } else {
            Err(ParseError::IncompleteExpression)
        }
    }

    /// Takes one token as an operator, with `expr` on its left. Where no
    /// token is left, nothing is taken and the expression is incomplete.
    pub fn parse_left_denotion(&mut self, expr: Expression) -> (result: Result<Expression, ParseError>)
        ensures
            final(self).tokens() == old(self).tokens(),
            final(self).slices() == old(self).slices(),
            final(self).position() == old(self).position() + operator_step(
                old(self).tokens(),
                old(self).slices(),
                old(self).position(),
                expr@,
            ).consumed,
            outcome(result) == operator_step(
                old(self).tokens(),
                old(self).slices(),
                old(self).position(),
                expr@,
            ).result,
        decreases tokens_left(old(self).tokens(), old(self).position()), 1nat,
    {
        if self.position >= self.tokens.len() {
            return Err(ParseError::IncompleteExpression);
        }
        let tokens = self.tokens;
        let token = &tokens[self.position];
        self.position = self.position + 1;
        token.left_denotion(self, expr)
    }

    /// Whether the next token is a closing parenthesis; if so, takes it.
    fn close(&mut self) -> (closed: bool)
        ensures
            final(self).tokens() == old(self).tokens(),
            final(self).slices() == old(self).slices(),
            closed == (old(self).position() < old(self).tokens().len() && old(
                self,
            ).tokens()[old(self).position() as int] is RightParenthesis),
            final(self).position() == if closed {
                old(self).position() + 1
            } else {
                old(self).position()
            },
    {
        if self.position < self.tokens.len() {
            match &self.tokens[self.position] {
                Token::RightParenthesis => {
                    self.position = self.position + 1;
                    true
                },
                _ => false,
            }
        } else {
            false
        }
    }

    /// Parses the expression that starts at the parser's place and goes on
    /// while operators bind more tightly than `rbp`. Start with 0.
    ///
    /// Tokens that follow the expression are left where they are.
    pub fn expression(&mut self, rbp: u32) -> (result: Result<Expression, ParseError>)
        ensures
            final(self).tokens() == old(self).tokens(),
            final(self).slices() == old(self).slices(),
            final(self).position() == old(self).position() + parse_expression(
                old(self).tokens(),
                old(self).slices(),
                old(self).position(),
                rbp as nat,
            ).consumed,
            outcome(result) == parse_expression(
                old(self).tokens(),
                old(self).slices(),
                old(self).position(),
                rbp as nat,
            ).result,
            old(self).position() <= old(self).tokens().len() ==> final(self).position() <= old(
                self,
            ).tokens().len(),
        decreases tokens_left(old(self).tokens(), old(self).position()), 2nat,
    {
        proof {
            if self.position() <= self.tokens().len() {
                lemma_expression_in_bounds(
                    self.tokens(),
                    self.slices(),
                    self.position(),
                    rbp as nat,
                );
            }
        }
        let ghost tokens = self.tokens();
        let ghost slices = self.slices();
        let ghost start = self.position();
        let tokens_read = self.tokens;
        let mut left: Expression = if self.position >= tokens_read.len() {
            return Err(ParseError::IncompleteExpression);
        } else {
            match &tokens_read[self.position] {
                Token::FunctionCall => {
                    if self.position >= self.slices.len() {
                        return Err(ParseError::NoSliceToDefineFunction);
                    }
                    let name = self.slices[self.position].clone();
                    self.next();
                    match self.expression(0) {
                        Ok(operand) => {
                            if !self.close() {
                                return Err(ParseError::ExpectedClosingParenthesis);
                            }
                            Expression::LeftUnary(name, Box::new(operand))
                        },
                        Err(error) => {
                            return Err(error);
                        },
                    }
                },
                Token::LeftParenthesis => {
                    self.next();
                    match self.expression(0) {
                        Ok(inner) => {
                            if !self.close() {
                                return Err(ParseError::ExpectedClosingParenthesis);
                            }
                            Expression::Parenthesis(Box::new(inner))
                        },
                        Err(error) => {
                            return Err(error);
                        },
                    }
                },
                _ => match self.parse_null_denotion() {
                    Ok(leaf) => leaf,
                    Err(error) => {
                        return Err(error);
                    },
                },
            }
        };
        let ghost target = parse_expression(tokens, slices, start, rbp as nat);
        while self.next_binds_tighter_than(rbp)
            invariant
                self.tokens() == tokens,
                self.slices() == slices,
                start <= self.position(),
                target == parse_expression(tokens, slices, start, rbp as nat),
                target.result == parse_infix(
                    tokens,
                    slices,
                    self.position(),
                    rbp as nat,
                    left@,
                ).result,
                start + target.consumed == self.position() + parse_infix(
                    tokens,
                    slices,
                    self.position(),
                    rbp as nat,
                    left@,
                ).consumed,
                tokens == old(self).tokens(),
                slices == old(self).slices(),
                start == old(self).position(),
                start <= tokens.len() ==> start + target.consumed <= tokens.len(),
            decreases tokens_left(tokens, self.position()),
        {
            match self.parse_left_denotion(left) {
                Ok(folded) => {
                    left = folded;
                },
                Err(error) => {
                    return Err(error);
                },
            }
        }
        Ok(left)
    }
}

/// The prefix part takes no token beyond the last one, and at least one
/// where it succeeds.
pub proof fn lemma_prefix_in_bounds(tokens: Seq<TokenView>, slices: Seq<Seq<char>>, pos: nat)
    requires
        pos <= tokens.len(),
    ensures
        pos + parse_prefix(tokens, slices, pos).consumed <= tokens.len(),
        parse_prefix(tokens, slices, pos).result is Ok ==> parse_prefix(
            tokens,
            slices,
            pos,
        ).consumed >= 1,
    decreases tokens_left(tokens, pos), 0nat,
{
    if pos < tokens.len() && !(tokens[pos as int] is FunctionCall && pos >= slices.len()) && (
    tokens[pos as int] is FunctionCall || tokens[pos as int] is LeftParenthesis) {
        lemma_expression_in_bounds(tokens, slices, pos + 1, 0);
    }
}

/// An operator's right operand ends no later than the tokens do.
pub proof fn lemma_left_denotation_in_bounds(
    tokens: Seq<TokenView>,
    slices: Seq<Seq<char>>,
    pos: nat,
    operator: TokenView,
    left: Tree,
)
    requires
        pos <= tokens.len(),
    ensures
        pos + left_denotation(tokens, slices, pos, operator, left).consumed <= tokens.len(),
    decreases tokens_left(tokens, pos), 3nat,
{
    if operator.is_infix() {
        lemma_expression_in_bounds(tokens, slices, pos, operator.left_binding_power());
    }
}

/// The operators that follow an expression end no later than the tokens
/// do.
pub proof fn lemma_infix_in_bounds(
    tokens: Seq<TokenView>,
    slices: Seq<Seq<char>>,
    pos: nat,
    rbp: nat,
    left: Tree,
)
    requires
        pos <= tokens.len(),
    ensures
        pos + parse_infix(tokens, slices, pos, rbp, left).consumed <= tokens.len(),
    decreases tokens_left(tokens, pos), 1nat,
{
    if pos < tokens.len() && tokens[pos as int].left_binding_power() > rbp {
        let folded = left_denotation(tokens, slices, pos + 1, tokens[pos as int], left);
        lemma_left_denotation_in_bounds(tokens, slices, pos + 1, tokens[pos as int], left);
        if let Ok(tree) = folded.result {
            lemma_infix_in_bounds(tokens, slices, pos + 1 + folded.consumed, rbp, tree);
        }
    }
}

/// Parsing takes no token beyond the last one, and at least one where it
/// succeeds.
pub proof fn lemma_expression_in_bounds(
    tokens: Seq<TokenView>,
    slices: Seq<Seq<char>>,
    pos: nat,
    rbp: nat,
)
    requires
        pos <= tokens.len(),
    ensures
        pos + parse_expression(tokens, slices, pos, rbp).consumed <= tokens.len(),
        parse_expression(tokens, slices, pos, rbp).result is Ok ==> parse_expression(
            tokens,
            slices,
            pos,
            rbp,
        ).consumed >= 1,
    decreases tokens_left(tokens, pos), 2nat,
{
    let prefix = parse_prefix(tokens, slices, pos);
    lemma_prefix_in_bounds(tokens, slices, pos);
    if let Ok(left) = prefix.result {
        lemma_infix_in_bounds(tokens, slices, pos + prefix.consumed, rbp, left);
    }
}

} // verus!
