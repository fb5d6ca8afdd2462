//! Tokens and their binding powers.

use vstd::prelude::*;

verus! {

/// A token as contracts see it: the same cases as [`Token`], a literal's
/// text being a sequence of characters.
pub enum TokenView {
    Plus,
    Minus,
    Divide,
    Multiply,
    Exponentiate,
    LeftParenthesis,
    RightParenthesis,
    PI,
    EulersConstant,
    Equals,
    FunctionCall,
    Numeric(Seq<char>),
    Error,
}

/// One lexical unit of an expression.
///
/// `FunctionCall` is only a tag: the name of the function is the token's
/// lexeme. `Numeric` carries the literal as it was written. `Error` marks
/// input that no rule recognises; the tokenizer never hands it out.
#[derive(Debug, PartialEq, Clone)]
pub enum Token {
    Plus,
    Minus,
    Divide,
    Multiply,
    Exponentiate,
    LeftParenthesis,
    RightParenthesis,
    PI,
    EulersConstant,
    Equals,
    FunctionCall,
    Numeric(String),
    Error,
}

impl View for Token {
    type V = TokenView;

    open spec fn view(&self) -> TokenView {
        match self {
            Token::Plus => TokenView::Plus,
            Token::Minus => TokenView::Minus,
            Token::Divide => TokenView::Divide,
            Token::Multiply => TokenView::Multiply,
            Token::Exponentiate => TokenView::Exponentiate,
            Token::LeftParenthesis => TokenView::LeftParenthesis,
            Token::RightParenthesis => TokenView::RightParenthesis,
            Token::PI => TokenView::PI,
            Token::EulersConstant => TokenView::EulersConstant,
            Token::Equals => TokenView::Equals,
            Token::FunctionCall => TokenView::FunctionCall,
            Token::Numeric(text) => TokenView::Numeric(text@),
            Token::Error => TokenView::Error,
        }
    }
}

impl TokenView {
    /// The five arithmetic operators.
    pub open spec fn is_infix(self) -> bool {
        self is Plus || self is Minus || self is Multiply || self is Divide || self is Exponentiate
    }

    /// How tightly the token binds the expression on its left. A token
    /// that cannot continue an expression binds with power 0.
    pub open spec fn left_binding_power(self) -> nat {
        match self {
            TokenView::Plus | TokenView::Minus => 10,
            TokenView::Multiply | TokenView::Divide => 20,
            TokenView::Exponentiate => 50,
            TokenView::LeftParenthesis => 100,
            TokenView::FunctionCall => 99,
            _ => 0,
        }
    }
}

/// The tokens of a vector as contracts see them.
pub open spec fn token_views(tokens: Seq<Token>) -> Seq<TokenView> {
    tokens.map_values(|t: Token| t@)
}

/// The strings of a vector as sequences of characters.
pub open spec fn string_views(strings: Seq<String>) -> Seq<Seq<char>> {
    strings.map_values(|s: String| s@)
}

/// Adding a token and a string to two vectors adds their views.
pub proof fn lemma_views_push(tokens: Seq<Token>, strings: Seq<String>, token: Token, string: String)
    ensures
        token_views(tokens.push(token)) == token_views(tokens).push(token@),
        string_views(strings.push(string)) == string_views(strings).push(string@),
{
    assert(token_views(tokens.push(token)) =~= token_views(tokens).push(token@));
    assert(string_views(strings.push(string)) =~= string_views(strings).push(string@));
}

impl Token {
    /// Whether the token is an infix operator.
    pub fn is_infix(&self) -> (infix: bool)
        ensures
            infix == self@.is_infix(),
    {
        match self {
            Token::Plus => true,
            Token::Minus => true,
            Token::Multiply => true,
            Token::Divide => true,
            Token::Exponentiate => true,
            _ => false,
        }
    }

    /// The left binding power of the token, in Pratt's sense.
    pub fn left_binding_power(&self) -> (power: u32)
        ensures
            power == self@.left_binding_power(),
    {
        match self {
            Token::Plus => 10,
            Token::Minus => 10,
            Token::Multiply => 20,
            Token::Divide => 20,
            Token::Exponentiate => 50,
            Token::LeftParenthesis => 100,
            Token::FunctionCall => 99,
            Token::RightParenthesis => 0,
            _ => 0,
        }
    }

    /// A second token equal to this one.
    pub fn duplicate(&self) -> (copy: Token)
        ensures
            copy@ == self@,
    {
        match self {
            Token::Plus => Token::Plus,
            Token::Minus => Token::Minus,
            Token::Divide => Token::Divide,
            Token::Multiply => Token::Multiply,
            Token::Exponentiate => Token::Exponentiate,
            Token::LeftParenthesis => Token::LeftParenthesis,
            Token::RightParenthesis => Token::RightParenthesis,
            Token::PI => Token::PI,
            Token::EulersConstant => Token::EulersConstant,
            Token::Equals => Token::Equals,
            Token::FunctionCall => Token::FunctionCall,
            Token::Numeric(text) => Token::Numeric(text.clone()),
            Token::Error => Token::Error,
        }
    }
}

} // verus!
