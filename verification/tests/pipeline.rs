use calcamabob::ascii::{ascii_substring, same_text};
use calcamabob::calculator::{calculate, CalculationError};
use calcamabob::expression::{Expression, Number};
use calcamabob::interpreter::{interpreter, EvalError, Function, Operator, Step};
use calcamabob::grammar::{recognize, run_length, Class, Rule};
use calcamabob::lexer::{from_logos, read_token};
use calcamabob::parser::{ParseError, Parser};
use calcamabob::token::Token;

fn number(n: &Number) -> f64 {
    match n {
        Number::Decimal(text) => text.parse::<f64>().unwrap(),
        Number::Pi => std::f64::consts::PI,
        Number::Euler => std::f64::consts::E,
    }
}

fn apply(function: Function, x: f64) -> f64 {
    match function {
        Function::Radian => x.to_radians(),
        Function::Degrees => x.to_degrees(),
        Function::Round => x.round(),
        Function::Trunc => x.trunc(),
        Function::Abs => x.abs(),
        Function::Ln => x.ln(),
        Function::Log10 => x.log10(),
        Function::Log2 => x.log2(),
        Function::Sqrt => x.sqrt(),
        Function::Asin => x.asin(),
        Function::Acos => x.acos(),
        Function::Atan => x.atan(),
        Function::Sin => x.sin(),
        Function::Cos => x.cos(),
        Function::Tan => x.tan(),
        Function::Sinh => x.sinh(),
        Function::Cosh => x.cosh(),
        Function::Tanh => x.tanh(),
    }
}

fn combine(operator: Operator, left: f64, right: f64) -> f64 {
    match operator {
        Operator::Add => left + right,
        Operator::Subtract => left - right,
        Operator::Multiply => left * right,
        Operator::Divide => left / right,
        Operator::Power => left.powf(right),
    }
}

fn run(program: &[Step]) -> f64 {
    let mut stack: Vec<f64> = Vec::new();
    for step in program {
        match step {
            Step::Push(n) => stack.push(number(n)),
            Step::Apply(function) => {
                let x = stack.pop().unwrap();
                stack.push(apply(*function, x));
            }
            Step::Combine(operator) => {
                let right = stack.pop().unwrap();
                let left = stack.pop().unwrap();
                stack.push(combine(*operator, left, right));
            }
        }
    }
    assert_eq!(stack.len(), 1);
    stack.pop().unwrap()
}

fn value(corpus: &str) -> Result<f64, CalculationError> {
    calculate(corpus).map(|program| run(&program))
}

fn decimal(text: &str) -> Expression {
    Expression::Numeric(Number::Decimal(text.to_owned()))
}

fn parse(corpus: &str) -> Result<Expression, ParseError> {
    let (tokens, slices) = from_logos(corpus);
    let mut parser = Parser::new(&tokens, &slices);
    parser.expression(0)
}

#[test]
fn no_parens_arithmetic() {
    let (tokens, slices) = from_logos("pi*3+2");
    let mut parser = Parser::new(&tokens, &slices);
    let g = Expression::Binary(
        Box::new(Expression::Binary(
            Box::new(Expression::Numeric(Number::Pi)),
            Token::Multiply,
            Box::new(decimal("3")),
        )),
        Token::Plus,
        Box::new(decimal("2")),
    );
    assert_eq!(parser.expression(0).unwrap(), g);
    assert_eq!(number(&Number::Pi), 3.141592653589793);
    assert_eq!(number(&Number::Decimal("3".to_owned())), 3.0);
    assert_eq!(number(&Number::Decimal("2".to_owned())), 2.0);
}

#[test]
fn sin_pi_exp() {
    let (tokens, slices) = from_logos("(sin(pi))^2");
    let mut parser = Parser::new(&tokens, &slices);
    let g = Expression::Binary(
        Box::new(Expression::Parenthesis(Box::new(Expression::LeftUnary(
            "sin(".to_owned(),
            Box::new(Expression::Numeric(Number::Pi)),
        )))),
        Token::Exponentiate,
        Box::new(decimal("2")),
    );
    assert_eq!(parser.expression(0).unwrap(), g);
}

#[test]
fn interpretted_results() {
    assert_eq!(value("(2+5*2)^2").unwrap(), 144.0);
    assert_eq!(value("2+5*2^2").unwrap(), 22.0);
    assert_eq!(value("cos(pi)").unwrap(), -1.);
    assert_eq!(value("sin(0)").unwrap(), 0.);
    assert_eq!(value("5*10-4*3").unwrap(), 38.);
    assert_eq!(value("5*10-4*-3").unwrap(), 62.);
    assert_eq!(value("log10(100.0)").unwrap(), 2.);
    assert_eq!(value("round(2/3)").unwrap(), 1.);
    assert_eq!(value("round(-1/4)").unwrap(), 0.);
    assert_eq!(
        value("-3 + 4.2/333").unwrap(),
        -2.9873873873873873873873873873873873873873873873873873873873873873
    );
}

#[test]
fn a_minus_that_is_no_part_of_a_literal_is_no_operand() {
    let expecting_literal = Err(CalculationError::Syntax(ParseError::ExpectingLiteral));
    assert_eq!(value("-(5+-4)"), expecting_literal);
    assert_eq!(value("-(5-4)"), expecting_literal);
    assert_eq!(value(" 5  * 10- 4*-  3"), expecting_literal);
    assert_eq!(value("-cos(pi)"), expecting_literal);
    assert_eq!(value("-(tan(pi/4)*3)"), expecting_literal);
}

#[test]
fn blanks_between_tokens_change_nothing() {
    assert_eq!(value(" 5 * 10 -4 * -3 ").unwrap(), 62.0);
    assert_eq!(value("5\t*\n10\x0c-4*-3").unwrap(), 62.0);
    assert_eq!(from_logos(" 2 +\t3 "), from_logos("2+3"));
}

#[test]
fn tokens_and_lexemes_come_in_step() {
    let (tokens, slices) = from_logos("sin(-2.5)*log10(pi)=e");
    assert_eq!(
        tokens,
        vec![
            Token::FunctionCall,
            Token::Numeric("-2.5".to_owned()),
            Token::RightParenthesis,
            Token::Multiply,
            Token::FunctionCall,
            Token::PI,
            Token::RightParenthesis,
            Token::Equals,
            Token::EulersConstant,
        ]
    );
    assert_eq!(slices, vec!["sin(", "-2.5", ")", "*", "log10(", "pi", ")", "=", "e"]);
}

#[test]
fn a_plus_is_put_between_a_number_and_a_negative_number() {
    let (tokens, slices) = from_logos("5 -3");
    assert_eq!(
        tokens,
        vec![Token::Numeric("5".to_owned()), Token::Plus, Token::Numeric("-3".to_owned())]
    );
    assert_eq!(slices, vec!["5", "+", "-3"]);
    assert_eq!(value("5 -3").unwrap(), 2.0);
}

#[test]
fn a_leading_negative_number_stays_as_it_is() {
    let (tokens, slices) = from_logos("-3+5");
    assert_eq!(
        tokens,
        vec![Token::Numeric("-3".to_owned()), Token::Plus, Token::Numeric("5".to_owned())]
    );
    assert_eq!(slices, vec!["-3", "+", "5"]);
    assert_eq!(value("-3+5").unwrap(), 2.0);
    let (tokens, _) = from_logos("(-3)");
    assert_eq!(
        tokens,
        vec![Token::LeftParenthesis, Token::Numeric("-3".to_owned()), Token::RightParenthesis]
    );
    assert_eq!(value("(-3)").unwrap(), -3.0);
}

#[test]
fn no_plus_after_a_constant_or_before_minus_zero() {
    let (tokens, _) = from_logos("pi-3");
    assert_eq!(tokens, vec![Token::PI, Token::Numeric("-3".to_owned())]);
    let (tokens, _) = from_logos("5-0.0");
    assert_eq!(tokens, vec![Token::Numeric("5".to_owned()), Token::Numeric("-0.0".to_owned())]);
    let (tokens, _) = from_logos("5-0.01");
    assert_eq!(
        tokens,
        vec![Token::Numeric("5".to_owned()), Token::Plus, Token::Numeric("-0.01".to_owned())]
    );
}

#[test]
fn the_longest_match_wins() {
    let (tokens, slices) = from_logos("pi(e(10(1.5.25-.5-");
    assert_eq!(
        tokens,
        vec![
            Token::FunctionCall,
            Token::FunctionCall,
            Token::FunctionCall,
            Token::Numeric("1.5".to_owned()),
            Token::Numeric(".25".to_owned()),
            Token::Plus,
            Token::Numeric("-.5".to_owned()),
            Token::Minus,
        ]
    );
    assert_eq!(slices, vec!["pi(", "e(", "10(", "1.5", ".25", "+", "-.5", "-"]);
    let (tokens, slices) = from_logos("pie");
    assert_eq!(tokens, vec![Token::PI, Token::EulersConstant]);
    assert_eq!(slices, vec!["pi", "e"]);
}

#[test]
fn what_no_rule_recognises_is_dropped() {
    let (tokens, slices) = from_logos("2 $ 3");
    assert_eq!(tokens, vec![Token::Numeric("2".to_owned()), Token::Numeric("3".to_owned())]);
    assert_eq!(slices, vec!["2", "3"]);
    let (tokens, slices) = from_logos("1.");
    assert_eq!(tokens, vec![Token::Numeric("1".to_owned())]);
    assert_eq!(slices, vec!["1"]);
    let (tokens, slices) = from_logos("x\u{e9}\u{4e2d}7\u{1f600}+");
    assert_eq!(tokens, vec![Token::Numeric("7".to_owned()), Token::Plus]);
    assert_eq!(slices, vec!["7", "+"]);
    let (tokens, slices) = from_logos("sin 3)");
    assert_eq!(tokens, vec![Token::Numeric("3".to_owned()), Token::RightParenthesis]);
    assert_eq!(slices, vec!["3", ")"]);
    assert_eq!(value("sin 3)").unwrap(), 3.0);
    assert_eq!(value("0.").unwrap(), 0.0);
}

#[test]
fn empty_input_is_an_incomplete_expression() {
    let (tokens, slices) = from_logos("");
    assert!(tokens.is_empty());
    assert!(slices.is_empty());
    assert_eq!(parse(""), Err(ParseError::IncompleteExpression));
    assert_eq!(parse("  \t "), Err(ParseError::IncompleteExpression));
    assert_eq!(parse("2+"), Err(ParseError::IncompleteExpression));
    assert_eq!(parse("(").unwrap_err(), ParseError::IncompleteExpression);
    assert_eq!(ParseError::IncompleteExpression.message(), "incomplete expression");
}

#[test]
fn an_unknown_function_is_named() {
    assert_eq!(
        value("foo(3)"),
        Err(CalculationError::Evaluation(EvalError::UnknownFunction("foo(".to_owned())))
    );
    let error = EvalError::UnknownFunction("foo(".to_owned());
    assert!(error.message().contains("foo("));
    assert!(error.message().contains("not available"));
    assert_eq!(
        value("2(3)"),
        Err(CalculationError::Evaluation(EvalError::UnknownFunction("2(".to_owned())))
    );
    assert_eq!(
        value("Sin(0)"),
        Err(CalculationError::Evaluation(EvalError::UnknownFunction("Sin(".to_owned())))
    );
}

#[test]
fn each_syntax_error_has_its_input() {
    assert_eq!(parse("*2"), Err(ParseError::ExpectingLiteral));
    assert_eq!(parse("2+)"), Err(ParseError::ExpectingLiteral));
    assert_eq!(parse("2 (3)"), Err(ParseError::ExpectingOperator));
    assert_eq!(parse("2 sin(3)"), Err(ParseError::ExpectingOperator));
    assert_eq!(parse("(2+3"), Err(ParseError::ExpectedClosingParenthesis));
    assert_eq!(parse("sin(2 3)"), Err(ParseError::ExpectedClosingParenthesis));
    assert_eq!(parse("(2=3)"), Err(ParseError::ExpectedClosingParenthesis));
    let tokens = vec![Token::FunctionCall, Token::PI, Token::RightParenthesis];
    let slices: Vec<String> = Vec::new();
    let mut parser = Parser::new(&tokens, &slices);
    assert_eq!(parser.expression(0), Err(ParseError::NoSliceToDefineFunction));
    assert_eq!(ParseError::ExpectingLiteral.message(), "expecting literal");
    assert_eq!(ParseError::ExpectingOperator.message(), "expecting operator");
    assert_eq!(ParseError::NoSliceToDefineFunction.message(), "no slice to define function");
    assert_eq!(ParseError::ExpectedClosingParenthesis.message(), "expected closing parenthesis");
}

#[test]
fn a_token_that_is_no_operator_cannot_combine() {
    let ast = Expression::Binary(Box::new(decimal("1")), Token::Equals, Box::new(decimal("2")));
    assert_eq!(interpreter(ast), Err(EvalError::UnsupportedOperator(Token::Equals)));
    let error = EvalError::UnsupportedOperator(Token::Equals);
    assert!(error.message().contains("Equals"));
    assert!(error.message().contains("not available"));
}

#[test]
fn operands_are_looked_at_before_their_node() {
    let ast = Expression::LeftUnary(
        "foo(".to_owned(),
        Box::new(Expression::LeftUnary("bar(".to_owned(), Box::new(decimal("1")))),
    );
    assert_eq!(interpreter(ast), Err(EvalError::UnknownFunction("bar(".to_owned())));
    let ast = Expression::Binary(
        Box::new(Expression::LeftUnary("left(".to_owned(), Box::new(decimal("1")))),
        Token::Equals,
        Box::new(Expression::LeftUnary("right(".to_owned(), Box::new(decimal("2")))),
    );
    assert_eq!(interpreter(ast), Err(EvalError::UnknownFunction("left(".to_owned())));
    let ast = Expression::Binary(
        Box::new(decimal("1")),
        Token::Equals,
        Box::new(Expression::LeftUnary("right(".to_owned(), Box::new(decimal("2")))),
    );
    assert_eq!(interpreter(ast), Err(EvalError::UnknownFunction("right(".to_owned())));
}

#[test]
fn the_program_is_in_postfix_order() {
    let program = calculate("2+5*sin(pi)").unwrap();
    assert_eq!(
        program,
        vec![
            Step::Push(Number::Decimal("2".to_owned())),
            Step::Push(Number::Decimal("5".to_owned())),
            Step::Push(Number::Pi),
            Step::Apply(Function::Sin),
            Step::Combine(Operator::Multiply),
            Step::Combine(Operator::Add),
        ]
    );
    let program = calculate("(e)").unwrap();
    assert_eq!(program, vec![Step::Push(Number::Euler)]);
}

#[test]
fn binding_powers_order_the_operators() {
    assert_eq!(value("2^3^2").unwrap(), 64.0);
    assert_eq!(value("2*3^2").unwrap(), 18.0);
    assert_eq!(value("10-2-3").unwrap(), 5.0);
    assert_eq!(value("10 - 2 - 3").unwrap(), 5.0);
    assert_eq!(value("8/4/2").unwrap(), 1.0);
    assert_eq!(value("2+3*4-5").unwrap(), 9.0);
    assert_eq!(
        parse("1-2-3").unwrap(),
        Expression::Binary(
            Box::new(Expression::Binary(
                Box::new(decimal("1")),
                Token::Plus,
                Box::new(decimal("-2"))
            )),
            Token::Plus,
            Box::new(decimal("-3"))
        )
    );
    assert_eq!(Token::Plus.left_binding_power(), 10);
    assert_eq!(Token::Minus.left_binding_power(), 10);
    assert_eq!(Token::Multiply.left_binding_power(), 20);
    assert_eq!(Token::Divide.left_binding_power(), 20);
    assert_eq!(Token::Exponentiate.left_binding_power(), 50);
    assert_eq!(Token::LeftParenthesis.left_binding_power(), 100);
    assert_eq!(Token::FunctionCall.left_binding_power(), 99);
    assert_eq!(Token::RightParenthesis.left_binding_power(), 0);
    assert_eq!(Token::Equals.left_binding_power(), 0);
}

#[test]
fn tokens_after_the_expression_are_left_alone() {
    let (tokens, slices) = from_logos("2 3");
    let mut parser = Parser::new(&tokens, &slices);
    assert_eq!(parser.expression(0), Ok(decimal("2")));
    assert_eq!(parser.expression(0), Ok(decimal("3")));
    assert_eq!(parser.expression(0), Err(ParseError::IncompleteExpression));
    assert_eq!(value("2)").unwrap(), 2.0);
    assert_eq!(value("2=3").unwrap(), 2.0);
}

#[test]
fn every_function_has_its_name() {
    assert_eq!(value("radian(180)").unwrap(), std::f64::consts::PI);
    assert_eq!(value("degrees(pi)").unwrap(), 180.0);
    assert_eq!(value("round(2.5)").unwrap(), 3.0);
    assert_eq!(value("trunc(2.75)").unwrap(), 2.0);
    assert_eq!(value("abs(-4)").unwrap(), 4.0);
    assert_eq!(value("ln(e)").unwrap(), 1.0);
    assert_eq!(value("log10(1000)").unwrap(), 3.0);
    assert_eq!(value("log2(8)").unwrap(), 3.0);
    assert_eq!(value("sqrt(16)").unwrap(), 4.0);
    assert_eq!(value("asin(0)").unwrap(), 0.0);
    assert_eq!(value("acos(1)").unwrap(), 0.0);
    assert_eq!(value("atan(0)").unwrap(), 0.0);
    assert_eq!(value("sin(0)").unwrap(), 0.0);
    assert_eq!(value("cos(0)").unwrap(), 1.0);
    assert_eq!(value("tan(0)").unwrap(), 0.0);
    assert_eq!(value("sinh(0)").unwrap(), 0.0);
    assert_eq!(value("cosh(0)").unwrap(), 1.0);
    assert_eq!(value("tanh(0)").unwrap(), 0.0);
    assert_eq!(Function::from_name("log10("), Some(Function::Log10));
    assert_eq!(Function::from_name("log10"), None);
}

#[test]
fn division_by_zero_is_no_error() {
    assert_eq!(value("1/0").unwrap(), f64::INFINITY);
    assert!(value("0/0").unwrap().is_nan());
    assert!(value("-8^.5").unwrap().is_nan());
}

#[test]
fn the_same_tree_gives_the_same_program() {
    let ast = parse("(2+5*2)^2-sqrt(pi)").unwrap();
    let again = parse("(2+5*2)^2-sqrt(pi)").unwrap();
    assert_eq!(ast, again);
    let first = interpreter(ast).unwrap();
    let second = interpreter(again).unwrap();
    assert_eq!(first, second);
    assert_eq!(run(&first), run(&second));
}

#[test]
fn lexemes_put_together_are_the_input_without_what_was_skipped() {
    let (_, slices) = from_logos(" sin( 2.5 ) * pi ^ 2 # - e ");
    assert_eq!(slices.concat(), "sin(2.5)*pi^2-e");
    let (_, slices) = from_logos("5 -3");
    assert_eq!(slices.concat(), "5+-3");
}

#[test]
fn rules_are_told_apart_by_their_longest_match() {
    let input = "log10(-.5) \t pi".as_bytes();
    assert!(matches!(recognize(input, 0), (Some(Rule::FunctionCall), 6)));
    assert!(matches!(recognize(input, 6), (Some(Rule::Numeric), 3)));
    assert!(matches!(recognize(input, 7), (Some(Rule::Numeric), 2)));
    assert!(matches!(recognize(input, 9), (Some(Rule::Operator), 1)));
    assert!(matches!(recognize(input, 10), (Some(Rule::Blank), 3)));
    assert!(matches!(recognize(input, 13), (Some(Rule::Constant), 2)));
    assert!(matches!(recognize(input, 14), (None, 1)));
    assert!(matches!(recognize("e".as_bytes(), 0), (Some(Rule::Constant), 1)));
    assert_eq!(run_length(input, 0, Class::Letter), 3);
    assert_eq!(run_length(input, 3, Class::Digit), 2);
    assert_eq!(run_length(input, 10, Class::Blank), 3);
    assert_eq!(run_length(input, 15, Class::Blank), 0);
}

#[test]
fn a_token_is_read_with_its_lexeme() {
    assert_eq!(
        read_token("2.50*x", 0),
        (Some((Token::Numeric("2.50".to_owned()), "2.50".to_owned())), 4)
    );
    assert_eq!(read_token("2.50*x", 4), (Some((Token::Multiply, "*".to_owned())), 1));
    assert_eq!(read_token("2.50*x", 5), (None, 1));
    assert_eq!(read_token("  2", 0), (None, 2));
}

#[test]
fn strings_are_compared_and_cut_by_their_bytes() {
    assert!(same_text("sin(", "sin("));
    assert!(!same_text("sin(", "sinh("));
    assert!(!same_text("sin(", "cos("));
    assert!(same_text("", ""));
    assert_eq!(ascii_substring("\u{e9}cos(1)", 2, 6), "cos(");
    assert_eq!(ascii_substring("abc", 1, 1), "");
}

#[test]
fn a_token_and_its_copy_are_equal() {
    let token = Token::Numeric("-1.5".to_owned());
    assert_eq!(token.duplicate(), token);
    assert_eq!(Token::FunctionCall.duplicate(), Token::FunctionCall);
    assert!(Token::Exponentiate.is_infix());
    assert!(!Token::Equals.is_infix());
    assert!(!Token::LeftParenthesis.is_infix());
    assert_eq!(Token::PI.null_denotion(), Ok(Expression::Numeric(Number::Pi)));
    assert_eq!(Token::EulersConstant.null_denotion(), Ok(Expression::Numeric(Number::Euler)));
    assert_eq!(Token::Plus.null_denotion(), Err(ParseError::ExpectingLiteral));
}

#[test]
fn an_operator_step_without_a_token_is_incomplete() {
    let tokens: Vec<Token> = Vec::new();
    let slices: Vec<String> = Vec::new();
    let mut parser = Parser::new(&tokens, &slices);
    assert_eq!(parser.parse_left_denotion(decimal("1")), Err(ParseError::IncompleteExpression));
    assert_eq!(parser.parse_null_denotion(), Err(ParseError::IncompleteExpression));
    assert_eq!(parser.expression(0), Err(ParseError::IncompleteExpression));
}

#[test]
fn an_operator_step_takes_the_operator_and_its_right_operand() {
    let (tokens, slices) = from_logos("*3^2+4");
    let mut parser = Parser::new(&tokens, &slices);
    assert_eq!(
        parser.parse_left_denotion(decimal("2")),
        Ok(Expression::Binary(
            Box::new(decimal("2")),
            Token::Multiply,
            Box::new(Expression::Binary(
                Box::new(decimal("3")),
                Token::Exponentiate,
                Box::new(decimal("2"))
            ))
        ))
    );
    assert_eq!(
        parser.parse_left_denotion(decimal("7")),
        Ok(Expression::Binary(Box::new(decimal("7")), Token::Plus, Box::new(decimal("4"))))
    );
    assert_eq!(parser.parse_left_denotion(decimal("7")), Err(ParseError::IncompleteExpression));
    let (tokens, slices) = from_logos("(3");
    let mut parser = Parser::new(&tokens, &slices);
    assert_eq!(parser.parse_left_denotion(decimal("2")), Err(ParseError::ExpectingOperator));
    assert_eq!(parser.parse_null_denotion(), Ok(decimal("3")));
}
