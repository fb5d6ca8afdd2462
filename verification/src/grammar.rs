//! The lexical rules: which lexeme starts at a given place of the input.
//!
//! Five rules compete at every place. The one that matches the most bytes
//! wins; no two of them ever match the same number of bytes, so nothing
//! else has to be decided. Where none matches, one byte is dropped.

use vstd::prelude::*;

verus! {

/// A class of bytes that a rule repeats.
#[derive(Clone, Copy, Debug)]
pub enum Class {
    /// `0` to `9`.
    Digit,
    /// `a` to `z` and `A` to `Z`.
    Letter,
    /// Space, tab, line feed and form feed.
    Blank,
}

impl Class {
    /// Whether the byte belongs to the class.
    pub open spec fn holds(self, b: u8) -> bool {
        match self {
            Class::Digit => 0x30 <= b <= 0x39,
            Class::Letter => (0x41 <= b <= 0x5A) || (0x61 <= b <= 0x7A),
            Class::Blank => b == 0x20 || b == 0x09 || b == 0x0A || b == 0x0C,
        }
    }

    /// Whether the byte belongs to the class.
    pub fn contains(&self, b: u8) -> (inside: bool)
        ensures
            inside == self.holds(b),
    {
        match self {
            Class::Digit => 0x30 <= b && b <= 0x39,
            Class::Letter => (0x41 <= b && b <= 0x5A) || (0x61 <= b && b <= 0x7A),
            Class::Blank => b == 0x20 || b == 0x09 || b == 0x0A || b == 0x0C,
        }
    }
}

/// The bytes `-`, `.`, `(`, `p`, `i` and `e`, which the rules name one by one.
pub const MINUS: u8 = 0x2D;

pub const DOT: u8 = 0x2E;

pub const OPEN: u8 = 0x28;

pub const LOWER_P: u8 = 0x70;

pub const LOWER_I: u8 = 0x69;

pub const LOWER_E: u8 = 0x65;

/// How many bytes are left from `pos` on.
pub open spec fn remaining(input: Seq<u8>, pos: int) -> nat {
    if 0 <= pos < input.len() {
        (input.len() - pos) as nat
    } else {
        0
    }
}

/// The number of bytes of `class` that follow one another from `pos` on.
pub open spec fn run(input: Seq<u8>, pos: int, class: Class) -> nat
    decreases remaining(input, pos),
{
    if 0 <= pos < input.len() && class.holds(input[pos]) {
        1 + run(input, pos + 1, class)
    } else {
        0
    }
}

/// Whether the byte is one of the single-character tokens
/// `+ - / * ^ ( ) =`.
pub open spec fn is_operator(b: u8) -> bool {
    b == 0x2B || b == 0x2D || b == 0x2F || b == 0x2A || b == 0x5E || b == 0x28 || b == 0x29 || b
        == 0x3D
}

/// The rules, in the order in which this module lists them.
#[derive(Clone, Copy, Debug)]
pub enum Rule {
    /// One or more blanks. They make no token.
    Blank,
    /// A name and an opening parenthesis: letters, then digits, at least
    /// one of either, then `(`.
    FunctionCall,
    /// A number: an optional `-`, optionally digits and a `.`, then one or
    /// more digits.
    Numeric,
    /// `pi` or `e`.
    Constant,
    /// One of `+ - / * ^ ( ) =`.
    Operator,
}

impl Rule {
    /// The number of bytes that the rule matches at `pos`, at its longest;
    /// 0 where it does not match.
    pub open spec fn matched(self, input: Seq<u8>, pos: int) -> nat {
        match self {
            Rule::Blank => run(input, pos, Class::Blank),
            Rule::FunctionCall => {
                let letters = run(input, pos, Class::Letter);
                let digits = run(input, pos + letters, Class::Digit);
                let paren = pos + letters + digits;
                if letters + digits > 0 && paren < input.len() && input[paren] == OPEN {
                    letters + digits + 1
                } else {
                    0
                }
            },
            Rule::Numeric => {
                let sign: nat = if 0 <= pos < input.len() && input[pos] == MINUS {
                    1
                } else {
                    0
                };
                let whole = run(input, pos + sign, Class::Digit);
                let dot = pos + sign + whole;
                let fraction = if 0 <= dot < input.len() && input[dot] == DOT {
                    run(input, dot + 1, Class::Digit)
                } else {
                    0
                };
                if fraction > 0 {
                    sign + whole + 1 + fraction
                } else if whole > 0 {
                    sign + whole
                } else {
                    0
                }
            },
            Rule::Constant => {
                if 0 <= pos && pos + 1 < input.len() && input[pos] == LOWER_P && input[pos + 1]
                    == LOWER_I {
                    2
                } else if 0 <= pos < input.len() && input[pos] == LOWER_E {
                    1
                } else {
                    0
                }
            },
            Rule::Operator => {
                if 0 <= pos < input.len() && is_operator(input[pos]) {
                    1
                } else {
                    0
                }
            },
        }
    }
}

/// The greater of two lengths.
pub open spec fn longer(a: nat, b: nat) -> nat {
    if a >= b {
        a
    } else {
        b
    }
}

/// The length of the longest match of any rule at `pos`; 0 where none
/// matches.
pub open spec fn longest(input: Seq<u8>, pos: int) -> nat {
    longer(
        Rule::Blank.matched(input, pos),
        longer(
            Rule::FunctionCall.matched(input, pos),
            longer(
                Rule::Numeric.matched(input, pos),
                longer(Rule::Constant.matched(input, pos), Rule::Operator.matched(input, pos)),
            ),
        ),
    )
}

/// The rule that matches the most bytes at `pos`, if any matches.
pub open spec fn winner(input: Seq<u8>, pos: int) -> Option<Rule> {
    let most = longest(input, pos);
    if most == 0 {
        None
    } else if Rule::Blank.matched(input, pos) == most {
        Some(Rule::Blank)
    } else if Rule::FunctionCall.matched(input, pos) == most {
        Some(Rule::FunctionCall)
    } else if Rule::Numeric.matched(input, pos) == most {
        Some(Rule::Numeric)
    } else if Rule::Constant.matched(input, pos) == most {
        Some(Rule::Constant)
    } else {
        Some(Rule::Operator)
    }
}

/// The number of bytes that lexing uses up at `pos`: the longest match, or
/// one byte, dropped, where no rule matches.
pub open spec fn step(input: Seq<u8>, pos: int) -> nat {
    if longest(input, pos) == 0 {
        1
    } else {
        longest(input, pos)
    }
}

/// A run lies inside the input.
pub proof fn lemma_run_in_bounds(input: Seq<u8>, pos: int, class: Class)
    requires
        0 <= pos <= input.len(),
    ensures
        pos + run(input, pos, class) <= input.len(),
        forall|i: int| pos <= i < pos + run(input, pos, class) ==> class.holds(#[trigger] input[i]),
        pos + run(input, pos, class) < input.len() ==> !class.holds(
            input[pos + run(input, pos, class)],
        ),
    decreases remaining(input, pos),
{
    if pos < input.len() && class.holds(input[pos]) {
        lemma_run_in_bounds(input, pos + 1, class);
    }
}

/// Every match lies inside the input.
pub proof fn lemma_match_in_bounds(input: Seq<u8>, pos: int, rule: Rule)
    requires
        0 <= pos <= input.len(),
    ensures
        pos + rule.matched(input, pos) <= input.len(),
{
    match rule {
        Rule::Blank => {
            lemma_run_in_bounds(input, pos, Class::Blank);
        },
        Rule::FunctionCall => {},
        Rule::Numeric => {
            let sign: nat = if pos < input.len() && input[pos] == MINUS {
                1
            } else {
                0
            };
            lemma_run_in_bounds(input, pos + sign, Class::Digit);
            let dot = pos + sign + run(input, pos + sign, Class::Digit);
            if dot < input.len() {
                lemma_run_in_bounds(input, dot + 1, Class::Digit);
            }
        },
        Rule::Constant => {},
        Rule::Operator => {},
    }
}

/// No two rules match the same number of bytes at one place: the longest
/// match names its rule.
pub proof fn lemma_no_tie(input: Seq<u8>, pos: int, first: Rule, second: Rule)
    requires
        0 <= pos < input.len(),
        first.matched(input, pos) > 0,
        first.matched(input, pos) == second.matched(input, pos),
    ensures
        first == second,
{
    reveal_with_fuel(run, 3);
    lemma_run_in_bounds(input, pos, Class::Letter);
    lemma_run_in_bounds(input, pos, Class::Digit);
    lemma_run_in_bounds(input, pos + run(input, pos, Class::Letter), Class::Digit);
}

/// Counts the bytes of `class` that follow one another from `pos` on.
pub fn run_length(input: &[u8], pos: usize, class: Class) -> (count: usize)
    requires
        pos <= input.len(),
    ensures
        count == run(input@, pos as int, class),
        pos + count <= input.len(),
{
    let mut end: usize = pos;
    while end < input.len() && class.contains(input[end])
        invariant
            pos <= end <= input.len(),
            run(input@, pos as int, class) == (end - pos) + run(input@, end as int, class),
        decreases input.len() - end,
    {
        end += 1;
    }
    end - pos
}

/// The length of the function call that starts at `pos`, or 0.
pub fn call_length(input: &[u8], pos: usize) -> (length: usize)
    requires
        pos <= input.len(),
    ensures
        length == Rule::FunctionCall.matched(input@, pos as int),
        pos + length <= input.len(),
{
    let letters = run_length(input, pos, Class::Letter);
    let digits = run_length(input, pos + letters, Class::Digit);
    let paren = pos + letters + digits;
    if letters + digits > 0 && paren < input.len() && input[paren] == OPEN {
        letters + digits + 1
    } else {
        0
    }
}

/// The length of the number that starts at `pos`, or 0.
pub fn numeric_length(input: &[u8], pos: usize) -> (length: usize)
    requires
        pos <= input.len(),
    ensures
        length == Rule::Numeric.matched(input@, pos as int),
        pos + length <= input.len(),
{
    let sign: usize = if pos < input.len() && input[pos] == MINUS {
        1
    } else {
        0
    };
    let whole = run_length(input, pos + sign, Class::Digit);
    let dot = pos + sign + whole;
    let fraction = if dot < input.len() && input[dot] == DOT {
        run_length(input, dot + 1, Class::Digit)
    } else {
        0
    };
    if fraction > 0 {
        sign + whole + 1 + fraction
    } else if whole > 0 {
        sign + whole
    } else {
        0
    }
}

/// The length of the constant that starts at `pos`, or 0.
pub fn constant_length(input: &[u8], pos: usize) -> (length: usize)
    requires
        pos <= input.len(),
    ensures
        length == Rule::Constant.matched(input@, pos as int),
        pos + length <= input.len(),
{
    if pos < input.len() && input[pos] == LOWER_P && pos + 1 < input.len() && input[pos + 1]
        == LOWER_I {
        2
    } else if pos < input.len() && input[pos] == LOWER_E {
        1
    } else {
        0
    }
}

/// Whether the byte is one of the single-character tokens.
pub fn operator_byte(b: u8) -> (yes: bool)
    ensures
        yes == is_operator(b),
{
    b == 0x2B || b == 0x2D || b == 0x2F || b == 0x2A || b == 0x5E || b == 0x28 || b == 0x29 || b
        == 0x3D
}

/// Finds the rule that wins at `pos` and the number of bytes that lexing
/// uses up there.
pub fn recognize(input: &[u8], pos: usize) -> (found: (Option<Rule>, usize))
    requires
        pos < input.len(),
    ensures
        found.0 == winner(input@, pos as int),
        found.1 == step(input@, pos as int),
        1 <= found.1,
        pos + found.1 <= input.len(),
{
    proof {
        reveal_with_fuel(run, 3);
        lemma_run_in_bounds(input@, pos as int, Class::Letter);
        lemma_run_in_bounds(input@, pos as int, Class::Digit);
        lemma_run_in_bounds(
            input@,
            pos + run(input@, pos as int, Class::Letter),
            Class::Digit,
        );
    }
    let blanks = run_length(input, pos, Class::Blank);
    if blanks > 0 {
        return (Some(Rule::Blank), blanks);
    }
    let call = call_length(input, pos);
    if call > 0 {
        return (Some(Rule::FunctionCall), call);
    }
    let number = numeric_length(input, pos);
    if number > 0 {
        return (Some(Rule::Numeric), number);
    }
    let constant = constant_length(input, pos);
    if constant > 0 {
        return (Some(Rule::Constant), constant);
    }
    if operator_byte(input[pos]) {
        return (Some(Rule::Operator), 1);
    }
    (None, 1)
}

} // verus!
