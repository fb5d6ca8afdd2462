//! The tokenizer: from text to tokens and their lexemes.

use vstd::prelude::*;
use vstd::string::*;
use crate::ascii::{all_ascii, ascii_substring, ascii_text};
use crate::grammar::{
    is_operator, lemma_match_in_bounds, lemma_run_in_bounds, recognize, remaining, run, step,
    winner, Class, Rule, MINUS,
};
use crate::token::{lemma_views_push, string_views, token_views, Token, TokenView};

verus! {

/// A token together with the piece of input that it was read from.
pub struct Lexed {
    pub token: TokenView,
    pub lexeme: Seq<char>,
}

impl TokenView {
    /// Whether the token is a number below zero: a literal with a leading
    /// `-` and a digit other than `0`.
    pub open spec fn is_negative_number(self) -> bool {
        self matches TokenView::Numeric(text) && text.len() > 0 && text[0] == '-' && exists|
            i: int,
        |
            0 <= i < text.len() && '1' <= #[trigger] text[i] <= '9'
    }
}

/// The token that one of the bytes `+ - / * ^ ( ) =` makes.
pub open spec fn operator_token(b: u8) -> TokenView {
    if b == 0x2B {
        TokenView::Plus
    } else if b == 0x2D {
        TokenView::Minus
    } else if b == 0x2F {
        TokenView::Divide
    } else if b == 0x2A {
        TokenView::Multiply
    } else if b == 0x5E {
        TokenView::Exponentiate
    } else if b == 0x28 {
        TokenView::LeftParenthesis
    } else if b == 0x29 {
        TokenView::RightParenthesis
    } else {
        TokenView::Equals
    }
}

/// The piece of input that lexing uses up at `pos`, as characters.
pub open spec fn lexeme_at(input: Seq<u8>, pos: int) -> Seq<char> {
    ascii_text(input.subrange(pos, pos + step(input, pos)))
}

/// The token that starts at `pos`. There is none where blanks start or
/// where no rule matches.
pub open spec fn token_at(input: Seq<u8>, pos: int) -> Option<TokenView> {
    match winner(input, pos) {
        None => None,
        Some(Rule::Blank) => None,
        Some(Rule::FunctionCall) => Some(TokenView::FunctionCall),
        Some(Rule::Numeric) => Some(TokenView::Numeric(lexeme_at(input, pos))),
        Some(Rule::Constant) => Some(
            if step(input, pos) == 2 {
                TokenView::PI
            } else {
                TokenView::EulersConstant
            },
        ),
        Some(Rule::Operator) => Some(operator_token(input[pos])),
    }
}

/// The `+` that is put between a number and a negative number.
pub open spec fn inserted_plus() -> Lexed {
    Lexed { token: TokenView::Plus, lexeme: seq!['+'] }
}

/// The tokens that start between `pos` and the end of the input, each
/// with its lexeme, in the order of the input.
pub open spec fn read_from(input: Seq<u8>, pos: int) -> Seq<Lexed>
    decreases remaining(input, pos),
{
    if 0 <= pos < input.len() {
        let rest = read_from(input, pos + step(input, pos));
        match token_at(input, pos) {
            None => rest,
            Some(token) => seq![Lexed { token, lexeme: lexeme_at(input, pos) }] + rest,
        }
    } else {
        Seq::empty()
    }
}

/// The stream with a `+` in front of every negative number that comes
/// straight after a number, `after_number` telling whether a number comes
/// before the stream.
///
/// A literal takes the `-` in front of it, so `5 -3` reads as the numbers
/// `5` and `-3` with no operator between them. The `+` makes it a sum.
pub open spec fn with_plus(stream: Seq<Lexed>, after_number: bool) -> Seq<Lexed>
    decreases stream.len(),
{
    if stream.len() == 0 {
        stream
    } else {
        let first = stream[0];
        let rest = with_plus(stream.drop_first(), first.token is Numeric);
        if after_number && first.token.is_negative_number() {
            seq![inserted_plus(), first] + rest
        } else {
            seq![first] + rest
        }
    }
}

/// The tokens of a whole input.
pub open spec fn lexed(input: Seq<u8>) -> Seq<Lexed> {
    with_plus(read_from(input, 0), false)
}

/// The input from `pos` on without the blanks and without the bytes that
/// no rule recognises.
pub open spec fn recognized_from(input: Seq<u8>, pos: int) -> Seq<char>
    decreases remaining(input, pos),
{
    if 0 <= pos < input.len() {
        let rest = recognized_from(input, pos + step(input, pos));
        if token_at(input, pos) is Some {
            lexeme_at(input, pos) + rest
        } else {
            rest
        }
    } else {
        Seq::empty()
    }
}

/// The strings of a sequence, one after the other.
pub open spec fn joined(parts: Seq<Seq<char>>) -> Seq<char>
    decreases parts.len(),
{
    if parts.len() == 0 {
        Seq::empty()
    } else {
        parts[0] + joined(parts.drop_first())
    }
}

/// Whether some negative number of the stream comes straight after a
/// number, so that [`with_plus`] has a `+` to insert.
pub open spec fn plus_needed(stream: Seq<Lexed>) -> bool {
    exists|i: int|
        0 < i < stream.len() && stream[i - 1].token is Numeric
            && (#[trigger] stream[i]).token.is_negative_number()
}

/// The tokens of a stream, without their lexemes.
pub open spec fn tokens_of(stream: Seq<Lexed>) -> Seq<TokenView> {
    stream.map_values(|l: Lexed| l.token)
}

/// The lexemes of a stream, without their tokens.
pub open spec fn lexemes_of(stream: Seq<Lexed>) -> Seq<Seq<char>> {
    stream.map_values(|l: Lexed| l.lexeme)
}

/// Adding an entry to a stream adds its token and its lexeme.
pub proof fn lemma_stream_push(stream: Seq<Lexed>, entry: Lexed)
    ensures
        tokens_of(stream.push(entry)) == tokens_of(stream).push(entry.token),
        lexemes_of(stream.push(entry)) == lexemes_of(stream).push(entry.lexeme),
{
    assert(tokens_of(stream.push(entry)) =~= tokens_of(stream).push(entry.token));
    assert(lexemes_of(stream.push(entry)) =~= lexemes_of(stream).push(entry.lexeme));
}

/// What a rule matches is made of bytes below 128.
pub proof fn lemma_match_is_ascii(input: Seq<u8>, pos: int, rule: Rule)
    requires
        0 <= pos < input.len(),
    ensures
        pos + rule.matched(input, pos) <= input.len(),
        all_ascii(input.subrange(pos, pos + rule.matched(input, pos))),
{
    lemma_match_in_bounds(input, pos, rule);
    let part = input.subrange(pos, pos + rule.matched(input, pos));
    match rule {
        Rule::Blank => {
            lemma_run_in_bounds(input, pos, Class::Blank);
        },
        Rule::FunctionCall => {
            let letters = run(input, pos, Class::Letter);
            lemma_run_in_bounds(input, pos, Class::Letter);
            lemma_run_in_bounds(input, pos + letters, Class::Digit);
        },
        Rule::Numeric => {
            let sign: nat = if input[pos] == MINUS {
                1
            } else {
                0
            };
            lemma_run_in_bounds(input, pos + sign, Class::Digit);
            let dot = pos + sign + run(input, pos + sign, Class::Digit);
            if dot < input.len() {
                lemma_run_in_bounds(input, dot + 1, Class::Digit);
            }
        },
        Rule::Constant => {},
        Rule::Operator => {},
    }
    assert forall|i: int| 0 <= i < part.len() implies #[trigger] part[i] < 128 by {
        assert(part[i] == input[pos + i]);
    }
}

/// The token that an operator byte makes.
pub fn operator_from(b: u8) -> (token: Token)
    requires
        is_operator(b),
    ensures
        token@ == operator_token(b),
{
    if b == 0x2B {
        Token::Plus
    } else if b == 0x2D {
        Token::Minus
    } else if b == 0x2F {
        Token::Divide
    } else if b == 0x2A {
        Token::Multiply
    } else if b == 0x5E {
        Token::Exponentiate
    } else if b == 0x28 {
        Token::LeftParenthesis
    } else if b == 0x29 {
        Token::RightParenthesis
    } else {
        Token::Equals
    }
}

/// Whether the bytes from `from` to `to` start with `-` and hold a digit
/// other than `0`.
pub fn below_zero(input: &[u8], from: usize, to: usize) -> (negative: bool)
    requires
        from < to <= input.len(),
    ensures
        negative == TokenView::Numeric(
            ascii_text(input@.subrange(from as int, to as int)),
        ).is_negative_number(),
{
    let ghost text = ascii_text(input@.subrange(from as int, to as int));
    if input[from] != MINUS {
        assert(text[0] == input@[from as int] as char);
        return false;
    }
    assert(text[0] == input@[from as int] as char);
    let mut at: usize = from;
    while at < to
        invariant
            from <= at <= to <= input.len(),
            text[0] == '-',
            text == ascii_text(input@.subrange(from as int, to as int)),
            forall|i: int| 0 <= i < at - from ==> !('1' <= #[trigger] text[i] <= '9'),
        decreases to - at,
    {
        let b = input[at];
        assert(text[at - from] == b as char);
        if 0x31 <= b && b <= 0x39 {
            assert('1' <= text[at - from] <= '9');
            return true;
        }
        at += 1;
    }
    false
}

/// Reads the token that starts at byte `pos` of `text`, if one starts
/// there, and tells how many bytes were used up.
pub fn read_token(text: &str, pos: usize) -> (read: (Option<(Token, String)>, usize))
    requires
        pos < text.spec_bytes().len(),
    ensures
        read.1 == step(text.spec_bytes(), pos as int),
        pos + read.1 <= text.spec_bytes().len(),
        match read.0 {
            None => token_at(text.spec_bytes(), pos as int) is None,
            Some((token, lexeme)) => token_at(text.spec_bytes(), pos as int) == Some(token@)
                && lexeme@ == lexeme_at(text.spec_bytes(), pos as int),
        },
{
    let input = text.as_bytes();
    let (rule, length) = recognize(input, pos);
    match rule {
        None => (None, length),
        Some(Rule::Blank) => (None, length),
        Some(rule) => {
            proof {
                lemma_match_is_ascii(input@, pos as int, rule);
            }
            let lexeme = ascii_substring(text, pos, pos + length);
            let token = match rule {
                Rule::FunctionCall => Token::FunctionCall,
                Rule::Numeric => Token::Numeric(lexeme.clone()),
                Rule::Constant => if length == 2 {
                    Token::PI
                } else {
                    Token::EulersConstant
                },
                _ => operator_from(input[pos]),
            };
            (Some((token, lexeme)), length)
        },
    }
}

/// Cuts `text` into tokens and their lexemes, in the order of the text.
///
/// Blanks and whatever no rule recognises are passed over. Where a
/// negative literal follows a number, a `+` with the lexeme `+` is put
/// in between.
pub fn from_logos(text: &str) -> (read: (Vec<Token>, Vec<String>))
    ensures
        token_views(read.0@) == tokens_of(lexed(text.spec_bytes())),
        string_views(read.1@) == lexemes_of(lexed(text.spec_bytes())),
        read.0@.len() == read.1@.len(),
{
    let input = text.as_bytes();
    let mut lexer_tokens: Vec<Token> = Vec::new();
    let mut lexer_slices: Vec<String> = Vec::new();
    let mut after_number = false;
    let mut pos: usize = 0;
    let ghost mut done: Seq<Lexed> = Seq::empty();
    proof {
        assert(token_views(lexer_tokens@) =~= tokens_of(done));
        assert(string_views(lexer_slices@) =~= lexemes_of(done));
        assert(done + with_plus(read_from(input@, 0), false) =~= lexed(input@));
    }
    while pos < input.len()
        invariant
            pos <= input.len(),
            input@ == text.spec_bytes(),
            done + with_plus(read_from(input@, pos as int), after_number) == lexed(input@),
            token_views(lexer_tokens@) == tokens_of(done),
            string_views(lexer_slices@) == lexemes_of(done),
        decreases input.len() - pos,
    {
        let (found, length) = read_token(text, pos);
        match found {
            None => {},
            Some((token, lexeme)) => {
                let ghost this = Lexed { token: token@, lexeme: lexeme@ };
                let ghost before = done;
                let ghost rest = with_plus(read_from(input@, pos + length), token@ is Numeric);
                proof {
                    let tail = read_from(input@, pos + length);
                    assert((seq![this] + tail).drop_first() =~= tail);
                }
                let number = match &token {
                    Token::Numeric(_) => true,
                    _ => false,
                };
                if after_number && number && below_zero(input, pos, pos + length) {
                    let plus = Token::Plus;
                    let sign = "+".to_owned();
                    proof {
                        reveal_strlit("+");
                        assert(sign@ =~= seq!['+']);
                        lemma_views_push(lexer_tokens@, lexer_slices@, plus, sign);
                        lemma_stream_push(done, inserted_plus());
                        done = done.push(inserted_plus());
                        assert(before + (seq![inserted_plus(), this] + rest) =~= done.push(this)
                            + rest);
                    }
                    lexer_tokens.push(plus);
                    lexer_slices.push(sign);
                } else {
                    proof {
                        assert(before + (seq![this] + rest) =~= done.push(this) + rest);
                    }
                }
                proof {
                    lemma_views_push(lexer_tokens@, lexer_slices@, token, lexeme);
                    lemma_stream_push(done, this);
                    done = done.push(this);
                }
                lexer_tokens.push(token);
                lexer_slices.push(lexeme);
                after_number = number;
            },
        }
        pos += length;
    }
    proof {
        assert(done + with_plus(read_from(input@, pos as int), after_number) =~= done);
    }
    (lexer_tokens, lexer_slices)
}

/// The lexemes of the tokens read from `pos` on, put together, are the
/// input from `pos` on without what was passed over.
pub proof fn lemma_lexemes_cover_input(input: Seq<u8>, pos: int)
    ensures
        joined(lexemes_of(read_from(input, pos))) == recognized_from(input, pos),
    decreases remaining(input, pos),
{
    if 0 <= pos < input.len() {
        let next = pos + step(input, pos);
        let rest = read_from(input, next);
        lemma_lexemes_cover_input(input, next);
        match token_at(input, pos) {
            None => {},
            Some(token) => {
                let this = Lexed { token, lexeme: lexeme_at(input, pos) };
                let parts = lexemes_of(seq![this] + rest);
                assert(parts.drop_first() =~= lexemes_of(rest));
                assert(parts[0] == this.lexeme);
            },
        }
    } else {
        assert(lexemes_of(read_from(input, pos)) =~= Seq::<Seq<char>>::empty());
    }
}

/// Where no negative number comes straight after a number, nothing is
/// inserted.
pub proof fn lemma_nothing_inserted(stream: Seq<Lexed>, after_number: bool)
    requires
        !plus_needed(stream),
        after_number && stream.len() > 0 ==> !stream[0].token.is_negative_number(),
    ensures
        with_plus(stream, after_number) == stream,
    decreases stream.len(),
{
    if stream.len() > 0 {
        let first = stream[0];
        let rest = stream.drop_first();
        assert forall|i: int| 0 < i < rest.len() && rest[i - 1].token is Numeric implies !(
        #[trigger] rest[i]).token.is_negative_number() by {
            assert(rest[i - 1] == stream[i]);
            assert(rest[i] == stream[i + 1]);
        }
        if rest.len() > 0 && first.token is Numeric {
            assert(rest[0] == stream[1]);
            assert(stream[1 - 1].token is Numeric);
        }
        lemma_nothing_inserted(rest, first.token is Numeric);
        assert(seq![first] + rest =~= stream);
    }
}

/// Round trip: unless a negative number comes straight after a number, the
/// lexemes of an input, put together, are the input without its blanks and
/// without the bytes that no rule recognises.
pub proof fn lemma_round_trip(input: Seq<u8>)
    requires
        !plus_needed(read_from(input, 0)),
    ensures
        joined(lexemes_of(lexed(input))) == recognized_from(input, 0),
{
    lemma_nothing_inserted(read_from(input, 0), false);
    lemma_lexemes_cover_input(input, 0);
}

/// An entry that the tokenizer may hand out: its token is not `Error`,
/// and its lexeme is not empty.
pub open spec fn well_read(entry: Lexed) -> bool {
    entry.token !is Error && entry.lexeme.len() > 0
}

/// Every token read from the input is a token, with a lexeme.
pub proof fn lemma_read_from_well_read(input: Seq<u8>, pos: int)
    ensures
        forall|i: int|
            0 <= i < read_from(input, pos).len() ==> well_read(#[trigger] read_from(input, pos)[i]),
    decreases remaining(input, pos),
{
    if 0 <= pos < input.len() {
        let next = pos + step(input, pos);
        let rest = read_from(input, next);
        lemma_read_from_well_read(input, next);
        match token_at(input, pos) {
            Some(token) => {
                let this = Lexed { token, lexeme: lexeme_at(input, pos) };
                lemma_match_in_bounds(input, pos, winner(input, pos)->Some_0);
                assert(well_read(this));
                assert forall|i: int| 0 <= i < (seq![this] + rest).len() implies well_read(
                    #[trigger] (seq![this] + rest)[i],
                ) by {
                    if i > 0 {
                        assert((seq![this] + rest)[i] == rest[i - 1]);
                    }
                }
            },
            None => {},
        }
    }
}

/// Inserting `+` keeps every entry a token with a lexeme.
pub proof fn lemma_with_plus_well_read(stream: Seq<Lexed>, after_number: bool)
    requires
        forall|i: int| 0 <= i < stream.len() ==> well_read(#[trigger] stream[i]),
    ensures
        forall|i: int|
            0 <= i < with_plus(stream, after_number).len() ==> well_read(
                #[trigger] with_plus(stream, after_number)[i],
            ),
    decreases stream.len(),
{
    if stream.len() > 0 {
        let rest = stream.drop_first();
        assert forall|i: int| 0 <= i < rest.len() implies well_read(#[trigger] rest[i]) by {
            assert(rest[i] == stream[i + 1]);
        }
        lemma_with_plus_well_read(rest, stream[0].token is Numeric);
        let tail = with_plus(rest, stream[0].token is Numeric);
        let head = if after_number && stream[0].token.is_negative_number() {
            seq![inserted_plus(), stream[0]]
        } else {
            seq![stream[0]]
        };
        assert(with_plus(stream, after_number) == head + tail);
        assert forall|i: int| 0 <= i < (head + tail).len() implies well_read(
            #[trigger] (head + tail)[i],
        ) by {
            if i >= head.len() {
                assert((head + tail)[i] == tail[i - head.len()]);
            } else {
                assert((head + tail)[i] == head[i]);
            }
        }
    }
}

/// The tokenizer hands out no `Error` token and no empty lexeme.
pub proof fn lemma_lexed_well_read(input: Seq<u8>)
    ensures
        forall|i: int| 0 <= i < lexed(input).len() ==> well_read(#[trigger] lexed(input)[i]),
{
    lemma_read_from_well_read(input, 0);
    lemma_with_plus_well_read(read_from(input, 0), false);
}

} // verus!
