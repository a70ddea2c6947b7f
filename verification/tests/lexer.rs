use symbolic_math::arith::Operation;
use symbolic_math::parser::lexer::{
    match_keyword, parse_digits, parse_ident, parse_sequence_while, tokenize, CharIter, LexError,
};
use symbolic_math::parser::token::Token;
use symbolic_math::scalar::Scalar;

fn scalar(x: f32) -> Scalar {
    Scalar::from_bits(x.to_bits())
}

fn float(s: Scalar) -> f32 {
    f32::from_bits(s.to_bits())
}

fn kernel(op: Operation) -> Scalar {
    match op {
        Operation::Literal(text) => scalar(text.parse::<f32>().unwrap()),
        Operation::Add(a, b) => scalar(float(a) + float(b)),
        Operation::Sub(a, b) => scalar(float(a) - float(b)),
        Operation::Mul(a, b) => scalar(float(a) * float(b)),
        Operation::Div(a, b) => scalar(float(a) / float(b)),
        Operation::Sin(a) => scalar(float(a).sin()),
        Operation::Pow { base, exponent } => scalar(float(base).powf(float(exponent))),
        Operation::Log { argument, base } => scalar(float(argument).log(float(base))),
    }
}

fn number(x: f32) -> Token {
    Token::Number(scalar(x))
}

fn ident(name: &str) -> Token {
    Token::Ident(name.to_string())
}

#[test]
fn empty_text_has_no_tokens() {
    assert_eq!(tokenize("", &kernel), Ok(vec![]));
}

#[test]
fn spaces_alone_have_no_tokens() {
    assert_eq!(tokenize("    ", &kernel), Ok(vec![]));
}

#[test]
fn one_plus_two() {
    assert_eq!(
        tokenize("1+2", &kernel),
        Ok(vec![number(1.0), Token::Plus, number(2.0)])
    );
}

#[test]
fn every_punctuation_character() {
    assert_eq!(
        tokenize("+-*/^(),", &kernel),
        Ok(vec![
            Token::Plus,
            Token::Minus,
            Token::Star,
            Token::Slash,
            Token::Caret,
            Token::LParen,
            Token::RParen,
            Token::Comma,
        ])
    );
}

#[test]
fn spaces_separate_and_vanish() {
    assert_eq!(
        tokenize("  12   +  x ", &kernel),
        Ok(vec![number(12.0), Token::Plus, ident("x")])
    );
}

#[test]
fn a_space_splits_a_number() {
    assert_eq!(tokenize("1 2", &kernel), Ok(vec![number(1.0), number(2.0)]));
}

#[test]
fn number_with_a_fraction() {
    assert_eq!(tokenize("3.25", &kernel), Ok(vec![number(3.25)]));
    assert_eq!(tokenize("0.5", &kernel), Ok(vec![number(0.5)]));
    assert_eq!(tokenize("007.125", &kernel), Ok(vec![number(7.125)]));
}

#[test]
fn number_takes_every_digit() {
    assert_eq!(tokenize("1234567", &kernel), Ok(vec![number(1234567.0)]));
    assert_eq!(
        tokenize("12.5x", &kernel),
        Ok(vec![number(12.5), ident("x")])
    );
}

#[test]
fn literal_text_reaches_the_kernel_whole() {
    let seen = std::cell::RefCell::new(Vec::new());
    let recording = |op: Operation| {
        if let Operation::Literal(text) = &op {
            seen.borrow_mut().push(text.clone());
        }
        kernel(op)
    };
    let tokens = tokenize("12.50+3 x 0.125", &recording);
    assert_eq!(
        tokens,
        Ok(vec![
            number(12.5),
            Token::Plus,
            number(3.0),
            ident("x"),
            number(0.125)
        ])
    );
    assert_eq!(
        *seen.borrow(),
        vec!["12.50".to_string(), "3".to_string(), "0.125".to_string()]
    );
}

#[test]
fn identifier_takes_letters_and_underscores() {
    assert_eq!(tokenize("abc", &kernel), Ok(vec![ident("abc")]));
    assert_eq!(tokenize("_a_B_", &kernel), Ok(vec![ident("_a_B_")]));
    assert_eq!(
        tokenize("foo bar", &kernel),
        Ok(vec![ident("foo"), ident("bar")])
    );
}

#[test]
fn identifier_stops_at_a_digit() {
    assert_eq!(tokenize("x2", &kernel), Ok(vec![ident("x"), number(2.0)]));
}

#[test]
fn sin_is_an_identifier() {
    assert_eq!(
        tokenize("sin(x)", &kernel),
        Ok(vec![ident("sin"), Token::LParen, ident("x"), Token::RParen])
    );
}

#[test]
fn implicit_product_text() {
    assert_eq!(
        tokenize("2(x+1)", &kernel),
        Ok(vec![
            number(2.0),
            Token::LParen,
            ident("x"),
            Token::Plus,
            number(1.0),
            Token::RParen
        ])
    );
}

#[test]
fn unexpected_character() {
    assert_eq!(tokenize("1 + $", &kernel), Err(LexError::UnexpectedChar('$')));
    assert_eq!(tokenize("a\tb", &kernel), Err(LexError::UnexpectedChar('\t')));
    assert_eq!(tokenize("\n", &kernel), Err(LexError::UnexpectedChar('\n')));
    assert_eq!(tokenize(".5", &kernel), Err(LexError::UnexpectedChar('.')));
    assert_eq!(tokenize("é", &kernel), Err(LexError::UnexpectedChar('é')));
}

#[test]
fn first_error_wins() {
    assert_eq!(tokenize("# 1. $", &kernel), Err(LexError::UnexpectedChar('#')));
    assert_eq!(tokenize("1. $", &kernel), Err(LexError::MalformedNumber));
}

#[test]
fn point_without_digits_is_malformed() {
    assert_eq!(tokenize("1.", &kernel), Err(LexError::MalformedNumber));
    assert_eq!(tokenize("1.x", &kernel), Err(LexError::MalformedNumber));
    assert_eq!(tokenize("1..2", &kernel), Err(LexError::MalformedNumber));
    assert_eq!(tokenize("2 + 3. ", &kernel), Err(LexError::MalformedNumber));
}

#[test]
fn second_point_is_unexpected() {
    assert_eq!(tokenize("1.2.3", &kernel), Err(LexError::UnexpectedChar('.')));
}

#[test]
fn unicode_digits_and_letters_are_refused() {
    assert_eq!(tokenize("٣", &kernel), Err(LexError::UnexpectedChar('٣')));
    assert_eq!(tokenize("xλ", &kernel), Err(LexError::UnexpectedChar('λ')));
}

#[test]
fn char_iter_peeks_and_takes() {
    let mut chars = CharIter::new("ab");
    assert_eq!(chars.peek(), Some('a'));
    assert_eq!(chars.peek(), Some('a'));
    assert_eq!(chars.next(), Some('a'));
    assert_eq!(chars.peek(), Some('b'));
    assert_eq!(chars.next(), Some('b'));
    assert_eq!(chars.peek(), None);
    assert_eq!(chars.next(), None);
    assert_eq!(chars.next(), None);
}

#[test]
fn char_iter_walks_characters_not_bytes() {
    let mut chars = CharIter::new("aé");
    assert_eq!(chars.next(), Some('a'));
    assert_eq!(chars.next(), Some('é'));
    assert_eq!(chars.next(), None);
}

#[test]
fn parse_digits_moves_the_leading_digits() {
    let mut chars = CharIter::new("123abc");
    let mut text = String::from(">");
    parse_digits(&mut text, &mut chars);
    assert_eq!(text, ">123");
    assert_eq!(chars.peek(), Some('a'));
}

#[test]
fn parse_digits_moves_nothing_without_a_digit() {
    let mut chars = CharIter::new("x1");
    let mut text = String::new();
    parse_digits(&mut text, &mut chars);
    assert_eq!(text, "");
    assert_eq!(chars.peek(), Some('x'));
}

#[test]
fn parse_digits_runs_to_the_end() {
    let mut chars = CharIter::new("42");
    let mut text = String::new();
    parse_digits(&mut text, &mut chars);
    assert_eq!(text, "42");
    assert_eq!(chars.peek(), None);
}

#[test]
fn parse_ident_moves_the_leading_identifier() {
    let mut chars = CharIter::new("ab_C9 ");
    let mut text = String::new();
    parse_ident(&mut text, &mut chars);
    assert_eq!(text, "ab_C");
    assert_eq!(chars.peek(), Some('9'));
}

#[test]
fn parse_sequence_while_stops_at_the_first_refusal() {
    let mut chars = CharIter::new("aaabaa");
    let mut text = String::new();
    parse_sequence_while(&mut text, &mut chars, |c| c == 'a');
    assert_eq!(text, "aaa");
    assert_eq!(chars.next(), Some('b'));
    assert_eq!(chars.next(), Some('a'));
}

#[test]
fn parse_sequence_while_asks_about_each_character_once() {
    let asked = std::cell::RefCell::new(Vec::new());
    let mut chars = CharIter::new("xyz!");
    let mut text = String::new();
    parse_sequence_while(&mut text, &mut chars, |c| {
        asked.borrow_mut().push(c);
        c != 'z'
    });
    assert_eq!(text, "xy");
    assert_eq!(*asked.borrow(), vec!['x', 'y', 'z']);
    assert_eq!(chars.peek(), Some('z'));
}

#[test]
fn match_keyword_knows_no_keyword() {
    assert_eq!(match_keyword("sin".to_string()), ident("sin"));
    assert_eq!(match_keyword("x".to_string()), ident("x"));
}
