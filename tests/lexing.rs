use linecalc::lexer::{tokenize, LexError};
use linecalc::token::{Decimal, Token};

fn num(whole: &[u8], frac: &[u8]) -> Token {
    Token::Number(Decimal { whole: whole.to_vec(), frac: frac.to_vec() })
}

fn ident(name: &str) -> Token {
    Token::Identifier(name.to_string())
}

#[test]
fn digits_make_one_integer_literal() {
    assert_eq!(tokenize("123"), Ok(vec![num(&[1, 2, 3], &[])]));
}

#[test]
fn single_digit_literal() {
    assert_eq!(tokenize("7"), Ok(vec![num(&[7], &[])]));
}

#[test]
fn leading_zeros_are_kept_as_digits() {
    assert_eq!(tokenize("007"), Ok(vec![num(&[0, 0, 7], &[])]));
}

#[test]
fn decimal_literal() {
    assert_eq!(tokenize("3.14"), Ok(vec![num(&[3], &[1, 4])]));
}

#[test]
fn second_decimal_point_is_rejected() {
    assert_eq!(tokenize("1.2.3"), Err(LexError::UnexpectedToken('.')));
}

#[test]
fn two_points_in_a_row_are_rejected() {
    assert_eq!(tokenize("1.."), Err(LexError::UnexpectedToken('.')));
}

#[test]
fn trailing_point_is_accepted() {
    assert_eq!(tokenize("3."), Ok(vec![num(&[3], &[])]));
}

#[test]
fn digit_ends_an_identifier() {
    assert_eq!(tokenize("x2"), Ok(vec![ident("x"), num(&[2], &[])]));
}

#[test]
fn identifiers_are_case_sensitive_runs_of_letters() {
    assert_eq!(tokenize("Pi pi"), Ok(vec![ident("Pi"), ident("pi")]));
}

#[test]
fn non_ascii_letters_form_identifiers() {
    assert_eq!(tokenize("été+1"), Ok(vec![ident("été"), Token::Add, num(&[1], &[])]));
}

#[test]
fn underscore_is_not_part_of_an_identifier() {
    assert_eq!(tokenize("a_b"), Err(LexError::UnexpectedToken('_')));
}

#[test]
fn operators_become_single_tokens() {
    assert_eq!(
        tokenize("+-*/^"),
        Ok(vec![Token::Add, Token::Sub, Token::Mul, Token::Div, Token::Pow])
    );
}

#[test]
fn whitespace_is_skipped() {
    assert_eq!(
        tokenize(" \t2 +\u{3000}x\n"),
        Ok(vec![num(&[2], &[]), Token::Add, ident("x")])
    );
}

#[test]
fn empty_line_has_no_tokens() {
    assert_eq!(tokenize(""), Ok(vec![]));
}

#[test]
fn blank_line_has_no_tokens() {
    assert_eq!(tokenize("   \n"), Ok(vec![]));
}

#[test]
fn unknown_symbol_is_rejected() {
    assert_eq!(tokenize("2@3"), Err(LexError::UnexpectedToken('@')));
}

#[test]
fn parenthesis_is_rejected() {
    assert_eq!(tokenize("(1)"), Err(LexError::UnexpectedToken('(')));
}

#[test]
fn lone_point_is_rejected() {
    assert_eq!(tokenize(".5"), Err(LexError::UnexpectedToken('.')));
}

#[test]
fn duplicate_is_equal() {
    let t = num(&[4, 2], &[5]);
    assert_eq!(t.duplicate(), t);
    let v = ident("ans");
    assert_eq!(v.duplicate(), v);
}
