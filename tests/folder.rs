use lox_scanner::source::scan;
use lox_scanner::parser::Parser;
use lox_scanner::token::{Token, TokenKind};

fn tok(kind: TokenKind, lexeme: &str, literal: &str) -> Token {
    Token::new(kind, lexeme.to_string(), literal.to_string(), 1, 0, 0, None)
}

fn fold(tokens: Vec<Token>) -> Vec<String> {
    let mut p = Parser::new(tokens);
    p.parse_token();
    p.parsed().clone()
}

#[test]
fn number_plus_number() {
    let out = fold(vec![
        tok(TokenKind::Number, "2", "2.0"),
        tok(TokenKind::Plus, "+", ""),
        tok(TokenKind::Number, "3", "3.0"),
        tok(TokenKind::Eof, "", ""),
    ]);
    assert_eq!(out, vec!["2.0".to_string(), "(+  2.0 3.0)".to_string(), "3.0".to_string()]);
}

#[test]
fn true_alone() {
    let out = fold(vec![tok(TokenKind::True, "true", ""), tok(TokenKind::Eof, "", "")]);
    assert_eq!(out, vec!["true".to_string()]);
}

#[test]
fn plus_without_numbers() {
    let out = fold(vec![tok(TokenKind::Plus, "+", ""), tok(TokenKind::Eof, "", "")]);
    assert!(out.is_empty());
}

#[test]
fn literals_pass_through() {
    let out = fold(scan("false nil \"s\" 4.50 x ;").tokens);
    assert_eq!(out, vec!["false", "nil", "s", "4.5"]);
}

#[test]
fn plus_with_one_number_neighbour() {
    let out = fold(scan("x + 1").tokens);
    assert_eq!(out, vec!["(+   1.0)", "1.0"]);
    let out = fold(scan("1 +").tokens);
    assert_eq!(out, vec!["1.0", "(+  1.0 )"]);
}

#[test]
fn plus_at_the_start() {
    let out = fold(vec![tok(TokenKind::Plus, "+", ""), tok(TokenKind::Number, "5", "5.0")]);
    assert_eq!(out, vec!["(+   5.0)", "5.0"]);
}

#[test]
fn each_plus_is_folded_on_its_own() {
    let out = fold(scan("1 + 2 + 3").tokens);
    assert_eq!(out, vec!["1.0", "(+  1.0 2.0)", "2.0", "(+  2.0 3.0)", "3.0"]);
}
