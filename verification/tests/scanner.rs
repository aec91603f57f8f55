use lox_rs::scanner::Scanner;
use lox_rs::token::{Token, TokenType};

/// What a test expects of one token's kind: a kind, or a number literal of
/// the given value.
enum Kind {
    Ty(TokenType),
    Num(f64),
}

fn t(ty: TokenType) -> Kind {
    Kind::Ty(ty)
}

fn n(value: f64) -> Kind {
    Kind::Num(value)
}

fn ident(name: &str) -> Kind {
    Kind::Ty(TokenType::Identifier(name.to_string()))
}

fn check_tokens(tokens: &[Token], expected: &[(Kind, &str, (usize, usize))]) {
    assert_eq!(tokens.len(), expected.len(), "num tokens mismatch");
    for (i, (kind, _lexeme, pos)) in expected.iter().enumerate() {
        let r_tok = &tokens[i];
        match kind {
            Kind::Ty(ty) => assert_eq!(*ty, r_tok.ty, "type mismatch at index {i}"),
            Kind::Num(v) => match &r_tok.ty {
                TokenType::Number(text) => {
                    assert_eq!(text.parse::<f64>().unwrap(), *v, "type mismatch at index {i}")
                }
                other => panic!("type mismatch at index {i}: {:?}", other),
            },
        }
        assert_eq!(*pos, r_tok.pos, "pos mismatch at index {i}");
    }
}

#[test]
fn parse_numeric_assignment() {
    let case = b"var x = 5";
    let mut scanner = Scanner::new(case);
    assert!(scanner.parse().is_ok());
    let expected = [
        (t(TokenType::Var), "var", (0, 0)),
        (ident("x"), "x", (0, 4)),
        (t(TokenType::Eq), "=", (0, 6)),
        (n(5.0), "5", (0, 8)),
        (t(TokenType::Eof), "", (0, 9)),
    ];
    check_tokens(&scanner.tokens, &expected);
}

#[test]
fn parse_numeric_float_assignment() {
    let case = b"var pi = 3.14;";
    let mut scanner = Scanner::new(case);
    assert!(scanner.parse().is_ok());
    #[allow(clippy::approx_constant)]
    let pi = 3.14;
    let expected = [
        (t(TokenType::Var), "var", (0, 0)),
        (ident("pi"), "pi", (0, 4)),
        (t(TokenType::Eq), "=", (0, 7)),
        (n(pi), "3.14", (0, 9)),
        (t(TokenType::Semicolon), ";", (0, 13)),
        (t(TokenType::Eof), "", (0, 14)),
    ];
    check_tokens(&scanner.tokens, &expected);
}

#[test]
fn parse_string_literal_assignment() {
    let case = b"var x = \"foo\";";
    let mut scanner = Scanner::new(case);
    assert!(scanner.parse().is_ok());
    let expected = [
        (t(TokenType::Var), "var", (0, 0)),
        (ident("x"), "x", (0, 4)),
        (t(TokenType::Eq), "=", (0, 6)),
        (t(TokenType::StringLit("foo".to_string())), "foo", (0, 9)),
        (t(TokenType::Semicolon), ";", (0, 13)),
        (t(TokenType::Eof), "", (0, 14)),
    ];
    check_tokens(&scanner.tokens, &expected);
}

#[test]
fn parse_print() {
    let case = b"print \"hello world\";";
    let mut scanner = Scanner::new(case);
    assert!(scanner.parse().is_ok());
    let expected = [
        (t(TokenType::Print), "print", (0, 0)),
        (t(TokenType::StringLit("hello world".to_string())), "hello world", (0, 7)),
        (t(TokenType::Semicolon), ";", (0, 19)),
        (t(TokenType::Eof), "", (0, 20)),
    ];
    check_tokens(&scanner.tokens, &expected);
}

#[test]
fn parse_if_then() {
    let case = b"if (x == 10) {print x; }";
    let mut scanner = Scanner::new(case);
    assert!(scanner.parse().is_ok());
    let expected = [
        (t(TokenType::If), "if", (0, 0)),
        (t(TokenType::LeftParen), "(", (0, 3)),
        (ident("x"), "x", (0, 4)),
        (t(TokenType::EqEq), "==", (0, 6)),
        (n(10.0), "10", (0, 9)),
        (t(TokenType::RightParen), ")", (0, 11)),
        (t(TokenType::LeftCurly), "{", (0, 13)),
        (t(TokenType::Print), "print", (0, 14)),
        (ident("x"), "x", (0, 20)),
        (t(TokenType::Semicolon), ";", (0, 21)),
        (t(TokenType::RightCurly), "}", (0, 23)),
        (t(TokenType::Eof), "", (0, 24)),
    ];
    check_tokens(&scanner.tokens, &expected);
}

#[test]
fn parse_while() {
    let case = b"while (x > 0) { x = x - 1; }";
    let mut scanner = Scanner::new(case);
    assert!(scanner.parse().is_ok());
    let expected = [
        (t(TokenType::While), "while", (0, 0)),
        (t(TokenType::LeftParen), "(", (0, 6)),
        (ident("x"), "x", (0, 7)),
        (t(TokenType::Greater), ">", (0, 9)),
        (n(0.0), "0", (0, 11)),
        (t(TokenType::RightParen), ")", (0, 12)),
        (t(TokenType::LeftCurly), "{", (0, 14)),
        (ident("x"), "x", (0, 16)),
        (t(TokenType::Eq), "=", (0, 18)),
        (ident("x"), "x", (0, 20)),
        (t(TokenType::Minus), "-", (0, 22)),
        (n(1.0), "1", (0, 24)),
        (t(TokenType::Semicolon), ";", (0, 25)),
        (t(TokenType::RightCurly), "}", (0, 27)),
        (t(TokenType::Eof), "", (0, 28)),
    ];
    check_tokens(&scanner.tokens, &expected);
}

#[test]
fn parse_comment() {
    let case = b"// this is a comment\nvar y = 2;";
    let mut scanner = Scanner::new(case);
    assert!(scanner.parse().is_ok());
    let expected = [
        (t(TokenType::Var), "var", (1, 0)),
        (ident("y"), "y", (1, 4)),
        (t(TokenType::Eq), "=", (1, 6)),
        (n(2.0), "2", (1, 8)),
        (t(TokenType::Semicolon), ";", (1, 9)),
        (t(TokenType::Eof), "", (1, 10)),
    ];
    check_tokens(&scanner.tokens, &expected);
}

#[test]
fn two_char_ops() {
    let case = b"!= == <= >= < >";
    let mut scanner = Scanner::new(case);
    assert!(scanner.parse().is_ok());
    let expected = [
        (t(TokenType::BangEq), "!=", (0, 0)),
        (t(TokenType::EqEq), "==", (0, 3)),
        (t(TokenType::LessEq), "<=", (0, 6)),
        (t(TokenType::GreaterEq), ">=", (0, 9)),
        (t(TokenType::Less), "<", (0, 12)),
        (t(TokenType::Greater), ">", (0, 14)),
        (t(TokenType::Eof), "", (0, 15)),
    ];
    check_tokens(&scanner.tokens, &expected);
}

#[test]
fn parse_empty_string_assignment() {
    let case = b"var x = \"\";";
    let mut scanner = Scanner::new(case);
    assert!(scanner.parse().is_ok());
    let expected = [
        (t(TokenType::Var), "var", (0, 0)),
        (ident("x"), "x", (0, 4)),
        (t(TokenType::Eq), "=", (0, 6)),
        (t(TokenType::StringLit("".to_string())), "", (0, 9)),
        (t(TokenType::Semicolon), ";", (0, 10)),
        (t(TokenType::Eof), "", (0, 11)),
    ];
    check_tokens(&scanner.tokens, &expected);
}
