use lox_rs::errors::ScanError;
use lox_rs::interpreter::Numerals;
use lox_rs::scanner::Scanner;
use lox_rs::token::TokenType;

/// Numbers read and printed as Rust reads and prints `f64`.
struct F64Text;

impl Numerals for F64Text {
    fn literal_value(text: &String) -> u64 {
        text.parse::<f64>().unwrap().to_bits()
    }
    fn number_text_value(n: u64) -> String {
        format!("{}", f64::from_bits(n))
    }
    fn number_literal(&self, text: &String) -> u64 {
        Self::literal_value(text)
    }
    fn number_text(&self, n: u64) -> String {
        Self::number_text_value(n)
    }
}

fn kinds(src: &[u8]) -> Vec<TokenType> {
    let mut s = Scanner::new(src);
    s.parse().unwrap();
    s.tokens.iter().map(|t| t.ty.clone()).collect()
}

#[test]
fn unexpected_character_is_reported_after_it() {
    let mut s = Scanner::new(b"var @ x");
    let errs = s.parse().unwrap_err();
    assert_eq!(errs, vec![ScanError::UnexpectedCharacter { ch: '@', pos: (0, 5) }]);
    assert_eq!(errs[0].message(), "0:5 unexpected character '@'");
    // scanning goes on after the error
    assert_eq!(s.tokens.len(), 3);
    assert_eq!(s.tokens[1].ty, TokenType::Identifier("x".to_string()));
}

#[test]
fn unterminated_string_reads_to_the_end() {
    let mut s = Scanner::new(b"print \"abc\nde");
    let errs = s.parse().unwrap_err();
    // a line break inside a string does not move to the next line
    assert_eq!(errs, vec![ScanError::UnterminatedStringLiteral { pos: (0, 13) }]);
    assert_eq!(errs[0].message(), "0:13 unterminated string literal");
    assert_eq!(s.tokens.len(), 2);
    assert_eq!(s.tokens[1].ty, TokenType::Eof);
    assert_eq!(s.tokens[1].pos, (0, 13));
}

#[test]
fn positions_across_lines() {
    let mut s = Scanner::new(b"a\n  bb\n\n c");
    s.parse().unwrap();
    let pos: Vec<(usize, usize)> = s.tokens.iter().map(|t| t.pos).collect();
    assert_eq!(pos, vec![(0, 0), (1, 2), (3, 1), (3, 2)]);
}

#[test]
fn comment_to_end_of_input_makes_no_token() {
    assert_eq!(kinds(b"1 // two"), vec![TokenType::Number("1".to_string()), TokenType::Eof]);
}

#[test]
fn every_keyword_and_some_identifiers() {
    let src = b"var true false if print while nil and or else for fun return class super this vars _x a1";
    let ks = kinds(src);
    assert_eq!(
        ks,
        vec![
            TokenType::Var,
            TokenType::True,
            TokenType::False,
            TokenType::If,
            TokenType::Print,
            TokenType::While,
            TokenType::Nil,
            TokenType::And,
            TokenType::Or,
            TokenType::Else,
            TokenType::For,
            TokenType::Fun,
            TokenType::Return,
            TokenType::Class,
            TokenType::Super,
            TokenType::This,
            TokenType::Identifier("vars".to_string()),
            TokenType::Identifier("_x".to_string()),
            TokenType::Identifier("a1".to_string()),
            TokenType::Eof,
        ]
    );
}

#[test]
fn numbers_with_two_points_are_invalid() {
    let mut s = Scanner::new(b"1.2.3 5. 0.25");
    let errs = s.parse().unwrap_err();
    assert_eq!(errs, vec![ScanError::InvalidNumber { lexeme: "1.2.3".to_string(), pos: (0, 5) }]);
    assert_eq!(errs[0].message(), "0:5 invalid number '1.2.3'");
    let ks: Vec<TokenType> = s.tokens.iter().map(|t| t.ty.clone()).collect();
    assert_eq!(
        ks,
        vec![
            TokenType::Number("5".to_string()),
            TokenType::Dot,
            TokenType::Number("0.25".to_string()),
            TokenType::Eof,
        ]
    );
}

#[test]
fn single_and_double_character_operators() {
    assert_eq!(
        kinds(b"(){},.-+;*/ ! = < > !==="),
        vec![
            TokenType::LeftParen,
            TokenType::RightParen,
            TokenType::LeftCurly,
            TokenType::RightCurly,
            TokenType::Comma,
            TokenType::Dot,
            TokenType::Minus,
            TokenType::Plus,
            TokenType::Semicolon,
            TokenType::Star,
            TokenType::Slash,
            TokenType::Bang,
            TokenType::Eq,
            TokenType::Less,
            TokenType::Greater,
            TokenType::BangEq,
            TokenType::EqEq,
            TokenType::Eof,
        ]
    );
}

#[test]
fn scanning_again_adds_only_an_end_marker() {
    let mut s = Scanner::new(b"x");
    s.parse().unwrap();
    s.parse().unwrap();
    assert_eq!(s.tokens.len(), 3);
    assert_eq!(s.tokens[2].ty, TokenType::Eof);
    assert_eq!(s.tokens[2].pos, (0, 1));
}

#[test]
fn bytes_above_ascii_in_strings_count_by_encoded_length() {
    // the byte 0xE9 is read as the character U+00E9, which takes two bytes
    // in UTF-8; the token's column subtracts that length from the column at
    // the closing quote
    let mut s = Scanner::new(b"\"\xE9\"");
    s.parse().unwrap();
    assert_eq!(s.tokens[0].ty, TokenType::StringLit("\u{e9}".to_string()));
    assert_eq!(s.tokens[0].pos, (0, 0));
    let mut s = Scanner::new(b"\"\xE9\xE9\"");
    s.parse().unwrap();
    assert_eq!(s.tokens[0].pos, (0, 0));
    assert_eq!(s.tokens[1].pos, (0, 4));
}

#[test]
fn empty_input_is_just_the_end_marker() {
    let mut s = Scanner::new(b"");
    assert!(s.parse().is_ok());
    assert_eq!(s.tokens.len(), 1);
    assert_eq!(s.tokens[0].ty, TokenType::Eof);
    assert_eq!(s.tokens[0].pos, (0, 0));
}

#[test]
fn token_kind_descriptions() {
    assert_eq!(TokenType::Semicolon.describe(&F64Text), "Semicolon");
    assert_eq!(TokenType::Number("3.5".to_string()).describe(&F64Text), "Number(3.5)");
    assert_eq!(TokenType::Number("5.0".to_string()).describe(&F64Text), "Number(5)");
    assert_eq!(TokenType::Number("007.250".to_string()).describe(&F64Text), "Number(7.25)");
    assert_eq!(TokenType::GreaterEq.describe(&F64Text), "GreaterEq");
    assert_eq!(TokenType::Identifier("x".to_string()).describe(&F64Text), "Identifier(x)");
    assert_eq!(TokenType::StringLit("s".to_string()).describe(&F64Text), "StringLit(s)");
    assert_eq!(TokenType::Eof.describe(&F64Text), "Eof");
}

#[test]
fn invalid_number_message() {
    let e = ScanError::InvalidNumber { lexeme: "1x".to_string(), pos: (12, 345) };
    assert_eq!(e.message(), "12:345 invalid number '1x'");
}
