//! The errors of each stage.
use vstd::prelude::*;
use crate::token::{TokenKind, TokenOf};
use crate::values::ValueOf;

verus! {

/// An error found while scanning the source text. The text of an invalid
/// number is an `S`: a `String` in running code, its characters in
/// specifications.
#[derive(Debug, PartialEq)]
pub enum ScanErrorOf<S> {
    UnexpectedCharacter { ch: char, pos: (usize, usize) },
    UnterminatedStringLiteral { pos: (usize, usize) },
    InvalidNumber { lexeme: S, pos: (usize, usize) },
}

/// An error found while scanning, as the scanner reports it.
pub type ScanError = ScanErrorOf<String>;

/// An error found while scanning, seen through the characters of its text.
pub type SpecScanError = ScanErrorOf<Seq<char>>;

impl View for ScanErrorOf<String> {
    type V = ScanErrorOf<Seq<char>>;

    open spec fn view(&self) -> ScanErrorOf<Seq<char>> {
        match self {
            ScanErrorOf::UnexpectedCharacter { ch, pos } => ScanErrorOf::UnexpectedCharacter {
                ch: *ch,
                pos: *pos,
            },
            ScanErrorOf::UnterminatedStringLiteral { pos } => ScanErrorOf::UnterminatedStringLiteral {
                pos: *pos,
            },
            ScanErrorOf::InvalidNumber { lexeme, pos } => ScanErrorOf::InvalidNumber {
                lexeme: lexeme@,
                pos: *pos,
            },
        }
    }
}

/// An error found while parsing the tokens. The texts of the tokens in it
/// are `S`s.
#[derive(Debug)]
pub enum ParserErrorOf<S> {
    UnexpectedToken { expected: TokenKind<S>, got: TokenKind<S>, pos: (usize, usize) },
    UnknwonError { last_token: TokenOf<S> },
    InvalidAssignmentTarget { pos: (usize, usize) },
    TooManyArguments { pos: (usize, usize) },
}

/// An error found while parsing, as the parser reports it.
pub type ParserError = ParserErrorOf<String>;

/// An error found while parsing, seen through characters.
pub type SpecParserError = ParserErrorOf<Seq<char>>;

impl View for ParserErrorOf<String> {
    type V = ParserErrorOf<Seq<char>>;

    open spec fn view(&self) -> ParserErrorOf<Seq<char>> {
        match self {
            ParserErrorOf::UnexpectedToken { expected, got, pos } => ParserErrorOf::UnexpectedToken {
                expected: expected@,
                got: got@,
                pos: *pos,
            },
            ParserErrorOf::UnknwonError { last_token } => ParserErrorOf::UnknwonError {
                last_token: last_token@,
            },
            ParserErrorOf::InvalidAssignmentTarget { pos } => ParserErrorOf::InvalidAssignmentTarget {
                pos: *pos,
            },
            ParserErrorOf::TooManyArguments { pos } => ParserErrorOf::TooManyArguments { pos: *pos },
        }
    }
}

/// An error found by the static resolver.
#[derive(Debug, PartialEq)]
pub enum ResolveError {
    VariableInOwnInititalizer { name: String },
    ReturnOutsideFunction,
}

/// How the execution of a function body stops early. The value returned
/// holds its strings as `S`s.
#[derive(Debug, PartialEq)]
pub enum UnwindOf<S> {
    Return(ValueOf<S>),
}

/// How a function body stops early, as the interpreter reports it.
pub type Unwind = UnwindOf<String>;

/// How a function body stops early, seen through characters.
pub type SpecUnwind = UnwindOf<Seq<char>>;

/// An error found while running the program (or a `return` on its way out
/// of a function). Its texts are `S`s: `String`s in running code, their
/// characters in specifications.
#[derive(Debug, PartialEq)]
pub enum RuntimeErrorOf<S> {
    TypeError { msg: S },
    InvalidOperator { msg: S },
    DivisionByZero,
    UndefinedVariable { var_name: S },
    Unwind(UnwindOf<S>),
    ArityMismatch { expected: usize, got: usize },
    NotCallable((usize, usize)),
    Io { msg: S },
    /// the interpreter ran out of its step budget, or of room for another
    /// environment
    LimitReached,
}

/// An error found while running the program, as the interpreter reports it.
pub type RuntimeError = RuntimeErrorOf<String>;

/// An error found while running the program, seen through characters.
pub type SpecRuntimeError = RuntimeErrorOf<Seq<char>>;

impl View for UnwindOf<String> {
    type V = UnwindOf<Seq<char>>;

    open spec fn view(&self) -> UnwindOf<Seq<char>> {
        match self {
            UnwindOf::Return(v) => UnwindOf::Return(v@),
        }
    }
}

impl View for RuntimeErrorOf<String> {
    type V = RuntimeErrorOf<Seq<char>>;

    open spec fn view(&self) -> RuntimeErrorOf<Seq<char>> {
        match self {
            RuntimeErrorOf::TypeError { msg } => RuntimeErrorOf::TypeError { msg: msg@ },
            RuntimeErrorOf::InvalidOperator { msg } => RuntimeErrorOf::InvalidOperator { msg: msg@ },
            RuntimeErrorOf::DivisionByZero => RuntimeErrorOf::DivisionByZero,
            RuntimeErrorOf::UndefinedVariable { var_name } => RuntimeErrorOf::UndefinedVariable {
                var_name: var_name@,
            },
            RuntimeErrorOf::Unwind(u) => RuntimeErrorOf::Unwind(u@),
            RuntimeErrorOf::ArityMismatch { expected, got } => RuntimeErrorOf::ArityMismatch {
                expected: *expected,
                got: *got,
            },
            RuntimeErrorOf::NotCallable(pos) => RuntimeErrorOf::NotCallable(*pos),
            RuntimeErrorOf::Io { msg } => RuntimeErrorOf::Io { msg: msg@ },
            RuntimeErrorOf::LimitReached => RuntimeErrorOf::LimitReached,
        }
    }
}

} // verus!
