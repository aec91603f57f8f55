//! The texts by which tokens, syntax trees and errors are shown.
use vstd::prelude::*;
use crate::errors::{ParserError, ResolveError, ScanErrorOf};
use crate::nodes::{Expr, Lit, Op};
use crate::text::{decimal, push_char, push_string, usize_text};
use crate::interpreter::Numerals;
use crate::token::{TokenKind, TokenType};

verus! {

/// How the number that a literal written `s` stands for is printed.
pub open spec fn number_shown<N: Numerals>(s: &String) -> Seq<char> {
    N::number_text_value(N::literal_value(s))@
}

/// How a token kind is shown; the number of a number token as `N` prints
/// it.
pub open spec fn kind_text<N: Numerals>(t: TokenType) -> Seq<char> {
    match t {
        TokenKind::Semicolon => "Semicolon"@,
        TokenKind::LeftParen => "LeftParen"@,
        TokenKind::LeftCurly => "LeftCurly"@,
        TokenKind::RightParen => "RightParen"@,
        TokenKind::RightCurly => "RightCurly"@,
        TokenKind::Dot => "Dot"@,
        TokenKind::Comma => "Comma"@,
        TokenKind::Eq => "Eq"@,
        TokenKind::Plus => "Plus"@,
        TokenKind::Minus => "Minus"@,
        TokenKind::Star => "Star"@,
        TokenKind::Slash => "Slash"@,
        TokenKind::EqEq => "EqEq"@,
        TokenKind::Greater => "Greater"@,
        TokenKind::GreaterEq => "GreaterEq"@,
        TokenKind::Less => "Less"@,
        TokenKind::LessEq => "LessEq"@,
        TokenKind::BangEq => "BangEq"@,
        TokenKind::Bang => "Bang"@,
        TokenKind::Number(s) => "Number("@ + number_shown::<N>(&s) + ")"@,
        TokenKind::Identifier(s) => "Identifier("@ + s@ + ")"@,
        TokenKind::StringLit(s) => "StringLit("@ + s@ + ")"@,
        TokenKind::Var => "Var"@,
        TokenKind::True => "True"@,
        TokenKind::False => "False"@,
        TokenKind::If => "If"@,
        TokenKind::Print => "Print"@,
        TokenKind::While => "While"@,
        TokenKind::Nil => "Nil"@,
        TokenKind::And => "And"@,
        TokenKind::Or => "Or"@,
        TokenKind::Else => "Else"@,
        TokenKind::For => "For"@,
        TokenKind::Fun => "Fun"@,
        TokenKind::Return => "Return"@,
        TokenKind::Class => "Class"@,
        TokenKind::Super => "Super"@,
        TokenKind::This => "This"@,
        TokenKind::Eof => "Eof"@,
    }
}

impl TokenKind<String> {
    /// How this token kind is shown; the number of a number token as
    /// `numerals` prints it.
    pub fn describe<N: Numerals>(&self, numerals: &N) -> (r: String)
        ensures
            r@ == kind_text::<N>(*self),
    {
        match self {
            TokenKind::Semicolon => String::from_str("Semicolon"),
            TokenKind::LeftParen => String::from_str("LeftParen"),
            TokenKind::LeftCurly => String::from_str("LeftCurly"),
            TokenKind::RightParen => String::from_str("RightParen"),
            TokenKind::RightCurly => String::from_str("RightCurly"),
            TokenKind::Dot => String::from_str("Dot"),
            TokenKind::Comma => String::from_str("Comma"),
            TokenKind::Eq => String::from_str("Eq"),
            TokenKind::Plus => String::from_str("Plus"),
            TokenKind::Minus => String::from_str("Minus"),
            TokenKind::Star => String::from_str("Star"),
            TokenKind::Slash => String::from_str("Slash"),
            TokenKind::EqEq => String::from_str("EqEq"),
            TokenKind::Greater => String::from_str("Greater"),
            TokenKind::GreaterEq => String::from_str("GreaterEq"),
            TokenKind::Less => String::from_str("Less"),
            TokenKind::LessEq => String::from_str("LessEq"),
            TokenKind::BangEq => String::from_str("BangEq"),
            TokenKind::Bang => String::from_str("Bang"),
            TokenKind::Number(s) => {
                let mut r = String::from_str("Number(");
                let n = numerals.number_literal(s);
                push_string(&mut r, &numerals.number_text(n));
                r.append(")");
                r
            },
            TokenKind::Identifier(s) => {
                let mut r = String::from_str("Identifier(");
                r.append(s.as_str());
                r.append(")");
                r
            },
            TokenKind::StringLit(s) => {
                let mut r = String::from_str("StringLit(");
                r.append(s.as_str());
                r.append(")");
                r
            },
            TokenKind::Var => String::from_str("Var"),
            TokenKind::True => String::from_str("True"),
            TokenKind::False => String::from_str("False"),
            TokenKind::If => String::from_str("If"),
            TokenKind::Print => String::from_str("Print"),
            TokenKind::While => String::from_str("While"),
            TokenKind::Nil => String::from_str("Nil"),
            TokenKind::And => String::from_str("And"),
            TokenKind::Or => String::from_str("Or"),
            TokenKind::Else => String::from_str("Else"),
            TokenKind::For => String::from_str("For"),
            TokenKind::Fun => String::from_str("Fun"),
            TokenKind::Return => String::from_str("Return"),
            TokenKind::Class => String::from_str("Class"),
            TokenKind::Super => String::from_str("Super"),
            TokenKind::This => String::from_str("This"),
            TokenKind::Eof => String::from_str("Eof"),
        }
    }
}

/// How a position is shown: line, a colon, column.
pub open spec fn pos_text(pos: (usize, usize)) -> Seq<char> {
    decimal(pos.0 as nat) + ":"@ + decimal(pos.1 as nat)
}

fn pos_string(pos: (usize, usize)) -> (r: String)
    ensures
        r@ == pos_text(pos),
{
    let mut r = usize_text(pos.0);
    r.append(":");
    let c = usize_text(pos.1);
    push_string(&mut r, &c);
    r
}

/// How a scanning error is shown.
pub open spec fn scan_error_text(e: ScanErrorOf<Seq<char>>) -> Seq<char> {
    match e {
        ScanErrorOf::UnexpectedCharacter { ch, pos } => pos_text(pos) + " unexpected character '"@
            + seq![ch] + "'"@,
        ScanErrorOf::UnterminatedStringLiteral { pos } => pos_text(pos)
            + " unterminated string literal"@,
        ScanErrorOf::InvalidNumber { lexeme, pos } => pos_text(pos) + " invalid number '"@ + lexeme
            + "'"@,
    }
}

impl ScanErrorOf<String> {
    /// How this error is shown.
    pub fn message(&self) -> (r: String)
        ensures
            r@ == scan_error_text(self@),
    {
        match self {
            ScanErrorOf::UnexpectedCharacter { ch, pos } => {
                let mut r = pos_string(*pos);
                r.append(" unexpected character '");
                push_char(&mut r, *ch);
                r.append("'");
                r
            },
            ScanErrorOf::UnterminatedStringLiteral { pos } => {
                let mut r = pos_string(*pos);
                r.append(" unterminated string literal");
                r
            },
            ScanErrorOf::InvalidNumber { lexeme, pos } => {
                let mut r = pos_string(*pos);
                r.append(" invalid number '");
                push_string(&mut r, lexeme);
                r.append("'");
                r
            },
        }
    }
}

/// How a parsing error is shown; numbers as `N` prints them.
pub open spec fn parser_error_text<N: Numerals>(e: ParserError) -> Seq<char> {
    match e {
        ParserError::UnexpectedToken { expected, got, pos } => pos_text(pos)
            + " unexpected token. Expected: "@ + kind_text::<N>(expected) + " got: "@ + kind_text::<N>(
            got,
        ),
        ParserError::UnknwonError { last_token } => pos_text(last_token.pos)
            + " unknown error. Last token: "@ + kind_text::<N>(last_token.ty),
        ParserError::InvalidAssignmentTarget { pos } => pos_text(pos) + " invalid assigment target"@,
        ParserError::TooManyArguments { pos } => pos_text(pos)
            + " this implementation only allows a maximum of 255 arguments to a function"@,
    }
}

impl ParserError {
    /// How this error is shown; numbers as `numerals` prints them.
    pub fn message<N: Numerals>(&self, numerals: &N) -> (r: String)
        ensures
            r@ == parser_error_text::<N>(*self),
    {
        match self {
            ParserError::UnexpectedToken { expected, got, pos } => {
                let mut r = pos_string(*pos);
                r.append(" unexpected token. Expected: ");
                push_string(&mut r, &expected.describe(numerals));
                r.append(" got: ");
                push_string(&mut r, &got.describe(numerals));
                r
            },
            ParserError::UnknwonError { last_token } => {
                let mut r = pos_string(last_token.pos);
                r.append(" unknown error. Last token: ");
                push_string(&mut r, &last_token.ty.describe(numerals));
                r
            },
            ParserError::InvalidAssignmentTarget { pos } => {
                let mut r = pos_string(*pos);
                r.append(" invalid assigment target");
                r
            },
            ParserError::TooManyArguments { pos } => {
                let mut r = pos_string(*pos);
                r.append(" this implementation only allows a maximum of 255 arguments to a function");
                r
            },
        }
    }
}

/// How a resolving error is shown.
pub open spec fn resolve_error_text(e: ResolveError) -> Seq<char> {
    match e {
        ResolveError::VariableInOwnInititalizer { name } => "ResolverError: variable in onw inititalizer: "@
            + name@,
        ResolveError::ReturnOutsideFunction => "ResolverError: return outside function"@,
    }
}

impl ResolveError {
    /// How this error is shown.
    pub fn message(&self) -> (r: String)
        ensures
            r@ == resolve_error_text(*self),
    {
        match self {
            ResolveError::VariableInOwnInititalizer { name } => {
                let mut r = String::from_str("ResolverError: variable in onw inititalizer: ");
                push_string(&mut r, name);
                r
            },
            ResolveError::ReturnOutsideFunction => String::from_str(
                "ResolverError: return outside function",
            ),
        }
    }
}

/// How an operator is written.
pub open spec fn op_text(op: Op) -> Seq<char> {
    match op {
        Op::Equal => "=="@,
        Op::NotEqual => "!="@,
        Op::LessThan => "<"@,
        Op::LessThanEqual => "<="@,
        Op::GreaterThan => ">"@,
        Op::GreaterThanEqual => ">="@,
        Op::Add => "+"@,
        Op::Sub => "-"@,
        Op::Mul => "*"@,
        Op::Div => "/"@,
        Op::Not => "!"@,
        Op::And => "and"@,
        Op::Or => "or"@,
    }
}

/// How an operator is written.
pub fn op_symbol(op: Op) -> (r: &'static str)
    ensures
        r@ == op_text(op),
{
    match op {
        Op::Equal => "==",
        Op::NotEqual => "!=",
        Op::LessThan => "<",
        Op::LessThanEqual => "<=",
        Op::GreaterThan => ">",
        Op::GreaterThanEqual => ">=",
        Op::Add => "+",
        Op::Sub => "-",
        Op::Mul => "*",
        Op::Div => "/",
        Op::Not => "!",
        Op::And => "and",
        Op::Or => "or",
    }
}

/// How a literal is shown; a number as `N` prints it.
pub open spec fn lit_text<N: Numerals>(l: Lit) -> Seq<char> {
    match l {
        Lit::Number(s) => number_shown::<N>(&s),
        Lit::String(s) => s@,
        Lit::Bool(b) => if b {
            "true"@
        } else {
            "false"@
        },
        Lit::Nil => "nil"@,
    }
}

/// How an expression is shown: operations in parentheses with their
/// operator first for a unary one and between the operands otherwise,
/// variables in angle brackets, numbers as `N` prints them.
pub open spec fn expr_text<N: Numerals>(e: Expr) -> Seq<char>
    decreases e, 0int,
{
    match e {
        Expr::Literal(l) => lit_text::<N>(l),
        Expr::Logical { left, op, right } => "("@ + expr_text::<N>(*left) + " "@ + op_text(op) + " "@
            + expr_text::<N>(*right) + ")"@,
        Expr::Unary { op, right } => "("@ + op_text(op) + " "@ + expr_text::<N>(*right) + ")"@,
        Expr::Binary { op, right, left } => "("@ + expr_text::<N>(*left) + " "@ + op_text(op) + " "@
            + expr_text::<N>(*right) + ")"@,
        Expr::Grouping(inner) => "(group "@ + expr_text::<N>(*inner) + ")"@,
        Expr::Variable { name, id } => "<"@ + name@ + ">"@,
        Expr::Assign { name, id, value } => "<"@ + name@ + "> = "@ + expr_text::<N>(*value),
        Expr::Call { callee, paren, arguments } => expr_text::<N>(*callee) + "("@ + args_text::<N>(
            arguments@,
            0,
        ) + ")"@,
    }
}

/// The expressions `es[i..]` shown one after another, separated by a comma
/// and a space.
pub open spec fn args_text<N: Numerals>(es: Seq<Expr>, i: int) -> Seq<char>
    decreases es, es.len() - i,
{
    if i < 0 || i >= es.len() {
        Seq::empty()
    } else if i == es.len() - 1 {
        expr_text::<N>(es[i])
    } else {
        expr_text::<N>(es[i]) + ", "@ + args_text::<N>(es, i + 1)
    }
}

impl Lit {
    /// How this literal is shown; a number as `numerals` prints it.
    pub fn to_text<N: Numerals>(&self, numerals: &N) -> (r: String)
        ensures
            r@ == lit_text::<N>(*self),
    {
        match self {
            Lit::Number(s) => numerals.number_text(numerals.number_literal(s)),
            Lit::String(s) => s.clone(),
            Lit::Bool(b) => if *b {
                String::from_str("true")
            } else {
                String::from_str("false")
            },
            Lit::Nil => String::from_str("nil"),
        }
    }
}

impl Expr {
    /// How this expression is shown; numbers as `numerals` prints them.
    pub fn to_text<N: Numerals>(&self, numerals: &N) -> (r: String)
        ensures
            r@ == expr_text::<N>(*self),
        decreases self, 0int,
    {
        match self {
            Expr::Literal(l) => l.to_text(numerals),
            Expr::Logical { left, op, right } => {
                let mut r = String::from_str("(");
                push_string(&mut r, &left.to_text(numerals));
                r.append(" ");
                r.append(op_symbol(*op));
                r.append(" ");
                push_string(&mut r, &right.to_text(numerals));
                r.append(")");
                r
            },
            Expr::Unary { op, right } => {
                let mut r = String::from_str("(");
                r.append(op_symbol(*op));
                r.append(" ");
                push_string(&mut r, &right.to_text(numerals));
                r.append(")");
                r
            },
            Expr::Binary { op, right, left } => {
                let mut r = String::from_str("(");
                push_string(&mut r, &left.to_text(numerals));
                r.append(" ");
                r.append(op_symbol(*op));
                r.append(" ");
                push_string(&mut r, &right.to_text(numerals));
                r.append(")");
                r
            },
            Expr::Grouping(inner) => {
                let mut r = String::from_str("(group ");
                push_string(&mut r, &inner.to_text(numerals));
                r.append(")");
                r
            },
            Expr::Variable { name, id } => {
                let mut r = String::from_str("<");
                push_string(&mut r, name);
                r.append(">");
                r
            },
            Expr::Assign { name, id, value } => {
                let mut r = String::from_str("<");
                push_string(&mut r, name);
                r.append("> = ");
                push_string(&mut r, &value.to_text(numerals));
                r
            },
            Expr::Call { callee, paren, arguments } => {
                let mut r = callee.to_text(numerals);
                r.append("(");
                push_string(&mut r, &args_to_text(arguments, numerals));
                r.append(")");
                r
            },
        }
    }
}

/// The expressions `es` shown one after another, separated by a comma and
/// a space.
fn args_to_text<N: Numerals>(es: &Vec<Expr>, numerals: &N) -> (r: String)
    ensures
        r@ == args_text::<N>(es@, 0),
    decreases es@, es@.len() + 1,
{
    let mut r = String::new();
    let n = es.len();
    if n == 0 {
        return r;
    }
    let mut i = n - 1;
    r = es[i].to_text(numerals);
    assert(r@ == args_text::<N>(es@, i as int));
    while i > 0
        invariant
            n == es@.len(),
            0 <= i < n,
            r@ == args_text::<N>(es@, i as int),
        decreases i,
    {
        let mut t = es[i - 1].to_text(numerals);
        t.append(", ");
        push_string(&mut t, &r);
        r = t;
        i = i - 1;
    }
    r
}

} // verus!
