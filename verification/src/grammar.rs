//! What the parser makes of a list of tokens, stated as functions of the
//! tokens (seen through the characters of their texts), the position of the
//! next token to read and the next id to hand out. Each gives what it
//! parsed (or the error that stopped it), the position after it, and the
//! next id after it.
//!
//! The functions follow the grammar in the documentation of the `parser`
//! module, one function for each rule, each repetition written as a
//! function that reads the rest of it.
use vstd::prelude::*;
use crate::errors::{ParserErrorOf, SpecParserError};
use crate::nodes::{op_of, ExprView, LitView, Op, StmtView, MAX_ARGS};
use crate::token::{same_kind, SpecToken, SpecTokenType, TokenKind};

verus! {

/// What was parsed, or the error that stopped the parser; the position
/// after it; the next id after it.
pub type Parsed<T> = (Result<T, SpecParserError>, int, int);

/// Whether the token at `p` is of the kind of `k`.
pub open spec fn is_kind(ts: Seq<SpecToken>, p: int, k: SpecTokenType) -> bool {
    same_kind(ts[p].ty, k)
}

/// The position after reading the token at `p`: the same where that token
/// ends the input.
pub open spec fn next_pos(ts: Seq<SpecToken>, p: int) -> int {
    if ts[p].ty is Eof {
        p
    } else {
        p + 1
    }
}

/// The error for the token at `p` where a token of the kind of `k` should
/// stand.
pub open spec fn unexpected(ts: Seq<SpecToken>, p: int, k: SpecTokenType) -> SpecParserError {
    ParserErrorOf::UnexpectedToken { expected: k, got: ts[p].ty, pos: ts[p].pos }
}

/// Reading a token of the kind of `k` at `p`: the position after it, or
/// the error where another token stands there.
pub open spec fn expect(ts: Seq<SpecToken>, p: int, k: SpecTokenType) -> Result<int, SpecParserError> {
    if is_kind(ts, p, k) {
        Ok(next_pos(ts, p))
    } else {
        Err(unexpected(ts, p, k))
    }
}

/// The error for the token at `p` where an identifier should stand.
pub open spec fn identifier_expected(ts: Seq<SpecToken>, p: int) -> SpecParserError {
    unexpected(ts, p, TokenKind::Identifier(Seq::empty()))
}

/// The outcome where a position lies outside the tokens, which the parser
/// never reaches.
pub open spec fn outside<T>(p: int, n: int) -> Parsed<T> {
    (Err(ParserErrorOf::TooManyArguments { pos: (0, 0) }), p, n)
}

/// Whether `p` is the position of a token.
pub open spec fn on_token(ts: Seq<SpecToken>, p: int) -> bool {
    0 <= p < ts.len()
}

/// `declaration -> funDecl | varDecl | statement`
pub open spec fn declaration(ts: Seq<SpecToken>, p: int, n: int) -> Parsed<StmtView>
    decreases ts.len() - p, 40int,
{
    if !on_token(ts, p) {
        outside(p, n)
    } else if is_kind(ts, p, TokenKind::Fun) {
        fun_declaration(ts, p + 1, n)
    } else if is_kind(ts, p, TokenKind::Var) {
        var_declaration(ts, p + 1, n)
    } else {
        statement(ts, p, n)
    }
}

/// `funDecl -> "fun" IDENTIFIER "(" params? ")" block`, from the name on.
pub open spec fn fun_declaration(ts: Seq<SpecToken>, p: int, n: int) -> Parsed<StmtView>
    decreases ts.len() - p, 39int,
{
    if !on_token(ts, p) {
        outside(p, n)
    } else {
        match ts[p].ty {
            TokenKind::Identifier(name) => {
                let p1 = next_pos(ts, p);
                if !on_token(ts, p1) {
                    outside(p1, n)
                } else {
                    match expect(ts, p1, TokenKind::LeftParen) {
                        Err(e) => (Err(e), p1, n),
                        Ok(p2) => {
                            let ps = if !on_token(ts, p2) {
                                outside(p2, n)
                            } else if is_kind(ts, p2, TokenKind::RightParen) {
                                (Ok(Seq::empty()), p2, n)
                            } else {
                                params(ts, p2, n, Seq::empty())
                            };
                            match ps {
                                (Err(e), p3, n3) => (Err(e), p3, n3),
                                (Ok(names), p3, n3) => if !on_token(ts, p3) || p3 <= p {
                                    outside(p3, n3)
                                } else {
                                    match expect(ts, p3, TokenKind::RightParen) {
                                        Err(e) => (Err(e), p3, n3),
                                        Ok(p4) => if !on_token(ts, p4) {
                                            outside(p4, n3)
                                        } else {
                                            match expect(ts, p4, TokenKind::LeftCurly) {
                                                Err(e) => (Err(e), p4, n3),
                                                Ok(p5) => match block_body(ts, p5, n3) {
                                                    (Ok(body), p6, n6) => (
                                                        Ok(
                                                            StmtView::Function {
                                                                name,
                                                                params: names,
                                                                body,
                                                            },
                                                        ),
                                                        p6,
                                                        n6,
                                                    ),
                                                    (Err(e), p6, n6) => (Err(e), p6, n6),
                                                },
                                            }
                                        },
                                    }
                                },
                            }
                        },
                    }
                }
            },
            _ => (Err(identifier_expected(ts, p)), p, n),
        }
    }
}

/// `params -> IDENTIFIER ("," IDENTIFIER)*`, with `names` read so far.
pub open spec fn params(ts: Seq<SpecToken>, p: int, n: int, names: Seq<Seq<char>>) -> Parsed<
    Seq<Seq<char>>,
>
    decreases ts.len() - p, 0int,
{
    if !on_token(ts, p) {
        outside(p, n)
    } else if names.len() >= MAX_ARGS {
        (Err(ParserErrorOf::TooManyArguments { pos: ts[p].pos }), p, n)
    } else {
        match ts[p].ty {
            TokenKind::Identifier(name) => {
                let p1 = next_pos(ts, p);
                if !on_token(ts, p1) || p1 <= p {
                    outside(p1, n)
                } else if is_kind(ts, p1, TokenKind::Comma) {
                    params(ts, p1 + 1, n, names.push(name))
                } else {
                    (Ok(names.push(name)), p1, n)
                }
            },
            _ => (Err(identifier_expected(ts, p)), p, n),
        }
    }
}

/// `varDecl -> "var" IDENTIFIER ("=" expression)? ";"`, from the name on.
pub open spec fn var_declaration(ts: Seq<SpecToken>, p: int, n: int) -> Parsed<StmtView>
    decreases ts.len() - p, 38int,
{
    if !on_token(ts, p) {
        outside(p, n)
    } else {
        match ts[p].ty {
            TokenKind::Identifier(name) => {
                let p1 = next_pos(ts, p);
                if !on_token(ts, p1) || p1 <= p {
                    outside(p1, n)
                } else {
                    let init = if is_kind(ts, p1, TokenKind::Eq) {
                        match expression(ts, p1 + 1, n) {
                            (Ok(e), p2, n2) => (Ok(Some(e)), p2, n2),
                            (Err(e), p2, n2) => (Err(e), p2, n2),
                        }
                    } else {
                        (Ok(None), p1, n)
                    };
                    match init {
                        (Err(e), p2, n2) => (Err(e), p2, n2),
                        (Ok(initializer), p2, n2) => if !on_token(ts, p2) {
                            outside(p2, n2)
                        } else {
                            match expect(ts, p2, TokenKind::Semicolon) {
                                Err(e) => (Err(e), p2, n2),
                                Ok(p3) => (Ok(StmtView::Var { name, initializer }), p3, n2),
                            }
                        },
                    }
                }
            },
            _ => (Err(identifier_expected(ts, p)), p, n),
        }
    }
}

/// `statement -> exprStmt | forStmt | ifStmt | printStmt | whileStmt |
/// block | returnStmt`
pub open spec fn statement(ts: Seq<SpecToken>, p: int, n: int) -> Parsed<StmtView>
    decreases ts.len() - p, 37int,
{
    if !on_token(ts, p) {
        outside(p, n)
    } else if is_kind(ts, p, TokenKind::Return) {
        return_statement(ts, p + 1, n)
    } else if is_kind(ts, p, TokenKind::Print) {
        print_statement(ts, p + 1, n)
    } else if is_kind(ts, p, TokenKind::While) {
        while_statement(ts, p + 1, n)
    } else if is_kind(ts, p, TokenKind::For) {
        for_statement(ts, p + 1, n)
    } else if is_kind(ts, p, TokenKind::If) {
        if_statement(ts, p + 1, n)
    } else if is_kind(ts, p, TokenKind::LeftCurly) {
        block(ts, p + 1, n)
    } else {
        expression_statement(ts, p, n)
    }
}

/// The expression that may stand before `end`, where one stands there.
pub open spec fn optional_expression(ts: Seq<SpecToken>, p: int, n: int, end: SpecTokenType) -> Parsed<
    Option<ExprView>,
>
    decreases ts.len() - p, 23int,
{
    if !on_token(ts, p) {
        outside(p, n)
    } else if is_kind(ts, p, end) {
        (Ok(None), p, n)
    } else {
        match expression(ts, p, n) {
            (Ok(e), p1, n1) => (Ok(Some(e)), p1, n1),
            (Err(e), p1, n1) => (Err(e), p1, n1),
        }
    }
}

/// `returnStmt -> "return" expression? ";"`, after the keyword.
pub open spec fn return_statement(ts: Seq<SpecToken>, p: int, n: int) -> Parsed<StmtView>
    decreases ts.len() - p, 36int,
{
    match optional_expression(ts, p, n, TokenKind::Semicolon) {
        (Err(e), p1, n1) => (Err(e), p1, n1),
        (Ok(value), p1, n1) => if !on_token(ts, p1) {
            outside(p1, n1)
        } else {
            match expect(ts, p1, TokenKind::Semicolon) {
                Err(e) => (Err(e), p1, n1),
                Ok(p2) => (Ok(StmtView::Return { value }), p2, n1),
            }
        },
    }
}

/// The statement a `for` loop stands for: its initializer, then a `while`
/// loop over its condition (`true` where there is none) whose body is the
/// loop's body followed by its increment.
pub open spec fn desugar_for(
    initializer: Option<StmtView>,
    condition: Option<ExprView>,
    increment: Option<ExprView>,
    body: StmtView,
) -> StmtView {
    let body = match increment {
        Some(inc) => StmtView::Block(seq![body, StmtView::Expression(inc)]),
        None => body,
    };
    let condition = match condition {
        Some(c) => c,
        None => ExprView::Literal(LitView::Bool(true)),
    };
    let looped = StmtView::While { condition, body: Box::new(body) };
    match initializer {
        Some(init) => StmtView::Block(seq![init, looped]),
        None => looped,
    }
}

/// The initializer of a `for` loop, and the `;` that ends it.
pub open spec fn for_initializer(ts: Seq<SpecToken>, p: int, n: int) -> Parsed<Option<StmtView>>
    decreases ts.len() - p, 39int,
{
    if !on_token(ts, p) {
        outside(p, n)
    } else if is_kind(ts, p, TokenKind::Semicolon) {
        (Ok(None), p + 1, n)
    } else if is_kind(ts, p, TokenKind::Var) {
        match var_declaration(ts, p + 1, n) {
            (Ok(s), p1, n1) => (Ok(Some(s)), p1, n1),
            (Err(e), p1, n1) => (Err(e), p1, n1),
        }
    } else {
        match expression_statement(ts, p, n) {
            (Ok(s), p1, n1) => (Ok(Some(s)), p1, n1),
            (Err(e), p1, n1) => (Err(e), p1, n1),
        }
    }
}

/// The parts of a `for` loop's header, after the keyword: `"("`, the
/// initializer, the condition and `";"`, the increment and `")"`.
pub open spec fn for_header(ts: Seq<SpecToken>, p: int, n: int) -> Parsed<
    (Option<StmtView>, Option<ExprView>, Option<ExprView>),
>
    decreases ts.len() - p, 35int,
{
    if !on_token(ts, p) {
        outside(p, n)
    } else {
        match expect(ts, p, TokenKind::LeftParen) {
            Err(e) => (Err(e), p, n),
            Ok(p1) => if p1 <= p {
                outside(p1, n)
            } else {
                match for_initializer(ts, p1, n) {
                    (Err(e), p2, n2) => (Err(e), p2, n2),
                    (Ok(init), p2, n2) => if p2 <= p {
                        outside(p2, n2)
                    } else {
                        match optional_expression(ts, p2, n2, TokenKind::Semicolon) {
                            (Err(e), p3, n3) => (Err(e), p3, n3),
                            (Ok(cond), p3, n3) => if !on_token(ts, p3) {
                                outside(p3, n3)
                            } else {
                                match expect(ts, p3, TokenKind::Semicolon) {
                                    Err(e) => (Err(e), p3, n3),
                                    Ok(p4) => if p4 <= p {
                                        outside(p4, n3)
                                    } else {
                                        match optional_expression(
                                            ts,
                                            p4,
                                            n3,
                                            TokenKind::RightParen,
                                        ) {
                                            (Err(e), p5, n5) => (Err(e), p5, n5),
                                            (Ok(inc), p5, n5) => if !on_token(ts, p5) {
                                                outside(p5, n5)
                                            } else {
                                                match expect(ts, p5, TokenKind::RightParen) {
                                                    Err(e) => (Err(e), p5, n5),
                                                    Ok(p6) => (Ok((init, cond, inc)), p6, n5),
                                                }
                                            },
                                        }
                                    },
                                }
                            },
                        }
                    },
                }
            },
        }
    }
}

/// `forStmt -> "for" "(" (varDecl | exprStmt | ";") expression? ";"
/// expression? ")" statement`, after the keyword.
pub open spec fn for_statement(ts: Seq<SpecToken>, p: int, n: int) -> Parsed<StmtView>
    decreases ts.len() - p, 36int,
{
    match for_header(ts, p, n) {
        (Err(e), p1, n1) => (Err(e), p1, n1),
        (Ok((init, cond, inc)), p1, n1) => if p1 <= p {
            outside(p1, n1)
        } else {
            match statement(ts, p1, n1) {
                (Ok(body), p2, n2) => (Ok(desugar_for(init, cond, inc, body)), p2, n2),
                (Err(e), p2, n2) => (Err(e), p2, n2),
            }
        },
    }
}

/// A parenthesized condition: `"(" expression ")"`.
pub open spec fn condition(ts: Seq<SpecToken>, p: int, n: int) -> Parsed<ExprView>
    decreases ts.len() - p, 33int,
{
    if !on_token(ts, p) {
        outside(p, n)
    } else {
        match expect(ts, p, TokenKind::LeftParen) {
            Err(e) => (Err(e), p, n),
            Ok(p1) => if p1 <= p {
                outside(p1, n)
            } else {
                match expression(ts, p1, n) {
                    (Err(e), p2, n2) => (Err(e), p2, n2),
                    (Ok(c), p2, n2) => if !on_token(ts, p2) {
                        outside(p2, n2)
                    } else {
                        match expect(ts, p2, TokenKind::RightParen) {
                            Err(e) => (Err(e), p2, n2),
                            Ok(p3) => (Ok(c), p3, n2),
                        }
                    },
                }
            },
        }
    }
}

/// `whileStmt -> "while" "(" expression ")" statement`, after the keyword.
pub open spec fn while_statement(ts: Seq<SpecToken>, p: int, n: int) -> Parsed<StmtView>
    decreases ts.len() - p, 34int,
{
    match condition(ts, p, n) {
        (Err(e), p1, n1) => (Err(e), p1, n1),
        (Ok(c), p1, n1) => if p1 <= p {
            outside(p1, n1)
        } else {
            match statement(ts, p1, n1) {
                (Ok(body), p2, n2) => (
                    Ok(StmtView::While { condition: c, body: Box::new(body) }),
                    p2,
                    n2,
                ),
                (Err(e), p2, n2) => (Err(e), p2, n2),
            }
        },
    }
}

/// `ifStmt -> "if" "(" expression ")" statement ("else" statement)?`,
/// after the keyword.
pub open spec fn if_statement(ts: Seq<SpecToken>, p: int, n: int) -> Parsed<StmtView>
    decreases ts.len() - p, 34int,
{
    match condition(ts, p, n) {
        (Err(e), p1, n1) => (Err(e), p1, n1),
        (Ok(c), p1, n1) => if p1 <= p {
            outside(p1, n1)
        } else {
            match statement(ts, p1, n1) {
                (Err(e), p2, n2) => (Err(e), p2, n2),
                (Ok(then_branch), p2, n2) => if !on_token(ts, p2) || p2 <= p {
                    outside(p2, n2)
                } else if is_kind(ts, p2, TokenKind::Else) {
                    match statement(ts, p2 + 1, n2) {
                        (Ok(b), p3, n3) => (
                            Ok(
                                StmtView::If {
                                    condition: c,
                                    then_branch: Box::new(then_branch),
                                    else_branch: Some(Box::new(b)),
                                },
                            ),
                            p3,
                            n3,
                        ),
                        (Err(e), p3, n3) => (Err(e), p3, n3),
                    }
                } else {
                    (
                        Ok(
                            StmtView::If {
                                condition: c,
                                then_branch: Box::new(then_branch),
                                else_branch: None,
                            },
                        ),
                        p2,
                        n2,
                    )
                },
            }
        },
    }
}

/// `block -> "{" declaration* "}"`, after the opening brace, with
/// `stmts` read so far.
pub open spec fn block_rest(ts: Seq<SpecToken>, p: int, n: int, stmts: Seq<StmtView>) -> Parsed<
    Seq<StmtView>,
>
    decreases ts.len() - p, 44int,
{
    if !on_token(ts, p) {
        outside(p, n)
    } else if !(ts[p].ty is Eof) && !is_kind(ts, p, TokenKind::RightCurly) {
        match declaration(ts, p, n) {
            (Ok(s), p1, n1) => if !on_token(ts, p1) || p1 <= p {
                outside(p1, n1)
            } else {
                block_rest(ts, p1, n1, stmts.push(s))
            },
            (Err(e), p1, n1) => (Err(e), p1, n1),
        }
    } else {
        match expect(ts, p, TokenKind::RightCurly) {
            Err(e) => (Err(e), p, n),
            Ok(p1) => (Ok(stmts), p1, n),
        }
    }
}

/// The declarations of a block, after its opening brace, and the closing
/// brace.
pub open spec fn block_body(ts: Seq<SpecToken>, p: int, n: int) -> Parsed<Seq<StmtView>>
    decreases ts.len() - p, 45int,
{
    block_rest(ts, p, n, Seq::empty())
}

/// `block -> "{" declaration* "}"`, after the opening brace.
pub open spec fn block(ts: Seq<SpecToken>, p: int, n: int) -> Parsed<StmtView>
    decreases ts.len() - p, 46int,
{
    match block_body(ts, p, n) {
        (Ok(stmts), p1, n1) => (Ok(StmtView::Block(stmts)), p1, n1),
        (Err(e), p1, n1) => (Err(e), p1, n1),
    }
}

/// `printStmt -> "print" expression ";"`, after the keyword.
pub open spec fn print_statement(ts: Seq<SpecToken>, p: int, n: int) -> Parsed<StmtView>
    decreases ts.len() - p, 32int,
{
    match expression(ts, p, n) {
        (Err(e), p1, n1) => (Err(e), p1, n1),
        (Ok(value), p1, n1) => if !on_token(ts, p1) {
            outside(p1, n1)
        } else {
            match expect(ts, p1, TokenKind::Semicolon) {
                Err(e) => (Err(e), p1, n1),
                Ok(p2) => (Ok(StmtView::Print(value)), p2, n1),
            }
        },
    }
}

/// `exprStmt -> expression ";"`
pub open spec fn expression_statement(ts: Seq<SpecToken>, p: int, n: int) -> Parsed<StmtView>
    decreases ts.len() - p, 31int,
{
    match expression(ts, p, n) {
        (Err(e), p1, n1) => (Err(e), p1, n1),
        (Ok(value), p1, n1) => if !on_token(ts, p1) {
            outside(p1, n1)
        } else {
            match expect(ts, p1, TokenKind::Semicolon) {
                Err(e) => (Err(e), p1, n1),
                Ok(p2) => (Ok(StmtView::Expression(value)), p2, n1),
            }
        },
    }
}

/// `expression -> assignment`
pub open spec fn expression(ts: Seq<SpecToken>, p: int, n: int) -> Parsed<ExprView>
    decreases ts.len() - p, 22int,
{
    assignment(ts, p, n)
}

/// `assignment -> IDENTIFIER "=" assignment | logic_or`: an expression,
/// and where `=` follows it, the value assigned to it (an error where it is
/// not a variable).
pub open spec fn assignment(ts: Seq<SpecToken>, p: int, n: int) -> Parsed<ExprView>
    decreases ts.len() - p, 21int,
{
    match logic_or(ts, p, n) {
        (Err(e), p1, n1) => (Err(e), p1, n1),
        (Ok(target), p1, n1) => if !on_token(ts, p1) || p1 <= p {
            outside(p1, n1)
        } else if is_kind(ts, p1, TokenKind::Eq) {
            match assignment(ts, p1 + 1, n1) {
                (Err(e), p2, n2) => (Err(e), p2, n2),
                (Ok(value), p2, n2) => match target {
                    ExprView::Variable { name, id } => (
                        Ok(ExprView::Assign { name, id, value: Box::new(value) }),
                        p2,
                        n2,
                    ),
                    _ => if !on_token(ts, p2) {
                        outside(p2, n2)
                    } else {
                        (Err(ParserErrorOf::InvalidAssignmentTarget { pos: ts[p2].pos }), p2, n2)
                    },
                },
            }
        } else {
            (Ok(target), p1, n1)
        },
    }
}

/// The rank of binary level `level` among the rules, for the termination
/// of the rules that call one another.
pub open spec fn level_rank(level: int) -> int {
    if 0 <= level <= 6 {
        13 + level
    } else {
        13
    }
}

/// The operand parser of the binary level `level` (one to six: `or`,
/// `and`, equality, comparison, term, factor), over the operand parsed by
/// the next level down.
pub open spec fn operand(ts: Seq<SpecToken>, p: int, n: int, level: int) -> Parsed<ExprView>
    decreases ts.len() - p, level_rank(level),
{
    if level <= 0 || level > 6 {
        unary(ts, p, n)
    } else {
        let first = if level == 1 {
            unary(ts, p, n)
        } else {
            operand(ts, p, n, level - 1)
        };
        match first {
            (Err(e), p1, n1) => (Err(e), p1, n1),
            (Ok(left), p1, n1) => if !on_token(ts, p1) || p1 <= p {
                outside(p1, n1)
            } else {
                operand_rest(ts, p1, n1, level, left)
            },
        }
    }
}

/// The operator of binary level `level` that the token at `p` stands for,
/// if it stands for one there.
pub open spec fn level_op(ts: Seq<SpecToken>, p: int, level: int) -> Option<Op> {
    if level == 6 {
        if is_kind(ts, p, TokenKind::Or) {
            Some(Op::Or)
        } else {
            None
        }
    } else if level == 5 {
        if is_kind(ts, p, TokenKind::And) {
            Some(Op::And)
        } else {
            None
        }
    } else if level == 4 {
        if is_kind(ts, p, TokenKind::BangEq) {
            Some(Op::NotEqual)
        } else if is_kind(ts, p, TokenKind::EqEq) {
            Some(Op::Equal)
        } else {
            None
        }
    } else if level == 3 {
        if is_kind(ts, p, TokenKind::Greater) {
            Some(Op::GreaterThan)
        } else if is_kind(ts, p, TokenKind::GreaterEq) {
            Some(Op::GreaterThanEqual)
        } else if is_kind(ts, p, TokenKind::Less) {
            Some(Op::LessThan)
        } else if is_kind(ts, p, TokenKind::LessEq) {
            Some(Op::LessThanEqual)
        } else {
            None
        }
    } else if level == 2 {
        if is_kind(ts, p, TokenKind::Minus) {
            Some(Op::Sub)
        } else if is_kind(ts, p, TokenKind::Plus) {
            Some(Op::Add)
        } else {
            None
        }
    } else {
        if is_kind(ts, p, TokenKind::Slash) {
            Some(Op::Div)
        } else if is_kind(ts, p, TokenKind::Star) {
            Some(Op::Mul)
        } else {
            None
        }
    }
}

/// The expression joining `left` and `right` by the operator `op` of
/// binary level `level`: a logical expression for `or` and `and`, a binary
/// one for the others.
pub open spec fn join(level: int, left: ExprView, op: Op, right: ExprView) -> ExprView {
    if level >= 5 {
        ExprView::Logical { left: Box::new(left), op, right: Box::new(right) }
    } else {
        ExprView::Binary { op, right: Box::new(right), left: Box::new(left) }
    }
}

/// The rest of binary level `level` after its operand `left`: each
/// operator of the level and the operand after it, joined from the left.
pub open spec fn operand_rest(ts: Seq<SpecToken>, p: int, n: int, level: int, left: ExprView) -> Parsed<
    ExprView,
>
    decreases ts.len() - p, level_rank(level),
{
    if !on_token(ts, p) || level <= 0 || level > 6 {
        outside(p, n)
    } else {
        match level_op(ts, p, level) {
            None => (Ok(left), p, n),
            Some(op) => match (if level == 1 {
                unary(ts, p + 1, n)
            } else {
                operand(ts, p + 1, n, level - 1)
            }) {
                (Err(e), p1, n1) => (Err(e), p1, n1),
                (Ok(right), p1, n1) => if !on_token(ts, p1) || p1 <= p {
                    outside(p1, n1)
                } else {
                    operand_rest(ts, p1, n1, level, join(level, left, op, right))
                },
            },
        }
    }
}

/// `logic_or -> logic_and ("or" logic_and)*`, and the levels below it.
pub open spec fn logic_or(ts: Seq<SpecToken>, p: int, n: int) -> Parsed<ExprView>
    decreases ts.len() - p, 20int,
{
    operand(ts, p, n, 6)
}

/// `unary -> ("!" | "-") unary | call`
pub open spec fn unary(ts: Seq<SpecToken>, p: int, n: int) -> Parsed<ExprView>
    decreases ts.len() - p, 12int,
{
    if !on_token(ts, p) {
        outside(p, n)
    } else if is_kind(ts, p, TokenKind::Bang) || is_kind(ts, p, TokenKind::Minus) {
        let op = if is_kind(ts, p, TokenKind::Bang) {
            Op::Not
        } else {
            Op::Sub
        };
        match unary(ts, p + 1, n) {
            (Ok(right), p1, n1) => (Ok(ExprView::Unary { op, right: Box::new(right) }), p1, n1),
            (Err(e), p1, n1) => (Err(e), p1, n1),
        }
    } else {
        call(ts, p, n)
    }
}

/// `call -> primary ("(" arguments? ")")*`
pub open spec fn call(ts: Seq<SpecToken>, p: int, n: int) -> Parsed<ExprView>
    decreases ts.len() - p, 11int,
{
    match primary(ts, p, n) {
        (Err(e), p1, n1) => (Err(e), p1, n1),
        (Ok(e), p1, n1) => if !on_token(ts, p1) || p1 <= p {
            outside(p1, n1)
        } else {
            call_rest(ts, p1, n1, e)
        },
    }
}

/// The calls after the callee `callee`.
pub open spec fn call_rest(ts: Seq<SpecToken>, p: int, n: int, callee: ExprView) -> Parsed<ExprView>
    decreases ts.len() - p, 11int,
{
    if !on_token(ts, p) {
        outside(p, n)
    } else if is_kind(ts, p, TokenKind::LeftParen) {
        match arguments(ts, p + 1, n, callee) {
            (Ok(e), p1, n1) => if !on_token(ts, p1) || p1 <= p {
                outside(p1, n1)
            } else {
                call_rest(ts, p1, n1, e)
            },
            (Err(e), p1, n1) => (Err(e), p1, n1),
        }
    } else {
        (Ok(callee), p, n)
    }
}

/// `arguments? ")"` after the `(` of a call of `callee`: the call.
pub open spec fn arguments(ts: Seq<SpecToken>, p: int, n: int, callee: ExprView) -> Parsed<ExprView>
    decreases ts.len() - p, 24int,
{
    if !on_token(ts, p) {
        outside(p, n)
    } else {
        let args = if is_kind(ts, p, TokenKind::RightParen) {
            (Ok(Seq::empty()), p, n)
        } else {
            argument_list(ts, p, n, Seq::empty())
        };
        match args {
            (Err(e), p1, n1) => (Err(e), p1, n1),
            (Ok(list), p1, n1) => if !on_token(ts, p1) {
                outside(p1, n1)
            } else {
                match expect(ts, p1, TokenKind::RightParen) {
                    Err(e) => (Err(e), p1, n1),
                    Ok(p2) => (
                        Ok(ExprView::Call { callee: Box::new(callee), paren: ts[p1], arguments: list }),
                        p2,
                        n1,
                    ),
                }
            },
        }
    }
}

/// `arguments -> expression ("," expression)*`, with `args` read so far.
pub open spec fn argument_list(ts: Seq<SpecToken>, p: int, n: int, args: Seq<ExprView>) -> Parsed<
    Seq<ExprView>,
>
    decreases ts.len() - p, 23int,
{
    if !on_token(ts, p) {
        outside(p, n)
    } else if args.len() >= MAX_ARGS {
        (Err(ParserErrorOf::TooManyArguments { pos: ts[p].pos }), p, n)
    } else {
        match expression(ts, p, n) {
            (Err(e), p1, n1) => (Err(e), p1, n1),
            (Ok(a), p1, n1) => if !on_token(ts, p1) || p1 <= p {
                outside(p1, n1)
            } else if is_kind(ts, p1, TokenKind::Comma) {
                argument_list(ts, p1 + 1, n1, args.push(a))
            } else {
                (Ok(args.push(a)), p1, n1)
            },
        }
    }
}

/// `primary -> NUMBER | STRING | "true" | "false" | "nil" | "(" expression
/// ")" | IDENTIFIER`; a variable gets the next id.
pub open spec fn primary(ts: Seq<SpecToken>, p: int, n: int) -> Parsed<ExprView>
    decreases ts.len() - p, 10int,
{
    if !on_token(ts, p) {
        outside(p, n)
    } else if is_kind(ts, p, TokenKind::False) {
        (Ok(ExprView::Literal(LitView::Bool(false))), p + 1, n)
    } else if is_kind(ts, p, TokenKind::True) {
        (Ok(ExprView::Literal(LitView::Bool(true))), p + 1, n)
    } else if is_kind(ts, p, TokenKind::Nil) {
        (Ok(ExprView::Literal(LitView::Nil)), p + 1, n)
    } else {
        match ts[p].ty {
            TokenKind::Number(data) => (Ok(ExprView::Literal(LitView::Number(data))), p + 1, n),
            TokenKind::StringLit(data) => (Ok(ExprView::Literal(LitView::String(data))), p + 1, n),
            TokenKind::Identifier(name) => (
                Ok(ExprView::Variable { name, id: n as usize }),
                p + 1,
                n + 1,
            ),
            _ => if is_kind(ts, p, TokenKind::LeftParen) {
                match expression(ts, p + 1, n) {
                    (Err(e), p1, n1) => (Err(e), p1, n1),
                    (Ok(e), p1, n1) => if !on_token(ts, p1) {
                        outside(p1, n1)
                    } else {
                        match expect(ts, p1, TokenKind::RightParen) {
                            Err(err) => (Err(err), p1, n1),
                            Ok(p2) => (Ok(ExprView::Grouping(Box::new(e))), p2, n1),
                        }
                    },
                }
            } else {
                (Err(ParserErrorOf::UnknwonError { last_token: ts[p] }), p, n)
            },
        }
    }
}

/// The position where the parser resumes after an error at `p`: just past
/// the next semicolon, or at the next keyword that starts a declaration or
/// statement, or at the end of the input; `p` has been read already.
pub open spec fn resume_from(ts: Seq<SpecToken>, p: int) -> int
    decreases ts.len() - p,
{
    if !on_token(ts, p) || p < 1 {
        p
    } else if ts[p].ty is Eof || is_kind(ts, p - 1, TokenKind::Semicolon) {
        p
    } else if is_kind(ts, p, TokenKind::Class) || is_kind(ts, p, TokenKind::Fun) || is_kind(
        ts,
        p,
        TokenKind::Var,
    ) || is_kind(ts, p, TokenKind::If) || is_kind(ts, p, TokenKind::While) || is_kind(
        ts,
        p,
        TokenKind::For,
    ) || is_kind(ts, p, TokenKind::Print) || is_kind(ts, p, TokenKind::Return) {
        p
    } else {
        resume_from(ts, p + 1)
    }
}

/// The position where the parser resumes after an error at `p`.
pub open spec fn resume(ts: Seq<SpecToken>, p: int) -> int {
    if !on_token(ts, p) {
        p
    } else {
        resume_from(ts, next_pos(ts, p))
    }
}

/// `program -> declaration* EOF`, with the declarations `stmts` read so far
/// and the errors `errors` found so far: every declaration, or, where any
/// failed, the error of each one that did.
pub open spec fn program(
    ts: Seq<SpecToken>,
    p: int,
    n: int,
    stmts: Seq<StmtView>,
    errors: Seq<SpecParserError>,
) -> (Result<Seq<StmtView>, Seq<SpecParserError>>, int, int)
    decreases ts.len() - p, 50int,
{
    if !on_token(ts, p) || ts[p].ty is Eof {
        (
            if errors.len() == 0 {
                Ok(stmts)
            } else {
                Err(errors)
            },
            p,
            n,
        )
    } else {
        match declaration(ts, p, n) {
            (Ok(s), p1, n1) => if !on_token(ts, p1) || p1 <= p {
                (Err(errors), p1, n1)
            } else {
                program(ts, p1, n1, stmts.push(s), errors)
            },
            (Err(e), p1, n1) => {
                let p2 = resume(ts, p1);
                if !on_token(ts, p2) || p2 <= p {
                    (Err(errors), p2, n1)
                } else {
                    program(ts, p2, n1, stmts, errors.push(e))
                }
            },
        }
    }
}

/// Law: each binary level reads the operators of its precedence, and each
/// as the operator its token stands for: `*` and `/` at the factor level,
/// `+` and `-` at the term level, the comparisons, then `==` and `!=`, then
/// `and`, then `or`.
pub proof fn law_level_operators(ts: Seq<SpecToken>, p: int, level: int)
    requires
        0 <= p < ts.len(),
    ensures
        level_op(ts, p, level) matches Some(op) ==> {
            &&& op_of(ts[p].ty) == Some(op)
            &&& level == 1 ==> (op == Op::Mul || op == Op::Div)
            &&& level == 2 ==> (op == Op::Add || op == Op::Sub)
            &&& level == 3 ==> (op == Op::LessThan || op == Op::LessThanEqual || op
                == Op::GreaterThan || op == Op::GreaterThanEqual)
            &&& level == 4 ==> (op == Op::Equal || op == Op::NotEqual)
            &&& level == 5 ==> op == Op::And
            &&& level == 6 ==> op == Op::Or
        },
{
    match ts[p].ty {
        TokenKind::Plus => {},
        TokenKind::Minus => {},
        TokenKind::Star => {},
        TokenKind::Slash => {},
        TokenKind::EqEq => {},
        TokenKind::BangEq => {},
        TokenKind::Greater => {},
        TokenKind::GreaterEq => {},
        TokenKind::Less => {},
        TokenKind::LessEq => {},
        TokenKind::And => {},
        TokenKind::Or => {},
        _ => {},
    }
}

/// The operand parser of the level below binary level `level`: `unary`
/// below the factor level.
pub open spec fn lower_operand(ts: Seq<SpecToken>, p: int, n: int, level: int) -> Parsed<ExprView> {
    if level == 1 {
        unary(ts, p, n)
    } else {
        operand(ts, p, n, level - 1)
    }
}

/// Law: the binary operators of one level associate to the left. Where the
/// tokens from `p` on are operands `a`, `b` and `c` of the level below,
/// joined by two operators of the level and followed by no third, the
/// parse of the level is `(a op1 b) op2 c`: the right operand of each
/// operator is an operand of the level below (at the term level, a factor).
pub proof fn law_binary_levels_associate_left(
    ts: Seq<SpecToken>,
    p: int,
    n: int,
    level: int,
    a: ExprView,
    p1: int,
    n1: int,
    op1: Op,
    b: ExprView,
    p2: int,
    n2: int,
    op2: Op,
    c: ExprView,
    p3: int,
    n3: int,
)
    requires
        1 <= level <= 6,
        lower_operand(ts, p, n, level) == (Ok::<ExprView, SpecParserError>(a), p1, n1),
        on_token(ts, p1),
        p < p1,
        level_op(ts, p1, level) == Some(op1),
        lower_operand(ts, p1 + 1, n1, level) == (Ok::<ExprView, SpecParserError>(b), p2, n2),
        on_token(ts, p2),
        p1 < p2,
        level_op(ts, p2, level) == Some(op2),
        lower_operand(ts, p2 + 1, n2, level) == (Ok::<ExprView, SpecParserError>(c), p3, n3),
        on_token(ts, p3),
        p2 < p3,
        level_op(ts, p3, level) is None,
    ensures
        level <= 4 ==> operand(ts, p, n, level) == (
            Ok::<ExprView, SpecParserError>(
                ExprView::Binary {
                    op: op2,
                    right: Box::new(c),
                    left: Box::new(ExprView::Binary { op: op1, right: Box::new(b), left: Box::new(a) }),
                },
            ),
            p3,
            n3,
        ),
        level >= 5 ==> operand(ts, p, n, level) == (
            Ok::<ExprView, SpecParserError>(
                ExprView::Logical {
                    left: Box::new(ExprView::Logical { left: Box::new(a), op: op1, right: Box::new(b) }),
                    op: op2,
                    right: Box::new(c),
                },
            ),
            p3,
            n3,
        ),
{
    let ab = join(level, a, op1, b);
    let abc = join(level, ab, op2, c);
    assert(operand_rest(ts, p3, n3, level, abc) == (Ok::<ExprView, SpecParserError>(abc), p3, n3));
    assert(operand_rest(ts, p2, n2, level, ab) == operand_rest(ts, p3, n3, level, abc));
    assert(operand_rest(ts, p1, n1, level, a) == operand_rest(ts, p2, n2, level, ab));
}

/// Law: a `for` loop is parsed into a `while` loop: what it gives is the
/// `while` loop itself, or a block of the initializer and the `while` loop.
pub proof fn law_for_becomes_while(ts: Seq<SpecToken>, p: int, n: int)
    ensures
        for_statement(ts, p, n).0 matches Ok(s) ==> (s is While || (s matches StmtView::Block(b)
            && b.len() == 2 && b[1] is While)),
{
}

/// A declaration that parses moves the program on past it.
pub proof fn lemma_program_declaration(
    ts: Seq<SpecToken>,
    p: int,
    n: int,
    stmts: Seq<StmtView>,
    errors: Seq<SpecParserError>,
)
    requires
        on_token(ts, p),
        !(ts[p].ty is Eof),
        declaration(ts, p, n).0 is Ok,
        on_token(ts, declaration(ts, p, n).1),
        declaration(ts, p, n).1 > p,
    ensures
        program(ts, p, n, stmts, errors) == program(
            ts,
            declaration(ts, p, n).1,
            declaration(ts, p, n).2,
            stmts.push(declaration(ts, p, n).0->Ok_0),
            errors,
        ),
{
}

/// A declaration that fails adds its error, and the program goes on where
/// the parser resumes.
pub proof fn lemma_program_error(
    ts: Seq<SpecToken>,
    p: int,
    n: int,
    stmts: Seq<StmtView>,
    errors: Seq<SpecParserError>,
)
    requires
        on_token(ts, p),
        !(ts[p].ty is Eof),
        declaration(ts, p, n).0 is Err,
        on_token(ts, resume(ts, declaration(ts, p, n).1)),
        resume(ts, declaration(ts, p, n).1) > p,
    ensures
        program(ts, p, n, stmts, errors) == program(
            ts,
            resume(ts, declaration(ts, p, n).1),
            declaration(ts, p, n).2,
            stmts,
            errors.push(declaration(ts, p, n).0->Err_0),
        ),
{
}

} // verus!
