//! A recursive descent parser for Lox.
//!
//! ```text
//! program         -> declaration* EOF ;
//! declaration     -> funDecl | varDecl | statement ;
//! funDecl         -> "fun" IDENTIFIER "(" params? ")" block ;
//! params          -> IDENTIFIER ("," IDENTIFIER)* ;
//! varDecl         -> "var" IDENTIFIER ("=" expression)? ";" ;
//! statement       -> exprStmt | forStmt | ifStmt | printStmt | whileStmt
//!                 | block | returnStmt ;
//! exprStmt        -> expression ";"
//! forStmt         -> "for" "(" (varDecl | exprStmt | ";" )
//!                     expression? ";" expression? ")" statement ;
//! ifStmt          -> "if" "(" expression ")" statement ( "else" statement )? ;
//! printStmt       -> "print" expression ";" ;
//! whileStmt       -> "while" "(" expression ")" statement ;
//! block           -> "{" declaration* "}" ;
//! returnStmt      -> "return" expression? ";" ;
//! expression      -> assignment ;
//! assignment      -> IDENTIFIER "=" assignment | logic_or ;
//! logic_or        -> logic_and ( "or" logic_and )* ;
//! logic_and       -> equality ( "and" equality )* ;
//! equality        -> comparison ( ( "!=" | "==" ) comparison )* ;
//! comparison      -> term ( ( ">" | ">=" | "<" | "<=" ) term )* ;
//! term            -> factor ( ( "-" | "+" ) factor )* ;
//! factor          -> unary ( ( "/" | "*" ) unary )* ;
//! unary           -> ( "!" | "-" ) unary | call ;
//! call            -> primary ( "(" arguments? ")" )* ;
//! arguments       -> expression ( "," expression )* ;
//! primary         -> NUMBER | STRING | "true" | "false" | "nil"
//!                 | "(" expression ")" | IDENTIFIER ;
//! ```
//!
//! A `for` loop is rewritten into a `while` loop.
use vstd::prelude::*;
use crate::errors::{ParserError, SpecParserError};
use crate::grammar;
use crate::nodes::{
    expr_ids, expr_view, expr_wf, exprs_ids, exprs_view, ids_within, lemma_exprs_ids_push,
    lemma_exprs_view_len, lemma_exprs_view_push, lemma_ids_concat, lemma_ids_join, lemma_ids_widen, lemma_stmts_ids_push,
    lemma_stmts_view_push, names_view, stmt_ids, stmt_view, stmt_wf, stmts_ids, stmts_view,
    stmts_wf, Expr, ExprView, Lit, LitView, Op, Stmt, StmtView, MAX_ARGS,
};
use crate::scanner::token_views;
use crate::token::{lemma_kind_code_view, same_kind, SpecToken, Token, TokenKind, TokenType};

verus! {

/// Whether a token list is one the parser can read: it is not empty and
/// its last token marks the end of the input.
pub open spec fn parsable(tokens: Seq<Token>) -> bool {
    tokens.len() > 0 && tokens.last().ty is Eof
}

/// A parsed expression, or the error, seen through views.
pub open spec fn expr_parsed(r: Result<Expr, ParserError>) -> Result<ExprView, SpecParserError> {
    match r {
        Ok(e) => Ok(expr_view(e)),
        Err(e) => Err(e@),
    }
}

/// A parsed statement, or the error, seen through views.
pub open spec fn stmt_parsed(r: Result<Stmt, ParserError>) -> Result<StmtView, SpecParserError> {
    match r {
        Ok(s) => Ok(stmt_view(s)),
        Err(e) => Err(e@),
    }
}

/// Parsed statements, or the error, seen through views.
pub open spec fn stmts_parsed(r: Result<Vec<Stmt>, ParserError>) -> Result<Seq<StmtView>, SpecParserError> {
    match r {
        Ok(s) => Ok(stmts_view(s@)),
        Err(e) => Err(e@),
    }
}

/// An expression that may be missing, seen through its view.
pub open spec fn opt_expr_view(o: Option<Expr>) -> Option<ExprView> {
    match o {
        Some(e) => Some(expr_view(e)),
        None => None,
    }
}

/// A statement that may be missing, seen through its view.
pub open spec fn opt_stmt_view(o: Option<Stmt>) -> Option<StmtView> {
    match o {
        Some(s) => Some(stmt_view(s)),
        None => None,
    }
}

/// Parser errors seen through views.
pub open spec fn errors_view(es: Seq<ParserError>) -> Seq<SpecParserError> {
    es.map_values(|e: ParserError| e@)
}

/// A parsed program, or its errors, seen through views.
pub open spec fn program_parsed(r: Result<Vec<Stmt>, Vec<ParserError>>) -> Result<
    Seq<StmtView>,
    Seq<SpecParserError>,
> {
    match r {
        Ok(s) => Ok(stmts_view(s@)),
        Err(es) => Err(errors_view(es@)),
    }
}

/// Which ids a `for` loop's initializer and condition took: those from
/// the first bound on, up to the second.
pub open spec fn ids_range(g1: int, c1: int) -> bool {
    g1 <= c1
}

/// The statement a `for` loop stands for (see `grammar::desugar_for`),
/// from the parts of the loop, whose ids lie one range after the other:
/// the initializer's in `b.0..b.1`, the condition's in `b.1..b.2`, the
/// increment's in `b.2..b.3` and the body's in `b.3..b.4`.
fn desugar_for_loop(
    initializer: Option<Stmt>,
    condition: Option<Expr>,
    increment: Option<Expr>,
    body: Stmt,
    Ghost(b): Ghost<(int, int, int, int, int)>,
) -> (r: Stmt)
    requires
        b.0 <= b.1 <= b.2 <= b.3 <= b.4,
        initializer matches Some(i) ==> stmt_wf(i) && ids_within(stmt_ids(i), b.0, b.1),
        condition matches Some(c) ==> expr_wf(c) && ids_within(expr_ids(c), b.1, b.2),
        increment matches Some(c) ==> expr_wf(c) && ids_within(expr_ids(c), b.2, b.3),
        stmt_wf(body),
        ids_within(stmt_ids(body), b.3, b.4),
    ensures
        stmt_view(r) == grammar::desugar_for(
            opt_stmt_view(initializer),
            opt_expr_view(condition),
            opt_expr_view(increment),
            stmt_view(body),
        ),
        stmt_wf(r),
        ids_within(stmt_ids(r), b.0, b.4),
{
    let ghost (g0, g1, c1, i1, b1) = b;
    let ghost init_v = opt_stmt_view(initializer);
    let ghost cond_v = opt_expr_view(condition);
    let ghost inc_v = opt_expr_view(increment);
    let ghost body_v = stmt_view(body);
    let mut body = body;
    if let Some(inc) = increment {
        let mut both: Vec<Stmt> = Vec::new();
        both.push(body);
        both.push(Stmt::Expression(inc));
        proof {
            lemma_stmts_ids_push(Seq::empty(), body);
            lemma_stmts_ids_push(seq![body], Stmt::Expression(inc));
            lemma_stmts_view_push(Seq::empty(), body);
            lemma_stmts_view_push(seq![body], Stmt::Expression(inc));
            assert(Seq::<usize>::empty() + stmt_ids(body) =~= stmt_ids(body));
            assert(both@ =~= seq![body].push(Stmt::Expression(inc)));
            assert(seq![body] =~= Seq::<Stmt>::empty().push(body));
            assert(stmts_view(both@) =~= seq![body_v, StmtView::Expression(expr_view(inc))]);
            lemma_ids_concat(stmt_ids(body), expr_ids(inc), i1, b1, c1, i1, c1, b1);
        }
        assert(stmts_wf(both@));
        body = Stmt::Block(both);
    }
    assert(stmt_wf(body) && ids_within(stmt_ids(body), c1, b1));
    let ghost inner_v = stmt_view(body);
    assert(inner_v == match inc_v {
        Some(i) => StmtView::Block(seq![body_v, StmtView::Expression(i)]),
        None => body_v,
    });
    let condition = match condition {
        Some(c) => c,
        None => Expr::Literal(Lit::Bool(true)),
    };
    assert(expr_wf(condition) && ids_within(expr_ids(condition), g1, c1));
    proof {
        lemma_ids_concat(expr_ids(condition), stmt_ids(body), g1, c1, c1, b1, g1, b1);
    }
    let ghost c_v = expr_view(condition);
    assert(c_v == match cond_v {
        Some(c) => c,
        None => ExprView::Literal(LitView::Bool(true)),
    });
    body = Stmt::While { condition, body: Box::new(body) };
    let ghost loop_v = stmt_view(body);
    assert(loop_v == StmtView::While { condition: c_v, body: Box::new(inner_v) });
    assert(stmt_wf(body) && ids_within(stmt_ids(body), g1, b1));
    if let Some(init) = initializer {
        let mut both: Vec<Stmt> = Vec::new();
        both.push(init);
        both.push(body);
        proof {
            lemma_stmts_ids_push(Seq::empty(), init);
            lemma_stmts_ids_push(seq![init], body);
            lemma_stmts_view_push(Seq::empty(), init);
            lemma_stmts_view_push(seq![init], body);
            assert(Seq::<usize>::empty() + stmt_ids(init) =~= stmt_ids(init));
            assert(both@ =~= seq![init].push(body));
            assert(seq![init] =~= Seq::<Stmt>::empty().push(init));
            assert(stmts_view(both@) =~= seq![stmt_view(init), loop_v]);
            lemma_ids_concat(stmt_ids(init), stmt_ids(body), g0, g1, g1, b1, g0, b1);
        }
        assert(stmts_wf(both@));
        body = Stmt::Block(both);
    } else {
        proof {
            lemma_ids_widen(stmt_ids(body), g1, b1, g0, b1);
        }
    }
    body
}

pub struct Parser<'t> {
    tokens: &'t [Token],
    cursor: usize,
    next_id: usize,
}

impl<'t> Parser<'t> {
    /// The tokens being parsed.
    pub closed spec fn token_seq(&self) -> Seq<Token> {
        self.tokens@
    }

    /// The tokens being parsed, seen through the characters of their texts.
    pub closed spec fn tv(&self) -> Seq<SpecToken> {
        token_views(self.tokens@)
    }

    /// The index of the next token to read.
    pub closed spec fn cursor(&self) -> int {
        self.cursor as int
    }

    /// The id the next variable reference or assignment will get.
    pub closed spec fn next_id(&self) -> int {
        self.next_id as int
    }

    /// The parser's state is consistent: it reads a parsable token list,
    /// its cursor lies on a token, and fewer ids have been handed out than
    /// tokens read.
    pub closed spec fn wf(&self) -> bool {
        &&& parsable(self.tokens@)
        &&& self.tokens@.len() <= usize::MAX
        &&& self.cursor < self.tokens@.len()
        &&& self.next_id <= self.cursor
    }

    /// `self` reads the same tokens as `before`, consistently, and no
    /// earlier in them.
    closed spec fn keeps(&self, before: &Self) -> bool {
        &&& self.wf()
        &&& self.tokens@ == before.tokens@
        &&& self.cursor >= before.cursor
        &&& self.next_id >= before.next_id
    }

    /// The token under the cursor.
    closed spec fn current(&self) -> Token {
        self.tokens@[self.cursor as int]
    }

    pub fn new(tokens: &'t [Token]) -> (r: Self)
        ensures
            r.token_seq() == tokens@,
            r.tv() == token_views(tokens@),
            r.cursor() == 0,
            r.next_id() == 0,
            parsable(tokens@) ==> r.wf(),
    {
        let _n = tokens.len();
        Self { tokens, cursor: 0, next_id: 0 }
    }

    /// Parses declarations up to the end of the input: what
    /// `grammar::program` makes of the tokens. Returns them where every one
    /// parsed; else the errors, one for each declaration that did not parse
    /// (after an error the parser skips to what looks like the start of the
    /// next statement). Every variable reference and assignment in what it
    /// returns carries an id of its own, taken from the ids this parser had
    /// not yet handed out.
    pub fn parse(&mut self) -> (r: Result<Vec<Stmt>, Vec<ParserError>>)
        requires
            old(self).wf(),
        ensures
            final(self).wf(),
            final(self).token_seq() == old(self).token_seq(),
            final(self).cursor() >= old(self).cursor(),
            final(self).token_seq()[final(self).cursor()].ty is Eof,
            (program_parsed(r), final(self).cursor(), final(self).next_id()) == grammar::program(
                old(self).tv(),
                old(self).cursor(),
                old(self).next_id(),
                Seq::empty(),
                Seq::empty(),
            ),
            match r {
                Ok(stmts) => stmts_wf(stmts@) && ids_within(
                    stmts_ids(stmts@),
                    old(self).next_id(),
                    final(self).next_id(),
                ),
                Err(errors) => errors@.len() > 0,
            },
    {
        let ghost ts = self.tv();
        let mut stmts: Vec<Stmt> = Vec::new();
        let mut errors: Vec<ParserError> = Vec::new();
        proof {
            assert(stmts_view(stmts@) =~= Seq::<StmtView>::empty());
            assert(errors_view(errors@) =~= Seq::<SpecParserError>::empty());
        }
        while !self.is_eof()
            invariant
                self.keeps(old(self)),
                ts == self.tv(),
                stmts_wf(stmts@),
                ids_within(stmts_ids(stmts@), old(self).next_id as int, self.next_id as int),
                grammar::program(
                    ts,
                    self.cursor as int,
                    self.next_id as int,
                    stmts_view(stmts@),
                    errors_view(errors@),
                ) == grammar::program(
                    ts,
                    old(self).cursor as int,
                    old(self).next_id as int,
                    Seq::empty(),
                    Seq::empty(),
                ),
            decreases self.tokens@.len() - self.cursor,
        {
            self.parse_step(&mut stmts, &mut errors, Ghost(old(self).next_id as int));
        }
        if errors.len() == 0 {
            Ok(stmts)
        } else {
            Err(errors)
        }
    }

    /// Parses the declaration at the cursor: adds it to `stmts` where it
    /// parses, else adds its error to `errors` and skips to where the
    /// parser resumes.
    fn parse_step(
        &mut self,
        stmts: &mut Vec<Stmt>,
        errors: &mut Vec<ParserError>,
        Ghost(lo): Ghost<int>,
    )
        requires
            old(self).wf(),
            !(old(self).tv()[old(self).cursor as int].ty is Eof),
            lo <= old(self).next_id,
            stmts_wf(old(stmts)@),
            ids_within(stmts_ids(old(stmts)@), lo, old(self).next_id as int),
        ensures
            final(self).keeps(old(self)),
            final(self).cursor > old(self).cursor,
            stmts_wf(final(stmts)@),
            ids_within(stmts_ids(final(stmts)@), lo, final(self).next_id as int),
            grammar::program(
                old(self).tv(),
                final(self).cursor as int,
                final(self).next_id as int,
                stmts_view(final(stmts)@),
                errors_view(final(errors)@),
            ) == grammar::program(
                old(self).tv(),
                old(self).cursor as int,
                old(self).next_id as int,
                stmts_view(old(stmts)@),
                errors_view(old(errors)@),
            ),
    {
        let ghost ts = self.tv();
        let ghost before = self.cursor;
        let ghost mid = self.next_id as int;
        let ghost errs = errors_view(errors@);
        let ghost sv = stmts_view(stmts@);
        match self.declaration() {
            Ok(stmt) => {
                proof {
                    grammar::lemma_program_declaration(ts, before as int, mid, sv, errs);
                    lemma_stmts_ids_push(stmts@, stmt);
                    lemma_stmts_view_push(stmts@, stmt);
                    lemma_ids_join(stmts_ids(stmts@), stmt_ids(stmt), lo, mid, self.next_id as int);
                }
                stmts.push(stmt);
            },
            Err(err) => {
                let ghost e = err@;
                errors.push(err);
                proof {
                    assert(errors_view(errors@) =~= errs.push(e));
                }
                self.synchronize();
                proof {
                    grammar::lemma_program_error(ts, before as int, mid, sv, errs);
                }
            },
        }
    }

    fn declaration(&mut self) -> (r: Result<Stmt, ParserError>)
        requires
            old(self).wf(),
        ensures
            final(self).keeps(old(self)),
            (stmt_parsed(r), final(self).cursor as int, final(self).next_id as int) == grammar::declaration(
                old(self).tv(),
                old(self).cursor as int,
                old(self).next_id as int,
            ),
            r matches Ok(s) ==> final(self).cursor > old(self).cursor && stmt_wf(s) && ids_within(
                stmt_ids(s),
                old(self).next_id as int,
                final(self).next_id as int,
            ),
        decreases old(self).tokens@.len() - old(self).cursor, 40int,
    {
        if self.match_token(&TokenKind::Fun) {
            return self.fun_declaration();
        }
        if self.match_token(&TokenKind::Var) {
            return self.var_declaration();
        }
        self.statement()
    }

    /// The error for a token where an identifier should stand.
    fn identifier_expected(&self) -> (r: ParserError)
        requires
            self.wf(),
        ensures
            r@ == grammar::identifier_expected(self.tv(), self.cursor as int),
    {
        ParserError::UnexpectedToken {
            expected: TokenKind::Identifier(String::new()),
            got: self.tokens[self.cursor].ty.duplicate(),
            pos: self.tokens[self.cursor].pos,
        }
    }

    /// The parameters of a function up to the closing parenthesis, which
    /// it leaves to read.
    fn params(&mut self) -> (r: Result<Vec<String>, ParserError>)
        requires
            old(self).wf(),
        ensures
            final(self).keeps(old(self)),
            final(self).next_id == old(self).next_id,
            ({
                let (g, p, n) = grammar::params(
                    old(self).tv(),
                    old(self).cursor as int,
                    old(self).next_id as int,
                    Seq::empty(),
                );
                &&& p == final(self).cursor
                &&& n == final(self).next_id
                &&& match r {
                    Ok(names) => g == Ok::<Seq<Seq<char>>, SpecParserError>(names_view(names@))
                        && names@.len() <= MAX_ARGS && final(self).cursor > old(self).cursor,
                    Err(e) => g == Err::<Seq<Seq<char>>, SpecParserError>(e@),
                }
            }),
    {
        let ghost ts = self.tv();
        let mut params: Vec<String> = Vec::new();
        proof {
            assert(names_view(params@) =~= Seq::<Seq<char>>::empty());
        }
        loop
            invariant
                self.keeps(old(self)),
                self.next_id == old(self).next_id,
                ts == self.tv(),
                params@.len() <= MAX_ARGS,
                params@.len() > 0 ==> self.cursor > old(self).cursor,
                grammar::params(ts, self.cursor as int, self.next_id as int, names_view(params@))
                    == grammar::params(
                    ts,
                    old(self).cursor as int,
                    old(self).next_id as int,
                    Seq::empty(),
                ),
            decreases self.tokens@.len() - self.cursor,
        {
            if params.len() >= MAX_ARGS {
                return Err(ParserError::TooManyArguments { pos: self.tokens[self.cursor].pos });
            }
            let ghost names = names_view(params@);
            match &self.tokens[self.cursor].ty {
                TokenKind::Identifier(s) => {
                    params.push(s.clone());
                    proof {
                        assert(names_view(params@) =~= names.push(s@));
                    }
                },
                _ => {
                    return Err(self.identifier_expected());
                },
            }
            self.advance();
            if !self.match_token(&TokenKind::Comma) {
                return Ok(params);
            }
        }
    }

    fn fun_declaration(&mut self) -> (r: Result<Stmt, ParserError>)
        requires
            old(self).wf(),
        ensures
            final(self).keeps(old(self)),
            (stmt_parsed(r), final(self).cursor as int, final(self).next_id as int) == grammar::fun_declaration(
                old(self).tv(),
                old(self).cursor as int,
                old(self).next_id as int,
            ),
            r matches Ok(s) ==> final(self).cursor > old(self).cursor && stmt_wf(s) && ids_within(
                stmt_ids(s),
                old(self).next_id as int,
                final(self).next_id as int,
            ),
        decreases old(self).tokens@.len() - old(self).cursor, 39int,
    {
        let name = match &self.tokens[self.cursor].ty {
            TokenKind::Identifier(n) => n.clone(),
            _ => {
                return Err(self.identifier_expected());
            },
        };
        self.advance();
        match self.consume_and_unexpected(TokenKind::LeftParen) {
            Ok(()) => {},
            Err(e) => {
                return Err(e);
            },
        }
        let params = if !self.check(&TokenKind::RightParen) {
            match self.params() {
                Ok(ps) => ps,
                Err(e) => {
                    return Err(e);
                },
            }
        } else {
            let none: Vec<String> = Vec::new();
            proof {
                assert(names_view(none@) =~= Seq::<Seq<char>>::empty());
            }
            none
        };
        match self.consume_and_unexpected(TokenKind::RightParen) {
            Ok(()) => {},
            Err(e) => {
                return Err(e);
            },
        }
        match self.consume_and_unexpected(TokenKind::LeftCurly) {
            Ok(()) => {},
            Err(e) => {
                return Err(e);
            },
        }
        let body = match self.block_body() {
            Ok(b) => b,
            Err(e) => {
                return Err(e);
            },
        };
        Ok(Stmt::Function { name, params, body })
    }

    fn var_declaration(&mut self) -> (r: Result<Stmt, ParserError>)
        requires
            old(self).wf(),
        ensures
            final(self).keeps(old(self)),
            (stmt_parsed(r), final(self).cursor as int, final(self).next_id as int) == grammar::var_declaration(
                old(self).tv(),
                old(self).cursor as int,
                old(self).next_id as int,
            ),
            r matches Ok(s) ==> final(self).cursor > old(self).cursor && stmt_wf(s) && ids_within(
                stmt_ids(s),
                old(self).next_id as int,
                final(self).next_id as int,
            ),
        decreases old(self).tokens@.len() - old(self).cursor, 38int,
    {
        let name = match &self.tokens[self.cursor].ty {
            TokenKind::Identifier(n) => n.clone(),
            _ => {
                return Err(self.identifier_expected());
            },
        };
        self.advance();
        let initializer = if self.match_token(&TokenKind::Eq) {
            match self.expression() {
                Ok(e) => Some(e),
                Err(e) => {
                    return Err(e);
                },
            }
        } else {
            None
        };
        match self.consume_and_unexpected(TokenKind::Semicolon) {
            Ok(()) => {},
            Err(e) => {
                return Err(e);
            },
        }
        Ok(Stmt::Var { name, initializer })
    }

    fn statement(&mut self) -> (r: Result<Stmt, ParserError>)
        requires
            old(self).wf(),
        ensures
            final(self).keeps(old(self)),
            (stmt_parsed(r), final(self).cursor as int, final(self).next_id as int) == grammar::statement(
                old(self).tv(),
                old(self).cursor as int,
                old(self).next_id as int,
            ),
            r matches Ok(s) ==> final(self).cursor > old(self).cursor && stmt_wf(s) && ids_within(
                stmt_ids(s),
                old(self).next_id as int,
                final(self).next_id as int,
            ),
        decreases old(self).tokens@.len() - old(self).cursor, 37int,
    {
        if self.match_token(&TokenKind::Return) {
            return self.return_statement();
        }
        if self.match_token(&TokenKind::Print) {
            return self.print_stmt();
        }
        if self.match_token(&TokenKind::While) {
            return self.while_statement();
        }
        if self.match_token(&TokenKind::For) {
            return self.for_statement();
        }
        if self.match_token(&TokenKind::If) {
            return self.if_statement();
        }
        if self.match_token(&TokenKind::LeftCurly) {
            return self.block();
        }
        self.expr_stmt()
    }

    /// The expression that may stand before a token of the kind of `end`,
    /// where one stands there.
    fn optional_expression(&mut self, end: TokenType) -> (r: Result<Option<Expr>, ParserError>)
        requires
            old(self).wf(),
            !(end is Eof),
        ensures
            final(self).keeps(old(self)),
            ({
                let (g, p, n) = grammar::optional_expression(
                    old(self).tv(),
                    old(self).cursor as int,
                    old(self).next_id as int,
                    end@,
                );
                &&& p == final(self).cursor
                &&& n == final(self).next_id
                &&& match r {
                    Ok(Some(e)) => g == Ok::<Option<ExprView>, SpecParserError>(Some(expr_view(e)))
                        && final(self).cursor > old(self).cursor && expr_wf(e) && ids_within(
                        expr_ids(e),
                        old(self).next_id as int,
                        final(self).next_id as int,
                    ),
                    Ok(None) => g == Ok::<Option<ExprView>, SpecParserError>(None) && *final(self)
                        == *old(self),
                    Err(e) => g == Err::<Option<ExprView>, SpecParserError>(e@),
                }
            }),
        decreases old(self).tokens@.len() - old(self).cursor, 23int,
    {
        if self.check(&end) {
            return Ok(None);
        }
        match self.expression() {
            Ok(e) => Ok(Some(e)),
            Err(e) => Err(e),
        }
    }

    fn return_statement(&mut self) -> (r: Result<Stmt, ParserError>)
        requires
            old(self).wf(),
        ensures
            final(self).keeps(old(self)),
            (stmt_parsed(r), final(self).cursor as int, final(self).next_id as int) == grammar::return_statement(
                old(self).tv(),
                old(self).cursor as int,
                old(self).next_id as int,
            ),
            r matches Ok(s) ==> final(self).cursor > old(self).cursor && stmt_wf(s) && ids_within(
                stmt_ids(s),
                old(self).next_id as int,
                final(self).next_id as int,
            ),
        decreases old(self).tokens@.len() - old(self).cursor, 36int,
    {
        let value = match self.optional_expression(TokenKind::Semicolon) {
            Ok(v) => v,
            Err(e) => {
                return Err(e);
            },
        };
        match self.consume_and_unexpected(TokenKind::Semicolon) {
            Ok(()) => {},
            Err(e) => {
                return Err(e);
            },
        }
        Ok(Stmt::Return { value })
    }

    /// The initializer of a `for` loop, and the `;` that ends it.
    fn for_initializer(&mut self) -> (r: Result<Option<Stmt>, ParserError>)
        requires
            old(self).wf(),
        ensures
            final(self).keeps(old(self)),
            final(self).cursor > old(self).cursor || r is Err,
            ({
                let (g, p, n) = grammar::for_initializer(
                    old(self).tv(),
                    old(self).cursor as int,
                    old(self).next_id as int,
                );
                &&& p == final(self).cursor
                &&& n == final(self).next_id
                &&& match r {
                    Ok(Some(s)) => g == Ok::<Option<StmtView>, SpecParserError>(Some(stmt_view(s)))
                        && stmt_wf(s) && ids_within(
                        stmt_ids(s),
                        old(self).next_id as int,
                        final(self).next_id as int,
                    ),
                    Ok(None) => g == Ok::<Option<StmtView>, SpecParserError>(None)
                        && final(self).next_id == old(self).next_id,
                    Err(e) => g == Err::<Option<StmtView>, SpecParserError>(e@),
                }
            }),
        decreases old(self).tokens@.len() - old(self).cursor, 39int,
    {
        if self.match_token(&TokenKind::Semicolon) {
            return Ok(None);
        }
        if self.match_token(&TokenKind::Var) {
            return match self.var_declaration() {
                Ok(s) => Ok(Some(s)),
                Err(e) => Err(e),
            };
        }
        match self.expr_stmt() {
            Ok(s) => Ok(Some(s)),
            Err(e) => Err(e),
        }
    }

    /// The header of a `for` loop, after the keyword: its initializer,
    /// condition and increment, up to the closing parenthesis, which it
    /// reads. Their ids lie one range after the other, as they were read.
    fn for_header(&mut self) -> (r: Result<
        (Option<Stmt>, Option<Expr>, Option<Expr>),
        ParserError,
    >)
        requires
            old(self).wf(),
        ensures
            final(self).keeps(old(self)),
            ({
                let (gr, p, n) = grammar::for_header(
                    old(self).tv(),
                    old(self).cursor as int,
                    old(self).next_id as int,
                );
                &&& p == final(self).cursor
                &&& n == final(self).next_id
                &&& match r {
                    Ok((init, cond, inc)) => {
                        &&& gr == Ok::<
                            (Option<StmtView>, Option<ExprView>, Option<ExprView>),
                            SpecParserError,
                        >((opt_stmt_view(init), opt_expr_view(cond), opt_expr_view(inc)))
                        &&& final(self).cursor > old(self).cursor
                        &&& exists|g1: int, c1: int|
                            #![trigger ids_range(g1, c1)]
                            {
                                &&& ids_range(g1, c1)
                                &&& old(self).next_id <= g1 <= c1 <= final(self).next_id
                                &&& (init matches Some(i) ==> stmt_wf(i) && ids_within(
                                    stmt_ids(i),
                                    old(self).next_id as int,
                                    g1,
                                ))
                                &&& (cond matches Some(c) ==> expr_wf(c) && ids_within(
                                    expr_ids(c),
                                    g1,
                                    c1,
                                ))
                                &&& (inc matches Some(c) ==> expr_wf(c) && ids_within(
                                    expr_ids(c),
                                    c1,
                                    final(self).next_id as int,
                                ))
                            }
                    },
                    Err(e) => gr == Err::<
                        (Option<StmtView>, Option<ExprView>, Option<ExprView>),
                        SpecParserError,
                    >(e@),
                }
            }),
        decreases old(self).tokens@.len() - old(self).cursor, 35int,
    {
        match self.consume_and_unexpected(TokenKind::LeftParen) {
            Ok(()) => {},
            Err(e) => {
                return Err(e);
            },
        }
        let initializer = match self.for_initializer() {
            Ok(i) => i,
            Err(e) => {
                return Err(e);
            },
        };
        let ghost g1 = self.next_id as int;
        let condition = match self.optional_expression(TokenKind::Semicolon) {
            Ok(c) => c,
            Err(e) => {
                return Err(e);
            },
        };
        let ghost c1 = self.next_id as int;
        match self.consume_and_unexpected(TokenKind::Semicolon) {
            Ok(()) => {},
            Err(e) => {
                return Err(e);
            },
        }
        let increment = match self.optional_expression(TokenKind::RightParen) {
            Ok(i) => i,
            Err(e) => {
                return Err(e);
            },
        };
        match self.consume_and_unexpected(TokenKind::RightParen) {
            Ok(()) => {},
            Err(e) => {
                return Err(e);
            },
        }
        proof {
            assert(ids_range(g1, c1));
        }
        Ok((initializer, condition, increment))
    }

    fn for_statement(&mut self) -> (r: Result<Stmt, ParserError>)
        requires
            old(self).wf(),
        ensures
            final(self).keeps(old(self)),
            (stmt_parsed(r), final(self).cursor as int, final(self).next_id as int) == grammar::for_statement(
                old(self).tv(),
                old(self).cursor as int,
                old(self).next_id as int,
            ),
            r matches Ok(s) ==> final(self).cursor > old(self).cursor && stmt_wf(s) && ids_within(
                stmt_ids(s),
                old(self).next_id as int,
                final(self).next_id as int,
            ),
        decreases old(self).tokens@.len() - old(self).cursor, 36int,
    {
        let header = self.for_header();
        let (initializer, condition, increment) = match header {
            Ok(h) => h,
            Err(e) => {
                return Err(e);
            },
        };
        let ghost (g1, c1) = choose|g1: int, c1: int|
            {
                &&& #[trigger] ids_range(g1, c1)
                &&& old(self).next_id <= g1 <= c1 <= self.next_id
                &&& (initializer matches Some(i) ==> stmt_wf(i) && ids_within(
                    stmt_ids(i),
                    old(self).next_id as int,
                    g1,
                ))
                &&& (condition matches Some(c) ==> expr_wf(c) && ids_within(expr_ids(c), g1, c1))
                &&& (increment matches Some(c) ==> expr_wf(c) && ids_within(
                    expr_ids(c),
                    c1,
                    self.next_id as int,
                ))
            };
        let ghost i1 = self.next_id as int;
        let body = match self.statement() {
            Ok(b) => b,
            Err(e) => {
                return Err(e);
            },
        };
        let r = desugar_for_loop(
            initializer,
            condition,
            increment,
            body,
            Ghost((old(self).next_id as int, g1, c1, i1, self.next_id as int)),
        );
        Ok(r)
    }

    fn while_statement(&mut self) -> (r: Result<Stmt, ParserError>)
        requires
            old(self).wf(),
        ensures
            final(self).keeps(old(self)),
            (stmt_parsed(r), final(self).cursor as int, final(self).next_id as int) == grammar::while_statement(
                old(self).tv(),
                old(self).cursor as int,
                old(self).next_id as int,
            ),
            r matches Ok(s) ==> final(self).cursor > old(self).cursor && stmt_wf(s) && ids_within(
                stmt_ids(s),
                old(self).next_id as int,
                final(self).next_id as int,
            ),
        decreases old(self).tokens@.len() - old(self).cursor, 34int,
    {
        match self.consume_and_unexpected(TokenKind::LeftParen) {
            Ok(()) => {},
            Err(e) => {
                return Err(e);
            },
        }
        let condition = match self.expression() {
            Ok(c) => c,
            Err(e) => {
                return Err(e);
            },
        };
        match self.consume_and_unexpected(TokenKind::RightParen) {
            Ok(()) => {},
            Err(e) => {
                return Err(e);
            },
        }
        let body = match self.statement() {
            Ok(b) => b,
            Err(e) => {
                return Err(e);
            },
        };
        Ok(Stmt::While { condition, body: Box::new(body) })
    }

    fn if_statement(&mut self) -> (r: Result<Stmt, ParserError>)
        requires
            old(self).wf(),
        ensures
            final(self).keeps(old(self)),
            (stmt_parsed(r), final(self).cursor as int, final(self).next_id as int) == grammar::if_statement(
                old(self).tv(),
                old(self).cursor as int,
                old(self).next_id as int,
            ),
            r matches Ok(s) ==> final(self).cursor > old(self).cursor && stmt_wf(s) && ids_within(
                stmt_ids(s),
                old(self).next_id as int,
                final(self).next_id as int,
            ),
        decreases old(self).tokens@.len() - old(self).cursor, 34int,
    {
        match self.consume_and_unexpected(TokenKind::LeftParen) {
            Ok(()) => {},
            Err(e) => {
                return Err(e);
            },
        }
        let condition = match self.expression() {
            Ok(c) => c,
            Err(e) => {
                return Err(e);
            },
        };
        match self.consume_and_unexpected(TokenKind::RightParen) {
            Ok(()) => {},
            Err(e) => {
                return Err(e);
            },
        }
        let then_branch = match self.statement() {
            Ok(b) => Box::new(b),
            Err(e) => {
                return Err(e);
            },
        };
        let else_branch = if self.match_token(&TokenKind::Else) {
            match self.statement() {
                Ok(b) => Some(Box::new(b)),
                Err(e) => {
                    return Err(e);
                },
            }
        } else {
            None
        };
        Ok(Stmt::If { condition, then_branch, else_branch })
    }

    fn block(&mut self) -> (r: Result<Stmt, ParserError>)
        requires
            old(self).wf(),
        ensures
            final(self).keeps(old(self)),
            (stmt_parsed(r), final(self).cursor as int, final(self).next_id as int) == grammar::block(
                old(self).tv(),
                old(self).cursor as int,
                old(self).next_id as int,
            ),
            r matches Ok(s) ==> final(self).cursor > old(self).cursor && stmt_wf(s) && ids_within(
                stmt_ids(s),
                old(self).next_id as int,
                final(self).next_id as int,
            ),
        decreases old(self).tokens@.len() - old(self).cursor, 46int,
    {
        match self.block_body() {
            Ok(stmts) => Ok(Stmt::Block(stmts)),
            Err(e) => Err(e),
        }
    }

    /// The declarations of a block up to its closing brace, which it reads.
    fn block_body(&mut self) -> (r: Result<Vec<Stmt>, ParserError>)
        requires
            old(self).wf(),
        ensures
            final(self).keeps(old(self)),
            (stmts_parsed(r), final(self).cursor as int, final(self).next_id as int)
                == grammar::block_body(
                old(self).tv(),
                old(self).cursor as int,
                old(self).next_id as int,
            ),
            r matches Ok(s) ==> final(self).cursor > old(self).cursor && stmts_wf(s@) && ids_within(
                stmts_ids(s@),
                old(self).next_id as int,
                final(self).next_id as int,
            ),
        decreases old(self).tokens@.len() - old(self).cursor, 45int,
    {
        let ghost ts = self.tv();
        let mut stmts: Vec<Stmt> = Vec::new();
        proof {
            assert(stmts_view(stmts@) =~= Seq::<StmtView>::empty());
        }
        while !self.is_eof() && !self.check(&TokenKind::RightCurly)
            invariant
                self.keeps(old(self)),
                ts == self.tv(),
                ts == old(self).tv(),
                stmts_wf(stmts@),
                ids_within(stmts_ids(stmts@), old(self).next_id as int, self.next_id as int),
                grammar::block_rest(ts, self.cursor as int, self.next_id as int, stmts_view(stmts@))
                    == grammar::block_body(ts, old(self).cursor as int, old(self).next_id as int),
            decreases self.tokens@.len() - self.cursor,
        {
            let ghost mid = self.next_id as int;
            let s = match self.declaration() {
                Ok(s) => s,
                Err(e) => {
                    return Err(e);
                },
            };
            proof {
                lemma_stmts_ids_push(stmts@, s);
                lemma_stmts_view_push(stmts@, s);
                lemma_ids_join(
                    stmts_ids(stmts@),
                    stmt_ids(s),
                    old(self).next_id as int,
                    mid,
                    self.next_id as int,
                );
            }
            stmts.push(s);
        }
        match self.consume_and_unexpected(TokenKind::RightCurly) {
            Ok(()) => {},
            Err(e) => {
                return Err(e);
            },
        }
        Ok(stmts)
    }

    fn print_stmt(&mut self) -> (r: Result<Stmt, ParserError>)
        requires
            old(self).wf(),
        ensures
            final(self).keeps(old(self)),
            (stmt_parsed(r), final(self).cursor as int, final(self).next_id as int) == grammar::print_statement(
                old(self).tv(),
                old(self).cursor as int,
                old(self).next_id as int,
            ),
            r matches Ok(s) ==> final(self).cursor > old(self).cursor && stmt_wf(s) && ids_within(
                stmt_ids(s),
                old(self).next_id as int,
                final(self).next_id as int,
            ),
        decreases old(self).tokens@.len() - old(self).cursor, 32int,
    {
        let value = match self.expression() {
            Ok(v) => v,
            Err(e) => {
                return Err(e);
            },
        };
        match self.consume_and_unexpected(TokenKind::Semicolon) {
            Ok(()) => {},
            Err(e) => {
                return Err(e);
            },
        }
        Ok(Stmt::Print(value))
    }

    fn expr_stmt(&mut self) -> (r: Result<Stmt, ParserError>)
        requires
            old(self).wf(),
        ensures
            final(self).keeps(old(self)),
            (stmt_parsed(r), final(self).cursor as int, final(self).next_id as int) == grammar::expression_statement(
                old(self).tv(),
                old(self).cursor as int,
                old(self).next_id as int,
            ),
            r matches Ok(s) ==> final(self).cursor > old(self).cursor && stmt_wf(s) && ids_within(
                stmt_ids(s),
                old(self).next_id as int,
                final(self).next_id as int,
            ),
        decreases old(self).tokens@.len() - old(self).cursor, 31int,
    {
        let value = match self.expression() {
            Ok(v) => v,
            Err(e) => {
                return Err(e);
            },
        };
        match self.consume_and_unexpected(TokenKind::Semicolon) {
            Ok(()) => {},
            Err(e) => {
                return Err(e);
            },
        }
        Ok(Stmt::Expression(value))
    }

    fn expression(&mut self) -> (r: Result<Expr, ParserError>)
        requires
            old(self).wf(),
        ensures
            final(self).keeps(old(self)),
            (expr_parsed(r), final(self).cursor as int, final(self).next_id as int) == grammar::expression(old(self).tv(), old(self).cursor as int, old(self).next_id as int),
            r matches Ok(e) ==> final(self).cursor > old(self).cursor && expr_wf(e) && ids_within(
                expr_ids(e),
                old(self).next_id as int,
                final(self).next_id as int,
            ),
        decreases old(self).tokens@.len() - old(self).cursor, 22int,
    {
        self.assignment()
    }

    fn assignment(&mut self) -> (r: Result<Expr, ParserError>)
        requires
            old(self).wf(),
        ensures
            final(self).keeps(old(self)),
            (expr_parsed(r), final(self).cursor as int, final(self).next_id as int) == grammar::assignment(old(self).tv(), old(self).cursor as int, old(self).next_id as int),
            r matches Ok(e) ==> final(self).cursor > old(self).cursor && expr_wf(e) && ids_within(
                expr_ids(e),
                old(self).next_id as int,
                final(self).next_id as int,
            ),
        decreases old(self).tokens@.len() - old(self).cursor, 21int,
    {
        let expr = match self.or() {
            Ok(e) => e,
            Err(e) => {
                return Err(e);
            },
        };
        if self.match_token(&TokenKind::Eq) {
            let value = match self.assignment() {
                Ok(v) => v,
                Err(e) => {
                    return Err(e);
                },
            };
            match expr {
                Expr::Variable { name, id } => {
                    return Ok(Expr::Assign { name, id, value: Box::new(value) });
                },
                _ => {
                    return Err(
                        ParserError::InvalidAssignmentTarget { pos: self.tokens[self.cursor].pos },
                    );
                },
            }
        }
        Ok(expr)
    }

    fn or(&mut self) -> (r: Result<Expr, ParserError>)
        requires
            old(self).wf(),
        ensures
            final(self).keeps(old(self)),
            (expr_parsed(r), final(self).cursor as int, final(self).next_id as int) == grammar::logic_or(old(self).tv(), old(self).cursor as int, old(self).next_id as int),
            r matches Ok(e) ==> final(self).cursor > old(self).cursor && expr_wf(e) && ids_within(
                expr_ids(e),
                old(self).next_id as int,
                final(self).next_id as int,
            ),
        decreases old(self).tokens@.len() - old(self).cursor, 20int,
    {
        let ghost ts = self.tv();
        let mut left = match self.and() {
            Ok(e) => e,
            Err(e) => {
                return Err(e);
            },
        };
        loop
            invariant
                self.keeps(old(self)),
                self.cursor > old(self).cursor,
                expr_wf(left),
                ids_within(expr_ids(left), old(self).next_id as int, self.next_id as int),
                ts == self.tv(),
                ts == old(self).tv(),
                grammar::operand_rest(
                    ts,
                    self.cursor as int,
                    self.next_id as int,
                    6,
                    expr_view(left),
                ) == grammar::operand(old(self).tv(), old(self).cursor as int, old(self).next_id as int, 6),
            ensures
                grammar::operand_rest(
                    ts,
                    self.cursor as int,
                    self.next_id as int,
                    6,
                    expr_view(left),
                ) == (Ok::<ExprView, SpecParserError>(expr_view(left)), self.cursor as int, self.next_id as int),
            decreases self.tokens@.len() - self.cursor,
        {
            let op = if self.match_token(&TokenKind::Or) {
                Op::Or
            } else {
                break ;
            };
            let ghost mid = self.next_id;
            let right = match self.and() {
                Ok(e) => e,
                Err(e) => {
                    return Err(e);
                },
            };
            proof {
                lemma_ids_join(
                    expr_ids(left),
                    expr_ids(right),
                    old(self).next_id as int,
                    mid as int,
                    self.next_id as int,
                );
            }
            left = Expr::Logical { left: Box::new(left), op, right: Box::new(right) };
        }
        Ok(left)
    }

    fn and(&mut self) -> (r: Result<Expr, ParserError>)
        requires
            old(self).wf(),
        ensures
            final(self).keeps(old(self)),
            (expr_parsed(r), final(self).cursor as int, final(self).next_id as int) == grammar::operand(old(self).tv(), old(self).cursor as int, old(self).next_id as int, 5),
            r matches Ok(e) ==> final(self).cursor > old(self).cursor && expr_wf(e) && ids_within(
                expr_ids(e),
                old(self).next_id as int,
                final(self).next_id as int,
            ),
        decreases old(self).tokens@.len() - old(self).cursor, 19int,
    {
        let ghost ts = self.tv();
        let mut left = match self.equality() {
            Ok(e) => e,
            Err(e) => {
                return Err(e);
            },
        };
        loop
            invariant
                self.keeps(old(self)),
                self.cursor > old(self).cursor,
                expr_wf(left),
                ids_within(expr_ids(left), old(self).next_id as int, self.next_id as int),
                ts == self.tv(),
                ts == old(self).tv(),
                grammar::operand_rest(
                    ts,
                    self.cursor as int,
                    self.next_id as int,
                    5,
                    expr_view(left),
                ) == grammar::operand(old(self).tv(), old(self).cursor as int, old(self).next_id as int, 5),
            ensures
                grammar::operand_rest(
                    ts,
                    self.cursor as int,
                    self.next_id as int,
                    5,
                    expr_view(left),
                ) == (Ok::<ExprView, SpecParserError>(expr_view(left)), self.cursor as int, self.next_id as int),
            decreases self.tokens@.len() - self.cursor,
        {
            let op = if self.match_token(&TokenKind::And) {
                Op::And
            } else {
                break ;
            };
            let ghost mid = self.next_id;
            let right = match self.equality() {
                Ok(e) => e,
                Err(e) => {
                    return Err(e);
                },
            };
            proof {
                lemma_ids_join(
                    expr_ids(left),
                    expr_ids(right),
                    old(self).next_id as int,
                    mid as int,
                    self.next_id as int,
                );
            }
            left = Expr::Logical { left: Box::new(left), op, right: Box::new(right) };
        }
        Ok(left)
    }

    fn equality(&mut self) -> (r: Result<Expr, ParserError>)
        requires
            old(self).wf(),
        ensures
            final(self).keeps(old(self)),
            (expr_parsed(r), final(self).cursor as int, final(self).next_id as int) == grammar::operand(old(self).tv(), old(self).cursor as int, old(self).next_id as int, 4),
            r matches Ok(e) ==> final(self).cursor > old(self).cursor && expr_wf(e) && ids_within(
                expr_ids(e),
                old(self).next_id as int,
                final(self).next_id as int,
            ),
        decreases old(self).tokens@.len() - old(self).cursor, 18int,
    {
        let ghost ts = self.tv();
        let mut left = match self.comparison() {
            Ok(e) => e,
            Err(e) => {
                return Err(e);
            },
        };
        loop
            invariant
                self.keeps(old(self)),
                self.cursor > old(self).cursor,
                expr_wf(left),
                ids_within(expr_ids(left), old(self).next_id as int, self.next_id as int),
                ts == self.tv(),
                ts == old(self).tv(),
                grammar::operand_rest(
                    ts,
                    self.cursor as int,
                    self.next_id as int,
                    4,
                    expr_view(left),
                ) == grammar::operand(old(self).tv(), old(self).cursor as int, old(self).next_id as int, 4),
            ensures
                grammar::operand_rest(
                    ts,
                    self.cursor as int,
                    self.next_id as int,
                    4,
                    expr_view(left),
                ) == (Ok::<ExprView, SpecParserError>(expr_view(left)), self.cursor as int, self.next_id as int),
            decreases self.tokens@.len() - self.cursor,
        {
            let op = if self.match_token(&TokenKind::BangEq) {
                Op::NotEqual
            } else if self.match_token(&TokenKind::EqEq) {
                Op::Equal
            } else {
                break ;
            };
            let ghost mid = self.next_id;
            let right = match self.comparison() {
                Ok(e) => e,
                Err(e) => {
                    return Err(e);
                },
            };
            proof {
                lemma_ids_join(
                    expr_ids(left),
                    expr_ids(right),
                    old(self).next_id as int,
                    mid as int,
                    self.next_id as int,
                );
            }
            left = Expr::Binary { left: Box::new(left), op, right: Box::new(right) };
        }
        Ok(left)
    }

    fn comparison(&mut self) -> (r: Result<Expr, ParserError>)
        requires
            old(self).wf(),
        ensures
            final(self).keeps(old(self)),
            (expr_parsed(r), final(self).cursor as int, final(self).next_id as int) == grammar::operand(old(self).tv(), old(self).cursor as int, old(self).next_id as int, 3),
            r matches Ok(e) ==> final(self).cursor > old(self).cursor && expr_wf(e) && ids_within(
                expr_ids(e),
                old(self).next_id as int,
                final(self).next_id as int,
            ),
        decreases old(self).tokens@.len() - old(self).cursor, 17int,
    {
        let ghost ts = self.tv();
        let mut left = match self.term() {
            Ok(e) => e,
            Err(e) => {
                return Err(e);
            },
        };
        loop
            invariant
                self.keeps(old(self)),
                self.cursor > old(self).cursor,
                expr_wf(left),
                ids_within(expr_ids(left), old(self).next_id as int, self.next_id as int),
                ts == self.tv(),
                ts == old(self).tv(),
                grammar::operand_rest(
                    ts,
                    self.cursor as int,
                    self.next_id as int,
                    3,
                    expr_view(left),
                ) == grammar::operand(old(self).tv(), old(self).cursor as int, old(self).next_id as int, 3),
            ensures
                grammar::operand_rest(
                    ts,
                    self.cursor as int,
                    self.next_id as int,
                    3,
                    expr_view(left),
                ) == (Ok::<ExprView, SpecParserError>(expr_view(left)), self.cursor as int, self.next_id as int),
            decreases self.tokens@.len() - self.cursor,
        {
            let op = if self.match_token(&TokenKind::Greater) {
                Op::GreaterThan
            } else if self.match_token(&TokenKind::GreaterEq) {
                Op::GreaterThanEqual
            } else if self.match_token(&TokenKind::Less) {
                Op::LessThan
            } else if self.match_token(&TokenKind::LessEq) {
                Op::LessThanEqual
            } else {
                break ;
            };
            let ghost mid = self.next_id;
            let right = match self.term() {
                Ok(e) => e,
                Err(e) => {
                    return Err(e);
                },
            };
            proof {
                lemma_ids_join(
                    expr_ids(left),
                    expr_ids(right),
                    old(self).next_id as int,
                    mid as int,
                    self.next_id as int,
                );
            }
            left = Expr::Binary { left: Box::new(left), op, right: Box::new(right) };
        }
        Ok(left)
    }

    fn term(&mut self) -> (r: Result<Expr, ParserError>)
        requires
            old(self).wf(),
        ensures
            final(self).keeps(old(self)),
            (expr_parsed(r), final(self).cursor as int, final(self).next_id as int) == grammar::operand(old(self).tv(), old(self).cursor as int, old(self).next_id as int, 2),
            r matches Ok(e) ==> final(self).cursor > old(self).cursor && expr_wf(e) && ids_within(
                expr_ids(e),
                old(self).next_id as int,
                final(self).next_id as int,
            ),
        decreases old(self).tokens@.len() - old(self).cursor, 16int,
    {
        let ghost ts = self.tv();
        let mut left = match self.factor() {
            Ok(e) => e,
            Err(e) => {
                return Err(e);
            },
        };
        loop
            invariant
                self.keeps(old(self)),
                self.cursor > old(self).cursor,
                expr_wf(left),
                ids_within(expr_ids(left), old(self).next_id as int, self.next_id as int),
                ts == self.tv(),
                ts == old(self).tv(),
                grammar::operand_rest(
                    ts,
                    self.cursor as int,
                    self.next_id as int,
                    2,
                    expr_view(left),
                ) == grammar::operand(old(self).tv(), old(self).cursor as int, old(self).next_id as int, 2),
            ensures
                grammar::operand_rest(
                    ts,
                    self.cursor as int,
                    self.next_id as int,
                    2,
                    expr_view(left),
                ) == (Ok::<ExprView, SpecParserError>(expr_view(left)), self.cursor as int, self.next_id as int),
            decreases self.tokens@.len() - self.cursor,
        {
            let op = if self.match_token(&TokenKind::Minus) {
                Op::Sub
            } else if self.match_token(&TokenKind::Plus) {
                Op::Add
            } else {
                break ;
            };
            let ghost mid = self.next_id;
            let right = match self.factor() {
                Ok(e) => e,
                Err(e) => {
                    return Err(e);
                },
            };
            proof {
                lemma_ids_join(
                    expr_ids(left),
                    expr_ids(right),
                    old(self).next_id as int,
                    mid as int,
                    self.next_id as int,
                );
            }
            left = Expr::Binary { left: Box::new(left), op, right: Box::new(right) };
        }
        Ok(left)
    }

    fn factor(&mut self) -> (r: Result<Expr, ParserError>)
        requires
            old(self).wf(),
        ensures
            final(self).keeps(old(self)),
            (expr_parsed(r), final(self).cursor as int, final(self).next_id as int) == grammar::operand(old(self).tv(), old(self).cursor as int, old(self).next_id as int, 1),
            r matches Ok(e) ==> final(self).cursor > old(self).cursor && expr_wf(e) && ids_within(
                expr_ids(e),
                old(self).next_id as int,
                final(self).next_id as int,
            ),
        decreases old(self).tokens@.len() - old(self).cursor, 15int,
    {
        let ghost ts = self.tv();
        let mut left = match self.unary() {
            Ok(e) => e,
            Err(e) => {
                return Err(e);
            },
        };
        loop
            invariant
                self.keeps(old(self)),
                self.cursor > old(self).cursor,
                expr_wf(left),
                ids_within(expr_ids(left), old(self).next_id as int, self.next_id as int),
                ts == self.tv(),
                ts == old(self).tv(),
                grammar::operand_rest(
                    ts,
                    self.cursor as int,
                    self.next_id as int,
                    1,
                    expr_view(left),
                ) == grammar::operand(old(self).tv(), old(self).cursor as int, old(self).next_id as int, 1),
            ensures
                grammar::operand_rest(
                    ts,
                    self.cursor as int,
                    self.next_id as int,
                    1,
                    expr_view(left),
                ) == (Ok::<ExprView, SpecParserError>(expr_view(left)), self.cursor as int, self.next_id as int),
            decreases self.tokens@.len() - self.cursor,
        {
            let op = if self.match_token(&TokenKind::Slash) {
                Op::Div
            } else if self.match_token(&TokenKind::Star) {
                Op::Mul
            } else {
                break ;
            };
            let ghost mid = self.next_id;
            let right = match self.unary() {
                Ok(e) => e,
                Err(e) => {
                    return Err(e);
                },
            };
            proof {
                lemma_ids_join(
                    expr_ids(left),
                    expr_ids(right),
                    old(self).next_id as int,
                    mid as int,
                    self.next_id as int,
                );
            }
            left = Expr::Binary { left: Box::new(left), op, right: Box::new(right) };
        }
        Ok(left)
    }

    fn unary(&mut self) -> (r: Result<Expr, ParserError>)
        requires
            old(self).wf(),
        ensures
            final(self).keeps(old(self)),
            (expr_parsed(r), final(self).cursor as int, final(self).next_id as int) == grammar::unary(old(self).tv(), old(self).cursor as int, old(self).next_id as int),
            r matches Ok(e) ==> final(self).cursor > old(self).cursor && expr_wf(e) && ids_within(
                expr_ids(e),
                old(self).next_id as int,
                final(self).next_id as int,
            ),
        decreases old(self).tokens@.len() - old(self).cursor, 12int,
    {
        if self.match_token(&TokenKind::Bang) {
            let right = match self.unary() {
                Ok(e) => e,
                Err(e) => {
                    return Err(e);
                },
            };
            return Ok(Expr::Unary { op: Op::Not, right: Box::new(right) });
        }
        if self.match_token(&TokenKind::Minus) {
            let right = match self.unary() {
                Ok(e) => e,
                Err(e) => {
                    return Err(e);
                },
            };
            return Ok(Expr::Unary { op: Op::Sub, right: Box::new(right) });
        }
        self.call()
    }

    fn call(&mut self) -> (r: Result<Expr, ParserError>)
        requires
            old(self).wf(),
        ensures
            final(self).keeps(old(self)),
            (expr_parsed(r), final(self).cursor as int, final(self).next_id as int) == grammar::call(old(self).tv(), old(self).cursor as int, old(self).next_id as int),
            r matches Ok(e) ==> final(self).cursor > old(self).cursor && expr_wf(e) && ids_within(
                expr_ids(e),
                old(self).next_id as int,
                final(self).next_id as int,
            ),
        decreases old(self).tokens@.len() - old(self).cursor, 11int,
    {
        let ghost ts = self.tv();
        let mut expr = match self.primary() {
            Ok(e) => e,
            Err(e) => {
                return Err(e);
            },
        };
        loop
            invariant
                self.keeps(old(self)),
                self.cursor > old(self).cursor,
                expr_wf(expr),
                ids_within(expr_ids(expr), old(self).next_id as int, self.next_id as int),
                ts == self.tv(),
                ts == old(self).tv(),
                grammar::call_rest(ts, self.cursor as int, self.next_id as int, expr_view(expr))
                    == grammar::call(ts, old(self).cursor as int, old(self).next_id as int),
            ensures
                grammar::call_rest(ts, self.cursor as int, self.next_id as int, expr_view(expr)) == (
                    Ok::<ExprView, SpecParserError>(expr_view(expr)),
                    self.cursor as int,
                    self.next_id as int,
                ),
            decreases self.tokens@.len() - self.cursor,
        {
            if !self.match_token(&TokenKind::LeftParen) {
                break ;
            }
            expr = match self.finish_call(expr, Ghost(old(self).next_id as int)) {
                Ok(e) => e,
                Err(e) => {
                    return Err(e);
                },
            };
        }
        Ok(expr)
    }

    /// The arguments of a call, up to the closing parenthesis, which it
    /// leaves to read.
    fn argument_list(&mut self) -> (r: Result<Vec<Expr>, ParserError>)
        requires
            old(self).wf(),
        ensures
            final(self).keeps(old(self)),
            ({
                let (g, p, n) = grammar::argument_list(
                    old(self).tv(),
                    old(self).cursor as int,
                    old(self).next_id as int,
                    Seq::empty(),
                );
                &&& p == final(self).cursor
                &&& n == final(self).next_id
                &&& match r {
                    Ok(args) => g == Ok::<Seq<ExprView>, SpecParserError>(exprs_view(args@))
                        && final(self).cursor > old(self).cursor && args@.len() <= MAX_ARGS
                        && (forall|i: int| 0 <= i < args@.len() ==> expr_wf(#[trigger] args@[i]))
                        && ids_within(
                        exprs_ids(args@),
                        old(self).next_id as int,
                        final(self).next_id as int,
                    ),
                    Err(e) => g == Err::<Seq<ExprView>, SpecParserError>(e@),
                }
            }),
        decreases old(self).tokens@.len() - old(self).cursor, 23int,
    {
        let ghost ts = self.tv();
        let mut arguments: Vec<Expr> = Vec::new();
        proof {
            assert(exprs_view(arguments@) =~= Seq::<ExprView>::empty());
        }
        loop
            invariant
                self.keeps(old(self)),
                ts == self.tv(),
                ts == old(self).tv(),
                arguments@.len() <= MAX_ARGS,
                arguments@.len() > 0 ==> self.cursor > old(self).cursor,
                forall|i: int| 0 <= i < arguments@.len() ==> expr_wf(#[trigger] arguments@[i]),
                ids_within(exprs_ids(arguments@), old(self).next_id as int, self.next_id as int),
                grammar::argument_list(
                    ts,
                    self.cursor as int,
                    self.next_id as int,
                    exprs_view(arguments@),
                ) == grammar::argument_list(
                    ts,
                    old(self).cursor as int,
                    old(self).next_id as int,
                    Seq::empty(),
                ),
            decreases self.tokens@.len() - self.cursor,
        {
            proof {
                lemma_exprs_view_len(arguments@);
            }
            if arguments.len() >= MAX_ARGS {
                return Err(ParserError::TooManyArguments { pos: self.tokens[self.cursor].pos });
            }
            let ghost mid = self.next_id;
            let arg = match self.expression() {
                Ok(a) => a,
                Err(e) => {
                    return Err(e);
                },
            };
            proof {
                lemma_exprs_ids_push(arguments@, arg);
                lemma_exprs_view_push(arguments@, arg);
                lemma_ids_join(
                    exprs_ids(arguments@),
                    expr_ids(arg),
                    old(self).next_id as int,
                    mid as int,
                    self.next_id as int,
                );
            }
            arguments.push(arg);
            if !self.match_token(&TokenKind::Comma) {
                return Ok(arguments);
            }
        }
    }

    /// The arguments of a call of `callee`, whose ids lie in
    /// `lo..self.next_id`, up to the closing parenthesis.
    fn finish_call(&mut self, callee: Expr, Ghost(lo): Ghost<int>) -> (r: Result<Expr, ParserError>)
        requires
            old(self).wf(),
            expr_wf(callee),
            lo <= old(self).next_id,
            ids_within(expr_ids(callee), lo, old(self).next_id as int),
        ensures
            final(self).keeps(old(self)),
            (expr_parsed(r), final(self).cursor as int, final(self).next_id as int)
                == grammar::arguments(
                old(self).tv(),
                old(self).cursor as int,
                old(self).next_id as int,
                expr_view(callee),
            ),
            r matches Ok(e) ==> final(self).cursor > old(self).cursor && expr_wf(e) && ids_within(
                expr_ids(e),
                lo,
                final(self).next_id as int,
            ),
        decreases old(self).tokens@.len() - old(self).cursor, 24int,
    {
        let arguments = if !self.check(&TokenKind::RightParen) {
            match self.argument_list() {
                Ok(a) => a,
                Err(e) => {
                    return Err(e);
                },
            }
        } else {
            let none: Vec<Expr> = Vec::new();
            proof {
                assert(exprs_view(none@) =~= Seq::<ExprView>::empty());
            }
            none
        };
        let paren = self.tokens[self.cursor].duplicate();
        match self.consume_and_unexpected(TokenKind::RightParen) {
            Ok(()) => {},
            Err(e) => {
                return Err(e);
            },
        }
        proof {
            lemma_ids_join(
                expr_ids(callee),
                exprs_ids(arguments@),
                lo,
                old(self).next_id as int,
                self.next_id as int,
            );
        }
        Ok(Expr::Call { callee: Box::new(callee), paren, arguments })
    }

    fn primary(&mut self) -> (r: Result<Expr, ParserError>)
        requires
            old(self).wf(),
        ensures
            final(self).keeps(old(self)),
            (expr_parsed(r), final(self).cursor as int, final(self).next_id as int) == grammar::primary(old(self).tv(), old(self).cursor as int, old(self).next_id as int),
            r matches Ok(e) ==> final(self).cursor > old(self).cursor && expr_wf(e) && ids_within(
                expr_ids(e),
                old(self).next_id as int,
                final(self).next_id as int,
            ),
        decreases old(self).tokens@.len() - old(self).cursor, 10int,
    {
        if self.match_token(&TokenKind::False) {
            return Ok(Expr::Literal(Lit::Bool(false)));
        }
        if self.match_token(&TokenKind::True) {
            return Ok(Expr::Literal(Lit::Bool(true)));
        }
        if self.match_token(&TokenKind::Nil) {
            return Ok(Expr::Literal(Lit::Nil));
        }
        let lit = match &self.tokens[self.cursor].ty {
            TokenKind::Number(data) => Some(Lit::Number(data.clone())),
            TokenKind::StringLit(data) => Some(Lit::String(data.clone())),
            _ => None,
        };
        if let Some(lit) = lit {
            self.advance();
            return Ok(Expr::Literal(lit));
        }
        let name = match &self.tokens[self.cursor].ty {
            TokenKind::Identifier(name) => Some(name.clone()),
            _ => None,
        };
        if let Some(name) = name {
            self.advance();
            let id = self.next_id;
            self.next_id = self.next_id + 1;
            return Ok(Expr::Variable { name, id });
        }
        if self.match_token(&TokenKind::LeftParen) {
            let expr = match self.expression() {
                Ok(e) => e,
                Err(e) => {
                    return Err(e);
                },
            };
            match self.consume_and_unexpected(TokenKind::RightParen) {
                Ok(()) => {},
                Err(e) => {
                    return Err(e);
                },
            }
            return Ok(Expr::Grouping(Box::new(expr)));
        }
        Err(ParserError::UnknwonError { last_token: self.tokens[self.cursor].duplicate() })
    }

    /// checks if the current token is of type [TokenKind::Eof]
    fn is_eof(&self) -> (r: bool)
        requires
            self.wf(),
        ensures
            r == (self.current().ty is Eof),
            r == (self.tv()[self.cursor as int].ty is Eof),
    {
        proof {
            lemma_kind_code_view(self.tokens@[self.cursor as int].ty);
        }
        self.tokens[self.cursor].ty.code() == 38
    }

    /// Moves to the next token, unless the current one ends the input.
    fn advance(&mut self)
        requires
            old(self).wf(),
        ensures
            final(self).wf(),
            final(self).tokens == old(self).tokens,
            final(self).next_id == old(self).next_id,
            final(self).cursor == if old(self).current().ty is Eof {
                old(self).cursor
            } else {
                (old(self).cursor + 1) as usize
            },
            final(self).cursor == grammar::next_pos(old(self).tv(), old(self).cursor as int),
    {
        if !self.is_eof() {
            assert(self.cursor != self.tokens@.len() - 1);
            self.cursor = self.cursor + 1;
        }
    }

    /// Whether the current token is of the kind of `ty`.
    fn check(&self, ty: &TokenType) -> (r: bool)
        requires
            self.wf(),
        ensures
            r == same_kind(self.current().ty, *ty),
            r == grammar::is_kind(self.tv(), self.cursor as int, ty@),
    {
        proof {
            lemma_kind_code_view(self.tokens@[self.cursor as int].ty);
            lemma_kind_code_view(*ty);
        }
        self.tokens[self.cursor].ty.code() == ty.code()
    }

    /// Reads the current token where it is of the kind of `ty`.
    fn match_token(&mut self, ty: &TokenType) -> (r: bool)
        requires
            old(self).wf(),
            !(ty is Eof),
        ensures
            r == same_kind(old(self).current().ty, *ty),
            r == grammar::is_kind(old(self).tv(), old(self).cursor as int, ty@),
            r ==> final(self).wf() && final(self).tokens == old(self).tokens && final(self).next_id
                == old(self).next_id && final(self).cursor == old(self).cursor + 1,
            !r ==> *final(self) == *old(self),
    {
        if self.check(ty) {
            self.advance();
            true
        } else {
            false
        }
    }

    /// Reads the current token where it is of the kind of `expected`, else
    /// fails with an error naming both kinds.
    fn consume_and_unexpected(&mut self, expected: TokenType) -> (r: Result<(), ParserError>)
        requires
            old(self).wf(),
            !(expected is Eof),
        ensures
            r is Ok ==> final(self).wf() && final(self).tokens == old(self).tokens
                && final(self).next_id == old(self).next_id && final(self).cursor == old(self).cursor
                + 1,
            r is Err ==> *final(self) == *old(self),
            match r {
                Ok(()) => grammar::expect(old(self).tv(), old(self).cursor as int, expected@) == Ok::<
                    int,
                    SpecParserError,
                >(final(self).cursor as int),
                Err(e) => grammar::expect(old(self).tv(), old(self).cursor as int, expected@)
                    == Err::<int, SpecParserError>(e@),
            },
    {
        if self.check(&expected) {
            self.advance();
            return Ok(());
        }
        Err(
            ParserError::UnexpectedToken {
                expected,
                got: self.tokens[self.cursor].ty.duplicate(),
                pos: self.tokens[self.cursor].pos,
            },
        )
    }

    /// Skips tokens up to what looks like the start of the next statement:
    /// just past a semicolon, or at a keyword that starts a declaration or
    /// statement, or at the end of the input.
    fn synchronize(&mut self)
        requires
            old(self).wf(),
        ensures
            final(self).keeps(old(self)),
            final(self).next_id == old(self).next_id,
            !(old(self).current().ty is Eof) ==> final(self).cursor > old(self).cursor,
            final(self).cursor == grammar::resume(old(self).tv(), old(self).cursor as int),
    {
        let ghost ts = self.tv();
        self.advance();
        loop
            invariant
                self.keeps(old(self)),
                self.next_id == old(self).next_id,
                ts == self.tv(),
                !(old(self).current().ty is Eof) ==> self.cursor > old(self).cursor,
                self.cursor == old(self).cursor || self.cursor >= 1,
                grammar::resume_from(ts, self.cursor as int) == grammar::resume(
                    ts,
                    old(self).cursor as int,
                ),
            decreases self.tokens@.len() - self.cursor,
        {
            if self.is_eof() {
                return ;
            }
            proof {
                lemma_kind_code_view(self.tokens@[self.cursor - 1].ty);
                lemma_kind_code_view(self.tokens@[self.cursor as int].ty);
            }
            if self.tokens[self.cursor - 1].ty.code() == 0 {
                return ;
            }
            let c = self.tokens[self.cursor].ty.code();
            if c == 35 || c == 33 || c == 22 || c == 25 || c == 27 || c == 32 || c == 26 || c == 34 {
                return ;
            }
            self.advance();
        }
    }
}

} // verus!
