use lox_rs::errors::ParserError;
use lox_rs::interpreter::Numerals;
use lox_rs::nodes::{Expr, Lit, Stmt};
use lox_rs::parser::Parser;
use lox_rs::scanner::Scanner;
use lox_rs::token::{Token, TokenType};

/// Numbers read and printed as Rust reads and prints `f64`.
struct F64Text;

impl Numerals for F64Text {
    fn literal_value(text: &String) -> u64 {
        text.parse::<f64>().unwrap().to_bits()
    }
    fn number_text_value(n: u64) -> String {
        format!("{}", f64::from_bits(n))
    }
    fn number_literal(&self, text: &String) -> u64 {
        Self::literal_value(text)
    }
    fn number_text(&self, n: u64) -> String {
        Self::number_text_value(n)
    }
}

fn tokens(case: &str) -> Vec<Token> {
    let mut scanner = Scanner::new(case.as_bytes());
    scanner.parse().unwrap();
    scanner.tokens
}

#[test]
fn ast_expressions() {
    let cases = vec![
        ("5 + 3 * 2;", "(5 + (3 * 2))"),
        ("10 / 2 - 1;", "((10 / 2) - 1)"),
        ("(5 + 3) * 2;", "((group (5 + 3)) * 2)"),
        ("!true;", "(! true)"),
        ("-5 + 3;", "((- 5) + 3)"),
        ("1 == 1;", "(1 == 1)"),
        ("5 != 3;", "(5 != 3)"),
        ("5 > 3;", "(5 > 3)"),
        ("\"hello\" == \"hello\";", "(hello == hello)"),
        ("true == false;", "(true == false)"),
        ("nil;", "nil"),
    ];
    for (case, exp) in cases {
        let toks = tokens(case);
        let mut parser = Parser::new(&toks);
        let res = parser.parse().unwrap();
        if let Stmt::Expression(expr) = &res[0] {
            assert_eq!(expr.to_text(&F64Text), exp.to_string());
        }
    }
}

#[test]
fn render_calls_assignments_and_logic() {
    let cases = vec![
        ("f(1, x, \"s\");", "<f>(1, <x>, s)"),
        ("g();", "<g>()"),
        ("a = b = 3;", "<a> = <b> = 3"),
        ("x and y or z;", "((<x> and <y>) or <z>)"),
    ];
    for (case, exp) in cases {
        let toks = tokens(case);
        let mut parser = Parser::new(&toks);
        let res = parser.parse().unwrap();
        if let Stmt::Expression(expr) = &res[0] {
            assert_eq!(expr.to_text(&F64Text), exp);
        } else {
            panic!("not an expression statement: {case}");
        }
    }
}

#[test]
fn for_loop_becomes_while_in_block() {
    let toks = tokens("for (var i = 0; i < 3; i = i + 1) print i;");
    let mut parser = Parser::new(&toks);
    let res = parser.parse().unwrap();
    assert_eq!(res.len(), 1);
    match &res[0] {
        Stmt::Block(stmts) => {
            assert_eq!(stmts.len(), 2);
            assert!(matches!(&stmts[0], Stmt::Var { .. }));
            match &stmts[1] {
                Stmt::While { condition, body } => {
                    assert_eq!(condition.to_text(&F64Text), "(<i> < 0)".replace("0", "3"));
                    match &**body {
                        Stmt::Block(inner) => {
                            assert_eq!(inner.len(), 2);
                            assert!(matches!(&inner[0], Stmt::Print(_)));
                            assert!(matches!(&inner[1], Stmt::Expression(_)));
                        }
                        _ => panic!("body should be a block"),
                    }
                }
                _ => panic!("expected a while loop"),
            }
        }
        _ => panic!("expected a block"),
    }
}

#[test]
fn for_loop_without_clauses_loops_on_true() {
    let toks = tokens("for (;;) print 1;");
    let mut parser = Parser::new(&toks);
    let res = parser.parse().unwrap();
    match &res[0] {
        Stmt::While { condition, .. } => {
            assert!(matches!(condition, Expr::Literal(Lit::Bool(true))));
        }
        _ => panic!("expected a while loop"),
    }
}

#[test]
fn numbers_render_as_doubles_print() {
    let toks = tokens("5.0 + 2.50;");
    let res = Parser::new(&toks).parse().unwrap();
    match &res[0] {
        Stmt::Expression(expr) => assert_eq!(expr.to_text(&F64Text), "(5 + 2.5)"),
        _ => panic!("expected an expression statement"),
    }
}

#[test]
fn parse_errors_each_variant() {
    let toks = tokens("var = 1;");
    let errs = Parser::new(&toks).parse().unwrap_err();
    assert!(matches!(&errs[0], ParserError::UnexpectedToken { expected: TokenType::Identifier(_), got: TokenType::Eq, pos: (0, 4) }));
    assert_eq!(errs[0].message(&F64Text), "0:4 unexpected token. Expected: Identifier() got: Eq");
    let toks = tokens("var 5.0 = 1;");
    let errs = Parser::new(&toks).parse().unwrap_err();
    assert_eq!(errs[0].message(&F64Text), "0:4 unexpected token. Expected: Identifier() got: Number(5)");

    let toks = tokens("1 + 2 = 3;");
    let errs = Parser::new(&toks).parse().unwrap_err();
    assert!(matches!(&errs[0], ParserError::InvalidAssignmentTarget { .. }));

    let toks = tokens("+;");
    let errs = Parser::new(&toks).parse().unwrap_err();
    assert!(matches!(&errs[0], ParserError::UnknwonError { .. }));
    assert_eq!(errs[0].message(&F64Text), "0:0 unknown error. Last token: Plus");

    let args: Vec<String> = (0..256).map(|i| i.to_string()).collect();
    let src = format!("f({});", args.join(", "));
    let toks = tokens(&src);
    let errs = Parser::new(&toks).parse().unwrap_err();
    assert!(matches!(&errs[0], ParserError::TooManyArguments { .. }));

    let params: Vec<String> = (0..256).map(|i| format!("p{i}")).collect();
    let src = format!("fun f({}) {{}}", params.join(", "));
    let toks = tokens(&src);
    let errs = Parser::new(&toks).parse().unwrap_err();
    assert!(matches!(&errs[0], ParserError::TooManyArguments { .. }));
}

#[test]
fn parse_recovers_after_errors() {
    // two bad statements, each reported; the good one in between is skipped
    // only in the error result
    let toks = tokens("var 1; print 2; var = 3;");
    let errs = Parser::new(&toks).parse().unwrap_err();
    assert_eq!(errs.len(), 2);
}

#[test]
fn parse_255_arguments_is_fine() {
    let args: Vec<String> = (0..255).map(|i| i.to_string()).collect();
    let src = format!("f({});", args.join(", "));
    let toks = tokens(&src);
    let res = Parser::new(&toks).parse().unwrap();
    match &res[0] {
        Stmt::Expression(Expr::Call { arguments, .. }) => assert_eq!(arguments.len(), 255),
        _ => panic!("expected a call"),
    }
}

#[test]
fn variable_ids_are_distinct() {
    let toks = tokens("a = b + c; print a;");
    let res = Parser::new(&toks).parse().unwrap();
    let mut ids = Vec::new();
    fn collect(e: &Expr, ids: &mut Vec<usize>) {
        match e {
            Expr::Variable { id, .. } => ids.push(*id),
            Expr::Assign { id, value, .. } => {
                ids.push(*id);
                collect(value, ids);
            }
            Expr::Binary { left, right, .. } | Expr::Logical { left, right, .. } => {
                collect(left, ids);
                collect(right, ids);
            }
            Expr::Unary { right, .. } | Expr::Grouping(right) => collect(right, ids),
            Expr::Call { callee, arguments, .. } => {
                collect(callee, ids);
                for a in arguments {
                    collect(a, ids);
                }
            }
            Expr::Literal(_) => {}
        }
    }
    for s in &res {
        match s {
            Stmt::Expression(e) | Stmt::Print(e) => collect(e, &mut ids),
            _ => {}
        }
    }
    let mut sorted = ids.clone();
    sorted.sort();
    sorted.dedup();
    assert_eq!(sorted.len(), ids.len());
    assert_eq!(ids.len(), 4);
}

fn collect_ids(e: &Expr, out: &mut Vec<usize>) {
    match e {
        Expr::Variable { id, .. } => out.push(*id),
        Expr::Assign { id, value, .. } => {
            out.push(*id);
            collect_ids(value, out);
        }
        Expr::Logical { left, right, .. } | Expr::Binary { left, right, .. } => {
            collect_ids(left, out);
            collect_ids(right, out);
        }
        Expr::Unary { right, .. } => collect_ids(right, out),
        Expr::Grouping(inner) => collect_ids(inner, out),
        Expr::Call { callee, arguments, .. } => {
            collect_ids(callee, out);
            for a in arguments {
                collect_ids(a, out);
            }
        }
        Expr::Literal(_) => {}
    }
}

#[test]
fn every_variable_reference_gets_its_own_id() {
    let toks = tokens("a = b + a(c, b); print a; for (i = 0; i < n; i = i + 1) print i;");
    let mut parser = Parser::new(&toks);
    let stmts = parser.parse().unwrap();
    let mut ids = Vec::new();
    for s in &stmts {
        match s {
            Stmt::Expression(e) | Stmt::Print(e) => collect_ids(e, &mut ids),
            _ => {}
        }
    }
    // the first two statements hold six references: a, b, a, c, b and a
    assert_eq!(ids, vec![0, 1, 2, 3, 4, 5]);
}
