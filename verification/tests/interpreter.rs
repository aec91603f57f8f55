use lox_rs::errors::{ResolveError, RuntimeError};
use lox_rs::semantics::HostLog;
use lox_rs::interpreter::{Host, Numerals, Interpreter, MathFn};
use lox_rs::nodes::{Op, Stmt};
use lox_rs::parser::Parser;
use lox_rs::resolver::Resolver;
use lox_rs::scanner::Scanner;
use lox_rs::token::Token;
use lox_rs::values::Value;

/// A host that computes with `f64` and collects the output.
#[derive(Default)]
struct TestHost {
    out: Vec<u8>,
}

impl Numerals for TestHost {
    fn literal_value(text: &String) -> u64 {
        text.parse::<f64>().unwrap().to_bits()
    }
    fn number_text_value(n: u64) -> String {
        format!("{}", f64::from_bits(n))
    }
    fn number_literal(&self, text: &String) -> u64 {
        Self::literal_value(text)
    }
    fn number_text(&self, n: u64) -> String {
        Self::number_text_value(n)
    }
}

impl Host for TestHost {
    fn effects(&self) -> HostLog {
        unreachable!("a spec function: only the verifier reads it")
    }
    fn arithmetic_value(op: Op, lhs: u64, rhs: u64) -> u64 {
        let (a, b) = (f64::from_bits(lhs), f64::from_bits(rhs));
        let r = match op {
            Op::Add => a + b,
            Op::Sub => a - b,
            Op::Mul => a * b,
            _ => a / b,
        };
        r.to_bits()
    }
    fn arithmetic(&self, op: Op, lhs: u64, rhs: u64) -> u64 {
        Self::arithmetic_value(op, lhs, rhs)
    }
    fn count(&self, n: usize) -> u64 {
        Self::count_value(n)
    }
    fn parse_number(&self, text: &String) -> Option<u64> {
        Self::parse_value(text)
    }
    fn math(&self, f: MathFn, x: u64, y: u64) -> u64 {
        Self::math_value(f, x, y)
    }
    fn print_line(&mut self, text: &String) {
        self.out.extend_from_slice(text.as_bytes());
        self.out.push(b'\n');
    }
    fn count_value(n: usize) -> u64 {
        (n as f64).to_bits()
    }
    fn math_value(f: MathFn, x: u64, y: u64) -> u64 {
        let (x, y) = (f64::from_bits(x), f64::from_bits(y));
        let r = match f {
            MathFn::Sqrt => x.sqrt(),
            MathFn::Floor => x.floor(),
            MathFn::Ceil => x.ceil(),
            MathFn::Abs => x.abs(),
            MathFn::Pow => x.powf(y),
        };
        r.to_bits()
    }
    fn clock(&mut self) -> u64 {
        std::time::SystemTime::now()
            .duration_since(std::time::UNIX_EPOCH)
            .unwrap()
            .as_secs_f64()
            .to_bits()
    }
    fn parse_value(text: &String) -> Option<u64> {
        text.parse::<f64>().ok().map(|v| v.to_bits())
    }
    fn read_file(&mut self, path: &String) -> Result<String, String> {
        Err(format!("could not read file {path}"))
    }
    fn write_file(&mut self, path: &String, _content: &String) -> Result<(), String> {
        Err(format!("could not write file {path}"))
    }
    fn append_file(&mut self, _path: &String, _content: &String) -> bool {
        false
    }
}

fn tokens(case: &str) -> Vec<Token> {
    let mut scanner = Scanner::new(case.as_bytes());
    scanner.parse().unwrap();
    scanner.tokens
}

fn parse(tokens: &[Token]) -> Vec<Stmt> {
    let mut parser = Parser::new(tokens);
    parser.parse().unwrap()
}

fn num(v: f64) -> Value {
    Value::Number(v.to_bits())
}

/// The value of the expression statement `case`.
fn do_eval(case: &str) -> Result<Value, RuntimeError> {
    let toks = tokens(case);
    let res = parse(&toks);
    if let Stmt::Expression(expr) = &res[0] {
        let mut interpreter = Interpreter::new(TestHost::default());
        return interpreter.eval(expr);
    }
    unreachable!()
}

/// Runs `case` without the resolver; returns the outcome and the output.
fn run(case: &str) -> (Result<(), RuntimeError>, String) {
    let toks = tokens(case);
    let stmts = parse(&toks);
    let mut interpreter = Interpreter::new(TestHost::default());
    let r = interpreter.interpret(&stmts);
    (r, String::from_utf8(interpreter.host().out.clone()).unwrap())
}

/// Runs `case` after resolving it; returns the outcome and the output.
fn run_resolved(case: &str) -> (Result<(), RuntimeError>, String) {
    let toks = tokens(case);
    let stmts = parse(&toks);
    let mut resolver = Resolver::new();
    for stmt in &stmts {
        resolver.resolve_stmt(stmt).unwrap();
    }
    let mut interpreter = Interpreter::new(TestHost::default());
    interpreter.resolve(resolver.locals);
    let r = interpreter.interpret(&stmts);
    (r, String::from_utf8(interpreter.host().out.clone()).unwrap())
}

fn check_outputs(cases: &[(&str, &str)]) {
    for (case, exp) in cases {
        let (r, out) = run(case);
        assert!(r.is_ok(), "case: {case}");
        assert_eq!(out, *exp, "case: {case}");
    }
}

fn lox_eq(a: &Value, b: &Value) -> bool {
    a.lox_eq(b)
}

#[test]
fn eval_arithmetic_expressions() {
    let cases = [
        ("1 + 2;", Ok(num(3.0))),
        ("10 - 3;", Ok(num(7.0))),
        ("3 * 4;", Ok(num(12.0))),
        ("10 / 2;", Ok(num(5.0))),
        ("5 + 3 * 2;", Ok(num(11.0))),
        ("(5 + 3) * 2;", Ok(num(16.0))),
        ("10 / 0;", Err(RuntimeError::DivisionByZero)),
    ];
    for (case, exp) in cases {
        let result = do_eval(case);
        match exp {
            Ok(lit) => assert!(lox_eq(&lit, &result.unwrap())),
            Err(err) => assert!(err == result.unwrap_err()),
        }
    }
}

#[test]
fn eval_unary_expressions() {
    let cases = [
        ("-5;", num(-5.0)),
        ("--5;", num(5.0)),
        ("!true;", Value::Bool(false)),
        ("!false;", Value::Bool(true)),
        ("!nil;", Value::Bool(true)),
    ];
    for (case, exp) in cases {
        let result = do_eval(case);
        assert!(lox_eq(&exp, &result.unwrap()));
    }
}

#[test]
fn eval_comparison_expressions() {
    let cases = [
        ("5 > 3;", Value::Bool(true)),
        ("3 > 5;", Value::Bool(false)),
        ("5 >= 5;", Value::Bool(true)),
        ("3 < 5;", Value::Bool(true)),
        ("5 <= 4;", Value::Bool(false)),
    ];
    for (case, exp) in cases {
        let result = do_eval(case);
        assert!(lox_eq(&exp, &result.unwrap()));
    }
}

#[test]
fn eval_equality_expressions() {
    let cases = [
        ("1 == 1;", Value::Bool(true)),
        ("1 == 2;", Value::Bool(false)),
        ("1 != 2;", Value::Bool(true)),
        ("nil == nil;", Value::Bool(true)),
        ("true == true;", Value::Bool(true)),
        ("true == false;", Value::Bool(false)),
    ];
    for (case, exp) in cases {
        let result = do_eval(case);
        assert!(lox_eq(&exp, &result.unwrap()));
    }
}

#[test]
fn eval_string_expressions() {
    let cases = [
        ("\"hello\" + \" world\";", Value::String("hello world".to_string())),
        ("\"a\" == \"a\";", Value::Bool(true)),
        ("\"a\" == \"b\";", Value::Bool(false)),
    ];
    for (case, exp) in cases {
        let result = do_eval(case);
        assert!(lox_eq(&exp, &result.unwrap()));
    }
}

#[test]
fn eval_type_errors_expressions() {
    let cases = ["\"hello\" - 1;", "true + 1;", "-true;", "\"a\" > \"b\";"];
    for case in cases {
        let result = do_eval(case);
        assert!(matches!(result, Err(RuntimeError::TypeError { .. })));
    }
}

#[test]
fn simple_stmts() {
    check_outputs(&[
        ("print 5 + 3 * 2;", "11\n"),
        ("print \"hello world\";", "hello world\n"),
        ("1 + 2;", ""),
    ]);
}

#[test]
fn variables() {
    check_outputs(&[
        ("var x = 5; print x;", "5\n"),
        ("var x; print x;", "nil\n"),
        ("var x = 5 + 3; print x;", "8\n"),
    ]);
    if let (Err(RuntimeError::UndefinedVariable { var_name }), _) = run("print x;") {
        assert!(var_name.as_str() == "x");
    } else {
        unreachable!("unreachable at variables")
    }
}

#[test]
fn assignments() {
    check_outputs(&[
        ("var x = 5; x = 10; print x;", "10\n"),
        ("var x = 5; print x = 10;", "10\n"),
        ("var a = 1; var b = 2; a = b = 3; print a; print b;", "3\n3\n"),
        ("var x = 0; x = 5 + 3; print x;", "8\n"),
        ("var x; x = 2; print x; x = 3; print x;", "2\n3\n"),
        ("var x = 5; var y = 0; y = x; print y;", "5\n"),
        ("var x = 5; print x; x = \"hello\"; print x;", "5\nhello\n"),
    ]);
    if let (Err(RuntimeError::UndefinedVariable { var_name }), _) = run("x = 5;") {
        assert!(var_name.as_str() == "x");
    } else {
        unreachable!("unreachable at variables")
    }
}

#[test]
fn scope() {
    check_outputs(&[
        ("var x = 1; { var x = 2; print x; } print x;", "2\n1\n"),
        ("var x = 1; { print x; }", "1\n"),
        ("var x = 1; { x = 2; } print x;", "2\n"),
        ("var x = 1; { var x = 2; { var x = 3; print x; } print x; } print x;", "3\n2\n1\n"),
        ("var x = 1; { var x = 2; { x = 3; } print x; } print x;", "3\n1\n"),
        ("var x = 1; var y = 2; { var y = 3; print x; print y; } print y;", "1\n3\n2\n"),
        ("var x = 1; { var y = x + 1; print y; }", "2\n"),
    ]);
    if let (Err(RuntimeError::UndefinedVariable { var_name }), _) = run("{ var x = 1; } print x;") {
        assert!(var_name.as_str() == "x");
    } else {
        unreachable!("unreachable at variables")
    }
}

#[test]
fn if_statements() {
    check_outputs(&[
        ("if (true) print 1;", "1\n"),
        ("if (false) print 1;", ""),
        ("if (true) print 1; else print 2;", "1\n"),
        ("if (false) print 1; else print 2;", "2\n"),
        ("var x = 5; if (x > 3) print x;", "5\n"),
        ("if (1 == 1) { print 1; print 2; }", "1\n2\n"),
        ("if (false) print 1; else { print 2; print 3; }", "2\n3\n"),
        ("if (true) if (false) print 1; else print 2;", "2\n"),
    ]);
}

#[test]
fn logical_and_or() {
    check_outputs(&[
        ("print true and true;", "true\n"),
        ("print true and false;", "false\n"),
        ("print false and true;", "false\n"),
        ("print false and false;", "false\n"),
        ("print true or false;", "true\n"),
        ("print false or true;", "true\n"),
        ("print false or false;", "false\n"),
        ("print true or true;", "true\n"),
        ("print false and (1/0);", "false\n"),
        ("print true or (1/0);", "true\n"),
        ("var x = true; var y = false; print x and y;", "false\n"),
        ("var x = true; var y = false; print x or y;", "true\n"),
        ("print nil and true;", "nil\n"),
        ("print nil or true;", "true\n"),
        ("print 0 or false;", "0\n"),
        ("print 0 and true;", "true\n"),
        ("print true and true and false;", "false\n"),
        ("print false or false or true;", "true\n"),
    ]);
}

#[test]
fn while_loops() {
    check_outputs(&[
        ("var x = 0; while (x < 3) { x = x + 1; } print x;", "3\n"),
        ("var x = 0; while (false) { x = x + 1; } print x;", "0\n"),
        ("var x = 3; while (x > 0) { print x; x = x - 1; }", "3\n2\n1\n"),
        (
            "var sum = 0; var i = 1; while (i <= 3) { sum = sum + i; i = i + 1; } print sum;",
            "6\n",
        ),
    ]);
}

#[test]
fn for_loops() {
    check_outputs(&[
        ("for (var i = 0; i < 3; i = i + 1) print i;", "0\n1\n2\n"),
        (
            "var sum = 0; for (var i = 1; i <= 3; i = i + 1) { sum = sum + i; } print sum;",
            "6\n",
        ),
        ("var i = 0; for (; i < 3; i = i + 1) print i;", "0\n1\n2\n"),
        ("for (var i = 0; i < 3;) { print i; i = i + 1; }", "0\n1\n2\n"),
    ]);
}

#[test]
fn fibonacci_for_loop() {
    let code = r#"
       var a = 0;
       var temp;

       for (var b = 1; a < 10000; b = temp + b) {
        print a;
        temp = a;
        a = b;

       }
           "#;
    let expect = "0\n1\n1\n2\n3\n5\n8\n13\n21\n34\n55\n89\n144\n233\n377\n610\n987\n1597\n2584\n4181\n6765\n";
    let (r, out) = run(code);
    assert!(r.is_ok());
    assert_eq!(out, expect);
}

#[test]
fn funcs() {
    check_outputs(&[
        ("fun greet() { print \"hello\"; } greet();", "hello\n"),
        ("fun add(a, b) { return a + b; } print add(1, 2);", "3\n"),
        ("fun square(x) { return x * x; } print square(4);", "16\n"),
        ("fun nothing() {} print nothing();", "nil\n"),
        (
            "fun sign(x) { if (x > 0) { return 1; } if (x < 0) { return -1; } return 0; } print sign(5); print sign(-3); print sign(0);",
            "1\n-1\n0\n",
        ),
        ("var x = 1; fun f() { var x = 2; return x; } print f(); print x;", "2\n1\n"),
        ("var x = 10; fun f() { return x; } print f();", "10\n"),
        (
            "fun fib(n) { if (n <= 1) { return n; } return fib(n - 1) + fib(n - 2); } print fib(7);",
            "13\n",
        ),
        (
            "fun fact(n) { if (n <= 1) { return 1; } return n * fact(n - 1); } print fact(5);",
            "120\n",
        ),
        ("print clock() > 0;", "true\n"),
        ("var t1 = clock(); var t2 = clock(); print t2 >= t1;", "true\n"),
    ]);
    let cases = [
        ("fun f(a) {} f();", Err(RuntimeError::ArityMismatch { expected: 1, got: 0 })),
        ("fun f() {} f(1);", Err(RuntimeError::ArityMismatch { expected: 0, got: 1 })),
    ];
    for (case, err) in cases {
        let (r, _) = run(case);
        assert_eq!(r, err, "{case}");
    }
}

#[test]
fn closures() {
    check_outputs(&[
        (
            "fun makeCounter() { var count = 0; fun increment() { count = count + 1; return count; } return increment; } var counter = makeCounter(); print counter(); print counter();",
            "1\n2\n",
        ),
        ("var x = 1; fun f() { return x; } x = 2; print f();", "2\n"),
        (
            "fun makeCounter() { var count = 0; fun increment() { count = count + 1; return count; } return increment; } var c1 = makeCounter(); var c2 = makeCounter(); print c1(); print c1(); print c2();",
            "1\n2\n1\n",
        ),
    ]);
}

#[test]
fn resolving() {
    let cases = [
        ("var a = 1; print a;", "1\n"),
        ("var a = 1; { var a = 2; print a; } print a;", "2\n1\n"),
        (
            "fun makeCounter() { var count = 0; fun increment() { count = count + 1; return count; } return increment; } var c = makeCounter(); print c(); print c();",
            "1\n2\n",
        ),
        (
            "fun makeCounter() { var count = 0; fun increment() { count = count + 1; return count; } return increment; } var c1 = makeCounter(); var c2 = makeCounter(); print c1(); print c1(); print c2();",
            "1\n2\n1\n",
        ),
        ("fun f() { return 1; } print f();", "1\n"),
        (
            "var x = 1; fun f() { var x = 2; fun g() { return x; } return g(); } print f();",
            "2\n",
        ),
        ("var x = 1; fun f() { fun g() { return x; } return g(); } print f();", "1\n"),
    ];
    for (case, exp) in cases {
        let (r, out) = run_resolved(case);
        assert!(r.is_ok(), "case: {case}");
        assert_eq!(out, exp, "case: {case}");
    }

    let error_cases = [
        ("var a = a;", ResolveError::VariableInOwnInititalizer { name: String::from("a") }),
        ("return 5;", ResolveError::ReturnOutsideFunction),
        ("fun f() { } return 1;", ResolveError::ReturnOutsideFunction),
    ];
    for (case, exp) in error_cases {
        let toks = tokens(case);
        let stmts = parse(&toks);
        let mut resolver = Resolver::new();
        if let Err(err) = resolver.resolve_stmt(&stmts[0]) {
            assert_eq!(err, exp, "error case: {case}");
        }
    }
}
