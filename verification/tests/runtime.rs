use lox_rs::errors::{ResolveError, RuntimeError, Unwind};
use lox_rs::semantics::HostLog;
use lox_rs::interpreter::{Host, Numerals, Interpreter, MathFn};
use lox_rs::nodes::{Expr, Op, Stmt};
use lox_rs::parser::Parser;
use lox_rs::resolver::Resolver;
use lox_rs::scanner::Scanner;
use lox_rs::token::Token;
use lox_rs::values::Value;

#[derive(Default)]
struct Recorder {
    out: Vec<u8>,
    files: std::collections::HashMap<String, String>,
}

impl Numerals for Recorder {
    fn literal_value(text: &String) -> u64 {
        text.parse::<f64>().unwrap().to_bits()
    }
    fn number_text_value(n: u64) -> String {
        format!("{}", f64::from_bits(n))
    }
    fn number_literal(&self, text: &String) -> u64 {
        Self::literal_value(text)
    }
    fn number_text(&self, n: u64) -> String {
        Self::number_text_value(n)
    }
}

impl Host for Recorder {
    fn effects(&self) -> HostLog {
        unreachable!("a spec function: only the verifier reads it")
    }
    fn arithmetic_value(op: Op, lhs: u64, rhs: u64) -> u64 {
        let (a, b) = (f64::from_bits(lhs), f64::from_bits(rhs));
        match op {
            Op::Add => a + b,
            Op::Sub => a - b,
            Op::Mul => a * b,
            _ => a / b,
        }
        .to_bits()
    }
    fn arithmetic(&self, op: Op, lhs: u64, rhs: u64) -> u64 {
        Self::arithmetic_value(op, lhs, rhs)
    }
    fn count(&self, n: usize) -> u64 {
        Self::count_value(n)
    }
    fn parse_number(&self, text: &String) -> Option<u64> {
        Self::parse_value(text)
    }
    fn math(&self, f: MathFn, x: u64, y: u64) -> u64 {
        Self::math_value(f, x, y)
    }
    fn print_line(&mut self, text: &String) {
        self.out.extend_from_slice(text.as_bytes());
        self.out.push(b'\n');
    }
    fn count_value(n: usize) -> u64 {
        (n as f64).to_bits()
    }
    fn math_value(f: MathFn, x: u64, y: u64) -> u64 {
        let (x, y) = (f64::from_bits(x), f64::from_bits(y));
        match f {
            MathFn::Sqrt => x.sqrt(),
            MathFn::Floor => x.floor(),
            MathFn::Ceil => x.ceil(),
            MathFn::Abs => x.abs(),
            MathFn::Pow => x.powf(y),
        }
        .to_bits()
    }
    fn clock(&mut self) -> u64 {
        1.0f64.to_bits()
    }
    fn parse_value(text: &String) -> Option<u64> {
        text.parse::<f64>().ok().map(f64::to_bits)
    }
    fn read_file(&mut self, path: &String) -> Result<String, String> {
        self.files.get(path).cloned().ok_or_else(|| "could not read file missing".to_string())
    }
    fn write_file(&mut self, path: &String, content: &String) -> Result<(), String> {
        if path.is_empty() {
            return Err("no path".to_string());
        }
        self.files.insert(path.clone(), content.clone());
        Ok(())
    }
    fn append_file(&mut self, path: &String, content: &String) -> bool {
        self.files.entry(path.clone()).or_default().push_str(content);
        true
    }
}

fn tokens(case: &str) -> Vec<Token> {
    let mut scanner = Scanner::new(case.as_bytes());
    scanner.parse().unwrap();
    scanner.tokens
}

fn exec(case: &str) -> (Result<(), RuntimeError>, String, Option<String>) {
    let toks = tokens(case);
    let stmts = Parser::new(&toks).parse().unwrap();
    let mut resolver = Resolver::new();
    for s in &stmts {
        resolver.resolve_stmt(s).unwrap();
    }
    let mut it = Interpreter::new(Recorder::default());
    it.resolve(resolver.locals);
    let r = it.interpret(&stmts);
    let msg = r.as_ref().err().map(|e| it.error_message(e));
    (r, String::from_utf8(it.host().out.clone()).unwrap(), msg)
}

fn out(case: &str) -> String {
    let (r, o, _) = exec(case);
    assert!(r.is_ok(), "{case}: {:?}", r);
    o
}

#[test]
fn natives_compute() {
    assert_eq!(out("print sqrt(16);"), "4\n");
    assert_eq!(out("print floor(2.7); print ceil(2.1); print abs(-3);"), "2\n3\n3\n");
    assert_eq!(out("print pow(2, 10);"), "1024\n");
    assert_eq!(out("print type_of(1); print type_of(\"s\"); print type_of(nil); print type_of(true);"), "number\nstring\nnil\nbool\n");
    assert_eq!(out("fun f() {} print type_of(f); print type_of(clock);"), "fun\nnative_fun\n");
    assert_eq!(out("print to_string(1.5) + \"!\";"), "1.5!\n");
    assert_eq!(out("print to_number(\"42\") + 1; print to_number(\"x\"); print to_number(true);"), "43\nnil\nnil\n");
    assert_eq!(out("print len(\"abc\");"), "3\n");
    // the length of a string is its length in bytes; the scanner reads
    // each byte of the source as a character, so the two bytes of an
    // accented letter become two characters of two bytes each
    assert_eq!(out("print len(\"h\u{e9}\");"), "5\n");
    assert_eq!(out("print clock();"), "1\n");
}

#[test]
fn natives_check_arguments() {
    let (r, _, _) = exec("sqrt(\"x\");");
    assert!(matches!(r, Err(RuntimeError::TypeError { .. })));
    let (r, _, _) = exec("len(1);");
    assert!(matches!(r, Err(RuntimeError::TypeError { .. })));
    let (r, _, m) = exec("sqrt(1, 2);");
    assert_eq!(r, Err(RuntimeError::ArityMismatch { expected: 1, got: 2 }));
    assert_eq!(m.unwrap(), "ArityMismatch - expectd: 1; got 2");
}

#[test]
fn a_file_that_cannot_be_read_reads_as_nil() {
    assert_eq!(out("print read_file(\"nope\");"), "nil\n");
}

#[test]
fn a_file_that_cannot_be_written_gives_false() {
    assert_eq!(out("print write_file(\"\", \"x\");"), "false\n");
}

#[test]
fn io_errors_show_their_message() {
    let it = Interpreter::new(Recorder::default());
    let e = RuntimeError::Io { msg: "disk full".to_string() };
    assert_eq!(it.error_message(&e), "IO: disk full");
}

#[test]
fn files_through_the_host() {
    assert_eq!(
        out("print write_file(\"a\", \"x\"); print append_file(\"a\", \"y\"); print read_file(\"a\");"),
        "true\ntrue\nxy\n"
    );
}

#[test]
fn functions_print_by_name() {
    assert_eq!(out("fun hello() {} print hello; print clock;"), "<fn hello>\n<fn clock>\n");
}

#[test]
fn runtime_error_messages() {
    let (_, _, m) = exec("print x;");
    assert_eq!(m.unwrap(), "UndefinedVariable: 'x'");
    let (_, _, m) = exec("print 1 / 0;");
    assert_eq!(m.unwrap(), "DivisionByZero");
    let (_, _, m) = exec("print -\"a\";");
    assert_eq!(m.unwrap(), "TypeError: operand must be a number");
    let (_, _, m) = exec("print 1 + \"a\";");
    assert_eq!(m.unwrap(), "TypeError: operands must be of same type and either string or numeric");
    let (r, _, m) = exec("var x = 1; x();");
    assert_eq!(r, Err(RuntimeError::NotCallable((0, 13))));
    assert_eq!(m.unwrap(), "NotCallable: entity is not callable at (0):(13)");
}

#[test]
fn return_at_top_level_unwinds_without_resolver() {
    let toks = tokens("return 5;");
    let stmts = Parser::new(&toks).parse().unwrap();
    let mut it = Interpreter::new(Recorder::default());
    let r = it.interpret(&stmts);
    assert_eq!(r, Err(RuntimeError::Unwind(Unwind::Return(Value::Number(5.0f64.to_bits())))));
    assert_eq!(it.error_message(&r.unwrap_err()), "Unwind: '5'");
}

#[test]
fn zero_and_empty_string_are_true() {
    assert_eq!(out("print !0; print !\"\"; print !nil;"), "false\nfalse\ntrue\n");
}

#[test]
fn equality_of_mixed_values() {
    assert_eq!(out("print 1 == \"1\"; print nil == false; print \"a\" != \"a\";"), "false\nfalse\nfalse\n");
    assert_eq!(out("print 0 == -0; print 0/1 == -0/1;"), "true\ntrue\n");
}

#[test]
fn division_by_negative_zero_is_division_by_zero() {
    let (r, _, _) = exec("print 1 / -0;");
    assert_eq!(r, Err(RuntimeError::DivisionByZero));
}

#[test]
fn assignment_gives_its_value() {
    assert_eq!(out("var a; print a = \"v\"; print a;"), "v\nv\n");
}

#[test]
fn closure_sees_later_assignment_and_shares_state() {
    assert_eq!(
        out("var x = 1; fun get() { return x; } fun set(v) { x = v; } set(5); print get();"),
        "5\n"
    );
}

#[test]
fn output_before_an_error_is_kept() {
    let (r, o, _) = exec("print 1; print y;");
    assert!(r.is_err());
    assert_eq!(o, "1\n");
}

#[test]
fn resolver_records_depths() {
    let toks = tokens("{ var a = 1; { print a; } }");
    let stmts = Parser::new(&toks).parse().unwrap();
    let mut resolver = Resolver::new();
    resolver.resolve_stmt(&stmts[0]).unwrap();
    // the only reference, `a` inside the inner block, lives one scope out
    let id = match &stmts[0] {
        Stmt::Block(outer) => match &outer[1] {
            Stmt::Block(inner) => match &inner[0] {
                Stmt::Print(Expr::Variable { id, .. }) => *id,
                _ => panic!(),
            },
            _ => panic!(),
        },
        _ => panic!(),
    };
    assert_eq!(resolver.local_depth(id), Some(1));
    assert_eq!(resolver.locals.len(), 1);
}

#[test]
fn resolver_leaves_globals_unrecorded() {
    let toks = tokens("var g = 1; print g;");
    let stmts = Parser::new(&toks).parse().unwrap();
    let mut resolver = Resolver::new();
    for s in &stmts {
        resolver.resolve_stmt(s).unwrap();
    }
    assert!(resolver.locals.is_empty());
}

#[test]
fn resolver_error_messages() {
    assert_eq!(
        ResolveError::VariableInOwnInititalizer { name: "a".to_string() }.message(),
        "ResolverError: variable in onw inititalizer: a"
    );
    assert_eq!(ResolveError::ReturnOutsideFunction.message(), "ResolverError: return outside function");
    let toks = tokens("{ var a = a; }");
    let stmts = Parser::new(&toks).parse().unwrap();
    let mut resolver = Resolver::new();
    assert_eq!(
        resolver.resolve_stmt(&stmts[0]),
        Err(ResolveError::VariableInOwnInititalizer { name: "a".to_string() })
    );
    // at the top level the same declaration is rejected too
    let toks = tokens("var a = a;");
    let stmts = Parser::new(&toks).parse().unwrap();
    let mut resolver = Resolver::new();
    assert_eq!(
        resolver.resolve_stmt(&stmts[0]),
        Err(ResolveError::VariableInOwnInititalizer { name: "a".to_string() })
    );
    // once a global is initialized, later code may read it
    let toks = tokens("var a = 1; var b = a; a = a;");
    let stmts = Parser::new(&toks).parse().unwrap();
    let mut resolver = Resolver::new();
    for s in &stmts {
        assert_eq!(resolver.resolve_stmt(s), Ok(()));
    }
}

#[test]
fn deep_recursion_and_loops_finish() {
    assert_eq!(
        out("var n = 0; while (n < 2000) { n = n + 1; } print n; fun f(k) { if (k == 0) return 0; return 1 + f(k - 1); } print f(200);"),
        "2000\n200\n"
    );
}

#[test]
fn the_builtins_in_order() {
    let natives = lox_rs::interpreter::native_functions();
    let names: Vec<&str> = natives.iter().map(|(n, _)| n.as_str()).collect();
    assert_eq!(
        names,
        vec![
            "clock", "sqrt", "floor", "ceil", "abs", "pow", "type_of", "to_string", "to_number",
            "len", "read_file", "write_file", "append_file"
        ]
    );
    for (k, (_, v)) in natives.iter().enumerate() {
        assert_eq!(*v, Value::NativeFunction(k));
    }
}

#[test]
fn a_default_resolver_records_nothing() {
    let r = Resolver::default();
    assert!(r.locals.is_empty());
    assert_eq!(r.local_depth(0), None);
}

#[test]
fn logical_operators_short_circuit() {
    assert_eq!(out("print false and undefined; print true or undefined;"), "false\ntrue\n");
    assert_eq!(out("print nil or \"x\"; print 1 and 2;"), "x\n2\n");
}

#[test]
fn a_block_returns_to_the_enclosing_environment() {
    assert_eq!(out("var a = 1; { var a = 2; print a; } print a;"), "2\n1\n");
}

#[test]
fn a_false_while_condition_skips_the_body() {
    assert_eq!(out("while (false) print 1; print 2;"), "2\n");
}

#[test]
fn calls_give_back_what_return_gives() {
    assert_eq!(out("fun f() { return 3; } fun g() {} fun h() { return; } print f(); print g(); print h();"), "3\nnil\nnil\n");
}

#[test]
fn closures_share_their_variables_across_calls() {
    let program = "fun makeCounter() { var count = 0; fun increment() { count = count + 1; return count; } return increment; } var counter = makeCounter(); print counter(); print counter();";
    assert_eq!(out(program), "1\n2\n");
}
