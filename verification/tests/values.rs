use lox_rs::nodes::Op;
use lox_rs::semantics::HostLog;
use lox_rs::values::{is_truthy, number_eq, number_le, number_lt, number_neg, Value};

fn b(x: f64) -> u64 {
    x.to_bits()
}

#[test]
fn number_equality_follows_ieee() {
    assert!(number_eq(b(1.5), b(1.5)));
    assert!(number_eq(b(0.0), b(-0.0)));
    assert!(!number_eq(b(f64::NAN), b(f64::NAN)));
    assert!(!number_eq(b(1.0), b(2.0)));
    assert!(number_eq(b(f64::INFINITY), b(f64::INFINITY)));
}

#[test]
fn number_order_follows_ieee() {
    let xs = [f64::NEG_INFINITY, -3.5, -1.0, -0.0, 0.0, 1e-300, 2.0, 1e300, f64::INFINITY, f64::NAN];
    for x in xs {
        for y in xs {
            assert_eq!(number_lt(b(x), b(y)), x < y, "{x} < {y}");
            assert_eq!(number_le(b(x), b(y)), x <= y, "{x} <= {y}");
            assert_eq!(number_eq(b(x), b(y)), x == y, "{x} == {y}");
        }
    }
}

#[test]
fn negation_flips_the_sign() {
    assert_eq!(f64::from_bits(number_neg(b(2.5))), -2.5);
    assert_eq!(f64::from_bits(number_neg(number_neg(b(2.5)))), 2.5);
    assert!(f64::from_bits(number_neg(b(0.0))).is_sign_negative());
}

#[test]
fn only_nil_and_false_are_false() {
    assert!(!is_truthy(&Value::Nil));
    assert!(!is_truthy(&Value::Bool(false)));
    assert!(is_truthy(&Value::Bool(true)));
    assert!(is_truthy(&Value::Number(b(0.0))));
    assert!(is_truthy(&Value::String(String::new())));
    assert!(is_truthy(&Value::Function(0)));
}

#[test]
fn lox_equality_of_values() {
    assert!(Value::Nil.lox_eq(&Value::Nil));
    assert!(!Value::Nil.lox_eq(&Value::Bool(false)));
    assert!(Value::String("a".into()).lox_eq(&Value::String("a".into())));
    assert!(!Value::String("a".into()).lox_eq(&Value::String("b".into())));
    assert!(Value::Function(0).lox_eq(&Value::Function(3)));
    assert!(Value::NativeFunction(0).lox_eq(&Value::NativeFunction(1)));
    assert!(!Value::Function(0).lox_eq(&Value::NativeFunction(0)));
    assert!(!Value::Number(b(1.0)).lox_eq(&Value::String("1".into())));
    let nan = Value::Number(b(f64::NAN));
    assert!(!nan.lox_eq(&nan.copy()));
}

struct Arith;

impl lox_rs::interpreter::Numerals for Arith {
    fn literal_value(text: &String) -> u64 {
        text.parse::<f64>().unwrap().to_bits()
    }
    fn number_text_value(n: u64) -> String {
        format!("{}", f64::from_bits(n))
    }
    fn number_literal(&self, text: &String) -> u64 {
        Self::literal_value(text)
    }
    fn number_text(&self, n: u64) -> String {
        Self::number_text_value(n)
    }
}

impl lox_rs::interpreter::Host for Arith {
    fn effects(&self) -> HostLog {
        unreachable!("a spec function: only the verifier reads it")
    }
    fn arithmetic_value(op: Op, lhs: u64, rhs: u64) -> u64 {
        let (a, b) = (f64::from_bits(lhs), f64::from_bits(rhs));
        match op {
            Op::Add => a + b,
            Op::Sub => a - b,
            Op::Mul => a * b,
            _ => a / b,
        }
        .to_bits()
    }
    fn arithmetic(&self, op: Op, lhs: u64, rhs: u64) -> u64 {
        Self::arithmetic_value(op, lhs, rhs)
    }
    fn count(&self, n: usize) -> u64 {
        Self::count_value(n)
    }
    fn parse_number(&self, text: &String) -> Option<u64> {
        Self::parse_value(text)
    }
    fn math(&self, f: lox_rs::interpreter::MathFn, x: u64, y: u64) -> u64 {
        Self::math_value(f, x, y)
    }
    fn print_line(&mut self, _text: &String) {}
    fn count_value(n: usize) -> u64 {
        (n as f64).to_bits()
    }
    fn math_value(_f: lox_rs::interpreter::MathFn, x: u64, _y: u64) -> u64 {
        x
    }
    fn clock(&mut self) -> u64 {
        0
    }
    fn parse_value(text: &String) -> Option<u64> {
        text.parse::<f64>().ok().map(|v| v.to_bits())
    }
    fn read_file(&mut self, path: &String) -> Result<String, String> {
        Err(path.clone())
    }
    fn write_file(&mut self, path: &String, _content: &String) -> Result<(), String> {
        Err(path.clone())
    }
    fn append_file(&mut self, _path: &String, _content: &String) -> bool {
        false
    }
}

fn num(v: Result<Value, lox_rs::errors::RuntimeError>) -> f64 {
    match v {
        Ok(Value::Number(n)) => f64::from_bits(n),
        other => panic!("not a number: {other:?}"),
    }
}

fn type_error(msg: &str) -> Result<Value, lox_rs::errors::RuntimeError> {
    Err(lox_rs::errors::RuntimeError::TypeError { msg: msg.to_string() })
}

#[test]
fn arithmetic_on_values() {
    let n = |x: f64| Value::Number(b(x));
    assert_eq!(num(n(2.0).lox_add(n(3.5), &Arith)), 5.5);
    assert_eq!(num(n(2.0).lox_sub(n(3.5), &Arith)), -1.5);
    assert_eq!(num(n(2.0).lox_mul(n(3.5), &Arith)), 7.0);
    assert_eq!(num(n(7.0).lox_div(n(2.0), &Arith)), 3.5);
    assert_eq!(
        Value::String("ab".into()).lox_add(Value::String("cd".into()), &Arith),
        Ok(Value::String("abcd".into()))
    );
}

#[test]
fn arithmetic_errors_on_values() {
    let n = |x: f64| Value::Number(b(x));
    let s = || Value::String("x".into());
    assert_eq!(
        n(1.0).lox_add(s(), &Arith),
        type_error("operands must be of same type and either string or numeric")
    );
    assert_eq!(s().lox_sub(n(1.0), &Arith), type_error("operands must be numeric types"));
    assert_eq!(s().lox_mul(s(), &Arith), type_error("operands must be numeric types"));
    assert_eq!(Value::Nil.lox_div(n(1.0), &Arith), type_error("operands must be numeric types"));
    assert_eq!(
        n(1.0).lox_div(n(0.0), &Arith),
        Err(lox_rs::errors::RuntimeError::DivisionByZero)
    );
    assert_eq!(
        n(1.0).lox_div(n(-0.0), &Arith),
        Err(lox_rs::errors::RuntimeError::DivisionByZero)
    );
}

#[test]
fn comparisons_on_values() {
    let n = |x: f64| Value::Number(b(x));
    assert_eq!(n(1.0).less(n(2.0)), Ok(Value::Bool(true)));
    assert_eq!(n(2.0).less(n(2.0)), Ok(Value::Bool(false)));
    assert_eq!(n(2.0).less_eq(n(2.0)), Ok(Value::Bool(true)));
    assert_eq!(n(3.0).greater(n(2.0)), Ok(Value::Bool(true)));
    assert_eq!(n(2.0).greater_eq(n(3.0)), Ok(Value::Bool(false)));
    assert_eq!(n(f64::NAN).less_eq(n(f64::NAN)), Ok(Value::Bool(false)));
    assert_eq!(
        Value::String("a".into()).less(Value::String("b".into())),
        type_error("operands must be numeric types")
    );
}
