//! Run-time values, and the operations on them that need no arithmetic.
//!
//! A Lox number is an IEEE 754 double. The library holds it as the 64 bits
//! of its encoding; equality, order and negation read those bits directly,
//! as IEEE 754 defines them, while the arithmetic proper is done by the
//! host (see `interpreter::Host`).
use vstd::prelude::*;
use crate::errors::RuntimeError;
use crate::interpreter::Host;
use crate::nodes::Op;
use crate::text::push_string;

verus! {

/// A value of a running Lox program, its strings held as `S`s.
#[derive(Debug, PartialEq)]
pub enum ValueOf<S> {
    /// a number, as the bits of its IEEE 754 double encoding
    Number(u64),
    String(S),
    Bool(bool),
    Nil,
    /// a function declared in the program, by its index in the
    /// interpreter's function table
    Function(usize),
    /// a built-in function, by its index in the table of natives
    NativeFunction(usize),
}

/// A value as the interpreter holds it.
pub type Value = ValueOf<String>;

/// A value seen through the characters of its string.
pub type SpecValue = ValueOf<Seq<char>>;

impl View for ValueOf<String> {
    type V = ValueOf<Seq<char>>;

    open spec fn view(&self) -> ValueOf<Seq<char>> {
        match self {
            ValueOf::Number(n) => ValueOf::Number(*n),
            ValueOf::String(s) => ValueOf::String(s@),
            ValueOf::Bool(b) => ValueOf::Bool(*b),
            ValueOf::Nil => ValueOf::Nil,
            ValueOf::Function(i) => ValueOf::Function(*i),
            ValueOf::NativeFunction(i) => ValueOf::NativeFunction(*i),
        }
    }
}

/// The sign bit of a double.
pub open spec fn sign_mask() -> u64 {
    0x8000_0000_0000_0000u64
}

/// The exponent bits of a double.
pub open spec fn exponent_mask() -> u64 {
    0x7FF0_0000_0000_0000u64
}

/// The fraction bits of a double.
pub open spec fn fraction_mask() -> u64 {
    0x000F_FFFF_FFFF_FFFFu64
}

/// Whether `b` encodes a NaN: all exponent bits set and a fraction that is
/// not zero.
pub open spec fn is_nan(b: u64) -> bool {
    (b & exponent_mask()) == exponent_mask() && (b & fraction_mask()) != 0
}

/// Whether `b` encodes +0 or -0.
pub open spec fn is_zero(b: u64) -> bool {
    (b & !sign_mask()) == 0
}

/// The position of a non-NaN double on the number line, as an integer that
/// orders doubles as their values are ordered: the magnitude bits, negated
/// for a negative sign. Both zeros have position 0.
pub open spec fn order_key(b: u64) -> int {
    let mag = (b & !sign_mask()) as int;
    if (b & sign_mask()) != 0 {
        -mag
    } else {
        mag
    }
}

/// IEEE 754 equality of two doubles: neither is NaN and they have the same
/// value (so +0 equals -0).
pub open spec fn num_eq(a: u64, b: u64) -> bool {
    !is_nan(a) && !is_nan(b) && order_key(a) == order_key(b)
}

/// IEEE 754 `a < b`: false where either is NaN.
pub open spec fn num_lt(a: u64, b: u64) -> bool {
    !is_nan(a) && !is_nan(b) && order_key(a) < order_key(b)
}

/// IEEE 754 `a <= b`: false where either is NaN.
pub open spec fn num_le(a: u64, b: u64) -> bool {
    !is_nan(a) && !is_nan(b) && order_key(a) <= order_key(b)
}

/// The double of the opposite sign: the sign bit flipped.
pub open spec fn num_neg(a: u64) -> u64 {
    a ^ sign_mask()
}

/// Whether a value counts as true: everything but `nil` and `false`.
pub open spec fn truthy(v: SpecValue) -> bool {
    match v {
        ValueOf::Nil => false,
        ValueOf::Bool(b) => b,
        _ => true,
    }
}

/// Lox equality: numbers by IEEE 754 equality, strings by their
/// characters, booleans by value; any two values of another kind are equal
/// when their kinds are (so all functions are equal to each other).
pub open spec fn values_equal(a: SpecValue, b: SpecValue) -> bool {
    match (a, b) {
        (ValueOf::Number(x), ValueOf::Number(y)) => num_eq(x, y),
        (ValueOf::String(x), ValueOf::String(y)) => x == y,
        (ValueOf::Bool(x), ValueOf::Bool(y)) => x == y,
        (ValueOf::Nil, ValueOf::Nil) => true,
        (ValueOf::Function(_), ValueOf::Function(_)) => true,
        (ValueOf::NativeFunction(_), ValueOf::NativeFunction(_)) => true,
        _ => false,
    }
}

/// Law: Lox equality is symmetric.
pub proof fn law_equality_symmetric(a: SpecValue, b: SpecValue)
    ensures
        values_equal(a, b) == values_equal(b, a),
{
}

/// Law: every value equals itself, but for a NaN.
pub proof fn law_equality_reflexive(a: SpecValue)
    ensures
        (a matches ValueOf::Number(n) && is_nan(n)) ==> !values_equal(a, a),
        !(a matches ValueOf::Number(n) && is_nan(n)) ==> values_equal(a, a),
{
}

/// Law: only `nil` and `false` are false; every number, zero too, and every
/// string, the empty one too, is true.
pub proof fn law_truthiness(v: SpecValue)
    ensures
        !truthy(v) <==> (v == SpecValue::Nil || v == SpecValue::Bool(false)),
{
}

/// Law: on numbers, `<` is a strict order, `<=` is `<` or `==`, and any two
/// numbers that are not NaN are comparable.
pub proof fn law_number_order(a: u64, b: u64, c: u64)
    ensures
        num_lt(a, b) ==> !num_lt(b, a),
        num_lt(a, b) && num_lt(b, c) ==> num_lt(a, c),
        num_le(a, b) <==> (num_lt(a, b) || num_eq(a, b)),
        (!is_nan(a) && !is_nan(b)) ==> (num_lt(a, b) || num_le(b, a)),
{
}

/// Law: negating a number twice gives it back, and negation keeps NaN a
/// NaN and a zero a zero.
pub proof fn law_negation(a: u64)
    ensures
        num_neg(num_neg(a)) == a,
        is_nan(num_neg(a)) == is_nan(a),
        is_zero(num_neg(a)) == is_zero(a),
{
    assert(num_neg(num_neg(a)) == a) by (bit_vector);
    assert(((a ^ 0x8000_0000_0000_0000u64) & 0x7FF0_0000_0000_0000u64) == (a
        & 0x7FF0_0000_0000_0000u64)) by (bit_vector);
    assert(((a ^ 0x8000_0000_0000_0000u64) & 0x000F_FFFF_FFFF_FFFFu64) == (a
        & 0x000F_FFFF_FFFF_FFFFu64)) by (bit_vector);
    assert(((a ^ 0x8000_0000_0000_0000u64) & !0x8000_0000_0000_0000u64) == (a
        & !0x8000_0000_0000_0000u64)) by (bit_vector);
}

/// Whether `b` encodes a NaN.
pub fn bits_is_nan(b: u64) -> (r: bool)
    ensures
        r == is_nan(b),
{
    (b & 0x7FF0_0000_0000_0000u64) == 0x7FF0_0000_0000_0000u64 && (b & 0x000F_FFFF_FFFF_FFFFu64) != 0
}

/// Whether `b` encodes a zero.
pub fn bits_is_zero(b: u64) -> (r: bool)
    ensures
        r == is_zero(b),
{
    (b & !0x8000_0000_0000_0000u64) == 0
}

/// The order key of `b`.
fn bits_order_key(b: u64) -> (r: i128)
    ensures
        r == order_key(b),
{
    let mag = b & !0x8000_0000_0000_0000u64;
    assert(mag <= 0x7FFF_FFFF_FFFF_FFFFu64) by (bit_vector)
        requires
            mag == b & !0x8000_0000_0000_0000u64,
    ;
    if (b & 0x8000_0000_0000_0000u64) != 0 {
        -(mag as i128)
    } else {
        mag as i128
    }
}

/// IEEE 754 equality of two doubles.
pub fn number_eq(a: u64, b: u64) -> (r: bool)
    ensures
        r == num_eq(a, b),
{
    !bits_is_nan(a) && !bits_is_nan(b) && bits_order_key(a) == bits_order_key(b)
}

/// IEEE 754 `a < b`.
pub fn number_lt(a: u64, b: u64) -> (r: bool)
    ensures
        r == num_lt(a, b),
{
    !bits_is_nan(a) && !bits_is_nan(b) && bits_order_key(a) < bits_order_key(b)
}

/// IEEE 754 `a <= b`.
pub fn number_le(a: u64, b: u64) -> (r: bool)
    ensures
        r == num_le(a, b),
{
    !bits_is_nan(a) && !bits_is_nan(b) && bits_order_key(a) <= bits_order_key(b)
}

/// The negation of a double.
pub fn number_neg(a: u64) -> (r: u64)
    ensures
        r == num_neg(a),
{
    a ^ 0x8000_0000_0000_0000u64
}

/// Whether a value counts as true.
pub fn is_truthy(v: &Value) -> (r: bool)
    ensures
        r == truthy(v@),
{
    match v {
        Value::Nil => false,
        Value::Bool(b) => *b,
        _ => true,
    }
}

/// The message of the type error of `+` on operands that are neither two
/// numbers nor two strings.
pub open spec fn same_kind_needed_text() -> Seq<char> {
    "operands must be of same type and either string or numeric"@
}

/// The message of the type error of an operator that needs two numbers.
pub open spec fn numbers_needed_text() -> Seq<char> {
    "operands must be numeric types"@
}

/// `r` is the type error of an operator that needs two numbers.
pub open spec fn numbers_needed(r: Result<Value, RuntimeError>) -> bool {
    r matches Err(RuntimeError::TypeError { msg }) && msg@ == numbers_needed_text()
}

/// The type error of an operator that needs two numbers.
fn numbers_needed_error() -> (e: RuntimeError)
    ensures
        numbers_needed(Err(e)),
{
    RuntimeError::TypeError { msg: String::from_str("operands must be numeric types") }
}

impl Value {
    /// Lox equality of two values.
    pub fn lox_eq(&self, other: &Value) -> (r: bool)
        ensures
            r == values_equal(self@, other@),
    {
        match (self, other) {
            (Value::Number(x), Value::Number(y)) => number_eq(*x, *y),
            (Value::String(x), Value::String(y)) => *x == *y,
            (Value::Bool(x), Value::Bool(y)) => *x == *y,
            (Value::Nil, Value::Nil) => true,
            (Value::Function(_), Value::Function(_)) => true,
            (Value::NativeFunction(_), Value::NativeFunction(_)) => true,
            _ => false,
        }
    }

    /// `self + other`: the sum of two numbers (as the host adds them), or
    /// the concatenation of two strings.
    pub fn lox_add<H: Host>(self, other: Value, host: &H) -> (r: Result<Value, RuntimeError>)
        ensures
            match (self, other) {
                (Value::Number(a), Value::Number(b)) => r == Ok::<Value, RuntimeError>(
                    Value::Number(H::arithmetic_value(Op::Add, a, b)),
                ),
                (Value::String(a), Value::String(b)) => r matches Ok(Value::String(s)) && s@ == a@
                    + b@,
                _ => r matches Err(RuntimeError::TypeError { msg }) && msg@
                    == same_kind_needed_text(),
            },
    {
        match (self, other) {
            (Value::Number(a), Value::Number(b)) => Ok(
                Value::Number(host.arithmetic(Op::Add, a, b)),
            ),
            (Value::String(a), Value::String(b)) => {
                let mut s = a;
                push_string(&mut s, &b);
                Ok(Value::String(s))
            },
            _ => Err(
                RuntimeError::TypeError {
                    msg: String::from_str("operands must be of same type and either string or numeric"),
                },
            ),
        }
    }

    /// `self - other`, for two numbers, as the host subtracts them.
    pub fn lox_sub<H: Host>(self, other: Value, host: &H) -> (r: Result<Value, RuntimeError>)
        ensures
            match (self, other) {
                (Value::Number(a), Value::Number(b)) => r == Ok::<Value, RuntimeError>(
                    Value::Number(H::arithmetic_value(Op::Sub, a, b)),
                ),
                _ => numbers_needed(r),
            },
    {
        match (self, other) {
            (Value::Number(a), Value::Number(b)) => Ok(
                Value::Number(host.arithmetic(Op::Sub, a, b)),
            ),
            _ => Err(numbers_needed_error()),
        }
    }

    /// `self * other`, for two numbers, as the host multiplies them.
    pub fn lox_mul<H: Host>(self, other: Value, host: &H) -> (r: Result<Value, RuntimeError>)
        ensures
            match (self, other) {
                (Value::Number(a), Value::Number(b)) => r == Ok::<Value, RuntimeError>(
                    Value::Number(H::arithmetic_value(Op::Mul, a, b)),
                ),
                _ => numbers_needed(r),
            },
    {
        match (self, other) {
            (Value::Number(a), Value::Number(b)) => Ok(
                Value::Number(host.arithmetic(Op::Mul, a, b)),
            ),
            _ => Err(numbers_needed_error()),
        }
    }

    /// `self / other`, for two numbers, as the host divides them; dividing
    /// by zero (either zero) is an error.
    pub fn lox_div<H: Host>(self, other: Value, host: &H) -> (r: Result<Value, RuntimeError>)
        ensures
            match (self, other) {
                (Value::Number(a), Value::Number(b)) => if is_zero(b) {
                    r == Err::<Value, RuntimeError>(RuntimeError::DivisionByZero)
                } else {
                    r == Ok::<Value, RuntimeError>(
                        Value::Number(H::arithmetic_value(Op::Div, a, b)),
                    )
                },
                _ => numbers_needed(r),
            },
    {
        match (self, other) {
            (Value::Number(a), Value::Number(b)) => {
                if bits_is_zero(b) {
                    return Err(RuntimeError::DivisionByZero);
                }
                Ok(Value::Number(host.arithmetic(Op::Div, a, b)))
            },
            _ => Err(numbers_needed_error()),
        }
    }

    /// `self < other`, for two numbers.
    pub fn less(self, other: Value) -> (r: Result<Value, RuntimeError>)
        ensures
            match (self, other) {
                (Value::Number(a), Value::Number(b)) => r == Ok::<Value, RuntimeError>(
                    Value::Bool(num_lt(a, b)),
                ),
                _ => numbers_needed(r),
            },
    {
        match (self, other) {
            (Value::Number(a), Value::Number(b)) => Ok(Value::Bool(number_lt(a, b))),
            _ => Err(numbers_needed_error()),
        }
    }

    /// `self <= other`, for two numbers.
    pub fn less_eq(self, other: Value) -> (r: Result<Value, RuntimeError>)
        ensures
            match (self, other) {
                (Value::Number(a), Value::Number(b)) => r == Ok::<Value, RuntimeError>(
                    Value::Bool(num_le(a, b)),
                ),
                _ => numbers_needed(r),
            },
    {
        match (self, other) {
            (Value::Number(a), Value::Number(b)) => Ok(Value::Bool(number_le(a, b))),
            _ => Err(numbers_needed_error()),
        }
    }

    /// `self > other`, for two numbers.
    pub fn greater(self, other: Value) -> (r: Result<Value, RuntimeError>)
        ensures
            match (self, other) {
                (Value::Number(a), Value::Number(b)) => r == Ok::<Value, RuntimeError>(
                    Value::Bool(num_lt(b, a)),
                ),
                _ => numbers_needed(r),
            },
    {
        match (self, other) {
            (Value::Number(a), Value::Number(b)) => Ok(Value::Bool(number_lt(b, a))),
            _ => Err(numbers_needed_error()),
        }
    }

    /// `self >= other`, for two numbers.
    pub fn greater_eq(self, other: Value) -> (r: Result<Value, RuntimeError>)
        ensures
            match (self, other) {
                (Value::Number(a), Value::Number(b)) => r == Ok::<Value, RuntimeError>(
                    Value::Bool(num_le(b, a)),
                ),
                _ => numbers_needed(r),
            },
    {
        match (self, other) {
            (Value::Number(a), Value::Number(b)) => Ok(Value::Bool(number_le(b, a))),
            _ => Err(numbers_needed_error()),
        }
    }

    /// A copy of this value.
    pub fn copy(&self) -> (r: Value)
        ensures
            r == *self,
    {
        match self {
            Value::Number(n) => Value::Number(*n),
            Value::String(s) => Value::String(s.clone()),
            Value::Bool(b) => Value::Bool(*b),
            Value::Nil => Value::Nil,
            Value::Function(i) => Value::Function(*i),
            Value::NativeFunction(i) => Value::NativeFunction(*i),
        }
    }
}

} // verus!
