//! What running a Lox program means: a big-step semantics of expressions and
//! statements over the interpreter's state, seen through the views of its
//! values.
//!
//! Where the interpreter asks its host something (the value of a number
//! literal, the sum of two doubles, how a number prints, a file's contents,
//! the time), the semantics takes the answer from a record of the host's
//! answers, the events, in the order the questions were asked; printing is
//! an event too. Each function of the semantics says how many events the
//! step it describes used, and gives `None` where the events do not answer
//! the questions the step asks. The questions on numbers have one answer
//! each, the one the host names for them (see `interpreter::Host`);
//! `answers_agree` says that a record holds those answers.
use vstd::prelude::*;
use vstd::utf8::encode_utf8;
use crate::environment::{
    ancestor, defining_frame, last_index, lemma_last_index, lemma_last_index_put_other,
    lemma_vars_get_put, lookup, vars_get, vars_put, frames_put, FrameView, VarsView,
};
use crate::errors::{RuntimeError, RuntimeErrorOf, SpecRuntimeError, UnwindOf};
use crate::interpreter::{native_arity, native_name, read_variable, Host, MathFn, NATIVE_COUNT};
use crate::messages::op_text;
use crate::nodes::{Expr, Lit, Op, Stmt};
use crate::values::{
    is_zero, num_le, num_lt, num_neg, numbers_needed_text, same_kind_needed_text, truthy,
    values_equal, SpecValue, Value, ValueOf,
};

verus! {

/// The variables of an environment, each value seen through its view.
pub open spec fn vars_seen(vars: VarsView<Value>) -> VarsView<SpecValue> {
    vars.map_values(|p: (Seq<char>, Value)| (p.0, p.1@))
}

/// The environments, each value seen through its view.
pub open spec fn frames_seen(frames: Seq<FrameView<Value>>) -> Seq<FrameView<SpecValue>> {
    frames.map_values(
        |f: FrameView<Value>| FrameView { vars: vars_seen(f.vars), parent: f.parent },
    )
}

/// A value that may be missing, seen through its view.
pub open spec fn option_seen(o: Option<Value>) -> Option<SpecValue> {
    match o {
        Some(v) => Some(v@),
        None => None,
    }
}

/// Seeing the values does not move any name.
pub proof fn lemma_last_index_seen(vars: VarsView<Value>, name: Seq<char>)
    ensures
        last_index(vars_seen(vars), name) == last_index(vars, name),
    decreases vars.len(),
{
    if vars.len() > 0 {
        assert(vars_seen(vars).drop_last() =~= vars_seen(vars.drop_last()));
        lemma_last_index_seen(vars.drop_last(), name);
    }
}

/// Reading a variable commutes with seeing the values.
pub proof fn lemma_vars_get_seen(vars: VarsView<Value>, name: Seq<char>)
    ensures
        vars_get(vars_seen(vars), name) == option_seen(vars_get(vars, name)),
{
    lemma_last_index_seen(vars, name);
    lemma_last_index(vars, name);
}

/// Binding a variable commutes with seeing the values.
pub proof fn lemma_vars_put_seen(vars: VarsView<Value>, name: Seq<char>, value: Value)
    ensures
        vars_seen(vars_put(vars, name, value)) == vars_put(vars_seen(vars), name, value@),
{
    lemma_last_index_seen(vars, name);
    lemma_last_index(vars, name);
    assert(vars_seen(vars_put(vars, name, value)) =~= vars_put(vars_seen(vars), name, value@));
}

/// Binding a variable in an environment commutes with seeing the values.
pub proof fn lemma_frames_put_seen(
    frames: Seq<FrameView<Value>>,
    env: int,
    name: Seq<char>,
    value: Value,
)
    requires
        0 <= env < frames.len(),
    ensures
        frames_seen(frames_put(frames, env, name, value)) == frames_put(
            frames_seen(frames),
            env,
            name,
            value@,
        ),
{
    lemma_vars_put_seen(frames[env].vars, name, value);
    assert(frames_seen(frames_put(frames, env, name, value)) =~= frames_put(
        frames_seen(frames),
        env,
        name,
        value@,
    ));
}

/// Adding an empty environment commutes with seeing the values.
pub proof fn lemma_frames_push_seen(frames: Seq<FrameView<Value>>, parent: Option<usize>)
    ensures
        frames_seen(frames.push(FrameView { vars: Seq::empty(), parent })) == frames_seen(
            frames,
        ).push(FrameView { vars: Seq::empty(), parent }),
{
    assert(vars_seen(Seq::empty()) =~= Seq::<(Seq<char>, SpecValue)>::empty());
    assert(frames_seen(frames.push(FrameView { vars: Seq::empty(), parent })) =~= frames_seen(
        frames,
    ).push(FrameView { vars: Seq::empty(), parent }));
}

/// The enclosing environments do not change when the values are seen.
pub proof fn lemma_ancestor_seen(frames: Seq<FrameView<Value>>, env: int, depth: nat)
    ensures
        ancestor(frames_seen(frames), env, depth) == ancestor(frames, env, depth),
    decreases depth,
{
    if 0 <= env < frames.len() && depth > 0 {
        match frames[env].parent {
            Some(p) => lemma_ancestor_seen(frames, p as int, (depth - 1) as nat),
            None => {},
        }
    }
}

/// Looking a name up commutes with seeing the values.
pub proof fn lemma_lookup_seen(frames: Seq<FrameView<Value>>, env: int, name: Seq<char>)
    ensures
        lookup(frames_seen(frames), env, name) == option_seen(lookup(frames, env, name)),
    decreases env,
{
    if 0 <= env < frames.len() {
        lemma_vars_get_seen(frames[env].vars, name);
        match frames[env].parent {
            Some(p) => if p < env {
                lemma_lookup_seen(frames, p as int, name);
            },
            None => {},
        }
    }
}

/// The environment defining a name does not change when the values are
/// seen.
pub proof fn lemma_defining_frame_seen(frames: Seq<FrameView<Value>>, env: int, name: Seq<char>)
    ensures
        defining_frame(frames_seen(frames), env, name) == defining_frame(frames, env, name),
    decreases env,
{
    if 0 <= env < frames.len() {
        lemma_last_index_seen(frames[env].vars, name);
        match frames[env].parent {
            Some(p) => if p < env {
                lemma_defining_frame_seen(frames, p as int, name);
            },
            None => {},
        }
    }
}


/// Values seen through their views.
pub open spec fn values_seen(vs: Seq<Value>) -> Seq<SpecValue> {
    vs.map_values(|v: Value| v@)
}

/// A result seen through the views of its value or error.
pub open spec fn result_seen(r: Result<Value, RuntimeError>) -> Result<SpecValue, SpecRuntimeError> {
    match r {
        Ok(v) => Ok(v@),
        Err(e) => Err(e@),
    }
}

/// A result with no value, seen through the view of its error.
pub open spec fn unit_seen(r: Result<(), RuntimeError>) -> Result<(), SpecRuntimeError> {
    match r {
        Ok(()) => Ok(()),
        Err(e) => Err(e@),
    }
}

/// A result holding values, seen through their views.
pub open spec fn values_result_seen(r: Result<Vec<Value>, RuntimeError>) -> Result<
    Seq<SpecValue>,
    SpecRuntimeError,
> {
    match r {
        Ok(vs) => Ok(values_seen(vs@)),
        Err(e) => Err(e@),
    }
}

/// A question the interpreter put to its host, with the answer it got; or a
/// line it had the host print.
#[allow(inconsistent_fields)]
pub enum HostEvent {
    /// the number a number literal written `text` stands for
    NumberLiteral { text: String, answer: u64 },
    /// `lhs op rhs`
    Arithmetic { op: Op, lhs: u64, rhs: u64, answer: u64 },
    /// how the number `n` prints
    NumberText { n: u64, answer: Seq<char> },
    /// a line written to the output
    Print { text: Seq<char> },
    /// the length of `text` in bytes, `len`, as a number
    Count { text: Seq<char>, len: usize, answer: u64 },
    /// `f` of `x` (and `y`)
    Math { f: MathFn, x: u64, y: u64, answer: u64 },
    /// the time
    Clock { answer: u64 },
    /// the number `text` spells, if any
    ParseNumber { text: String, answer: Option<u64> },
    /// the contents of the file at `path`, or why there are none
    ReadFile { path: Seq<char>, answer: Result<Seq<char>, Seq<char>> },
    /// writing `content` to the file at `path`
    WriteFile { path: Seq<char>, content: Seq<char>, answer: Result<(), Seq<char>> },
    /// appending `content` to the file at `path`
    AppendFile { path: Seq<char>, content: Seq<char>, answer: bool },
}

/// The host `H` answered the question of `e` as it always answers it: with
/// the value that `H` names for that question. Printing, the clock and the
/// files are not questions of this kind.
pub open spec fn event_agrees<H: Host>(e: HostEvent) -> bool {
    match e {
        HostEvent::NumberLiteral { text, answer } => answer == H::literal_value(&text),
        HostEvent::Arithmetic { op, lhs, rhs, answer } => answer == H::arithmetic_value(op, lhs, rhs),
        HostEvent::NumberText { n, answer } => answer == H::number_text_value(n)@,
        HostEvent::Count { len, answer, .. } => answer == H::count_value(len),
        HostEvent::Math { f, x, y, answer } => answer == H::math_value(f, x, y),
        HostEvent::ParseNumber { text, answer } => answer == H::parse_value(&text),
        _ => true,
    }
}

/// Every answer in `log` is the one the host `H` gives to its question.
pub open spec fn answers_agree<H: Host>(log: Seq<HostEvent>) -> bool {
    forall|i: int| 0 <= i < log.len() ==> event_agrees::<H>(#[trigger] log[i])
}

/// A record of events, as a host keeps the record of what it did.
pub type HostLog = Seq<HostEvent>;

/// Whether `e` is something the host did to the world or read from it: a
/// line printed, the clock read, a file read, written or appended to.
pub open spec fn is_effect(e: HostEvent) -> bool {
    match e {
        HostEvent::Print { .. } => true,
        HostEvent::Clock { .. } => true,
        HostEvent::ReadFile { .. } => true,
        HostEvent::WriteFile { .. } => true,
        HostEvent::AppendFile { .. } => true,
        _ => false,
    }
}

/// The effects among the events of `log`, in order.
pub open spec fn effects_of(log: Seq<HostEvent>) -> Seq<HostEvent>
    decreases log.len(),
{
    if log.len() == 0 {
        Seq::empty()
    } else if is_effect(log.last()) {
        effects_of(log.drop_last()).push(log.last())
    } else {
        effects_of(log.drop_last())
    }
}

/// Recording one more event adds it to the effects where it is one.
pub proof fn lemma_effects_of_push(log: Seq<HostEvent>, e: HostEvent)
    ensures
        effects_of(log.push(e)) == if is_effect(e) {
            effects_of(log).push(e)
        } else {
            effects_of(log)
        },
{
    assert(log.push(e).drop_last() =~= log);
}

/// Recording one more event extends the record, and keeps every answer
/// the host's where the new one is.
pub proof fn lemma_record<H: Host>(log: Seq<HostEvent>, e: HostEvent)
    ensures
        log_extends(log.push(e), log),
        answers_agree::<H>(log) && event_agrees::<H>(e) ==> answers_agree::<H>(log.push(e)),
        effects_of(log.push(e)) == if is_effect(e) {
            effects_of(log).push(e)
        } else {
            effects_of(log)
        },
{
    lemma_effects_of_push(log, e);
    assert forall|i: int| 0 <= i < log.len() implies #[trigger] log.push(e)[i] == log[i] by {}
}

/// `log` holds every event of `before`, at the same place, and maybe more
/// after them.
pub closed spec fn log_extends(log: Seq<HostEvent>, before: Seq<HostEvent>) -> bool {
    &&& before.len() <= log.len()
    &&& forall|i: int| 0 <= i < before.len() ==> #[trigger] log[i] == before[i]
}

/// Every record extends itself.
pub proof fn lemma_log_extends_refl(log: Seq<HostEvent>)
    ensures
        log_extends(log, log),
{
}

/// Extending a record that extends another extends the other.
pub broadcast proof fn lemma_log_extends_trans(a: Seq<HostEvent>, b: Seq<HostEvent>, c: Seq<HostEvent>)
    requires
        #[trigger] log_extends(a, b),
        #[trigger] log_extends(b, c),
    ensures
        log_extends(a, c),
{
}

/// A record that extends another holds its events: the length of the
/// other, and each event of it at its place.
pub broadcast proof fn lemma_log_extends_event(log: Seq<HostEvent>, before: Seq<HostEvent>, i: nat)
    requires
        #[trigger] log_extends(log, before),
        i < before.len(),
    ensures
        #[trigger] event_at(log, i) == Some(before[i as int]),
{
}

/// A record that extends another is at least as long.
pub broadcast proof fn lemma_log_extends_len(log: Seq<HostEvent>, before: Seq<HostEvent>)
    requires
        #[trigger] log_extends(log, before),
    ensures
        before.len() <= log.len(),
{
}

/// The laws of records that extend one another.
pub broadcast group group_log_extends {
    lemma_log_extends_trans,
    lemma_log_extends_event,
    lemma_log_extends_len,
}

/// The event at index `at` of `log`, if there is one.
pub open spec fn event_at(log: Seq<HostEvent>, at: nat) -> Option<HostEvent> {
    if at < log.len() {
        Some(log[at as int])
    } else {
        None
    }
}

/// A declared function: its name, parameters and body, and the index of
/// the environment it was declared in.
pub struct FunView {
    pub name: Seq<char>,
    pub params: Seq<String>,
    pub body: Seq<Stmt>,
    pub closure: usize,
}

/// The interpreter's state: its environments, the current one, the
/// functions declared so far, and how many more steps it may take.
pub struct IState {
    pub frames: Seq<FrameView<SpecValue>>,
    pub current: int,
    pub functions: Seq<FunView>,
    pub fuel: nat,
}

/// `st` with `fuel` steps left.
pub open spec fn with_fuel(st: IState, fuel: nat) -> IState {
    IState { frames: st.frames, current: st.current, functions: st.functions, fuel }
}

/// `st` with the current environment `current`.
pub open spec fn with_current(st: IState, current: int) -> IState {
    IState { frames: st.frames, current, functions: st.functions, fuel: st.fuel }
}

/// `st` with the environments `frames`.
pub open spec fn with_frames(st: IState, frames: Seq<FrameView<SpecValue>>) -> IState {
    IState { frames, current: st.current, functions: st.functions, fuel: st.fuel }
}

/// `st` after one step: one step fewer left.
pub open spec fn spend(st: IState) -> IState {
    with_fuel(st, (st.fuel - 1) as nat)
}

/// The result of a step, the state after it, and the index of the next
/// event; `None` where the events do not answer the step's questions.
pub type Outcome<T> = Option<(Result<T, SpecRuntimeError>, IState, nat)>;

/// A type error with the message `msg`.
pub open spec fn type_error(msg: Seq<char>) -> SpecRuntimeError {
    RuntimeErrorOf::TypeError { msg }
}

/// The value of the variable `name` referred to by the expression `id`: at
/// the depth the resolver recorded for it, else wherever the nearest
/// environment defining it lies.
pub open spec fn read_var_spec(
    frames: Seq<FrameView<SpecValue>>,
    current: int,
    locals: Map<usize, usize>,
    id: usize,
    name: Seq<char>,
) -> Result<SpecValue, SpecRuntimeError> {
    let found = if locals.contains_key(id) {
        match ancestor(frames, current, locals[id] as nat) {
            Some(a) => vars_get(frames[a].vars, name),
            None => None,
        }
    } else {
        lookup(frames, current, name)
    };
    match found {
        Some(v) => Ok(v),
        None => Err(RuntimeErrorOf::UndefinedVariable { var_name: name }),
    }
}

/// Assigning `value` to the variable `name` referred to by the expression
/// `id`: the environments after, and the result (the value, or the error
/// where no environment to assign in defines `name`).
pub open spec fn assign_spec(
    frames: Seq<FrameView<SpecValue>>,
    current: int,
    locals: Map<usize, usize>,
    id: usize,
    name: Seq<char>,
    value: SpecValue,
) -> (Result<SpecValue, SpecRuntimeError>, Seq<FrameView<SpecValue>>) {
    let target = if locals.contains_key(id) {
        match ancestor(frames, current, locals[id] as nat) {
            Some(a) => if last_index(frames[a].vars, name) is Some {
                Some(a)
            } else {
                None
            },
            None => None,
        }
    } else {
        defining_frame(frames, current, name)
    };
    match target {
        Some(a) => (Ok(value), frames_put(frames, a, name, value)),
        None => (Err(RuntimeErrorOf::UndefinedVariable { var_name: name }), frames),
    }
}

/// A unary operator applied to a value.
pub open spec fn unary_spec(op: Op, v: SpecValue) -> Result<SpecValue, SpecRuntimeError> {
    match op {
        Op::Not => Ok(ValueOf::Bool(!truthy(v))),
        Op::Sub => match v {
            ValueOf::Number(n) => Ok(ValueOf::Number(num_neg(n))),
            _ => Err(type_error("operand must be a number"@)),
        },
        _ => Err(type_error("invalid unary operator"@)),
    }
}

/// The host's answer at index `at` to `lhs op rhs`, where that is the
/// event there.
pub open spec fn arithmetic_answer(log: Seq<HostEvent>, at: nat, op: Op, lhs: u64, rhs: u64) -> Option<u64> {
    match event_at(log, at) {
        Some(HostEvent::Arithmetic { op: o, lhs: a, rhs: b, answer }) => if o == op && a == lhs && b
            == rhs {
            Some(answer)
        } else {
            None
        },
        _ => None,
    }
}

/// A comparison of two numbers by `op`, or the type error for operands
/// that are not two numbers.
pub open spec fn compare_spec(l: SpecValue, r: SpecValue, op: Op) -> Result<SpecValue, SpecRuntimeError> {
    match (l, r) {
        (ValueOf::Number(a), ValueOf::Number(b)) => Ok(
            ValueOf::Bool(
                match op {
                    Op::LessThan => num_lt(a, b),
                    Op::LessThanEqual => num_le(a, b),
                    Op::GreaterThan => num_lt(b, a),
                    _ => num_le(b, a),
                },
            ),
        ),
        _ => Err(type_error(numbers_needed_text())),
    }
}

/// A binary operator applied to two values, the host answering at index
/// `at` where the operator is arithmetic on two numbers: the result and the
/// index of the next event.
pub open spec fn binary_spec(op: Op, l: SpecValue, r: SpecValue, log: Seq<HostEvent>, at: nat) -> Option<
    (Result<SpecValue, SpecRuntimeError>, nat),
> {
    match op {
        Op::Equal => Some((Ok(ValueOf::Bool(values_equal(l, r))), at)),
        Op::NotEqual => Some((Ok(ValueOf::Bool(!values_equal(l, r))), at)),
        Op::LessThan | Op::LessThanEqual | Op::GreaterThan | Op::GreaterThanEqual => Some(
            (compare_spec(l, r, op), at),
        ),
        Op::Add | Op::Sub | Op::Mul | Op::Div => match (l, r) {
            (ValueOf::Number(a), ValueOf::Number(b)) => if op == Op::Div && is_zero(b) {
                Some((Err(RuntimeErrorOf::DivisionByZero), at))
            } else {
                match arithmetic_answer(log, at, op, a, b) {
                    Some(n) => Some((Ok(ValueOf::Number(n)), at + 1)),
                    None => None,
                }
            },
            (ValueOf::String(a), ValueOf::String(b)) => if op == Op::Add {
                Some((Ok(ValueOf::String(a + b)), at))
            } else {
                Some((Err(type_error(numbers_needed_text())), at))
            },
            _ => if op == Op::Add {
                Some((Err(type_error(same_kind_needed_text())), at))
            } else {
                Some((Err(type_error(numbers_needed_text())), at))
            },
        },
        _ => Some(
            (
                Err(
                    RuntimeErrorOf::InvalidOperator {
                        msg: "'"@ + op_text(op) + "' is not a valid binary operator"@,
                    },
                ),
                at,
            ),
        ),
    }
}

/// How a value that is not a number prints.
pub open spec fn display_text(functions: Seq<FunView>, v: SpecValue) -> Seq<char> {
    match v {
        ValueOf::String(s) => s,
        ValueOf::Bool(b) => if b {
            "true"@
        } else {
            "false"@
        },
        ValueOf::Nil => "nil"@,
        ValueOf::Function(i) => "<fn "@ + (if i < functions.len() {
            functions[i as int].name
        } else {
            Seq::empty()
        }) + ">"@,
        ValueOf::NativeFunction(k) => "<fn "@ + (if k < NATIVE_COUNT {
            native_name(k as int)
        } else {
            Seq::empty()
        }) + ">"@,
        ValueOf::Number(_) => Seq::empty(),
    }
}

/// How a value prints: a number as the host `H` prints it.
pub open spec fn display_value<H: Host>(functions: Seq<FunView>, v: SpecValue) -> Seq<char> {
    match v {
        ValueOf::Number(n) => H::number_text_value(n)@,
        _ => display_text(functions, v),
    }
}

/// How a value prints, the host answering at index `at` for a number: the
/// text and the index of the next event.
pub open spec fn display_spec(functions: Seq<FunView>, v: SpecValue, log: Seq<HostEvent>, at: nat) -> Option<
    (Seq<char>, nat),
> {
    match v {
        ValueOf::Number(n) => match event_at(log, at) {
            Some(HostEvent::NumberText { n: m, answer }) => if m == n {
                Some((answer, at + 1))
            } else {
                None
            },
            _ => None,
        },
        _ => Some((display_text(functions, v), at)),
    }
}

/// The name of the kind of a value, as `type_of` gives it.
pub open spec fn kind_name(v: SpecValue) -> Seq<char> {
    match v {
        ValueOf::Number(_) => "number"@,
        ValueOf::String(_) => "string"@,
        ValueOf::Bool(_) => "bool"@,
        ValueOf::Nil => "nil"@,
        ValueOf::Function(_) => "fun"@,
        ValueOf::NativeFunction(_) => "native_fun"@,
    }
}

/// The host function that the built-in with index `k` (one to five) asks
/// for.
pub open spec fn math_fn(k: int) -> MathFn {
    if k == 1 {
        MathFn::Sqrt
    } else if k == 2 {
        MathFn::Floor
    } else if k == 3 {
        MathFn::Ceil
    } else if k == 4 {
        MathFn::Abs
    } else {
        MathFn::Pow
    }
}

/// The built-in function with index `k` applied to `args`, as many as it
/// takes, the host answering from index `at`: the result and the index of
/// the next event.
pub open spec fn native_spec(
    functions: Seq<FunView>,
    k: int,
    args: Seq<SpecValue>,
    log: Seq<HostEvent>,
    at: nat,
) -> Option<(Result<SpecValue, SpecRuntimeError>, nat)> {
    let expected_number = type_error("expected a number"@);
    let expected_path = type_error("expected string path"@);
    if k == 0 {
        match event_at(log, at) {
            Some(HostEvent::Clock { answer }) => Some((Ok(ValueOf::Number(answer)), at + 1)),
            _ => None,
        }
    } else if k <= 5 {
        match args[0] {
            ValueOf::Number(x) => {
                let y = if k == 5 {
                    match args[1] {
                        ValueOf::Number(y) => Some(y),
                        _ => None,
                    }
                } else {
                    Some(0u64)
                };
                match y {
                    Some(y) => match event_at(log, at) {
                        Some(HostEvent::Math { f, x: a, y: b, answer }) => if f == math_fn(k) && a
                            == x && b == y {
                            Some((Ok(ValueOf::Number(answer)), at + 1))
                        } else {
                            None
                        },
                        _ => None,
                    },
                    None => Some((Err(expected_number), at)),
                }
            },
            _ => Some((Err(expected_number), at)),
        }
    } else if k == 6 {
        Some((Ok(ValueOf::String(kind_name(args[0]))), at))
    } else if k == 7 {
        match display_spec(functions, args[0], log, at) {
            Some((text, next)) => Some((Ok(ValueOf::String(text)), next)),
            None => None,
        }
    } else if k == 8 {
        match args[0] {
            ValueOf::Number(n) => Some((Ok(ValueOf::Number(n)), at)),
            ValueOf::String(s) => match event_at(log, at) {
                Some(HostEvent::ParseNumber { text, answer }) => if text@ == s {
                    match answer {
                        Some(n) => Some((Ok(ValueOf::Number(n)), at + 1)),
                        None => Some((Ok(ValueOf::Nil), at + 1)),
                    }
                } else {
                    None
                },
                _ => None,
            },
            _ => Some((Ok(ValueOf::Nil), at)),
        }
    } else if k == 9 {
        match args[0] {
            ValueOf::String(s) => match event_at(log, at) {
                Some(HostEvent::Count { text, len, answer }) => if text == s && len
                    == encode_utf8(s).len() as usize {
                    Some((Ok(ValueOf::Number(answer)), at + 1))
                } else {
                    None
                },
                _ => None,
            },
            _ => Some((Err(type_error("expected string"@)), at)),
        }
    } else if k == 10 {
        match args[0] {
            ValueOf::String(path) => match event_at(log, at) {
                Some(HostEvent::ReadFile { path: p, answer }) => if p == path {
                    match answer {
                        Ok(contents) => Some((Ok(ValueOf::String(contents)), at + 1)),
                        Err(_) => Some((Ok(ValueOf::Nil), at + 1)),
                    }
                } else {
                    None
                },
                _ => None,
            },
            _ => Some((Err(expected_path), at)),
        }
    } else {
        match (args[0], args[1]) {
            (ValueOf::String(path), ValueOf::String(content)) => if k == 11 {
                match event_at(log, at) {
                    Some(HostEvent::WriteFile { path: p, content: c, answer }) => if p == path && c
                        == content {
                        Some((Ok(ValueOf::Bool(answer is Ok)), at + 1))
                    } else {
                        None
                    },
                    _ => None,
                }
            } else {
                match event_at(log, at) {
                    Some(HostEvent::AppendFile { path: p, content: c, answer }) => if p == path
                        && c == content {
                        Some((Ok(ValueOf::Bool(answer)), at + 1))
                    } else {
                        None
                    },
                    _ => None,
                }
            },
            _ => Some((Err(expected_path), at)),
        }
    }
}

/// The environments after binding the first `n` parameters to the first
/// `n` arguments in environment `frame`.
pub open spec fn bind_params(
    frames: Seq<FrameView<SpecValue>>,
    frame: int,
    params: Seq<String>,
    args: Seq<SpecValue>,
    n: nat,
) -> Seq<FrameView<SpecValue>>
    decreases n,
{
    if n == 0 {
        frames
    } else {
        frames_put(
            bind_params(frames, frame, params, args, (n - 1) as nat),
            frame,
            params[n - 1]@,
            args[n - 1],
        )
    }
}

/// What a call gives back, from how its body ended: `nil` where the body
/// ran to its end, the value of a `return`, or the error.
pub open spec fn call_result(r: Result<(), SpecRuntimeError>) -> Result<SpecValue, SpecRuntimeError> {
    match r {
        Ok(()) => Ok(ValueOf::Nil),
        Err(RuntimeErrorOf::Unwind(UnwindOf::Return(v))) => Ok(v),
        Err(e) => Err(e),
    }
}

/// Evaluating `e` in state `st`, the host answering from index `at` of
/// `log`.
pub open spec fn eval_spec(
    locals: Map<usize, usize>,
    st: IState,
    e: Expr,
    log: Seq<HostEvent>,
    at: nat,
) -> Outcome<SpecValue>
    decreases st.fuel, 0int, 0int,
{
    if st.fuel == 0 {
        Some((Err(RuntimeErrorOf::LimitReached), st, at))
    } else {
        let s = spend(st);
        match e {
            Expr::Literal(lit) => match lit {
                Lit::Number(text) => match event_at(log, at) {
                    Some(HostEvent::NumberLiteral { text: t, answer }) => if t == text {
                        Some((Ok(ValueOf::Number(answer)), s, at + 1))
                    } else {
                        None
                    },
                    _ => None,
                },
                Lit::String(x) => Some((Ok(ValueOf::String(x@)), s, at)),
                Lit::Bool(b) => Some((Ok(ValueOf::Bool(b)), s, at)),
                Lit::Nil => Some((Ok(ValueOf::Nil), s, at)),
            },
            Expr::Logical { left, op, right } => match eval_spec(locals, s, *left, log, at) {
                Some((Ok(l), s1, at1)) => if (op == Op::And && !truthy(l)) || (op != Op::And
                    && truthy(l)) {
                    Some((Ok(l), s1, at1))
                } else if s1.fuel < st.fuel {
                    eval_spec(locals, s1, *right, log, at1)
                } else {
                    None
                },
                other => other,
            },
            Expr::Grouping(inner) => eval_spec(locals, s, *inner, log, at),
            Expr::Unary { op, right } => match eval_spec(locals, s, *right, log, at) {
                Some((Ok(v), s1, at1)) => Some((unary_spec(op, v), s1, at1)),
                other => other,
            },
            Expr::Binary { op, right, left } => match eval_spec(locals, s, *left, log, at) {
                Some((Ok(l), s1, at1)) => if s1.fuel < st.fuel {
                    match eval_spec(locals, s1, *right, log, at1) {
                        Some((Ok(r), s2, at2)) => match binary_spec(op, l, r, log, at2) {
                            Some((res, at3)) => Some((res, s2, at3)),
                            None => None,
                        },
                        other => other,
                    }
                } else {
                    None
                },
                other => other,
            },
            Expr::Variable { name, id } => Some(
                (read_var_spec(s.frames, s.current, locals, id, name@), s, at),
            ),
            Expr::Assign { name, id, value } => match eval_spec(locals, s, *value, log, at) {
                Some((Ok(v), s1, at1)) => {
                    let (res, frames) = assign_spec(s1.frames, s1.current, locals, id, name@, v);
                    Some((res, with_frames(s1, frames), at1))
                },
                other => other,
            },
            Expr::Call { callee, paren, arguments } => match eval_spec(
                locals,
                s,
                *callee,
                log,
                at,
            ) {
                Some((Ok(c), s1, at1)) => if s1.fuel < st.fuel {
                    match args_spec(locals, s1, arguments@, 0, log, at1) {
                        Some((Ok(args), s2, at2)) => if s2.fuel < st.fuel {
                            call_value_spec(locals, s2, c, args, paren.pos, log, at2)
                        } else {
                            None
                        },
                        Some((Err(x), s2, at2)) => Some((Err(x), s2, at2)),
                        None => None,
                    }
                } else {
                    None
                },
                other => other,
            },
        }
    }
}

/// Evaluating the expressions `es` from the one with index `k` on, in
/// order, up to the first error.
pub open spec fn args_spec(
    locals: Map<usize, usize>,
    st: IState,
    es: Seq<Expr>,
    k: int,
    log: Seq<HostEvent>,
    at: nat,
) -> Outcome<Seq<SpecValue>>
    decreases st.fuel, 1int, es.len() - k,
{
    if k < 0 || k >= es.len() {
        Some((Ok(Seq::empty()), st, at))
    } else {
        match eval_spec(locals, st, es[k], log, at) {
            Some((Ok(v), s1, at1)) => if s1.fuel <= st.fuel {
                match args_spec(locals, s1, es, k + 1, log, at1) {
                    Some((Ok(vs), s2, at2)) => Some((Ok(seq![v] + vs), s2, at2)),
                    Some((Err(x), s2, at2)) => Some((Err(x), s2, at2)),
                    None => None,
                }
            } else {
                None
            },
            Some((Err(x), s1, at1)) => Some((Err(x), s1, at1)),
            None => None,
        }
    }
}

/// Calling the value `c` on `args`, at the call's position `pos`.
pub open spec fn call_value_spec(
    locals: Map<usize, usize>,
    st: IState,
    c: SpecValue,
    args: Seq<SpecValue>,
    pos: (usize, usize),
    log: Seq<HostEvent>,
    at: nat,
) -> Outcome<SpecValue>
    decreases st.fuel, 3int, 0int,
{
    match c {
        ValueOf::Function(f) => call_spec(locals, st, f, args, pos, log, at),
        ValueOf::NativeFunction(k) => if k >= NATIVE_COUNT {
            Some((Err(RuntimeErrorOf::NotCallable(pos)), st, at))
        } else if args.len() != native_arity(k as int) {
            Some(
                (
                    Err(
                        RuntimeErrorOf::ArityMismatch {
                            expected: native_arity(k as int) as usize,
                            got: args.len() as usize,
                        },
                    ),
                    st,
                    at,
                ),
            )
        } else {
            match native_spec(st.functions, k as int, args, log, at) {
                Some((r, at1)) => Some((r, st, at1)),
                None => None,
            }
        },
        _ => Some((Err(RuntimeErrorOf::NotCallable(pos)), st, at)),
    }
}

/// Calling the declared function with index `f` on `args`: its body runs
/// in a new environment, enclosed in the one the function was declared in,
/// that binds its parameters to the arguments.
pub open spec fn call_spec(
    locals: Map<usize, usize>,
    st: IState,
    f: usize,
    args: Seq<SpecValue>,
    pos: (usize, usize),
    log: Seq<HostEvent>,
    at: nat,
) -> Outcome<SpecValue>
    decreases st.fuel, 2int, 0int,
{
    if f >= st.functions.len() {
        Some((Err(RuntimeErrorOf::NotCallable(pos)), st, at))
    } else {
        let fun = st.functions[f as int];
        if args.len() != fun.params.len() {
            Some(
                (
                    Err(
                        RuntimeErrorOf::ArityMismatch {
                            expected: fun.params.len() as usize,
                            got: args.len() as usize,
                        },
                    ),
                    st,
                    at,
                ),
            )
        } else if st.frames.len() >= usize::MAX - 1 {
            Some((Err(RuntimeErrorOf::LimitReached), st, at))
        } else {
            let frame = st.frames.len() as int;
            let frames = bind_params(
                st.frames.push(FrameView { vars: Seq::empty(), parent: Some(fun.closure) }),
                frame,
                fun.params,
                args,
                args.len(),
            );
            let s1 = IState { frames, current: frame, functions: st.functions, fuel: st.fuel };
            match block_spec(locals, s1, fun.body, 0, log, at) {
                Some((r, s2, at2)) => Some((call_result(r), with_current(s2, st.current), at2)),
                None => None,
            }
        }
    }
}

/// Running the statements `stmts` from the one with index `k` on, in
/// order, up to the first error.
pub open spec fn block_spec(
    locals: Map<usize, usize>,
    st: IState,
    stmts: Seq<Stmt>,
    k: int,
    log: Seq<HostEvent>,
    at: nat,
) -> Outcome<()>
    decreases st.fuel, 1int, stmts.len() - k,
{
    if k < 0 || k >= stmts.len() {
        Some((Ok(()), st, at))
    } else {
        match exec_spec(locals, st, stmts[k], log, at) {
            Some((Ok(()), s1, at1)) => if s1.fuel <= st.fuel {
                block_spec(locals, s1, stmts, k + 1, log, at1)
            } else {
                None
            },
            other => other,
        }
    }
}

/// Running a `while` loop: the body, for as long as the condition holds.
pub open spec fn while_spec(
    locals: Map<usize, usize>,
    st: IState,
    condition: Expr,
    body: Stmt,
    log: Seq<HostEvent>,
    at: nat,
) -> Outcome<()>
    decreases st.fuel, 1int, 0int,
{
    match eval_spec(locals, st, condition, log, at) {
        Some((Ok(c), s1, at1)) => if !truthy(c) {
            Some((Ok(()), s1, at1))
        } else if s1.fuel < st.fuel {
            match exec_spec(locals, s1, body, log, at1) {
                Some((Ok(()), s2, at2)) => if s2.fuel < st.fuel {
                    while_spec(locals, s2, condition, body, log, at2)
                } else {
                    None
                },
                other => other,
            }
        } else {
            None
        },
        Some((Err(x), s1, at1)) => Some((Err(x), s1, at1)),
        None => None,
    }
}

/// Running the statement `stmt` in state `st`, the host answering from
/// index `at` of `log`.
pub open spec fn exec_spec(
    locals: Map<usize, usize>,
    st: IState,
    stmt: Stmt,
    log: Seq<HostEvent>,
    at: nat,
) -> Outcome<()>
    decreases st.fuel, 0int, 0int,
{
    if st.fuel == 0 {
        Some((Err(RuntimeErrorOf::LimitReached), st, at))
    } else {
        let s = spend(st);
        match stmt {
            Stmt::Print(e) => match eval_spec(locals, s, e, log, at) {
                Some((Ok(v), s1, at1)) => match display_spec(s1.functions, v, log, at1) {
                    Some((text, at2)) => match event_at(log, at2) {
                        Some(HostEvent::Print { text: t }) => if t == text {
                            Some((Ok(()), s1, at2 + 1))
                        } else {
                            None
                        },
                        _ => None,
                    },
                    None => None,
                },
                Some((Err(x), s1, at1)) => Some((Err(x), s1, at1)),
                None => None,
            },
            Stmt::Expression(e) => match eval_spec(locals, s, e, log, at) {
                Some((Ok(_), s1, at1)) => Some((Ok(()), s1, at1)),
                Some((Err(x), s1, at1)) => Some((Err(x), s1, at1)),
                None => None,
            },
            Stmt::Var { name, initializer } => match initializer {
                Some(e) => match eval_spec(locals, s, e, log, at) {
                    Some((Ok(v), s1, at1)) => Some(
                        (
                            Ok(()),
                            with_frames(s1, frames_put(s1.frames, s1.current, name@, v)),
                            at1,
                        ),
                    ),
                    Some((Err(x), s1, at1)) => Some((Err(x), s1, at1)),
                    None => None,
                },
                None => Some(
                    (Ok(()), with_frames(s, frames_put(s.frames, s.current, name@, ValueOf::Nil)), at),
                ),
            },
            Stmt::Block(stmts) => if s.frames.len() >= usize::MAX - 1 {
                Some((Err(RuntimeErrorOf::LimitReached), s, at))
            } else {
                let inner = IState {
                    frames: s.frames.push(
                        FrameView { vars: Seq::empty(), parent: Some(s.current as usize) },
                    ),
                    current: s.frames.len() as int,
                    functions: s.functions,
                    fuel: s.fuel,
                };
                match block_spec(locals, inner, stmts@, 0, log, at) {
                    Some((r, s1, at1)) => Some((r, with_current(s1, s.current), at1)),
                    None => None,
                }
            },
            Stmt::If { condition, then_branch, else_branch } => match eval_spec(
                locals,
                s,
                condition,
                log,
                at,
            ) {
                Some((Ok(c), s1, at1)) => if s1.fuel < st.fuel {
                    if truthy(c) {
                        exec_spec(locals, s1, *then_branch, log, at1)
                    } else {
                        match else_branch {
                            Some(b) => exec_spec(locals, s1, *b, log, at1),
                            None => Some((Ok(()), s1, at1)),
                        }
                    }
                } else {
                    None
                },
                Some((Err(x), s1, at1)) => Some((Err(x), s1, at1)),
                None => None,
            },
            Stmt::While { condition, body } => while_spec(locals, s, condition, *body, log, at),
            Stmt::Function { name, params, body } => {
                let f = s.functions.len();
                let fun = FunView { name: name@, params: params@, body: body@, closure: s.current as usize };
                Some(
                    (
                        Ok(()),
                        IState {
                            frames: frames_put(s.frames, s.current, name@, ValueOf::Function(f as usize)),
                            current: s.current,
                            functions: s.functions.push(fun),
                            fuel: s.fuel,
                        },
                        at,
                    ),
                )
            },
            Stmt::Return { value } => match value {
                Some(e) => match eval_spec(locals, s, e, log, at) {
                    Some((Ok(v), s1, at1)) => Some(
                        (Err(RuntimeErrorOf::Unwind(UnwindOf::Return(v))), s1, at1),
                    ),
                    Some((Err(x), s1, at1)) => Some((Err(x), s1, at1)),
                    None => None,
                },
                None => Some((Err(RuntimeErrorOf::Unwind(UnwindOf::Return(ValueOf::Nil))), s, at)),
            },
        }
    }
}

/// Evaluating `e` from `st`, the host answering from index `at`, gives
/// `r`, the state `st2` and the next index `at2`, whatever the events after
/// those that `base` records.
pub open spec fn eval_gives(
    locals: Map<usize, usize>,
    st: IState,
    e: Expr,
    at: nat,
    r: Result<SpecValue, SpecRuntimeError>,
    st2: IState,
    at2: nat,
    base: Seq<HostEvent>,
) -> bool {
    forall|full: Seq<HostEvent>|
        log_extends(full, base) ==> #[trigger] eval_spec(locals, st, e, full, at) == Some(
            (r, st2, at2),
        )
}

/// Evaluating `es` from index `k` on gives `r`, `st2` and `at2`, whatever
/// the events after those that `base` records.
pub open spec fn args_gives(
    locals: Map<usize, usize>,
    st: IState,
    es: Seq<Expr>,
    k: int,
    at: nat,
    r: Result<Seq<SpecValue>, SpecRuntimeError>,
    st2: IState,
    at2: nat,
    base: Seq<HostEvent>,
) -> bool {
    forall|full: Seq<HostEvent>|
        log_extends(full, base) ==> #[trigger] args_spec(locals, st, es, k, full, at) == Some(
            (r, st2, at2),
        )
}

/// Running `stmt` from `st` gives `r`, `st2` and `at2`, whatever the events
/// after those that `base` records.
pub open spec fn exec_gives(
    locals: Map<usize, usize>,
    st: IState,
    stmt: Stmt,
    at: nat,
    r: Result<(), SpecRuntimeError>,
    st2: IState,
    at2: nat,
    base: Seq<HostEvent>,
) -> bool {
    forall|full: Seq<HostEvent>|
        log_extends(full, base) ==> #[trigger] exec_spec(locals, st, stmt, full, at) == Some(
            (r, st2, at2),
        )
}

/// Running `stmts` from index `k` on gives `r`, `st2` and `at2`, whatever
/// the events after those that `base` records.
pub open spec fn block_gives(
    locals: Map<usize, usize>,
    st: IState,
    stmts: Seq<Stmt>,
    k: int,
    at: nat,
    r: Result<(), SpecRuntimeError>,
    st2: IState,
    at2: nat,
    base: Seq<HostEvent>,
) -> bool {
    forall|full: Seq<HostEvent>|
        log_extends(full, base) ==> #[trigger] block_spec(locals, st, stmts, k, full, at) == Some(
            (r, st2, at2),
        )
}

/// Running the loop `while condition body` gives `r`, `st2` and `at2`,
/// whatever the events after those that `base` records.
pub open spec fn while_gives(
    locals: Map<usize, usize>,
    st: IState,
    condition: Expr,
    body: Stmt,
    at: nat,
    r: Result<(), SpecRuntimeError>,
    st2: IState,
    at2: nat,
    base: Seq<HostEvent>,
) -> bool {
    forall|full: Seq<HostEvent>|
        log_extends(full, base) ==> #[trigger] while_spec(locals, st, condition, body, full, at)
            == Some((r, st2, at2))
}

/// Calling the declared function `f` on `args` gives `r`, `st2` and `at2`,
/// whatever the events after those that `base` records.
pub open spec fn call_gives(
    locals: Map<usize, usize>,
    st: IState,
    f: usize,
    args: Seq<SpecValue>,
    pos: (usize, usize),
    at: nat,
    r: Result<SpecValue, SpecRuntimeError>,
    st2: IState,
    at2: nat,
    base: Seq<HostEvent>,
) -> bool {
    forall|full: Seq<HostEvent>|
        log_extends(full, base) ==> #[trigger] call_spec(locals, st, f, args, pos, full, at) == Some(
            (r, st2, at2),
        )
}

/// Law: `and` and `or` short-circuit. Where the left operand of `and` is
/// false (or that of `or` true), the expression's value is the left
/// operand's, and the right operand is not evaluated: nothing more is asked
/// of the host and the state is the one the left operand left.
pub proof fn law_short_circuit(
    locals: Map<usize, usize>,
    st: IState,
    left: Expr,
    op: Op,
    right: Expr,
    log: Seq<HostEvent>,
    at: nat,
    l: SpecValue,
    s1: IState,
    at1: nat,
)
    requires
        st.fuel > 0,
        eval_spec(locals, spend(st), left, log, at) == Some(
            (Ok::<SpecValue, SpecRuntimeError>(l), s1, at1),
        ),
        (op == Op::And && !truthy(l)) || (op == Op::Or && truthy(l)),
    ensures
        eval_spec(
            locals,
            st,
            Expr::Logical { left: Box::new(left), op, right: Box::new(right) },
            log,
            at,
        ) == Some((Ok::<SpecValue, SpecRuntimeError>(l), s1, at1)),
{
}

/// Law: where the record holds the host's own answers, arithmetic on two
/// numbers gives the host's result for them.
pub proof fn law_arithmetic_is_the_hosts<H: Host>(
    op: Op,
    a: u64,
    b: u64,
    log: Seq<HostEvent>,
    at: nat,
)
    requires
        answers_agree::<H>(log),
        op == Op::Add || op == Op::Sub || op == Op::Mul || op == Op::Div,
        !(op == Op::Div && is_zero(b)),
        binary_spec(op, ValueOf::Number(a), ValueOf::Number(b), log, at) is Some,
    ensures
        binary_spec(op, ValueOf::Number(a), ValueOf::Number(b), log, at) == Some(
            (
                Ok::<SpecValue, SpecRuntimeError>(ValueOf::Number(H::arithmetic_value(op, a, b))),
                at + 1,
            ),
        ),
{
    assert(event_agrees::<H>(log[at as int]));
}

/// Law: where the record holds the host's own answers, a value prints as
/// `display_value` says: a number as the host prints it.
pub proof fn law_display_is_the_hosts<H: Host>(
    functions: Seq<FunView>,
    v: SpecValue,
    log: Seq<HostEvent>,
    at: nat,
)
    requires
        answers_agree::<H>(log),
        display_spec(functions, v, log, at) is Some,
    ensures
        (display_spec(functions, v, log, at)->0).0 == display_value::<H>(functions, v),
{
    if v is Number {
        assert(event_agrees::<H>(log[at as int]));
    }
}

/// Law: where the record holds the host's own answers, a number literal
/// stands for the number the host reads in its text.
pub proof fn law_literal_is_the_hosts<H: Host>(
    locals: Map<usize, usize>,
    st: IState,
    text: String,
    log: Seq<HostEvent>,
    at: nat,
)
    requires
        st.fuel > 0,
        answers_agree::<H>(log),
        eval_spec(locals, st, Expr::Literal(Lit::Number(text)), log, at) is Some,
    ensures
        eval_spec(locals, st, Expr::Literal(Lit::Number(text)), log, at) == Some(
            (
                Ok::<SpecValue, SpecRuntimeError>(ValueOf::Number(H::literal_value(&text))),
                spend(st),
                at + 1,
            ),
        ),
{
    assert(event_agrees::<H>(log[at as int]));
}

/// Evaluating never adds steps: the state it ends in has no more fuel than
/// the one it started from.
proof fn lemma_eval_fuel(locals: Map<usize, usize>, st: IState, e: Expr, log: Seq<HostEvent>, at: nat)
    ensures
        eval_spec(locals, st, e, log, at) matches Some((_, s2, _)) ==> s2.fuel <= st.fuel,
        eval_spec(locals, st, e, log, at) matches Some((Ok(_), s2, _)) ==> s2.fuel < st.fuel,
    decreases st.fuel, 0int, 0int,
{
    if st.fuel > 0 {
        let s = spend(st);
        match e {
            Expr::Logical { left, op, right } => {
                lemma_eval_fuel(locals, s, *left, log, at);
                match eval_spec(locals, s, *left, log, at) {
                    Some((Ok(l), s1, at1)) => if s1.fuel < st.fuel {
                        lemma_eval_fuel(locals, s1, *right, log, at1);
                    },
                    _ => {},
                }
            },
            Expr::Grouping(inner) => lemma_eval_fuel(locals, s, *inner, log, at),
            Expr::Unary { op, right } => lemma_eval_fuel(locals, s, *right, log, at),
            Expr::Binary { op, right, left } => {
                lemma_eval_fuel(locals, s, *left, log, at);
                match eval_spec(locals, s, *left, log, at) {
                    Some((Ok(l), s1, at1)) => if s1.fuel < st.fuel {
                        lemma_eval_fuel(locals, s1, *right, log, at1);
                    },
                    _ => {},
                }
            },
            Expr::Assign { name, id, value } => lemma_eval_fuel(locals, s, *value, log, at),
            Expr::Call { callee, paren, arguments } => {
                lemma_eval_fuel(locals, s, *callee, log, at);
                match eval_spec(locals, s, *callee, log, at) {
                    Some((Ok(c), s1, at1)) => if s1.fuel < st.fuel {
                        lemma_args_fuel(locals, s1, arguments@, 0, log, at1);
                        match args_spec(locals, s1, arguments@, 0, log, at1) {
                            Some((Ok(args), s2, at2)) => if s2.fuel < st.fuel {
                                lemma_call_value_fuel(locals, s2, c, args, paren.pos, log, at2);
                            },
                            _ => {},
                        }
                    },
                    _ => {},
                }
            },
            _ => {},
        }
    }
}

/// Evaluating arguments never adds steps.
proof fn lemma_args_fuel(
    locals: Map<usize, usize>,
    st: IState,
    es: Seq<Expr>,
    k: int,
    log: Seq<HostEvent>,
    at: nat,
)
    ensures
        args_spec(locals, st, es, k, log, at) matches Some((_, s2, _)) ==> s2.fuel <= st.fuel,
    decreases st.fuel, 1int, es.len() - k,
{
    if 0 <= k < es.len() {
        lemma_eval_fuel(locals, st, es[k], log, at);
        match eval_spec(locals, st, es[k], log, at) {
            Some((Ok(v), s1, at1)) => if s1.fuel <= st.fuel {
                lemma_args_fuel(locals, s1, es, k + 1, log, at1);
            },
            _ => {},
        }
    }
}

/// Calling a value never adds steps.
proof fn lemma_call_value_fuel(
    locals: Map<usize, usize>,
    st: IState,
    c: SpecValue,
    args: Seq<SpecValue>,
    pos: (usize, usize),
    log: Seq<HostEvent>,
    at: nat,
)
    ensures
        call_value_spec(locals, st, c, args, pos, log, at) matches Some((_, s2, _)) ==> s2.fuel
            <= st.fuel,
    decreases st.fuel, 3int, 0int,
{
    if let ValueOf::Function(f) = c {
        lemma_call_fuel(locals, st, f, args, pos, log, at);
    }
}

/// Calling a declared function never adds steps.
proof fn lemma_call_fuel(
    locals: Map<usize, usize>,
    st: IState,
    f: usize,
    args: Seq<SpecValue>,
    pos: (usize, usize),
    log: Seq<HostEvent>,
    at: nat,
)
    ensures
        call_spec(locals, st, f, args, pos, log, at) matches Some((_, s2, _)) ==> s2.fuel
            <= st.fuel,
    decreases st.fuel, 2int, 0int,
{
    if f < st.functions.len() {
        let fun = st.functions[f as int];
        if args.len() == fun.params.len() && st.frames.len() < usize::MAX - 1 {
            let frame = st.frames.len() as int;
            let frames = bind_params(
                st.frames.push(FrameView { vars: Seq::empty(), parent: Some(fun.closure) }),
                frame,
                fun.params,
                args,
                args.len(),
            );
            let s1 = IState { frames, current: frame, functions: st.functions, fuel: st.fuel };
            lemma_block_fuel(locals, s1, fun.body, 0, log, at);
        }
    }
}

/// Running statements never adds steps.
proof fn lemma_block_fuel(
    locals: Map<usize, usize>,
    st: IState,
    stmts: Seq<Stmt>,
    k: int,
    log: Seq<HostEvent>,
    at: nat,
)
    ensures
        block_spec(locals, st, stmts, k, log, at) matches Some((_, s2, _)) ==> s2.fuel <= st.fuel,
    decreases st.fuel, 1int, stmts.len() - k,
{
    if 0 <= k < stmts.len() {
        lemma_exec_fuel(locals, st, stmts[k], log, at);
        match exec_spec(locals, st, stmts[k], log, at) {
            Some((Ok(()), s1, at1)) => if s1.fuel <= st.fuel {
                lemma_block_fuel(locals, s1, stmts, k + 1, log, at1);
            },
            _ => {},
        }
    }
}

/// Running a loop never adds steps.
proof fn lemma_while_fuel(
    locals: Map<usize, usize>,
    st: IState,
    condition: Expr,
    body: Stmt,
    log: Seq<HostEvent>,
    at: nat,
)
    ensures
        while_spec(locals, st, condition, body, log, at) matches Some((_, s2, _)) ==> s2.fuel
            <= st.fuel,
    decreases st.fuel, 1int, 0int,
{
    lemma_eval_fuel(locals, st, condition, log, at);
    match eval_spec(locals, st, condition, log, at) {
        Some((Ok(c), s1, at1)) => if truthy(c) && s1.fuel < st.fuel {
            lemma_exec_fuel(locals, s1, body, log, at1);
            match exec_spec(locals, s1, body, log, at1) {
                Some((Ok(()), s2, at2)) => if s2.fuel < st.fuel {
                    lemma_while_fuel(locals, s2, condition, body, log, at2);
                },
                _ => {},
            }
        },
        _ => {},
    }
}

/// Running a statement never adds steps.
proof fn lemma_exec_fuel(locals: Map<usize, usize>, st: IState, stmt: Stmt, log: Seq<HostEvent>, at: nat)
    ensures
        exec_spec(locals, st, stmt, log, at) matches Some((_, s2, _)) ==> s2.fuel <= st.fuel,
    decreases st.fuel, 0int, 0int,
{
    if st.fuel > 0 {
        let s = spend(st);
        match stmt {
            Stmt::Print(e) => lemma_eval_fuel(locals, s, e, log, at),
            Stmt::Expression(e) => lemma_eval_fuel(locals, s, e, log, at),
            Stmt::Var { name, initializer } => match initializer {
                Some(e) => lemma_eval_fuel(locals, s, e, log, at),
                None => {},
            },
            Stmt::Block(stmts) => if s.frames.len() < usize::MAX - 1 {
                let inner = IState {
                    frames: s.frames.push(
                        FrameView { vars: Seq::empty(), parent: Some(s.current as usize) },
                    ),
                    current: s.frames.len() as int,
                    functions: s.functions,
                    fuel: s.fuel,
                };
                lemma_block_fuel(locals, inner, stmts@, 0, log, at);
            },
            Stmt::If { condition, then_branch, else_branch } => {
                lemma_eval_fuel(locals, s, condition, log, at);
                match eval_spec(locals, s, condition, log, at) {
                    Some((Ok(c), s1, at1)) => if s1.fuel < st.fuel {
                        if truthy(c) {
                            lemma_exec_fuel(locals, s1, *then_branch, log, at1);
                        } else {
                            match else_branch {
                                Some(b) => lemma_exec_fuel(locals, s1, *b, log, at1),
                                None => {},
                            }
                        }
                    },
                    _ => {},
                }
            },
            Stmt::While { condition, body } => lemma_while_fuel(locals, s, condition, *body, log, at),
            Stmt::Return { value } => match value {
                Some(e) => lemma_eval_fuel(locals, s, e, log, at),
                None => {},
            },
            _ => {},
        }
    }
}

/// Binding one name leaves the value of every other name as it was.
proof fn lemma_vars_get_put_other(
    vars: VarsView<SpecValue>,
    name: Seq<char>,
    value: SpecValue,
    other: Seq<char>,
)
    requires
        other != name,
    ensures
        vars_get(vars_put(vars, name, value), other) == vars_get(vars, other),
{
    lemma_last_index_put_other(vars, name, value, other);
    lemma_last_index(vars, name);
    lemma_last_index(vars, other);
}

/// Binding the first `n` parameters: the environments keep their number,
/// and each of those parameters holds its argument.
proof fn lemma_bind_params(
    frames: Seq<FrameView<SpecValue>>,
    frame: int,
    params: Seq<String>,
    args: Seq<SpecValue>,
    n: nat,
)
    requires
        0 <= frame < frames.len(),
        n <= params.len(),
        n <= args.len(),
        forall|j: int, k: int|
            0 <= j < params.len() && 0 <= k < params.len() && j != k ==> params[j]@ != params[k]@,
    ensures
        bind_params(frames, frame, params, args, n).len() == frames.len(),
        forall|i: int|
            0 <= i < n ==> vars_get(
                #[trigger] bind_params(frames, frame, params, args, n)[frame].vars,
                params[i]@,
            ) == Some(args[i]),
    decreases n,
{
    if n > 0 {
        let m = (n - 1) as nat;
        lemma_bind_params(frames, frame, params, args, m);
        let before = bind_params(frames, frame, params, args, m);
        let vars = before[frame].vars;
        lemma_vars_get_put(vars, params[m as int]@, args[m as int]);
        assert forall|i: int| 0 <= i < n implies vars_get(
            #[trigger] bind_params(frames, frame, params, args, n)[frame].vars,
            params[i]@,
        ) == Some(args[i]) by {
            if i < m {
                lemma_vars_get_put_other(vars, params[m as int]@, args[m as int], params[i]@);
            }
        }
    }
}

/// Law: a call binds its arguments to its parameters in order. Where the
/// parameters have distinct names, after binding as many arguments as
/// there are parameters, the `i`-th parameter holds the `i`-th argument,
/// and no environment is added or removed.
pub proof fn law_arguments_bound_in_order(
    frames: Seq<FrameView<SpecValue>>,
    frame: int,
    params: Seq<String>,
    args: Seq<SpecValue>,
    i: int,
)
    requires
        0 <= frame < frames.len(),
        params.len() == args.len(),
        0 <= i < params.len(),
        forall|j: int, k: int|
            0 <= j < params.len() && 0 <= k < params.len() && j != k ==> params[j]@ != params[k]@,
    ensures
        vars_get(bind_params(frames, frame, params, args, args.len())[frame].vars, params[i]@)
            == Some(args[i]),
        bind_params(frames, frame, params, args, args.len()).len() == frames.len(),
{
    lemma_bind_params(frames, frame, params, args, args.len());
}

/// Law: a `while` loop passes on every error its body ends with, a
/// `return` included: where the condition holds and the body then fails,
/// the loop fails with the body's error, in the state and with the events
/// the body left.
pub proof fn law_while_passes_on_body_errors(
    locals: Map<usize, usize>,
    st: IState,
    condition: Expr,
    body: Stmt,
    log: Seq<HostEvent>,
    at: nat,
    c: SpecValue,
    s1: IState,
    at1: nat,
    e: SpecRuntimeError,
    s2: IState,
    at2: nat,
)
    requires
        eval_spec(locals, st, condition, log, at) == Some(
            (Ok::<SpecValue, SpecRuntimeError>(c), s1, at1),
        ),
        truthy(c),
        exec_spec(locals, s1, body, log, at1) == Some((Err::<(), SpecRuntimeError>(e), s2, at2)),
    ensures
        while_spec(locals, st, condition, body, log, at) == Some(
            (Err::<(), SpecRuntimeError>(e), s2, at2),
        ),
{
    lemma_eval_fuel(locals, st, condition, log, at);
}

/// Law: where a `while` loop's condition holds and its body runs without
/// error, the loop goes on: it does what the loop does from the state and
/// the events the body left.
pub proof fn law_while_repeats(
    locals: Map<usize, usize>,
    st: IState,
    condition: Expr,
    body: Stmt,
    log: Seq<HostEvent>,
    at: nat,
    c: SpecValue,
    s1: IState,
    at1: nat,
    s2: IState,
    at2: nat,
)
    requires
        eval_spec(locals, st, condition, log, at) == Some(
            (Ok::<SpecValue, SpecRuntimeError>(c), s1, at1),
        ),
        truthy(c),
        exec_spec(locals, s1, body, log, at1) == Some((Ok::<(), SpecRuntimeError>(()), s2, at2)),
    ensures
        while_spec(locals, st, condition, body, log, at) == while_spec(
            locals,
            s2,
            condition,
            body,
            log,
            at2,
        ),
{
    lemma_eval_fuel(locals, st, condition, log, at);
    lemma_exec_fuel(locals, s1, body, log, at1);
}

/// Law: a declared function called with as many arguments as it has
/// parameters, on too few or too many, fails with the number it expected
/// and the number it got, and runs nothing.
pub proof fn law_call_arity(
    locals: Map<usize, usize>,
    st: IState,
    f: usize,
    args: Seq<SpecValue>,
    pos: (usize, usize),
    log: Seq<HostEvent>,
    at: nat,
)
    requires
        f < st.functions.len(),
        args.len() != st.functions[f as int].params.len(),
    ensures
        call_value_spec(locals, st, ValueOf::Function(f), args, pos, log, at) == Some(
            (
                Err::<SpecValue, SpecRuntimeError>(
                    RuntimeErrorOf::ArityMismatch {
                        expected: st.functions[f as int].params.len() as usize,
                        got: args.len() as usize,
                    },
                ),
                st,
                at,
            ),
        ),
{
}

/// Law: `type_of` names the kind of its argument, asking the host nothing
/// and leaving the state alone.
pub proof fn law_type_of(
    locals: Map<usize, usize>,
    st: IState,
    v: SpecValue,
    pos: (usize, usize),
    log: Seq<HostEvent>,
    at: nat,
)
    ensures
        native_name(6) == "type_of"@,
        call_value_spec(locals, st, ValueOf::NativeFunction(6), seq![v], pos, log, at) == Some(
            (
                Ok::<SpecValue, SpecRuntimeError>(
                    ValueOf::String(
                        match v {
                            ValueOf::Number(_) => "number"@,
                            ValueOf::String(_) => "string"@,
                            ValueOf::Bool(_) => "bool"@,
                            ValueOf::Nil => "nil"@,
                            ValueOf::Function(_) => "fun"@,
                            ValueOf::NativeFunction(_) => "native_fun"@,
                        },
                    ),
                ),
                st,
                at,
            ),
        ),
{
}

/// Law: `to_number` of a value that is neither a number nor a string is
/// `nil`, and `len` of a value that is not a string is a type error; both
/// ask the host nothing and leave the state alone.
pub proof fn law_to_number_and_len_of_other_values(
    locals: Map<usize, usize>,
    st: IState,
    v: SpecValue,
    pos: (usize, usize),
    log: Seq<HostEvent>,
    at: nat,
)
    ensures
        native_name(9) == "len"@,
        !(v is Number) && !(v is String) ==> call_value_spec(
            locals,
            st,
            ValueOf::NativeFunction(8),
            seq![v],
            pos,
            log,
            at,
        ) == Some((Ok::<SpecValue, SpecRuntimeError>(ValueOf::Nil), st, at)),
        !(v is String) ==> call_value_spec(
            locals,
            st,
            ValueOf::NativeFunction(9),
            seq![v],
            pos,
            log,
            at,
        ) == Some(
            (Err::<SpecValue, SpecRuntimeError>(type_error("expected string"@)), st, at),
        ),
{
}

/// Law: the built-ins that ask the host give back its answer: `clock` the
/// time; `sqrt`, `floor`, `ceil`, `abs` and `pow` of numbers the host's
/// value of that function; `read_file` the contents of the file at the path
/// or `nil` where there are none; `write_file` and `append_file` whether
/// they could. Each asks one question, of the path and content given, and
/// leaves the state alone.
pub proof fn law_host_natives(
    locals: Map<usize, usize>,
    st: IState,
    pos: (usize, usize),
    log: Seq<HostEvent>,
    at: nat,
    k: usize,
    x: u64,
    y: u64,
    path: Seq<char>,
    content: Seq<char>,
)
    ensures
        event_at(log, at) matches Some(HostEvent::Clock { answer }) ==> call_value_spec(
            locals,
            st,
            ValueOf::NativeFunction(0),
            seq![],
            pos,
            log,
            at,
        ) == Some((Ok::<SpecValue, SpecRuntimeError>(ValueOf::Number(answer)), st, at + 1)),
        1 <= k <= 4 && event_at(log, at) == Some(
            HostEvent::Math {
                f: if k == 1 {
                    MathFn::Sqrt
                } else if k == 2 {
                    MathFn::Floor
                } else if k == 3 {
                    MathFn::Ceil
                } else {
                    MathFn::Abs
                },
                x,
                y: 0,
                answer: y,
            },
        ) ==> call_value_spec(
            locals,
            st,
            ValueOf::NativeFunction(k),
            seq![ValueOf::Number(x)],
            pos,
            log,
            at,
        ) == Some((Ok::<SpecValue, SpecRuntimeError>(ValueOf::Number(y)), st, at + 1)),
        event_at(log, at) matches Some(HostEvent::Math { f: MathFn::Pow, x: a, y: b, answer })
            ==> call_value_spec(
            locals,
            st,
            ValueOf::NativeFunction(5),
            seq![ValueOf::Number(a), ValueOf::Number(b)],
            pos,
            log,
            at,
        ) == Some((Ok::<SpecValue, SpecRuntimeError>(ValueOf::Number(answer)), st, at + 1)),
        event_at(log, at) matches Some(HostEvent::ReadFile { path: p, answer }) ==> p == path
            ==> call_value_spec(
            locals,
            st,
            ValueOf::NativeFunction(10),
            seq![ValueOf::String(path)],
            pos,
            log,
            at,
        ) == Some(
            (
                Ok::<SpecValue, SpecRuntimeError>(
                    match answer {
                        Ok(contents) => ValueOf::String(contents),
                        Err(_) => ValueOf::Nil,
                    },
                ),
                st,
                at + 1,
            ),
        ),
        event_at(log, at) matches Some(HostEvent::WriteFile { path: p, content: c, answer }) ==> (p
            == path && c == content) ==> call_value_spec(
            locals,
            st,
            ValueOf::NativeFunction(11),
            seq![ValueOf::String(path), ValueOf::String(content)],
            pos,
            log,
            at,
        ) == Some((Ok::<SpecValue, SpecRuntimeError>(ValueOf::Bool(answer is Ok)), st, at + 1)),
        event_at(log, at) matches Some(HostEvent::AppendFile { path: p, content: c, answer }) ==> (p
            == path && c == content) ==> call_value_spec(
            locals,
            st,
            ValueOf::NativeFunction(12),
            seq![ValueOf::String(path), ValueOf::String(content)],
            pos,
            log,
            at,
        ) == Some((Ok::<SpecValue, SpecRuntimeError>(ValueOf::Bool(answer)), st, at + 1)),
{
}

/// Law: the comparisons of two numbers are IEEE 754's, `a > b` being
/// `b < a` and `a >= b` being `b <= a`; `==` and `!=` are Lox equality and
/// its negation; none asks the host anything.
pub proof fn law_comparisons(a: u64, b: u64, l: SpecValue, r: SpecValue, log: Seq<HostEvent>, at: nat)
    ensures
        binary_spec(Op::LessThan, ValueOf::Number(a), ValueOf::Number(b), log, at) == Some(
            (Ok::<SpecValue, SpecRuntimeError>(ValueOf::Bool(num_lt(a, b))), at),
        ),
        binary_spec(Op::LessThanEqual, ValueOf::Number(a), ValueOf::Number(b), log, at) == Some(
            (Ok::<SpecValue, SpecRuntimeError>(ValueOf::Bool(num_le(a, b))), at),
        ),
        binary_spec(Op::GreaterThan, ValueOf::Number(a), ValueOf::Number(b), log, at) == Some(
            (Ok::<SpecValue, SpecRuntimeError>(ValueOf::Bool(num_lt(b, a))), at),
        ),
        binary_spec(Op::GreaterThanEqual, ValueOf::Number(a), ValueOf::Number(b), log, at) == Some(
            (Ok::<SpecValue, SpecRuntimeError>(ValueOf::Bool(num_le(b, a))), at),
        ),
        binary_spec(Op::Equal, l, r, log, at) == Some(
            (Ok::<SpecValue, SpecRuntimeError>(ValueOf::Bool(values_equal(l, r))), at),
        ),
        binary_spec(Op::NotEqual, l, r, log, at) == Some(
            (Ok::<SpecValue, SpecRuntimeError>(ValueOf::Bool(!values_equal(l, r))), at),
        ),
{
}

/// Law: `-` negates a number, and `!` gives whether its operand is false.
pub proof fn law_unary(a: u64, v: SpecValue)
    ensures
        unary_spec(Op::Sub, ValueOf::Number(a)) == Ok::<SpecValue, SpecRuntimeError>(
            ValueOf::Number(num_neg(a)),
        ),
        unary_spec(Op::Not, v) == Ok::<SpecValue, SpecRuntimeError>(ValueOf::Bool(!truthy(v))),
{
}

/// Law: `to_number` gives a number back unchanged: calling it on one number
/// gives that number, asks the host nothing and leaves the state alone.
pub proof fn law_to_number_of_a_number(
    locals: Map<usize, usize>,
    st: IState,
    n: u64,
    pos: (usize, usize),
    log: Seq<HostEvent>,
    at: nat,
)
    ensures
        native_name(8) == "to_number"@,
        call_value_spec(
            locals,
            st,
            ValueOf::NativeFunction(8),
            seq![ValueOf::Number(n)],
            pos,
            log,
            at,
        ) == Some((Ok::<SpecValue, SpecRuntimeError>(ValueOf::Number(n)), st, at)),
{
}

/// Law: statements run in order. Where a statement runs without error,
/// running the statements from it on is running the statements after it,
/// from the state and the events it left.
pub proof fn law_statements_run_in_order(
    locals: Map<usize, usize>,
    st: IState,
    stmts: Seq<Stmt>,
    k: int,
    log: Seq<HostEvent>,
    at: nat,
    s1: IState,
    at1: nat,
)
    requires
        0 <= k < stmts.len(),
        exec_spec(locals, st, stmts[k], log, at) == Some((Ok::<(), SpecRuntimeError>(()), s1, at1)),
    ensures
        block_spec(locals, st, stmts, k, log, at) == block_spec(locals, s1, stmts, k + 1, log, at1),
{
    lemma_exec_fuel(locals, st, stmts[k], log, at);
}

/// Law: running statements stops at the first error. Where a statement
/// fails, running the statements from it on fails with its error, in the
/// state and with the events it left: none of the statements after it runs.
pub proof fn law_statements_stop_at_error(
    locals: Map<usize, usize>,
    st: IState,
    stmts: Seq<Stmt>,
    k: int,
    log: Seq<HostEvent>,
    at: nat,
    e: SpecRuntimeError,
    s1: IState,
    at1: nat,
)
    requires
        0 <= k < stmts.len(),
        exec_spec(locals, st, stmts[k], log, at) == Some((Err::<(), SpecRuntimeError>(e), s1, at1)),
    ensures
        block_spec(locals, st, stmts, k, log, at) == Some((Err::<(), SpecRuntimeError>(e), s1, at1)),
{
}

/// Law: a block runs in a new environment and returns to the one it was
/// entered from, however it ends.
pub proof fn law_block_restores_environment(
    locals: Map<usize, usize>,
    st: IState,
    stmts: Vec<Stmt>,
    log: Seq<HostEvent>,
    at: nat,
)
    ensures
        exec_spec(locals, st, Stmt::Block(stmts), log, at) matches Some((_, s2, _)) ==> s2.current
            == st.current,
{
}

/// Law: a `while` loop whose condition is false runs its body no more: it
/// ends with the state and events the condition left.
pub proof fn law_while_false_condition(
    locals: Map<usize, usize>,
    st: IState,
    condition: Expr,
    body: Stmt,
    log: Seq<HostEvent>,
    at: nat,
    c: SpecValue,
    s1: IState,
    at1: nat,
)
    requires
        eval_spec(locals, st, condition, log, at) == Some(
            (Ok::<SpecValue, SpecRuntimeError>(c), s1, at1),
        ),
        !truthy(c),
    ensures
        while_spec(locals, st, condition, body, log, at) == Some(
            (Ok::<(), SpecRuntimeError>(()), s1, at1),
        ),
{
}

/// Law: a call gives back the value of the `return` that ended its body,
/// `nil` where the body ran to its end, and passes on any other error.
pub proof fn law_call_result(v: SpecValue, e: SpecRuntimeError)
    ensures
        call_result(Err(RuntimeErrorOf::Unwind(UnwindOf::Return(v)))) == Ok::<
            SpecValue,
            SpecRuntimeError,
        >(v),
        call_result(Ok(())) == Ok::<SpecValue, SpecRuntimeError>(ValueOf::Nil),
        !(e is Unwind) ==> call_result(Err(e)) == Err::<SpecValue, SpecRuntimeError>(e),
{
}

/// Law: `print` writes one line: where a `print` statement runs without an
/// error, the last event it uses is the line it printed, and it is the text
/// of the value printed.
pub proof fn law_print_writes_a_line(
    locals: Map<usize, usize>,
    st: IState,
    e: Expr,
    log: Seq<HostEvent>,
    at: nat,
)
    requires
        exec_spec(locals, st, Stmt::Print(e), log, at) matches Some((Ok(()), _, _)),
    ensures
        ({
            let (_, s2, at2) = exec_spec(locals, st, Stmt::Print(e), log, at)->0;
            &&& at2 >= 1
            &&& event_at(log, (at2 - 1) as nat) matches Some(HostEvent::Print { text })
            &&& eval_spec(locals, spend(st), e, log, at) matches Some((Ok(v), s1, at1)) && display_spec(
                s1.functions,
                v,
                log,
                at1,
            ) == Some((text, (at2 - 1) as nat)) && s2 == s1
        }),
{
}

/// What evaluating gives whatever follows a record holds whatever follows
/// any longer record.
pub proof fn lemma_eval_gives_widen(
    locals: Map<usize, usize>,
    st: IState,
    e: Expr,
    at: nat,
    r: Result<SpecValue, SpecRuntimeError>,
    st2: IState,
    at2: nat,
    base: Seq<HostEvent>,
    later: Seq<HostEvent>,
)
    requires
        eval_gives(locals, st, e, at, r, st2, at2, base),
        log_extends(later, base),
    ensures
        eval_gives(locals, st, e, at, r, st2, at2, later),
{
    assert forall|full: Seq<HostEvent>| log_extends(full, later) implies #[trigger] eval_spec(
        locals,
        st,
        e,
        full,
        at,
    ) == Some((r, st2, at2)) by {
        lemma_log_extends_trans(full, later, base);
    }
}

/// Reading a variable commutes with seeing the values.
pub proof fn lemma_read_var_seen(
    frames: Seq<FrameView<Value>>,
    current: int,
    locals: Map<usize, usize>,
    id: usize,
    name: String,
)
    ensures
        read_var_spec(frames_seen(frames), current, locals, id, name@) == result_seen(
            read_variable(frames, current, locals, id, name),
        ),
{
    lemma_lookup_seen(frames, current, name@);
    if locals.contains_key(id) {
        lemma_ancestor_seen(frames, current, locals[id] as nat);
        match ancestor(frames, current, locals[id] as nat) {
            Some(a) => {
                crate::environment::lemma_ancestor(frames, current, locals[id] as nat);
                lemma_vars_get_seen(frames[a].vars, name@);
            },
            None => {},
        }
    }
}

} // verus!
