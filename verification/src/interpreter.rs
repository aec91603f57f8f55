//! The tree-walking interpreter.
//!
//! The interpreter walks the syntax tree, keeping the program's variables in
//! an [`Environment`] store. What only a host can do (the arithmetic of
//! doubles, turning numbers to and from text, the clock, files, and the
//! output) it asks of a [`Host`], which the program running the interpreter
//! supplies. It records each question with the answer it got, and each line
//! printed, as an event; what it does is what the semantics in the
//! `semantics` module says, given those events, and each answer to a
//! question on numbers is the one the host names for it.
use vstd::prelude::*;
use std::collections::HashMap;
use crate::environment::{
    ancestor, defining_frame, frames_put, lemma_ancestor, lemma_defining_frame, lookup, vars_get,
    vars_put, Environment, FrameView, VarsView,
};
use crate::errors::{RuntimeError, SpecRuntimeError, Unwind};
use crate::nodes::{Expr, Lit, Op, Stmt};
use crate::messages::op_symbol;
use crate::text::{decimal, push_string, usize_text};
use crate::semantics::{
    args_gives, args_spec, assign_spec, binary_spec, call_spec, call_value_spec, spend,
    lemma_eval_gives_widen, call_result, bind_params, block_gives, block_spec, call_gives,
    eval_gives, eval_spec, exec_gives, exec_spec, frames_seen, lemma_ancestor_seen,
    lemma_defining_frame_seen, lemma_frames_push_seen, lemma_frames_put_seen,
    lemma_last_index_seen, lemma_record, lemma_log_extends_refl, lemma_read_var_seen,
    log_extends, native_spec, answers_agree, effects_of, HostLog, read_var_spec, result_seen, unit_seen, values_result_seen,
    values_seen, vars_seen, while_gives, while_spec, with_frames, with_current, display_text,
    display_spec, display_value, event_at, FunView,
    HostEvent, IState,
};
use crate::values::{is_truthy, is_zero, number_neg, SpecValue, Value, ValueOf};

verus! {

broadcast use vstd::std_specs::hash::group_hash_axioms, crate::semantics::group_log_extends;

/// A function of one or two numbers that the host computes.
#[derive(Debug, Clone, Copy, PartialEq, Eq)]
pub enum MathFn {
    Sqrt,
    Floor,
    Ceil,
    Abs,
    Pow,
}

/// How numbers are read from the text of a literal and written as text.
/// Numbers are the bits of IEEE 754 doubles.
///
/// Both are functions of their argument alone, each named by a spec
/// function of the trait; an implementation answers with the value of that
/// function, as Rust's parsing and formatting of `f64` do. What an
/// implementation does is not checked here: the contracts that speak of
/// these names hold of implementations that keep this.
pub trait Numerals {
    /// The number that a number literal written `text` stands for.
    spec fn literal_value(text: &String) -> u64;

    /// How the number `n` is printed.
    spec fn number_text_value(n: u64) -> String;

    /// The number that a number literal written `text` stands for.
    fn number_literal(&self, text: &String) -> (r: u64)
        ensures
            r == Self::literal_value(text),
    ;

    /// How the number `n` is printed.
    fn number_text(&self, n: u64) -> (r: String)
        ensures
            r@ == Self::number_text_value(n)@,
    ;
}

/// What the interpreter asks of the program that runs it, besides reading
/// and printing numbers. Numbers are the bits of IEEE 754 doubles.
///
/// The answers to the questions on numbers (arithmetic, a count, a function
/// of numbers, parsing a number) are functions of the question alone: each
/// is named by a spec function of the trait, and an implementation answers
/// with the value of that function, as IEEE 754 arithmetic and Rust's
/// parsing of `f64` do. What an implementation does is not checked here:
/// the contracts of the interpreter hold of hosts that keep this. The
/// clock, the files and the output answer as they will, but each of them
/// adds what it did, with its arguments and what came back, to the host's
/// `effects`: the record of what the host did, which the interpreter's
/// contracts relate to its events. An implementation does what its
/// `effects` say; nothing here checks that either.
pub trait Host: Numerals {
    /// `lhs op rhs`, for `op` one of `Add`, `Sub`, `Mul` and `Div`.
    spec fn arithmetic_value(op: Op, lhs: u64, rhs: u64) -> u64;

    /// The number `n`, as a double.
    spec fn count_value(n: usize) -> u64;

    /// `f` applied to `x` (and to `y`, for `Pow`).
    spec fn math_value(f: MathFn, x: u64, y: u64) -> u64;

    /// The number that `text` spells, if it spells one.
    spec fn parse_value(text: &String) -> Option<u64>;

    /// `lhs op rhs`, for `op` one of `Add`, `Sub`, `Mul` and `Div`.
    fn arithmetic(&self, op: Op, lhs: u64, rhs: u64) -> (r: u64)
        ensures
            r == Self::arithmetic_value(op, lhs, rhs),
    ;

    /// What the host has done to the world and read from it so far, in
    /// order: the lines printed, the clock read, the files read, written
    /// and appended to, each with what came back.
    spec fn effects(&self) -> HostLog;

    /// Writes `text` and a line break to the program's output.
    fn print_line(&mut self, text: &String)
        ensures
            final(self).effects() == old(self).effects().push(HostEvent::Print { text: text@ }),
    ;

    /// The number `n`.
    fn count(&self, n: usize) -> (r: u64)
        ensures
            r == Self::count_value(n),
    ;

    /// `f` applied to `x` (and to `y`, for `Pow`).
    fn math(&self, f: MathFn, x: u64, y: u64) -> (r: u64)
        ensures
            r == Self::math_value(f, x, y),
    ;

    /// The current time, in seconds since the Unix epoch.
    fn clock(&mut self) -> (r: u64)
        ensures
            final(self).effects() == old(self).effects().push(HostEvent::Clock { answer: r }),
    ;

    /// The number that `text` spells, if it spells one.
    fn parse_number(&self, text: &String) -> (r: Option<u64>)
        ensures
            r == Self::parse_value(text),
    ;

    /// The contents of the file at `path`, or a message saying why there
    /// are none.
    fn read_file(&mut self, path: &String) -> (r: Result<String, String>)
        ensures
            final(self).effects() == old(self).effects().push(
                HostEvent::ReadFile { path: path@, answer: text_result_seen(r) },
            ),
    ;

    /// Writes `content` to the file at `path`, or says why it could not.
    fn write_file(&mut self, path: &String, content: &String) -> (r: Result<(), String>)
        ensures
            final(self).effects() == old(self).effects().push(
                HostEvent::WriteFile { path: path@, content: content@, answer: done_result_seen(r) },
            ),
    ;

    /// Appends `content` to the file at `path`; returns whether it could.
    fn append_file(&mut self, path: &String, content: &String) -> (r: bool)
        ensures
            final(self).effects() == old(self).effects().push(
                HostEvent::AppendFile { path: path@, content: content@, answer: r },
            ),
    ;
}

/// A function declared in the program: its name, parameters and body, and
/// the environment it was declared in.
pub struct LoxFunction<'p> {
    pub name: &'p String,
    pub params: &'p Vec<String>,
    pub body: &'p Vec<Stmt>,
    pub closure: usize,
}

/// A text or the message of why there is none, seen through characters.
pub open spec fn text_result_seen(r: Result<String, String>) -> Result<Seq<char>, Seq<char>> {
    match r {
        Ok(t) => Ok(t@),
        Err(m) => Err(m@),
    }
}

/// Success, or the message of why not, seen through characters.
pub open spec fn done_result_seen(r: Result<(), String>) -> Result<(), Seq<char>> {
    match r {
        Ok(()) => Ok(()),
        Err(m) => Err(m@),
    }
}

/// What a call gives back, from how its body ended.
fn call_outcome(res: Result<(), RuntimeError>) -> (r: Result<Value, RuntimeError>)
    ensures
        result_seen(r) == call_result(unit_seen(res)),
{
    match res {
        Ok(()) => Ok(Value::Nil),
        Err(RuntimeError::Unwind(Unwind::Return(v))) => Ok(v),
        Err(e) => Err(e),
    }
}

/// A declared function, seen through views.
pub open spec fn fun_seen(f: LoxFunction) -> FunView {
    FunView { name: f.name@, params: f.params@, body: f.body@, closure: f.closure }
}

/// The number of built-in functions.
pub const NATIVE_COUNT: usize = 13;

/// The arity of the built-in function with index `k`.
pub open spec fn native_arity(k: int) -> nat {
    if k == 0 {
        0
    } else if k == 5 || k == 11 || k == 12 {
        2
    } else {
        1
    }
}

/// The name of the built-in function with index `k`.
pub open spec fn native_name(k: int) -> Seq<char> {
    if k == 0 {
        "clock"@
    } else if k == 1 {
        "sqrt"@
    } else if k == 2 {
        "floor"@
    } else if k == 3 {
        "ceil"@
    } else if k == 4 {
        "abs"@
    } else if k == 5 {
        "pow"@
    } else if k == 6 {
        "type_of"@
    } else if k == 7 {
        "to_string"@
    } else if k == 8 {
        "to_number"@
    } else if k == 9 {
        "len"@
    } else if k == 10 {
        "read_file"@
    } else if k == 11 {
        "write_file"@
    } else {
        "append_file"@
    }
}

/// The variables of an environment in which the first `n` built-in
/// functions were defined, in order, each under its name.
pub open spec fn natives_defined(n: nat) -> VarsView<SpecValue>
    decreases n,
{
    if n == 0 {
        Seq::empty()
    } else {
        vars_put(
            natives_defined((n - 1) as nat),
            native_name(n - 1),
            ValueOf::NativeFunction((n - 1) as usize),
        )
    }
}

/// The name and arity of the built-in function with index `k`.
pub fn native_info(k: usize) -> (r: (&'static str, usize))
    requires
        k < NATIVE_COUNT,
    ensures
        r.0@ == native_name(k as int),
        r.1 == native_arity(k as int),
{
    if k == 0 {
        ("clock", 0)
    } else if k == 1 {
        ("sqrt", 1)
    } else if k == 2 {
        ("floor", 1)
    } else if k == 3 {
        ("ceil", 1)
    } else if k == 4 {
        ("abs", 1)
    } else if k == 5 {
        ("pow", 2)
    } else if k == 6 {
        ("type_of", 1)
    } else if k == 7 {
        ("to_string", 1)
    } else if k == 8 {
        ("to_number", 1)
    } else if k == 9 {
        ("len", 1)
    } else if k == 10 {
        ("read_file", 1)
    } else if k == 11 {
        ("write_file", 2)
    } else {
        ("append_file", 2)
    }
}

/// The built-in functions, each with its name, in the order they are
/// defined in the global environment.
pub fn native_functions() -> (r: Vec<(String, Value)>)
    ensures
        r@.len() == NATIVE_COUNT,
        forall|k: int|
            0 <= k < NATIVE_COUNT ==> (#[trigger] r@[k]).0@ == native_name(k) && r@[k].1
                == Value::NativeFunction(k as usize),
{
    let mut r: Vec<(String, Value)> = Vec::new();
    let mut k: usize = 0;
    while k < NATIVE_COUNT
        invariant
            k <= NATIVE_COUNT,
            r@.len() == k,
            forall|j: int|
                0 <= j < k ==> (#[trigger] r@[j]).0@ == native_name(j) && r@[j].1
                    == Value::NativeFunction(j as usize),
        decreases NATIVE_COUNT - k,
    {
        let (name, _) = native_info(k);
        r.push((String::from_str(name), Value::NativeFunction(k)));
        k = k + 1;
    }
    r
}

/// The value of the variable `name` referred to by the expression `id`: at
/// the depth the resolver recorded for it, else wherever the nearest
/// environment defining it lies.
pub open spec fn read_variable(
    frames: Seq<FrameView<Value>>,
    current: int,
    locals: Map<usize, usize>,
    id: usize,
    name: String,
) -> Result<Value, RuntimeError> {
    let found = if locals.contains_key(id) {
        match ancestor(frames, current, locals[id] as nat) {
            Some(a) => vars_get(frames[a].vars, name@),
            None => None,
        }
    } else {
        lookup(frames, current, name@)
    };
    match found {
        Some(v) => Ok(v),
        None => Err(RuntimeError::UndefinedVariable { var_name: name }),
    }
}

/// A message string.
fn message(text: &str) -> (r: String)
    ensures
        r@ == text@,
{
    String::from_str(text)
}

pub struct Interpreter<'p, H: Host> {
    host: H,
    env: Environment<Value>,
    current: usize,
    functions: Vec<LoxFunction<'p>>,
    locals: HashMap<usize, usize>,
    fuel: u64,
    events: Ghost<Seq<HostEvent>>,
    effects_before: Ghost<Seq<HostEvent>>,
}

impl<'p, H: Host> Interpreter<'p, H> {
    /// The interpreter's state is consistent: its environments are, the
    /// current one exists, and every declared function's environment
    /// exists.
    pub closed spec fn wf(&self) -> bool {
        &&& self.env.wf()
        &&& self.current < self.env.frames().len()
        &&& answers_agree::<H>(self.events@)
        &&& self.host.effects() == self.effects_before@ + effects_of(self.events@)
        &&& forall|i: int|
            0 <= i < self.functions@.len() ==> (#[trigger] self.functions@[i]).closure
                < self.env.frames().len()
    }

    /// The environments.
    pub closed spec fn frames(&self) -> Seq<FrameView<Value>> {
        self.env.frames()
    }

    /// The index of the current environment.
    pub closed spec fn current(&self) -> int {
        self.current as int
    }

    /// The depths the resolver recorded.
    pub closed spec fn locals_map(&self) -> Map<usize, usize> {
        self.locals@
    }

    /// How many more evaluation steps the interpreter may take.
    pub closed spec fn fuel(&self) -> nat {
        self.fuel as nat
    }

    /// The number of functions declared so far.
    pub closed spec fn function_count(&self) -> nat {
        self.functions@.len()
    }

    /// The host the interpreter runs on.
    pub closed spec fn host_spec(&self) -> H {
        self.host
    }

    /// The events so far: the host's answers and the lines printed.
    pub closed spec fn events(&self) -> Seq<HostEvent> {
        self.events@
    }

    /// What the host had done before the interpreter was made; what it has
    /// done since are the effects among the events.
    pub closed spec fn effects_before(&self) -> Seq<HostEvent> {
        self.effects_before@
    }

    /// The state, seen through the views of its values.
    pub closed spec fn state(&self) -> IState {
        IState {
            frames: frames_seen(self.env.frames()),
            current: self.current as int,
            functions: self.functions@.map_values(|f: LoxFunction<'p>| fun_seen(f)),
            fuel: self.fuel as nat,
        }
    }

    /// An interpreter whose global environment holds the built-in functions
    /// and nothing else.
    pub fn new(host: H) -> (r: Self)
        ensures
            r.wf(),
            r.state() == (IState {
                frames: seq![
                    FrameView::<SpecValue> {
                        vars: natives_defined(NATIVE_COUNT as nat),
                        parent: None,
                    },
                ],
                current: 0,
                functions: Seq::empty(),
                fuel: u64::MAX as nat,
            }),
            r.locals_map() == Map::<usize, usize>::empty(),
            r.events() == Seq::<HostEvent>::empty(),
            r.host_spec() == host,
            r.effects_before() == host.effects(),
    {
        let natives = native_functions();
        let mut env: Environment<Value> = Environment::new();
        let mut k: usize = 0;
        proof {
            assert(vars_seen(env.frames()[0].vars) =~= Seq::<(Seq<char>, SpecValue)>::empty());
            assert(frames_seen(env.frames()) =~= seq![
                FrameView::<SpecValue> { vars: natives_defined(0), parent: None },
            ]);
        }
        while k < natives.len()
            invariant
                natives@.len() == NATIVE_COUNT,
                forall|j: int|
                    0 <= j < NATIVE_COUNT ==> (#[trigger] natives@[j]).0@ == native_name(j)
                        && natives@[j].1 == Value::NativeFunction(j as usize),
                k <= NATIVE_COUNT,
                env.wf(),
                env.frames().len() == 1,
                frames_seen(env.frames()) == seq![
                    FrameView::<SpecValue> { vars: natives_defined(k as nat), parent: None },
                ],
            decreases NATIVE_COUNT - k,
        {
            let (name, value) = &natives[k];
            let ghost before = env.frames();
            env.define(0, name, value.copy());
            proof {
                lemma_frames_put_seen(before, 0, name@, *value);
                assert(frames_seen(env.frames()) =~= seq![
                    FrameView::<SpecValue> { vars: natives_defined((k + 1) as nat), parent: None },
                ]);
            }
            k = k + 1;
        }
        let ghost before = host.effects();
        let r = Interpreter {
            host,
            env,
            current: 0,
            functions: Vec::new(),
            locals: HashMap::new(),
            fuel: u64::MAX,
            events: Ghost(Seq::empty()),
            effects_before: Ghost(before),
        };
        proof {
            assert(r.state().functions =~= Seq::<FunView>::empty());
        }
        r
    }

    /// Takes the depths the resolver recorded.
    pub fn resolve(&mut self, locals: HashMap<usize, usize>)
        requires
            old(self).wf(),
        ensures
            final(self).wf(),
            final(self).effects_before() == old(self).effects_before(),
            final(self).locals_map() == locals@,
            final(self).state() == old(self).state(),
            final(self).host_spec() == old(self).host_spec(),
            final(self).events() == old(self).events(),
            final(self).frames() == old(self).frames(),
            final(self).current() == old(self).current(),
            final(self).fuel() == old(self).fuel(),
    {
        self.locals = locals;
    }

    /// The host the interpreter runs on.
    pub fn host(&self) -> (r: &H)
        ensures
            *r == self.host_spec(),
    {
        &self.host
    }

    /// Runs the statements in order, up to the first error, in the current
    /// environment: what `block_spec` says of them, the host answering as
    /// the events this call adds record.
    pub fn interpret(&mut self, stmts: &'p [Stmt]) -> (r: Result<(), RuntimeError>)
        requires
            old(self).wf(),
        ensures
            final(self).wf(),
            final(self).effects_before() == old(self).effects_before(),
            final(self).current() == old(self).current(),
            final(self).fuel() <= old(self).fuel(),
            final(self).locals_map() == old(self).locals_map(),
            log_extends(final(self).events(), old(self).events()),
            answers_agree::<H>(final(self).events()),
            final(self).host_spec().effects() == final(self).effects_before() + effects_of(
                final(self).events(),
            ),
            block_gives(
                old(self).locals_map(),
                old(self).state(),
                stmts@,
                0,
                old(self).events().len(),
                unit_seen(r),
                final(self).state(),
                final(self).events().len(),
                final(self).events(),
            ),
    {
        self.run_stmts(stmts)
    }

    /// Runs the statements in order, up to the first error.
    fn run_stmts(&mut self, stmts: &'p [Stmt]) -> (r: Result<(), RuntimeError>)
        requires
            old(self).wf(),
        ensures
            final(self).wf(),
            final(self).effects_before() == old(self).effects_before(),
            final(self).current() == old(self).current(),
            final(self).fuel() <= old(self).fuel(),
            final(self).frames().len() >= old(self).frames().len(),
            final(self).function_count() >= old(self).function_count(),
            final(self).locals_map() == old(self).locals_map(),
            log_extends(final(self).events(), old(self).events()),
            block_gives(
                old(self).locals_map(),
                old(self).state(),
                stmts@,
                0,
                old(self).events().len(),
                unit_seen(r),
                final(self).state(),
                final(self).events().len(),
                final(self).events(),
            ),
        decreases old(self).fuel(), 1int,
    {
        let ghost locals = self.locals@;
        let ghost st0 = self.state();
        let ghost at0 = self.events@.len();
        let mut k: usize = 0;
        proof {
            lemma_log_extends_refl(self.events@);
        }
        while k < stmts.len()
            invariant
                self.wf(),
                self.effects_before@ == old(self).effects_before@,
                k <= stmts@.len(),
                self.current == old(self).current,
                self.fuel <= old(self).fuel,
                self.env.frames().len() >= old(self).env.frames().len(),
                self.functions@.len() >= old(self).functions@.len(),
                self.locals@ == locals,
                locals == old(self).locals@,
                st0 == old(self).state(),
                at0 == old(self).events().len(),
                log_extends(self.events@, old(self).events@),
                forall|full: Seq<HostEvent>|
                    log_extends(full, self.events@) ==> #[trigger] block_spec(
                        locals,
                        self.state(),
                        stmts@,
                        k as int,
                        full,
                        self.events@.len(),
                    ) == block_spec(locals, st0, stmts@, 0, full, at0),
            decreases stmts@.len() - k,
        {
            let ghost stk = self.state();
            let ghost evk = self.events@;
            let res = self.execute(&stmts[k]);
            proof {
                assert forall|full: Seq<HostEvent>| log_extends(full, self.events@) implies block_spec(
                    locals,
                    stk,
                    stmts@,
                    k as int,
                    full,
                    evk.len(),
                ) == block_spec(locals, st0, stmts@, 0, full, at0) && exec_spec(
                    locals,
                    stk,
                    stmts@[k as int],
                    full,
                    evk.len(),
                ) == Some((unit_seen(res), self.state(), self.events@.len())) by {
                    assert(log_extends(full, evk));
                }
            }
            match res {
                Ok(()) => {},
                Err(e) => {
                    return Err(e);
                },
            }
            k = k + 1;
        }
        proof {
            assert forall|full: Seq<HostEvent>| log_extends(full, self.events@) implies block_spec(
                locals,
                st0,
                stmts@,
                0,
                full,
                at0,
            ) == Some((Ok::<(), SpecRuntimeError>(()), self.state(), self.events@.len())) by {
                assert(block_spec(locals, self.state(), stmts@, k as int, full, self.events@.len())
                    == block_spec(locals, st0, stmts@, 0, full, at0));
            }
        }
        Ok(())
    }

    /// How a value is printed: a number as the host prints it, a string as
    /// itself, a function as `<fn ` and its name and `>`.
    pub fn display(&self, v: &Value) -> (r: String)
        ensures
            r@ == display_value::<H>(self.state().functions, v@),
    {
        proof {
            assert("<fn "@ + Seq::<char>::empty() =~= "<fn "@);
            if let ValueOf::Function(i) = *v {
                if i < self.functions@.len() {
                    assert(self.state().functions[i as int] == fun_seen(self.functions@[i as int]));
                }
            }
        }
        match v {
            Value::Number(n) => self.host.number_text(*n),
            Value::String(s) => s.clone(),
            Value::Bool(b) => {
                if *b {
                    message("true")
                } else {
                    message("false")
                }
            },
            Value::Nil => message("nil"),
            Value::Function(i) => {
                let mut s = message("<fn ");
                if *i < self.functions.len() {
                    s.append(self.functions[*i].name.as_str());
                }
                s.append(">");
                s
            },
            Value::NativeFunction(k) => {
                let mut s = message("<fn ");
                if *k < NATIVE_COUNT {
                    let (name, _) = native_info(*k);
                    s.append(name);
                }
                s.append(">");
                s
            },
        }
    }

    /// How an error is shown.
    pub fn error_message(&self, e: &RuntimeError) -> (r: String)
        ensures
            match *e {
                RuntimeError::TypeError { msg } => r@ == "TypeError: "@ + msg@,
                RuntimeError::InvalidOperator { msg } => r@ == "InvalidOperator: "@ + msg@,
                RuntimeError::DivisionByZero => r@ == "DivisionByZero"@,
                RuntimeError::UndefinedVariable { var_name } => r@ == "UndefinedVariable: '"@
                    + var_name@ + "'"@,
                RuntimeError::Io { msg } => r@ == "IO: "@ + msg@,
                RuntimeError::ArityMismatch { expected, got } => r@ == "ArityMismatch - expectd: "@
                    + decimal(expected as nat) + "; got "@ + decimal(got as nat),
                RuntimeError::NotCallable(pos) => r@ == "NotCallable: entity is not callable at ("@
                    + decimal(pos.0 as nat) + "):("@ + decimal(pos.1 as nat) + ")"@,
                RuntimeError::LimitReached => r@
                    == "LimitReached: the interpreter ran out of steps or environments"@,
                RuntimeError::Unwind(Unwind::Return(v)) => r@ == "Unwind: '"@ + display_value::<H>(
                    self.state().functions,
                    v@,
                ) + "'"@,
            },
    {
        match e {
            RuntimeError::TypeError { msg } => {
                let mut r = message("TypeError: ");
                push_string(&mut r, msg);
                r
            },
            RuntimeError::InvalidOperator { msg } => {
                let mut r = message("InvalidOperator: ");
                push_string(&mut r, msg);
                r
            },
            RuntimeError::DivisionByZero => message("DivisionByZero"),
            RuntimeError::UndefinedVariable { var_name } => {
                let mut r = message("UndefinedVariable: '");
                push_string(&mut r, var_name);
                r.append("'");
                r
            },
            RuntimeError::Unwind(Unwind::Return(v)) => {
                let mut r = message("Unwind: '");
                push_string(&mut r, &self.display(v));
                r.append("'");
                r
            },
            RuntimeError::ArityMismatch { expected, got } => {
                let mut r = message("ArityMismatch - expectd: ");
                push_string(&mut r, &usize_text(*expected));
                r.append("; got ");
                push_string(&mut r, &usize_text(*got));
                r
            },
            RuntimeError::NotCallable(pos) => {
                let mut r = message("NotCallable: entity is not callable at (");
                push_string(&mut r, &usize_text(pos.0));
                r.append("):(");
                push_string(&mut r, &usize_text(pos.1));
                r.append(")");
                r
            },
            RuntimeError::Io { msg } => {
                let mut r = message("IO: ");
                push_string(&mut r, msg);
                r
            },
            RuntimeError::LimitReached => message(
                "LimitReached: the interpreter ran out of steps or environments",
            ),
        }
    }

    /// Reads the variable `name` referred to by the expression `id`.
    fn get_var(&self, id: usize, name: &String) -> (r: Result<Value, RuntimeError>)
        requires
            self.wf(),
        ensures
            result_seen(r) == read_var_spec(
                self.state().frames,
                self.current(),
                self.locals_map(),
                id,
                name@,
            ),
    {
        let found = match self.locals.get(&id) {
            Some(depth) => self.env.get_at(self.current, name, *depth),
            None => self.env.get(self.current, name),
        };
        let r = match found {
            Some(v) => Ok(v.copy()),
            None => Err(RuntimeError::UndefinedVariable { var_name: name.clone() }),
        };
        proof {
            lemma_read_var_seen(self.env.frames(), self.current as int, self.locals@, id, *name);
            assert(r == read_variable(
                self.env.frames(),
                self.current as int,
                self.locals@,
                id,
                *name,
            ));
        }
        r
    }

    /// Assigns `value` to the variable `name` referred to by the expression
    /// `id`, and returns the value.
    fn assign(&mut self, id: usize, name: &String, value: Value) -> (r: Result<Value, RuntimeError>)
        requires
            old(self).wf(),
        ensures
            final(self).wf(),
            final(self).effects_before() == old(self).effects_before(),
            final(self).locals_map() == old(self).locals_map(),
            final(self).events() == old(self).events(),
            final(self).frames().len() == old(self).frames().len(),
            final(self).function_count() == old(self).function_count(),
            ({
                let (res, frames) = assign_spec(
                    old(self).state().frames,
                    old(self).current(),
                    old(self).locals_map(),
                    id,
                    name@,
                    value@,
                );
                &&& result_seen(r) == res
                &&& final(self).state() == with_frames(old(self).state(), frames)
            }),
    {
        let ghost frames = self.env.frames();
        let ghost v = value;
        let v2 = value.copy();
        let done = match self.locals.get(&id) {
            Some(depth) => self.env.set_at(self.current, name, value, *depth),
            None => self.env.set(self.current, name, value),
        };
        proof {
            lemma_ancestor(frames, self.current as int, 0);
            lemma_defining_frame(frames, self.current as int, name@);
            lemma_defining_frame_seen(frames, self.current as int, name@);
            if self.locals@.contains_key(id) {
                let d = self.locals@[id] as nat;
                lemma_ancestor(frames, self.current as int, d);
                lemma_ancestor_seen(frames, self.current as int, d);
                match ancestor(frames, self.current as int, d) {
                    Some(a) => {
                        lemma_last_index_seen(frames[a].vars, name@);
                        lemma_frames_put_seen(frames, a, name@, v);
                    },
                    None => {},
                }
            } else {
                match defining_frame(frames, self.current as int, name@) {
                    Some(a) => {
                        lemma_frames_put_seen(frames, a, name@, v);
                    },
                    None => {},
                }
            }
            assert(self.env.frames().len() == frames.len());
        }
        if done {
            Ok(v2)
        } else {
            Err(RuntimeError::UndefinedVariable { var_name: name.clone() })
        }
    }

    /// Evaluates an expression: what `eval_spec` says of it, the host
    /// answering as the events this call adds record.
    pub fn eval(&mut self, expr: &'p Expr) -> (r: Result<Value, RuntimeError>)
        requires
            old(self).wf(),
        ensures
            final(self).wf(),
            final(self).effects_before() == old(self).effects_before(),
            final(self).current() == old(self).current(),
            final(self).fuel() <= old(self).fuel(),
            final(self).frames().len() >= old(self).frames().len(),
            final(self).function_count() >= old(self).function_count(),
            final(self).locals_map() == old(self).locals_map(),
            old(self).fuel() == 0 ==> r == Err::<Value, RuntimeError>(RuntimeError::LimitReached),
            old(self).fuel() > 0 ==> final(self).fuel() < old(self).fuel(),
            log_extends(final(self).events(), old(self).events()),
            answers_agree::<H>(final(self).events()),
            final(self).host_spec().effects() == final(self).effects_before() + effects_of(
                final(self).events(),
            ),
            eval_gives(
                old(self).locals_map(),
                old(self).state(),
                *expr,
                old(self).events().len(),
                result_seen(r),
                final(self).state(),
                final(self).events().len(),
                final(self).events(),
            ),
        decreases old(self).fuel(), 0int,
    {
        proof {
            lemma_log_extends_refl(self.events@);
        }
        if self.fuel == 0 {
            return Err(RuntimeError::LimitReached);
        }
        self.fuel = self.fuel - 1;
        let ghost locals = self.locals@;
        let ghost s = self.state();
        let ghost at0 = self.events@.len();
        let ghost ev0 = self.events@;
        proof {
            assert(s == spend(old(self).state()));
        }
        match expr {
            Expr::Literal(lit) => match lit {
                Lit::Number(text) => {
                    let n = self.host.number_literal(text);
                    proof {
                        let e = HostEvent::NumberLiteral { text: *text, answer: n };
                        lemma_record::<H>(self.events@, e);
                        self.events@ = self.events@.push(e);
                    }
                    Ok(Value::Number(n))
                },
                Lit::String(x) => Ok(Value::String(x.clone())),
                Lit::Bool(b) => Ok(Value::Bool(*b)),
                Lit::Nil => Ok(Value::Nil),
            },
            Expr::Logical { left, op, right } => {
                let l = self.eval(left);
                let ghost s1 = self.state();
                let ghost ev1 = self.events@;
                let l = match l {
                    Ok(v) => v,
                    Err(e) => {
                        proof {
                            assert forall|full: Seq<HostEvent>| log_extends(full, self.events@) implies eval_spec(locals, s, **left, full, at0) == Some((Err::<SpecValue, SpecRuntimeError>(e@), s1, ev1.len())) by {}
                        }
                        return Err(e);
                    },
                };
                proof {
                    assert forall|full: Seq<HostEvent>| log_extends(full, self.events@) implies eval_spec(locals, s, **left, full, at0) == Some((Ok::<SpecValue, SpecRuntimeError>(l@), s1, ev1.len())) by {}
                }
                match op {
                    Op::And => {
                        if !is_truthy(&l) {
                            return Ok(l);
                        }
                    },
                    _ => {
                        if is_truthy(&l) {
                            return Ok(l);
                        }
                    },
                }
                let r = self.eval(right);
                proof {
                    lemma_eval_gives_widen(locals, s, **left, at0, Ok(l@), s1, ev1.len(), ev1, self.events@);
                    assert forall|full: Seq<HostEvent>| log_extends(full, self.events@) implies eval_spec(locals, s, **left, full, at0) == Some((Ok::<SpecValue, SpecRuntimeError>(l@), s1, ev1.len())) && eval_spec(locals, s1, **right, full, ev1.len()) == Some((result_seen(r), self.state(), self.events@.len())) by {}
                }
                r
            },
            Expr::Grouping(inner) => {
                let r = self.eval(inner);
                proof {
                    assert forall|full: Seq<HostEvent>| log_extends(full, self.events@) implies eval_spec(locals, s, **inner, full, at0) == Some((result_seen(r), self.state(), self.events@.len())) by {}
                }
                r
            },
            Expr::Unary { op, right } => {
                let v = self.eval(right);
                proof {
                    assert forall|full: Seq<HostEvent>| log_extends(full, self.events@) implies eval_spec(locals, s, **right, full, at0) == Some((result_seen(v), self.state(), self.events@.len())) by {}
                }
                let v = match v {
                    Ok(v) => v,
                    Err(e) => {
                        return Err(e);
                    },
                };
                match op {
                    Op::Not => Ok(Value::Bool(!is_truthy(&v))),
                    Op::Sub => match v {
                        Value::Number(n) => Ok(Value::Number(number_neg(n))),
                        _ => Err(RuntimeError::TypeError { msg: message("operand must be a number") }),
                    },
                    _ => Err(RuntimeError::TypeError { msg: message("invalid unary operator") }),
                }
            },
            Expr::Binary { op, right, left } => {
                let l = self.eval(left);
                let ghost s1 = self.state();
                let ghost ev1 = self.events@;
                let l = match l {
                    Ok(v) => v,
                    Err(e) => {
                        proof {
                            assert forall|full: Seq<HostEvent>| log_extends(full, self.events@) implies eval_spec(locals, s, **left, full, at0) == Some((Err::<SpecValue, SpecRuntimeError>(e@), s1, ev1.len())) by {}
                        }
                        return Err(e);
                    },
                };
                let r = self.eval(right);
                let ghost s2 = self.state();
                let ghost ev2 = self.events@;
                proof {
                    lemma_eval_gives_widen(locals, s, **left, at0, Ok(l@), s1, ev1.len(), ev1, ev2);
                }
                let r = match r {
                    Ok(r) => r,
                    Err(e) => {
                        proof {
                            assert forall|full: Seq<HostEvent>| log_extends(full, self.events@) implies eval_spec(locals, s, **left, full, at0) == Some((Ok::<SpecValue, SpecRuntimeError>(l@), s1, ev1.len())) && eval_spec(locals, s1, **right, full, ev1.len()) == Some((Err::<SpecValue, SpecRuntimeError>(e@), s2, ev2.len())) by {}
                        }
                        return Err(e);
                    },
                };
                let ghost lv = l@;
                let ghost rv = r@;
                let res = self.binary(*op, l, r);
                proof {
                    lemma_eval_gives_widen(locals, s, **left, at0, Ok(lv), s1, ev1.len(), ev1, self.events@);
                    lemma_eval_gives_widen(locals, s1, **right, ev1.len(), Ok(rv), s2, ev2.len(), ev2, self.events@);
                    assert forall|full: Seq<HostEvent>| log_extends(full, self.events@) implies eval_spec(locals, s, **left, full, at0) == Some((Ok::<SpecValue, SpecRuntimeError>(lv), s1, ev1.len())) && eval_spec(locals, s1, **right, full, ev1.len()) == Some((Ok::<SpecValue, SpecRuntimeError>(rv), s2, ev2.len())) && binary_spec(*op, lv, rv, full, ev2.len()) == Some((result_seen(res), self.events@.len())) by {}
                }
                res
            },
            Expr::Variable { name, id } => self.get_var(*id, name),
            Expr::Assign { name, id, value } => {
                let v = self.eval(value);
                proof {
                    assert forall|full: Seq<HostEvent>| log_extends(full, self.events@) implies eval_spec(locals, s, **value, full, at0) == Some((result_seen(v), self.state(), self.events@.len())) by {}
                }
                let v = match v {
                    Ok(v) => v,
                    Err(e) => {
                        return Err(e);
                    },
                };
                self.assign(*id, name, v)
            },
            Expr::Call { callee, paren, arguments } => {
                let c = self.eval(callee);
                let ghost s1 = self.state();
                let ghost ev1 = self.events@;
                let c = match c {
                    Ok(v) => v,
                    Err(e) => {
                        proof {
                            assert forall|full: Seq<HostEvent>| log_extends(full, self.events@) implies eval_spec(locals, s, **callee, full, at0) == Some((Err::<SpecValue, SpecRuntimeError>(e@), s1, ev1.len())) by {}
                        }
                        return Err(e);
                    },
                };
                let args = self.eval_args(arguments, 0);
                let ghost s2 = self.state();
                let ghost ev2 = self.events@;
                proof {
                    lemma_eval_gives_widen(locals, s, **callee, at0, Ok(c@), s1, ev1.len(), ev1, ev2);
                }
                let args = match args {
                    Ok(args) => args,
                    Err(e) => {
                        proof {
                            assert forall|full: Seq<HostEvent>| log_extends(full, self.events@) implies eval_spec(locals, s, **callee, full, at0) == Some((Ok::<SpecValue, SpecRuntimeError>(c@), s1, ev1.len())) && args_spec(locals, s1, arguments@, 0, full, ev1.len()) == Some((Err::<Seq<SpecValue>, SpecRuntimeError>(e@), s2, ev2.len())) by {}
                        }
                        return Err(e);
                    },
                };
                let ghost cv = c@;
                let ghost argv = values_seen(args@);
                proof {
                    lemma_eval_gives_widen(locals, s, **callee, at0, Ok(cv), s1, ev1.len(), ev1, ev2);
                    assert forall|full: Seq<HostEvent>| log_extends(full, ev2) implies eval_spec(locals, s, **callee, full, at0) == Some((Ok::<SpecValue, SpecRuntimeError>(cv), s1, ev1.len())) && args_spec(locals, s1, arguments@, 0, full, ev1.len()) == Some((Ok::<Seq<SpecValue>, SpecRuntimeError>(argv), s2, ev2.len())) by {}
                }
                let ghost at2 = ev2.len();
                let res = match c {
                    Value::Function(f) => {
                        let res = self.call_function(f, args, paren.pos);
                        proof {
                            assert forall|full: Seq<HostEvent>| log_extends(full, self.events@) implies call_value_spec(locals, s2, cv, argv, paren.pos, full, at2) == Some((result_seen(res), self.state(), self.events@.len())) by {
                                assert(call_spec(locals, s2, f, argv, paren.pos, full, at2) == Some((result_seen(res), self.state(), self.events@.len())));
                            }
                        }
                        res
                    },
                    Value::NativeFunction(k) => {
                        if k >= NATIVE_COUNT {
                            Err(RuntimeError::NotCallable(paren.pos))
                        } else {
                            let (_, arity) = native_info(k);
                            if args.len() != arity {
                                Err(RuntimeError::ArityMismatch { expected: arity, got: args.len() })
                            } else {
                                let res = self.call_native(k, args);
                                proof {
                                    assert forall|full: Seq<HostEvent>| log_extends(full, self.events@) implies call_value_spec(locals, s2, cv, argv, paren.pos, full, at2) == Some((result_seen(res), self.state(), self.events@.len())) by {
                                        assert(native_spec(s2.functions, k as int, argv, full, at2) == Some((result_seen(res), self.events@.len())));
                                    }
                                }
                                res
                            }
                        }
                    },
                    _ => Err(RuntimeError::NotCallable(paren.pos)),
                };
                proof {
                    assert forall|full: Seq<HostEvent>| log_extends(full, self.events@) implies eval_spec(locals, s, **callee, full, at0) == Some((Ok::<SpecValue, SpecRuntimeError>(cv), s1, ev1.len())) && args_spec(locals, s1, arguments@, 0, full, ev1.len()) == Some((Ok::<Seq<SpecValue>, SpecRuntimeError>(argv), s2, at2)) && call_value_spec(locals, s2, cv, argv, paren.pos, full, at2) == Some((result_seen(res), self.state(), self.events@.len())) by {
                        assert(log_extends(full, ev2));
                    }
                }
                res
            },
        }
    }

    /// Evaluates the arguments of a call from the one with index `k` on, in
    /// order, up to the first error.
    fn eval_args(&mut self, arguments: &'p Vec<Expr>, k: usize) -> (r: Result<Vec<Value>, RuntimeError>)
        requires
            old(self).wf(),
            k <= arguments@.len(),
        ensures
            final(self).wf(),
            final(self).effects_before() == old(self).effects_before(),
            final(self).current() == old(self).current(),
            final(self).fuel() <= old(self).fuel(),
            final(self).frames().len() >= old(self).frames().len(),
            final(self).function_count() >= old(self).function_count(),
            final(self).locals_map() == old(self).locals_map(),
            log_extends(final(self).events(), old(self).events()),
            args_gives(
                old(self).locals_map(),
                old(self).state(),
                arguments@,
                k as int,
                old(self).events().len(),
                values_result_seen(r),
                final(self).state(),
                final(self).events().len(),
                final(self).events(),
            ),
        decreases old(self).fuel(), 1int, arguments@.len() - k,
    {
        proof {
            lemma_log_extends_refl(self.events@);
        }
        if k >= arguments.len() {
            let none: Vec<Value> = Vec::new();
            proof {
                assert(values_seen(none@) =~= Seq::<SpecValue>::empty());
            }
            return Ok(none);
        }
        let ghost st0 = self.state();
        let ghost at0 = self.events@.len();
        let ghost ek = arguments@[k as int];
        let v = match self.eval(&arguments[k]) {
            Ok(v) => v,
            Err(e) => {
                proof {
                    assert forall|full: Seq<HostEvent>| log_extends(full, self.events@) implies args_spec(self.locals@, st0, arguments@, k as int, full, at0) == Some((Err::<Seq<SpecValue>, SpecRuntimeError>(e@), self.state(), self.events@.len())) by {
                        assert(eval_spec(self.locals@, st0, ek, full, at0) == Some((Err::<SpecValue, SpecRuntimeError>(e@), self.state(), self.events@.len())));
                    }
                }
                return Err(e);
            },
        };
        let ghost ev1 = self.events@;
        let ghost st1 = self.state();
        let rest = self.eval_args(arguments, k + 1);
        proof {
            assert forall|full: Seq<HostEvent>| log_extends(full, self.events@) implies eval_spec(
                self.locals@,
                st0,
                ek,
                full,
                at0,
            ) == Some((Ok::<SpecValue, SpecRuntimeError>(v@), st1, ev1.len())) && args_spec(
                self.locals@,
                st1,
                arguments@,
                k + 1,
                full,
                ev1.len(),
            ) == Some((values_result_seen(rest), self.state(), self.events@.len())) by {
                assert(log_extends(full, ev1));
            }
        }
        let mut rest = match rest {
            Ok(rest) => rest,
            Err(e) => {
                return Err(e);
            },
        };
        let ghost rest_v = rest@;
        rest.insert(0, v);
        proof {
            assert(values_seen(rest@) =~= seq![v@] + values_seen(rest_v));
        }
        Ok(rest)
    }

    /// Runs a `while` loop: the body, for as long as the condition holds.
    fn run_while(&mut self, condition: &'p Expr, body: &'p Stmt) -> (r: Result<(), RuntimeError>)
        requires
            old(self).wf(),
        ensures
            final(self).wf(),
            final(self).effects_before() == old(self).effects_before(),
            final(self).current() == old(self).current(),
            final(self).fuel() <= old(self).fuel(),
            final(self).frames().len() >= old(self).frames().len(),
            final(self).function_count() >= old(self).function_count(),
            final(self).locals_map() == old(self).locals_map(),
            log_extends(final(self).events(), old(self).events()),
            while_gives(
                old(self).locals_map(),
                old(self).state(),
                *condition,
                *body,
                old(self).events().len(),
                unit_seen(r),
                final(self).state(),
                final(self).events().len(),
                final(self).events(),
            ),
        decreases old(self).fuel(), 1int,
    {
        let ghost locals = self.locals@;
        let ghost st0 = self.state();
        let ghost at0 = self.events@.len();
        proof {
            lemma_log_extends_refl(self.events@);
        }
        loop
            invariant
                self.wf(),
                self.effects_before@ == old(self).effects_before@,
                self.current == old(self).current,
                self.fuel <= old(self).fuel,
                self.env.frames().len() >= old(self).env.frames().len(),
                self.functions@.len() >= old(self).functions@.len(),
                self.locals@ == locals,
                locals == old(self).locals@,
                st0 == old(self).state(),
                at0 == old(self).events().len(),
                log_extends(self.events@, old(self).events@),
                forall|full: Seq<HostEvent>|
                    log_extends(full, self.events@) ==> #[trigger] while_spec(
                        locals,
                        self.state(),
                        *condition,
                        *body,
                        full,
                        self.events@.len(),
                    ) == while_spec(locals, st0, *condition, *body, full, at0),
            decreases self.fuel,
        {
            let ghost stk = self.state();
            let ghost evk = self.events@;
            let c = self.eval(condition);
            proof {
                assert forall|full: Seq<HostEvent>| log_extends(full, self.events@) implies while_spec(
                    locals,
                    stk,
                    *condition,
                    *body,
                    full,
                    evk.len(),
                ) == while_spec(locals, st0, *condition, *body, full, at0) && eval_spec(
                    locals,
                    stk,
                    *condition,
                    full,
                    evk.len(),
                ) == Some((result_seen(c), self.state(), self.events@.len())) by {
                    assert(log_extends(full, evk));
                }
            }
            let c = match c {
                Ok(c) => c,
                Err(e) => {
                    return Err(e);
                },
            };
            if !is_truthy(&c) {
                return Ok(());
            }
            let ghost st1 = self.state();
            let ghost ev1 = self.events@;
            let b = self.execute(body);
            proof {
                assert forall|full: Seq<HostEvent>| log_extends(full, self.events@) implies while_spec(
                    locals,
                    stk,
                    *condition,
                    *body,
                    full,
                    evk.len(),
                ) == while_spec(locals, st0, *condition, *body, full, at0) && eval_spec(
                    locals,
                    stk,
                    *condition,
                    full,
                    evk.len(),
                ) == Some((result_seen(Ok(c)), st1, ev1.len())) && exec_spec(
                    locals,
                    st1,
                    *body,
                    full,
                    ev1.len(),
                ) == Some((unit_seen(b), self.state(), self.events@.len())) by {
                    assert(log_extends(full, evk));
                    assert(log_extends(full, ev1));
                }
            }
            match b {
                Ok(()) => {},
                Err(e) => {
                    return Err(e);
                },
            }
        }
    }

    /// Applies a binary operator to two values.
    fn binary(&mut self, op: Op, left: Value, right: Value) -> (r: Result<Value, RuntimeError>)
        requires
            old(self).wf(),
        ensures
            final(self).wf(),
            final(self).effects_before() == old(self).effects_before(),
            final(self).state() == old(self).state(),
            final(self).current() == old(self).current(),
            final(self).fuel() == old(self).fuel(),
            final(self).frames().len() == old(self).frames().len(),
            final(self).function_count() == old(self).function_count(),
            final(self).locals_map() == old(self).locals_map(),
            log_extends(final(self).events(), old(self).events()),
            forall|full: Seq<HostEvent>|
                log_extends(full, final(self).events()) ==> #[trigger] binary_spec(
                    op,
                    left@,
                    right@,
                    full,
                    old(self).events().len(),
                ) == Some((result_seen(r), final(self).events().len())),
    {
        let ghost lv = left@;
        let ghost rv = right@;
        proof {
            lemma_log_extends_refl(self.events@);
        }
        match op {
            Op::Equal => Ok(Value::Bool(left.lox_eq(&right))),
            Op::NotEqual => Ok(Value::Bool(!left.lox_eq(&right))),
            Op::LessThan => left.less(right),
            Op::LessThanEqual => left.less_eq(right),
            Op::GreaterThan => left.greater(right),
            Op::GreaterThanEqual => left.greater_eq(right),
            Op::Add | Op::Sub | Op::Mul | Op::Div => {
                let r = match op {
                    Op::Add => left.lox_add(right, &self.host),
                    Op::Sub => left.lox_sub(right, &self.host),
                    Op::Mul => left.lox_mul(right, &self.host),
                    _ => left.lox_div(right, &self.host),
                };
                proof {
                    match (lv, rv) {
                        (ValueOf::Number(a), ValueOf::Number(b)) => {
                            if !(op == Op::Div && is_zero(b)) {
                                match r {
                                    Ok(ValueOf::Number(n)) => {
                                        let e = HostEvent::Arithmetic { op, lhs: a, rhs: b, answer: n };
                                        lemma_record::<H>(self.events@, e);
                                        self.events@ = self.events@.push(e);
                                    },
                                    _ => {},
                                }
                            }
                        },
                        _ => {},
                    }
                }
                r
            },
            _ => {
                let mut msg = message("'");
                msg.append(op_symbol(op));
                msg.append("' is not a valid binary operator");
                Err(RuntimeError::InvalidOperator { msg })
            },
        }
    }

    /// Binds each parameter to its argument in the environment `frame`.
    fn bind_args(&mut self, frame: usize, params: &Vec<String>, args: &Vec<Value>)
        requires
            old(self).wf(),
            frame < old(self).env.frames().len(),
            args@.len() == params@.len(),
        ensures
            final(self).wf(),
            final(self).effects_before() == old(self).effects_before(),
            final(self).env.frames().len() == old(self).env.frames().len(),
            final(self).current == old(self).current,
            final(self).fuel == old(self).fuel,
            final(self).functions@ == old(self).functions@,
            final(self).locals@ == old(self).locals@,
            final(self).events@ == old(self).events@,
            frames_seen(final(self).env.frames()) == bind_params(
                frames_seen(old(self).env.frames()),
                frame as int,
                params@,
                values_seen(args@),
                params@.len(),
            ),
    {
        let ghost start = frames_seen(self.env.frames());
        let mut i: usize = 0;
        while i < params.len()
            invariant
                self.wf(),
                self.effects_before@ == old(self).effects_before@,
                frame < self.env.frames().len(),
                self.env.frames().len() == old(self).env.frames().len(),
                self.current == old(self).current,
                self.fuel == old(self).fuel,
                self.functions@ == old(self).functions@,
                self.locals@ == old(self).locals@,
                self.events@ == old(self).events@,
                start == frames_seen(old(self).env.frames()),
                args@.len() == params@.len(),
                i <= params@.len(),
                frames_seen(self.env.frames()) == bind_params(
                    start,
                    frame as int,
                    params@,
                    values_seen(args@),
                    i as nat,
                ),
            decreases params@.len() - i,
        {
            let ghost before = self.env.frames();
            self.env.define(frame, &params[i], args[i].copy());
            proof {
                lemma_frames_put_seen(before, frame as int, params@[i as int]@, args@[i as int]);
            }
            i = i + 1;
        }
    }

    /// Calls the declared function with index `f` on `args`.
    fn call_function(&mut self, f: usize, args: Vec<Value>, pos: (usize, usize)) -> (r: Result<
        Value,
        RuntimeError,
    >)
        requires
            old(self).wf(),
        ensures
            final(self).wf(),
            final(self).effects_before() == old(self).effects_before(),
            final(self).current() == old(self).current(),
            final(self).fuel() <= old(self).fuel(),
            final(self).frames().len() >= old(self).frames().len(),
            final(self).function_count() >= old(self).function_count(),
            final(self).locals_map() == old(self).locals_map(),
            log_extends(final(self).events(), old(self).events()),
            call_gives(
                old(self).locals_map(),
                old(self).state(),
                f,
                values_seen(args@),
                pos,
                old(self).events().len(),
                result_seen(r),
                final(self).state(),
                final(self).events().len(),
                final(self).events(),
            ),
        decreases old(self).fuel(), 2int,
    {
        proof {
            lemma_log_extends_refl(self.events@);
        }
        if f >= self.functions.len() {
            return Err(RuntimeError::NotCallable(pos));
        }
        let params = self.functions[f].params;
        let body = self.functions[f].body;
        let closure = self.functions[f].closure;
        if args.len() != params.len() {
            return Err(RuntimeError::ArityMismatch { expected: params.len(), got: args.len() });
        }
        let saved = self.current;
        let ghost frames0 = self.env.frames();
        let frame = match self.env.new_enclosed(closure) {
            Some(e) => e,
            None => {
                return Err(RuntimeError::LimitReached);
            },
        };
        let ghost pushed = frames_seen(frames0).push(
            FrameView { vars: Seq::empty(), parent: Some(closure) },
        );
        proof {
            lemma_frames_push_seen(frames0, Some(closure));
        }
        self.bind_args(frame, params, &args);
        self.current = frame;
        let ghost s1 = self.state();
        let ghost at0 = self.events@.len();
        let res = self.run_stmts(body.as_slice());
        let ghost s2 = self.state();
        self.current = saved;
        let r = call_outcome(res);
        proof {
            let st = old(self).state();
            let argv = values_seen(args@);
            let fun = st.functions[f as int];
            assert(fun == fun_seen(old(self).functions@[f as int]));
            assert(s1 == (IState {
                frames: bind_params(
                    st.frames.push(FrameView { vars: Seq::empty(), parent: Some(fun.closure) }),
                    st.frames.len() as int,
                    fun.params,
                    argv,
                    argv.len(),
                ),
                current: st.frames.len() as int,
                functions: st.functions,
                fuel: st.fuel,
            }));
            assert(self.state() == with_current(s2, st.current));
            assert forall|full: Seq<HostEvent>| log_extends(full, self.events@) implies call_spec(
                old(self).locals@,
                st,
                f,
                argv,
                pos,
                full,
                at0,
            ) == Some((result_seen(r), self.state(), self.events@.len())) by {
                assert(block_spec(old(self).locals@, s1, fun.body, 0, full, at0) == Some(
                    (unit_seen(res), s2, self.events@.len()),
                ));
            }
        }
        r
    }

    /// Calls the built-in function with index `k` on `args`, which are as
    /// many as it takes.
    fn call_native(&mut self, k: usize, args: Vec<Value>) -> (r: Result<Value, RuntimeError>)
        requires
            old(self).wf(),
            k < NATIVE_COUNT,
            args@.len() == native_arity(k as int),
        ensures
            final(self).wf(),
            final(self).effects_before() == old(self).effects_before(),
            final(self).state() == old(self).state(),
            final(self).current() == old(self).current(),
            final(self).fuel() == old(self).fuel(),
            final(self).frames().len() == old(self).frames().len(),
            final(self).function_count() == old(self).function_count(),
            final(self).locals_map() == old(self).locals_map(),
            log_extends(final(self).events(), old(self).events()),
            forall|full: Seq<HostEvent>|
                log_extends(full, final(self).events()) ==> #[trigger] native_spec(
                    old(self).state().functions,
                    k as int,
                    values_seen(args@),
                    full,
                    old(self).events().len(),
                ) == Some((result_seen(r), final(self).events().len())),
    {
        proof {
            lemma_log_extends_refl(self.events@);
            if args@.len() > 0 {
                assert(values_seen(args@)[0] == args@[0]@);
            }
            if args@.len() > 1 {
                assert(values_seen(args@)[1] == args@[1]@);
            }
        }
        if k == 0 {
            let t = self.host.clock();
            proof {
                let e = HostEvent::Clock { answer: t };
                lemma_record::<H>(self.events@, e);
                self.events@ = self.events@.push(e);
            }
            return Ok(Value::Number(t));
        }
        if k <= 5 {
            let f = if k == 1 {
                MathFn::Sqrt
            } else if k == 2 {
                MathFn::Floor
            } else if k == 3 {
                MathFn::Ceil
            } else if k == 4 {
                MathFn::Abs
            } else {
                MathFn::Pow
            };
            let x = match &args[0] {
                Value::Number(n) => *n,
                _ => {
                    return Err(RuntimeError::TypeError { msg: message("expected a number") });
                },
            };
            let y = if k == 5 {
                match &args[1] {
                    Value::Number(n) => *n,
                    _ => {
                        return Err(RuntimeError::TypeError { msg: message("expected a number") });
                    },
                }
            } else {
                0
            };
            let m = self.host.math(f, x, y);
            proof {
                let e = HostEvent::Math { f, x, y, answer: m };
                lemma_record::<H>(self.events@, e);
                self.events@ = self.events@.push(e);
            }
            return Ok(Value::Number(m));
        }
        if k == 6 {
            let t = match &args[0] {
                Value::Number(_) => "number",
                Value::String(_) => "string",
                Value::Bool(_) => "bool",
                Value::Nil => "nil",
                Value::Function(_) => "fun",
                Value::NativeFunction(_) => "native_fun",
            };
            return Ok(Value::String(message(t)));
        }
        if k == 7 {
            let text = self.display(&args[0]);
            proof {
                match args@[0] {
                    ValueOf::Number(n) => {
                        let e = HostEvent::NumberText { n, answer: text@ };
                        lemma_record::<H>(self.events@, e);
                        self.events@ = self.events@.push(e);
                    },
                    _ => {},
                }
            }
            return Ok(Value::String(text));
        }
        if k == 8 {
            return match &args[0] {
                Value::Number(n) => Ok(Value::Number(*n)),
                Value::String(s) => {
                    let parsed = self.host.parse_number(s);
                    proof {
                        let e = HostEvent::ParseNumber { text: *s, answer: parsed };
                        lemma_record::<H>(self.events@, e);
                        self.events@ = self.events@.push(e);
                    }
                    match parsed {
                        Some(n) => Ok(Value::Number(n)),
                        None => Ok(Value::Nil),
                    }
                },
                _ => Ok(Value::Nil),
            };
        }
        if k == 9 {
            return match &args[0] {
                Value::String(s) => {
                    let len = s.as_str().len();
                    let n = self.host.count(len);
                    proof {
                        let e = HostEvent::Count { text: s@, len, answer: n };
                        lemma_record::<H>(self.events@, e);
                        self.events@ = self.events@.push(e);
                    }
                    Ok(Value::Number(n))
                },
                _ => Err(RuntimeError::TypeError { msg: message("expected string") }),
            };
        }
        if k == 10 {
            return match &args[0] {
                Value::String(path) => {
                    let got = self.host.read_file(path);
                    proof {
                        let e = HostEvent::ReadFile { path: path@, answer: text_result_seen(got) };
                        lemma_record::<H>(self.events@, e);
                        self.events@ = self.events@.push(e);
                    }
                    match got {
                        Ok(contents) => Ok(Value::String(contents)),
                        Err(_) => Ok(Value::Nil),
                    }
                },
                _ => Err(RuntimeError::TypeError { msg: message("expected string path") }),
            };
        }
        match (&args[0], &args[1]) {
            (Value::String(path), Value::String(content)) => {
                if k == 11 {
                    let done = self.host.write_file(path, content);
                    proof {
                        let e = HostEvent::WriteFile {
                            path: path@,
                            content: content@,
                            answer: done_result_seen(done),
                        };
                        lemma_record::<H>(self.events@, e);
                        self.events@ = self.events@.push(e);
                    }
                    Ok(Value::Bool(done.is_ok()))
                } else {
                    let done = self.host.append_file(path, content);
                    proof {
                        let e = HostEvent::AppendFile { path: path@, content: content@, answer: done };
                        lemma_record::<H>(self.events@, e);
                        self.events@ = self.events@.push(e);
                    }
                    Ok(Value::Bool(done))
                }
            },
            _ => Err(RuntimeError::TypeError { msg: message("expected string path") }),
        }
    }

    /// Runs a statement: what `exec_spec` says of it, the host answering as
    /// the events this call adds record.
    pub fn execute(&mut self, stmt: &'p Stmt) -> (r: Result<(), RuntimeError>)
        requires
            old(self).wf(),
        ensures
            final(self).wf(),
            final(self).effects_before() == old(self).effects_before(),
            final(self).current() == old(self).current(),
            final(self).fuel() <= old(self).fuel(),
            final(self).frames().len() >= old(self).frames().len(),
            final(self).function_count() >= old(self).function_count(),
            final(self).locals_map() == old(self).locals_map(),
            old(self).fuel() == 0 ==> r == Err::<(), RuntimeError>(RuntimeError::LimitReached),
            old(self).fuel() > 0 ==> final(self).fuel() < old(self).fuel(),
            log_extends(final(self).events(), old(self).events()),
            answers_agree::<H>(final(self).events()),
            final(self).host_spec().effects() == final(self).effects_before() + effects_of(
                final(self).events(),
            ),
            exec_gives(
                old(self).locals_map(),
                old(self).state(),
                *stmt,
                old(self).events().len(),
                unit_seen(r),
                final(self).state(),
                final(self).events().len(),
                final(self).events(),
            ),
        decreases old(self).fuel(), 0int,
    {
        proof {
            lemma_log_extends_refl(self.events@);
        }
        if self.fuel == 0 {
            return Err(RuntimeError::LimitReached);
        }
        self.fuel = self.fuel - 1;
        let ghost locals = self.locals@;
        let ghost s = self.state();
        let ghost at0 = self.events@.len();
        proof {
            assert(s == spend(old(self).state()));
        }
        match stmt {
            Stmt::Print(expr) => {
                let value = self.eval(expr);
                let ghost s1 = self.state();
                let ghost ev1 = self.events@;
                let value = match value {
                    Ok(v) => v,
                    Err(e) => {
                        proof {
                            assert forall|full: Seq<HostEvent>| log_extends(full, self.events@) implies eval_spec(locals, s, *expr, full, at0) == Some((Err::<SpecValue, SpecRuntimeError>(e@), s1, ev1.len())) by {}
                        }
                        return Err(e);
                    },
                };
                let text = self.display(&value);
                proof {
                    match value@ {
                        ValueOf::Number(n) => {
                            let e = HostEvent::NumberText { n, answer: text@ };
                            lemma_record::<H>(self.events@, e);
                            self.events@ = self.events@.push(e);
                        },
                        _ => {},
                    }
                }
                let ghost ev2 = self.events@;
                self.host.print_line(&text);
                proof {
                    let e = HostEvent::Print { text: text@ };
                    lemma_record::<H>(self.events@, e);
                    self.events@ = self.events@.push(e);
                    lemma_eval_gives_widen(locals, s, *expr, at0, Ok(value@), s1, ev1.len(), ev1, self.events@);
                    assert(self.events@[ev2.len() as int] == HostEvent::Print { text: text@ });
                    assert(ev2.len() < self.events@.len());
                    assert forall|full: Seq<HostEvent>| log_extends(full, self.events@) implies eval_spec(locals, s, *expr, full, at0) == Some((Ok::<SpecValue, SpecRuntimeError>(value@), s1, ev1.len())) by {}
                    assert forall|full: Seq<HostEvent>| log_extends(full, self.events@) implies display_spec(s1.functions, value@, full, ev1.len()) == Some((text@, ev2.len())) by {
                        assert(log_extends(full, ev2));
                    }
                    assert forall|full: Seq<HostEvent>| log_extends(full, self.events@) implies event_at(full, ev2.len()) == Some(HostEvent::Print { text: text@ }) by {}
                    assert(self.state() == s1);
                }
                Ok(())
            },
            Stmt::Expression(expr) => {
                let v = self.eval(expr);
                proof {
                    assert forall|full: Seq<HostEvent>| log_extends(full, self.events@) implies eval_spec(locals, s, *expr, full, at0) == Some((result_seen(v), self.state(), self.events@.len())) by {}
                }
                match v {
                    Ok(_) => Ok(()),
                    Err(e) => Err(e),
                }
            },
            Stmt::Var { name, initializer } => {
                let value = match initializer {
                    Some(expr) => {
                        let v = self.eval(expr);
                        proof {
                            assert forall|full: Seq<HostEvent>| log_extends(full, self.events@) implies eval_spec(locals, s, *expr, full, at0) == Some((result_seen(v), self.state(), self.events@.len())) by {}
                        }
                        match v {
                            Ok(v) => v,
                            Err(e) => {
                                return Err(e);
                            },
                        }
                    },
                    None => Value::Nil,
                };
                let ghost v = value;
                let ghost before = self.env.frames();
                let ghost s1 = self.state();
                self.env.define(self.current, name, value);
                proof {
                    lemma_frames_put_seen(before, self.current as int, name@, v);
                    assert(self.state() == with_frames(s1, frames_put(s1.frames, s1.current, name@, v@)));
                }
                Ok(())
            },
            Stmt::Block(stmts) => {
                let saved = self.current;
                let ghost frames0 = self.env.frames();
                let inner = match self.env.new_enclosed(saved) {
                    Some(e) => e,
                    None => {
                        return Err(RuntimeError::LimitReached);
                    },
                };
                proof {
                    lemma_frames_push_seen(frames0, Some(saved));
                }
                self.current = inner;
                let ghost s1 = self.state();
                let res = self.run_stmts(stmts.as_slice());
                let ghost s2 = self.state();
                self.current = saved;
                proof {
                    assert(s1 == (IState {
                        frames: s.frames.push(FrameView { vars: Seq::empty(), parent: Some(s.current as usize) }),
                        current: s.frames.len() as int,
                        functions: s.functions,
                        fuel: s.fuel,
                    }));
                    assert(self.state() == with_current(s2, s.current));
                    assert forall|full: Seq<HostEvent>| log_extends(full, self.events@) implies block_spec(locals, s1, stmts@, 0, full, at0) == Some((unit_seen(res), s2, self.events@.len())) by {}
                }
                res
            },
            Stmt::If { condition, then_branch, else_branch } => {
                let c = self.eval(condition);
                let ghost s1 = self.state();
                let ghost ev1 = self.events@;
                let c = match c {
                    Ok(v) => v,
                    Err(e) => {
                        proof {
                            assert forall|full: Seq<HostEvent>| log_extends(full, self.events@) implies eval_spec(locals, s, *condition, full, at0) == Some((Err::<SpecValue, SpecRuntimeError>(e@), s1, ev1.len())) by {}
                        }
                        return Err(e);
                    },
                };
                let ghost cv = c@;
                proof {
                    lemma_log_extends_refl(ev1);
                }
                let res = if is_truthy(&c) {
                    let res = self.execute(then_branch);
                    proof {
                        assert forall|full: Seq<HostEvent>| log_extends(full, self.events@) implies exec_spec(locals, s1, **then_branch, full, ev1.len()) == Some((unit_seen(res), self.state(), self.events@.len())) by {}
                    }
                    res
                } else if let Some(else_branch) = else_branch {
                    let res = self.execute(else_branch);
                    proof {
                        assert forall|full: Seq<HostEvent>| log_extends(full, self.events@) implies exec_spec(locals, s1, **else_branch, full, ev1.len()) == Some((unit_seen(res), self.state(), self.events@.len())) by {}
                    }
                    res
                } else {
                    Ok(())
                };
                proof {
                    lemma_eval_gives_widen(locals, s, *condition, at0, Ok(cv), s1, ev1.len(), ev1, self.events@);
                    assert forall|full: Seq<HostEvent>| log_extends(full, self.events@) implies eval_spec(locals, s, *condition, full, at0) == Some((Ok::<SpecValue, SpecRuntimeError>(cv), s1, ev1.len())) by {}
                }
                res
            },
            Stmt::While { condition, body } => {
                let res = self.run_while(condition, body);
                proof {
                    assert forall|full: Seq<HostEvent>| log_extends(full, self.events@) implies while_spec(locals, s, *condition, **body, full, at0) == Some((unit_seen(res), self.state(), self.events@.len())) by {}
                }
                res
            },
            Stmt::Function { name, params, body } => {
                let f = self.functions.len();
                let fun = LoxFunction { name, params, body, closure: self.current };
                let ghost fs = self.functions@;
                self.functions.push(fun);
                let ghost before = self.env.frames();
                self.env.define(self.current, name, Value::Function(f));
                proof {
                    lemma_frames_put_seen(before, self.current as int, name@, Value::Function(f));
                    assert(self.functions@.map_values(|g: LoxFunction<'p>| fun_seen(g)) =~= fs.map_values(
                        |g: LoxFunction<'p>| fun_seen(g),
                    ).push(fun_seen(fun)));
                }
                Ok(())
            },
            Stmt::Return { value } => {
                let val = match value {
                    Some(expr) => {
                        let v = self.eval(expr);
                        proof {
                            assert forall|full: Seq<HostEvent>| log_extends(full, self.events@) implies eval_spec(locals, s, *expr, full, at0) == Some((result_seen(v), self.state(), self.events@.len())) by {}
                        }
                        match v {
                            Ok(v) => v,
                            Err(e) => {
                                return Err(e);
                            },
                        }
                    },
                    None => Value::Nil,
                };
                Err(RuntimeError::Unwind(Unwind::Return(val)))
            },
        }
    }
}

} // verus!
