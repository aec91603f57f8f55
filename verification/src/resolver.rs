//! The resolver: a static pass over the syntax tree that finds, for each
//! variable reference and assignment inside a local scope, how many scopes
//! out its variable lives, and rejects a few programs that cannot run.
//!
//! What it does is stated by [`resolve_stmt_spec`] and [`resolve_expr_spec`]
//! over the abstract state [`ResolverState`].
use vstd::prelude::*;
use std::collections::HashMap;
use crate::errors::ResolveError;
use crate::nodes::{Expr, Stmt};
use crate::text::str_eq;

verus! {

broadcast use vstd::std_specs::hash::group_hash_axioms;

/// A scope: the names declared in it, in order, each with whether its
/// initializer has been resolved. A later entry for a name hides an earlier
/// one.
pub type ScopeView = Seq<(Seq<char>, bool)>;

/// What the resolver knows at some point of its walk.
pub struct ResolverState {
    /// the open local scopes, innermost last
    pub scopes: Seq<ScopeView>,
    /// whether the walk is inside a function body
    pub in_function: bool,
    /// the global variable whose initializer is being resolved, if any
    pub global_pending: Option<Seq<char>>,
    /// for each resolved reference, by its id, how many scopes out its
    /// variable lives
    pub locals: Map<usize, usize>,
}

/// Where a walk ended: its outcome, and the state it left.
pub struct Resolution {
    pub result: Result<(), ResolveError>,
    pub state: ResolverState,
}

/// The entry that `scope` holds for `name`, if any: whether it is
/// initialized.
pub open spec fn scope_lookup(scope: ScopeView, name: Seq<char>) -> Option<bool>
    decreases scope.len(),
{
    if scope.len() == 0 {
        None
    } else if scope.last().0 == name {
        Some(scope.last().1)
    } else {
        scope_lookup(scope.drop_last(), name)
    }
}

/// `st` with an entry for `name` added to its innermost scope; at the
/// global level, with `name` pending until it is initialized.
pub open spec fn with_entry(st: ResolverState, name: Seq<char>, initialized: bool) -> ResolverState {
    if st.scopes.len() == 0 {
        ResolverState {
            global_pending: if initialized {
                None
            } else {
                Some(name)
            },
            ..st
        }
    } else {
        ResolverState {
            scopes: st.scopes.update(
                st.scopes.len() - 1,
                st.scopes.last().push((name, initialized)),
            ),
            ..st
        }
    }
}

/// How many scopes out from the innermost one the nearest scope holding
/// `name` lies, if any does.
pub open spec fn depth_of(scopes: Seq<ScopeView>, name: Seq<char>) -> Option<nat>
    decreases scopes.len(),
{
    if scopes.len() == 0 {
        None
    } else if scope_lookup(scopes.last(), name) is Some {
        Some(0)
    } else {
        match depth_of(scopes.drop_last(), name) {
            Some(d) => Some(d + 1),
            None => None,
        }
    }
}

/// `st` with the reference `id` to `name` recorded at its depth, where some
/// open scope holds the name (else the variable is global and nothing is
/// recorded).
pub open spec fn with_local(st: ResolverState, id: usize, name: Seq<char>) -> ResolverState {
    match depth_of(st.scopes, name) {
        Some(d) => ResolverState { locals: st.locals.insert(id, d as usize), ..st },
        None => st,
    }
}

/// `st` with a new innermost scope.
pub open spec fn scope_in(st: ResolverState) -> ResolverState {
    ResolverState { scopes: st.scopes.push(Seq::empty()), ..st }
}

/// `st` without its innermost scope.
pub open spec fn scope_out(st: ResolverState) -> ResolverState {
    if st.scopes.len() == 0 {
        st
    } else {
        ResolverState { scopes: st.scopes.drop_last(), ..st }
    }
}

pub open spec fn ok_at(st: ResolverState) -> Resolution {
    Resolution { result: Ok(()), state: st }
}

/// Whether `name` is declared in the innermost scope (the global level
/// where no local scope is open) and not initialized yet.
pub open spec fn in_own_initializer(st: ResolverState, name: Seq<char>) -> bool {
    if st.scopes.len() > 0 {
        scope_lookup(st.scopes.last(), name) == Some(false)
    } else {
        st.global_pending == Some(name)
    }
}

/// Resolving the expression `e` from the state `st`.
pub open spec fn resolve_expr_spec(st: ResolverState, e: Expr) -> Resolution
    decreases e, 0int,
{
    match e {
        Expr::Variable { name, id } => {
            if in_own_initializer(st, name@) {
                Resolution {
                    result: Err(ResolveError::VariableInOwnInititalizer { name }),
                    state: st,
                }
            } else {
                ok_at(with_local(st, id, name@))
            }
        },
        Expr::Assign { name, id, value } => {
            let r = resolve_expr_spec(st, *value);
            if r.result is Err {
                r
            } else {
                ok_at(with_local(r.state, id, name@))
            }
        },
        Expr::Binary { op, right, left } => {
            let r = resolve_expr_spec(st, *left);
            if r.result is Err {
                r
            } else {
                resolve_expr_spec(r.state, *right)
            }
        },
        Expr::Logical { left, op, right } => {
            let r = resolve_expr_spec(st, *left);
            if r.result is Err {
                r
            } else {
                resolve_expr_spec(r.state, *right)
            }
        },
        Expr::Unary { op, right } => resolve_expr_spec(st, *right),
        Expr::Grouping(inner) => resolve_expr_spec(st, *inner),
        Expr::Call { callee, paren, arguments } => {
            let r = resolve_expr_spec(st, *callee);
            if r.result is Err {
                r
            } else {
                resolve_args_spec(r.state, arguments@, 0)
            }
        },
        Expr::Literal(_) => ok_at(st),
    }
}

/// Resolving the expressions `es[i..]` in order from `st`, up to the first
/// error.
pub open spec fn resolve_args_spec(st: ResolverState, es: Seq<Expr>, i: int) -> Resolution
    decreases es, es.len() - i,
{
    if i < 0 || i >= es.len() {
        ok_at(st)
    } else {
        let r = resolve_expr_spec(st, es[i]);
        if r.result is Err {
            r
        } else {
            resolve_args_spec(r.state, es, i + 1)
        }
    }
}

/// `st` with each of `params[i..]` declared and defined, in order.
pub open spec fn with_params(st: ResolverState, params: Seq<String>, i: int) -> ResolverState
    decreases params.len() - i,
{
    if i < 0 || i >= params.len() {
        st
    } else {
        with_params(
            with_entry(with_entry(st, params[i]@, false), params[i]@, true),
            params,
            i + 1,
        )
    }
}

/// Resolving the statement `s` from the state `st`.
pub open spec fn resolve_stmt_spec(st: ResolverState, s: Stmt) -> Resolution
    decreases s, 0int,
{
    match s {
        Stmt::Block(stmts) => {
            let r = resolve_stmts_spec(scope_in(st), stmts@, 0);
            if r.result is Err {
                r
            } else {
                ok_at(scope_out(r.state))
            }
        },
        Stmt::Var { name, initializer } => {
            let st1 = with_entry(st, name@, false);
            match initializer {
                Some(init) => {
                    let r = resolve_expr_spec(st1, init);
                    if r.result is Err {
                        r
                    } else {
                        ok_at(with_entry(r.state, name@, true))
                    }
                },
                None => ok_at(with_entry(st1, name@, true)),
            }
        },
        Stmt::Function { name, params, body } => {
            let st1 = with_entry(with_entry(st, name@, false), name@, true);
            let st2 = with_params(scope_in(ResolverState { in_function: true, ..st1 }), params@, 0);
            let r = resolve_stmts_spec(st2, body@, 0);
            if r.result is Err {
                r
            } else {
                ok_at(ResolverState { in_function: st1.in_function, ..scope_out(r.state) })
            }
        },
        Stmt::Return { value } => {
            if !st.in_function {
                Resolution { result: Err(ResolveError::ReturnOutsideFunction), state: st }
            } else {
                match value {
                    Some(e) => resolve_expr_spec(st, e),
                    None => ok_at(st),
                }
            }
        },
        Stmt::Expression(e) => resolve_expr_spec(st, e),
        Stmt::Print(e) => resolve_expr_spec(st, e),
        Stmt::If { condition, then_branch, else_branch } => {
            let r = resolve_expr_spec(st, condition);
            if r.result is Err {
                r
            } else {
                let r2 = resolve_stmt_spec(r.state, *then_branch);
                if r2.result is Err {
                    r2
                } else {
                    match else_branch {
                        Some(b) => resolve_stmt_spec(r2.state, *b),
                        None => r2,
                    }
                }
            }
        },
        Stmt::While { condition, body } => {
            let r = resolve_expr_spec(st, condition);
            if r.result is Err {
                r
            } else {
                resolve_stmt_spec(r.state, *body)
            }
        },
    }
}

/// Resolving the statements `ss[i..]` in order from `st`, up to the first
/// error.
pub open spec fn resolve_stmts_spec(st: ResolverState, ss: Seq<Stmt>, i: int) -> Resolution
    decreases ss, ss.len() - i,
{
    if i < 0 || i >= ss.len() {
        ok_at(st)
    } else {
        let r = resolve_stmt_spec(st, ss[i]);
        if r.result is Err {
            r
        } else {
            resolve_stmts_spec(r.state, ss, i + 1)
        }
    }
}

/// Resolving an expression opens and closes no scope and leaves the
/// function flag alone (it only records depths), whether it succeeds or not.
pub proof fn law_resolve_expr_keeps_scopes(st: ResolverState, e: Expr)
    ensures
        resolve_expr_spec(st, e).state.scopes == st.scopes,
        resolve_expr_spec(st, e).state.in_function == st.in_function,
    decreases e, 0int,
{
    match e {
        Expr::Assign { name, id, value } => {
            law_resolve_expr_keeps_scopes(st, *value);
        },
        Expr::Binary { op, right, left } => {
            law_resolve_expr_keeps_scopes(st, *left);
            law_resolve_expr_keeps_scopes(resolve_expr_spec(st, *left).state, *right);
        },
        Expr::Logical { left, op, right } => {
            law_resolve_expr_keeps_scopes(st, *left);
            law_resolve_expr_keeps_scopes(resolve_expr_spec(st, *left).state, *right);
        },
        Expr::Unary { op, right } => {
            law_resolve_expr_keeps_scopes(st, *right);
        },
        Expr::Grouping(inner) => {
            law_resolve_expr_keeps_scopes(st, *inner);
        },
        Expr::Call { callee, paren, arguments } => {
            law_resolve_expr_keeps_scopes(st, *callee);
            lemma_resolve_args_keeps_scopes(resolve_expr_spec(st, *callee).state, arguments@, 0);
        },
        _ => {},
    }
}

proof fn lemma_resolve_args_keeps_scopes(st: ResolverState, es: Seq<Expr>, i: int)
    ensures
        resolve_args_spec(st, es, i).state.scopes == st.scopes,
        resolve_args_spec(st, es, i).state.in_function == st.in_function,
    decreases es, es.len() - i,
{
    if 0 <= i < es.len() {
        law_resolve_expr_keeps_scopes(st, es[i]);
        lemma_resolve_args_keeps_scopes(resolve_expr_spec(st, es[i]).state, es, i + 1);
    }
}

proof fn lemma_with_params_keeps_depth(st: ResolverState, params: Seq<String>, i: int)
    ensures
        with_params(st, params, i).scopes.len() == st.scopes.len(),
        with_params(st, params, i).in_function == st.in_function,
    decreases params.len() - i,
{
    if 0 <= i < params.len() {
        let st1 = with_entry(with_entry(st, params[i]@, false), params[i]@, true);
        lemma_with_params_keeps_depth(st1, params, i + 1);
    }
}

/// Law: a statement that resolves without error leaves as many scopes open
/// as it found, and the walk inside or outside a function body as it was:
/// blocks and function bodies close the scopes they open.
pub proof fn law_resolve_stmt_keeps_depth(st: ResolverState, s: Stmt)
    ensures
        resolve_stmt_spec(st, s).result is Ok ==> {
            &&& resolve_stmt_spec(st, s).state.scopes.len() == st.scopes.len()
            &&& resolve_stmt_spec(st, s).state.in_function == st.in_function
        },
    decreases s, 0int,
{
    match s {
        Stmt::Block(stmts) => {
            lemma_resolve_stmts_keeps_depth(scope_in(st), stmts@, 0);
        },
        Stmt::Var { name, initializer } => {
            match initializer {
                Some(init) => {
                    law_resolve_expr_keeps_scopes(with_entry(st, name@, false), init);
                },
                None => {},
            }
        },
        Stmt::Function { name, params, body } => {
            let st1 = with_entry(with_entry(st, name@, false), name@, true);
            let st2 = with_params(scope_in(ResolverState { in_function: true, ..st1 }), params@, 0);
            lemma_with_params_keeps_depth(scope_in(ResolverState { in_function: true, ..st1 }), params@, 0);
            lemma_resolve_stmts_keeps_depth(st2, body@, 0);
        },
        Stmt::Return { value } => {
            match value {
                Some(e) => {
                    law_resolve_expr_keeps_scopes(st, e);
                },
                None => {},
            }
        },
        Stmt::Expression(e) => {
            law_resolve_expr_keeps_scopes(st, e);
        },
        Stmt::Print(e) => {
            law_resolve_expr_keeps_scopes(st, e);
        },
        Stmt::If { condition, then_branch, else_branch } => {
            law_resolve_expr_keeps_scopes(st, condition);
            let r = resolve_expr_spec(st, condition);
            law_resolve_stmt_keeps_depth(r.state, *then_branch);
            match else_branch {
                Some(b) => {
                    law_resolve_stmt_keeps_depth(resolve_stmt_spec(r.state, *then_branch).state, *b);
                },
                None => {},
            }
        },
        Stmt::While { condition, body } => {
            law_resolve_expr_keeps_scopes(st, condition);
            law_resolve_stmt_keeps_depth(resolve_expr_spec(st, condition).state, *body);
        },
    }
}

proof fn lemma_resolve_stmts_keeps_depth(st: ResolverState, ss: Seq<Stmt>, i: int)
    ensures
        resolve_stmts_spec(st, ss, i).result is Ok ==> {
            &&& resolve_stmts_spec(st, ss, i).state.scopes.len() == st.scopes.len()
            &&& resolve_stmts_spec(st, ss, i).state.in_function == st.in_function
        },
    decreases ss, ss.len() - i,
{
    if 0 <= i < ss.len() {
        law_resolve_stmt_keeps_depth(st, ss[i]);
        lemma_resolve_stmts_keeps_depth(resolve_stmt_spec(st, ss[i]).state, ss, i + 1);
    }
}

/// Law: a `return` outside any function body is rejected.
pub proof fn law_return_outside_function(st: ResolverState, value: Option<Expr>)
    requires
        !st.in_function,
    ensures
        resolve_stmt_spec(st, Stmt::Return { value }).result == Err::<(), ResolveError>(
            ResolveError::ReturnOutsideFunction,
        ),
{
}

/// Law: a variable whose initializer reads the variable itself is
/// rejected, in a local scope and at the global level alike.
pub proof fn law_variable_in_own_initializer(
    st: ResolverState,
    name: String,
    read: String,
    id: usize,
)
    requires
        read@ == name@,
    ensures
        resolve_stmt_spec(
            st,
            Stmt::Var { name, initializer: Some(Expr::Variable { name: read, id }) },
        ).result == Err::<(), ResolveError>(ResolveError::VariableInOwnInititalizer { name: read }),
{
    let st1 = with_entry(st, name@, false);
    if st.scopes.len() > 0 {
        assert(st1.scopes.last() == st.scopes.last().push((name@, false)));
        assert(scope_lookup(st1.scopes.last(), read@) == Some(false));
    }
}

/// Law: a reference resolved inside local scopes is recorded at the depth
/// of the nearest scope that declares its name; one to a name no open scope
/// declares is left to the global environment, recorded nowhere.
pub proof fn law_reference_depth(st: ResolverState, name: String, id: usize)
    requires
        !in_own_initializer(st, name@),
    ensures
        resolve_expr_spec(st, Expr::Variable { name, id }).result is Ok,
        resolve_expr_spec(st, Expr::Variable { name, id }).state.locals == match depth_of(
            st.scopes,
            name@,
        ) {
            Some(d) => st.locals.insert(id, d as usize),
            None => st.locals,
        },
{
}

/// Whether the resolver is inside a function body.
#[derive(PartialEq, Eq, Structural)]
enum FunctionType {
    Script,
    Function,
}

/// The entries of a scope, seen through the characters of their names.
pub open spec fn scope_view(scope: Seq<(String, bool)>) -> ScopeView {
    scope.map_values(|p: (String, bool)| (p.0@, p.1))
}

/// The scopes of a stack, each seen through the characters of its names.
pub open spec fn scopes_view(v: Seq<Vec<(String, bool)>>) -> Seq<ScopeView> {
    Seq::new(v.len(), |i: int| scope_view(v[i]@))
}

pub struct Resolver {
    /// stack of scopes, innermost last
    scopes: Vec<Vec<(String, bool)>>,
    /// whether we're inside a function
    function_type: FunctionType,
    /// the global variable whose initializer is being resolved, if any
    global_pending: Option<String>,
    /// resolved depths: expression id -> depth
    pub locals: HashMap<usize, usize>,
}

impl Resolver {
    /// The abstract state of the resolver.
    pub closed spec fn state(&self) -> ResolverState {
        ResolverState {
            scopes: scopes_view(self.scopes@),
            in_function: self.function_type == FunctionType::Function,
            global_pending: match self.global_pending {
                Some(n) => Some(n@),
                None => None,
            },
            locals: self.locals@,
        }
    }

    /// A resolver at the top level of a program, with nothing recorded.
    pub fn new() -> (r: Self)
        ensures
            r.state() == (ResolverState {
                scopes: Seq::empty(),
                in_function: false,
                global_pending: None,
                locals: Map::empty(),
            }),
    {
        let r = Resolver {
            scopes: Vec::new(),
            function_type: FunctionType::Script,
            global_pending: None,
            locals: HashMap::new(),
        };
        assert(r.state().scopes =~= Seq::<ScopeView>::empty());
        r
    }

    /// The depth recorded for the reference `id`, if any.
    pub fn local_depth(&self, id: usize) -> (r: Option<usize>)
        ensures
            match r {
                Some(d) => self.state().locals.contains_key(id) && self.state().locals[id] == d,
                None => !self.state().locals.contains_key(id),
            },
    {
        match self.locals.get(&id) {
            Some(d) => Some(*d),
            None => None,
        }
    }

    fn scope_in(&mut self)
        ensures
            final(self).state() == scope_in(old(self).state()),
    {
        let v: Vec<(String, bool)> = Vec::new();
        assert(scope_view(v@) =~= Seq::<(Seq<char>, bool)>::empty());
        self.scopes.push(v);
        assert(self.state().scopes =~= scope_in(old(self).state()).scopes);
    }

    fn scope_out(&mut self)
        ensures
            final(self).state() == scope_out(old(self).state()),
    {
        let _ = self.scopes.pop();
        assert(self.state().scopes =~= scope_out(old(self).state()).scopes);
    }

    /// Adds an entry for `name` to the innermost scope; at the global level,
    /// marks `name` pending until it is initialized.
    fn add_entry(&mut self, name: &String, initialized: bool)
        ensures
            final(self).state() == with_entry(old(self).state(), name@, initialized),
    {
        if self.scopes.len() == 0 {
            self.global_pending = if initialized {
                None
            } else {
                Some(name.clone())
            };
        } else if let Some(mut scope) = self.scopes.pop() {
            let ghost popped = scope@;
            scope.push((name.clone(), initialized));
            proof {
                assert(scope_view(scope@) =~= scope_view(popped).push((name@, initialized)));
            }
            self.scopes.push(scope);
            assert(self.state().scopes =~= with_entry(old(self).state(), name@, initialized).scopes);
        }
    }

    fn declare(&mut self, name: &String)
        ensures
            final(self).state() == with_entry(old(self).state(), name@, false),
    {
        self.add_entry(name, false);
    }

    fn define(&mut self, name: &String)
        ensures
            final(self).state() == with_entry(old(self).state(), name@, true),
    {
        self.add_entry(name, true);
    }

    /// The entry that the scope with index `k` holds for `name`, if any.
    fn lookup_in(&self, k: usize, name: &String) -> (r: Option<bool>)
        requires
            k < self.scopes@.len(),
        ensures
            r == scope_lookup(self.state().scopes[k as int], name@),
    {
        let scope = &self.scopes[k];
        let ghost sv = scope_view(scope@);
        assert(sv == self.state().scopes[k as int]);
        assert(sv.subrange(0, sv.len() as int) =~= sv);
        let mut i = scope.len();
        while i > 0
            invariant
                i <= scope@.len(),
                k < self.scopes@.len(),
                sv == scope_view(scope@),
                sv == self.state().scopes[k as int],
                scope_lookup(sv.subrange(0, i as int), name@) == scope_lookup(sv, name@),
            decreases i,
        {
            assert(sv.subrange(0, i as int).drop_last() =~= sv.subrange(0, i - 1));
            assert(sv.subrange(0, i as int).last() == (scope@[i - 1].0@, scope@[i - 1].1));
            if str_eq(&scope[i - 1].0, name) {
                assert(scope_lookup(sv.subrange(0, i as int), name@) == Some(scope@[i - 1].1));
                return Some(scope[i - 1].1);
            }
            i = i - 1;
        }
        None
    }

    /// Records the reference `id` to `name` at the depth of the nearest
    /// scope holding the name; records nothing for a global.
    fn resolve_local(&mut self, id: usize, name: &String)
        ensures
            final(self).state() == with_local(old(self).state(), id, name@),
    {
        let ghost scopes = self.state().scopes;
        let n = self.scopes.len();
        let mut depth: usize = 0;
        assert(scopes.subrange(0, n as int) =~= scopes);
        while depth < n
            invariant
                n == self.scopes@.len(),
                depth <= n,
                self.state() == old(self).state(),
                scopes == self.state().scopes,
                depth_of(scopes, name@) == match depth_of(scopes.subrange(0, n - depth), name@) {
                    Some(d) => Some((d + depth) as nat),
                    None => None,
                },
            decreases n - depth,
        {
            let k = n - 1 - depth;
            let ghost prefix = scopes.subrange(0, n - depth);
            assert(prefix.last() == scopes[k as int]);
            assert(prefix.drop_last() =~= scopes.subrange(0, n - depth - 1));
            if self.lookup_in(k, name).is_some() {
                self.locals.insert(id, depth);
                return ;
            }
            depth = depth + 1;
        }
        assert(scopes.subrange(0, 0) =~= Seq::<ScopeView>::empty());
    }

    /// Resolves the statement `stmt`.
    pub fn resolve_stmt(&mut self, stmt: &Stmt) -> (r: Result<(), ResolveError>)
        ensures
            r == resolve_stmt_spec(old(self).state(), *stmt).result,
            final(self).state() == resolve_stmt_spec(old(self).state(), *stmt).state,
        decreases stmt, 0int,
    {
        match stmt {
            Stmt::Block(stmts) => {
                self.scope_in();
                self.resolve_stmts(stmts)?;
                self.scope_out();
            },
            Stmt::Var { name, initializer } => {
                self.declare(name);
                if let Some(init) = initializer {
                    self.resolve_expr(init)?;
                }
                self.define(name);
            },
            Stmt::Function { name, params, body } => {
                self.declare(name);
                self.define(name);
                self.resolve_function(params, body)?;
            },
            Stmt::Return { value } => {
                if self.function_type == FunctionType::Script {
                    return Err(ResolveError::ReturnOutsideFunction);
                }
                if let Some(expr) = value {
                    self.resolve_expr(expr)?;
                }
            },
            Stmt::Expression(expr) => {
                self.resolve_expr(expr)?;
            },
            Stmt::Print(expr) => {
                self.resolve_expr(expr)?;
            },
            Stmt::If { condition, then_branch, else_branch } => {
                self.resolve_expr(condition)?;
                self.resolve_stmt(then_branch)?;
                if let Some(e) = else_branch {
                    self.resolve_stmt(e)?;
                }
            },
            Stmt::While { condition, body } => {
                self.resolve_expr(condition)?;
                self.resolve_stmt(body)?;
            },
        }
        Ok(())
    }

    /// Resolves the statements `stmts` in order, up to the first error.
    fn resolve_stmts(&mut self, stmts: &Vec<Stmt>) -> (r: Result<(), ResolveError>)
        ensures
            r == resolve_stmts_spec(old(self).state(), stmts@, 0).result,
            final(self).state() == resolve_stmts_spec(old(self).state(), stmts@, 0).state,
        decreases stmts@, stmts@.len(),
    {
        let mut i: usize = 0;
        while i < stmts.len()
            invariant
                i <= stmts@.len(),
                resolve_stmts_spec(self.state(), stmts@, i as int) == resolve_stmts_spec(
                    old(self).state(),
                    stmts@,
                    0,
                ),
            decreases stmts@.len() - i,
        {
            self.resolve_stmt(&stmts[i])?;
            i = i + 1;
        }
        Ok(())
    }

    /// Resolves a function's body in a scope of its own, holding its
    /// parameters.
    fn resolve_function(&mut self, params: &Vec<String>, body: &Vec<Stmt>) -> (r: Result<
        (),
        ResolveError,
    >)
        ensures
            ({
                let st1 = old(self).state();
                let st2 = with_params(
                    scope_in(ResolverState { in_function: true, ..st1 }),
                    params@,
                    0,
                );
                let res = resolve_stmts_spec(st2, body@, 0);
                &&& r == res.result
                &&& final(self).state() == if res.result is Err {
                    res.state
                } else {
                    ResolverState { in_function: st1.in_function, ..scope_out(res.state) }
                }
            }),
        decreases body@, body@.len() + 1,
    {
        let enclosing = if self.function_type == FunctionType::Function {
            FunctionType::Function
        } else {
            FunctionType::Script
        };
        self.function_type = FunctionType::Function;
        self.scope_in();
        let mut i: usize = 0;
        while i < params.len()
            invariant
                i <= params@.len(),
                with_params(self.state(), params@, i as int) == with_params(
                    scope_in(ResolverState { in_function: true, ..old(self).state() }),
                    params@,
                    0,
                ),
            decreases params@.len() - i,
        {
            self.declare(&params[i]);
            self.define(&params[i]);
            i = i + 1;
        }
        self.resolve_stmts(body)?;
        self.scope_out();
        self.function_type = enclosing;
        Ok(())
    }

    /// Resolves the expressions `args` in order, up to the first error.
    fn resolve_args(&mut self, args: &Vec<Expr>) -> (r: Result<(), ResolveError>)
        ensures
            r == resolve_args_spec(old(self).state(), args@, 0).result,
            final(self).state() == resolve_args_spec(old(self).state(), args@, 0).state,
        decreases args@, args@.len(),
    {
        let mut i: usize = 0;
        while i < args.len()
            invariant
                i <= args@.len(),
                resolve_args_spec(self.state(), args@, i as int) == resolve_args_spec(
                    old(self).state(),
                    args@,
                    0,
                ),
            decreases args@.len() - i,
        {
            self.resolve_expr(&args[i])?;
            i = i + 1;
        }
        Ok(())
    }

    /// Resolves the expression `expr`.
    pub fn resolve_expr(&mut self, expr: &Expr) -> (r: Result<(), ResolveError>)
        ensures
            r == resolve_expr_spec(old(self).state(), *expr).result,
            final(self).state() == resolve_expr_spec(old(self).state(), *expr).state,
        decreases expr, 0int,
    {
        match expr {
            Expr::Variable { name, id } => {
                // catch `var a = a;`
                let n = self.scopes.len();
                let own = if n > 0 {
                    match self.lookup_in(n - 1, name) {
                        Some(false) => true,
                        _ => false,
                    }
                } else {
                    match &self.global_pending {
                        Some(p) => str_eq(p, name),
                        None => false,
                    }
                };
                if own {
                    return Err(ResolveError::VariableInOwnInititalizer { name: name.clone() });
                }
                self.resolve_local(*id, name);
            },
            Expr::Assign { name, id, value } => {
                self.resolve_expr(value)?;
                self.resolve_local(*id, name);
            },
            Expr::Binary { right, left, .. } => {
                self.resolve_expr(left)?;
                self.resolve_expr(right)?;
            },
            Expr::Logical { left, right, .. } => {
                self.resolve_expr(left)?;
                self.resolve_expr(right)?;
            },
            Expr::Unary { right, .. } => {
                self.resolve_expr(right)?;
            },
            Expr::Grouping(inner) => {
                self.resolve_expr(inner)?;
            },
            Expr::Call { callee, arguments, .. } => {
                self.resolve_expr(callee)?;
                self.resolve_args(arguments)?;
            },
            Expr::Literal(_) => {},
        }
        Ok(())
    }
}

impl Default for Resolver {
    /// A resolver at the top level of a program, with nothing recorded.
    fn default() -> (r: Self)
        ensures
            r.state() == (ResolverState {
                scopes: Seq::empty(),
                in_function: false,
                global_pending: None,
                locals: Map::empty(),
            }),
    {
        Resolver::new()
    }
}

} // verus!
