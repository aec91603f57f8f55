//! The syntax tree of a Lox program.
use vstd::prelude::*;
use crate::token::{SpecToken, SpecTokenType, Token, TokenKind, TokenType};

verus! {

/// A literal written in the program text. A number keeps the digits it was
/// written with; its value is read from them where it is used.
#[derive(Debug)]
pub enum Lit {
    Number(String),
    String(String),
    Bool(bool),
    Nil,
}

/// An operator.
#[derive(Debug, Clone, Copy, PartialEq, Eq, Structural)]
pub enum Op {
    Equal,
    NotEqual,
    LessThan,
    LessThanEqual,
    GreaterThan,
    GreaterThanEqual,
    Add,
    Sub,
    Mul,
    Div,
    Not,
    And,
    Or,
}

/// An expression. Each variable reference and each assignment carries an
/// `id`, distinct from that of every other one in the program, by which the
/// resolver records where its variable lives.
#[derive(Debug)]
pub enum Expr {
    Literal(Lit),
    Logical { left: Box<Expr>, op: Op, right: Box<Expr> },
    Unary { op: Op, right: Box<Expr> },
    Binary { op: Op, right: Box<Expr>, left: Box<Expr> },
    Call { callee: Box<Expr>, paren: Token, arguments: Vec<Expr> },
    Grouping(Box<Expr>),
    Variable { name: String, id: usize },
    Assign { name: String, id: usize, value: Box<Expr> },
}

/// A statement.
#[derive(Debug)]
pub enum Stmt {
    Print(Expr),
    Var { name: String, initializer: Option<Expr> },
    While { condition: Expr, body: Box<Stmt> },
    Block(Vec<Stmt>),
    If { condition: Expr, then_branch: Box<Stmt>, else_branch: Option<Box<Stmt>> },
    Function { name: String, params: Vec<String>, body: Vec<Stmt> },
    Return { value: Option<Expr> },
    Expression(Expr),
}

/// The most arguments a call, or parameters a function, may have.
pub const MAX_ARGS: usize = 255;

/// The operator that a token of kind `t` stands for, if it stands for one.
pub open spec fn op_of(t: SpecTokenType) -> Option<Op> {
    match t {
        TokenKind::Plus => Some(Op::Add),
        TokenKind::Minus => Some(Op::Sub),
        TokenKind::Star => Some(Op::Mul),
        TokenKind::Slash => Some(Op::Div),
        TokenKind::EqEq => Some(Op::Equal),
        TokenKind::Greater => Some(Op::GreaterThan),
        TokenKind::GreaterEq => Some(Op::GreaterThanEqual),
        TokenKind::Less => Some(Op::LessThan),
        TokenKind::LessEq => Some(Op::LessThanEqual),
        TokenKind::BangEq => Some(Op::NotEqual),
        TokenKind::Bang => Some(Op::Not),
        TokenKind::And => Some(Op::And),
        TokenKind::Or => Some(Op::Or),
        _ => None,
    }
}

impl Op {
    /// The operator that a token of kind `tok_ty` stands for.
    pub fn from_token_type(tok_ty: &TokenType) -> (op: Op)
        requires
            op_of(tok_ty@) is Some,
        ensures
            op_of(tok_ty@) == Some(op),
    {
        match tok_ty {
            TokenKind::Plus => Op::Add,
            TokenKind::Minus => Op::Sub,
            TokenKind::Star => Op::Mul,
            TokenKind::Slash => Op::Div,
            TokenKind::EqEq => Op::Equal,
            TokenKind::Greater => Op::GreaterThan,
            TokenKind::GreaterEq => Op::GreaterThanEqual,
            TokenKind::Less => Op::LessThan,
            TokenKind::LessEq => Op::LessThanEqual,
            TokenKind::BangEq => Op::NotEqual,
            TokenKind::Bang => Op::Not,
            TokenKind::And => Op::And,
            _ => Op::Or,
        }
    }
}

/// Whether `op` joins the two sides of a logical expression.
pub open spec fn is_logical_op(op: Op) -> bool {
    op == Op::And || op == Op::Or
}

/// Whether `op` may stand before an operand.
pub open spec fn is_unary_op(op: Op) -> bool {
    op == Op::Not || op == Op::Sub
}

/// Whether `op` joins the two sides of a binary expression.
pub open spec fn is_binary_op(op: Op) -> bool {
    !(op == Op::Not || op == Op::And || op == Op::Or)
}

/// An expression is well formed: every operator stands where the grammar
/// puts it, and no call has more than `MAX_ARGS` arguments.
pub open spec fn expr_wf(e: Expr) -> bool
    decreases e,
{
    match e {
        Expr::Literal(_) => true,
        Expr::Variable { .. } => true,
        Expr::Logical { left, op, right } => is_logical_op(op) && expr_wf(*left) && expr_wf(
            *right,
        ),
        Expr::Unary { op, right } => is_unary_op(op) && expr_wf(*right),
        Expr::Binary { op, right, left } => is_binary_op(op) && expr_wf(*left) && expr_wf(*right),
        Expr::Call { callee, paren, arguments } => {
            &&& arguments@.len() <= MAX_ARGS
            &&& expr_wf(*callee)
            &&& forall|i: int| 0 <= i < arguments@.len() ==> expr_wf(#[trigger] arguments@[i])
        },
        Expr::Grouping(inner) => expr_wf(*inner),
        Expr::Assign { name, id, value } => expr_wf(*value),
    }
}

/// A statement is well formed: its expressions are, as are the statements
/// in it, and no function has more than `MAX_ARGS` parameters.
pub open spec fn stmt_wf(s: Stmt) -> bool
    decreases s,
{
    match s {
        Stmt::Print(e) => expr_wf(e),
        Stmt::Expression(e) => expr_wf(e),
        Stmt::Var { name, initializer } => match initializer {
            Some(e) => expr_wf(e),
            None => true,
        },
        Stmt::While { condition, body } => expr_wf(condition) && stmt_wf(*body),
        Stmt::Block(stmts) => forall|i: int| 0 <= i < stmts@.len() ==> stmt_wf(#[trigger] stmts@[i]),
        Stmt::If { condition, then_branch, else_branch } => {
            &&& expr_wf(condition)
            &&& stmt_wf(*then_branch)
            &&& match else_branch {
                Some(b) => stmt_wf(*b),
                None => true,
            }
        },
        Stmt::Function { name, params, body } => {
            &&& params@.len() <= MAX_ARGS
            &&& forall|i: int| 0 <= i < body@.len() ==> stmt_wf(#[trigger] body@[i])
        },
        Stmt::Return { value } => match value {
            Some(e) => expr_wf(e),
            None => true,
        },
    }
}

/// Every statement of `stmts` is well formed.
pub open spec fn stmts_wf(stmts: Seq<Stmt>) -> bool {
    forall|i: int| 0 <= i < stmts.len() ==> stmt_wf(#[trigger] stmts[i])
}

/// The ids of the variable references and assignments in `e`, in the
/// order the tree lists them.
pub open spec fn expr_ids(e: Expr) -> Seq<usize>
    decreases e, 0int,
{
    match e {
        Expr::Literal(_) => Seq::empty(),
        Expr::Variable { name, id } => seq![id],
        Expr::Assign { name, id, value } => seq![id] + expr_ids(*value),
        Expr::Logical { left, op, right } => expr_ids(*left) + expr_ids(*right),
        Expr::Binary { op, right, left } => expr_ids(*left) + expr_ids(*right),
        Expr::Unary { op, right } => expr_ids(*right),
        Expr::Grouping(inner) => expr_ids(*inner),
        Expr::Call { callee, paren, arguments } => expr_ids(*callee) + exprs_ids(arguments@),
    }
}

/// The ids in the expressions `es`, one after another.
pub open spec fn exprs_ids(es: Seq<Expr>) -> Seq<usize>
    decreases es, 1int,
{
    if es.len() == 0 {
        Seq::empty()
    } else {
        exprs_ids(es.drop_last()) + expr_ids(es.last())
    }
}

/// The ids of the variable references and assignments in `s`.
pub open spec fn stmt_ids(s: Stmt) -> Seq<usize>
    decreases s, 0int,
{
    match s {
        Stmt::Print(e) => expr_ids(e),
        Stmt::Expression(e) => expr_ids(e),
        Stmt::Var { name, initializer } => match initializer {
            Some(e) => expr_ids(e),
            None => Seq::empty(),
        },
        Stmt::While { condition, body } => expr_ids(condition) + stmt_ids(*body),
        Stmt::Block(stmts) => stmts_ids(stmts@),
        Stmt::If { condition, then_branch, else_branch } => expr_ids(condition) + stmt_ids(
            *then_branch,
        ) + match else_branch {
            Some(b) => stmt_ids(*b),
            None => Seq::empty(),
        },
        Stmt::Function { name, params, body } => stmts_ids(body@),
        Stmt::Return { value } => match value {
            Some(e) => expr_ids(e),
            None => Seq::empty(),
        },
    }
}

/// The ids in the statements `ss`, one after another.
pub open spec fn stmts_ids(ss: Seq<Stmt>) -> Seq<usize>
    decreases ss, 1int,
{
    if ss.len() == 0 {
        Seq::empty()
    } else {
        stmts_ids(ss.drop_last()) + stmt_ids(ss.last())
    }
}

/// The ids `ids` are distinct, and each lies in `lo..hi`.
pub open spec fn ids_within(ids: Seq<usize>, lo: int, hi: int) -> bool {
    &&& forall|i: int| 0 <= i < ids.len() ==> lo <= #[trigger] ids[i] < hi
    &&& forall|i: int, j: int| 0 <= i < j < ids.len() ==> ids[i] != ids[j]
}

/// Distinct ids from two ranges that do not overlap, each inside `lo..hi`,
/// are distinct together and lie in `lo..hi`.
pub proof fn lemma_ids_concat(
    a: Seq<usize>,
    b: Seq<usize>,
    la: int,
    ha: int,
    lb: int,
    hb: int,
    lo: int,
    hi: int,
)
    requires
        ids_within(a, la, ha),
        ids_within(b, lb, hb),
        ha <= lb || hb <= la,
        lo <= la,
        lo <= lb,
        ha <= hi,
        hb <= hi,
    ensures
        ids_within(a + b, lo, hi),
{
    let c = a + b;
    assert forall|i: int, j: int| 0 <= i < j < c.len() implies c[i] != c[j] by {
        if j < a.len() {
        } else if i >= a.len() {
            assert(c[i] == b[i - a.len()] && c[j] == b[j - a.len()]);
        } else {
            assert(c[i] == a[i] && c[j] == b[j - a.len()]);
        }
    }
    assert forall|i: int| 0 <= i < c.len() implies lo <= #[trigger] c[i] < hi by {
        if i < a.len() {
            assert(c[i] == a[i]);
        } else {
            assert(c[i] == b[i - a.len()]);
        }
    }
}

/// Ids handed out one range after the other are distinct together.
pub proof fn lemma_ids_join(a: Seq<usize>, b: Seq<usize>, lo: int, mid: int, hi: int)
    requires
        lo <= mid <= hi,
        ids_within(a, lo, mid),
        ids_within(b, mid, hi),
    ensures
        ids_within(a + b, lo, hi),
{
    lemma_ids_concat(a, b, lo, mid, mid, hi, lo, hi);
}

/// The ids of expressions with one more at the end.
pub proof fn lemma_exprs_ids_push(es: Seq<Expr>, e: Expr)
    ensures
        exprs_ids(es.push(e)) == exprs_ids(es) + expr_ids(e),
{
    assert(es.push(e).drop_last() =~= es);
}

/// The ids of statements with one more at the end.
pub proof fn lemma_stmts_ids_push(ss: Seq<Stmt>, s: Stmt)
    ensures
        stmts_ids(ss.push(s)) == stmts_ids(ss) + stmt_ids(s),
{
    assert(ss.push(s).drop_last() =~= ss);
}

/// Ids within a range are within any wider one.
pub proof fn lemma_ids_widen(a: Seq<usize>, lo: int, hi: int, lo2: int, hi2: int)
    requires
        ids_within(a, lo, hi),
        lo2 <= lo,
        hi <= hi2,
    ensures
        ids_within(a, lo2, hi2),
{
}

/// A literal seen through the characters of its text.
pub enum LitView {
    Number(Seq<char>),
    String(Seq<char>),
    Bool(bool),
    Nil,
}

/// An expression seen through the characters of its texts and the
/// sequences of its lists.
pub enum ExprView {
    Literal(LitView),
    Logical { left: Box<ExprView>, op: Op, right: Box<ExprView> },
    Unary { op: Op, right: Box<ExprView> },
    Binary { op: Op, right: Box<ExprView>, left: Box<ExprView> },
    Call { callee: Box<ExprView>, paren: SpecToken, arguments: Seq<ExprView> },
    Grouping(Box<ExprView>),
    Variable { name: Seq<char>, id: usize },
    Assign { name: Seq<char>, id: usize, value: Box<ExprView> },
}

/// A statement seen through the characters of its texts and the sequences
/// of its lists.
pub enum StmtView {
    Print(ExprView),
    Var { name: Seq<char>, initializer: Option<ExprView> },
    While { condition: ExprView, body: Box<StmtView> },
    Block(Seq<StmtView>),
    If { condition: ExprView, then_branch: Box<StmtView>, else_branch: Option<Box<StmtView>> },
    Function { name: Seq<char>, params: Seq<Seq<char>>, body: Seq<StmtView> },
    Return { value: Option<ExprView> },
    Expression(ExprView),
}

/// A literal seen through the characters of its text.
pub open spec fn lit_view(l: Lit) -> LitView {
    match l {
        Lit::Number(s) => LitView::Number(s@),
        Lit::String(s) => LitView::String(s@),
        Lit::Bool(b) => LitView::Bool(b),
        Lit::Nil => LitView::Nil,
    }
}

/// Names seen through their characters.
pub open spec fn names_view(names: Seq<String>) -> Seq<Seq<char>> {
    names.map_values(|s: String| s@)
}

/// An expression seen through views.
pub open spec fn expr_view(e: Expr) -> ExprView
    decreases e, 0int,
{
    match e {
        Expr::Literal(l) => ExprView::Literal(lit_view(l)),
        Expr::Logical { left, op, right } => ExprView::Logical {
            left: Box::new(expr_view(*left)),
            op,
            right: Box::new(expr_view(*right)),
        },
        Expr::Unary { op, right } => ExprView::Unary { op, right: Box::new(expr_view(*right)) },
        Expr::Binary { op, right, left } => ExprView::Binary {
            op,
            right: Box::new(expr_view(*right)),
            left: Box::new(expr_view(*left)),
        },
        Expr::Call { callee, paren, arguments } => ExprView::Call {
            callee: Box::new(expr_view(*callee)),
            paren: paren@,
            arguments: exprs_view(arguments@),
        },
        Expr::Grouping(inner) => ExprView::Grouping(Box::new(expr_view(*inner))),
        Expr::Variable { name, id } => ExprView::Variable { name: name@, id },
        Expr::Assign { name, id, value } => ExprView::Assign {
            name: name@,
            id,
            value: Box::new(expr_view(*value)),
        },
    }
}

/// Expressions seen through views.
pub open spec fn exprs_view(es: Seq<Expr>) -> Seq<ExprView>
    decreases es, 1int,
{
    if es.len() == 0 {
        Seq::empty()
    } else {
        exprs_view(es.drop_last()).push(expr_view(es.last()))
    }
}

/// A statement seen through views.
pub open spec fn stmt_view(s: Stmt) -> StmtView
    decreases s, 0int,
{
    match s {
        Stmt::Print(e) => StmtView::Print(expr_view(e)),
        Stmt::Expression(e) => StmtView::Expression(expr_view(e)),
        Stmt::Var { name, initializer } => StmtView::Var {
            name: name@,
            initializer: match initializer {
                Some(e) => Some(expr_view(e)),
                None => None,
            },
        },
        Stmt::While { condition, body } => StmtView::While {
            condition: expr_view(condition),
            body: Box::new(stmt_view(*body)),
        },
        Stmt::Block(stmts) => StmtView::Block(stmts_view(stmts@)),
        Stmt::If { condition, then_branch, else_branch } => StmtView::If {
            condition: expr_view(condition),
            then_branch: Box::new(stmt_view(*then_branch)),
            else_branch: match else_branch {
                Some(b) => Some(Box::new(stmt_view(*b))),
                None => None,
            },
        },
        Stmt::Function { name, params, body } => StmtView::Function {
            name: name@,
            params: names_view(params@),
            body: stmts_view(body@),
        },
        Stmt::Return { value } => StmtView::Return {
            value: match value {
                Some(e) => Some(expr_view(e)),
                None => None,
            },
        },
    }
}

/// Statements seen through views.
pub open spec fn stmts_view(ss: Seq<Stmt>) -> Seq<StmtView>
    decreases ss, 1int,
{
    if ss.len() == 0 {
        Seq::empty()
    } else {
        stmts_view(ss.drop_last()).push(stmt_view(ss.last()))
    }
}

/// The view of expressions with one more at the end.
pub proof fn lemma_exprs_view_push(es: Seq<Expr>, e: Expr)
    ensures
        exprs_view(es.push(e)) == exprs_view(es).push(expr_view(e)),
{
    assert(es.push(e).drop_last() =~= es);
}

/// The view of statements with one more at the end.
pub proof fn lemma_stmts_view_push(ss: Seq<Stmt>, s: Stmt)
    ensures
        stmts_view(ss.push(s)) == stmts_view(ss).push(stmt_view(s)),
{
    assert(ss.push(s).drop_last() =~= ss);
}

/// Seeing expressions through views keeps how many there are.
pub proof fn lemma_exprs_view_len(es: Seq<Expr>)
    ensures
        exprs_view(es).len() == es.len(),
    decreases es.len(),
{
    if es.len() > 0 {
        lemma_exprs_view_len(es.drop_last());
    }
}

} // verus!
