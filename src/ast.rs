//! Syntax tree of the language: types, operators, expressions, statements,
//! functions, extern declarations and whole programs.
use vstd::prelude::*;

verus! {

/// The primitive types of the language.
#[derive(Debug, Clone, Copy, PartialEq, Eq, Structural)]
pub enum Type {
    Int,
    Float,
    String,
}

/// Binary operators, arithmetic and comparison.
#[derive(Debug, Clone, Copy, PartialEq, Eq, Structural)]
pub enum BinOp {
    Plus,
    Minus,
    Multiply,
    Divide,
    Equal,
    NotEqual,
    LessThan,
    GreaterThan,
    LessEqual,
    GreaterEqual,
}

impl BinOp {
    /// Comparison operators yield an `int` truth value.
    pub open spec fn is_comparison(self) -> bool {
        !(self is Plus || self is Minus || self is Multiply || self is Divide)
    }
}

/// Literal values. A floating-point literal keeps its decimal text
/// (`digits.digits`) exactly as written in the source.
#[derive(Debug, Clone, PartialEq)]
pub enum Literal {
    Int(i64),
    Float(String),
    String(String),
}

/// Expressions. Children are owned through `Box` (or a `Vec` for arguments).
#[derive(Debug, PartialEq)]
pub enum Expr {
    Literal(Literal),
    Identifier(String),
    Binary { left: Box<Expr>, op: BinOp, right: Box<Expr> },
    Call { name: String, args: Vec<Expr> },
    Assignment { name: String, value: Box<Expr> },
}

/// Statements.
#[derive(Debug, PartialEq)]
pub enum Stmt {
    Declaration { ty: Type, name: String, init: Option<Expr> },
    Return(Option<Expr>),
    Block(Vec<Stmt>),
    If { cond: Expr, then: Box<Stmt>, else_: Option<Box<Stmt>> },
    For { init: Option<Box<Stmt>>, cond: Option<Expr>, update: Option<Expr>, body: Box<Stmt> },
    Expr(Expr),
}

/// A function definition; `params` are in calling-convention order.
#[derive(Debug, PartialEq)]
pub struct Function {
    pub return_ty: Type,
    pub name: String,
    pub params: Vec<(Type, String)>,
    pub body: Stmt,
}

/// An extern declaration: the fixed parameter types, and whether further
/// arguments may follow them.
#[derive(Debug, Clone, PartialEq)]
pub struct ExternFunction {
    pub return_ty: Type,
    pub name: String,
    pub param_types: Vec<Type>,
    pub is_variadic: bool,
}

/// The signature of a callable, as contracts see it.
pub struct Signature {
    pub return_ty: Type,
    pub name: Seq<char>,
    pub param_types: Seq<Type>,
    pub is_variadic: bool,
}

impl View for ExternFunction {
    type V = Signature;

    open spec fn view(&self) -> Signature {
        Signature {
            return_ty: self.return_ty,
            name: self.name@,
            param_types: self.param_types@,
            is_variadic: self.is_variadic,
        }
    }
}

/// A whole program: the headers it includes, its extern declarations (those
/// of the included headers appended) and its function definitions.
#[derive(Debug, PartialEq)]
pub struct Program {
    pub includes: Vec<String>,
    pub extern_functions: Vec<ExternFunction>,
    pub functions: Vec<Function>,
}

// ---------------------------------------------------------------------------
// The syntax tree as contracts see it: names are character sequences.

pub enum LiteralView {
    Int(i64),
    Float(Seq<char>),
    String(Seq<char>),
}

pub enum ExprView {
    Literal(LiteralView),
    Identifier(Seq<char>),
    Binary(Box<ExprView>, BinOp, Box<ExprView>),
    Call(Seq<char>, Seq<ExprView>),
    Assignment(Seq<char>, Box<ExprView>),
}

pub enum StmtView {
    Declaration(Type, Seq<char>, Option<ExprView>),
    Return(Option<ExprView>),
    Block(Seq<StmtView>),
    If(ExprView, Box<StmtView>, Option<Box<StmtView>>),
    For(Option<Box<StmtView>>, Option<ExprView>, Option<ExprView>, Box<StmtView>),
    Expr(ExprView),
}

pub struct FunctionView {
    pub return_ty: Type,
    pub name: Seq<char>,
    pub params: Seq<(Type, Seq<char>)>,
    pub body: StmtView,
}

pub struct ProgramView {
    pub includes: Seq<Seq<char>>,
    pub extern_functions: Seq<Signature>,
    pub functions: Seq<FunctionView>,
}

pub open spec fn literal_view(l: Literal) -> LiteralView {
    match l {
        Literal::Int(n) => LiteralView::Int(n),
        Literal::Float(s) => LiteralView::Float(s@),
        Literal::String(s) => LiteralView::String(s@),
    }
}

pub open spec fn expr_view(e: Expr) -> ExprView
    decreases e,
{
    match e {
        Expr::Literal(l) => ExprView::Literal(literal_view(l)),
        Expr::Identifier(name) => ExprView::Identifier(name@),
        Expr::Binary { left, op, right } => ExprView::Binary(
            Box::new(expr_view(*left)),
            op,
            Box::new(expr_view(*right)),
        ),
        Expr::Call { name, args } => ExprView::Call(name@, exprs_view(args, args.len() as int)),
        Expr::Assignment { name, value } => ExprView::Assignment(
            name@,
            Box::new(expr_view(*value)),
        ),
    }
}

/// The views of the first `n` expressions of `v`.
pub open spec fn exprs_view(v: Vec<Expr>, n: int) -> Seq<ExprView>
    decreases v, n,
{
    if n <= 0 || n > v.len() {
        seq![]
    } else {
        exprs_view(v, n - 1).push(expr_view(v[n - 1]))
    }
}

pub open spec fn opt_expr_view(e: Option<Expr>) -> Option<ExprView> {
    match e {
        Some(x) => Some(expr_view(x)),
        None => None,
    }
}

pub open spec fn stmt_view(s: Stmt) -> StmtView
    decreases s,
{
    match s {
        Stmt::Declaration { ty, name, init } => StmtView::Declaration(
            ty,
            name@,
            match init {
                Some(x) => Some(expr_view(x)),
                None => None,
            },
        ),
        Stmt::Return(e) => StmtView::Return(opt_expr_view(e)),
        Stmt::Block(v) => StmtView::Block(stmts_view(v, v.len() as int)),
        Stmt::If { cond, then, else_ } => StmtView::If(
            expr_view(cond),
            Box::new(stmt_view(*then)),
            match else_ {
                Some(x) => Some(Box::new(stmt_view(*x))),
                None => None,
            },
        ),
        Stmt::For { init, cond, update, body } => StmtView::For(
            match init {
                Some(x) => Some(Box::new(stmt_view(*x))),
                None => None,
            },
            opt_expr_view(cond),
            opt_expr_view(update),
            Box::new(stmt_view(*body)),
        ),
        Stmt::Expr(e) => StmtView::Expr(expr_view(e)),
    }
}

/// The views of the first `n` statements of `v`.
pub open spec fn stmts_view(v: Vec<Stmt>, n: int) -> Seq<StmtView>
    decreases v, n,
{
    if n <= 0 || n > v.len() {
        seq![]
    } else {
        stmts_view(v, n - 1).push(stmt_view(v[n - 1]))
    }
}

pub open spec fn params_view(p: Seq<(Type, String)>) -> Seq<(Type, Seq<char>)> {
    p.map_values(|q: (Type, String)| (q.0, q.1@))
}

pub open spec fn function_view(f: Function) -> FunctionView {
    FunctionView {
        return_ty: f.return_ty,
        name: f.name@,
        params: params_view(f.params@),
        body: stmt_view(f.body),
    }
}

pub open spec fn program_view(p: Program) -> ProgramView {
    ProgramView {
        includes: p.includes@.map_values(|h: String| h@),
        extern_functions: p.extern_functions@.map_values(|e: ExternFunction| e@),
        functions: p.functions@.map_values(|f: Function| function_view(f)),
    }
}

/// `exprs_view` reads element by element, and only the first `n`.
pub proof fn lemma_exprs_view(v: Vec<Expr>, w: Vec<Expr>, n: int)
    requires
        0 <= n <= v.len(),
        n <= w.len(),
        forall|i: int| 0 <= i < n ==> v[i] == w[i],
    ensures
        exprs_view(v, n) == exprs_view(w, n),
        exprs_view(v, n).len() == n,
        forall|i: int| 0 <= i < n ==> #[trigger] exprs_view(v, n)[i] == expr_view(v[i]),
    decreases n,
{
    if n > 0 {
        lemma_exprs_view(v, w, n - 1);
    }
}

/// `stmts_view` reads element by element, and only the first `n`.
pub proof fn lemma_stmts_view(v: Vec<Stmt>, w: Vec<Stmt>, n: int)
    requires
        0 <= n <= v.len(),
        n <= w.len(),
        forall|i: int| 0 <= i < n ==> v[i] == w[i],
    ensures
        stmts_view(v, n) == stmts_view(w, n),
        stmts_view(v, n).len() == n,
        forall|i: int| 0 <= i < n ==> #[trigger] stmts_view(v, n)[i] == stmt_view(v[i]),
    decreases n,
{
    if n > 0 {
        lemma_stmts_view(v, w, n - 1);
    }
}

} // verus!
