//! Semantic analysis: scoped name resolution and type checking.
//!
//! Analysis never stops at the first problem: every diagnostic is collected,
//! in the order in which the program is walked. First every function, then
//! every extern, is registered by name; then each function body is checked
//! in a scope seeded with its parameters.
use vstd::prelude::*;
use crate::ast::{BinOp, Expr, ExternFunction, Function, Literal, Program, Signature, Stmt, Type};
use crate::error::{Diagnostic, SemanticError, diagnostics};
use crate::text::{push_decimal, same_text};

verus! {

// ---------------------------------------------------------------------------
// State and lookups

/// The analyzer's state as contracts see it.
pub struct AnalyzerView {
    /// Known callables, first registration first.
    pub functions: Seq<Signature>,
    /// Variable scopes, innermost last; within a scope a later entry wins.
    pub scopes: Seq<Seq<(Seq<char>, Type)>>,
    /// Diagnostics so far, oldest first.
    pub errors: Seq<Diagnostic>,
    /// The declared return type of the function being checked.
    pub return_ty: Type,
}

pub open spec fn scope_lookup(scope: Seq<(Seq<char>, Type)>, name: Seq<char>) -> Option<Type>
    decreases scope.len(),
{
    if scope.len() == 0 {
        None
    } else if scope.last().0 == name {
        Some(scope.last().1)
    } else {
        scope_lookup(scope.drop_last(), name)
    }
}

/// The type of a variable, searching from the innermost scope outwards.
pub open spec fn lookup(scopes: Seq<Seq<(Seq<char>, Type)>>, name: Seq<char>) -> Option<Type>
    decreases scopes.len(),
{
    if scopes.len() == 0 {
        None
    } else {
        match scope_lookup(scopes.last(), name) {
            Some(t) => Some(t),
            None => lookup(scopes.drop_last(), name),
        }
    }
}

/// The first callable registered under `name`.
pub open spec fn sig_lookup(sigs: Seq<Signature>, name: Seq<char>) -> Option<Signature>
    decreases sigs.len(),
{
    if sigs.len() == 0 {
        None
    } else if sigs[0].name == name {
        Some(sigs[0])
    } else {
        sig_lookup(sigs.subrange(1, sigs.len() as int), name)
    }
}

pub open spec fn report(a: AnalyzerView, d: Diagnostic) -> AnalyzerView {
    AnalyzerView { errors: a.errors.push(d), ..a }
}

pub open spec fn push_scope(a: AnalyzerView) -> AnalyzerView {
    AnalyzerView { scopes: a.scopes.push(seq![]), ..a }
}

pub open spec fn pop_scope(a: AnalyzerView) -> AnalyzerView {
    AnalyzerView { scopes: a.scopes.drop_last(), ..a }
}

/// Adds `name: ty` to the innermost scope (opening one if there is none).
pub open spec fn declare(a: AnalyzerView, name: Seq<char>, ty: Type) -> AnalyzerView {
    if a.scopes.len() == 0 {
        AnalyzerView { scopes: seq![seq![(name, ty)]], ..a }
    } else {
        AnalyzerView {
            scopes: a.scopes.update(a.scopes.len() - 1, a.scopes.last().push((name, ty))),
            ..a
        }
    }
}

// ---------------------------------------------------------------------------
// Messages

pub open spec fn type_text(t: Type) -> Seq<char> {
    match t {
        Type::Int => "Int"@,
        Type::Float => "Float"@,
        Type::String => "String"@,
    }
}

pub open spec fn opt_type_text(t: Option<Type>) -> Seq<char> {
    match t {
        Some(x) => "Some("@ + type_text(x) + ")"@,
        None => "None"@,
    }
}

pub open spec fn cannot_assign(found: Option<Type>, target: Type) -> Seq<char> {
    "Cannot assign "@ + opt_type_text(found) + " to "@ + type_text(target)
}

pub open spec fn argument_mismatch(i: nat) -> Seq<char> {
    "Argument "@ + crate::text::decimal(i) + " type mismatch"@
}

pub open spec fn return_mismatch(expected: Type, found: Option<Type>) -> Seq<char> {
    "expected "@ + type_text(expected) + ", found "@ + match found {
        Some(t) => type_text(t),
        None => "no value"@,
    }
}

pub open spec fn operand_mismatch(op: BinOp) -> Seq<char> {
    if op.is_comparison() {
        "Comparison operands must have same type"@
    } else {
        "Arithmetic operands must have same type"@
    }
}

pub open spec fn condition_message() -> Seq<char> {
    "Condition must be int"@
}

// ---------------------------------------------------------------------------
// Checking

pub open spec fn literal_type(l: Literal) -> Type {
    match l {
        Literal::Int(_) => Type::Int,
        Literal::Float(_) => Type::Float,
        Literal::String(_) => Type::String,
    }
}

/// Whether `n` arguments suit the signature: exactly its parameters, or at
/// least them when it is variadic.
pub open spec fn arity_ok(sig: Signature, n: nat) -> bool {
    if sig.is_variadic {
        n >= sig.param_types.len()
    } else {
        n == sig.param_types.len()
    }
}

/// Checks an expression: the new state and the expression's type, `None`
/// when it has none.
pub open spec fn check_expr_spec(a: AnalyzerView, e: Expr) -> (AnalyzerView, Option<Type>)
    decreases e,
{
    match e {
        Expr::Literal(l) => (a, Some(literal_type(l))),
        Expr::Identifier(name) => match lookup(a.scopes, name@) {
            Some(t) => (a, Some(t)),
            None => (report(a, Diagnostic::UndefinedVariable(name@)), None),
        },
        Expr::Binary { left, op, right } => {
            let (a1, lt) = check_expr_spec(a, *left);
            let (a2, rt) = check_expr_spec(a1, *right);
            if lt == rt && lt is Some {
                (a2, if op.is_comparison() { Some(Type::Int) } else { lt })
            } else {
                (report(a2, Diagnostic::TypeMismatch(operand_mismatch(op))), None)
            }
        },
        Expr::Call { name, args } => match sig_lookup(a.functions, name@) {
            None => (report(a, Diagnostic::UndefinedFunction(name@)), None),
            Some(sig) => {
                let a1 = if arity_ok(sig, args.len() as nat) {
                    a
                } else {
                    report(
                        a,
                        Diagnostic::WrongArgumentCount(
                            name@,
                            sig.param_types.len(),
                            args.len() as nat,
                        ),
                    )
                };
                (check_args_spec(a1, args, sig.param_types, 0), Some(sig.return_ty))
            },
        },
        Expr::Assignment { name, value } => {
            let (a1, vt) = check_expr_spec(a, *value);
            match lookup(a1.scopes, name@) {
                None => (report(a1, Diagnostic::UndefinedVariable(name@)), None),
                Some(t) => if vt == Some(t) {
                    (a1, Some(t))
                } else {
                    (report(a1, Diagnostic::TypeMismatch(cannot_assign(vt, t))), Some(t))
                },
            }
        },
    }
}

/// Checks the arguments from position `i` on, each against the declared
/// parameter type at its position where there is one.
pub open spec fn check_args_spec(a: AnalyzerView, args: Vec<Expr>, params: Seq<Type>, i: int) -> AnalyzerView
    decreases args, args.len() - i,
{
    if i < 0 || i >= args.len() {
        a
    } else {
        let (a1, t) = check_expr_spec(a, args[i]);
        let a2 = if i < params.len() && t != Some(params[i]) {
            report(a1, Diagnostic::TypeMismatch(argument_mismatch(i as nat)))
        } else {
            a1
        };
        check_args_spec(a2, args, params, i + 1)
    }
}

/// Checks a condition, which must have type `int`.
pub open spec fn check_cond_spec(a: AnalyzerView, c: Expr) -> AnalyzerView {
    let (a1, t) = check_expr_spec(a, c);
    if t == Some(Type::Int) {
        a1
    } else {
        report(a1, Diagnostic::TypeMismatch(condition_message()))
    }
}

pub open spec fn check_stmt_spec(a: AnalyzerView, s: Stmt) -> AnalyzerView
    decreases s,
{
    match s {
        Stmt::Declaration { ty, name, init } => {
            if a.scopes.len() > 0 && scope_lookup(a.scopes.last(), name@) is Some {
                report(a, Diagnostic::DuplicateVariable(name@))
            } else {
                let a1 = declare(a, name@, ty);
                match init {
                    None => a1,
                    Some(e) => {
                        let (a2, t) = check_expr_spec(a1, e);
                        if t == Some(ty) {
                            a2
                        } else {
                            report(a2, Diagnostic::TypeMismatch(cannot_assign(t, ty)))
                        }
                    },
                }
            }
        },
        Stmt::Return(e) => match e {
            None => report(a, Diagnostic::ReturnTypeMismatch(return_mismatch(a.return_ty, None))),
            Some(x) => {
                let (a1, t) = check_expr_spec(a, x);
                match t {
                    Some(rt) => if rt == a.return_ty {
                        a1
                    } else {
                        report(a1, Diagnostic::ReturnTypeMismatch(return_mismatch(a.return_ty, t)))
                    },
                    None => a1,
                }
            },
        },
        Stmt::Block(ss) => pop_scope(check_stmts_spec(push_scope(a), ss, 0)),
        Stmt::If { cond, then, else_ } => {
            let a1 = check_stmt_spec(check_cond_spec(a, cond), *then);
            match else_ {
                Some(x) => check_stmt_spec(a1, *x),
                None => a1,
            }
        },
        Stmt::For { init, cond, update, body } => {
            let a0 = push_scope(a);
            let a1 = match init {
                Some(x) => check_stmt_spec(a0, *x),
                None => a0,
            };
            let a2 = match cond {
                Some(c) => check_cond_spec(a1, c),
                None => a1,
            };
            let a3 = match update {
                Some(u) => check_expr_spec(a2, u).0,
                None => a2,
            };
            pop_scope(check_stmt_spec(a3, *body))
        },
        Stmt::Expr(e) => check_expr_spec(a, e).0,
    }
}

/// Checks the statements from position `i` on, in order.
pub open spec fn check_stmts_spec(a: AnalyzerView, ss: Vec<Stmt>, i: int) -> AnalyzerView
    decreases ss, ss.len() - i,
{
    if i < 0 || i >= ss.len() {
        a
    } else {
        check_stmts_spec(check_stmt_spec(a, ss[i]), ss, i + 1)
    }
}

// ---------------------------------------------------------------------------
// Whole programs

pub open spec fn signature_of(f: Function) -> Signature {
    Signature {
        return_ty: f.return_ty,
        name: f.name@,
        param_types: f.params@.map_values(|p: (Type, String)| p.0),
        is_variadic: false,
    }
}

/// Registers the functions from position `i` on; a name already registered
/// is reported and keeps its first signature.
pub open spec fn register_functions(a: AnalyzerView, fs: Seq<Function>, i: int) -> AnalyzerView
    decreases fs.len() - i,
{
    if i < 0 || i >= fs.len() {
        a
    } else {
        let f = fs[i];
        let a1 = if sig_lookup(a.functions, f.name@) is Some {
            report(a, Diagnostic::DuplicateVariable(f.name@))
        } else {
            AnalyzerView { functions: a.functions.push(signature_of(f)), ..a }
        };
        register_functions(a1, fs, i + 1)
    }
}

/// Registers the externs from position `i` on. An extern declared twice is
/// reported; one that shares its name with a defined function is skipped.
pub open spec fn register_externs(a: AnalyzerView, es: Seq<ExternFunction>, i: int) -> AnalyzerView
    decreases es.len() - i,
{
    if i < 0 || i >= es.len() {
        a
    } else {
        let e = es[i];
        let a1 = if exists|k: int| 0 <= k < i && es[k].name@ == e.name@ {
            report(a, Diagnostic::DuplicateVariable(e.name@))
        } else if sig_lookup(a.functions, e.name@) is Some {
            a
        } else {
            AnalyzerView { functions: a.functions.push(e@), ..a }
        };
        register_externs(a1, es, i + 1)
    }
}

pub open spec fn params_scope(f: Function) -> Seq<(Seq<char>, Type)> {
    f.params@.map_values(|p: (Type, String)| (p.1@, p.0))
}

/// Checks one function body in a scope holding its parameters.
pub open spec fn check_function_spec(a: AnalyzerView, f: Function) -> AnalyzerView {
    pop_scope(
        check_stmt_spec(
            AnalyzerView { scopes: a.scopes.push(params_scope(f)), return_ty: f.return_ty, ..a },
            f.body,
        ),
    )
}

pub open spec fn check_functions_spec(a: AnalyzerView, fs: Seq<Function>, i: int) -> AnalyzerView
    decreases fs.len() - i,
{
    if i < 0 || i >= fs.len() {
        a
    } else {
        check_functions_spec(check_function_spec(a, fs[i]), fs, i + 1)
    }
}

/// The whole analysis of `p` from state `a`.
pub open spec fn analyze_from(a: AnalyzerView, p: Program) -> AnalyzerView {
    check_functions_spec(
        register_externs(register_functions(a, p.functions@, 0), p.extern_functions@, 0),
        p.functions@,
        0,
    )
}

/// A fresh analyzer: nothing registered, one empty global scope.
pub open spec fn fresh_analyzer() -> AnalyzerView {
    AnalyzerView { functions: seq![], scopes: seq![seq![]], errors: seq![], return_ty: Type::Int }
}

/// The diagnostics of a program, in order; empty when the program is valid.
pub open spec fn analysis(p: Program) -> Seq<Diagnostic> {
    analyze_from(fresh_analyzer(), p).errors
}

// ---------------------------------------------------------------------------
// Executable analyzer

/// The semantic analyzer: registered callables, the scope stack and the
/// diagnostics collected so far.
pub struct SemanticAnalyzer {
    functions: Vec<ExternFunction>,
    scopes: Vec<Vec<(String, Type)>>,
    errors: Vec<SemanticError>,
    return_ty: Type,
}

pub open spec fn scope_view(s: Seq<(String, Type)>) -> Seq<(Seq<char>, Type)> {
    s.map_values(|p: (String, Type)| (p.0@, p.1))
}

pub open spec fn scopes_view(v: Seq<Vec<(String, Type)>>) -> Seq<Seq<(Seq<char>, Type)>> {
    v.map_values(|s: Vec<(String, Type)>| scope_view(s@))
}

impl View for SemanticAnalyzer {
    type V = AnalyzerView;

    closed spec fn view(&self) -> AnalyzerView {
        AnalyzerView {
            functions: crate::header_registry::signatures(self.functions@),
            scopes: scopes_view(self.scopes@),
            errors: diagnostics(self.errors@),
            return_ty: self.return_ty,
        }
    }
}

fn type_text_of(t: Type) -> (r: String)
    ensures
        r@ == type_text(t),
{
    match t {
        Type::Int => String::from_str("Int"),
        Type::Float => String::from_str("Float"),
        Type::String => String::from_str("String"),
    }
}

fn opt_type_text_of(t: Option<Type>) -> (r: String)
    ensures
        r@ == opt_type_text(t),
{
    match t {
        Some(x) => {
            let mut m = String::from_str("Some(");
            m.append(type_text_of(x).as_str());
            m.append(")");
            m
        },
        None => String::from_str("None"),
    }
}

fn cannot_assign_text(found: Option<Type>, target: Type) -> (r: String)
    ensures
        r@ == cannot_assign(found, target),
{
    let mut m = String::from_str("Cannot assign ");
    m.append(opt_type_text_of(found).as_str());
    m.append(" to ");
    m.append(type_text_of(target).as_str());
    m
}

fn return_mismatch_text(expected: Type, found: Option<Type>) -> (r: String)
    ensures
        r@ == return_mismatch(expected, found),
{
    let mut m = String::from_str("expected ");
    m.append(type_text_of(expected).as_str());
    m.append(", found ");
    match found {
        Some(t) => m.append(type_text_of(t).as_str()),
        None => m.append("no value"),
    }
    m
}

fn argument_mismatch_text(i: usize) -> (r: String)
    ensures
        r@ == argument_mismatch(i as nat),
{
    let mut m = String::from_str("Argument ");
    push_decimal(&mut m, i as u64);
    m.append(" type mismatch");
    m
}

fn operand_mismatch_text(op: BinOp) -> (r: String)
    ensures
        r@ == operand_mismatch(op),
{
    match op {
        BinOp::Plus | BinOp::Minus | BinOp::Multiply | BinOp::Divide => String::from_str(
            "Arithmetic operands must have same type",
        ),
        _ => String::from_str("Comparison operands must have same type"),
    }
}

/// The type in `scope` under `name`, the latest entry first.
fn scope_find(scope: &Vec<(String, Type)>, name: &str) -> (r: Option<Type>)
    ensures
        r == scope_lookup(scope_view(scope@), name@),
{
    let ghost v = scope_view(scope@);
    let mut k = scope.len();
    assert(v.subrange(0, k as int) =~= v);
    while k > 0
        invariant
            k <= scope@.len(),
            v == scope_view(scope@),
            scope_lookup(v, name@) == scope_lookup(v.subrange(0, k as int), name@),
        decreases k,
    {
        let ghost w = v.subrange(0, k as int);
        assert(w.drop_last() =~= v.subrange(0, k - 1));
        if same_text(scope[k - 1].0.as_str(), name) {
            return Some(scope[k - 1].1);
        }
        k = k - 1;
    }
    None
}

impl SemanticAnalyzer {
    /// A fresh analyzer with one empty global scope.
    pub fn new() -> (r: Self)
        ensures
            r@ == fresh_analyzer(),
    {
        let mut scopes: Vec<Vec<(String, Type)>> = Vec::new();
        scopes.push(Vec::new());
        let r = SemanticAnalyzer {
            functions: Vec::new(),
            scopes,
            errors: Vec::new(),
            return_ty: Type::Int,
        };
        assert(r@.functions =~= fresh_analyzer().functions);
        assert(r@.scopes[0] =~= seq![]);
        assert(r@.scopes =~= fresh_analyzer().scopes);
        assert(r@.errors =~= fresh_analyzer().errors);
        r
    }

    fn report(&mut self, e: SemanticError)
        ensures
            final(self)@ == report(old(self)@, e@),
            final(self).scopes@ == old(self).scopes@,
            final(self).return_ty == old(self).return_ty,
    {
        self.errors.push(e);
        assert(final(self)@.errors =~= old(self)@.errors.push(e@));
    }

    /// The type of variable `name`, searching from the innermost scope out.
    pub fn lookup_variable(&self, name: &str) -> (r: Option<Type>)
        ensures
            r == lookup(self@.scopes, name@),
    {
        let ghost all = self@.scopes;
        let mut k = self.scopes.len();
        assert(all.subrange(0, k as int) =~= all);
        while k > 0
            invariant
                k <= self.scopes@.len(),
                all == self@.scopes,
                lookup(all, name@) == lookup(all.subrange(0, k as int), name@),
            decreases k,
        {
            let ghost w = all.subrange(0, k as int);
            assert(w.drop_last() =~= all.subrange(0, k - 1));
            match scope_find(&self.scopes[k - 1], name) {
                Some(t) => {
                    return Some(t);
                },
                None => {},
            }
            k = k - 1;
        }
        None
    }

    /// Whether `name` is already declared in the innermost scope.
    fn declared_here(&self, name: &str) -> (r: bool)
        ensures
            r == (self@.scopes.len() > 0 && scope_lookup(self@.scopes.last(), name@) is Some),
    {
        let n = self.scopes.len();
        if n == 0 {
            return false;
        }
        scope_find(&self.scopes[n - 1], name).is_some()
    }

    fn declare(&mut self, name: String, ty: Type)
        ensures
            final(self)@ == declare(old(self)@, name@, ty),
            final(self).scopes@.len() == if old(self).scopes@.len() == 0 {
                1
            } else {
                old(self).scopes@.len()
            },
    {
        let ghost a = self@;
        match self.scopes.pop() {
            Some(mut sc) => {
                let ghost before = sc@;
                sc.push((name, ty));
                self.scopes.push(sc);
                assert(scope_view(sc@) =~= scope_view(before).push((name@, ty)));
                assert(final(self)@.scopes =~= a.scopes.update(
                    a.scopes.len() - 1,
                    a.scopes.last().push((name@, ty)),
                ));
            },
            None => {
                let mut sc: Vec<(String, Type)> = Vec::new();
                sc.push((name, ty));
                self.scopes.push(sc);
                assert(scope_view(sc@) =~= seq![(name@, ty)]);
                assert(final(self)@.scopes =~= seq![seq![(name@, ty)]]);
            },
        }
    }

    fn push_scope(&mut self, scope: Vec<(String, Type)>)
        ensures
            final(self)@ == (AnalyzerView {
                scopes: old(self)@.scopes.push(scope_view(scope@)),
                ..old(self)@
            }),
            final(self).scopes@.len() == old(self).scopes@.len() + 1,
    {
        self.scopes.push(scope);
        assert(final(self)@.scopes =~= old(self)@.scopes.push(scope_view(scope@)));
    }

    fn pop_scope(&mut self)
        requires
            old(self).scopes@.len() > 0,
        ensures
            final(self)@ == pop_scope(old(self)@),
            final(self).scopes@.len() == old(self).scopes@.len() - 1,
    {
        self.scopes.pop();
        assert(final(self)@.scopes =~= old(self)@.scopes.drop_last());
    }

    /// The index of the first callable registered under `name`.
    fn find_function(&self, name: &String) -> (r: Option<usize>)
        ensures
            match sig_lookup(self@.functions, name@) {
                Some(sig) => r matches Some(k) && k < self.functions@.len() && self@.functions[k as int] == sig,
                None => r is None,
            },
    {
        let ghost fs = self@.functions;
        let mut k: usize = 0;
        assert(fs.subrange(0, fs.len() as int) =~= fs);
        while k < self.functions.len()
            invariant
                k <= self.functions@.len(),
                fs == self@.functions,
                sig_lookup(fs, name@) == sig_lookup(fs.subrange(k as int, fs.len() as int), name@),
            decreases self.functions@.len() - k,
        {
            let ghost w = fs.subrange(k as int, fs.len() as int);
            assert(w[0] == fs[k as int]);
            assert(w.subrange(1, w.len() as int) =~= fs.subrange(k + 1, fs.len() as int));
            if self.functions[k].name == *name {
                return Some(k);
            }
            k = k + 1;
        }
        None
    }
}

fn copy_types(v: &Vec<Type>) -> (r: Vec<Type>)
    ensures
        r@ == v@,
{
    let mut r: Vec<Type> = Vec::new();
    let mut k: usize = 0;
    while k < v.len()
        invariant
            k <= v@.len(),
            r@ == v@.subrange(0, k as int),
        decreases v@.len() - k,
    {
        r.push(v[k]);
        k = k + 1;
        assert(r@ =~= v@.subrange(0, k as int));
    }
    assert(v@.subrange(0, k as int) =~= v@);
    r
}

fn copy_error(e: &SemanticError) -> (r: SemanticError)
    ensures
        r@ == e@,
{
    match e {
        SemanticError::UndefinedVariable(s) => SemanticError::UndefinedVariable(s.clone()),
        SemanticError::DuplicateVariable(s) => SemanticError::DuplicateVariable(s.clone()),
        SemanticError::TypeMismatch(s) => SemanticError::TypeMismatch(s.clone()),
        SemanticError::UndefinedFunction(s) => SemanticError::UndefinedFunction(s.clone()),
        SemanticError::WrongArgumentCount(s, x, y) => SemanticError::WrongArgumentCount(
            s.clone(),
            *x,
            *y,
        ),
        SemanticError::ReturnTypeMismatch(s) => SemanticError::ReturnTypeMismatch(s.clone()),
    }
}

/// Whether an extern before position `i` has the name of the one at `i`.
fn declared_before(es: &Vec<ExternFunction>, i: usize) -> (r: bool)
    requires
        i < es@.len(),
    ensures
        r == exists|k: int| 0 <= k < i && es@[k].name@ == es@[i as int].name@,
{
    let mut k: usize = 0;
    while k < i
        invariant
            k <= i < es@.len(),
            forall|m: int| 0 <= m < k ==> es@[m].name@ != es@[i as int].name@,
        decreases i - k,
    {
        if es[k].name == es[i].name {
            return true;
        }
        k = k + 1;
    }
    false
}

impl SemanticAnalyzer {
    fn check_expr(&mut self, e: &Expr) -> (r: Option<Type>)
        ensures
            (final(self)@, r) == check_expr_spec(old(self)@, *e),
            final(self).scopes@ == old(self).scopes@,
            final(self).return_ty == old(self).return_ty,
        decreases e,
    {
        match e {
            Expr::Literal(l) => Some(
                match l {
                    Literal::Int(_) => Type::Int,
                    Literal::Float(_) => Type::Float,
                    Literal::String(_) => Type::String,
                },
            ),
            Expr::Identifier(name) => {
                match self.lookup_variable(name.as_str()) {
                    Some(t) => Some(t),
                    None => {
                        self.report(SemanticError::UndefinedVariable(name.clone()));
                        None
                    },
                }
            },
            Expr::Binary { left, op, right } => {
                let lt = self.check_expr(left);
                let rt = self.check_expr(right);
                if lt.is_some() && rt.is_some() && lt.unwrap() == rt.unwrap() {
                    match op {
                        BinOp::Plus | BinOp::Minus | BinOp::Multiply | BinOp::Divide => lt,
                        _ => Some(Type::Int),
                    }
                } else {
                    self.report(SemanticError::TypeMismatch(operand_mismatch_text(*op)));
                    None
                }
            },
            Expr::Call { name, args } => {
                match self.find_function(name) {
                    None => {
                        self.report(SemanticError::UndefinedFunction(name.clone()));
                        None
                    },
                    Some(k) => {
                        let params = copy_types(&self.functions[k].param_types);
                        let variadic = self.functions[k].is_variadic;
                        let ret = self.functions[k].return_ty;
                        let ok = if variadic {
                            args.len() >= params.len()
                        } else {
                            args.len() == params.len()
                        };
                        if !ok {
                            self.report(
                                SemanticError::WrongArgumentCount(
                                    name.clone(),
                                    params.len(),
                                    args.len(),
                                ),
                            );
                        }
                        self.check_args(args, &params, 0);
                        Some(ret)
                    },
                }
            },
            Expr::Assignment { name, value } => {
                let vt = self.check_expr(value);
                match self.lookup_variable(name.as_str()) {
                    None => {
                        self.report(SemanticError::UndefinedVariable(name.clone()));
                        None
                    },
                    Some(t) => {
                        if vt.is_some() && vt.unwrap() == t {
                            Some(t)
                        } else {
                            self.report(SemanticError::TypeMismatch(cannot_assign_text(vt, t)));
                            Some(t)
                        }
                    },
                }
            },
        }
    }

    fn check_args(&mut self, args: &Vec<Expr>, params: &Vec<Type>, i: usize)
        requires
            i <= args@.len(),
        ensures
            final(self)@ == check_args_spec(old(self)@, *args, params@, i as int),
            final(self).scopes@ == old(self).scopes@,
            final(self).return_ty == old(self).return_ty,
        decreases args, args@.len() - i,
    {
        if i >= args.len() {
            return;
        }
        let t = self.check_expr(&args[i]);
        if i < params.len() && (t.is_none() || t.unwrap() != params[i]) {
            self.report(SemanticError::TypeMismatch(argument_mismatch_text(i)));
        }
        self.check_args(args, params, i + 1);
    }

    fn check_cond(&mut self, c: &Expr)
        ensures
            final(self)@ == check_cond_spec(old(self)@, *c),
            final(self).scopes@ == old(self).scopes@,
    {
        let t = self.check_expr(c);
        if t.is_none() || t.unwrap() != Type::Int {
            self.report(SemanticError::TypeMismatch(String::from_str("Condition must be int")));
        }
    }

    fn check_stmt(&mut self, s: &Stmt)
        requires
            old(self).scopes@.len() > 0,
        ensures
            final(self)@ == check_stmt_spec(old(self)@, *s),
            final(self).scopes@.len() == old(self).scopes@.len(),
        decreases s,
    {
        match s {
            Stmt::Declaration { ty, name, init } => {
                self.check_declaration(*ty, name, init);
            },
            Stmt::Return(e) => {
                match e {
                    None => {
                        let m = return_mismatch_text(self.return_ty, None);
                        self.report(SemanticError::ReturnTypeMismatch(m));
                    },
                    Some(x) => {
                        let t = self.check_expr(x);
                        match t {
                            Some(rt) => {
                                if rt != self.return_ty {
                                    let m = return_mismatch_text(self.return_ty, t);
                                    self.report(SemanticError::ReturnTypeMismatch(m));
                                }
                            },
                            None => {},
                        }
                    },
                }
            },
            Stmt::Block(ss) => {
                let sc: Vec<(String, Type)> = Vec::new();
                assert(scope_view(sc@) =~= seq![]);
                self.push_scope(sc);
                self.check_stmts(ss, 0);
                self.pop_scope();
            },
            Stmt::If { cond, then, else_ } => {
                self.check_cond(cond);
                self.check_stmt(then);
                match else_ {
                    Some(x) => self.check_stmt(x),
                    None => {},
                }
            },
            Stmt::For { init, cond, update, body } => {
                let sc: Vec<(String, Type)> = Vec::new();
                assert(scope_view(sc@) =~= seq![]);
                self.push_scope(sc);
                match init {
                    Some(x) => self.check_stmt(x),
                    None => {},
                }
                match cond {
                    Some(c) => self.check_cond(c),
                    None => {},
                }
                match update {
                    Some(u) => {
                        self.check_expr(u);
                    },
                    None => {},
                }
                self.check_stmt(body);
                self.pop_scope();
            },
            Stmt::Expr(e) => {
                self.check_expr(e);
            },
        }
    }

    fn check_declaration(&mut self, ty: Type, name: &String, init: &Option<Expr>)
        requires
            old(self).scopes@.len() > 0,
        ensures
            final(self)@ == check_stmt_spec(
                old(self)@,
                Stmt::Declaration { ty, name: *name, init: *init },
            ),
            final(self).scopes@.len() == old(self).scopes@.len(),
    {
        if self.declared_here(name.as_str()) {
            self.report(SemanticError::DuplicateVariable(name.clone()));
        } else {
            self.declare(name.clone(), ty);
            match init {
                None => {},
                Some(e) => {
                    let t = self.check_expr(e);
                    if t.is_none() || t.unwrap() != ty {
                        self.report(SemanticError::TypeMismatch(cannot_assign_text(t, ty)));
                    }
                },
            }
        }
    }

    fn check_stmts(&mut self, ss: &Vec<Stmt>, i: usize)
        requires
            old(self).scopes@.len() > 0,
            i <= ss@.len(),
        ensures
            final(self)@ == check_stmts_spec(old(self)@, *ss, i as int),
            final(self).scopes@.len() == old(self).scopes@.len(),
        decreases ss, ss@.len() - i,
    {
        if i >= ss.len() {
            return;
        }
        self.check_stmt(&ss[i]);
        self.check_stmts(ss, i + 1);
    }
}

fn param_types_of(params: &Vec<(Type, String)>) -> (r: Vec<Type>)
    ensures
        r@ == params@.map_values(|p: (Type, String)| p.0),
{
    let mut r: Vec<Type> = Vec::new();
    let mut k: usize = 0;
    while k < params.len()
        invariant
            k <= params@.len(),
            r@ == params@.subrange(0, k as int).map_values(|p: (Type, String)| p.0),
        decreases params@.len() - k,
    {
        r.push(params[k].0);
        k = k + 1;
        assert(r@ =~= params@.subrange(0, k as int).map_values(|p: (Type, String)| p.0));
    }
    assert(params@.subrange(0, k as int) =~= params@);
    r
}

fn params_scope_of(params: &Vec<(Type, String)>) -> (r: Vec<(String, Type)>)
    ensures
        scope_view(r@) == params@.map_values(|p: (Type, String)| (p.1@, p.0)),
{
    let mut r: Vec<(String, Type)> = Vec::new();
    let mut k: usize = 0;
    while k < params.len()
        invariant
            k <= params@.len(),
            scope_view(r@) == params@.subrange(0, k as int).map_values(
                |p: (Type, String)| (p.1@, p.0),
            ),
        decreases params@.len() - k,
    {
        let ghost before = r@;
        let name = params[k].1.clone();
        r.push((name, params[k].0));
        assert(scope_view(r@) =~= scope_view(before).push((params@[k as int].1@, params@[k as int].0)));
        k = k + 1;
        assert(scope_view(r@) =~= params@.subrange(0, k as int).map_values(
            |p: (Type, String)| (p.1@, p.0),
        ));
    }
    assert(params@.subrange(0, k as int) =~= params@);
    r
}

impl SemanticAnalyzer {
    fn register_functions(&mut self, fs: &Vec<Function>)
        ensures
            final(self)@ == register_functions(old(self)@, fs@, 0),
            final(self).scopes@ == old(self).scopes@,
    {
        let mut i: usize = 0;
        while i < fs.len()
            invariant
                i <= fs@.len(),
                register_functions(old(self)@, fs@, 0) == register_functions(self@, fs@, i as int),
                self.scopes@ == old(self).scopes@,
            decreases fs@.len() - i,
        {
            let f = &fs[i];
            if self.find_function(&f.name).is_some() {
                self.report(SemanticError::DuplicateVariable(f.name.clone()));
            } else {
                let ghost a = self@;
                let sig = ExternFunction {
                    return_ty: f.return_ty,
                    name: f.name.clone(),
                    param_types: param_types_of(&f.params),
                    is_variadic: false,
                };
                assert(sig@ == signature_of(*f));
                self.functions.push(sig);
                assert(self@.functions =~= a.functions.push(signature_of(*f)));
                assert(self@.errors =~= a.errors);
                assert(self@.scopes =~= a.scopes);
            }
            i = i + 1;
        }
    }

    fn register_externs(&mut self, es: &Vec<ExternFunction>)
        ensures
            final(self)@ == register_externs(old(self)@, es@, 0),
            final(self).scopes@ == old(self).scopes@,
    {
        let mut i: usize = 0;
        while i < es.len()
            invariant
                i <= es@.len(),
                register_externs(old(self)@, es@, 0) == register_externs(self@, es@, i as int),
                self.scopes@ == old(self).scopes@,
            decreases es@.len() - i,
        {
            let e = &es[i];
            if declared_before(es, i) {
                self.report(SemanticError::DuplicateVariable(e.name.clone()));
            } else if self.find_function(&e.name).is_none() {
                let ghost a = self@;
                let sig = ExternFunction {
                    return_ty: e.return_ty,
                    name: e.name.clone(),
                    param_types: copy_types(&e.param_types),
                    is_variadic: e.is_variadic,
                };
                self.functions.push(sig);
                assert(self@.functions =~= a.functions.push(e@));
                assert(self@.errors =~= a.errors);
                assert(self@.scopes =~= a.scopes);
            }
            i = i + 1;
        }
    }

    fn check_function(&mut self, f: &Function)
        ensures
            final(self)@ == check_function_spec(old(self)@, *f),
            final(self).scopes@.len() == old(self).scopes@.len(),
    {
        let ghost a = self@;
        let sc = params_scope_of(&f.params);
        self.return_ty = f.return_ty;
        self.push_scope(sc);
        assert(self@ == (AnalyzerView {
            scopes: a.scopes.push(params_scope(*f)),
            return_ty: f.return_ty,
            ..a
        }));
        self.check_stmt(&f.body);
        self.pop_scope();
    }

    /// Registers every function and extern of `program`, checks every
    /// function body, and returns all diagnostics collected so far.
    pub fn analyze(&mut self, program: &Program) -> (r: Vec<SemanticError>)
        ensures
            final(self)@ == analyze_from(old(self)@, *program),
            diagnostics(r@) == final(self)@.errors,
    {
        self.register_functions(&program.functions);
        self.register_externs(&program.extern_functions);
        let ghost start = self@;
        let mut i: usize = 0;
        while i < program.functions.len()
            invariant
                i <= program.functions@.len(),
                check_functions_spec(start, program.functions@, 0) == check_functions_spec(
                    self@,
                    program.functions@,
                    i as int,
                ),
            decreases program.functions@.len() - i,
        {
            self.check_function(&program.functions[i]);
            i = i + 1;
        }
        let mut r: Vec<SemanticError> = Vec::new();
        let mut k: usize = 0;
        while k < self.errors.len()
            invariant
                k <= self.errors@.len(),
                diagnostics(r@) == diagnostics(self.errors@.subrange(0, k as int)),
            decreases self.errors@.len() - k,
        {
            let ghost before = r@;
            let e = copy_error(&self.errors[k]);
            r.push(e);
            assert(diagnostics(r@) =~= diagnostics(before).push(self.errors@[k as int]@));
            k = k + 1;
            assert(diagnostics(r@) =~= diagnostics(self.errors@.subrange(0, k as int)));
        }
        assert(self.errors@.subrange(0, k as int) =~= self.errors@);
        r
    }
}

/// The diagnostics of `program`, in the order found; empty when it is valid.
pub fn analyze(program: &Program) -> (r: Vec<SemanticError>)
    ensures
        diagnostics(r@) == analysis(*program),
{
    let mut analyzer = SemanticAnalyzer::new();
    analyzer.analyze(program)
}

} // verus!
