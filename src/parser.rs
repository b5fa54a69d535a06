//! Syntax analysis: tokens to a program.
//!
//! Recursive descent with these precedence levels, low to high: assignment
//! (`name = expr`, right-associative), one optional comparison (comparisons do
//! not chain), `+ -` and `* /` (left-associative), primary. An alternative that
//! fails gives way to the next one at the same position.
use vstd::prelude::*;
use crate::ast::{
    BinOp, Expr, ExprView, Function, FunctionView, Literal, LiteralView, Program, ProgramView,
    Signature, Stmt, StmtView, Type, ExternFunction, expr_view, exprs_view, stmt_view, stmts_view,
    lemma_exprs_view, lemma_stmts_view, params_view, program_view,
};
use crate::header_registry::{externs_for_header, header_externs, signatures};
use crate::lexer::{Lexeme, Token, lexemes};

verus! {

// ---------------------------------------------------------------------------
// Single tokens

pub open spec fn is_at(t: Seq<Lexeme>, i: int, l: Lexeme) -> bool {
    0 <= i < t.len() && t[i] == l
}

pub open spec fn type_at(t: Seq<Lexeme>, i: int) -> Option<Type> {
    if 0 <= i < t.len() {
        match t[i] {
            Lexeme::Int => Some(Type::Int),
            Lexeme::Float => Some(Type::Float),
            Lexeme::StringType => Some(Type::String),
            _ => None,
        }
    } else {
        None
    }
}

pub open spec fn ident_at(t: Seq<Lexeme>, i: int) -> Option<Seq<char>> {
    if 0 <= i < t.len() {
        match t[i] {
            Lexeme::Identifier(s) => Some(s),
            _ => None,
        }
    } else {
        None
    }
}

pub open spec fn literal_at(t: Seq<Lexeme>, i: int) -> Option<LiteralView> {
    if 0 <= i < t.len() {
        match t[i] {
            Lexeme::IntLiteral(n) => Some(LiteralView::Int(n)),
            Lexeme::FloatLiteral(s) => Some(LiteralView::Float(s)),
            Lexeme::StringLiteral(s) => Some(LiteralView::String(s)),
            _ => None,
        }
    } else {
        None
    }
}

pub open spec fn binop_at(t: Seq<Lexeme>, i: int) -> Option<BinOp> {
    if 0 <= i < t.len() {
        match t[i] {
            Lexeme::Plus => Some(BinOp::Plus),
            Lexeme::Minus => Some(BinOp::Minus),
            Lexeme::Multiply => Some(BinOp::Multiply),
            Lexeme::Divide => Some(BinOp::Divide),
            Lexeme::Equal => Some(BinOp::Equal),
            Lexeme::NotEqual => Some(BinOp::NotEqual),
            Lexeme::LessThan => Some(BinOp::LessThan),
            Lexeme::GreaterThan => Some(BinOp::GreaterThan),
            Lexeme::LessEqual => Some(BinOp::LessEqual),
            Lexeme::GreaterEqual => Some(BinOp::GreaterEqual),
            _ => None,
        }
    } else {
        None
    }
}

pub open spec fn mul_op_at(t: Seq<Lexeme>, i: int) -> Option<BinOp> {
    match binop_at(t, i) {
        Some(BinOp::Multiply) => Some(BinOp::Multiply),
        Some(BinOp::Divide) => Some(BinOp::Divide),
        _ => None,
    }
}

pub open spec fn add_op_at(t: Seq<Lexeme>, i: int) -> Option<BinOp> {
    match binop_at(t, i) {
        Some(BinOp::Plus) => Some(BinOp::Plus),
        Some(BinOp::Minus) => Some(BinOp::Minus),
        _ => None,
    }
}

// ---------------------------------------------------------------------------
// Expressions. Each returns what it parsed at `i` and where it stopped.

/// literal | name `(` arguments `)` | name | `(` expression `)`
pub open spec fn p_primary(t: Seq<Lexeme>, i: int) -> Option<(ExprView, int)>
    decreases t.len() - i, 1nat,
{
    if !(0 <= i < t.len()) {
        None
    } else if literal_at(t, i) is Some {
        Some((ExprView::Literal(literal_at(t, i)->0), i + 1))
    } else if ident_at(t, i) is Some {
        let name = ident_at(t, i)->0;
        if is_at(t, i + 1, Lexeme::LParen) {
            let (args, j) = p_args(t, i + 2);
            if is_at(t, j, Lexeme::RParen) {
                Some((ExprView::Call(name, args), j + 1))
            } else {
                Some((ExprView::Identifier(name), i + 1))
            }
        } else {
            Some((ExprView::Identifier(name), i + 1))
        }
    } else if is_at(t, i, Lexeme::LParen) {
        match p_expr(t, i + 1) {
            Some((e, j)) => if i < j && is_at(t, j, Lexeme::RParen) {
                Some((e, j + 1))
            } else {
                None
            },
            None => None,
        }
    } else {
        None
    }
}

/// Zero or more expressions separated by commas.
pub open spec fn p_args(t: Seq<Lexeme>, i: int) -> (Seq<ExprView>, int)
    decreases t.len() - i, 7nat,
{
    if !(0 <= i <= t.len()) {
        (seq![], i)
    } else {
        match p_expr(t, i) {
            Some((e, j)) => if i < j <= t.len() {
                p_args_tail(t, j, seq![e])
            } else {
                (seq![], i)
            },
            None => (seq![], i),
        }
    }
}

pub open spec fn p_args_tail(t: Seq<Lexeme>, i: int, acc: Seq<ExprView>) -> (Seq<ExprView>, int)
    decreases t.len() - i, 7nat,
{
    if is_at(t, i, Lexeme::Comma) {
        match p_expr(t, i + 1) {
            Some((e, j)) => if i < j <= t.len() {
                p_args_tail(t, j, acc.push(e))
            } else {
                (acc, i)
            },
            None => (acc, i),
        }
    } else {
        (acc, i)
    }
}

/// primary ((`*` | `/`) primary)*
pub open spec fn p_multiplicative(t: Seq<Lexeme>, i: int) -> Option<(ExprView, int)>
    decreases t.len() - i, 2nat,
{
    match p_primary(t, i) {
        Some((e, j)) => if i < j <= t.len() {
            Some(p_mul_tail(t, j, e))
        } else {
            None
        },
        None => None,
    }
}

pub open spec fn p_mul_tail(t: Seq<Lexeme>, i: int, acc: ExprView) -> (ExprView, int)
    decreases t.len() - i, 2nat,
{
    match mul_op_at(t, i) {
        Some(op) => match p_primary(t, i + 1) {
            Some((r, j)) => if i < j <= t.len() {
                p_mul_tail(t, j, ExprView::Binary(Box::new(acc), op, Box::new(r)))
            } else {
                (acc, i)
            },
            None => (acc, i),
        },
        None => (acc, i),
    }
}

/// multiplicative ((`+` | `-`) multiplicative)*
pub open spec fn p_additive(t: Seq<Lexeme>, i: int) -> Option<(ExprView, int)>
    decreases t.len() - i, 3nat,
{
    match p_multiplicative(t, i) {
        Some((e, j)) => if i < j <= t.len() {
            Some(p_add_tail(t, j, e))
        } else {
            None
        },
        None => None,
    }
}

pub open spec fn p_add_tail(t: Seq<Lexeme>, i: int, acc: ExprView) -> (ExprView, int)
    decreases t.len() - i, 3nat,
{
    match add_op_at(t, i) {
        Some(op) => match p_multiplicative(t, i + 1) {
            Some((r, j)) => if i < j <= t.len() {
                p_add_tail(t, j, ExprView::Binary(Box::new(acc), op, Box::new(r)))
            } else {
                (acc, i)
            },
            None => (acc, i),
        },
        None => (acc, i),
    }
}

/// additive (operator additive)?  -- at most one operator application
pub open spec fn p_comparison(t: Seq<Lexeme>, i: int) -> Option<(ExprView, int)>
    decreases t.len() - i, 4nat,
{
    match p_additive(t, i) {
        Some((l, j)) => if i < j <= t.len() {
            match binop_at(t, j) {
                Some(op) => match p_additive(t, j + 1) {
                    Some((r, k)) => Some((ExprView::Binary(Box::new(l), op, Box::new(r)), k)),
                    None => Some((l, j)),
                },
                None => Some((l, j)),
            }
        } else {
            None
        },
        None => None,
    }
}

/// name `=` expression | comparison
pub open spec fn p_expr(t: Seq<Lexeme>, i: int) -> Option<(ExprView, int)>
    decreases t.len() - i, 6nat,
{
    if ident_at(t, i) is Some && is_at(t, i + 1, Lexeme::Assign) {
        match p_expr(t, i + 2) {
            Some((v, j)) => Some((ExprView::Assignment(ident_at(t, i)->0, Box::new(v)), j)),
            None => p_comparison(t, i),
        }
    } else {
        p_comparison(t, i)
    }
}

// ---------------------------------------------------------------------------
// Statements

/// type name (`=` expression)? `;`
pub open spec fn p_declaration(t: Seq<Lexeme>, i: int) -> Option<(StmtView, int)> {
    if type_at(t, i) is Some && ident_at(t, i + 1) is Some {
        let ty = type_at(t, i)->0;
        let name = ident_at(t, i + 1)->0;
        if is_at(t, i + 2, Lexeme::Assign) {
            match p_expr(t, i + 3) {
                Some((e, j)) => if is_at(t, j, Lexeme::Semicolon) {
                    Some((StmtView::Declaration(ty, name, Some(e)), j + 1))
                } else {
                    None
                },
                None => None,
            }
        } else if is_at(t, i + 2, Lexeme::Semicolon) {
            Some((StmtView::Declaration(ty, name, None), i + 3))
        } else {
            None
        }
    } else {
        None
    }
}

/// `return` expression? `;`
pub open spec fn p_return(t: Seq<Lexeme>, i: int) -> Option<(StmtView, int)> {
    if is_at(t, i, Lexeme::Return) {
        match p_expr(t, i + 1) {
            Some((e, j)) => if is_at(t, j, Lexeme::Semicolon) {
                Some((StmtView::Return(Some(e)), j + 1))
            } else {
                None
            },
            None => if is_at(t, i + 1, Lexeme::Semicolon) {
                Some((StmtView::Return(None), i + 2))
            } else {
                None
            },
        }
    } else {
        None
    }
}

/// expression `;`
pub open spec fn p_expr_stmt(t: Seq<Lexeme>, i: int) -> Option<(StmtView, int)> {
    match p_expr(t, i) {
        Some((e, j)) => if is_at(t, j, Lexeme::Semicolon) {
            Some((StmtView::Expr(e), j + 1))
        } else {
            None
        },
        None => None,
    }
}

/// `{` statement* `}`
pub open spec fn p_block(t: Seq<Lexeme>, i: int) -> Option<(StmtView, int)>
    decreases t.len() - i, 2nat,
{
    if is_at(t, i, Lexeme::LBrace) {
        let (ss, j) = p_stmts(t, i + 1, seq![]);
        if is_at(t, j, Lexeme::RBrace) {
            Some((StmtView::Block(ss), j + 1))
        } else {
            None
        }
    } else {
        None
    }
}

/// Statements for as long as one parses.
pub open spec fn p_stmts(t: Seq<Lexeme>, i: int, acc: Seq<StmtView>) -> (Seq<StmtView>, int)
    decreases t.len() - i, 4nat,
{
    if !(0 <= i <= t.len()) {
        (acc, i)
    } else {
        match p_stmt(t, i) {
            Some((s, j)) => if i < j <= t.len() {
                p_stmts(t, j, acc.push(s))
            } else {
                (acc, i)
            },
            None => (acc, i),
        }
    }
}

/// `if` `(` expression `)` statement (`else` statement)?
pub open spec fn p_if(t: Seq<Lexeme>, i: int) -> Option<(StmtView, int)>
    decreases t.len() - i, 2nat,
{
    if is_at(t, i, Lexeme::If) && is_at(t, i + 1, Lexeme::LParen) {
        match p_expr(t, i + 2) {
            Some((c, j)) => if i < j && is_at(t, j, Lexeme::RParen) {
                match p_stmt(t, j + 1) {
                    Some((th, k)) => if j < k <= t.len() && is_at(t, k, Lexeme::Else) {
                        match p_stmt(t, k + 1) {
                            Some((el, m)) => Some(
                                (StmtView::If(c, Box::new(th), Some(Box::new(el))), m),
                            ),
                            None => Some((StmtView::If(c, Box::new(th), None), k)),
                        }
                    } else {
                        Some((StmtView::If(c, Box::new(th), None), k))
                    },
                    None => None,
                }
            } else {
                None
            },
            None => None,
        }
    } else {
        None
    }
}

/// The first clause of a `for`: a declaration, an expression statement, or `;`.
pub open spec fn p_for_init(t: Seq<Lexeme>, i: int) -> Option<(Option<StmtView>, int)> {
    match p_declaration(t, i) {
        Some((d, j)) => Some((Some(d), j)),
        None => match p_expr_stmt(t, i) {
            Some((s, j)) => Some((Some(s), j)),
            None => if is_at(t, i, Lexeme::Semicolon) {
                Some((None, i + 1))
            } else {
                None
            },
        },
    }
}

/// An optional expression.
pub open spec fn p_opt_expr(t: Seq<Lexeme>, i: int) -> (Option<ExprView>, int) {
    match p_expr(t, i) {
        Some((e, j)) => (Some(e), j),
        None => (None, i),
    }
}

/// `for` `(` init condition? `;` update? `)` statement
pub open spec fn p_for(t: Seq<Lexeme>, i: int) -> Option<(StmtView, int)>
    decreases t.len() - i, 2nat,
{
    if is_at(t, i, Lexeme::For) && is_at(t, i + 1, Lexeme::LParen) {
        match p_for_init(t, i + 2) {
            Some((init, j)) => {
                let (cond, k) = p_opt_expr(t, j);
                let (update, m) = p_opt_expr(t, k + 1);
                if is_at(t, k, Lexeme::Semicolon) && is_at(t, m, Lexeme::RParen) && i < m {
                    match p_stmt(t, m + 1) {
                        Some((body, n)) => Some(
                            (
                                StmtView::For(
                                    match init {
                                        Some(s) => Some(Box::new(s)),
                                        None => None,
                                    },
                                    cond,
                                    update,
                                    Box::new(body),
                                ),
                                n,
                            ),
                        ),
                        None => None,
                    }
                } else {
                    None
                }
            },
            None => None,
        }
    } else {
        None
    }
}

/// The first of declaration, return, if, for, block and expression statement
/// that parses at `i`.
pub open spec fn p_stmt(t: Seq<Lexeme>, i: int) -> Option<(StmtView, int)>
    decreases t.len() - i, 3nat,
{
    if p_declaration(t, i) is Some {
        p_declaration(t, i)
    } else if p_return(t, i) is Some {
        p_return(t, i)
    } else if p_if(t, i) is Some {
        p_if(t, i)
    } else if p_for(t, i) is Some {
        p_for(t, i)
    } else if p_block(t, i) is Some {
        p_block(t, i)
    } else {
        p_expr_stmt(t, i)
    }
}

// ---------------------------------------------------------------------------
// Top level

/// The fixed parameter types of an extern, then whether it is variadic.
pub open spec fn p_extern_params(t: Seq<Lexeme>, i: int, acc: Seq<Type>) -> Option<(Seq<Type>, bool, int)>
    decreases t.len() - i,
{
    if type_at(t, i) is Some {
        let ty = type_at(t, i)->0;
        if is_at(t, i + 1, Lexeme::Comma) {
            p_extern_params(t, i + 2, acc.push(ty))
        } else {
            Some((acc.push(ty), false, i + 1))
        }
    } else if is_at(t, i, Lexeme::Ellipsis) {
        Some((acc, true, i + 1))
    } else {
        None
    }
}

/// `extern` type name `(` types (`,` `...`)? `)` `;`
pub open spec fn p_extern(t: Seq<Lexeme>, i: int) -> Option<(Signature, int)> {
    if is_at(t, i, Lexeme::Extern) && type_at(t, i + 1) is Some && ident_at(t, i + 2) is Some
        && is_at(t, i + 3, Lexeme::LParen) {
        match p_extern_params(t, i + 4, seq![]) {
            Some((tys, variadic, j)) => if is_at(t, j, Lexeme::RParen) && is_at(
                t,
                j + 1,
                Lexeme::Semicolon,
            ) {
                Some(
                    (
                        Signature {
                            return_ty: type_at(t, i + 1)->0,
                            name: ident_at(t, i + 2)->0,
                            param_types: tys,
                            is_variadic: variadic,
                        },
                        j + 2,
                    ),
                )
            } else {
                None
            },
            None => None,
        }
    } else {
        None
    }
}

pub open spec fn param_at(t: Seq<Lexeme>, i: int) -> bool {
    type_at(t, i) is Some && ident_at(t, i + 1) is Some
}

/// Parameters `type name` separated by commas, from position `i` on.
pub open spec fn p_params_tail(t: Seq<Lexeme>, i: int, acc: Seq<(Type, Seq<char>)>) -> (Seq<(Type, Seq<char>)>, int)
    decreases t.len() - i,
{
    if is_at(t, i, Lexeme::Comma) && param_at(t, i + 1) {
        p_params_tail(t, i + 3, acc.push((type_at(t, i + 1)->0, ident_at(t, i + 2)->0)))
    } else {
        (acc, i)
    }
}

pub open spec fn p_params(t: Seq<Lexeme>, i: int) -> (Seq<(Type, Seq<char>)>, int) {
    if param_at(t, i) {
        p_params_tail(t, i + 2, seq![(type_at(t, i)->0, ident_at(t, i + 1)->0)])
    } else {
        (seq![], i)
    }
}

/// type name `(` parameters `)` block
pub open spec fn p_function(t: Seq<Lexeme>, i: int) -> Option<(FunctionView, int)> {
    if type_at(t, i) is Some && ident_at(t, i + 1) is Some && is_at(t, i + 2, Lexeme::LParen) {
        let (params, j) = p_params(t, i + 3);
        if is_at(t, j, Lexeme::RParen) {
            match p_block(t, j + 1) {
                Some((body, k)) => Some(
                    (
                        FunctionView {
                            return_ty: type_at(t, i)->0,
                            name: ident_at(t, i + 1)->0,
                            params,
                            body,
                        },
                        k,
                    ),
                ),
                None => None,
            }
        } else {
            None
        }
    } else {
        None
    }
}

pub open spec fn include_at(t: Seq<Lexeme>, i: int) -> Option<Seq<char>> {
    if 0 <= i < t.len() {
        match t[i] {
            Lexeme::Include(h) => Some(h),
            _ => None,
        }
    } else {
        None
    }
}

/// Top-level items, in any order, for as long as one parses; `p` collects
/// them (its externs without the headers' declarations yet).
pub open spec fn p_items(t: Seq<Lexeme>, i: int, p: ProgramView) -> (ProgramView, int)
    decreases t.len() - i,
{
    if !(0 <= i < t.len()) {
        (p, i)
    } else if include_at(t, i) is Some {
        p_items(t, i + 1, ProgramView { includes: p.includes.push(include_at(t, i)->0), ..p })
    } else if p_extern(t, i) is Some {
        let (e, j) = p_extern(t, i)->0;
        if i < j {
            p_items(t, j, ProgramView { extern_functions: p.extern_functions.push(e), ..p })
        } else {
            (p, i)
        }
    } else if p_function(t, i) is Some {
        let (f, j) = p_function(t, i)->0;
        if i < j {
            p_items(t, j, ProgramView { functions: p.functions.push(f), ..p })
        } else {
            (p, i)
        }
    } else {
        (p, i)
    }
}

/// Adds `e` unless a declaration of that name is already there.
pub open spec fn add_extern(es: Seq<Signature>, e: Signature) -> Seq<Signature> {
    if exists|k: int| 0 <= k < es.len() && es[k].name == e.name {
        es
    } else {
        es.push(e)
    }
}

pub open spec fn add_externs(es: Seq<Signature>, new: Seq<Signature>) -> Seq<Signature>
    decreases new.len(),
{
    if new.len() == 0 {
        es
    } else {
        add_externs(add_extern(es, new[0]), new.subrange(1, new.len() as int))
    }
}

/// The declarations of the included headers, in order, added to `es`.
pub open spec fn with_headers(es: Seq<Signature>, headers: Seq<Seq<char>>) -> Seq<Signature>
    decreases headers.len(),
{
    if headers.len() == 0 {
        es
    } else {
        with_headers(
            add_externs(es, header_externs(headers[0])),
            headers.subrange(1, headers.len() as int),
        )
    }
}

/// The program that a token sequence spells, or `None` when tokens remain
/// that start no top-level item.
pub open spec fn parse_spec(t: Seq<Lexeme>) -> Option<ProgramView> {
    let (p, j) = p_items(
        t,
        0,
        ProgramView { includes: seq![], extern_functions: seq![], functions: seq![] },
    );
    if j == t.len() {
        Some(ProgramView { extern_functions: with_headers(p.extern_functions, p.includes), ..p })
    } else {
        None
    }
}

// ---------------------------------------------------------------------------
// Executable parser

/// A lexeme without a payload.
pub open spec fn is_plain(l: Lexeme) -> bool {
    !(l is Identifier || l is FloatLiteral || l is IntLiteral || l is StringLiteral
        || l is Include)
}

fn same_plain(a: &Token, b: &Token) -> (r: bool)
    requires
        is_plain(b@),
    ensures
        r == (a@ == b@),
{
    match (a, b) {
        (Token::Int, Token::Int) => true,
        (Token::Float, Token::Float) => true,
        (Token::StringType, Token::StringType) => true,
        (Token::If, Token::If) => true,
        (Token::Else, Token::Else) => true,
        (Token::For, Token::For) => true,
        (Token::Return, Token::Return) => true,
        (Token::Extern, Token::Extern) => true,
        (Token::LessEqual, Token::LessEqual) => true,
        (Token::GreaterEqual, Token::GreaterEqual) => true,
        (Token::Equal, Token::Equal) => true,
        (Token::NotEqual, Token::NotEqual) => true,
        (Token::LessThan, Token::LessThan) => true,
        (Token::GreaterThan, Token::GreaterThan) => true,
        (Token::Assign, Token::Assign) => true,
        (Token::Plus, Token::Plus) => true,
        (Token::Minus, Token::Minus) => true,
        (Token::Multiply, Token::Multiply) => true,
        (Token::Divide, Token::Divide) => true,
        (Token::Semicolon, Token::Semicolon) => true,
        (Token::Comma, Token::Comma) => true,
        (Token::LParen, Token::LParen) => true,
        (Token::RParen, Token::RParen) => true,
        (Token::LBrace, Token::LBrace) => true,
        (Token::RBrace, Token::RBrace) => true,
        (Token::Ellipsis, Token::Ellipsis) => true,
        _ => false,
    }
}

fn at(t: &[Token], i: usize, k: Token) -> (r: bool)
    requires
        is_plain(k@),
    ensures
        r == is_at(lexemes(t@), i as int, k@),
{
    i < t.len() && same_plain(&t[i], &k)
}

fn type_of(t: &[Token], i: usize) -> (r: Option<Type>)
    ensures
        r == type_at(lexemes(t@), i as int),
{
    if i >= t.len() {
        return None;
    }
    match &t[i] {
        Token::Int => Some(Type::Int),
        Token::Float => Some(Type::Float),
        Token::StringType => Some(Type::String),
        _ => None,
    }
}

fn ident_of(t: &[Token], i: usize) -> (r: Option<String>)
    ensures
        match ident_at(lexemes(t@), i as int) {
            Some(s) => r matches Some(x) && x@ == s,
            None => r is None,
        },
{
    if i >= t.len() {
        return None;
    }
    match &t[i] {
        Token::Identifier(s) => Some(s.clone()),
        _ => None,
    }
}

fn literal_of(t: &[Token], i: usize) -> (r: Option<Literal>)
    ensures
        match literal_at(lexemes(t@), i as int) {
            Some(l) => r matches Some(x) && crate::ast::literal_view(x) == l,
            None => r is None,
        },
{
    if i >= t.len() {
        return None;
    }
    match &t[i] {
        Token::IntLiteral(n) => Some(Literal::Int(*n)),
        Token::FloatLiteral(s) => Some(Literal::Float(s.clone())),
        Token::StringLiteral(s) => Some(Literal::String(s.clone())),
        _ => None,
    }
}

fn binop_of(t: &[Token], i: usize) -> (r: Option<BinOp>)
    ensures
        r == binop_at(lexemes(t@), i as int),
{
    if i >= t.len() {
        return None;
    }
    match &t[i] {
        Token::Plus => Some(BinOp::Plus),
        Token::Minus => Some(BinOp::Minus),
        Token::Multiply => Some(BinOp::Multiply),
        Token::Divide => Some(BinOp::Divide),
        Token::Equal => Some(BinOp::Equal),
        Token::NotEqual => Some(BinOp::NotEqual),
        Token::LessThan => Some(BinOp::LessThan),
        Token::GreaterThan => Some(BinOp::GreaterThan),
        Token::LessEqual => Some(BinOp::LessEqual),
        Token::GreaterEqual => Some(BinOp::GreaterEqual),
        _ => None,
    }
}

fn parse_primary(t: &[Token], i: usize) -> (r: Option<(Expr, usize)>)
    requires
        i <= t@.len(),
    ensures
        match p_primary(lexemes(t@), i as int) {
            Some((m, j)) => r matches Some((e, k)) && expr_view(e) == m && k == j,
            None => r is None,
        },
        r matches Some((e, k)) ==> i < k <= t@.len(),
    decreases t@.len() - i, 1nat,
{
    let _len = t.len();
    if i >= t.len() {
        return None;
    }
    match literal_of(t, i) {
        Some(l) => {
            return Some((Expr::Literal(l), i + 1));
        },
        None => {},
    }
    match ident_of(t, i) {
        Some(name) => {
            if at(t, i + 1, Token::LParen) {
                let (args, j) = parse_args(t, i + 2);
                if at(t, j, Token::RParen) {
                    return Some((Expr::Call { name, args }, j + 1));
                }
            }
            return Some((Expr::Identifier(name), i + 1));
        },
        None => {},
    }
    if at(t, i, Token::LParen) {
        match parse_expr(t, i + 1) {
            Some((e, j)) => {
                if at(t, j, Token::RParen) {
                    return Some((e, j + 1));
                }
            },
            None => {},
        }
    }
    None
}

fn parse_args(t: &[Token], i: usize) -> (r: (Vec<Expr>, usize))
    requires
        i <= t@.len(),
    ensures
        exprs_view(r.0, r.0.len() as int) == p_args(lexemes(t@), i as int).0,
        r.1 == p_args(lexemes(t@), i as int).1,
        i <= r.1 <= t@.len(),
    decreases t@.len() - i, 7nat,
{
    let _len = t.len();
    match parse_expr(t, i) {
        Some((e, j)) => {
            let mut v: Vec<Expr> = Vec::new();
            v.push(e);
            assert(exprs_view(v, 0) =~= seq![]);
            assert(exprs_view(v, 1) =~= seq![expr_view(e)]);
            parse_args_tail(t, j, v)
        },
        None => (Vec::new(), i),
    }
}

fn parse_args_tail(t: &[Token], i: usize, acc: Vec<Expr>) -> (r: (Vec<Expr>, usize))
    requires
        i <= t@.len(),
    ensures
        exprs_view(r.0, r.0.len() as int) == p_args_tail(
            lexemes(t@),
            i as int,
            exprs_view(acc, acc.len() as int),
        ).0,
        r.1 == p_args_tail(lexemes(t@), i as int, exprs_view(acc, acc.len() as int)).1,
        i <= r.1 <= t@.len(),
    decreases t@.len() - i, 7nat,
{
    let _len = t.len();
    if at(t, i, Token::Comma) {
        match parse_expr(t, i + 1) {
            Some((e, j)) => {
                let mut v = acc;
                let ghost before = v;
                v.push(e);
                proof {
                    lemma_exprs_view(v, before, before.len() as int);
                }
                return parse_args_tail(t, j, v);
            },
            None => {},
        }
    }
    (acc, i)
}

fn parse_multiplicative(t: &[Token], i: usize) -> (r: Option<(Expr, usize)>)
    requires
        i <= t@.len(),
    ensures
        match p_multiplicative(lexemes(t@), i as int) {
            Some((m, j)) => r matches Some((e, k)) && expr_view(e) == m && k == j,
            None => r is None,
        },
        r matches Some((e, k)) ==> i < k <= t@.len(),
    decreases t@.len() - i, 2nat,
{
    let _len = t.len();
    match parse_primary(t, i) {
        Some((e, j)) => Some(parse_mul_tail(t, j, e)),
        None => None,
    }
}

fn parse_mul_tail(t: &[Token], i: usize, acc: Expr) -> (r: (Expr, usize))
    requires
        i <= t@.len(),
    ensures
        expr_view(r.0) == p_mul_tail(lexemes(t@), i as int, expr_view(acc)).0,
        r.1 == p_mul_tail(lexemes(t@), i as int, expr_view(acc)).1,
        i <= r.1 <= t@.len(),
    decreases t@.len() - i, 2nat,
{
    let _len = t.len();
    let op = binop_of(t, i);
    match op {
        Some(BinOp::Multiply) | Some(BinOp::Divide) => {
            let op = op.unwrap();
            match parse_primary(t, i + 1) {
                Some((r, j)) => {
                    let e = Expr::Binary { left: Box::new(acc), op, right: Box::new(r) };
                    parse_mul_tail(t, j, e)
                },
                None => (acc, i),
            }
        },
        _ => (acc, i),
    }
}

fn parse_additive(t: &[Token], i: usize) -> (r: Option<(Expr, usize)>)
    requires
        i <= t@.len(),
    ensures
        match p_additive(lexemes(t@), i as int) {
            Some((m, j)) => r matches Some((e, k)) && expr_view(e) == m && k == j,
            None => r is None,
        },
        r matches Some((e, k)) ==> i < k <= t@.len(),
    decreases t@.len() - i, 3nat,
{
    let _len = t.len();
    match parse_multiplicative(t, i) {
        Some((e, j)) => Some(parse_add_tail(t, j, e)),
        None => None,
    }
}

fn parse_add_tail(t: &[Token], i: usize, acc: Expr) -> (r: (Expr, usize))
    requires
        i <= t@.len(),
    ensures
        expr_view(r.0) == p_add_tail(lexemes(t@), i as int, expr_view(acc)).0,
        r.1 == p_add_tail(lexemes(t@), i as int, expr_view(acc)).1,
        i <= r.1 <= t@.len(),
    decreases t@.len() - i, 3nat,
{
    let _len = t.len();
    let op = binop_of(t, i);
    match op {
        Some(BinOp::Plus) | Some(BinOp::Minus) => {
            let op = op.unwrap();
            match parse_multiplicative(t, i + 1) {
                Some((r, j)) => {
                    let e = Expr::Binary { left: Box::new(acc), op, right: Box::new(r) };
                    parse_add_tail(t, j, e)
                },
                None => (acc, i),
            }
        },
        _ => (acc, i),
    }
}

fn parse_comparison(t: &[Token], i: usize) -> (r: Option<(Expr, usize)>)
    requires
        i <= t@.len(),
    ensures
        match p_comparison(lexemes(t@), i as int) {
            Some((m, j)) => r matches Some((e, k)) && expr_view(e) == m && k == j,
            None => r is None,
        },
        r matches Some((e, k)) ==> i < k <= t@.len(),
    decreases t@.len() - i, 4nat,
{
    let _len = t.len();
    match parse_additive(t, i) {
        Some((l, j)) => {
            match binop_of(t, j) {
                Some(op) => match parse_additive(t, j + 1) {
                    Some((r, k)) => Some(
                        (Expr::Binary { left: Box::new(l), op, right: Box::new(r) }, k),
                    ),
                    None => Some((l, j)),
                },
                None => Some((l, j)),
            }
        },
        None => None,
    }
}

/// Parses an expression at `i`.
fn parse_expr(t: &[Token], i: usize) -> (r: Option<(Expr, usize)>)
    requires
        i <= t@.len(),
    ensures
        match p_expr(lexemes(t@), i as int) {
            Some((m, j)) => r matches Some((e, k)) && expr_view(e) == m && k == j,
            None => r is None,
        },
        r matches Some((e, k)) ==> i < k <= t@.len(),
    decreases t@.len() - i, 6nat,
{
    let _len = t.len();
    match ident_of(t, i) {
        Some(name) => {
            if at(t, i + 1, Token::Assign) {
                match parse_expr(t, i + 2) {
                    Some((v, j)) => {
                        return Some((Expr::Assignment { name, value: Box::new(v) }, j));
                    },
                    None => {},
                }
            }
        },
        None => {},
    }
    parse_comparison(t, i)
}

fn parse_declaration(t: &[Token], i: usize) -> (r: Option<(Stmt, usize)>)
    requires
        i <= t@.len(),
    ensures
        match p_declaration(lexemes(t@), i as int) {
            Some((m, j)) => r matches Some((s, k)) && stmt_view(s) == m && k == j,
            None => r is None,
        },
        r matches Some((s, k)) ==> i < k <= t@.len(),
{
    let _len = t.len();
    let ty = type_of(t, i);
    if ty.is_none() {
        return None;
    }
    let ty = ty.unwrap();
    let name = ident_of(t, i + 1);
    if name.is_none() {
        return None;
    }
    let name = name.unwrap();
    if at(t, i + 2, Token::Assign) {
        match parse_expr(t, i + 3) {
            Some((e, j)) => {
                if at(t, j, Token::Semicolon) {
                    return Some((Stmt::Declaration { ty, name, init: Some(e) }, j + 1));
                }
                None
            },
            None => None,
        }
    } else if at(t, i + 2, Token::Semicolon) {
        Some((Stmt::Declaration { ty, name, init: None }, i + 3))
    } else {
        None
    }
}

fn parse_return(t: &[Token], i: usize) -> (r: Option<(Stmt, usize)>)
    requires
        i <= t@.len(),
    ensures
        match p_return(lexemes(t@), i as int) {
            Some((m, j)) => r matches Some((s, k)) && stmt_view(s) == m && k == j,
            None => r is None,
        },
        r matches Some((s, k)) ==> i < k <= t@.len(),
{
    let _len = t.len();
    if !at(t, i, Token::Return) {
        return None;
    }
    match parse_expr(t, i + 1) {
        Some((e, j)) => {
            if at(t, j, Token::Semicolon) {
                Some((Stmt::Return(Some(e)), j + 1))
            } else {
                None
            }
        },
        None => {
            if at(t, i + 1, Token::Semicolon) {
                Some((Stmt::Return(None), i + 2))
            } else {
                None
            }
        },
    }
}

fn parse_expr_stmt(t: &[Token], i: usize) -> (r: Option<(Stmt, usize)>)
    requires
        i <= t@.len(),
    ensures
        match p_expr_stmt(lexemes(t@), i as int) {
            Some((m, j)) => r matches Some((s, k)) && stmt_view(s) == m && k == j,
            None => r is None,
        },
        r matches Some((s, k)) ==> i < k <= t@.len(),
{
    let _len = t.len();
    match parse_expr(t, i) {
        Some((e, j)) => {
            if at(t, j, Token::Semicolon) {
                Some((Stmt::Expr(e), j + 1))
            } else {
                None
            }
        },
        None => None,
    }
}

fn parse_block(t: &[Token], i: usize) -> (r: Option<(Stmt, usize)>)
    requires
        i <= t@.len(),
    ensures
        match p_block(lexemes(t@), i as int) {
            Some((m, j)) => r matches Some((s, k)) && stmt_view(s) == m && k == j,
            None => r is None,
        },
        r matches Some((s, k)) ==> i < k <= t@.len(),
    decreases t@.len() - i, 2nat,
{
    let _len = t.len();
    if !at(t, i, Token::LBrace) {
        return None;
    }
    let v: Vec<Stmt> = Vec::new();
    assert(stmts_view(v, 0) =~= seq![]);
    let (ss, j) = parse_stmts(t, i + 1, v);
    if at(t, j, Token::RBrace) {
        Some((Stmt::Block(ss), j + 1))
    } else {
        None
    }
}

fn parse_stmts(t: &[Token], i: usize, acc: Vec<Stmt>) -> (r: (Vec<Stmt>, usize))
    requires
        i <= t@.len(),
    ensures
        stmts_view(r.0, r.0.len() as int) == p_stmts(
            lexemes(t@),
            i as int,
            stmts_view(acc, acc.len() as int),
        ).0,
        r.1 == p_stmts(lexemes(t@), i as int, stmts_view(acc, acc.len() as int)).1,
        i <= r.1 <= t@.len(),
    decreases t@.len() - i, 4nat,
{
    let _len = t.len();
    match parse_stmt(t, i) {
        Some((s, j)) => {
            let mut v = acc;
            let ghost before = v;
            v.push(s);
            proof {
                lemma_stmts_view(v, before, before.len() as int);
            }
            parse_stmts(t, j, v)
        },
        None => (acc, i),
    }
}

fn parse_if(t: &[Token], i: usize) -> (r: Option<(Stmt, usize)>)
    requires
        i <= t@.len(),
    ensures
        match p_if(lexemes(t@), i as int) {
            Some((m, j)) => r matches Some((s, k)) && stmt_view(s) == m && k == j,
            None => r is None,
        },
        r matches Some((s, k)) ==> i < k <= t@.len(),
    decreases t@.len() - i, 2nat,
{
    let _len = t.len();
    if !(at(t, i, Token::If) && at(t, i + 1, Token::LParen)) {
        return None;
    }
    match parse_expr(t, i + 2) {
        Some((c, j)) => {
            if !at(t, j, Token::RParen) {
                return None;
            }
            match parse_stmt(t, j + 1) {
                Some((th, k)) => {
                    if at(t, k, Token::Else) {
                        match parse_stmt(t, k + 1) {
                            Some((el, m)) => {
                                return Some(
                                    (
                                        Stmt::If {
                                            cond: c,
                                            then: Box::new(th),
                                            else_: Some(Box::new(el)),
                                        },
                                        m,
                                    ),
                                );
                            },
                            None => {},
                        }
                    }
                    Some((Stmt::If { cond: c, then: Box::new(th), else_: None }, k))
                },
                None => None,
            }
        },
        None => None,
    }
}

fn parse_for_init(t: &[Token], i: usize) -> (r: Option<(Option<Box<Stmt>>, usize)>)
    requires
        i <= t@.len(),
    ensures
        match p_for_init(lexemes(t@), i as int) {
            Some((m, j)) => r matches Some((s, k)) && k == j && match s {
                Some(b) => m == Some(stmt_view(*b)),
                None => m is None,
            },
            None => r is None,
        },
        r matches Some((s, k)) ==> i < k <= t@.len(),
{
    let _len = t.len();
    match parse_declaration(t, i) {
        Some((d, j)) => Some((Some(Box::new(d)), j)),
        None => match parse_expr_stmt(t, i) {
            Some((s, j)) => Some((Some(Box::new(s)), j)),
            None => if at(t, i, Token::Semicolon) {
                Some((None, i + 1))
            } else {
                None
            },
        },
    }
}

fn parse_opt_expr(t: &[Token], i: usize) -> (r: (Option<Expr>, usize))
    requires
        i <= t@.len(),
    ensures
        crate::ast::opt_expr_view(r.0) == p_opt_expr(lexemes(t@), i as int).0,
        r.1 == p_opt_expr(lexemes(t@), i as int).1,
        i <= r.1 <= t@.len(),
{
    let _len = t.len();
    match parse_expr(t, i) {
        Some((e, j)) => (Some(e), j),
        None => (None, i),
    }
}

fn parse_for(t: &[Token], i: usize) -> (r: Option<(Stmt, usize)>)
    requires
        i <= t@.len(),
    ensures
        match p_for(lexemes(t@), i as int) {
            Some((m, j)) => r matches Some((s, k)) && stmt_view(s) == m && k == j,
            None => r is None,
        },
        r matches Some((s, k)) ==> i < k <= t@.len(),
    decreases t@.len() - i, 2nat,
{
    let _len = t.len();
    if !(at(t, i, Token::For) && at(t, i + 1, Token::LParen)) {
        return None;
    }
    match parse_for_init(t, i + 2) {
        Some((init, j)) => {
            let (cond, k) = parse_opt_expr(t, j);
            if !at(t, k, Token::Semicolon) {
                return None;
            }
            let (update, m) = parse_opt_expr(t, k + 1);
            if !at(t, m, Token::RParen) {
                return None;
            }
            match parse_stmt(t, m + 1) {
                Some((body, n)) => Some((Stmt::For { init, cond, update, body: Box::new(body) }, n)),
                None => None,
            }
        },
        None => None,
    }
}

/// Parses a statement at `i`.
fn parse_stmt(t: &[Token], i: usize) -> (r: Option<(Stmt, usize)>)
    requires
        i <= t@.len(),
    ensures
        match p_stmt(lexemes(t@), i as int) {
            Some((m, j)) => r matches Some((s, k)) && stmt_view(s) == m && k == j,
            None => r is None,
        },
        r matches Some((s, k)) ==> i < k <= t@.len(),
    decreases t@.len() - i, 3nat,
{
    let _len = t.len();
    let r = parse_declaration(t, i);
    if r.is_some() {
        return r;
    }
    let r = parse_return(t, i);
    if r.is_some() {
        return r;
    }
    let r = parse_if(t, i);
    if r.is_some() {
        return r;
    }
    let r = parse_for(t, i);
    if r.is_some() {
        return r;
    }
    let r = parse_block(t, i);
    if r.is_some() {
        return r;
    }
    parse_expr_stmt(t, i)
}

fn parse_extern_params(t: &[Token], i: usize, acc: Vec<Type>) -> (r: Option<(Vec<Type>, bool, usize)>)
    requires
        i <= t@.len(),
    ensures
        match p_extern_params(lexemes(t@), i as int, acc@) {
            Some((tys, v, j)) => r matches Some((x, w, k)) && x@ == tys && w == v && k == j,
            None => r is None,
        },
        r matches Some((x, w, k)) ==> i < k <= t@.len(),
    decreases t@.len() - i,
{
    let _len = t.len();
    match type_of(t, i) {
        Some(ty) => {
            let mut v = acc;
            v.push(ty);
            if at(t, i + 1, Token::Comma) {
                parse_extern_params(t, i + 2, v)
            } else {
                Some((v, false, i + 1))
            }
        },
        None => {
            if at(t, i, Token::Ellipsis) {
                Some((acc, true, i + 1))
            } else {
                None
            }
        },
    }
}

fn parse_extern(t: &[Token], i: usize) -> (r: Option<(ExternFunction, usize)>)
    requires
        i <= t@.len(),
    ensures
        match p_extern(lexemes(t@), i as int) {
            Some((m, j)) => r matches Some((e, k)) && e@ == m && k == j,
            None => r is None,
        },
        r matches Some((e, k)) ==> i < k <= t@.len(),
{
    let _len = t.len();
    if !at(t, i, Token::Extern) {
        return None;
    }
    let return_ty = type_of(t, i + 1);
    if return_ty.is_none() {
        return None;
    }
    let name = ident_of(t, i + 2);
    if name.is_none() || !at(t, i + 3, Token::LParen) {
        return None;
    }
    match parse_extern_params(t, i + 4, Vec::new()) {
        Some((param_types, is_variadic, j)) => {
            if at(t, j, Token::RParen) && at(t, j + 1, Token::Semicolon) {
                let e = ExternFunction {
                    return_ty: return_ty.unwrap(),
                    name: name.unwrap(),
                    param_types,
                    is_variadic,
                };
                Some((e, j + 2))
            } else {
                None
            }
        },
        None => None,
    }
}

fn parse_param(t: &[Token], i: usize) -> (r: Option<(Type, String)>)
    requires
        i <= t@.len(),
    ensures
        param_at(lexemes(t@), i as int) ==> (r matches Some((ty, name)) && ty == type_at(
            lexemes(t@),
            i as int,
        )->0 && name@ == ident_at(lexemes(t@), i + 1)->0),
        !param_at(lexemes(t@), i as int) ==> r is None,
{
    let _len = t.len();
    match type_of(t, i) {
        Some(ty) => match ident_of(t, i + 1) {
            Some(name) => Some((ty, name)),
            None => None,
        },
        None => None,
    }
}

fn parse_params_tail(t: &[Token], i: usize, acc: Vec<(Type, String)>) -> (r: (Vec<(Type, String)>, usize))
    requires
        i <= t@.len(),
    ensures
        params_view(r.0@) == p_params_tail(lexemes(t@), i as int, params_view(acc@)).0,
        r.1 == p_params_tail(lexemes(t@), i as int, params_view(acc@)).1,
        i <= r.1 <= t@.len(),
    decreases t@.len() - i,
{
    let _len = t.len();
    if at(t, i, Token::Comma) {
        match parse_param(t, i + 1) {
            Some(p) => {
                let mut v = acc;
                let ghost before = v@;
                v.push(p);
                assert(params_view(v@) =~= params_view(before).push((p.0, p.1@)));
                return parse_params_tail(t, i + 3, v);
            },
            None => {},
        }
    }
    (acc, i)
}

fn parse_params(t: &[Token], i: usize) -> (r: (Vec<(Type, String)>, usize))
    requires
        i <= t@.len(),
    ensures
        params_view(r.0@) == p_params(lexemes(t@), i as int).0,
        r.1 == p_params(lexemes(t@), i as int).1,
        i <= r.1 <= t@.len(),
{
    let _len = t.len();
    match parse_param(t, i) {
        Some(p) => {
            let mut v: Vec<(Type, String)> = Vec::new();
            v.push(p);
            assert(params_view(v@) =~= seq![(p.0, p.1@)]);
            parse_params_tail(t, i + 2, v)
        },
        None => {
            let v: Vec<(Type, String)> = Vec::new();
            assert(params_view(v@) =~= seq![]);
            (v, i)
        },
    }
}

fn parse_function(t: &[Token], i: usize) -> (r: Option<(Function, usize)>)
    requires
        i <= t@.len(),
    ensures
        match p_function(lexemes(t@), i as int) {
            Some((m, j)) => r matches Some((f, k)) && crate::ast::function_view(f) == m && k == j,
            None => r is None,
        },
        r matches Some((f, k)) ==> i < k <= t@.len(),
{
    let _len = t.len();
    let return_ty = type_of(t, i);
    if return_ty.is_none() {
        return None;
    }
    let name = ident_of(t, i + 1);
    if name.is_none() || !at(t, i + 2, Token::LParen) {
        return None;
    }
    let (params, j) = parse_params(t, i + 3);
    if !at(t, j, Token::RParen) {
        return None;
    }
    match parse_block(t, j + 1) {
        Some((body, k)) => Some(
            (Function { return_ty: return_ty.unwrap(), name: name.unwrap(), params, body }, k),
        ),
        None => None,
    }
}

fn include_of(t: &[Token], i: usize) -> (r: Option<String>)
    ensures
        match include_at(lexemes(t@), i as int) {
            Some(h) => r matches Some(x) && x@ == h,
            None => r is None,
        },
{
    if i >= t.len() {
        return None;
    }
    match &t[i] {
        Token::Include(h) => Some(h.clone()),
        _ => None,
    }
}

fn parse_items(t: &[Token], i: usize, p: Program) -> (r: (Program, usize))
    requires
        i <= t@.len(),
    ensures
        program_view(r.0) == p_items(lexemes(t@), i as int, program_view(p)).0,
        r.1 == p_items(lexemes(t@), i as int, program_view(p)).1,
    decreases t@.len() - i,
{
    let _len = t.len();
    if i >= t.len() {
        return (p, i);
    }
    let mut p = p;
    let ghost old_p = program_view(p);
    match include_of(t, i) {
        Some(h) => {
            p.includes.push(h);
            assert(program_view(p).includes =~= old_p.includes.push(h@));
            assert(program_view(p).extern_functions =~= old_p.extern_functions);
            assert(program_view(p).functions =~= old_p.functions);
            return parse_items(t, i + 1, p);
        },
        None => {},
    }
    match parse_extern(t, i) {
        Some((e, j)) => {
            p.extern_functions.push(e);
            assert(program_view(p).includes =~= old_p.includes);
            assert(program_view(p).extern_functions =~= old_p.extern_functions.push(e@));
            assert(program_view(p).functions =~= old_p.functions);
            return parse_items(t, j, p);
        },
        None => {},
    }
    match parse_function(t, i) {
        Some((f, j)) => {
            p.functions.push(f);
            assert(program_view(p).includes =~= old_p.includes);
            assert(program_view(p).extern_functions =~= old_p.extern_functions);
            assert(program_view(p).functions =~= old_p.functions.push(
                crate::ast::function_view(f),
            ));
            parse_items(t, j, p)
        },
        None => (p, i),
    }
}

/// Whether a declaration named `name` is in `es`.
fn declares(es: &Vec<ExternFunction>, name: &String) -> (r: bool)
    ensures
        r == exists|k: int| 0 <= k < es@.len() && es@[k]@.name == name@,
{
    let mut k: usize = 0;
    while k < es.len()
        invariant
            k <= es@.len(),
            forall|m: int| 0 <= m < k ==> es@[m]@.name != name@,
        decreases es@.len() - k,
    {
        if es[k].name == *name {
            return true;
        }
        k = k + 1;
    }
    false
}

/// Appends the declarations of every included header, skipping names that
/// are already declared.
fn add_header_externs(es: &mut Vec<ExternFunction>, headers: &Vec<String>)
    ensures
        signatures(final(es)@) == with_headers(
            signatures(old(es)@),
            headers@.map_values(|h: String| h@),
        ),
{
    let ghost hs = headers@.map_values(|h: String| h@);
    assert(hs.subrange(0, hs.len() as int) =~= hs);
    let mut k: usize = 0;
    while k < headers.len()
        invariant
            k <= headers@.len(),
            hs == headers@.map_values(|h: String| h@),
            with_headers(signatures(old(es)@), hs) == with_headers(
                signatures(es@),
                hs.subrange(k as int, hs.len() as int),
            ),
        decreases headers@.len() - k,
    {
        let mut new = externs_for_header(headers[k].as_str());
        let ghost all_new = signatures(new@);
        let ghost start = signatures(es@);
        while new.len() > 0
            invariant
                add_externs(start, all_new) == add_externs(signatures(es@), signatures(new@)),
            decreases new@.len(),
        {
            let ghost before = signatures(es@);
            let ghost rest = signatures(new@);
            let e = new.remove(0);
            assert(signatures(new@) =~= rest.subrange(1, rest.len() as int));
            assert(rest[0] == e@);
            if !declares(es, &e.name) {
                es.push(e);
                assert(signatures(es@) =~= before.push(e@));
            } else {
                let ghost m = choose|m: int| 0 <= m < es@.len() && es@[m]@.name == e.name@;
                assert(before[m].name == e@.name);
            }
            assert(signatures(es@) == add_extern(before, rest[0]));
        }
        assert(signatures(new@) =~= seq![]);
        let ghost tail = hs.subrange(k as int, hs.len() as int);
        assert(tail[0] == headers@[k as int]@);
        assert(tail.subrange(1, tail.len() as int) =~= hs.subrange(k + 1, hs.len() as int));
        k = k + 1;
    }
    assert(hs.subrange(k as int, hs.len() as int) =~= seq![]);
}

/// Parses a whole program and appends the declarations of the included
/// headers to its externs.
pub fn parse(tokens: &[Token]) -> (r: Result<Program, String>)
    ensures
        match parse_spec(lexemes(tokens@)) {
            Some(p) => r matches Ok(q) && program_view(q) == p,
            None => r is Err,
        },
{
    let empty = Program { includes: Vec::new(), extern_functions: Vec::new(), functions: Vec::new() };
    assert(program_view(empty).includes =~= seq![]);
    assert(program_view(empty).extern_functions =~= seq![]);
    assert(program_view(empty).functions =~= seq![]);
    let (mut p, j) = parse_items(tokens, 0, empty);
    if j != tokens.len() {
        let mut message = String::from_str("Unexpected tokens at end: from token ");
        crate::text::push_decimal(&mut message, j as u64);
        return Err(message);
    }
    let ghost before = program_view(p);
    add_header_externs(&mut p.extern_functions, &p.includes);
    assert(program_view(p) =~= (ProgramView {
        extern_functions: with_headers(before.extern_functions, before.includes),
        ..before
    }));
    Ok(p)
}

} // verus!
