use virtuc::ast::{BinOp, Expr, Literal, Stmt, Type};
use virtuc::lexer::lex;
use virtuc::parser::parse;

#[test]
fn test_parse_function() {
    let tokens = lex("int add(int a, int b) { return a + b; } int main() { return 0; }").unwrap();
    let ast = parse(&tokens).unwrap();
    assert_eq!(ast.functions.len(), 2);
    let func = &ast.functions[0];
    assert_eq!(func.name, "add");
    assert_eq!(func.return_ty, Type::Int);
    assert_eq!(func.params, vec![(Type::Int, "a".to_string()), (Type::Int, "b".to_string())]);
    if let Stmt::Block(stmts) = &func.body {
        assert_eq!(stmts.len(), 1);
        if let Stmt::Return(Some(Expr::Binary { left, op, right })) = &stmts[0] {
            assert_eq!(**left, Expr::Identifier("a".to_string()));
            assert_eq!(*op, BinOp::Plus);
            assert_eq!(**right, Expr::Identifier("b".to_string()));
        } else {
            panic!("Expected return a + b");
        }
    } else {
        panic!("Expected block");
    }
    let func2 = &ast.functions[1];
    assert_eq!(func2.name, "main");
    assert_eq!(func2.return_ty, Type::Int);
    assert_eq!(func2.params, vec![]);
}

#[test]
fn test_parse_extern_function() {
    let tokens = lex("extern int printf(int, int); int main() { return 0; }").unwrap();
    let ast = parse(&tokens).unwrap();
    assert_eq!(ast.extern_functions.len(), 1);
    assert_eq!(ast.functions.len(), 1);
    let extern_func = &ast.extern_functions[0];
    assert_eq!(extern_func.name, "printf");
    assert_eq!(extern_func.return_ty, Type::Int);
    assert_eq!(extern_func.param_types, vec![Type::Int, Type::Int]);
    assert_eq!(extern_func.is_variadic, false);
}

#[test]
fn test_parse_extern_function_variadic() {
    let tokens = lex("extern int printf(int, ...); int main() { return 0; }").unwrap();
    let ast = parse(&tokens).unwrap();
    assert_eq!(ast.extern_functions.len(), 1);
    let extern_func = &ast.extern_functions[0];
    assert_eq!(extern_func.name, "printf");
    assert_eq!(extern_func.param_types, vec![Type::Int]);
    assert_eq!(extern_func.is_variadic, true);
}

#[test]
fn test_parse_include() {
    let tokens = lex("#include <stdio.h> int main() { return 0; }").unwrap();
    let ast = parse(&tokens).unwrap();
    assert_eq!(ast.includes.len(), 1);
    assert_eq!(ast.includes[0], "stdio.h");
}

fn body_of_main(src: &str) -> Vec<Stmt> {
    let ast = parse(&lex(src).unwrap()).unwrap();
    let f = ast.functions.into_iter().next().unwrap();
    match f.body {
        Stmt::Block(v) => v,
        _ => panic!("Expected block"),
    }
}

#[test]
fn duplicate_includes_inject_printf_once() {
    let ast = parse(&lex("#include <stdio.h>\n#include <stdio.h>\nint main() { return 0; }").unwrap()).unwrap();
    assert_eq!(ast.includes.len(), 2);
    assert_eq!(ast.extern_functions.len(), 1);
    assert_eq!(ast.extern_functions[0].name, "printf");
    assert!(ast.extern_functions[0].is_variadic);
}

#[test]
fn include_does_not_override_explicit_extern() {
    let ast = parse(&lex("extern int printf(string); #include <stdio.h> int main() { return 0; }").unwrap()).unwrap();
    assert_eq!(ast.extern_functions.len(), 1);
    assert!(!ast.extern_functions[0].is_variadic);
}

#[test]
fn unknown_include_adds_nothing() {
    let ast = parse(&lex("#include <math.h> int main() { return 0; }").unwrap()).unwrap();
    assert_eq!(ast.includes, vec!["math.h".to_string()]);
    assert!(ast.extern_functions.is_empty());
}

#[test]
fn precedence_and_associativity() {
    let body = body_of_main("int main() { return 1 - 2 - 3 * 4; }");
    // (1 - 2) - (3 * 4)
    let expected = Stmt::Return(Some(Expr::Binary {
        left: Box::new(Expr::Binary {
            left: Box::new(Expr::Literal(Literal::Int(1))),
            op: BinOp::Minus,
            right: Box::new(Expr::Literal(Literal::Int(2))),
        }),
        op: BinOp::Minus,
        right: Box::new(Expr::Binary {
            left: Box::new(Expr::Literal(Literal::Int(3))),
            op: BinOp::Multiply,
            right: Box::new(Expr::Literal(Literal::Int(4))),
        }),
    }));
    assert_eq!(body[0], expected);
}

#[test]
fn comparisons_do_not_chain() {
    assert!(parse(&lex("int main() { return 1 < 2 < 3; }").unwrap()).is_err());
    assert!(parse(&lex("int main() { return (1 < 2) < 3; }").unwrap()).is_ok());
}

#[test]
fn assignment_is_right_associative() {
    let body = body_of_main("int main() { a = b = 3; }");
    let expected = Stmt::Expr(Expr::Assignment {
        name: "a".to_string(),
        value: Box::new(Expr::Assignment {
            name: "b".to_string(),
            value: Box::new(Expr::Literal(Literal::Int(3))),
        }),
    });
    assert_eq!(body[0], expected);
}

#[test]
fn for_clauses_are_optional() {
    let body = body_of_main("int main() { for (;;) { } for (i = 0; ; ) x; }");
    assert_eq!(
        body[0],
        Stmt::For { init: None, cond: None, update: None, body: Box::new(Stmt::Block(vec![])) }
    );
    match &body[1] {
        Stmt::For { init: Some(i), cond: None, update: None, .. } => {
            assert!(matches!(**i, Stmt::Expr(Expr::Assignment { .. })));
        },
        _ => panic!("Expected for loop"),
    }
}

#[test]
fn if_else_and_calls() {
    let body = body_of_main("int main() { if (f(1, x)) return 1; else return g(); }");
    match &body[0] {
        Stmt::If { cond, then, else_ } => {
            assert_eq!(
                *cond,
                Expr::Call {
                    name: "f".to_string(),
                    args: vec![Expr::Literal(Literal::Int(1)), Expr::Identifier("x".to_string())],
                }
            );
            assert!(matches!(**then, Stmt::Return(Some(_))));
            assert!(else_.is_some());
        },
        _ => panic!("Expected if"),
    }
}

#[test]
fn declarations_and_bare_return() {
    let body = body_of_main("int main() { float f; string s = \"hi\"; return; }");
    assert_eq!(body[0], Stmt::Declaration { ty: Type::Float, name: "f".to_string(), init: None });
    assert_eq!(
        body[1],
        Stmt::Declaration {
            ty: Type::String,
            name: "s".to_string(),
            init: Some(Expr::Literal(Literal::String("hi".to_string()))),
        }
    );
    assert_eq!(body[2], Stmt::Return(None));
}

#[test]
fn leftover_tokens_are_a_syntax_error() {
    assert!(parse(&lex("int main() { return 0; } }").unwrap()).is_err());
    assert!(parse(&lex("int main() { return 0 }").unwrap()).is_err());
    assert!(parse(&lex("extern int f();").unwrap()).is_err());
    assert!(parse(&lex("").unwrap()).unwrap().functions.is_empty());
}
