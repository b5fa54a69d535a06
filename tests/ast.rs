use virtuc::ast::{BinOp, Expr, Function, Literal, Stmt, Type};

#[test]
fn test_simple_function() {
    let func = Function {
        return_ty: Type::Int,
        name: "add".to_string(),
        params: vec![(Type::Int, "a".to_string()), (Type::Int, "b".to_string())],
        body: Stmt::Block(vec![Stmt::Return(Some(Expr::Binary {
            left: Box::new(Expr::Identifier("a".to_string())),
            op: BinOp::Plus,
            right: Box::new(Expr::Identifier("b".to_string())),
        }))]),
    };
    assert_eq!(func.name, "add");
    assert_eq!(func.return_ty, Type::Int);
}

#[test]
fn ast_test_if_statement() {
    let if_stmt = Stmt::If {
        cond: Expr::Binary {
            left: Box::new(Expr::Identifier("x".to_string())),
            op: BinOp::GreaterThan,
            right: Box::new(Expr::Literal(Literal::Int(0))),
        },
        then: Box::new(Stmt::Return(Some(Expr::Identifier("x".to_string())))),
        else_: Some(Box::new(Stmt::Return(Some(Expr::Literal(Literal::Int(0)))))),
    };
    if let Stmt::If { cond, then, else_ } = if_stmt {
        assert!(matches!(cond, Expr::Binary { .. }));
        assert!(matches!(*then, Stmt::Return(Some(Expr::Identifier(_)))));
        assert!(else_.is_some());
    } else {
        panic!("Expected If statement");
    }
}
