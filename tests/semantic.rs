use virtuc::error::SemanticError;
use virtuc::lexer::lex;
use virtuc::parser::parse;
use virtuc::semantic::{analyze, SemanticAnalyzer};
use virtuc::ast::Type;

fn diagnostics_of(src: &str) -> Vec<SemanticError> {
    analyze(&parse(&lex(src).unwrap()).unwrap())
}

#[test]
fn test_valid_function() {
    let input = "int add(int a, int b) { return a + b; }";
    let tokens = lex(input).unwrap();
    let ast = parse(&tokens).unwrap();
    let errors = analyze(&ast);
    assert!(errors.is_empty());
}

#[test]
fn test_undefined_variable() {
    let input = "int foo() { return x; }";
    let tokens = lex(input).unwrap();
    let ast = parse(&tokens).unwrap();
    let errors = analyze(&ast);
    assert_eq!(errors.len(), 1);
    assert!(matches!(errors[0], SemanticError::UndefinedVariable(_)));
}

#[test]
fn test_type_mismatch() {
    let input = "int foo() { int x = 5.0; return x; }";
    let tokens = lex(input).unwrap();
    let ast = parse(&tokens).unwrap();
    let errors = analyze(&ast);
    assert!(!errors.is_empty());
}

#[test]
fn test_duplicate_variable() {
    let input = "int foo() { int x = 5; int x = 6; return x; }";
    let tokens = lex(input).unwrap();
    let ast = parse(&tokens).unwrap();
    let errors = analyze(&ast);
    assert_eq!(errors.len(), 1);
    assert!(matches!(errors[0], SemanticError::DuplicateVariable(_)));
}

#[test]
fn undefined_variable_scenario_exact() {
    assert_eq!(diagnostics_of("int foo(){return x;}"), vec![SemanticError::UndefinedVariable("x".to_string())]);
}

#[test]
fn duplicate_variable_scenario_exact() {
    assert_eq!(
        diagnostics_of("int foo(){int x=5;int x=6;return x;}"),
        vec![SemanticError::DuplicateVariable("x".to_string())]
    );
}

#[test]
fn wrong_arity_extern_rejected() {
    let errors = diagnostics_of("extern int foo(int); int main() { foo(); return 0; }");
    assert_eq!(errors, vec![SemanticError::WrongArgumentCount("foo".to_string(), 1, 0)]);
}

#[test]
fn variadic_extern_accepts_extra_arguments() {
    assert!(diagnostics_of("#include <stdio.h>\nint main() { printf(\"%d %d\", 1, 2); return 0; }").is_empty());
    assert_eq!(
        diagnostics_of("#include <stdio.h>\nint main() { printf(); return 0; }"),
        vec![SemanticError::WrongArgumentCount("printf".to_string(), 1, 0)]
    );
}

#[test]
fn undeclared_function_rejected() {
    assert_eq!(
        diagnostics_of("int main() { printf(\"x\"); return 0; }"),
        vec![SemanticError::UndefinedFunction("printf".to_string())]
    );
}

#[test]
fn argument_type_mismatch() {
    assert_eq!(
        diagnostics_of("int f(int a) { return a; } int main() { return f(1.5); }"),
        vec![SemanticError::TypeMismatch("Argument 0 type mismatch".to_string())]
    );
}

#[test]
fn operand_and_condition_mismatches() {
    assert_eq!(
        diagnostics_of("int main() { float f = 1.0; if (f) { return 1 + f; } return 0; }"),
        vec![
            SemanticError::TypeMismatch("Condition must be int".to_string()),
            SemanticError::TypeMismatch("Arithmetic operands must have same type".to_string()),
        ]
    );
    assert_eq!(
        diagnostics_of("int main() { return 1 < 2.0; }"),
        vec![SemanticError::TypeMismatch("Comparison operands must have same type".to_string())]
    );
}

#[test]
fn initializer_mismatch_message() {
    assert_eq!(
        diagnostics_of("int foo() { int x = 5.0; return x; }"),
        vec![SemanticError::TypeMismatch("Cannot assign Some(Float) to Int".to_string())]
    );
}

#[test]
fn return_type_mismatch_reported() {
    assert_eq!(
        diagnostics_of("int f() { return 1.5; }"),
        vec![SemanticError::ReturnTypeMismatch("expected Int, found Float".to_string())]
    );
    assert_eq!(
        diagnostics_of("float f() { return; }"),
        vec![SemanticError::ReturnTypeMismatch("expected Float, found no value".to_string())]
    );
}

#[test]
fn duplicate_function_reported() {
    assert_eq!(
        diagnostics_of("int f() { return 1; } int f() { return 2; }"),
        vec![SemanticError::DuplicateVariable("f".to_string())]
    );
}

#[test]
fn shadowing_in_inner_scope_is_legal() {
    assert!(diagnostics_of("int f(int a) { int a = 1; { int a = 2; } for (int a = 0; a < 1; a = a + 1) { } return a; }").is_empty());
}

#[test]
fn loop_variable_out_of_scope_after_loop() {
    assert_eq!(
        diagnostics_of("int f() { for (int i = 0; i < 3; i = i + 1) { } return i; }"),
        vec![SemanticError::UndefinedVariable("i".to_string())]
    );
}

#[test]
fn analysis_is_repeatable() {
    let p = parse(&lex("int f() { return y + 1.0; } int f() { return 0; }").unwrap()).unwrap();
    let first = analyze(&p);
    let second = analyze(&p);
    assert_eq!(first, second);
    assert_eq!(first.len(), 3);
}

#[test]
fn analyzer_object_and_lookup() {
    let mut a = SemanticAnalyzer::new();
    assert_eq!(a.lookup_variable("x"), None);
    let p = parse(&lex("int main() { return 0; }").unwrap()).unwrap();
    assert!(a.analyze(&p).is_empty());
    assert_eq!(Type::Int, Type::Int);
}

#[test]
fn diagnostic_messages() {
    assert_eq!(SemanticError::UndefinedVariable("x".to_string()).message(), "Undefined variable: x");
    assert_eq!(
        SemanticError::DuplicateVariable("x".to_string()).message(),
        "Duplicate variable declaration: x"
    );
    assert_eq!(SemanticError::TypeMismatch("m".to_string()).message(), "Type mismatch: m");
    assert_eq!(SemanticError::UndefinedFunction("g".to_string()).message(), "Undefined function: g");
    assert_eq!(
        SemanticError::WrongArgumentCount("foo".to_string(), 1, 12).message(),
        "Wrong number of arguments for foo: expected 1, got 12"
    );
    assert_eq!(SemanticError::ReturnTypeMismatch("m".to_string()).message(), "Return type mismatch: m");
}
