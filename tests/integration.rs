use virtuc::front_end;

#[test]
fn test_non_variadic_wrong_arity() {
    let source = r#"
        extern int foo(int);

        int main() {
            foo();
            return 0;
        }
    "#;

    assert!(front_end(source).is_err());
}

#[test]
fn test_printf_without_declaration_fails() {
    let source = r#"
        int main() {
            printf("No decl\n");
            return 0;
        }
    "#;

    assert!(front_end(source).is_err());
}

#[test]
fn printf_with_include_is_accepted() {
    let source = r#"
        #include <stdio.h>
        #include <stdio.h>

        int main() {
            printf("Hi %d\n", 10);
            return 0;
        }
    "#;
    let p = front_end(source).unwrap();
    assert_eq!(p.extern_functions.len(), 1);
}
