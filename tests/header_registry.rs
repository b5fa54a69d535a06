use virtuc::header_registry::externs_for_header;
use virtuc::ast::Type;

#[test]
fn stdio_injects_printf() {
    let exts = externs_for_header("stdio.h");
    assert_eq!(exts.len(), 1);
    let e = &exts[0];
    assert_eq!(e.name, "printf");
    assert!(e.is_variadic);
}

#[test]
fn unknown_header_empty() {
    let exts = externs_for_header("unknown.h");
    assert!(exts.is_empty());
}

#[test]
fn stdio_printf_signature() {
    let exts = externs_for_header("stdio.h");
    assert_eq!(exts[0].return_ty, Type::Int);
    assert_eq!(exts[0].param_types, vec![Type::String]);
}

#[test]
fn header_name_must_match_exactly() {
    assert!(externs_for_header("stdio").is_empty());
    assert!(externs_for_header("stdio.hh").is_empty());
    assert!(externs_for_header("").is_empty());
}
