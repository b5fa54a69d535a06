use virtuc::lexer::{lex, unescape_c_string, Token};

#[test]
fn test_simple_declaration() {
    let input = "int x = 5;";
    let expected = vec![
        Token::Int,
        Token::Identifier("x".to_string()),
        Token::Assign,
        Token::IntLiteral(5),
        Token::Semicolon,
    ];
    assert_eq!(lex(input).unwrap(), expected);
}

#[test]
fn test_float_declaration() {
    let input = "float y = 3.14;";
    let expected = vec![
        Token::Float,
        Token::Identifier("y".to_string()),
        Token::Assign,
        Token::FloatLiteral("3.14".to_string()),
        Token::Semicolon,
    ];
    assert_eq!(lex(input).unwrap(), expected);
}

#[test]
fn test_arithmetic_expression() {
    let input = "x + y * 2";
    let expected = vec![
        Token::Identifier("x".to_string()),
        Token::Plus,
        Token::Identifier("y".to_string()),
        Token::Multiply,
        Token::IntLiteral(2),
    ];
    assert_eq!(lex(input).unwrap(), expected);
}

#[test]
fn test_comparison() {
    let input = "a == b";
    let expected = vec![
        Token::Identifier("a".to_string()),
        Token::Equal,
        Token::Identifier("b".to_string()),
    ];
    assert_eq!(lex(input).unwrap(), expected);
}

#[test]
fn test_invalid_input() {
    let input = "int x = @;";
    assert!(lex(input).is_err());
}

#[test]
fn test_string_literal_unescape() {
    let input = "int main() { printf(\"Hello\\n\"); }";
    let tokens = lex(input).unwrap();
    assert!(tokens.iter().any(|t| matches!(t, Token::StringLiteral(s) if s == "Hello\n")));
}

#[test]
fn test_function_declaration() {
    let input = "int add(int a, int b) { return a + b; }";
    let expected = vec![
        Token::Int,
        Token::Identifier("add".to_string()),
        Token::LParen,
        Token::Int,
        Token::Identifier("a".to_string()),
        Token::Comma,
        Token::Int,
        Token::Identifier("b".to_string()),
        Token::RParen,
        Token::LBrace,
        Token::Return,
        Token::Identifier("a".to_string()),
        Token::Plus,
        Token::Identifier("b".to_string()),
        Token::Semicolon,
        Token::RBrace,
    ];
    assert_eq!(lex(input).unwrap(), expected);
}

#[test]
fn lexer_test_if_statement() {
    let input = "if (x > 0) { return x; } else { return 0; }";
    let expected = vec![
        Token::If,
        Token::LParen,
        Token::Identifier("x".to_string()),
        Token::GreaterThan,
        Token::IntLiteral(0),
        Token::RParen,
        Token::LBrace,
        Token::Return,
        Token::Identifier("x".to_string()),
        Token::Semicolon,
        Token::RBrace,
        Token::Else,
        Token::LBrace,
        Token::Return,
        Token::IntLiteral(0),
        Token::Semicolon,
        Token::RBrace,
    ];
    assert_eq!(lex(input).unwrap(), expected);
}

#[test]
fn test_for_loop() {
    let input = "for (int i = 0; i < 10; i = i + 1) { x = x + i; }";
    let expected = vec![
        Token::For,
        Token::LParen,
        Token::Int,
        Token::Identifier("i".to_string()),
        Token::Assign,
        Token::IntLiteral(0),
        Token::Semicolon,
        Token::Identifier("i".to_string()),
        Token::LessThan,
        Token::IntLiteral(10),
        Token::Semicolon,
        Token::Identifier("i".to_string()),
        Token::Assign,
        Token::Identifier("i".to_string()),
        Token::Plus,
        Token::IntLiteral(1),
        Token::RParen,
        Token::LBrace,
        Token::Identifier("x".to_string()),
        Token::Assign,
        Token::Identifier("x".to_string()),
        Token::Plus,
        Token::Identifier("i".to_string()),
        Token::Semicolon,
        Token::RBrace,
    ];
    assert_eq!(lex(input).unwrap(), expected);
}

#[test]
fn test_comments_and_whitespace() {
    let input = "int x = 5; // this is a comment\nfloat y;";
    let expected = vec![
        Token::Int,
        Token::Identifier("x".to_string()),
        Token::Assign,
        Token::IntLiteral(5),
        Token::Semicolon,
        Token::Float,
        Token::Identifier("y".to_string()),
        Token::Semicolon,
    ];
    assert_eq!(lex(input).unwrap(), expected);
}

#[test]
fn lex_two_char_operators_before_prefixes() {
    let expected = vec![
        Token::LessEqual,
        Token::GreaterEqual,
        Token::Equal,
        Token::NotEqual,
        Token::LessThan,
        Token::GreaterThan,
        Token::Assign,
        Token::Ellipsis,
        Token::Divide,
    ];
    assert_eq!(lex("<= >= == != < > = ... /").unwrap(), expected);
    assert_eq!(lex("a<=b").unwrap()[1], Token::LessEqual);
}

#[test]
fn lex_keywords_versus_identifiers() {
    let expected = vec![
        Token::Int,
        Token::Identifier("integer".to_string()),
        Token::StringType,
        Token::Extern,
        Token::Identifier("_for2".to_string()),
        Token::Return,
    ];
    assert_eq!(lex("int integer string extern _for2 return").unwrap(), expected);
}

#[test]
fn lex_include_directive() {
    assert_eq!(lex("#include <stdio.h>").unwrap(), vec![Token::Include("stdio.h".to_string())]);
    assert_eq!(lex("#include<my header.h>").unwrap(), vec![Token::Include("my header.h".to_string())]);
    assert!(lex("#include <>").is_err());
    assert!(lex("#include <stdio.h").is_err());
    assert!(lex("#define X").is_err());
}

#[test]
fn lex_number_edges() {
    assert_eq!(lex("9223372036854775807").unwrap(), vec![Token::IntLiteral(i64::MAX)]);
    assert!(lex("9223372036854775808").is_err());
    assert_eq!(lex("1...").unwrap(), vec![Token::IntLiteral(1), Token::Ellipsis]);
    assert_eq!(lex("12.50").unwrap(), vec![Token::FloatLiteral("12.50".to_string())]);
    assert!(lex("3.").is_err());
    assert_eq!(lex("007").unwrap(), vec![Token::IntLiteral(7)]);
}

#[test]
fn lex_empty_and_blank_input() {
    assert_eq!(lex("").unwrap(), vec![]);
    assert_eq!(lex(" \t\n // only a comment").unwrap(), vec![]);
    assert!(lex("\r").is_err());
    assert!(lex("!").is_err());
}

#[test]
fn lex_unterminated_string_fails() {
    assert!(lex("\"abc").is_err());
    assert!(lex("\"abc\\\"").is_err());
}

#[test]
fn lex_string_with_escaped_quote() {
    let tokens = lex("\"say \\\"hi\\\"\" x").unwrap();
    assert_eq!(tokens, vec![Token::StringLiteral("say \"hi\"".to_string()), Token::Identifier("x".to_string())]);
}

#[test]
fn unescape_common_escapes() {
    assert_eq!(unescape_c_string("a\\tb\\r\\n\\0\\'\\\""), "a\tb\r\n\0'\"");
    assert_eq!(unescape_c_string("\\\\"), "\\");
    assert_eq!(unescape_c_string("\\q"), "q");
}

#[test]
fn unescape_hex_escapes() {
    assert_eq!(unescape_c_string("\\x41\\x62"), "Ab");
    assert_eq!(unescape_c_string("\\x4"), "\u{4}");
    assert_eq!(unescape_c_string("\\xzz!"), "xzz!");
    assert_eq!(unescape_c_string("\\xz"), "xz");
    assert_eq!(unescape_c_string("\\x"), "");
    assert_eq!(unescape_c_string("\\xff"), "\u{ff}");
}

#[test]
fn unescape_trailing_backslash_kept() {
    assert_eq!(unescape_c_string("abc\\"), "abc\\");
    assert_eq!(unescape_c_string(""), "");
}

#[test]
fn rendered_tokens_lex_back() {
    let tokens = vec![
        Token::Include("stdio.h".to_string()),
        Token::Extern,
        Token::Int,
        Token::Identifier("printf".to_string()),
        Token::LParen,
        Token::StringType,
        Token::Comma,
        Token::Ellipsis,
        Token::RParen,
        Token::Semicolon,
        Token::Float,
        Token::Identifier("x1".to_string()),
        Token::Assign,
        Token::FloatLiteral("2.50".to_string()),
        Token::Divide,
        Token::IntLiteral(0),
        Token::LessEqual,
        Token::StringLiteral("a \"q\" \\ b".to_string()),
        Token::NotEqual,
        Token::IntLiteral(9223372036854775807),
    ];
    let text = "#include <stdio.h> extern int printf ( string , ... ) ; float x1 = 2.50 / 0 <= \"a \\\"q\\\" \\\\ b\" != 9223372036854775807 ";
    assert_eq!(lex(text).unwrap(), tokens);
}
