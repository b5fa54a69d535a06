//! Errors of the phases: lexical, syntax, semantic and code generation.
use vstd::prelude::*;
use crate::text::push_decimal;

verus! {

/// Some position of the source starts no token.
#[derive(Debug, Clone, Copy, PartialEq, Eq, Structural)]
pub struct LexerError;

/// The tokens do not form a program; the message says where parsing stopped.
#[derive(Debug, Clone, PartialEq)]
pub struct ParseError(pub String);

/// A diagnostic of semantic analysis.
#[derive(Debug, Clone, PartialEq)]
pub enum SemanticError {
    /// A variable is used but not declared in any enclosing scope.
    UndefinedVariable(String),
    /// A name is declared twice in one scope, or a function is defined twice.
    DuplicateVariable(String),
    /// Operand, condition, argument or initializer of the wrong type.
    TypeMismatch(String),
    /// A call names no known function.
    UndefinedFunction(String),
    /// A call with a wrong number of arguments: name, expected, given.
    WrongArgumentCount(String, usize, usize),
    /// A `return` whose value does not have the function's return type.
    ReturnTypeMismatch(String),
}

/// A diagnostic as contracts see it.
pub enum Diagnostic {
    UndefinedVariable(Seq<char>),
    DuplicateVariable(Seq<char>),
    TypeMismatch(Seq<char>),
    UndefinedFunction(Seq<char>),
    WrongArgumentCount(Seq<char>, nat, nat),
    ReturnTypeMismatch(Seq<char>),
}

impl View for SemanticError {
    type V = Diagnostic;

    open spec fn view(&self) -> Diagnostic {
        match self {
            SemanticError::UndefinedVariable(s) => Diagnostic::UndefinedVariable(s@),
            SemanticError::DuplicateVariable(s) => Diagnostic::DuplicateVariable(s@),
            SemanticError::TypeMismatch(s) => Diagnostic::TypeMismatch(s@),
            SemanticError::UndefinedFunction(s) => Diagnostic::UndefinedFunction(s@),
            SemanticError::WrongArgumentCount(s, e, g) => Diagnostic::WrongArgumentCount(
                s@,
                *e as nat,
                *g as nat,
            ),
            SemanticError::ReturnTypeMismatch(s) => Diagnostic::ReturnTypeMismatch(s@),
        }
    }
}

/// The diagnostics of a sequence of semantic errors.
pub open spec fn diagnostics(es: Seq<SemanticError>) -> Seq<Diagnostic> {
    es.map_values(|e: SemanticError| e@)
}

/// Native code generation failed; the message says why.
#[derive(Debug, Clone, PartialEq)]
pub struct CodegenError(pub String);

impl LexerError {
    /// The error's text.
    pub fn message(&self) -> (r: String)
        ensures
            r@ == "Invalid token encountered"@,
    {
        String::from_str("Invalid token encountered")
    }
}

impl ParseError {
    /// The error's text.
    pub fn message(&self) -> (r: String)
        ensures
            r@ == "Parse error: "@ + self.0@,
    {
        let mut m = String::from_str("Parse error: ");
        m.append(self.0.as_str());
        m
    }
}

impl CodegenError {
    /// The error's text.
    pub fn message(&self) -> (r: String)
        ensures
            r@ == "Code generation error: "@ + self.0@,
    {
        let mut m = String::from_str("Code generation error: ");
        m.append(self.0.as_str());
        m
    }
}

/// The text of a diagnostic.
pub open spec fn diagnostic_text(d: Diagnostic) -> Seq<char> {
    match d {
        Diagnostic::UndefinedVariable(n) => "Undefined variable: "@ + n,
        Diagnostic::DuplicateVariable(n) => "Duplicate variable declaration: "@ + n,
        Diagnostic::TypeMismatch(m) => "Type mismatch: "@ + m,
        Diagnostic::UndefinedFunction(n) => "Undefined function: "@ + n,
        Diagnostic::WrongArgumentCount(f, e, g) => "Wrong number of arguments for "@ + f
            + ": expected "@ + crate::text::decimal(e) + ", got "@ + crate::text::decimal(g),
        Diagnostic::ReturnTypeMismatch(m) => "Return type mismatch: "@ + m,
    }
}

impl SemanticError {
    /// The diagnostic's text.
    pub fn message(&self) -> (r: String)
        ensures
            r@ == diagnostic_text(self@),
    {
        match self {
            SemanticError::UndefinedVariable(n) => {
                let mut m = String::from_str("Undefined variable: ");
                m.append(n.as_str());
                m
            },
            SemanticError::DuplicateVariable(n) => {
                let mut m = String::from_str("Duplicate variable declaration: ");
                m.append(n.as_str());
                m
            },
            SemanticError::TypeMismatch(t) => {
                let mut m = String::from_str("Type mismatch: ");
                m.append(t.as_str());
                m
            },
            SemanticError::UndefinedFunction(n) => {
                let mut m = String::from_str("Undefined function: ");
                m.append(n.as_str());
                m
            },
            SemanticError::WrongArgumentCount(f, e, g) => {
                let mut m = String::from_str("Wrong number of arguments for ");
                m.append(f.as_str());
                m.append(": expected ");
                push_decimal(&mut m, *e as u64);
                m.append(", got ");
                push_decimal(&mut m, *g as u64);
                m
            },
            SemanticError::ReturnTypeMismatch(t) => {
                let mut m = String::from_str("Return type mismatch: ");
                m.append(t.as_str());
                m
            },
        }
    }
}

} // verus!
