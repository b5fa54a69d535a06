//! A front end and bytecode virtual machine for a small C-like language:
//! lexer, parser, semantic analyzer, bytecode compiler and interpreter.
//!
//! Source text flows through [`lexer::lex`], [`parser::parse`] and
//! [`semantic::analyze`]; a program with no diagnostics can be run by
//! [`vm::VM`].
use vstd::prelude::*;

pub mod ast;
pub mod error;
pub mod header_registry;
pub mod lexer;
pub mod parser;
pub mod semantic;
pub mod text;
pub mod vm;

use crate::ast::{Program, program_view};
use crate::lexer::{lex, lex_spec};
use crate::parser::{parse, parse_spec};
use crate::error::{SemanticError, diagnostics};
use crate::semantic::{analysis, analyze};

verus! {

/// Lexes, parses and analyzes `source`. Returns the program when every
/// phase accepts it; otherwise the lexical error, the syntax error, or all
/// semantic diagnostics, one per line after a `Semantic errors:` heading.
pub fn front_end(source: &str) -> (r: Result<Program, String>)
    ensures
        match lex_spec(source@) {
            None => r is Err,
            Some(ts) => match parse_spec(ts) {
                None => r is Err,
                Some(p) => match r {
                    Ok(q) => program_view(q) == p && analysis(q).len() == 0,
                    Err(_) => exists|q: Program| program_view(q) == p && analysis(q).len() > 0,
                },
            },
        },
{
    let tokens = match lex(source) {
        Ok(t) => t,
        Err(e) => {
            return Err(e.message());
        },
    };
    let program = match parse(tokens.as_slice()) {
        Ok(p) => p,
        Err(m) => {
            let mut text = String::from_str("Parse error: ");
            text.append(m.as_str());
            return Err(text);
        },
    };
    let errors = analyze(&program);
    if errors.len() == 0 {
        return Ok(program);
    }
    let mut text = String::from_str("Semantic errors:");
    let mut k: usize = 0;
    while k < errors.len()
        invariant
            k <= errors@.len(),
        decreases errors@.len() - k,
    {
        text.append("\n");
        text.append(errors[k].message().as_str());
        k = k + 1;
    }
    Err(text)
}

/// Analysis is a function of the program alone: two calls of `analyze` on
/// the same program return the same diagnostics, in the same order.
pub proof fn lemma_analysis_repeatable(p: Program, first: Seq<SemanticError>, second: Seq<SemanticError>)
    requires
        diagnostics(first) == analysis(p),
        diagnostics(second) == analysis(p),
    ensures
        diagnostics(first) == diagnostics(second),
{
}

} // verus!
