//! The extern declarations that an `#include <header>` brings in.
use vstd::prelude::*;
use crate::ast::{ExternFunction, Signature, Type};
use crate::text::same_text;

verus! {

/// The one known header, `stdio.h`, declares `extern int printf(string, ...)`;
/// any other header declares nothing.
pub open spec fn header_externs(header: Seq<char>) -> Seq<Signature> {
    if header == "stdio.h"@ {
        seq![
            Signature {
                return_ty: Type::Int,
                name: "printf"@,
                param_types: seq![Type::String],
                is_variadic: true,
            },
        ]
    } else {
        seq![]
    }
}

/// The declarations of the signatures' views.
pub open spec fn signatures(es: Seq<ExternFunction>) -> Seq<Signature> {
    es.map_values(|e: ExternFunction| e@)
}

/// Returns the extern declarations to inject for `header`.
pub fn externs_for_header(header: &str) -> (r: Vec<ExternFunction>)
    ensures
        signatures(r@) == header_externs(header@),
{
    if same_text(header, "stdio.h") {
        let param_types = vec![Type::String];
        assert(param_types@ =~= seq![Type::String]);
        let printf = ExternFunction {
            return_ty: Type::Int,
            name: String::from_str("printf"),
            param_types,
            is_variadic: true,
        };
        let r = vec![printf];
        assert(r@[0]@ == header_externs(header@)[0]);
        assert(signatures(r@) =~= header_externs(header@));
        r
    } else {
        let r: Vec<ExternFunction> = Vec::new();
        assert(signatures(r@) =~= header_externs(header@));
        r
    }
}

} // verus!
