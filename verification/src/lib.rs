//! Validation, comparison and lowering of identity-resolution specifications.

pub mod commands;
pub mod codec;
pub mod parser;
pub mod text;
pub mod validator;
pub mod value;

pub use commands::compile::{compile_plan, compile_to_ir};
pub use commands::diff::{compute_diff, diff_yaml, DiffResult, DiffResult as RustDiffResult, RuleChange};
pub use commands::hash::plan_hash;
pub use parser::{parse_yaml, ParseError};
pub use validator::{validate_schema, validate_semantics};
pub use value::{Node, Num, NumberKind};

use crate::parser::parsed;
use crate::text::texts;
use crate::validator::schema::schema_findings;
use crate::validator::semantics::semantic_findings;
use vstd::prelude::*;

verus! {

/// Reads a YAML text and reports every structural and every semantic finding
/// of the document it holds, the structural ones first. A text that is not
/// well-formed is refused.
pub fn validate_yaml(yaml: &str) -> (outcome: Result<Vec<String>, ParseError>)
    ensures
        match outcome {
            Ok(errors) => parsed(yaml@) is Some && texts(errors@) == schema_findings(
                parsed(yaml@)->0,
            ) + semantic_findings(parsed(yaml@)->0),
            Err(_) => parsed(yaml@) is None,
        },
{
    match parse_yaml(yaml) {
        Ok(spec) => {
            let mut errors = validate_schema(&spec);
            let ghost first = texts(errors@);
            let mut more = validate_semantics(&spec);
            let ghost second = texts(more@);
            errors.append(&mut more);
            assert(texts(errors@) =~= first + second);
            Ok(errors)
        },
        Err(error) => Err(error),
    }
}

} // verus!
