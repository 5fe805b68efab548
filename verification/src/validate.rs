//! Validating a document against its JSON Schema, and the diagnostics that
//! come of it.
use vstd::prelude::*;
use vstd::string::StringSliceAdditionalSpecFns;

use crate::convert::node_to_json;
use crate::diagnostics::{
    all_at_path, deepest, diag_range, diag_view, diag_views, errors_f, first_at_depth, leaf_f,
    origin, path_segments, Diagnostic, SchemaError, Severity,
};
use crate::document::Node;
use crate::json::Json;
use crate::schema::{hover_defined, sub_schema, sub_schema_defined};
use crate::server::{problem_prefix, schema_problem_diagnostic, validation_diagnostics, SchemaProblem};

verus! {

#[verifier::external_type_specification]
#[verifier::external_body]
pub struct ExValidationError<'a>(jsonschema::ValidationError<'a>);

/// Converts an error of jsonschema: the text of its instance path (a JSON
/// pointer), its message as jsonschema displays it, and for `anyOf` and
/// `oneOf` errors the errors of each variant. Nothing is stated of the
/// result.
#[verifier::external_body]
fn schema_error_of(e: &jsonschema::ValidationError<'_>) -> (r: SchemaError) {
    let variants = match e.kind() {
        jsonschema::error::ValidationErrorKind::AnyOf { context }
        | jsonschema::error::ValidationErrorKind::OneOfNotValid { context } => {
            Some(context.iter().map(|v| v.iter().map(schema_error_of).collect()).collect())
        },
        _ => None,
    };
    SchemaError { path: e.instance_path().to_string(), message: e.to_string(), variants }
}

/// Validates an instance against a JSON Schema, both given as JSON text:
/// serde_json's `from_str` reads both, jsonschema's `validator_for` compiles
/// the schema, and the validator's `iter_errors` checks the instance.
/// Compiling may fetch remote `$ref`s and read files, so the outcome depends
/// on more than the arguments; `Err` holds the message of a text that does
/// not read or a schema that does not compile. Nothing is stated of the
/// result.
#[verifier::external_body]
fn validate_json(schema: &str, instance: &str) -> (r: Result<Vec<SchemaError>, String>) {
    let schema: serde_json::Value = serde_json::from_str(schema).map_err(|e| e.to_string())?;
    let instance: serde_json::Value = serde_json::from_str(instance).map_err(|e| e.to_string())?;
    let validator = jsonschema::validator_for(&schema).map_err(|e| e.to_string())?;
    Ok(validator.iter_errors(&instance).map(|e| schema_error_of(&e)).collect())
}

/// A diagnostic about the value at `path` can be made: its range can be
/// converted, and the schema lookups its message may need end.
pub open spec fn path_resolvable(node: Node, b: Seq<u8>, root: Json, path: Seq<char>) -> bool {
    let segs = path_segments(path);
    &&& diag_range(node, path, b) is Some
    &&& sub_schema_defined(root, segs)
    &&& sub_schema(root, segs) matches Some(sub) ==> hover_defined(root, sub)
}

/// A diagnostic can be made about the value at every path.
pub open spec fn validation_inputs_ok(node: Node, b: Seq<u8>, root: Json) -> bool {
    forall|p: Seq<char>| #[trigger] path_resolvable(node, b, root, p)
}

proof fn lemma_leaf_defined(e: SchemaError, node: Node, b: Seq<u8>, root: Json)
    requires
        validation_inputs_ok(node, b, root),
    ensures
        leaf_f(e, node, b, root) is Some,
    decreases e,
{
    assert(path_resolvable(node, b, root, e.path@));
    if let Some(vs) = e.variants {
        if !all_at_path(vs@, e.path@) {
            let k = first_at_depth(vs@, deepest(vs@), 0);
            if 0 <= k < vs.len() {
                assert(decreases_to!(e => e.variants));
                assert(decreases_to!(e.variants => vs));
                assert(decreases_to!(vs => vs@));
                assert(decreases_to!(vs@ => vs@[k]));
                lemma_errors_defined(vs@[k]@, node, b, root);
            }
        }
    }
}

proof fn lemma_errors_defined(es: Seq<SchemaError>, node: Node, b: Seq<u8>, root: Json)
    requires
        validation_inputs_ok(node, b, root),
    ensures
        errors_f(es, node, b, root) is Some,
    decreases es,
{
    if es.len() > 0 {
        assert(decreases_to!(es => es.last()));
        lemma_errors_defined(es.drop_last(), node, b, root);
        lemma_leaf_defined(es.last(), node, b, root);
    }
}

/// The outcome of a validation as plain values.
pub open spec fn outcome_view(r: Result<Vec<SchemaError>, String>) -> Result<Seq<SchemaError>, Seq<char>> {
    match r {
        Ok(es) => Ok(es@),
        Err(m) => Err(m@),
    }
}

/// The diagnostics for the outcome of a validation: a warning that the
/// schema is invalid, with its message, or the diagnostics for the errors.
pub open spec fn outcome_diagnostics(
    outcome: Result<Seq<SchemaError>, Seq<char>>,
    node: Node,
    b: Seq<u8>,
    root: Json,
) -> Seq<(crate::text::Range, Severity, Seq<char>, Seq<char>)> {
    match outcome {
        Err(m) => seq![(origin(), Severity::Warning, "ayml"@, problem_prefix(SchemaProblem::Invalid) + m)],
        Ok(es) => errors_f(es, node, b, root)->0,
    }
}

/// The diagnostics for the outcome of validating a document against its
/// schema.
pub fn outcome_to_diagnostics(
    outcome: &Result<Vec<SchemaError>, String>,
    node: &Node,
    text: &str,
    schema: &Json,
) -> (r: Vec<Diagnostic>)
    requires
        validation_inputs_ok(*node, text.spec_bytes(), *schema),
    ensures
        diag_views(r@) == outcome_diagnostics(
            outcome_view(*outcome),
            *node,
            text.spec_bytes(),
            *schema,
        ),
{
    match outcome {
        Err(m) => {
            let d = schema_problem_diagnostic(SchemaProblem::Invalid, m.as_str());
            let ghost v = diag_view(d);
            let mut r: Vec<Diagnostic> = Vec::new();
            r.push(d);
            assert(diag_views(r@) == seq![v]);
            r
        },
        Ok(errors) => {
            proof {
                lemma_errors_defined(errors@, *node, text.spec_bytes(), *schema);
            }
            validation_diagnostics(errors, node, text, schema)
        },
    }
}

/// Validate a document against its schema and make its diagnostics: a
/// warning when the schema does not compile, else one diagnostic for each
/// most specific error.
pub fn validate_with_schema(node: &Node, text: &str, schema: &Json) -> (r: Vec<Diagnostic>)
    requires
        validation_inputs_ok(*node, text.spec_bytes(), *schema),
    ensures
        exists|outcome: Result<Seq<SchemaError>, Seq<char>>|
            diag_views(r@) == outcome_diagnostics(outcome, *node, text.spec_bytes(), *schema),
{
    let instance = node_to_json(node);
    let outcome = validate_json(schema.to_text().as_str(), instance.to_text().as_str());
    outcome_to_diagnostics(&outcome, node, text, schema)
}

} // verus!
