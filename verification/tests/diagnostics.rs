use ayml_lsp::validate::validate_with_schema;
use ayml_lsp::diagnostics::{collect_leaf_errors, Diagnostic, SchemaError, Severity};
use ayml_lsp::document::{Entry, MapKey, Node, Span, Value};
use ayml_lsp::json::{Json, Member};
use ayml_lsp::server::{
    parse_error_diagnostic, schema_problem_diagnostic, validation_diagnostics, SchemaProblem,
};
use ayml_lsp::text::Position;

fn to_json(v: &serde_json::Value) -> Json {
    match v {
        serde_json::Value::Null => Json::Null,
        serde_json::Value::Bool(b) => Json::Bool(*b),
        serde_json::Value::Number(n) => Json::Number(n.to_string()),
        serde_json::Value::String(s) => Json::Str(s.clone()),
        serde_json::Value::Array(a) => Json::Array(a.iter().map(to_json).collect()),
        serde_json::Value::Object(o) => Json::Object(
            o.iter().map(|(k, v)| Member { key: k.clone(), value: to_json(v) }).collect(),
        ),
    }
}

fn parse(text: &str) -> Json {
    to_json(&serde_json::from_str(text).unwrap())
}

fn error(path: &str, message: &str) -> SchemaError {
    SchemaError {
        path: path.to_string(),
        message: message.to_string(),
        variants: None,
    }
}

fn any_of(path: &str, message: &str, variants: Vec<Vec<SchemaError>>) -> SchemaError {
    SchemaError { variants: Some(variants), ..error(path, message) }
}

/// The tree of `TEXT`: a mapping with `port` and `servers`, a list of one
/// mapping with `host`.
const TEXT: &str = "port: x\nservers:\n  - host: 5";

fn document() -> Node {
    let port_at = TEXT.find('x').unwrap();
    let host_at = TEXT.find('5').unwrap();
    let mut port = Node::new(Value::Str("x".to_string()));
    port.span = Span { start: port_at, end: port_at + 1 };
    let mut host = Node::new(Value::Int(5));
    host.span = Span { start: host_at, end: host_at + 1 };
    let mut server = Node::new(Value::Mapping(vec![Entry {
        key: MapKey::Text("host".to_string()),
        node: host,
    }]));
    server.span = Span { start: TEXT.find("host").unwrap(), end: TEXT.len() };
    let mut servers = Node::new(Value::Sequence(vec![server]));
    servers.span = Span { start: TEXT.find('-').unwrap(), end: TEXT.len() };
    let mut root = Node::new(Value::Mapping(vec![
        Entry { key: MapKey::Text("port".to_string()), node: port },
        Entry { key: MapKey::Text("servers".to_string()), node: servers },
    ]));
    root.span = Span { start: 0, end: TEXT.len() };
    root
}

fn schema() -> Json {
    parse(
        r#"{"properties": {
            "port": {"anyOf": [{"type": "integer"}, {"type": "string", "enum": ["auto"]}]},
            "servers": {"type": "array", "items": {"properties": {"host": {"type": "string"}}}}}}"#,
    )
}

fn collect(e: &SchemaError) -> Vec<Diagnostic> {
    let mut out = Vec::new();
    collect_leaf_errors(e, &document(), TEXT, &schema(), &mut out);
    out
}

#[test]
fn leaf_error_points_at_the_value() {
    let out = collect(&error("/servers/0/host", "5 is not of type \"string\""));
    assert_eq!(out.len(), 1);
    let d = &out[0];
    assert_eq!(d.message, "/servers/0/host: 5 is not of type \"string\"");
    assert_eq!(d.source, "ayml-schema");
    assert_eq!(d.severity, Severity::Error);
    assert_eq!(d.range.start, Position::new(2, 10));
    assert_eq!(d.range.end, Position::new(2, 11));
}

#[test]
fn error_at_the_root_has_no_path_prefix() {
    let out = collect(&error("", "\"extra\" was unexpected"));
    assert_eq!(out[0].message, "\"extra\" was unexpected");
    assert_eq!(out[0].range.start, Position::new(0, 0));
    assert_eq!(out[0].range.end, Position::new(2, 11));
}

#[test]
fn error_at_a_missing_path_points_at_the_start() {
    let out = collect(&error("/nothing", "oops"));
    assert_eq!(out[0].message, "/nothing: oops");
    assert_eq!(out[0].range.start, Position::new(0, 0));
    assert_eq!(out[0].range.end, Position::new(0, 0));
}

#[test]
fn failed_variants_at_the_same_path_say_what_is_expected() {
    let e = any_of(
        "/port",
        "\"x\" is not valid under any of the schemas listed in the 'anyOf' keyword",
        vec![
            vec![error("/port", "\"x\" is not of type \"integer\"")],
            vec![error("/port", "\"x\" is not one of [\"auto\"]")],
        ],
    );
    let out = collect(&e);
    assert_eq!(out.len(), 1);
    assert_eq!(out[0].message, "/port: expected integer | \"auto\"");
    assert_eq!(out[0].range.start, Position::new(0, 6));
    assert_eq!(out[0].range.end, Position::new(0, 7));
}

#[test]
fn failed_variants_without_sub_schema_keep_the_message() {
    let e = any_of("/other", "no match", vec![vec![error("/other", "a")]]);
    let out = collect(&e);
    assert_eq!(out[0].message, "/other: no match");
}

#[test]
fn failed_variants_at_different_paths_expand_the_deepest() {
    let e = any_of(
        "",
        "no variant matched",
        vec![
            vec![error("", "not an array")],
            vec![error("/servers/0/host", "bad host"), error("/port", "bad port")],
            vec![error("/servers/0/host", "other")],
        ],
    );
    let out = collect(&e);
    assert_eq!(out.len(), 2);
    assert_eq!(out[0].message, "/servers/0/host: bad host");
    assert_eq!(out[1].message, "/port: bad port");
}

#[test]
fn nested_composition_errors_are_expanded_in_turn() {
    let inner = any_of(
        "/port",
        "no match",
        vec![vec![error("/port", "a")], vec![error("/port", "b")]],
    );
    let e = any_of("", "outer", vec![vec![error("", "root")], vec![inner]]);
    let out = collect(&e);
    assert_eq!(out.len(), 1);
    assert_eq!(out[0].message, "/port: expected integer | \"auto\"");
}

#[test]
fn validation_collects_each_error_in_order() {
    let errors = vec![error("/port", "first"), error("/servers/0/host", "second")];
    let out = validation_diagnostics(&errors, &document(), TEXT, &schema());
    let messages: Vec<&str> = out.iter().map(|d| d.message.as_str()).collect();
    assert_eq!(messages, vec!["/port: first", "/servers/0/host: second"]);
}

#[test]
fn parse_errors_turn_one_based_positions_zero_based() {
    let d = parse_error_diagnostic(3, 5, "unexpected character");
    assert_eq!(d.range.start, Position::new(2, 4));
    assert_eq!(d.range.end, Position::new(2, 4));
    assert_eq!(d.severity, Severity::Error);
    assert_eq!(d.source, "ayml");
    assert_eq!(d.message, "unexpected character");
    let d = parse_error_diagnostic(0, 0, "at the start");
    assert_eq!(d.range.start, Position::new(0, 0));
}

#[test]
fn schema_problems_are_warnings_at_the_start() {
    let d = schema_problem_diagnostic(SchemaProblem::FetchFailed, "timed out");
    assert_eq!(d.message, "failed to fetch schema: timed out");
    assert_eq!(d.severity, Severity::Warning);
    assert_eq!(d.source, "ayml");
    assert_eq!(d.range.start, Position::new(0, 0));
    let d = schema_problem_diagnostic(SchemaProblem::Invalid, "bad type");
    assert_eq!(d.message, "invalid schema: bad type");
}

#[test]
fn validation_against_a_schema() {
    let out = validate_with_schema(&document(), TEXT, &schema());
    let messages: Vec<&str> = out.iter().map(|d| d.message.as_str()).collect();
    assert_eq!(out.len(), 2, "{messages:?}");
    assert!(out.iter().all(|d| d.severity == Severity::Error && d.source == "ayml-schema"));
    assert!(messages.contains(&"/port: expected integer | \"auto\""), "{messages:?}");
    let host = out.iter().find(|d| d.message.starts_with("/servers/0/host: ")).unwrap();
    assert_eq!(host.range.start, Position::new(2, 10));
}

#[test]
fn invalid_schema_is_a_warning() {
    let out = validate_with_schema(&document(), TEXT, &parse(r#"{"type": 12}"#));
    assert_eq!(out.len(), 1);
    assert_eq!(out[0].severity, Severity::Warning);
    assert!(out[0].message.starts_with("invalid schema: "), "{}", out[0].message);
    assert_eq!(out[0].range.start, Position::new(0, 0));
}
