use ayml_lsp::json::{Json, Member};
use ayml_lsp::schema::{hover_content, resolve_sub_schema, type_string};

fn to_json(v: &serde_json::Value) -> Json {
    match v {
        serde_json::Value::Null => Json::Null,
        serde_json::Value::Bool(b) => Json::Bool(*b),
        serde_json::Value::Number(n) => Json::Number(n.to_string()),
        serde_json::Value::String(s) => Json::Str(s.clone()),
        serde_json::Value::Array(a) => Json::Array(a.iter().map(to_json).collect()),
        serde_json::Value::Object(o) => Json::Object(
            o.iter().map(|(k, v)| Member { key: k.clone(), value: to_json(v) }).collect(),
        ),
    }
}

fn parse(text: &str) -> Json {
    to_json(&serde_json::from_str(text).unwrap())
}

const POLICY_SCHEMA: &str = r##"{
  "type": "object",
  "properties": {
    "network": {
      "description": "Network access policy.",
      "anyOf": [{ "$ref": "#/definitions/NetworkPolicy" }, { "type": "null" }]
    },
    "files": { "$ref": "#/definitions/FilesPolicy" }
  },
  "definitions": {
    "NetworkPolicy": {
      "type": "object",
      "properties": {
        "rules": {
          "description": "Rules, checked in order.",
          "type": "array",
          "items": { "$ref": "#/definitions/NetworkRule" }
        }
      }
    },
    "NetworkRule": {
      "type": "object",
      "properties": {
        "host": { "description": "Host name or glob.", "type": "string" },
        "action": { "description": "What to do.", "type": "string", "enum": ["allow", "deny"] },
        "ports": {
          "description": "Ports the rule covers.",
          "anyOf": [
            { "type": "string", "enum": ["all"] },
            { "type": "array", "items": { "type": "integer" } },
            { "type": "null" }
          ]
        }
      }
    },
    "FilesPolicy": {
      "type": "object",
      "properties": {
        "rules": { "type": "array", "items": { "$ref": "#/definitions/FileRule" } }
      }
    },
    "FileRule": {
      "type": "object",
      "properties": {
        "operations": {
          "description": "Operations the rule allows.",
          "type": "array",
          "items": { "$ref": "#/definitions/Operation" }
        }
      }
    },
    "Operation": { "type": "string", "enum": ["read", "write", "delete"] }
  }
}"##;

fn load_policy_schema() -> Json {
    parse(POLICY_SCHEMA)
}

#[test]
fn network_type_shows_definition_name() {
    let root = load_policy_schema();
    let sub = resolve_sub_schema(&root, &["network"]).unwrap();
    let content = hover_content(&root, sub).unwrap();
    assert!(
        content.contains("NetworkPolicy"),
        "expected NetworkPolicy in type, got:\n{content}"
    );
}

#[test]
fn network_rules_type_shows_item_type() {
    let root = load_policy_schema();
    let sub = resolve_sub_schema(&root, &["network", "rules"]).unwrap();
    let content = hover_content(&root, sub).unwrap();
    assert!(
        content.contains("NetworkRule[]"),
        "expected NetworkRule[] in type, got:\n{content}"
    );
}

#[test]
fn ports_type_shows_variants() {
    let root = load_policy_schema();
    let sub = resolve_sub_schema(&root, &["network", "rules", "0", "ports"]).unwrap();
    let content = hover_content(&root, sub).unwrap();
    assert!(
        content.contains("integer[]") || content.contains("int"),
        "expected integer[] in type, got:\n{content}"
    );
}

#[test]
fn host_type() {
    let root = load_policy_schema();
    let sub = resolve_sub_schema(&root, &["network", "rules", "0", "host"]).unwrap();
    let content = hover_content(&root, sub).unwrap();
    assert!(!content.is_empty());
}

#[test]
fn action_type() {
    let root = load_policy_schema();
    let sub = resolve_sub_schema(&root, &["network", "rules", "0", "action"]).unwrap();
    let content = hover_content(&root, sub).unwrap();
    assert!(!content.is_empty());
}

#[test]
fn operations_key_shows_enum_values() {
    let root = load_policy_schema();
    let sub = resolve_sub_schema(&root, &["files", "rules", "0", "operations"]).unwrap();
    let content = hover_content(&root, sub).unwrap();
    assert!(
        content.contains("read") && content.contains("write") && content.contains("delete"),
        "expected enum values in operations hover, got:\n{content}"
    );
}

#[test]
fn operations_element_shows_enum_values() {
    let root = load_policy_schema();
    let sub =
        resolve_sub_schema(&root, &["files", "rules", "0", "operations", "0"]).unwrap();
    let content = hover_content(&root, sub).unwrap();
    assert!(
        content.contains("read") && content.contains("write") && content.contains("delete"),
        "expected enum values in operations element hover, got:\n{content}"
    );
}

#[test]
fn hover_text_of_each_part() {
    let root = load_policy_schema();
    let sub = resolve_sub_schema(&root, &["network"]).unwrap();
    assert_eq!(
        hover_content(&root, sub).unwrap(),
        "Network access policy.\n\n**Type:** `NetworkPolicy | null`"
    );
    let sub = resolve_sub_schema(&root, &["network", "rules", "0", "action"]).unwrap();
    assert_eq!(
        hover_content(&root, sub).unwrap(),
        "What to do.\n\n**Type:** `string`\n\n**Allowed values:** `\"allow\"`, `\"deny\"`"
    );
    let sub = resolve_sub_schema(&root, &["network", "rules", "0", "ports"]).unwrap();
    assert_eq!(
        hover_content(&root, sub).unwrap(),
        "Ports the rule covers.\n\n**Type:** `\"all\" | integer[] | null`\n\n**Allowed values:** `\"all\"`"
    );
    let sub = resolve_sub_schema(&root, &["files", "rules", "0", "operations"]).unwrap();
    assert_eq!(
        hover_content(&root, sub).unwrap(),
        "Operations the rule allows.\n\n**Type:** `Operation[]`\n\n**Allowed values:** `\"read\"`, `\"write\"`, `\"delete\"`"
    );
}

#[test]
fn hover_shows_default_pattern_and_bounds() {
    let root = parse(
        r#"{"properties": {"port": {"type": "integer", "default": 8080, "minimum": 1, "maximum": 65535},
            "name": {"type": "string", "pattern": "^[a-z]+$", "default": "a\"b"}}}"#,
    );
    let sub = resolve_sub_schema(&root, &["port"]).unwrap();
    assert_eq!(
        hover_content(&root, sub).unwrap(),
        "**Type:** `integer`\n\n**Default:** `8080`\n\n**Minimum:** `1`\n\n**Maximum:** `65535`"
    );
    let sub = resolve_sub_schema(&root, &["name"]).unwrap();
    assert_eq!(
        hover_content(&root, sub).unwrap(),
        "**Type:** `string`\n\n**Default:** `\"a\\\"b\"`\n\n**Pattern:** `^[a-z]+$`"
    );
}

#[test]
fn hover_of_schema_without_anything_to_say_is_none() {
    let root = parse(r#"{"properties": {"x": {}}}"#);
    let sub = resolve_sub_schema(&root, &["x"]).unwrap();
    assert!(hover_content(&root, sub).is_none());
}

#[test]
fn missing_path_has_no_sub_schema() {
    let root = load_policy_schema();
    assert!(resolve_sub_schema(&root, &["nothing"]).is_none());
    assert!(resolve_sub_schema(&root, &["network", "rules", "first"]).is_none());
}

#[test]
fn additional_properties_and_all_of_are_followed() {
    let root = parse(
        r##"{"definitions": {"Base": {"properties": {"id": {"type": "integer"}}}},
            "allOf": [{"$ref": "#/definitions/Base"}],
            "properties": {"labels": {"type": "object", "additionalProperties": {"type": "string"}}}}"##,
    );
    let sub = resolve_sub_schema(&root, &["id"]).unwrap();
    assert_eq!(type_string(&root, sub).unwrap(), "integer");
    let sub = resolve_sub_schema(&root, &["labels", "anything"]).unwrap();
    assert_eq!(type_string(&root, sub).unwrap(), "string");
}

#[test]
fn pointer_escapes_and_whole_document_refs() {
    let root = parse(
        r##"{"definitions": {"a/b": {"type": "boolean"}, "c~d": {"type": "number"}},
            "properties": {"x": {"$ref": "#/definitions/a~1b"}, "y": {"$ref": "#/definitions/c~0d"},
                           "z": {"$ref": "#"}, "w": {"$ref": "#/nowhere"}}}"##,
    );
    let x = resolve_sub_schema(&root, &["x"]).unwrap();
    assert_eq!(type_string(&root, x).unwrap(), "boolean");
    let y = resolve_sub_schema(&root, &["y"]).unwrap();
    assert_eq!(type_string(&root, y).unwrap(), "number");
    let z = resolve_sub_schema(&root, &["z", "x"]).unwrap();
    assert_eq!(type_string(&root, z).unwrap(), "boolean");
    // A pointer that leads nowhere leaves the `$ref` schema as it is.
    let w = resolve_sub_schema(&root, &["w"]).unwrap();
    assert!(type_string(&root, w).is_none());
}

#[test]
fn type_lists_and_string_enums() {
    let root = parse(
        r#"{"properties": {"a": {"type": ["string", "null", 3]},
            "b": {"oneOf": [{"type": "string", "enum": ["x", "y", 1]}, {"type": "array"}]},
            "c": {"type": "array", "items": {"type": "array", "items": {"type": "boolean"}}}}}"#,
    );
    let a = resolve_sub_schema(&root, &["a"]).unwrap();
    assert_eq!(type_string(&root, a).unwrap(), "string | null");
    let b = resolve_sub_schema(&root, &["b"]).unwrap();
    assert_eq!(type_string(&root, b).unwrap(), "\"x\" | \"y\" | array");
    let c = resolve_sub_schema(&root, &["c"]).unwrap();
    assert_eq!(type_string(&root, c).unwrap(), "boolean[][]");
}

#[test]
fn pointers_index_arrays() {
    let root = parse(
        r##"{"a/b": {"~1": {"type": "integer"}}, "arr": [{"type": "null"}, {"type": "boolean"}],
            "properties": {"p": {"$ref": "#/arr/1"}, "q": {"$ref": "#/a~1b/~01"},
                           "r": {"$ref": "#/arr/01"}, "s": {"$ref": "#/arr/2"}}}"##,
    );
    let p = resolve_sub_schema(&root, &["p"]).unwrap();
    assert_eq!(type_string(&root, p).unwrap(), "boolean");
    let q = resolve_sub_schema(&root, &["q"]).unwrap();
    assert_eq!(type_string(&root, q).unwrap(), "integer");
    // A leading zero or an index past the end names nothing; the `$ref`
    // schema stays as it is.
    let r = resolve_sub_schema(&root, &["r"]).unwrap();
    assert!(type_string(&root, r).is_none());
    let s = resolve_sub_schema(&root, &["s"]).unwrap();
    assert!(type_string(&root, s).is_none());
}
