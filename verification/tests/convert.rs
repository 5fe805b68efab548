use ayml_lsp::convert::node_to_json;
use ayml_lsp::document::{Entry, FloatValue, MapKey, Node, Value};
use ayml_lsp::json::Json;

fn number_text(j: &Json) -> Option<&str> {
    match j {
        Json::Number(t) => Some(t.as_str()),
        _ => None,
    }
}

fn string_value(j: &Json) -> Option<&str> {
    match j {
        Json::Str(s) => Some(s.as_str()),
        _ => None,
    }
}

/// The float as the JSON number text serde_json writes for it.
fn finite(f: f64) -> Value {
    Value::Float(FloatValue::Finite(serde_json::Number::from_f64(f).unwrap().to_string()))
}

#[test]
fn i64_max() {
    let node = Node::new(Value::Int(i64::MAX));
    let json = node_to_json(&node);
    assert_eq!(number_text(&json).and_then(|t| t.parse::<i64>().ok()), Some(i64::MAX));
}

#[test]
fn i64_min() {
    let node = Node::new(Value::Int(i64::MIN));
    let json = node_to_json(&node);
    assert_eq!(number_text(&json).and_then(|t| t.parse::<i64>().ok()), Some(i64::MIN));
}

#[test]
fn f64_max() {
    let node = Node::new(finite(f64::MAX));
    let json = node_to_json(&node);
    let text = number_text(&json).unwrap();
    let parsed: serde_json::Value = serde_json::from_str(text).unwrap();
    assert!(parsed.is_f64());
    assert_eq!(parsed.as_f64().unwrap(), f64::MAX);
}

#[test]
fn f64_infinity_becomes_string() {
    let node = Node::new(Value::Float(FloatValue::Infinity));
    let json = node_to_json(&node);
    assert_eq!(string_value(&json), Some("inf"));
}

#[test]
fn f64_neg_infinity_becomes_string() {
    let node = Node::new(Value::Float(FloatValue::NegInfinity));
    let json = node_to_json(&node);
    assert_eq!(string_value(&json), Some("-inf"));
}

#[test]
fn f64_nan_becomes_string() {
    let node = Node::new(Value::Float(FloatValue::Nan));
    let json = node_to_json(&node);
    assert_eq!(string_value(&json), Some("nan"));
}

#[test]
fn large_i64_survives_json_roundtrip() {
    let node = Node::new(Value::Int(i64::MAX));
    let json = node_to_json(&node);
    let serialized = json.to_text();
    let deserialized: serde_json::Value = serde_json::from_str(&serialized).unwrap();
    assert_eq!(deserialized.as_i64(), Some(i64::MAX));
}

#[test]
fn small_integers_have_plain_decimal_text() {
    for (i, text) in [(0i64, "0"), (7, "7"), (-7, "-7"), (10, "10"), (-1200, "-1200")] {
        let json = node_to_json(&Node::new(Value::Int(i)));
        assert_eq!(number_text(&json), Some(text));
    }
}

#[test]
fn tree_becomes_json_without_comments() {
    let mut commented = Node::new(Value::Str("x".to_string()));
    commented.comment = Some("note".to_string());
    let root = Node::new(Value::Mapping(vec![
        Entry { key: MapKey::Text("name".to_string()), node: commented },
        Entry {
            key: MapKey::Scalar("1".to_string()),
            node: Node::new(Value::Sequence(vec![
                Node::new(Value::Null),
                Node::new(Value::Bool(true)),
                Node::new(finite(1.5)),
            ])),
        },
    ]));
    let json = node_to_json(&root);
    assert_eq!(json.to_text(), r#"{"name":"x","1":[null,true,1.5]}"#);
}

#[test]
fn comments_and_spans_do_not_change_json() {
    let plain = Node::new(Value::Mapping(vec![Entry {
        key: MapKey::Text("a".to_string()),
        node: Node::new(Value::Sequence(vec![Node::new(Value::Int(1))])),
    }]));
    let mut item = Node::new(Value::Int(1));
    item.comment = Some("# one".to_string());
    item.span = ayml_lsp::document::Span { start: 3, end: 4 };
    let mut root = Node::new(Value::Mapping(vec![Entry {
        key: MapKey::Text("a".to_string()),
        node: Node::new(Value::Sequence(vec![item])),
    }]));
    root.comment = Some("# top".to_string());
    assert_eq!(format!("{:?}", node_to_json(&plain)), format!("{:?}", node_to_json(&root)));
    assert_eq!(node_to_json(&root).to_text(), "{\"a\":[1]}");
}
