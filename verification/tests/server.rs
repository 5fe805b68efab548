use ayml_lsp::document::{Entry, MapKey, Node, Span, Value};
use ayml_lsp::json::{Json, Member};
use ayml_lsp::locate::path_at_offset;
use ayml_lsp::server::{handle_event, hover_at, hover_for_path, hover_offset, Action, Event};
use ayml_lsp::store::TextMap;
use ayml_lsp::text::{position_to_offset, Position};

fn s(x: &str) -> String {
    x.to_string()
}

fn published(a: &Action) -> Option<(String, String)> {
    match a {
        Action::Publish { uri, text } => Some((uri.clone(), text.clone())),
        _ => None,
    }
}

fn hover_document(docs: &mut TextMap<String>, uri: &str) -> Option<String> {
    match handle_event(docs, Event::Hover { uri: s(uri) }) {
        Action::AnswerHover { document } => document,
        _ => panic!("a hover request is answered"),
    }
}

#[test]
fn open_publishes_and_hover_sees_text() {
    let mut docs = TextMap::new();
    let a = handle_event(&mut docs, Event::DidOpen { uri: s("file:///a"), text: s("k: v") });
    assert_eq!(published(&a), Some((s("file:///a"), s("k: v"))));
    assert_eq!(hover_document(&mut docs, "file:///a"), Some(s("k: v")));
    assert_eq!(docs.get("file:///a").cloned(), Some(s("k: v")));
}

#[test]
fn change_replaces_text_and_publishes() {
    let mut docs = TextMap::new();
    handle_event(&mut docs, Event::DidOpen { uri: s("u"), text: s("one") });
    let a = handle_event(&mut docs, Event::DidChange { uri: s("u"), change: Some(s("two")) });
    assert_eq!(published(&a), Some((s("u"), s("two"))));
    assert_eq!(hover_document(&mut docs, "u"), Some(s("two")));
}

#[test]
fn change_without_content_does_nothing() {
    let mut docs = TextMap::new();
    handle_event(&mut docs, Event::DidOpen { uri: s("u"), text: s("one") });
    let a = handle_event(&mut docs, Event::DidChange { uri: s("u"), change: None });
    assert!(matches!(a, Action::Nothing));
    assert_eq!(hover_document(&mut docs, "u"), Some(s("one")));
}

#[test]
fn close_clears_and_forgets_the_document() {
    let mut docs = TextMap::new();
    handle_event(&mut docs, Event::DidOpen { uri: s("u"), text: s("one") });
    let a = handle_event(&mut docs, Event::DidClose { uri: s("u") });
    assert!(matches!(a, Action::Clear { ref uri } if uri == "u"));
    assert_eq!(hover_document(&mut docs, "u"), None);
}

#[test]
fn other_documents_are_kept() {
    let mut docs = TextMap::new();
    handle_event(&mut docs, Event::DidOpen { uri: s("a"), text: s("1") });
    handle_event(&mut docs, Event::DidOpen { uri: s("b"), text: s("2") });
    handle_event(&mut docs, Event::DidClose { uri: s("a") });
    handle_event(&mut docs, Event::DidChange { uri: s("c"), change: Some(s("3")) });
    assert_eq!(hover_document(&mut docs, "b"), Some(s("2")));
    assert_eq!(hover_document(&mut docs, "c"), Some(s("3")));
    assert_eq!(hover_document(&mut docs, "a"), None);
}

#[test]
fn unknown_request_gets_method_not_found() {
    let mut docs: TextMap<String> = TextMap::new();
    let a = handle_event(&mut docs, Event::Request { method: s("textDocument/completion") });
    match a {
        Action::MethodNotFound { message } => {
            assert_eq!(message, "unhandled method: textDocument/completion")
        }
        _ => panic!("expected a method-not-found answer"),
    }
    assert!(matches!(handle_event(&mut docs, Event::Other), Action::Nothing));
}

fn to_json(v: &serde_json::Value) -> Json {
    match v {
        serde_json::Value::Null => Json::Null,
        serde_json::Value::Bool(b) => Json::Bool(*b),
        serde_json::Value::Number(n) => Json::Number(n.to_string()),
        serde_json::Value::String(s) => Json::Str(s.clone()),
        serde_json::Value::Array(a) => Json::Array(a.iter().map(to_json).collect()),
        serde_json::Value::Object(o) => Json::Object(
            o.iter().map(|(k, v)| Member { key: k.clone(), value: to_json(v) }).collect(),
        ),
    }
}

const SCHEMA: &str = r#"{
  "type": "object",
  "properties": {
    "name": { "description": "Who.", "type": "string" },
    "ports": { "type": "array", "items": { "type": "integer", "minimum": 1 } }
  }
}"#;

/// `# schema\nname: Al\nports:\n  - 22`
const TEXT: &str = "# schema\nname: Al\nports:\n  - 22";

fn at(v: Value, start: usize, end: usize) -> Node {
    let mut n = Node::new(v);
    n.span = Span { start, end };
    n
}

fn document() -> Node {
    let name = TEXT.find("Al").unwrap();
    let dash = TEXT.find('-').unwrap();
    let port = TEXT.find("22").unwrap();
    at(
        Value::Mapping(vec![
            Entry { key: MapKey::Text(s("name")), node: at(Value::Str(s("Al")), name, name + 2) },
            Entry {
                key: MapKey::Text(s("ports")),
                node: at(Value::Sequence(vec![at(Value::Int(22), port, port + 2)]), dash, TEXT.len()),
            },
        ]),
        TEXT.find("name").unwrap(),
        TEXT.len(),
    )
}

fn schema() -> Json {
    to_json(&serde_json::from_str(SCHEMA).unwrap())
}

#[test]
fn path_at_offset_follows_keys_and_indices() {
    let doc = document();
    let on_key = TEXT.find("name").unwrap();
    assert_eq!(path_at_offset(&doc, on_key), vec![s("name")]);
    let on_value = TEXT.find("Al").unwrap() + 1;
    assert_eq!(path_at_offset(&doc, on_value), vec![s("name")]);
    let on_ports = TEXT.find("ports").unwrap();
    assert_eq!(path_at_offset(&doc, on_ports), vec![s("ports")]);
    let on_item = TEXT.find("22").unwrap();
    assert_eq!(path_at_offset(&doc, on_item), vec![s("ports"), s("0")]);
    assert_eq!(path_at_offset(&doc, 0), Vec::<String>::new());
}

#[test]
fn hover_offset_skips_comments() {
    assert_eq!(hover_offset(TEXT, Position::new(0, 3)), None);
    let o = position_to_offset(TEXT, Position::new(1, 2));
    assert_eq!(hover_offset(TEXT, Position::new(1, 2)), Some(o));
    assert_eq!(o, TEXT.find("name").unwrap() + 2);
}

#[test]
fn hover_for_path_gives_text_and_range() {
    let h = hover_for_path(&schema(), &document(), &vec![s("name")], TEXT).unwrap();
    assert_eq!(h.contents, "Who.\n\n**Type:** `string`");
    let r = h.range.unwrap();
    assert_eq!((r.start.line, r.start.character, r.end.line, r.end.character), (1, 0, 1, 8));
    let item = hover_for_path(&schema(), &document(), &vec![s("ports"), s("0")], TEXT).unwrap();
    assert_eq!(item.contents, "**Type:** `integer`\n\n**Minimum:** `1`");
    assert!(hover_for_path(&schema(), &document(), &vec![s("missing")], TEXT).is_none());
}

#[test]
fn hover_at_position() {
    let doc = document();
    let h = hover_at(&schema(), &doc, TEXT, Position::new(2, 1)).unwrap();
    assert_eq!(h.contents, "**Type:** `integer[]`");
    let r = h.range.unwrap();
    assert_eq!((r.start.line, r.start.character, r.end.line, r.end.character), (2, 0, 2, 6));
    assert!(hover_at(&schema(), &doc, TEXT, Position::new(0, 0)).is_none());
}

#[test]
fn hover_in_a_run_answers_from_the_text_at_its_arrival() {
    let mut docs = TextMap::new();
    let events = vec![
        Event::DidOpen { uri: s("a"), text: s("1") },
        Event::DidChange { uri: s("a"), change: Some(s("2")) },
        Event::DidChange { uri: s("a"), change: None },
        Event::DidOpen { uri: s("b"), text: s("x") },
    ];
    for e in events {
        handle_event(&mut docs, e);
    }
    assert_eq!(hover_document(&mut docs, "a"), Some(s("2")));
    handle_event(&mut docs, Event::DidClose { uri: s("a") });
    assert_eq!(hover_document(&mut docs, "a"), None);
    assert_eq!(hover_document(&mut docs, "b"), Some(s("x")));
}
