use ayml_lsp::document::{compute_hover_range, Entry, MapKey, Node, Span, Value};
use ayml_lsp::text::{position_to_offset, Range};

/// A node holding `value` whose source text is `input[start..end]`.
fn node(value: Value, start: usize, end: usize) -> Node {
    let mut n = Node::new(value);
    n.span = Span { start, end };
    n
}

/// A string scalar whose source text is the first occurrence of `text` at
/// or after `from` in `input`.
fn scalar(input: &str, text: &str, from: usize) -> Node {
    let start = from + input[from..].find(text).unwrap();
    node(Value::Str(text.to_string()), start, start + text.len())
}

fn entry(key: &str, n: Node) -> Entry {
    Entry { key: MapKey::Text(key.to_string()), node: n }
}

fn mapping(entries: Vec<Entry>, start: usize, end: usize) -> Node {
    node(Value::Mapping(entries), start, end)
}

fn sequence(items: Vec<Node>, start: usize, end: usize) -> Node {
    node(Value::Sequence(items), start, end)
}

fn hover_range_for(root: &Node, input: &str, path: &[&str]) -> Option<Range> {
    let path: Vec<String> = path.iter().map(|s| s.to_string()).collect();
    compute_hover_range(root, &path, input)
}

/// Extract the highlighted text from a Range.
fn range_text(input: &str, range: Range) -> String {
    let start = position_to_offset(input, range.start);
    let end = position_to_offset(input, range.end);
    input[start..end].to_string()
}

#[test]
fn scalar_value_highlights_whole_pair() {
    let input = "name: Alice";
    let root = mapping(vec![entry("name", scalar(input, "Alice", 0))], 0, input.len());
    let range = hover_range_for(&root, input, &["name"]).unwrap();
    assert_eq!(range_text(input, range), "name: Alice");
}

#[test]
fn scalar_value_skips_indentation() {
    let input = "outer:\n  name: Alice";
    let inner = mapping(vec![entry("name", scalar(input, "Alice", 0))], 9, input.len());
    let root = mapping(vec![entry("outer", inner)], 0, input.len());
    let range = hover_range_for(&root, input, &["outer", "name"]).unwrap();
    assert_eq!(range_text(input, range), "name: Alice");
}

#[test]
fn scalar_value_in_compact_mapping_skips_dash() {
    let input = "- host: *.github.com";
    let item = mapping(vec![entry("host", scalar(input, "*.github.com", 0))], 2, input.len());
    let root = sequence(vec![item], 0, input.len());
    let range = hover_range_for(&root, input, &["0", "host"]).unwrap();
    assert_eq!(range_text(input, range), "host: *.github.com");
}

#[test]
fn scalar_value_with_inline_comment_excludes_comment() {
    let input = "host: example.com # a comment";
    let root = mapping(vec![entry("host", scalar(input, "example.com", 0))], 0, input.len());
    let range = hover_range_for(&root, input, &["host"]).unwrap();
    assert_eq!(range_text(input, range), "host: example.com");
}

/// The tree of "a:\n  b:\n    c: 42".
fn nested_abc(input: &str) -> Node {
    let c_start = input.find("42").unwrap();
    let c = node(Value::Int(42), c_start, c_start + 2);
    let b_map = mapping(vec![entry("c", c)], input.find('c').unwrap(), input.len());
    let a_map = mapping(vec![entry("b", b_map)], input.find('b').unwrap(), input.len());
    mapping(vec![entry("a", a_map)], 0, input.len())
}

#[test]
fn scalar_value_deeply_nested() {
    let input = "a:\n  b:\n    c: 42";
    let root = nested_abc(input);
    let range = hover_range_for(&root, input, &["a", "b", "c"]).unwrap();
    assert_eq!(range_text(input, range), "c: 42");
}

#[test]
fn block_mapping_highlights_key_colon() {
    let input = "network:\n  rules: ok";
    let inner = mapping(
        vec![entry("rules", scalar(input, "ok", 0))],
        input.find("rules").unwrap(),
        input.len(),
    );
    let root = mapping(vec![entry("network", inner)], 0, input.len());
    let range = hover_range_for(&root, input, &["network"]).unwrap();
    assert_eq!(range_text(input, range), "network:");
}

#[test]
fn block_sequence_highlights_key_colon() {
    let input = "items:\n  - one\n  - two";
    let items = sequence(
        vec![scalar(input, "one", 0), scalar(input, "two", 0)],
        input.find('-').unwrap(),
        input.len(),
    );
    let root = mapping(vec![entry("items", items)], 0, input.len());
    let range = hover_range_for(&root, input, &["items"]).unwrap();
    assert_eq!(range_text(input, range), "items:");
}

#[test]
fn nested_block_highlights_key_colon() {
    let input = "a:\n  b:\n    c: 42";
    let root = nested_abc(input);
    let range = hover_range_for(&root, input, &["a", "b"]).unwrap();
    assert_eq!(range_text(input, range), "b:");
}

#[test]
fn block_value_skips_indentation() {
    let input = "outer:\n  inner:\n    x: 1";
    let x_start = input.find('1').unwrap();
    let x = node(Value::Int(1), x_start, x_start + 1);
    let inner = mapping(vec![entry("x", x)], input.find("x:").unwrap(), input.len());
    let outer = mapping(vec![entry("inner", inner)], input.find("inner").unwrap(), input.len());
    let root = mapping(vec![entry("outer", outer)], 0, input.len());
    let range = hover_range_for(&root, input, &["outer", "inner"]).unwrap();
    assert_eq!(range_text(input, range), "inner:");
}

#[test]
fn scalar_seq_element_value_only() {
    let input = "items:\n  - foo\n  - bar";
    let items = sequence(
        vec![scalar(input, "foo", 0), scalar(input, "bar", 0)],
        input.find('-').unwrap(),
        input.len(),
    );
    let root = mapping(vec![entry("items", items)], 0, input.len());
    let range = hover_range_for(&root, input, &["items", "0"]).unwrap();
    assert_eq!(range_text(input, range), "foo");
}

#[test]
fn scalar_seq_element_indented() {
    let input = "ports:\n    - 443\n    - 22";
    let p443 = input.find("443").unwrap();
    let p22 = input.find("22").unwrap();
    let items = sequence(
        vec![node(Value::Int(443), p443, p443 + 3), node(Value::Int(22), p22, p22 + 2)],
        input.find('-').unwrap(),
        input.len(),
    );
    let root = mapping(vec![entry("ports", items)], 0, input.len());
    let range = hover_range_for(&root, input, &["ports", "0"]).unwrap();
    assert_eq!(range_text(input, range), "443");
    let range = hover_range_for(&root, input, &["ports", "1"]).unwrap();
    assert_eq!(range_text(input, range), "22");
}

#[test]
fn scalar_seq_element_with_inline_comment() {
    let input = "- 22 # SSH\n- 443 # HTTPS";
    let p22 = input.find("22").unwrap();
    let p443 = input.find("443").unwrap();
    let root = sequence(
        vec![node(Value::Int(22), p22, p22 + 2), node(Value::Int(443), p443, p443 + 3)],
        0,
        input.len(),
    );
    let range = hover_range_for(&root, input, &["0"]).unwrap();
    assert_eq!(range_text(input, range), "22");
    let range = hover_range_for(&root, input, &["1"]).unwrap();
    assert_eq!(range_text(input, range), "443");
}

/// The tree of "- {host: example.com, action: allow}".
fn flow_mapping(input: &str) -> Node {
    let item = mapping(
        vec![
            entry("host", scalar(input, "example.com", 0)),
            entry("action", scalar(input, "allow", 0)),
        ],
        input.find('{').unwrap(),
        input.len(),
    );
    sequence(vec![item], 0, input.len())
}

#[test]
fn flow_mapping_scalar_value() {
    let input = "- {host: example.com, action: allow}";
    let root = flow_mapping(input);
    let range = hover_range_for(&root, input, &["0", "action"]).unwrap();
    assert_eq!(range_text(input, range), "action: allow");
}

#[test]
fn flow_mapping_first_entry() {
    let input = "- {host: example.com, action: allow}";
    let root = flow_mapping(input);
    let range = hover_range_for(&root, input, &["0", "host"]).unwrap();
    assert_eq!(range_text(input, range), "host: example.com");
}

#[test]
fn empty_path_highlights_root() {
    let input = "a: 1";
    let root = mapping(vec![entry("a", node(Value::Int(1), 3, 4))], 0, input.len());
    let range = hover_range_for(&root, input, &[]).unwrap();
    assert_eq!(range_text(input, range), "a: 1");
}

#[test]
fn empty_block_value_highlights_whole_pair() {
    let input = "a: {}";
    let root = mapping(vec![entry("a", mapping(vec![], 3, 5))], 0, input.len());
    let range = hover_range_for(&root, input, &["a"]).unwrap();
    assert_eq!(range_text(input, range), "a: {}");
}

#[test]
fn missing_key_or_index_gives_no_range() {
    let input = "items:\n  - foo";
    let items = sequence(vec![scalar(input, "foo", 0)], input.find('-').unwrap(), input.len());
    let root = mapping(vec![entry("items", items)], 0, input.len());
    assert!(hover_range_for(&root, input, &["other"]).is_none());
    assert!(hover_range_for(&root, input, &["items", "3"]).is_none());
    assert!(hover_range_for(&root, input, &["items", "x"]).is_none());
    assert!(hover_range_for(&root, input, &["items", "0", "deeper"]).is_none());
}

#[test]
fn index_with_plus_sign_is_read_as_index() {
    let input = "- a\n- b";
    let root = sequence(vec![scalar(input, "a", 0), scalar(input, "b", 0)], 0, input.len());
    let range = hover_range_for(&root, input, &["+1"]).unwrap();
    assert_eq!(range_text(input, range), "b");
}

#[test]
fn dash_inside_key_is_part_of_key() {
    let input = "max-age: 5";
    let root = mapping(vec![entry("max-age", scalar(input, "5", 0))], 0, input.len());
    let range = hover_range_for(&root, input, &["max-age"]).unwrap();
    assert_eq!((range.start.line, range.start.character), (0, 0));
    assert_eq!((range.end.line, range.end.character), (0, 10));
    assert_eq!(range_text(input, range), "max-age: 5");

    let input = "- x-y: 1";
    let item = mapping(vec![entry("x-y", scalar(input, "1", 0))], 2, input.len());
    let root = sequence(vec![item], 0, input.len());
    let range = hover_range_for(&root, input, &["0", "x-y"]).unwrap();
    assert_eq!(range_text(input, range), "x-y: 1");
}
