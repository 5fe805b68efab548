//! The AYML document tree as the parser reports it: nodes with the byte span
//! of their source text, and the walks through it by path.
use vstd::prelude::*;
use vstd::string::StringSliceAdditionalSpecFns;

use crate::json::deref_opt;
use crate::strings::{chars_of, parse_index, parse_usize, split_char, split_on, text_eq, views};
use crate::text::{at_char_boundary, clamp_offset, line_col, position_at, positions_fit, Position, Range};

verus! {

/// A byte range `start..end` of the source text.
#[derive(Clone, Copy, Debug, PartialEq, Eq)]
pub struct Span {
    pub start: usize,
    pub end: usize,
}

/// A mapping key: a string, or another scalar given by its text.
#[derive(Debug)]
pub enum MapKey {
    Text(String),
    Scalar(String),
}

/// A floating-point scalar: not a number, an infinity, or a finite value
/// given by its JSON number text.
#[derive(Debug)]
pub enum FloatValue {
    Nan,
    Infinity,
    NegInfinity,
    Finite(String),
}

/// The value a node holds.
#[derive(Debug)]
pub enum Value {
    Null,
    Bool(bool),
    Int(i64),
    Float(FloatValue),
    Str(String),
    Sequence(Vec<Node>),
    Mapping(Vec<Entry>),
}

/// An entry of a mapping.
#[derive(Debug)]
pub struct Entry {
    pub key: MapKey,
    pub node: Node,
}

/// A node of the document tree: its value, the span of its source text, and
/// the comment attached to it.
#[derive(Debug)]
pub struct Node {
    pub value: Value,
    pub span: Span,
    pub comment: Option<String>,
}

impl Node {
    /// A node with an empty span at the start of the text and no comment.
    pub fn new(value: Value) -> (n: Node)
        ensures
            n.value == value,
            n.span == (Span { start: 0, end: 0 }),
            n.comment is None,
    {
        Node { value, span: Span { start: 0, end: 0 }, comment: None }
    }
}

/// The node of the first entry whose key is the string `key`.
pub open spec fn entry_lookup(es: Seq<Entry>, key: Seq<char>) -> Option<Node>
    decreases es.len(),
{
    if es.len() == 0 {
        None
    } else if es[0].key matches MapKey::Text(k) && k@ == key {
        Some(es[0].node)
    } else {
        entry_lookup(es.drop_first(), key)
    }
}

/// The child of a node named by one path segment: the entry with that
/// string key in a mapping, the item at that index in a sequence.
pub open spec fn child(n: Node, seg: Seq<char>) -> Option<Node> {
    match n.value {
        Value::Mapping(es) => entry_lookup(es@, seg),
        Value::Sequence(items) => match parse_usize(seg) {
            Some(i) => if i < items.len() {
                Some(items@[i])
            } else {
                None
            },
            None => None,
        },
        _ => None,
    }
}

/// The node reached by following the path segments in turn.
pub open spec fn descend(n: Node, segs: Seq<Seq<char>>) -> Option<Node>
    decreases segs.len(),
{
    if segs.len() == 0 {
        Some(n)
    } else {
        match child(n, segs[0]) {
            Some(c) => descend(c, segs.drop_first()),
            None => None,
        }
    }
}

/// The node a JSON pointer path (e.g. "/servers/0/port") names; the root
/// for the empty path.
pub open spec fn instance_target(n: Node, path: Seq<char>) -> Option<Node> {
    if path.len() == 0 {
        Some(n)
    } else if path[0] != '/' {
        None
    } else {
        descend(n, split_on(path.drop_first(), '/'))
    }
}

/// The node of the first entry whose key is the string `key`.
fn lookup<'a>(es: &'a Vec<Entry>, key: &str) -> (r: Option<&'a Node>)
    ensures
        deref_opt(r) == entry_lookup(es@, key@),
{
    let mut i: usize = 0;
    assert(es@.skip(0) == es@);
    while i < es.len()
        invariant
            i <= es.len(),
            entry_lookup(es@, key@) == entry_lookup(es@.skip(i as int), key@),
        decreases es.len() - i,
    {
        assert(es@.skip(i as int).drop_first() == es@.skip(i + 1));
        assert(es@.skip(i as int)[0] == es@[i as int]);
        if let MapKey::Text(k) = &es[i].key {
            if text_eq(k.as_str(), key) {
                return Some(&es[i].node);
            }
        }
        i = i + 1;
    }
    None
}

/// The child of a node named by one path segment.
fn child_of<'a>(n: &'a Node, seg: &str) -> (r: Option<&'a Node>)
    ensures
        deref_opt(r) == child(*n, seg@),
{
    match &n.value {
        Value::Mapping(es) => lookup(es, seg),
        Value::Sequence(items) => match parse_index(seg) {
            Some(i) => if i < items.len() {
                Some(&items[i])
            } else {
                None
            },
            None => None,
        },
        _ => None,
    }
}

/// Walk a JSON pointer path (e.g. "/servers/0/port") through the node tree
/// and return the span of the target node.
pub fn resolve_instance_path(node: &Node, path: &str) -> (r: Option<Span>)
    ensures
        r == match instance_target(*node, path@) {
            Some(n) => Some(n.span),
            None => None,
        },
{
    let cs = chars_of(path);
    if cs.len() == 0 {
        return Some(node.span);
    }
    if cs[0] != '/' {
        return None;
    }
    let rest = crate::strings::string_from_range(&cs, 1, cs.len());
    assert(cs@.subrange(1, cs@.len() as int) == cs@.drop_first());
    let segments = split_char(rest.as_str(), '/');
    let ghost segs = views(segments@);
    let mut current = node;
    let mut i: usize = 0;
    assert(segs.skip(0) == segs);
    while i < segments.len()
        invariant
            segs == views(segments@),
            i <= segments.len(),
            instance_target(*node, path@) == descend(*current, segs.skip(i as int)),
        decreases segments.len() - i,
    {
        assert(segs[i as int] == segments@[i as int]@);
        assert(segs.skip(i as int).drop_first() == segs.skip(i + 1));
        match child_of(current, segments[i].as_str()) {
            Some(c) => {
                current = c;
            },
            None => {
                return None;
            },
        }
        i = i + 1;
    }
    assert(segs.skip(i as int) == Seq::<Seq<char>>::empty());
    Some(current.span)
}

/// The byte offsets of a span, each clamped to the end of the text.
pub open spec fn span_offsets(b: Seq<u8>, sp: Span) -> (int, int) {
    (clamp_offset(b, sp.start as int), clamp_offset(b, sp.end as int))
}

/// Both ends of the span, clamped to the end of the text, are character
/// boundaries.
pub open spec fn span_on_boundaries(b: Seq<u8>, sp: Span) -> bool {
    at_char_boundary(b, clamp_offset(b, sp.start as int)) && at_char_boundary(
        b,
        clamp_offset(b, sp.end as int),
    )
}

/// The range has the positions of the two byte offsets.
pub open spec fn range_at(r: Range, b: Seq<u8>, o: (int, int)) -> bool {
    &&& r.start.line as int == line_col(b, o.0).0
    &&& r.start.character as int == line_col(b, o.0).1
    &&& r.end.line as int == line_col(b, o.1).0
    &&& r.end.character as int == line_col(b, o.1).1
}

/// The larger of two offsets.
pub open spec fn max_offset(o: (int, int)) -> int {
    if o.0 < o.1 {
        o.1
    } else {
        o.0
    }
}

/// Convert a byte-offset span to a range of positions in the text.
pub fn span_to_range(text: &str, span: Span) -> (r: Range)
    requires
        span_on_boundaries(text.spec_bytes(), span),
        positions_fit(text.spec_bytes(), max_offset(span_offsets(text.spec_bytes(), span))),
    ensures
        range_at(r, text.spec_bytes(), span_offsets(text.spec_bytes(), span)),
{
    let bytes = text.as_bytes();
    let start = if span.start < bytes.len() {
        span.start
    } else {
        bytes.len()
    };
    let end = if span.end < bytes.len() {
        span.end
    } else {
        bytes.len()
    };
    Range::new(position_at(bytes, start), position_at(bytes, end))
}

/// The offset of the last `:` before `end`.
pub open spec fn last_colon(b: Seq<u8>, end: int) -> Option<int>
    decreases end,
{
    if end <= 0 || end > b.len() {
        None
    } else if b[end - 1] == 58u8 {
        Some(end - 1)
    } else {
        last_colon(b, end - 1)
    }
}

/// The offset of the last byte before `end` that is neither a space nor a tab.
pub open spec fn last_non_blank(b: Seq<u8>, end: int) -> Option<int>
    decreases end,
{
    if end <= 0 || end > b.len() {
        None
    } else if b[end - 1] != 32u8 && b[end - 1] != 9u8 {
        Some(end - 1)
    } else {
        last_non_blank(b, end - 1)
    }
}

/// The byte before offset `k` ends the text before a key: line start,
/// whitespace, `{`, `,`, or the `-` of a `- ` sequence marker.
pub open spec fn delimits_key(b: Seq<u8>, k: int) -> bool {
    let c = b[k - 1];
    ||| c == 32u8 || c == 9u8 || c == 10u8 || c == 13u8 || c == 123u8 || c == 44u8
    ||| c == 45u8 && k < b.len() && (b[k] == 32u8 || b[k] == 9u8)
}

/// The offset of the last key delimiter before `end`.
pub open spec fn last_delimiter(b: Seq<u8>, end: int) -> Option<int>
    decreases end,
{
    if end <= 0 || end > b.len() {
        None
    } else if delimits_key(b, end) {
        Some(end - 1)
    } else {
        last_delimiter(b, end - 1)
    }
}

/// Where the key before the colon at `colon` starts: just after the last
/// delimiter before the key's last non-blank byte, or the start of the text.
pub open spec fn key_start(b: Seq<u8>, colon: int) -> int {
    let key_end = match last_non_blank(b, colon) {
        Some(k) => k + 1,
        None => colon,
    };
    match last_delimiter(b, key_end) {
        Some(k) => k + 1,
        None => 0,
    }
}

/// A non-empty mapping or sequence.
pub open spec fn is_block(n: Node) -> bool {
    match n.value {
        Value::Mapping(es) => es.len() > 0,
        Value::Sequence(items) => items.len() > 0,
        _ => false,
    }
}

/// The byte offsets of the hover range at `path` (see `compute_hover_range`).
pub open spec fn hover_offsets(root: Node, path: Seq<Seq<char>>, b: Seq<u8>) -> Option<(int, int)> {
    if path.len() == 0 {
        Some(span_offsets(b, root.span))
    } else {
        match descend(root, path.drop_last()) {
            Some(parent) => match parent.value {
                Value::Sequence(items) => match child(parent, path.last()) {
                    Some(item) => Some(span_offsets(b, item.span)),
                    None => None,
                },
                Value::Mapping(es) => match entry_lookup(es@, path.last()) {
                    Some(v) => match last_colon(b, v.span.start as int) {
                        Some(colon) => if is_block(v) {
                            Some((key_start(b, colon), colon + 1))
                        } else {
                            Some((key_start(b, colon), clamp_offset(b, v.span.end as int)))
                        },
                        None => None,
                    },
                    None => None,
                },
                _ => None,
            },
            None => None,
        }
    }
}

/// The spans that the hover range at `path` is read from lie where the text
/// can be cut: on character boundaries, and for a mapping value its start
/// within the text.
pub open spec fn hover_spans_ok(root: Node, path: Seq<Seq<char>>, b: Seq<u8>) -> bool {
    if path.len() == 0 {
        span_on_boundaries(b, root.span)
    } else {
        match descend(root, path.drop_last()) {
            Some(parent) => match parent.value {
                Value::Sequence(items) => match child(parent, path.last()) {
                    Some(item) => span_on_boundaries(b, item.span),
                    None => true,
                },
                Value::Mapping(es) => match entry_lookup(es@, path.last()) {
                    Some(v) => {
                        &&& v.span.start <= b.len()
                        &&& at_char_boundary(b, v.span.start as int)
                        &&& (last_colon(b, v.span.start as int) is Some && !is_block(v))
                            ==> at_char_boundary(b, clamp_offset(b, v.span.end as int))
                    },
                    None => true,
                },
                _ => true,
            },
            None => true,
        }
    }
}

fn find_last_colon(bytes: &[u8], end: usize) -> (r: Option<usize>)
    requires
        end <= bytes@.len(),
    ensures
        match r {
            Some(c) => last_colon(bytes@, end as int) == Some(c as int) && c < end,
            None => last_colon(bytes@, end as int) is None,
        },
{
    let mut k = end;
    while k > 0
        invariant
            k <= end <= bytes@.len(),
            last_colon(bytes@, end as int) == last_colon(bytes@, k as int),
        decreases k,
    {
        if bytes[k - 1] == 58 {
            return Some(k - 1);
        }
        k = k - 1;
    }
    None
}

fn find_key_start(bytes: &[u8], colon: usize) -> (r: usize)
    requires
        colon < bytes@.len(),
    ensures
        r as int == key_start(bytes@, colon as int),
        r <= colon,
{
    let mut k = colon;
    while k > 0 && (bytes[k - 1] == 32 || bytes[k - 1] == 9)
        invariant
            k <= colon < bytes@.len(),
            last_non_blank(bytes@, colon as int) == last_non_blank(bytes@, k as int),
        decreases k,
    {
        k = k - 1;
    }
    let key_end = if k == 0 {
        colon
    } else {
        k
    };
    let mut j = key_end;
    while j > 0 && !(bytes[j - 1] == 32 || bytes[j - 1] == 9 || bytes[j - 1] == 10 || bytes[j - 1]
        == 13 || bytes[j - 1] == 123 || bytes[j - 1] == 44 || (bytes[j - 1] == 45 && j < bytes.len()
        && (bytes[j] == 32 || bytes[j] == 9)))
        invariant
            j <= key_end <= colon < bytes@.len(),
            key_end as int == match last_non_blank(bytes@, colon as int) {
                Some(x) => x + 1,
                None => colon as int,
            },
            last_delimiter(bytes@, key_end as int) == last_delimiter(bytes@, j as int),
        decreases j,
    {
        j = j - 1;
    }
    j
}

/// Compute the hover highlight range for a mapping entry.
///
/// - Scalar values: highlight the whole `key: value` pair.
/// - Block values (non-empty maps and sequences): highlight just `key:`.
/// - Non-mapping paths (e.g. sequence indices): highlight the value span.
pub fn compute_hover_range(root: &Node, path: &[String], text: &str) -> (r: Option<Range>)
    requires
        hover_spans_ok(*root, views(path@), text.spec_bytes()),
        hover_offsets(*root, views(path@), text.spec_bytes()) matches Some(o) ==> positions_fit(
            text.spec_bytes(),
            max_offset(o),
        ),
    ensures
        match r {
            Some(range) => hover_offsets(*root, views(path@), text.spec_bytes()) matches Some(o)
                && range_at(range, text.spec_bytes(), o),
            None => hover_offsets(*root, views(path@), text.spec_bytes()) is None,
        },
{
    let bytes = text.as_bytes();
    let ghost p = views(path@);
    let ghost b = bytes@;
    if path.len() == 0 {
        return Some(span_to_range(text, root.span));
    }
    let n = path.len() - 1;
    let ghost ps = p.drop_last();
    let mut current = root;
    let mut i: usize = 0;
    assert(ps.skip(0) == ps);
    while i < n
        invariant
            p == views(path@),
            ps == p.drop_last(),
            n == path.len() - 1,
            i <= n,
            descend(*root, ps) == descend(*current, ps.skip(i as int)),
        decreases n - i,
    {
        assert(ps[i as int] == path@[i as int]@);
        assert(ps.skip(i as int).drop_first() == ps.skip(i + 1));
        match child_of(current, path[i].as_str()) {
            Some(c) => {
                current = c;
            },
            None => {
                return None;
            },
        }
        i = i + 1;
    }
    assert(ps.skip(i as int) == Seq::<Seq<char>>::empty());
    let last = path[n].as_str();
    assert(p.last() == last@);
    match &current.value {
        Value::Sequence(items) => {
            match child_of(current, last) {
                Some(item) => Some(span_to_range(text, item.span)),
                None => None,
            }
        },
        Value::Mapping(es) => {
            let v = match lookup(es, last) {
                Some(v) => v,
                None => {
                    return None;
                },
            };
            let colon = match find_last_colon(bytes, v.span.start) {
                Some(c) => c,
                None => {
                    return None;
                },
            };
            let ks = find_key_start(bytes, colon);
            let block = match &v.value {
                Value::Mapping(m) => m.len() > 0,
                Value::Sequence(s) => s.len() > 0,
                _ => false,
            };
            if block {
                Some(Range::new(position_at(bytes, ks), position_at(bytes, colon + 1)))
            } else {
                let end = if v.span.end < bytes.len() {
                    v.span.end
                } else {
                    bytes.len()
                };
                Some(Range::new(position_at(bytes, ks), position_at(bytes, end)))
            }
        },
        _ => None,
    }
}

proof fn lemma_last_colon_is_colon(b: Seq<u8>, end: int)
    ensures
        last_colon(b, end) matches Some(c) ==> 0 <= c < end && b[c] == 58u8,
    decreases end,
{
    if end > 0 && end <= b.len() && b[end - 1] != 58u8 {
        lemma_last_colon_is_colon(b, end - 1);
    }
}

/// Where the hover range of a mapping entry ends: for a value that is a
/// non-empty mapping or sequence, just after a `:` at or before the value's
/// start (the `key:` alone); for any other value, a scalar or an empty
/// collection, at the end of the value's span (the whole `key: value`).
pub proof fn lemma_hover_range_end(root: Node, path: Seq<Seq<char>>, b: Seq<u8>, parent: Node, v: Node)
    requires
        path.len() > 0,
        descend(root, path.drop_last()) == Some(parent),
        parent.value matches Value::Mapping(es) && entry_lookup(es@, path.last()) == Some(v),
    ensures
        hover_offsets(root, path, b) matches Some(o) ==> if (match v.value {
            Value::Mapping(m) => m.len() > 0,
            Value::Sequence(items) => items.len() > 0,
            _ => false,
        }) {
            0 < o.1 <= v.span.start && b[o.1 - 1] == 58u8
        } else {
            o.1 == clamp_offset(b, v.span.end as int)
        },
{
    lemma_last_colon_is_colon(b, v.span.start as int);
}

} // verus!
