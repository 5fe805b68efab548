//! The JSON form of a document tree, which schema validation checks.
//!
//! JSON has no numbers for infinities or NaN; those become the strings that
//! AYML writes for them (`inf`, `-inf`, `nan`), so that validation sees a
//! string rather than null.
use vstd::prelude::*;

use crate::document::{Entry, FloatValue, MapKey, Node, Value};
use crate::json::{Json, Member};
use crate::strings::{push_char, to_string};

verus! {

/// The decimal digit `d` as a character.
pub open spec fn digit_char(d: int) -> char {
    (48 + d) as char
}

/// The decimal text of a natural number, without leading zeros.
pub open spec fn nat_text(n: nat) -> Seq<char>
    decreases n,
{
    if n < 10 {
        seq![digit_char(n as int)]
    } else {
        nat_text(n / 10).push(digit_char((n % 10) as int))
    }
}

/// The decimal text of an integer, with a leading `-` when it is negative.
pub open spec fn int_text(i: int) -> Seq<char> {
    if i < 0 {
        seq!['-'] + nat_text((-i) as nat)
    } else {
        nat_text(i as nat)
    }
}

/// The text of a mapping key.
pub open spec fn key_text(k: MapKey) -> Seq<char> {
    match k {
        MapKey::Text(s) => s@,
        MapKey::Scalar(t) => t@,
    }
}

/// `j` is the JSON form of a float: the strings `nan`, `inf`, `-inf`, or the
/// number itself.
pub open spec fn float_json(f: FloatValue, j: Json) -> bool {
    match f {
        FloatValue::Nan => j matches Json::Str(s) && s@ == "nan"@,
        FloatValue::Infinity => j matches Json::Str(s) && s@ == "inf"@,
        FloatValue::NegInfinity => j matches Json::Str(s) && s@ == "-inf"@,
        FloatValue::Finite(t) => j matches Json::Number(u) && u@ == t@,
    }
}

/// `j` is the JSON form of the value `v`: null, booleans and strings as they
/// are, integers as decimal numbers, floats as `float_json` says, sequences
/// as arrays and mappings as objects keyed by the keys' text, element by
/// element and in order; comments are left out.
pub open spec fn value_json(v: Value, j: Json) -> bool
    decreases v,
{
    match v {
        Value::Null => j is Null,
        Value::Bool(b) => j matches Json::Bool(c) && c == b,
        Value::Int(i) => j matches Json::Number(t) && t@ == int_text(i as int),
        Value::Float(f) => float_json(f, j),
        Value::Str(s) => j matches Json::Str(t) && t@ == s@,
        Value::Sequence(items) => j matches Json::Array(js) && nodes_json(items@, js@),
        Value::Mapping(es) => j matches Json::Object(ms) && entries_json(es@, ms@),
    }
}

/// Each of `js` is the JSON form of the node at the same place in `items`.
pub open spec fn nodes_json(items: Seq<Node>, js: Seq<Json>) -> bool
    decreases items,
{
    &&& items.len() == js.len()
    &&& items.len() > 0 ==> {
        &&& nodes_json(items.drop_last(), js.drop_last())
        &&& value_json(items.last().value, js.last())
    }
}

/// Each of `ms` has the key text and the JSON form of the node of the entry
/// at the same place in `es`.
pub open spec fn entries_json(es: Seq<Entry>, ms: Seq<Member>) -> bool
    decreases es,
{
    &&& es.len() == ms.len()
    &&& es.len() > 0 ==> {
        &&& entries_json(es.drop_last(), ms.drop_last())
        &&& ms.last().key@ == key_text(es.last().key)
        &&& value_json(es.last().node.value, ms.last().value)
    }
}

/// Appends the decimal text of `n`.
pub(crate) fn push_nat_text(n: u64, out: &mut String)
    ensures
        final(out)@ == old(out)@ + nat_text(n as nat),
    decreases n,
{
    if n >= 10 {
        push_nat_text(n / 10, out);
    }
    let d = (n % 10) as u8;
    push_char(out, (48u8 + d) as char);
}

/// The decimal text of an integer.
fn int_to_text(i: i64) -> (r: String)
    ensures
        r@ == int_text(i as int),
{
    let mut out = String::new();
    if i < 0 {
        push_char(&mut out, '-');
        let m = (-(i as i128)) as u64;
        push_nat_text(m, &mut out);
    } else {
        push_nat_text(i as u64, &mut out);
    }
    out
}

/// The text of a mapping key.
pub(crate) fn key_to_text(k: &MapKey) -> (r: String)
    ensures
        r@ == key_text(*k),
{
    match k {
        MapKey::Text(s) => to_string(s.as_str()),
        MapKey::Scalar(t) => to_string(t.as_str()),
    }
}

/// Convert a node into JSON, discarding comments.
pub fn node_to_json(node: &Node) -> (j: Json)
    ensures
        value_json(node.value, j),
{
    value_to_json(&node.value)
}

fn value_to_json(value: &Value) -> (j: Json)
    ensures
        value_json(*value, j),
    decreases value,
{
    match value {
        Value::Null => Json::Null,
        Value::Bool(b) => Json::Bool(*b),
        Value::Int(i) => Json::Number(int_to_text(*i)),
        Value::Float(f) => match f {
            FloatValue::Nan => Json::Str(to_string("nan")),
            FloatValue::Infinity => Json::Str(to_string("inf")),
            FloatValue::NegInfinity => Json::Str(to_string("-inf")),
            FloatValue::Finite(t) => Json::Number(to_string(t.as_str())),
        },
        Value::Str(s) => Json::Str(to_string(s.as_str())),
        Value::Sequence(items) => {
            let mut out: Vec<Json> = Vec::new();
            let mut i: usize = 0;
            while i < items.len()
                invariant
                    i <= items.len(),
                    *value == Value::Sequence(*items),
                    nodes_json(items@.take(i as int), out@),
                decreases items.len() - i,
            {
                assert(decreases_to!(*value => (*value)->Sequence_0));
                assert(decreases_to!(*items => items@));
                assert(decreases_to!(items@ => items@[i as int]));
                assert(decreases_to!(items@[i as int] => items@[i as int].value));
                let j = value_to_json(&items[i].value);
                let ghost before = out@;
                out.push(j);
                assert(items@.take(i + 1).drop_last() == items@.take(i as int));
                assert(out@.drop_last() == before);
                i = i + 1;
            }
            assert(items@.take(items.len() as int) == items@);
            Json::Array(out)
        },
        Value::Mapping(es) => {
            let mut out: Vec<Member> = Vec::new();
            let mut i: usize = 0;
            while i < es.len()
                invariant
                    i <= es.len(),
                    *value == Value::Mapping(*es),
                    entries_json(es@.take(i as int), out@),
                decreases es.len() - i,
            {
                assert(decreases_to!(*value => (*value)->Mapping_0));
                assert(decreases_to!(*es => es@));
                assert(decreases_to!(es@ => es@[i as int]));
                assert(decreases_to!(es@[i as int] => es@[i as int].node));
                assert(decreases_to!(es@[i as int].node => es@[i as int].node.value));
                let v = value_to_json(&es[i].node.value);
                let key = key_to_text(&es[i].key);
                let ghost before = out@;
                out.push(Member { key, value: v });
                assert(es@.take(i + 1).drop_last() == es@.take(i as int));
                assert(out@.drop_last() == before);
                i = i + 1;
            }
            assert(es@.take(es.len() as int) == es@);
            Json::Object(out)
        },
    }
}

/// Two floats that convert alike.
pub open spec fn same_float(f: FloatValue, g: FloatValue) -> bool {
    match (f, g) {
        (FloatValue::Nan, FloatValue::Nan) => true,
        (FloatValue::Infinity, FloatValue::Infinity) => true,
        (FloatValue::NegInfinity, FloatValue::NegInfinity) => true,
        (FloatValue::Finite(a), FloatValue::Finite(b)) => a@ == b@,
        _ => false,
    }
}

/// Two values that hold the same data, whatever the comments and spans of
/// the nodes within them.
pub open spec fn same_content(v: Value, w: Value) -> bool
    decreases v,
{
    match (v, w) {
        (Value::Null, Value::Null) => true,
        (Value::Bool(a), Value::Bool(b)) => a == b,
        (Value::Int(a), Value::Int(b)) => a == b,
        (Value::Float(a), Value::Float(b)) => same_float(a, b),
        (Value::Str(a), Value::Str(b)) => a@ == b@,
        (Value::Sequence(xs), Value::Sequence(ys)) => same_nodes(xs@, ys@),
        (Value::Mapping(xs), Value::Mapping(ys)) => same_entries(xs@, ys@),
        _ => false,
    }
}

/// Node by node, the same data.
pub open spec fn same_nodes(xs: Seq<Node>, ys: Seq<Node>) -> bool
    decreases xs,
{
    &&& xs.len() == ys.len()
    &&& xs.len() > 0 ==> {
        &&& same_nodes(xs.drop_last(), ys.drop_last())
        &&& same_content(xs.last().value, ys.last().value)
    }
}

/// Entry by entry, the same key text and the same data.
pub open spec fn same_entries(xs: Seq<Entry>, ys: Seq<Entry>) -> bool
    decreases xs,
{
    &&& xs.len() == ys.len()
    &&& xs.len() > 0 ==> {
        &&& same_entries(xs.drop_last(), ys.drop_last())
        &&& key_text(xs.last().key) == key_text(ys.last().key)
        &&& same_content(xs.last().node.value, ys.last().node.value)
    }
}

proof fn lemma_same_value_json(v: Value, w: Value, j: Json)
    requires
        same_content(v, w),
    ensures
        value_json(v, j) == value_json(w, j),
    decreases v,
{
    match (v, w) {
        (Value::Sequence(xs), Value::Sequence(ys)) => {
            if let Json::Array(js) = j {
                lemma_same_nodes_json(xs@, ys@, js@);
            }
        },
        (Value::Mapping(xs), Value::Mapping(ys)) => {
            if let Json::Object(ms) = j {
                lemma_same_entries_json(xs@, ys@, ms@);
            }
        },
        _ => {},
    }
}

proof fn lemma_same_nodes_json(xs: Seq<Node>, ys: Seq<Node>, js: Seq<Json>)
    requires
        same_nodes(xs, ys),
    ensures
        nodes_json(xs, js) == nodes_json(ys, js),
    decreases xs,
{
    if xs.len() > 0 {
        lemma_same_nodes_json(xs.drop_last(), ys.drop_last(), js.drop_last());
        lemma_same_value_json(xs.last().value, ys.last().value, js.last());
    }
}

proof fn lemma_same_entries_json(xs: Seq<Entry>, ys: Seq<Entry>, ms: Seq<Member>)
    requires
        same_entries(xs, ys),
    ensures
        entries_json(xs, ms) == entries_json(ys, ms),
    decreases xs,
{
    if xs.len() > 0 {
        lemma_same_entries_json(xs.drop_last(), ys.drop_last(), ms.drop_last());
        lemma_same_value_json(xs.last().node.value, ys.last().node.value, ms.last().value);
    }
}

/// Comments and spans do not change the JSON form: two nodes that hold the
/// same data have the same JSON forms.
pub proof fn lemma_json_ignores_comments_and_spans(n: Node, m: Node, j: Json)
    requires
        same_content(n.value, m.value),
    ensures
        value_json(n.value, j) == value_json(m.value, j),
{
    lemma_same_value_json(n.value, m.value, j);
}

} // verus!
