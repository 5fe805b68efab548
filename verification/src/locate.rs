//! Which value of the document a byte offset is about, as a path of keys
//! and indices from the root.
use vstd::prelude::*;

use crate::convert::{key_text, key_to_text, nat_text, push_nat_text};
use crate::document::{Entry, Node, Value};
use crate::strings::views;

verus! {

/// The offset lies within the span, both ends included.
pub open spec fn spans(n: Node, o: int) -> bool {
    n.span.start <= o <= n.span.end
}

/// The index of the first entry from `i` on whose value ends at or after
/// `o`: the entry that a position before its value (on its key) or inside
/// it is about.
pub open spec fn entry_reaching(es: Seq<Entry>, o: int, i: int) -> Option<int>
    decreases es.len() - i,
{
    if i < 0 || i >= es.len() {
        None
    } else if o <= es[i].node.span.end {
        Some(i)
    } else {
        entry_reaching(es, o, i + 1)
    }
}

/// The index of the first item from `i` on that ends at or after `o`.
pub open spec fn item_reaching(items: Seq<Node>, o: int, i: int) -> Option<int>
    decreases items.len() - i,
{
    if i < 0 || i >= items.len() {
        None
    } else if o <= items[i].span.end {
        Some(i)
    } else {
        item_reaching(items, o, i + 1)
    }
}

/// The path to the innermost value an offset is about: inside a mapping or
/// sequence whose span holds the offset, the key or index of the first
/// entry or item that reaches it, followed by the path within that value.
pub open spec fn path_at(n: Node, o: int) -> Seq<Seq<char>>
    decreases n,
{
    if !spans(n, o) {
        Seq::empty()
    } else {
        match n.value {
            Value::Mapping(es) => match entry_reaching(es@, o, 0) {
                Some(i) => if 0 <= i < es@.len() {
                    proof {
                        assert(decreases_to!(n => n.value));
                        assert(decreases_to!(n.value => es));
                        assert(decreases_to!(es => es@));
                        assert(decreases_to!(es@ => es@[i]));
                        assert(decreases_to!(es@[i] => es@[i].node));
                    }
                    seq![key_text(es@[i].key)] + path_at(es@[i].node, o)
                } else {
                    Seq::empty()
                },
                None => Seq::empty(),
            },
            Value::Sequence(items) => match item_reaching(items@, o, 0) {
                Some(i) => if 0 <= i < items@.len() {
                    proof {
                        assert(decreases_to!(n => n.value));
                        assert(decreases_to!(n.value => items));
                        assert(decreases_to!(items => items@));
                        assert(decreases_to!(items@ => items@[i]));
                    }
                    seq![nat_text(i as nat)] + path_at(items@[i], o)
                } else {
                    Seq::empty()
                },
                None => Seq::empty(),
            },
            _ => Seq::empty(),
        }
    }
}

fn find_entry(es: &Vec<Entry>, o: usize) -> (r: Option<usize>)
    ensures
        match r {
            Some(i) => entry_reaching(es@, o as int, 0) == Some(i as int) && i < es.len(),
            None => entry_reaching(es@, o as int, 0) is None,
        },
{
    let mut i: usize = 0;
    while i < es.len()
        invariant
            i <= es.len(),
            entry_reaching(es@, o as int, 0) == entry_reaching(es@, o as int, i as int),
        decreases es.len() - i,
    {
        if o <= es[i].node.span.end {
            return Some(i);
        }
        i = i + 1;
    }
    None
}

fn find_item(items: &Vec<Node>, o: usize) -> (r: Option<usize>)
    ensures
        match r {
            Some(i) => item_reaching(items@, o as int, 0) == Some(i as int) && i < items.len(),
            None => item_reaching(items@, o as int, 0) is None,
        },
{
    let mut i: usize = 0;
    while i < items.len()
        invariant
            i <= items.len(),
            item_reaching(items@, o as int, 0) == item_reaching(items@, o as int, i as int),
        decreases items.len() - i,
    {
        if o <= items[i].span.end {
            return Some(i);
        }
        i = i + 1;
    }
    None
}

/// Appends the path within `n` that the offset is about.
fn push_path(n: &Node, o: usize, out: &mut Vec<String>)
    ensures
        views(final(out)@) == views(old(out)@) + path_at(*n, o as int),
    decreases n,
{
    if o < n.span.start || o > n.span.end {
        assert(views(out@) == views(out@) + Seq::<Seq<char>>::empty());
        return;
    }
    match &n.value {
        Value::Mapping(es) => match find_entry(es, o) {
            Some(i) => {
                assert(decreases_to!(*n => n.value));
                assert(decreases_to!(n.value => *es));
                assert(decreases_to!(*es => es@));
                assert(decreases_to!(es@ => es@[i as int]));
                assert(decreases_to!(es@[i as int] => es@[i as int].node));
                let key = key_to_text(&es[i].key);
                let ghost before = views(out@);
                let ghost kv = key@;
                out.push(key);
                assert(views(out@) == before.push(kv));
                push_path(&es[i].node, o, out);
                assert(before.push(kv) + path_at(es@[i as int].node, o as int) == before + (seq![kv]
                    + path_at(es@[i as int].node, o as int)));
            },
            None => {
                assert(views(out@) == views(out@) + Seq::<Seq<char>>::empty());
            },
        },
        Value::Sequence(items) => match find_item(items, o) {
            Some(i) => {
                assert(decreases_to!(*n => n.value));
                assert(decreases_to!(n.value => *items));
                assert(decreases_to!(*items => items@));
                assert(decreases_to!(items@ => items@[i as int]));
                let mut seg = String::new();
                push_nat_text(i as u64, &mut seg);
                assert(seg@ == nat_text(i as nat));
                let ghost before = views(out@);
                let ghost kv = seg@;
                out.push(seg);
                assert(views(out@) == before.push(kv));
                push_path(&items[i], o, out);
                assert(before.push(kv) + path_at(items@[i as int], o as int) == before + (seq![kv]
                    + path_at(items@[i as int], o as int)));
            },
            None => {
                assert(views(out@) == views(out@) + Seq::<Seq<char>>::empty());
            },
        },
        _ => {
            assert(views(out@) == views(out@) + Seq::<Seq<char>>::empty());
        },
    }
}

/// The path of keys and indices from the root to the innermost value that
/// the byte offset is about (see `path_at`); empty for the root itself.
pub fn path_at_offset(node: &Node, offset: usize) -> (r: Vec<String>)
    ensures
        views(r@) == path_at(*node, offset as int),
{
    let mut out: Vec<String> = Vec::new();
    push_path(node, offset, &mut out);
    assert(views(Seq::<String>::empty()) == Seq::<Seq<char>>::empty());
    out
}

} // verus!
