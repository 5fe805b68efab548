//! JSON values: the schema documents that hover text is drawn from, and the
//! data that schema validation checks.
use vstd::prelude::*;

use crate::strings::{join, push_str, views};

verus! {

/// A JSON value. A number is held as its JSON text; an object keeps its
/// members in order.
#[derive(Debug)]
pub enum Json {
    Null,
    Bool(bool),
    Number(String),
    Str(String),
    Array(Vec<Json>),
    Object(Vec<Member>),
}

/// A member of a JSON object.
#[derive(Debug)]
pub struct Member {
    pub key: String,
    pub value: Json,
}

/// The value of an optional reference.
pub open spec fn deref_opt<T>(r: Option<&T>) -> Option<T> {
    match r {
        Some(v) => Some(*v),
        None => None,
    }
}

/// The characters of an optional string slice.
pub open spec fn str_opt(r: Option<&str>) -> Option<Seq<char>> {
    match r {
        Some(s) => Some(s@),
        None => None,
    }
}

/// The elements of an optional array.
pub open spec fn vec_opt(r: Option<&Vec<Json>>) -> Option<Seq<Json>> {
    match r {
        Some(v) => Some(v@),
        None => None,
    }
}

/// The value of the first member of `ms` whose key is `key`.
pub open spec fn member_get(ms: Seq<Member>, key: Seq<char>) -> Option<Json>
    decreases ms.len(),
{
    if ms.len() == 0 {
        None
    } else if ms[0].key@ == key {
        Some(ms[0].value)
    } else {
        member_get(ms.drop_first(), key)
    }
}

/// The member `key` of an object; nothing for any other value.
pub open spec fn json_get(j: Json, key: Seq<char>) -> Option<Json> {
    match j {
        Json::Object(ms) => member_get(ms@, key),
        _ => None,
    }
}

/// The characters of a string value.
pub open spec fn json_as_str(j: Json) -> Option<Seq<char>> {
    match j {
        Json::Str(s) => Some(s@),
        _ => None,
    }
}

/// The elements of an array value.
pub open spec fn json_as_array(j: Json) -> Option<Seq<Json>> {
    match j {
        Json::Array(items) => Some(items@),
        _ => None,
    }
}

/// The member `key`, when it is a string.
pub open spec fn get_str(j: Json, key: Seq<char>) -> Option<Seq<char>> {
    match json_get(j, key) {
        Some(v) => json_as_str(v),
        None => None,
    }
}

/// The member `key`, when it is an array.
pub open spec fn get_array(j: Json, key: Seq<char>) -> Option<Seq<Json>> {
    match json_get(j, key) {
        Some(v) => json_as_array(v),
        None => None,
    }
}

/// A hexadecimal digit in lower case.
pub open spec fn hex_digit(d: u32) -> char {
    if d < 10 {
        (48 + d) as char
    } else {
        (87 + d) as char
    }
}

/// How a character is written inside a JSON string literal.
pub open spec fn escape_char(c: char) -> Seq<char> {
    if c == '"' {
        seq!['\\', '"']
    } else if c == '\\' {
        seq!['\\', '\\']
    } else if c == '\x08' {
        seq!['\\', 'b']
    } else if c == '\x0c' {
        seq!['\\', 'f']
    } else if c == '\n' {
        seq!['\\', 'n']
    } else if c == '\r' {
        seq!['\\', 'r']
    } else if c == '\t' {
        seq!['\\', 't']
    } else if (c as u32) < 32 {
        seq!['\\', 'u', '0', '0', hex_digit((c as u32) / 16), hex_digit((c as u32) % 16)]
    } else {
        seq![c]
    }
}

/// The characters of `s`, each written as in a JSON string literal.
pub open spec fn escape_all(s: Seq<char>) -> Seq<char>
    decreases s.len(),
{
    if s.len() == 0 {
        Seq::<char>::empty()
    } else {
        escape_all(s.drop_last()) + escape_char(s.last())
    }
}

/// `s` as a JSON string literal.
pub open spec fn json_string_literal(s: Seq<char>) -> Seq<char> {
    seq!['"'] + escape_all(s) + seq!['"']
}

/// The compact JSON text of a value: no whitespace, members in order.
pub open spec fn json_text(j: Json) -> Seq<char>
    decreases j,
{
    match j {
        Json::Null => "null"@,
        Json::Bool(b) => if b {
            "true"@
        } else {
            "false"@
        },
        Json::Number(t) => t@,
        Json::Str(s) => json_string_literal(s@),
        Json::Array(items) => seq!['['] + join(items_texts(items@), seq![',']) + seq![']'],
        Json::Object(ms) => seq!['{'] + join(members_texts(ms@), seq![',']) + seq!['}'],
    }
}

/// The texts of a sequence of values.
pub open spec fn items_texts(s: Seq<Json>) -> Seq<Seq<char>>
    decreases s,
{
    if s.len() == 0 {
        Seq::<Seq<char>>::empty()
    } else {
        items_texts(s.drop_last()).push(json_text(s.last()))
    }
}

/// The texts of a sequence of members: key, colon, value.
pub open spec fn members_texts(s: Seq<Member>) -> Seq<Seq<char>>
    decreases s,
{
    if s.len() == 0 {
        Seq::<Seq<char>>::empty()
    } else {
        members_texts(s.drop_last()).push(
            json_string_literal(s.last().key@) + seq![':'] + json_text(s.last().value),
        )
    }
}

/// Writes a string as a JSON string literal.
///
/// Calls serde_json's `Display` for `Value::String`, which writes the string
/// between double quotes and escapes `"`, `\`, and every character below
/// U+0020 as its source's escape table does: `\b`, `\f`, `\n`, `\r`, `\t`, or
/// `\u00` and two lower-case hex digits; all other characters are written as
/// they are. The contract states that table.
#[verifier::external_body]
fn json_quote(s: &str) -> (r: String)
    ensures
        r@ == json_string_literal(s@),
{
    serde_json::Value::String(s.to_string()).to_string()
}

impl Json {
    /// The member `key` of an object; `None` for any other value.
    pub fn get(&self, key: &str) -> (r: Option<&Json>)
        ensures
            deref_opt(r) == json_get(*self, key@),
    {
        match self {
            Json::Object(ms) => {
                let mut i: usize = 0;
                assert(ms@.skip(0) == ms@);
                while i < ms.len()
                    invariant
                        i <= ms.len(),
                        json_get(*self, key@) == member_get(ms@, key@),
                        member_get(ms@, key@) == member_get(ms@.skip(i as int), key@),
                    decreases ms.len() - i,
                {
                    assert(ms@.skip(i as int).drop_first() == ms@.skip(i + 1));
                    if crate::strings::text_eq(ms[i].key.as_str(), key) {
                        return Some(&ms[i].value);
                    }
                    i = i + 1;
                }
                None
            },
            _ => None,
        }
    }

    /// The characters of a string value.
    pub fn as_str(&self) -> (r: Option<&str>)
        ensures
            str_opt(r) == json_as_str(*self),
    {
        match self {
            Json::Str(s) => Some(s.as_str()),
            _ => None,
        }
    }

    /// The elements of an array value.
    pub fn as_array(&self) -> (r: Option<&Vec<Json>>)
        ensures
            vec_opt(r) == json_as_array(*self),
    {
        match self {
            Json::Array(items) => Some(items),
            _ => None,
        }
    }

    /// Whether the value is an object.
    pub fn is_object(&self) -> (r: bool)
        ensures
            r == (*self is Object),
    {
        match self {
            Json::Object(_) => true,
            _ => false,
        }
    }

    /// The member `key`, when it is a string.
    pub fn get_str(&self, key: &str) -> (r: Option<&str>)
        ensures
            str_opt(r) == get_str(*self, key@),
    {
        match self.get(key) {
            Some(v) => v.as_str(),
            None => None,
        }
    }

    /// The member `key`, when it is an array.
    pub fn get_array(&self, key: &str) -> (r: Option<&Vec<Json>>)
        ensures
            vec_opt(r) == get_array(*self, key@),
    {
        match self.get(key) {
            Some(v) => v.as_array(),
            None => None,
        }
    }

    /// The compact JSON text of the value.
    pub fn to_text(&self) -> (r: String)
        ensures
            r@ == json_text(*self),
    {
        let mut out = String::new();
        write_text(self, &mut out);
        out
    }
}

/// Appends the compact JSON text of `j` to `out`.
fn write_text(j: &Json, out: &mut String)
    ensures
        final(out)@ == old(out)@ + json_text(*j),
    decreases j,
{
    match j {
        Json::Null => push_str(out, "null"),
        Json::Bool(b) => if *b {
            push_str(out, "true")
        } else {
            push_str(out, "false")
        },
        Json::Number(t) => push_str(out, t.as_str()),
        Json::Str(s) => {
            let q = json_quote(s.as_str());
            push_str(out, q.as_str());
        },
        Json::Array(items) => {
            let ghost start = out@;
            push_str(out, "[");
                proof {
                    reveal_strlit("[");
                }
            let mut i: usize = 0;
            while i < items.len()
                invariant
                    i <= items.len(),
                    *j == Json::Array(*items),
                    out@ == start + seq!['['] + join(items_texts(items@.take(i as int)), seq![',']),
                decreases items.len() - i,
            {
                assert(items@.take(i + 1).drop_last() == items@.take(i as int));
                assert(items_texts(items@.take(i + 1)).drop_last() == items_texts(items@.take(i as int)));
                if i > 0 {
                    push_str(out, ",");
                proof {
                    reveal_strlit(",");
                }
                }
                assert(decreases_to!(*j => (*j)->Array_0));
                assert(decreases_to!(*items => items@));
                assert(decreases_to!(items@ => items@[i as int]));
                assert(decreases_to!(*j => items@[i as int]));
                write_text(&items[i], out);
                i = i + 1;
            }
            assert(items@.take(items.len() as int) == items@);
            push_str(out, "]");
                proof {
                    reveal_strlit("]");
                }
        },
        Json::Object(ms) => {
            let ghost start = out@;
            push_str(out, "{");
                proof {
                    reveal_strlit("{");
                }
            let mut i: usize = 0;
            while i < ms.len()
                invariant
                    i <= ms.len(),
                    *j == Json::Object(*ms),
                    out@ == start + seq!['{'] + join(members_texts(ms@.take(i as int)), seq![',']),
                decreases ms.len() - i,
            {
                assert(ms@.take(i + 1).drop_last() == ms@.take(i as int));
                assert(members_texts(ms@.take(i + 1)).drop_last() == members_texts(ms@.take(i as int)));
                if i > 0 {
                    push_str(out, ",");
                proof {
                    reveal_strlit(",");
                }
                }
                let q = json_quote(ms[i].key.as_str());
                push_str(out, q.as_str());
                push_str(out, ":");
                proof {
                    reveal_strlit(":");
                }
                assert(decreases_to!(*j => (*j)->Object_0));
                assert(decreases_to!(*ms => ms@));
                assert(decreases_to!(ms@ => ms@[i as int]));
                assert(decreases_to!(ms@[i as int] => ms@[i as int].value));
                assert(decreases_to!(*j => ms@[i as int].value));
                write_text(&ms[i].value, out);
                i = i + 1;
            }
            assert(ms@.take(ms.len() as int) == ms@);
            push_str(out, "}");
                proof {
                    reveal_strlit("}");
                }
        },
    }
}

} // verus!
