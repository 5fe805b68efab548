//! Walking a JSON Schema: the sub-schema at a path of keys and indices, the
//! type it describes, and the hover text drawn from it.
//!
//! A local `$ref` may point anywhere in the root schema, so the walk need not
//! end: a schema can refer to itself. The functions that may recurse through
//! `$ref` are specified with a fuel bound, and their callers require that
//! some fuel suffices, that is, that the walk ends.
use vstd::prelude::*;

use crate::json::{
    deref_opt, get_array, get_str, json_as_array, json_as_str, json_get, json_text, vec_opt, Json,
};
use crate::strings::{
    chars_of, concat2, concat3, is_digit, join, join_strings, parse_index, parse_usize, replace_pair,
    replace_pair_of, split_char, split_on, string_from_range, text_eq, to_string, views,
};

verus! {

/// A JSON pointer segment with `~1` read as `/` and then `~0` read as `~`.
pub open spec fn unescape_segment(s: Seq<char>) -> Seq<char> {
    replace_pair(replace_pair(s, '~', '1', '/'), '~', '0', '~')
}

/// An array index in a JSON pointer: decimal digits without a leading zero
/// (but `0` itself), with a value that fits in `usize`.
pub open spec fn array_index(s: Seq<char>) -> Option<int> {
    if s.len() > 0 && is_digit(s[0]) && (s.len() == 1 || s[0] != '0') {
        parse_usize(s)
    } else {
        None
    }
}

/// One step of a JSON pointer: the element at the index the segment names
/// in an array, the member it names in an object.
pub open spec fn pointer_step(j: Json, seg: Seq<char>) -> Option<Json> {
    match j {
        Json::Array(items) => match array_index(seg) {
            Some(i) => if i < items.len() {
                Some(items@[i])
            } else {
                None
            },
            None => None,
        },
        _ => json_get(j, seg),
    }
}

/// The value reached from `j` by following the (escaped) segments in turn.
pub open spec fn walk_members(j: Json, segs: Seq<Seq<char>>) -> Option<Json>
    decreases segs.len(),
{
    if segs.len() == 0 {
        Some(j)
    } else {
        match pointer_step(j, unescape_segment(segs[0])) {
            Some(n) => walk_members(n, segs.drop_first()),
            None => None,
        }
    }
}

/// The value a local JSON pointer (the part of a `$ref` after `#`) names in `root`.
pub open spec fn pointer_target(root: Json, p: Seq<char>) -> Option<Json> {
    if p.len() == 0 || p == seq!['/'] {
        Some(root)
    } else if p[0] != '/' {
        None
    } else {
        walk_members(root, split_on(p.drop_first(), '/'))
    }
}

/// The schema itself, or the target of its local `$ref` when it has one that
/// can be followed.
pub open spec fn resolve_ref(root: Json, schema: Json) -> Json {
    match get_str(schema, "$ref"@) {
        Some(r) => if r.len() > 0 && r[0] == '#' {
            match pointer_target(root, r.drop_first()) {
                Some(t) => t,
                None => schema,
            }
        } else {
            schema
        },
        None => schema,
    }
}

/// One step into a schema without composition: `properties/<segment>`, then
/// `items` for a segment that reads as an index, then `additionalProperties`
/// when it is an object schema.
pub open spec fn step_direct(schema: Json, seg: Seq<char>) -> Option<Json> {
    let prop = match json_get(schema, "properties"@) {
        Some(p) => json_get(p, seg),
        None => None,
    };
    if prop is Some {
        prop
    } else if parse_usize(seg) is Some && json_get(schema, "items"@) is Some {
        json_get(schema, "items"@)
    } else {
        match json_get(schema, "additionalProperties"@) {
            Some(a) => if a is Object {
                Some(a)
            } else {
                None
            },
            None => None,
        }
    }
}

/// The elements of an optional array, or none.
pub open spec fn array_or_empty(a: Option<Seq<Json>>) -> Seq<Json> {
    match a {
        Some(s) => s,
        None => Seq::<Json>::empty(),
    }
}

/// One step into a schema, through `allOf`, then `anyOf`, then `oneOf` when
/// the direct step fails. `None` when `fuel` runs out; otherwise the step's
/// result.
pub open spec fn step_f(root: Json, schema: Json, seg: Seq<char>, fuel: nat) -> Option<Option<Json>>
    decreases fuel, 0nat,
{
    if fuel == 0 {
        None
    } else {
        match step_direct(schema, seg) {
            Some(n) => Some(Some(n)),
            None => {
                let f = (fuel - 1) as nat;
                match step_list_f(root, array_or_empty(get_array(schema, "allOf"@)), seg, f) {
                    Some(None) => match step_list_f(
                        root,
                        array_or_empty(get_array(schema, "anyOf"@)),
                        seg,
                        f,
                    ) {
                        Some(None) => step_list_f(
                            root,
                            array_or_empty(get_array(schema, "oneOf"@)),
                            seg,
                            f,
                        ),
                        other => other,
                    },
                    other => other,
                }
            },
        }
    }
}

/// The first of the (resolved) sub-schemas that a step succeeds in.
pub open spec fn step_list_f(root: Json, subs: Seq<Json>, seg: Seq<char>, fuel: nat) -> Option<
    Option<Json>,
>
    decreases fuel, subs.len() + 1,
{
    if subs.len() == 0 {
        Some(None)
    } else {
        match step_f(root, resolve_ref(root, subs[0]), seg, fuel) {
            Some(None) => step_list_f(root, subs.drop_first(), seg, fuel),
            other => other,
        }
    }
}

/// The sub-schema at `path`, resolving `$ref` before each step and at the end.
pub open spec fn walk_f(root: Json, schema: Json, path: Seq<Seq<char>>, fuel: nat) -> Option<
    Option<Json>,
>
    decreases path.len(),
{
    if path.len() == 0 {
        Some(Some(resolve_ref(root, schema)))
    } else {
        match step_f(root, resolve_ref(root, schema), path[0], fuel) {
            Some(Some(n)) => walk_f(root, n, path.drop_first(), fuel),
            other => other,
        }
    }
}

/// The characters of each segment of a path.
pub open spec fn path_views(path: Seq<&str>) -> Seq<Seq<char>> {
    path.map_values(|s: &str| s@)
}

/// The walk to the sub-schema at `path` ends.
pub open spec fn sub_schema_defined(root: Json, path: Seq<Seq<char>>) -> bool {
    exists|f: nat| (#[trigger] walk_f(root, root, path, f)) is Some
}

/// The sub-schema at `path`, when the walk there ends.
pub open spec fn sub_schema(root: Json, path: Seq<Seq<char>>) -> Option<Json> {
    walk_f(root, root, path, choose|f: nat| (#[trigger] walk_f(root, root, path, f)) is Some)->0
}

/// One step of a JSON pointer.
fn pointer_child<'a>(j: &'a Json, seg: &str) -> (r: Option<&'a Json>)
    ensures
        deref_opt(r) == pointer_step(*j, seg@),
{
    match j {
        Json::Array(items) => {
            let cs = chars_of(seg);
            if cs.len() == 0 || cs[0] < '0' || cs[0] > '9' || (cs.len() > 1 && cs[0] == '0') {
                return None;
            }
            match parse_index(seg) {
                Some(i) => if i < items.len() {
                    Some(&items[i])
                } else {
                    None
                },
                None => None,
            }
        },
        _ => j.get(seg),
    }
}

/// Look up a JSON pointer (e.g. "/definitions/Foo") in a JSON value.
fn pointer_lookup<'a>(root: &'a Json, pointer: &str) -> (r: Option<&'a Json>)
    ensures
        deref_opt(r) == pointer_target(*root, pointer@),
{
    let cs = chars_of(pointer);
    if cs.len() == 0 {
        return Some(root);
    }
    if cs.len() == 1 && cs[0] == '/' {
        assert(cs@ == seq!['/']);
        return Some(root);
    }
    if cs[0] != '/' {
        return None;
    }
    assert(cs@ != seq!['/']);
    let rest = string_from_range(&cs, 1, cs.len());
    assert(cs@.subrange(1, cs@.len() as int) == cs@.drop_first());
    let segments = split_char(rest.as_str(), '/');
    let ghost segs = views(segments@);
    let mut current = root;
    let mut i: usize = 0;
    assert(segs.skip(0) == segs);
    while i < segments.len()
        invariant
            segs == views(segments@),
            i <= segments.len(),
            pointer_target(*root, pointer@) == walk_members(*current, segs.skip(i as int)),
        decreases segments.len() - i,
    {
        assert(segs[i as int] == segments@[i as int]@);
        assert(segs.skip(i as int).drop_first() == segs.skip(i + 1));
        let once = replace_pair_of(segments[i].as_str(), '~', '1', '/');
        let unescaped = replace_pair_of(once.as_str(), '~', '0', '~');
        match pointer_child(current, unescaped.as_str()) {
            Some(n) => {
                current = n;
            },
            None => {
                return None;
            },
        }
        i = i + 1;
    }
    assert(segs.skip(i as int) == Seq::<Seq<char>>::empty());
    Some(current)
}

/// Resolve a local `$ref` pointer; the schema itself when there is none or it
/// cannot be followed.
fn resolve_refs<'a>(root: &'a Json, schema: &'a Json) -> (r: &'a Json)
    ensures
        *r == resolve_ref(*root, *schema),
{
    match schema.get_str("$ref") {
        Some(ref_str) => {
            let cs = chars_of(ref_str);
            if cs.len() > 0 && cs[0] == '#' {
                let pointer = string_from_range(&cs, 1, cs.len());
                assert(cs@.subrange(1, cs@.len() as int) == cs@.drop_first());
                match pointer_lookup(root, pointer.as_str()) {
                    Some(t) => t,
                    None => schema,
                }
            } else {
                schema
            }
        },
        None => schema,
    }
}

/// Try to step into a schema by one path segment (direct lookup only).
fn step_into<'a>(schema: &'a Json, segment: &str) -> (r: Option<&'a Json>)
    ensures
        deref_opt(r) == step_direct(*schema, segment@),
{
    if let Some(p) = schema.get("properties") {
        if let Some(sub) = p.get(segment) {
            return Some(sub);
        }
    }
    if parse_index(segment).is_some() {
        if let Some(items) = schema.get("items") {
            return Some(items);
        }
    }
    if let Some(additional) = schema.get("additionalProperties") {
        if additional.is_object() {
            return Some(additional);
        }
    }
    None
}

/// Try to step into a schema by one path segment, resolving through `$ref`,
/// `allOf`, `anyOf`, and `oneOf` as needed.
fn try_step<'a>(root: &'a Json, schema: &'a Json, segment: &str, Ghost(fuel): Ghost<nat>) -> (r:
    Option<&'a Json>)
    requires
        step_f(*root, *schema, segment@, fuel) is Some,
    ensures
        deref_opt(r) == step_f(*root, *schema, segment@, fuel)->0,
    decreases fuel, 0nat,
{
    if let Some(next) = step_into(schema, segment) {
        return Some(next);
    }
    let ghost f = (fuel - 1) as nat;
    if let Some(all) = schema.get_array("allOf") {
        let r = step_list(root, all, segment, Ghost(f));
        if r.is_some() {
            return r;
        }
    }
    if let Some(variants) = schema.get_array("anyOf") {
        let r = step_list(root, variants, segment, Ghost(f));
        if r.is_some() {
            return r;
        }
    }
    if let Some(variants) = schema.get_array("oneOf") {
        let r = step_list(root, variants, segment, Ghost(f));
        if r.is_some() {
            return r;
        }
    }
    None
}

/// Try a step in each (resolved) sub-schema in turn.
fn step_list<'a>(root: &'a Json, subs: &'a Vec<Json>, segment: &str, Ghost(fuel): Ghost<nat>) -> (r:
    Option<&'a Json>)
    requires
        step_list_f(*root, subs@, segment@, fuel) is Some,
    ensures
        deref_opt(r) == step_list_f(*root, subs@, segment@, fuel)->0,
    decreases fuel, 1nat,
{
    let mut i: usize = 0;
    assert(subs@.skip(0) == subs@);
    while i < subs.len()
        invariant
            i <= subs.len(),
            step_list_f(*root, subs@, segment@, fuel) == step_list_f(
                *root,
                subs@.skip(i as int),
                segment@,
                fuel,
            ),
            step_list_f(*root, subs@, segment@, fuel) is Some,
        decreases subs.len() - i,
    {
        assert(subs@.skip(i as int).drop_first() == subs@.skip(i + 1));
        assert(subs@.skip(i as int)[0] == subs@[i as int]);
        let resolved = resolve_refs(root, &subs[i]);
        let r = try_step(root, resolved, segment, Ghost(fuel));
        if r.is_some() {
            return r;
        }
        i = i + 1;
    }
    None
}

/// Walk a JSON Schema to find the sub-schema at the given path segments.
/// Follows `properties` for object schemas and `items` for array schemas.
/// Resolves local `$ref` pointers within the root schema.
pub fn resolve_sub_schema<'a>(root: &'a Json, path: &[&str]) -> (r: Option<&'a Json>)
    requires
        sub_schema_defined(*root, path_views(path@)),
    ensures
        deref_opt(r) == sub_schema(*root, path_views(path@)),
{
    let ghost p = path_views(path@);
    let ghost fuel = choose|f: nat| (#[trigger] walk_f(*root, *root, p, f)) is Some;
    let mut schema = root;
    let mut i: usize = 0;
    assert(p.skip(0) == p);
    while i < path.len()
        invariant
            p == path_views(path@),
            i <= path.len(),
            walk_f(*root, *root, p, fuel) == walk_f(*root, *schema, p.skip(i as int), fuel),
            walk_f(*root, *root, p, fuel) is Some,
            sub_schema(*root, p) == walk_f(*root, *root, p, fuel)->0,
        decreases path.len() - i,
    {
        assert(p.skip(i as int).drop_first() == p.skip(i + 1));
        assert(p.skip(i as int)[0] == path@[i as int]@);
        let resolved = resolve_refs(root, schema);
        match try_step(root, resolved, path[i], Ghost(fuel)) {
            Some(next) => {
                schema = next;
            },
            None => {
                return None;
            },
        }
        i = i + 1;
    }
    assert(p.skip(i as int) == Seq::<Seq<char>>::empty());
    Some(resolve_refs(root, schema))
}

/// The first of the variants whose `type` is not `"null"`.
pub open spec fn first_non_null(vs: Seq<Json>) -> Option<Json>
    decreases vs.len(),
{
    if vs.len() == 0 {
        None
    } else if get_str(vs[0], "type"@) == Some("null"@) {
        first_non_null(vs.drop_first())
    } else {
        Some(vs[0])
    }
}

/// The most informative sub-schema of a composition: the first entry of a
/// non-empty `allOf`, else the first variant of `anyOf`, then of `oneOf`,
/// whose type is not `"null"`.
pub open spec fn effective(schema: Json) -> Option<Json> {
    let all = array_or_empty(get_array(schema, "allOf"@));
    if all.len() > 0 {
        Some(all[0])
    } else {
        match first_non_null(array_or_empty(get_array(schema, "anyOf"@))) {
            Some(v) => Some(v),
            None => first_non_null(array_or_empty(get_array(schema, "oneOf"@))),
        }
    }
}

/// The first of the variants whose `type` is not `"null"`.
fn first_non_null_of<'a>(variants: &'a Vec<Json>) -> (r: Option<&'a Json>)
    ensures
        deref_opt(r) == first_non_null(variants@),
{
    let mut i: usize = 0;
    assert(variants@.skip(0) == variants@);
    while i < variants.len()
        invariant
            i <= variants.len(),
            first_non_null(variants@) == first_non_null(variants@.skip(i as int)),
        decreases variants.len() - i,
    {
        assert(variants@.skip(i as int).drop_first() == variants@.skip(i + 1));
        assert(variants@.skip(i as int)[0] == variants@[i as int]);
        let is_null = match variants[i].get_str("type") {
            Some(t) => text_eq(t, "null"),
            None => false,
        };
        if !is_null {
            return Some(&variants[i]);
        }
        i = i + 1;
    }
    None
}

/// For composition schemas, return the most informative sub-schema:
/// the first `allOf` entry, or the first non-null `anyOf`/`oneOf` variant.
fn effective_schema<'a>(schema: &'a Json) -> (r: Option<&'a Json>)
    ensures
        deref_opt(r) == effective(*schema),
{
    if let Some(all) = schema.get_array("allOf") {
        if all.len() > 0 {
            return Some(&all[0]);
        }
    }
    if let Some(variants) = schema.get_array("anyOf") {
        let r = first_non_null_of(variants);
        if r.is_some() {
            return r;
        }
    }
    if let Some(variants) = schema.get_array("oneOf") {
        return first_non_null_of(variants);
    }
    None
}

/// The characters of an optional string.
pub open spec fn string_opt(r: Option<String>) -> Option<Seq<char>> {
    match r {
        Some(s) => Some(s@),
        None => None,
    }
}

/// The text after the last `/`, or the whole text when it has none.
pub open spec fn last_segment(s: Seq<char>) -> Seq<char> {
    split_on(s, '/').last()
}

/// The string values among `vs`, in order.
pub open spec fn str_values(vs: Seq<Json>) -> Seq<Seq<char>>
    decreases vs.len(),
{
    if vs.len() == 0 {
        Seq::<Seq<char>>::empty()
    } else {
        let r = str_values(vs.drop_last());
        match json_as_str(vs.last()) {
            Some(t) => r.push(t),
            None => r,
        }
    }
}

/// The string values among `vs`, each in double quotes, in order.
pub open spec fn quoted_str_values(vs: Seq<Json>) -> Seq<Seq<char>>
    decreases vs.len(),
{
    if vs.len() == 0 {
        Seq::<Seq<char>>::empty()
    } else {
        let r = quoted_str_values(vs.drop_last());
        match json_as_str(vs.last()) {
            Some(t) => r.push("\""@ + t + "\""@),
            None => r,
        }
    }
}

/// The type string of a schema node: its `type` (an array annotated with
/// the label of its items, a list of types joined with `" | "`), else the
/// first `allOf` entry that has one, else the labels of the `oneOf`, then
/// `anyOf`, variants joined with `" | "`. `None` when `fuel` runs out.
pub open spec fn type_f(root: Json, s: Json, fuel: nat) -> Option<Option<Seq<char>>>
    decreases fuel, 0nat,
{
    if fuel == 0 {
        None
    } else {
        let f = (fuel - 1) as nat;
        let ty = json_get(s, "type"@);
        if ty is Some && json_as_str(ty->0) is Some {
            let t = json_as_str(ty->0)->0;
            if t == "array"@ && json_get(s, "items"@) is Some {
                match label_f(root, json_get(s, "items"@)->0, f) {
                    Some(Some(label)) => Some(Some(label + "[]"@)),
                    Some(None) => Some(Some(t)),
                    None => None,
                }
            } else {
                Some(Some(t))
            }
        } else if ty is Some && json_as_array(ty->0) is Some {
            Some(Some(join(str_values(json_as_array(ty->0)->0), " | "@)))
        } else {
            match type_list_f(root, array_or_empty(get_array(s, "allOf"@)), f) {
                Some(None) => {
                    let one = match get_array(s, "oneOf"@) {
                        Some(vs) => match labels_f(root, vs, f) {
                            Some(ls) => if ls.len() > 0 {
                                Some(Some(join(ls, " | "@)))
                            } else {
                                Some(None)
                            },
                            None => None,
                        },
                        None => Some(None),
                    };
                    match one {
                        Some(None) => match get_array(s, "anyOf"@) {
                            Some(vs) => match labels_f(root, vs, f) {
                                Some(ls) => if ls.len() > 0 {
                                    Some(Some(join(ls, " | "@)))
                                } else {
                                    Some(None)
                                },
                                None => None,
                            },
                            None => Some(None),
                        },
                        other => other,
                    }
                },
                other => other,
            }
        }
    }
}

/// The type string of the first (resolved) sub-schema that has one.
pub open spec fn type_list_f(root: Json, subs: Seq<Json>, fuel: nat) -> Option<Option<Seq<char>>>
    decreases fuel, subs.len() + 1,
{
    if subs.len() == 0 {
        Some(None)
    } else {
        match type_f(root, resolve_ref(root, subs[0]), fuel) {
            Some(None) => type_list_f(root, subs.drop_first(), fuel),
            other => other,
        }
    }
}

/// The labels of the variants that have one, in order.
pub open spec fn labels_f(root: Json, vs: Seq<Json>, fuel: nat) -> Option<Seq<Seq<char>>>
    decreases fuel, vs.len() + 1,
{
    if vs.len() == 0 {
        Some(Seq::<Seq<char>>::empty())
    } else {
        match labels_f(root, vs.drop_last(), fuel) {
            Some(r) => match label_f(root, vs.last(), fuel) {
                Some(Some(x)) => Some(r.push(x)),
                Some(None) => Some(r),
                None => None,
            },
            None => None,
        }
    }
}

/// A short type label for a variant: the name a `$ref` ends with; the
/// quoted values of a string enum joined with `" | "`; an array's item label
/// with `[]`; a simple type; else the variant's type string.
pub open spec fn label_f(root: Json, s: Json, fuel: nat) -> Option<Option<Seq<char>>>
    decreases fuel, 0nat,
{
    if fuel == 0 {
        None
    } else {
        let f = (fuel - 1) as nat;
        match get_str(s, "$ref"@) {
            Some(r) => Some(Some(last_segment(r))),
            None => match get_str(s, "type"@) {
                Some(ty) => if ty == "string"@ && get_array(s, "enum"@) is Some {
                    Some(Some(join(quoted_str_values(get_array(s, "enum"@)->0), " | "@)))
                } else if ty == "array"@ {
                    if json_get(s, "items"@) is Some {
                        match label_f(root, json_get(s, "items"@)->0, f) {
                            Some(Some(label)) => Some(Some(label + "[]"@)),
                            Some(None) => Some(Some("array"@)),
                            None => None,
                        }
                    } else {
                        Some(Some("array"@))
                    }
                } else {
                    Some(Some(ty))
                },
                None => type_f(root, s, f),
            },
        }
    }
}

proof fn lemma_labels_prefix(root: Json, vs: Seq<Json>, k: int, fuel: nat)
    requires
        0 <= k <= vs.len(),
        labels_f(root, vs, fuel) is Some,
    ensures
        labels_f(root, vs.take(k), fuel) is Some,
    decreases vs.len(),
{
    if k < vs.len() {
        lemma_labels_prefix(root, vs.drop_last(), k, fuel);
        assert(vs.drop_last().take(k) == vs.take(k));
    } else {
        assert(vs.take(k) == vs);
    }
}

/// The string values of an array, in order.
fn str_values_of(vs: &Vec<Json>) -> (r: Vec<String>)
    ensures
        views(r@) == str_values(vs@),
{
    let mut out: Vec<String> = Vec::new();
    let mut i: usize = 0;
    while i < vs.len()
        invariant
            i <= vs.len(),
            views(out@) == str_values(vs@.take(i as int)),
        decreases vs.len() - i,
    {
        assert(vs@.take(i + 1).drop_last() == vs@.take(i as int));
        if let Some(t) = vs[i].as_str() {
            let ghost before = views(out@);
            out.push(to_string(t));
            assert(views(out@) == before.push(t@));
        }
        i = i + 1;
    }
    assert(vs@.take(vs.len() as int) == vs@);
    out
}

/// The string values of an array, each in double quotes, in order.
fn quoted_str_values_of(vs: &Vec<Json>) -> (r: Vec<String>)
    ensures
        views(r@) == quoted_str_values(vs@),
{
    let mut out: Vec<String> = Vec::new();
    let mut i: usize = 0;
    while i < vs.len()
        invariant
            i <= vs.len(),
            views(out@) == quoted_str_values(vs@.take(i as int)),
        decreases vs.len() - i,
    {
        assert(vs@.take(i + 1).drop_last() == vs@.take(i as int));
        if let Some(t) = vs[i].as_str() {
            let ghost before = views(out@);
            out.push(concat3("\"", t, "\""));
            assert(views(out@) == before.push("\""@ + t@ + "\""@));
        }
        i = i + 1;
    }
    assert(vs@.take(vs.len() as int) == vs@);
    out
}

/// Extract a human-readable type string from a schema node.
fn schema_type_string(root: &Json, schema: &Json, Ghost(fuel): Ghost<nat>) -> (r: Option<String>)
    requires
        type_f(*root, *schema, fuel) is Some,
    ensures
        string_opt(r) == type_f(*root, *schema, fuel)->0,
    decreases fuel, 0nat,
{
    let ghost f = (fuel - 1) as nat;
    if let Some(ty) = schema.get("type") {
        if let Some(s) = ty.as_str() {
            if text_eq(s, "array") {
                if let Some(items) = schema.get("items") {
                    if let Some(label) = variant_type_label(root, items, Ghost(f)) {
                        return Some(concat2(label.as_str(), "[]"));
                    }
                }
            }
            return Some(to_string(s));
        }
        if let Some(arr) = ty.as_array() {
            let types = str_values_of(arr);
            return Some(join_strings(&types, " | "));
        }
    }
    if let Some(all) = schema.get_array("allOf") {
        let r = type_in_list(root, all, Ghost(f));
        if r.is_some() {
            return r;
        }
    }
    if let Some(variants) = schema.get_array("oneOf") {
        let types = labels_of(root, variants, Ghost(f));
        if types.len() > 0 {
            return Some(join_strings(&types, " | "));
        }
    }
    if let Some(variants) = schema.get_array("anyOf") {
        let types = labels_of(root, variants, Ghost(f));
        if types.len() > 0 {
            return Some(join_strings(&types, " | "));
        }
    }
    None
}

/// The type string of the first (resolved) sub-schema that has one.
fn type_in_list(root: &Json, subs: &Vec<Json>, Ghost(fuel): Ghost<nat>) -> (r: Option<String>)
    requires
        type_list_f(*root, subs@, fuel) is Some,
    ensures
        string_opt(r) == type_list_f(*root, subs@, fuel)->0,
    decreases fuel, 1nat,
{
    let mut i: usize = 0;
    assert(subs@.skip(0) == subs@);
    while i < subs.len()
        invariant
            i <= subs.len(),
            type_list_f(*root, subs@, fuel) == type_list_f(*root, subs@.skip(i as int), fuel),
            type_list_f(*root, subs@, fuel) is Some,
        decreases subs.len() - i,
    {
        assert(subs@.skip(i as int).drop_first() == subs@.skip(i + 1));
        assert(subs@.skip(i as int)[0] == subs@[i as int]);
        let resolved = resolve_refs(root, &subs[i]);
        let r = schema_type_string(root, resolved, Ghost(fuel));
        if r.is_some() {
            return r;
        }
        i = i + 1;
    }
    None
}

/// The labels of the variants that have one, in order.
fn labels_of(root: &Json, vs: &Vec<Json>, Ghost(fuel): Ghost<nat>) -> (r: Vec<String>)
    requires
        labels_f(*root, vs@, fuel) is Some,
    ensures
        views(r@) == labels_f(*root, vs@, fuel)->0,
    decreases fuel, 1nat,
{
    let mut out: Vec<String> = Vec::new();
    let mut i: usize = 0;
    assert(vs@.take(0) == Seq::<Json>::empty());
    while i < vs.len()
        invariant
            i <= vs.len(),
            labels_f(*root, vs@, fuel) is Some,
            labels_f(*root, vs@.take(i as int), fuel) == Some(views(out@)),
        decreases vs.len() - i,
    {
        assert(vs@.take(i + 1).drop_last() == vs@.take(i as int));
        proof {
            lemma_labels_prefix(*root, vs@, i + 1, fuel);
        }
        if let Some(label) = variant_type_label(root, &vs[i], Ghost(fuel)) {
            let ghost before = views(out@);
            let ghost lv = label@;
            out.push(label);
            assert(views(out@) == before.push(lv));
        }
        i = i + 1;
    }
    assert(vs@.take(vs.len() as int) == vs@);
    out
}

/// The text after the last `/`, or the whole text when it has none.
fn last_segment_of(s: &str) -> (r: String)
    ensures
        r@ == last_segment(s@),
{
    let pieces = split_char(s, '/');
    proof {
        crate::strings::lemma_split_on_nonempty(s@, '/');
    }
    assert(views(pieces@)[pieces.len() - 1] == pieces@[pieces.len() - 1]@);
    to_string(pieces[pieces.len() - 1].as_str())
}

/// Produce a short type label for a single schema variant.
/// Takes the *unresolved* schema so `$ref` names can be preserved.
fn variant_type_label(root: &Json, schema: &Json, Ghost(fuel): Ghost<nat>) -> (r: Option<String>)
    requires
        label_f(*root, *schema, fuel) is Some,
    ensures
        string_opt(r) == label_f(*root, *schema, fuel)->0,
    decreases fuel, 0nat,
{
    let ghost f = (fuel - 1) as nat;
    if let Some(ref_str) = schema.get_str("$ref") {
        return Some(last_segment_of(ref_str));
    }
    if let Some(ty) = schema.get_str("type") {
        if text_eq(ty, "string") {
            if let Some(vals) = schema.get_array("enum") {
                let joined = quoted_str_values_of(vals);
                return Some(join_strings(&joined, " | "));
            }
        }
        if text_eq(ty, "array") {
            if let Some(items) = schema.get("items") {
                if let Some(label) = variant_type_label(root, items, Ghost(f)) {
                    return Some(concat2(label.as_str(), "[]"));
                }
            }
            return Some(to_string("array"));
        }
        return Some(to_string(ty));
    }
    schema_type_string(root, schema, Ghost(f))
}

/// When the schema is an array whose (resolved) items have an `enum`, those
/// values; else the first found the same way in the (resolved) `allOf`, then
/// `anyOf`, then `oneOf` sub-schemas. `None` when `fuel` runs out.
pub open spec fn items_enum_f(root: Json, s: Json, fuel: nat) -> Option<Option<Seq<Json>>>
    decreases fuel, 0nat,
{
    if fuel == 0 {
        None
    } else {
        let f = (fuel - 1) as nat;
        let direct = if get_str(s, "type"@) == Some("array"@) && json_get(s, "items"@) is Some {
            get_array(resolve_ref(root, json_get(s, "items"@)->0), "enum"@)
        } else {
            None
        };
        if direct is Some {
            Some(direct)
        } else {
            match items_enum_list_f(root, array_or_empty(get_array(s, "allOf"@)), f) {
                Some(None) => match items_enum_list_f(
                    root,
                    array_or_empty(get_array(s, "anyOf"@)),
                    f,
                ) {
                    Some(None) => items_enum_list_f(
                        root,
                        array_or_empty(get_array(s, "oneOf"@)),
                        f,
                    ),
                    other => other,
                },
                other => other,
            }
        }
    }
}

/// The enum values found in the first (resolved) sub-schema that has them.
pub open spec fn items_enum_list_f(root: Json, subs: Seq<Json>, fuel: nat) -> Option<
    Option<Seq<Json>>,
>
    decreases fuel, subs.len() + 1,
{
    if subs.len() == 0 {
        Some(None)
    } else {
        match items_enum_f(root, resolve_ref(root, subs[0]), fuel) {
            Some(None) => items_enum_list_f(root, subs.drop_first(), fuel),
            other => other,
        }
    }
}

/// If the schema is an array type, resolve its items and return their enum values.
/// Follows `$ref`, `allOf`, `anyOf` to find the items schema.
fn resolve_array_items_enum<'a>(root: &'a Json, schema: &'a Json, Ghost(fuel): Ghost<nat>) -> (r:
    Option<&'a Vec<Json>>)
    requires
        items_enum_f(*root, *schema, fuel) is Some,
    ensures
        vec_opt(r) == items_enum_f(*root, *schema, fuel)->0,
    decreases fuel, 0nat,
{
    let ghost f = (fuel - 1) as nat;
    let is_array = match schema.get_str("type") {
        Some(t) => text_eq(t, "array"),
        None => false,
    };
    if is_array {
        if let Some(items) = schema.get("items") {
            let resolved = resolve_refs(root, items);
            if let Some(enum_vals) = resolved.get_array("enum") {
                return Some(enum_vals);
            }
        }
    }
    if let Some(all) = schema.get_array("allOf") {
        let r = items_enum_in_list(root, all, Ghost(f));
        if r.is_some() {
            return r;
        }
    }
    if let Some(variants) = schema.get_array("anyOf") {
        let r = items_enum_in_list(root, variants, Ghost(f));
        if r.is_some() {
            return r;
        }
    }
    if let Some(variants) = schema.get_array("oneOf") {
        let r = items_enum_in_list(root, variants, Ghost(f));
        if r.is_some() {
            return r;
        }
    }
    None
}

/// The enum values found in the first (resolved) sub-schema that has them.
fn items_enum_in_list<'a>(root: &'a Json, subs: &'a Vec<Json>, Ghost(fuel): Ghost<nat>) -> (r:
    Option<&'a Vec<Json>>)
    requires
        items_enum_list_f(*root, subs@, fuel) is Some,
    ensures
        vec_opt(r) == items_enum_list_f(*root, subs@, fuel)->0,
    decreases fuel, 1nat,
{
    let mut i: usize = 0;
    assert(subs@.skip(0) == subs@);
    while i < subs.len()
        invariant
            i <= subs.len(),
            items_enum_list_f(*root, subs@, fuel) == items_enum_list_f(
                *root,
                subs@.skip(i as int),
                fuel,
            ),
            items_enum_list_f(*root, subs@, fuel) is Some,
        decreases subs.len() - i,
    {
        assert(subs@.skip(i as int).drop_first() == subs@.skip(i + 1));
        assert(subs@.skip(i as int)[0] == subs@[i as int]);
        let resolved = resolve_refs(root, &subs[i]);
        let r = resolve_array_items_enum(root, resolved, Ghost(fuel));
        if r.is_some() {
            return r;
        }
        i = i + 1;
    }
    None
}

/// The member `k` of an optional value.
pub open spec fn opt_get(e: Option<Json>, k: Seq<char>) -> Option<Json> {
    match e {
        Some(x) => json_get(x, k),
        None => None,
    }
}

/// The member `k` of an optional value, when it is a string.
pub open spec fn opt_get_str(e: Option<Json>, k: Seq<char>) -> Option<Seq<char>> {
    match e {
        Some(x) => get_str(x, k),
        None => None,
    }
}

/// The member `k` of an optional value, when it is an array.
pub open spec fn opt_get_array(e: Option<Json>, k: Seq<char>) -> Option<Seq<Json>> {
    match e {
        Some(x) => get_array(x, k),
        None => None,
    }
}

/// `a` when it is present, else `b`.
pub open spec fn first_some<T>(a: Option<T>, b: Option<T>) -> Option<T> {
    if a is Some {
        a
    } else {
        b
    }
}

/// The effective sub-schema of `s`, with its `$ref` resolved.
pub open spec fn resolved_effective(root: Json, s: Json) -> Option<Json> {
    match effective(s) {
        Some(e) => Some(resolve_ref(root, e)),
        None => None,
    }
}

/// The type string of `s`, else that of the effective sub-schema `eff`.
pub open spec fn type_either_f(root: Json, s: Json, eff: Option<Json>, fuel: nat) -> Option<
    Option<Seq<char>>,
> {
    match type_f(root, s, fuel) {
        Some(None) => match eff {
            Some(e) => type_f(root, e, fuel),
            None => Some(None),
        },
        other => other,
    }
}

/// The type string of a schema with its `$ref` resolved, falling back to its
/// (resolved) effective sub-schema. `None` when `fuel` runs out.
pub open spec fn type_string_f(root: Json, schema: Json, fuel: nat) -> Option<Option<Seq<char>>> {
    let s = resolve_ref(root, schema);
    type_either_f(root, s, resolved_effective(root, s), fuel)
}

/// Working out the type string of `schema` ends.
pub open spec fn type_string_defined(root: Json, schema: Json) -> bool {
    exists|f: nat| (#[trigger] type_string_f(root, schema, f)) is Some
}

/// The type string of `schema`, when working it out ends.
pub open spec fn type_string_of(root: Json, schema: Json) -> Option<Seq<char>> {
    type_string_f(root, schema, choose|f: nat| (#[trigger] type_string_f(root, schema, f)) is Some)->0
}

/// The enum values for hover text: the `enum` of `s` or of `eff`, else the
/// item enum of `s` or of `eff`.
pub open spec fn enum_either_f(root: Json, s: Json, eff: Option<Json>, fuel: nat) -> Option<
    Option<Seq<Json>>,
> {
    let direct = first_some(get_array(s, "enum"@), opt_get_array(eff, "enum"@));
    if direct is Some {
        Some(direct)
    } else {
        match items_enum_f(root, s, fuel) {
            Some(None) => match eff {
                Some(e) => items_enum_f(root, e, fuel),
                None => Some(None),
            },
            other => other,
        }
    }
}

/// Each value's JSON text in backticks.
pub open spec fn backticked(vs: Seq<Json>) -> Seq<Seq<char>> {
    vs.map_values(|v: Json| "`"@ + json_text(v) + "`"@)
}

/// `parts` with `x` appended when it is present.
pub open spec fn push_some(parts: Seq<Seq<char>>, x: Option<Seq<char>>) -> Seq<Seq<char>> {
    match x {
        Some(t) => parts.push(t),
        None => parts,
    }
}

/// The description of `s`, else of `eff`.
pub open spec fn desc_line(s: Json, eff: Option<Json>) -> Option<Seq<char>> {
    first_some(get_str(s, "description"@), opt_get_str(eff, "description"@))
}

/// The type paragraph.
pub open spec fn type_line(ty: Option<Seq<char>>) -> Option<Seq<char>> {
    match ty {
        Some(t) => Some("**Type:** `"@ + t + "`"@),
        None => None,
    }
}

/// The default paragraph, from `s` or else from `eff`.
pub open spec fn default_line(s: Json, eff: Option<Json>) -> Option<Seq<char>> {
    match first_some(json_get(s, "default"@), opt_get(eff, "default"@)) {
        Some(d) => Some("**Default:** `"@ + json_text(d) + "`"@),
        None => None,
    }
}

/// The allowed-values paragraph.
pub open spec fn enum_line(enums: Option<Seq<Json>>) -> Option<Seq<char>> {
    match enums {
        Some(vs) => Some("**Allowed values:** "@ + join(backticked(vs), ", "@)),
        None => None,
    }
}

/// The pattern paragraph, from `s` or else from `eff`.
pub open spec fn pattern_line(s: Json, eff: Option<Json>) -> Option<Seq<char>> {
    match first_some(get_str(s, "pattern"@), opt_get_str(eff, "pattern"@)) {
        Some(x) => Some("**Pattern:** `"@ + x + "`"@),
        None => None,
    }
}

/// The minimum paragraph, from `s` or else from `eff`.
pub open spec fn minimum_line(s: Json, eff: Option<Json>) -> Option<Seq<char>> {
    match first_some(json_get(s, "minimum"@), opt_get(eff, "minimum"@)) {
        Some(m) => Some("**Minimum:** `"@ + json_text(m) + "`"@),
        None => None,
    }
}

/// The maximum paragraph, from `s` or else from `eff`.
pub open spec fn maximum_line(s: Json, eff: Option<Json>) -> Option<Seq<char>> {
    match first_some(json_get(s, "maximum"@), opt_get(eff, "maximum"@)) {
        Some(m) => Some("**Maximum:** `"@ + json_text(m) + "`"@),
        None => None,
    }
}

/// The paragraphs of hover text that are present, in this order:
/// description, type, default, allowed values, pattern, minimum, maximum.
pub open spec fn hover_parts(
    s: Json,
    eff: Option<Json>,
    ty: Option<Seq<char>>,
    enums: Option<Seq<Json>>,
) -> Seq<Seq<char>> {
    let p1 = push_some(Seq::<Seq<char>>::empty(), desc_line(s, eff));
    let p2 = push_some(p1, type_line(ty));
    let p3 = push_some(p2, default_line(s, eff));
    let p4 = push_some(p3, enum_line(enums));
    let p5 = push_some(p4, pattern_line(s, eff));
    let p6 = push_some(p5, minimum_line(s, eff));
    push_some(p6, maximum_line(s, eff))
}

/// The hover text of `s` with its effective sub-schema `eff`: the paragraphs
/// joined with a blank line, or nothing when there are none. `None` when
/// `fuel` runs out.
pub open spec fn hover_inner_f(root: Json, s: Json, eff: Option<Json>, fuel: nat) -> Option<
    Option<Seq<char>>,
> {
    match (type_either_f(root, s, eff, fuel), enum_either_f(root, s, eff, fuel)) {
        (Some(ty), Some(en)) => {
            let parts = hover_parts(s, eff, ty, en);
            Some(
                if parts.len() == 0 {
                    None
                } else {
                    Some(join(parts, "\n\n"@))
                },
            )
        },
        _ => None,
    }
}

/// The hover text of a schema with its `$ref` resolved. `None` when `fuel`
/// runs out.
pub open spec fn hover_f(root: Json, schema: Json, fuel: nat) -> Option<Option<Seq<char>>> {
    let s = resolve_ref(root, schema);
    hover_inner_f(root, s, resolved_effective(root, s), fuel)
}

/// Working out the hover text of `schema` ends.
pub open spec fn hover_defined(root: Json, schema: Json) -> bool {
    exists|f: nat| (#[trigger] hover_f(root, schema, f)) is Some
}

/// The hover text of `schema`, when working it out ends.
pub open spec fn hover_of(root: Json, schema: Json) -> Option<Seq<char>> {
    hover_f(root, schema, choose|f: nat| (#[trigger] hover_f(root, schema, f)) is Some)->0
}

/// Return a human-readable type string for the schema (e.g. `"all" | integer[]`).
pub fn type_string(root: &Json, schema: &Json) -> (r: Option<String>)
    requires
        type_string_defined(*root, *schema),
    ensures
        string_opt(r) == type_string_of(*root, *schema),
{
    let ghost fuel = choose|f: nat| (#[trigger] type_string_f(*root, *schema, f)) is Some;
    let schema = resolve_refs(root, schema);
    let effective = match effective_schema(schema) {
        Some(e) => Some(resolve_refs(root, e)),
        None => None,
    };
    match schema_type_string(root, schema, Ghost(fuel)) {
        Some(t) => Some(t),
        None => match effective {
            Some(e) => schema_type_string(root, e, Ghost(fuel)),
            None => None,
        },
    }
}

/// Build a markdown hover string from a JSON sub-schema.
/// `root` is the full schema document, needed to resolve `$ref` pointers.
pub fn hover_content(root: &Json, schema: &Json) -> (r: Option<String>)
    requires
        hover_defined(*root, *schema),
    ensures
        string_opt(r) == hover_of(*root, *schema),
{
    let ghost fuel = choose|f: nat| (#[trigger] hover_f(*root, *schema, f)) is Some;
    let schema = resolve_refs(root, schema);
    let effective = match effective_schema(schema) {
        Some(e) => Some(resolve_refs(root, e)),
        None => None,
    };
    hover_content_inner(root, schema, effective, Ghost(fuel))
}

/// The member `key` of the schema, else of the effective sub-schema.
fn get_either<'a>(schema: &'a Json, effective: Option<&'a Json>, key: &str) -> (r: Option<&'a Json>)
    ensures
        deref_opt(r) == first_some(json_get(*schema, key@), opt_get(deref_opt(effective), key@)),
{
    match schema.get(key) {
        Some(v) => Some(v),
        None => match effective {
            Some(e) => e.get(key),
            None => None,
        },
    }
}

/// The string member `key` of the schema, else of the effective sub-schema.
fn get_str_either<'a>(schema: &'a Json, effective: Option<&'a Json>, key: &str) -> (r: Option<&'a str>)
    ensures
        crate::json::str_opt(r) == first_some(
            get_str(*schema, key@),
            opt_get_str(deref_opt(effective), key@),
        ),
{
    match schema.get_str(key) {
        Some(v) => Some(v),
        None => match effective {
            Some(e) => e.get_str(key),
            None => None,
        },
    }
}

/// Each value's JSON text in backticks.
fn backticked_of(vs: &Vec<Json>) -> (r: Vec<String>)
    ensures
        views(r@) == backticked(vs@),
{
    let mut out: Vec<String> = Vec::new();
    let mut i: usize = 0;
    while i < vs.len()
        invariant
            i <= vs.len(),
            views(out@) == backticked(vs@.take(i as int)),
        decreases vs.len() - i,
    {
        let t = vs[i].to_text();
        let item = concat3("`", t.as_str(), "`");
        let ghost before = views(out@);
        out.push(item);
        assert(views(out@) == before.push("`"@ + json_text(vs@[i as int]) + "`"@));
        assert(backticked(vs@.take(i + 1)) == backticked(vs@.take(i as int)).push(
            "`"@ + json_text(vs@[i as int]) + "`"@,
        ));
        i = i + 1;
    }
    assert(vs@.take(vs.len() as int) == vs@);
    out
}

/// Appends a paragraph when there is one.
fn push_part(parts: &mut Vec<String>, part: Option<String>)
    ensures
        views(final(parts)@) == push_some(views(old(parts)@), string_opt(part)),
{
    if let Some(p) = part {
        let ghost pv = p@;
        parts.push(p);
        assert(views(parts@) == views(old(parts)@).push(pv));
    }
}

/// A paragraph made of a label, a value, and a closing text.
fn line_of(label: &str, value: Option<&str>, close: &str) -> (r: Option<String>)
    ensures
        string_opt(r) == match crate::json::str_opt(value) {
            Some(v) => Some(label@ + v + close@),
            None => None,
        },
{
    match value {
        Some(v) => Some(concat3(label, v, close)),
        None => None,
    }
}

/// A paragraph made of a label, a value's JSON text, and a closing text.
fn json_line_of(label: &str, value: Option<&Json>, close: &str) -> (r: Option<String>)
    ensures
        string_opt(r) == match deref_opt(value) {
            Some(v) => Some(label@ + json_text(v) + close@),
            None => None,
        },
{
    match value {
        Some(v) => Some(concat3(label, v.to_text().as_str(), close)),
        None => None,
    }
}

/// The type string of the schema, else of the effective sub-schema.
fn type_either(root: &Json, schema: &Json, effective: Option<&Json>, Ghost(fuel): Ghost<nat>) -> (r:
    Option<String>)
    requires
        type_either_f(*root, *schema, deref_opt(effective), fuel) is Some,
    ensures
        string_opt(r) == type_either_f(*root, *schema, deref_opt(effective), fuel)->0,
{
    match schema_type_string(root, schema, Ghost(fuel)) {
        Some(t) => Some(t),
        None => match effective {
            Some(e) => schema_type_string(root, e, Ghost(fuel)),
            None => None,
        },
    }
}

/// The enum values of the schema or the effective sub-schema, else those of
/// their array items.
fn enum_either<'a>(root: &'a Json, schema: &'a Json, effective: Option<&'a Json>, Ghost(fuel): Ghost<nat>) -> (r:
    Option<&'a Vec<Json>>)
    requires
        enum_either_f(*root, *schema, deref_opt(effective), fuel) is Some,
    ensures
        vec_opt(r) == enum_either_f(*root, *schema, deref_opt(effective), fuel)->0,
{
    let direct = match schema.get_array("enum") {
        Some(v) => Some(v),
        None => match effective {
            Some(e) => e.get_array("enum"),
            None => None,
        },
    };
    match direct {
        Some(v) => Some(v),
        None => match resolve_array_items_enum(root, schema, Ghost(fuel)) {
            Some(v) => Some(v),
            None => match effective {
                Some(e) => resolve_array_items_enum(root, e, Ghost(fuel)),
                None => None,
            },
        },
    }
}

/// The allowed-values paragraph.
fn enum_line_of(enums: Option<&Vec<Json>>) -> (r: Option<String>)
    ensures
        string_opt(r) == enum_line(vec_opt(enums)),
{
    match enums {
        Some(vals) => {
            let items = backticked_of(vals);
            let joined = join_strings(&items, ", ");
            Some(concat2("**Allowed values:** ", joined.as_str()))
        },
        None => None,
    }
}

#[verifier::spinoff_prover]
#[verifier::rlimit(40)]
fn hover_content_inner(root: &Json, schema: &Json, effective: Option<&Json>, Ghost(fuel): Ghost<nat>) -> (r:
    Option<String>)
    requires
        hover_inner_f(*root, *schema, deref_opt(effective), fuel) is Some,
    ensures
        string_opt(r) == hover_inner_f(*root, *schema, deref_opt(effective), fuel)->0,
{
    let ghost eff = deref_opt(effective);
    let mut parts: Vec<String> = Vec::new();
    push_part(&mut parts, match get_str_either(schema, effective, "description") {
        Some(d) => Some(to_string(d)),
        None => None,
    });
    let ty = type_either(root, schema, effective, Ghost(fuel));
    push_part(&mut parts, match &ty {
        Some(t) => Some(concat3("**Type:** `", t.as_str(), "`")),
        None => None,
    });
    push_part(&mut parts, json_line_of("**Default:** `", get_either(schema, effective, "default"), "`"));
    push_part(&mut parts, enum_line_of(enum_either(root, schema, effective, Ghost(fuel))));
    push_part(&mut parts, line_of("**Pattern:** `", get_str_either(schema, effective, "pattern"), "`"));
    push_part(&mut parts, json_line_of("**Minimum:** `", get_either(schema, effective, "minimum"), "`"));
    push_part(&mut parts, json_line_of("**Maximum:** `", get_either(schema, effective, "maximum"), "`"));
    assert(views(parts@) == hover_parts(
        *schema,
        eff,
        type_either_f(*root, *schema, eff, fuel)->0,
        enum_either_f(*root, *schema, eff, fuel)->0,
    ));
    if parts.len() == 0 {
        None
    } else {
        Some(join_strings(&parts, "\n\n"))
    }
}

proof fn lemma_step_fuel(root: Json, schema: Json, seg: Seq<char>, f: nat, g: nat)
    requires
        f <= g,
        step_f(root, schema, seg, f) is Some,
    ensures
        step_f(root, schema, seg, g) == step_f(root, schema, seg, f),
    decreases f, 0nat,
{
    if step_direct(schema, seg) is None {
        let (f1, g1) = ((f - 1) as nat, (g - 1) as nat);
        let all = array_or_empty(get_array(schema, "allOf"@));
        let any = array_or_empty(get_array(schema, "anyOf"@));
        let one = array_or_empty(get_array(schema, "oneOf"@));
        lemma_step_list_fuel(root, all, seg, f1, g1);
        if step_list_f(root, all, seg, f1) == Some::<Option<Json>>(None) {
            lemma_step_list_fuel(root, any, seg, f1, g1);
            if step_list_f(root, any, seg, f1) == Some::<Option<Json>>(None) {
                lemma_step_list_fuel(root, one, seg, f1, g1);
            }
        }
    }
}

proof fn lemma_step_list_fuel(root: Json, subs: Seq<Json>, seg: Seq<char>, f: nat, g: nat)
    requires
        f <= g,
        step_list_f(root, subs, seg, f) is Some,
    ensures
        step_list_f(root, subs, seg, g) == step_list_f(root, subs, seg, f),
    decreases f, subs.len() + 1,
{
    if subs.len() > 0 {
        lemma_step_fuel(root, resolve_ref(root, subs[0]), seg, f, g);
        if step_f(root, resolve_ref(root, subs[0]), seg, f) == Some::<Option<Json>>(None) {
            lemma_step_list_fuel(root, subs.drop_first(), seg, f, g);
        }
    }
}

proof fn lemma_walk_fuel(root: Json, schema: Json, path: Seq<Seq<char>>, f: nat, g: nat)
    requires
        f <= g,
        walk_f(root, schema, path, f) is Some,
    ensures
        walk_f(root, schema, path, g) == walk_f(root, schema, path, f),
    decreases path.len(),
{
    if path.len() > 0 {
        lemma_step_fuel(root, resolve_ref(root, schema), path[0], f, g);
        if let Some(Some(n)) = step_f(root, resolve_ref(root, schema), path[0], f) {
            lemma_walk_fuel(root, n, path.drop_first(), f, g);
        }
    }
}

/// The sub-schema at a path does not depend on how deep the search through
/// `allOf`, `anyOf` and `oneOf` may go: every depth at which the walk ends
/// gives it.
pub proof fn lemma_sub_schema_any_fuel(root: Json, path: Seq<Seq<char>>, f: nat)
    requires
        walk_f(root, root, path, f) is Some,
    ensures
        sub_schema_defined(root, path),
        sub_schema(root, path) == walk_f(root, root, path, f)->0,
{
    let c = choose|x: nat| (#[trigger] walk_f(root, root, path, x)) is Some;
    if c <= f {
        lemma_walk_fuel(root, root, path, c, f);
    } else {
        lemma_walk_fuel(root, root, path, f, c);
    }
}

proof fn lemma_type_fuel(root: Json, s: Json, f: nat, g: nat)
    requires
        f <= g,
        type_f(root, s, f) is Some,
    ensures
        type_f(root, s, g) == type_f(root, s, f),
    decreases f, 0nat,
{
    let (f1, g1) = ((f - 1) as nat, (g - 1) as nat);
    if let Some(items) = json_get(s, "items"@) {
        if label_f(root, items, f1) is Some {
            lemma_label_fuel(root, items, f1, g1);
        }
    }
    let all = array_or_empty(get_array(s, "allOf"@));
    if type_list_f(root, all, f1) is Some {
        lemma_type_list_fuel(root, all, f1, g1);
    }
    if let Some(vs) = get_array(s, "oneOf"@) {
        if labels_f(root, vs, f1) is Some {
            lemma_labels_fuel(root, vs, f1, g1);
        }
    }
    if let Some(vs) = get_array(s, "anyOf"@) {
        if labels_f(root, vs, f1) is Some {
            lemma_labels_fuel(root, vs, f1, g1);
        }
    }
}

proof fn lemma_type_list_fuel(root: Json, subs: Seq<Json>, f: nat, g: nat)
    requires
        f <= g,
        type_list_f(root, subs, f) is Some,
    ensures
        type_list_f(root, subs, g) == type_list_f(root, subs, f),
    decreases f, subs.len() + 1,
{
    if subs.len() > 0 {
        lemma_type_fuel(root, resolve_ref(root, subs[0]), f, g);
        if type_f(root, resolve_ref(root, subs[0]), f) == Some::<Option<Seq<char>>>(None) {
            lemma_type_list_fuel(root, subs.drop_first(), f, g);
        }
    }
}

proof fn lemma_labels_fuel(root: Json, vs: Seq<Json>, f: nat, g: nat)
    requires
        f <= g,
        labels_f(root, vs, f) is Some,
    ensures
        labels_f(root, vs, g) == labels_f(root, vs, f),
    decreases f, vs.len() + 1,
{
    if vs.len() > 0 {
        lemma_labels_fuel(root, vs.drop_last(), f, g);
        lemma_label_fuel(root, vs.last(), f, g);
    }
}

proof fn lemma_label_fuel(root: Json, s: Json, f: nat, g: nat)
    requires
        f <= g,
        label_f(root, s, f) is Some,
    ensures
        label_f(root, s, g) == label_f(root, s, f),
    decreases f, 0nat,
{
    let (f1, g1) = ((f - 1) as nat, (g - 1) as nat);
    if let Some(items) = json_get(s, "items"@) {
        if label_f(root, items, f1) is Some {
            lemma_label_fuel(root, items, f1, g1);
        }
    }
    if type_f(root, s, f1) is Some {
        lemma_type_fuel(root, s, f1, g1);
    }
}

proof fn lemma_items_enum_fuel(root: Json, s: Json, f: nat, g: nat)
    requires
        f <= g,
        items_enum_f(root, s, f) is Some,
    ensures
        items_enum_f(root, s, g) == items_enum_f(root, s, f),
    decreases f, 0nat,
{
    let (f1, g1) = ((f - 1) as nat, (g - 1) as nat);
    let all = array_or_empty(get_array(s, "allOf"@));
    let any = array_or_empty(get_array(s, "anyOf"@));
    let one = array_or_empty(get_array(s, "oneOf"@));
    if items_enum_list_f(root, all, f1) is Some {
        lemma_items_enum_list_fuel(root, all, f1, g1);
    }
    if items_enum_list_f(root, any, f1) is Some {
        lemma_items_enum_list_fuel(root, any, f1, g1);
    }
    if items_enum_list_f(root, one, f1) is Some {
        lemma_items_enum_list_fuel(root, one, f1, g1);
    }
}

proof fn lemma_items_enum_list_fuel(root: Json, subs: Seq<Json>, f: nat, g: nat)
    requires
        f <= g,
        items_enum_list_f(root, subs, f) is Some,
    ensures
        items_enum_list_f(root, subs, g) == items_enum_list_f(root, subs, f),
    decreases f, subs.len() + 1,
{
    if subs.len() > 0 {
        lemma_items_enum_fuel(root, resolve_ref(root, subs[0]), f, g);
        if items_enum_f(root, resolve_ref(root, subs[0]), f) == Some::<Option<Seq<Json>>>(None) {
            lemma_items_enum_list_fuel(root, subs.drop_first(), f, g);
        }
    }
}

proof fn lemma_either_fuel(root: Json, s: Json, eff: Option<Json>, f: nat, g: nat)
    requires
        f <= g,
    ensures
        type_either_f(root, s, eff, f) is Some ==> type_either_f(root, s, eff, g)
            == type_either_f(root, s, eff, f),
        enum_either_f(root, s, eff, f) is Some ==> enum_either_f(root, s, eff, g)
            == enum_either_f(root, s, eff, f),
{
    if type_f(root, s, f) is Some {
        lemma_type_fuel(root, s, f, g);
    }
    if items_enum_f(root, s, f) is Some {
        lemma_items_enum_fuel(root, s, f, g);
    }
    if let Some(e) = eff {
        if type_f(root, e, f) is Some {
            lemma_type_fuel(root, e, f, g);
        }
        if items_enum_f(root, e, f) is Some {
            lemma_items_enum_fuel(root, e, f, g);
        }
    }
}

/// The type string of a schema does not depend on how deep the search
/// through compositions may go: every depth at which it ends gives it.
pub proof fn lemma_type_string_any_fuel(root: Json, schema: Json, f: nat)
    requires
        type_string_f(root, schema, f) is Some,
    ensures
        type_string_defined(root, schema),
        type_string_of(root, schema) == type_string_f(root, schema, f)->0,
{
    let c = choose|x: nat| (#[trigger] type_string_f(root, schema, x)) is Some;
    let s = resolve_ref(root, schema);
    if c <= f {
        lemma_either_fuel(root, s, resolved_effective(root, s), c, f);
    } else {
        lemma_either_fuel(root, s, resolved_effective(root, s), f, c);
    }
}

/// The hover text of a schema does not depend on how deep the search
/// through compositions may go: every depth at which it ends gives it.
pub proof fn lemma_hover_any_fuel(root: Json, schema: Json, f: nat)
    requires
        hover_f(root, schema, f) is Some,
    ensures
        hover_defined(root, schema),
        hover_of(root, schema) == hover_f(root, schema, f)->0,
{
    let c = choose|x: nat| (#[trigger] hover_f(root, schema, x)) is Some;
    let s = resolve_ref(root, schema);
    if c <= f {
        lemma_either_fuel(root, s, resolved_effective(root, s), c, f);
    } else {
        lemma_either_fuel(root, s, resolved_effective(root, s), f, c);
    }
}

proof fn lemma_walk_push(root: Json, x: Json, ps: Seq<Seq<char>>, seg: Seq<char>, f: nat, s: Json)
    requires
        walk_f(root, x, ps, f) == Some(Some(s)),
    ensures
        walk_f(root, x, ps.push(seg), f) == match step_f(root, s, seg, f) {
            Some(Some(n)) => Some(Some(resolve_ref(root, n))),
            other => other,
        },
    decreases ps.len(),
{
    if ps.len() == 0 {
        assert(s == resolve_ref(root, x));
        assert(ps.push(seg) == seq![seg]);
        assert(seq![seg].drop_first() == Seq::<Seq<char>>::empty());
        assert(seq![seg][0] == seg);
        if let Some(Some(n)) = step_f(root, s, seg, f) {
            assert(walk_f(root, n, seq![seg].drop_first(), f) == Some(Some(resolve_ref(root, n))));
        }
    } else {
        assert(ps.push(seg)[0] == ps[0]);
        assert(ps.push(seg).drop_first() == ps.drop_first().push(seg));
        if let Some(Some(n)) = step_f(root, resolve_ref(root, x), ps[0], f) {
            lemma_walk_push(root, n, ps.drop_first(), seg, f, s);
        }
    }
}

/// A fuel at which the walk to `ps` ends, at least `k`.
proof fn lemma_walk_fuel_at_least(root: Json, ps: Seq<Seq<char>>, k: nat) -> (g: nat)
    requires
        sub_schema_defined(root, ps),
    ensures
        g >= k,
        walk_f(root, root, ps, g) is Some,
        walk_f(root, root, ps, g)->0 == sub_schema(root, ps),
{
    let f = choose|x: nat| (#[trigger] walk_f(root, root, ps, x)) is Some;
    let g = f + k;
    lemma_walk_fuel(root, root, ps, f, g);
    g
}

/// A key named in `properties` is always followed into its own schema: when
/// the sub-schema at `ps` declares a property `seg`, the sub-schema at
/// `ps` then `seg` is that property's schema (its `$ref` resolved), whatever
/// `items`, `additionalProperties` or the compositions hold.
pub proof fn lemma_declared_property_is_followed(
    root: Json,
    ps: Seq<Seq<char>>,
    seg: Seq<char>,
    s: Json,
    p: Json,
    v: Json,
)
    requires
        sub_schema_defined(root, ps),
        sub_schema(root, ps) == Some(s),
        json_get(s, "properties"@) == Some(p),
        json_get(p, seg) == Some(v),
    ensures
        sub_schema_defined(root, ps.push(seg)),
        sub_schema(root, ps.push(seg)) == Some(resolve_ref(root, v)),
{
    let g = lemma_walk_fuel_at_least(root, ps, 1);
    lemma_walk_push(root, root, ps, seg, g, s);
    lemma_sub_schema_any_fuel(root, ps.push(seg), g);
}

/// A step that nothing else takes goes through `oneOf`: when the sub-schema
/// at `ps` has no `properties`, `items`, `additionalProperties`, `allOf` or
/// `anyOf`, and its first `oneOf` variant (its `$ref` resolved) declares a
/// property `seg`, the sub-schema at `ps` then `seg` is that property's
/// schema.
pub proof fn lemma_one_of_is_followed(
    root: Json,
    ps: Seq<Seq<char>>,
    seg: Seq<char>,
    s: Json,
    vs: Seq<Json>,
    p: Json,
    v: Json,
)
    requires
        sub_schema_defined(root, ps),
        sub_schema(root, ps) == Some(s),
        json_get(s, "properties"@) is None,
        json_get(s, "items"@) is None,
        json_get(s, "additionalProperties"@) is None,
        get_array(s, "allOf"@) is None,
        get_array(s, "anyOf"@) is None,
        get_array(s, "oneOf"@) == Some(vs),
        vs.len() > 0,
        json_get(resolve_ref(root, vs[0]), "properties"@) == Some(p),
        json_get(p, seg) == Some(v),
    ensures
        sub_schema_defined(root, ps.push(seg)),
        sub_schema(root, ps.push(seg)) == Some(resolve_ref(root, v)),
{
    let g = lemma_walk_fuel_at_least(root, ps, 2);
    let f1 = (g - 1) as nat;
    assert(step_f(root, resolve_ref(root, vs[0]), seg, f1) == Some(Some(v)));
    assert(step_list_f(root, vs, seg, f1) == Some(Some(v)));
    assert(step_list_f(root, Seq::<Json>::empty(), seg, f1) == Some::<Option<Json>>(None));
    assert(step_f(root, s, seg, g) == Some(Some(v)));
    lemma_walk_push(root, root, ps, seg, g, s);
    lemma_sub_schema_any_fuel(root, ps.push(seg), g);
}

/// `x` occurs in `h` as a run of consecutive characters.
pub open spec fn has_substring(h: Seq<char>, x: Seq<char>) -> bool {
    exists|i: int| 0 <= i && i + x.len() <= h.len() && #[trigger] h.subrange(i, i + x.len()) == x
}

proof fn lemma_substring_at(h: Seq<char>, x: Seq<char>, i: int)
    requires
        0 <= i,
        i + x.len() <= h.len(),
        h.subrange(i, i + x.len()) == x,
    ensures
        has_substring(h, x),
{
}

proof fn lemma_join_has_part(parts: Seq<Seq<char>>, sep: Seq<char>, k: int)
    requires
        0 <= k < parts.len(),
    ensures
        has_substring(join(parts, sep), parts[k]),
    decreases parts.len(),
{
    let x = parts[k];
    if parts.len() == 1 {
        assert(join(parts, sep).subrange(0, x.len() as int) =~= x);
        lemma_substring_at(join(parts, sep), x, 0);
    } else {
        let front = join(parts.drop_last(), sep);
        let j = join(parts, sep);
        assert(j == front + sep + parts.last());
        if k == parts.len() - 1 {
            let i: int = (front.len() + sep.len()) as int;
            assert(j.subrange(i, i + x.len()) =~= x);
            lemma_substring_at(j, x, i);
        } else {
            lemma_join_has_part(parts.drop_last(), sep, k);
            assert(parts.drop_last()[k] == x);
            let i = choose|i: int|
                0 <= i && i + x.len() <= front.len() && #[trigger] front.subrange(i, i + x.len())
                    == x;
            assert(j.subrange(i, i + x.len()) =~= front.subrange(i, i + x.len()));
            lemma_substring_at(j, x, i);
        }
    }
}

/// The hover text shows the minimum of the effective sub-schema when the
/// schema has none of its own: when the schema (its `$ref` resolved) has no
/// `minimum`, and its first `allOf` entry, or else (with no `allOf`) its
/// first `anyOf` variant that is not of type `"null"`, has minimum `m` (its
/// `$ref` resolved), the hover text holds the paragraph
/// ``**Minimum:** `m` `` with `m`'s JSON text.
pub proof fn lemma_hover_shows_effective_minimum(root: Json, schema: Json, e: Json, m: Json)
    requires
        hover_defined(root, schema),
        json_get(resolve_ref(root, schema), "minimum"@) is None,
        ({
            let s = resolve_ref(root, schema);
            ||| get_array(s, "allOf"@) matches Some(a) && a.len() > 0 && a[0] == e
            ||| get_array(s, "allOf"@) is None && (get_array(s, "anyOf"@) matches Some(vs) && vs.len()
                > 0 && vs[0] == e && get_str(e, "type"@) != Some("null"@))
        }),
        json_get(resolve_ref(root, e), "minimum"@) == Some(m),
    ensures
        hover_of(root, schema) matches Some(h) && has_substring(
            h,
            "**Minimum:** `"@ + json_text(m) + "`"@,
        ),
{
    let s = resolve_ref(root, schema);
    let f = choose|x: nat| (#[trigger] hover_f(root, schema, x)) is Some;
    let eff = resolved_effective(root, s);
    assert(effective(s) == Some(e));
    assert(eff == Some(resolve_ref(root, e)));
    let x = "**Minimum:** `"@ + json_text(m) + "`"@;
    assert(minimum_line(s, eff) == Some(x));
    let ty = type_either_f(root, s, eff, f)->0;
    let en = enum_either_f(root, s, eff, f)->0;
    let parts = hover_parts(s, eff, ty, en);
    let p1 = push_some(Seq::<Seq<char>>::empty(), desc_line(s, eff));
    let p2 = push_some(p1, type_line(ty));
    let p3 = push_some(p2, default_line(s, eff));
    let p4 = push_some(p3, enum_line(en));
    let p5 = push_some(p4, pattern_line(s, eff));
    let p6 = push_some(p5, minimum_line(s, eff));
    assert(p6 == p5.push(x));
    assert(parts[p5.len() as int] == x);
    lemma_join_has_part(parts, "\n\n"@, p5.len() as int);
}

} // verus!
