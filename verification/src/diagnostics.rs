//! Diagnostics for a document: parse errors, schema problems, and the
//! errors that validating the document against its schema reports.
use vstd::prelude::*;
use vstd::string::StringSliceAdditionalSpecFns;

use crate::document::{
    instance_target, max_offset, resolve_instance_path, span_offsets, span_on_boundaries,
    span_to_range, Node, Span,
};
use crate::json::Json;
use crate::schema::{
    hover_content, hover_defined, hover_of, path_views, resolve_sub_schema, string_opt, sub_schema,
    sub_schema_defined,
};
use crate::strings::{
    chars_of, concat2, concat3, has_prefix, lines, lines_of, split_char, split_on, starts_with,
    string_from_range, to_string, trim_end_char, trim_end_matches, trim_start_all,
    trim_start_matches, views,
};
use crate::text::{line_col, origin_range, positions_fit, Position, Range};

verus! {

/// How serious a diagnostic is.
#[derive(Clone, Copy, Debug, PartialEq, Eq)]
pub enum Severity {
    Error,
    Warning,
}

/// A message about a range of the document.
#[derive(Debug)]
pub struct Diagnostic {
    pub range: Range,
    pub severity: Severity,
    pub source: String,
    pub message: String,
}

/// A schema validation error: the JSON pointer path of the value that
/// failed, the error's message, and for a value that matched none of the
/// `anyOf` or `oneOf` variants, the errors each variant reported.
#[derive(Debug)]
pub struct SchemaError {
    pub path: String,
    pub message: String,
    pub variants: Option<Vec<Vec<SchemaError>>>,
}

/// How many segments a JSON pointer path has: one per `/` (a `/` inside a
/// segment is written `~1`).
pub open spec fn path_depth(p: Seq<char>) -> nat
    decreases p.len(),
{
    if p.len() == 0 {
        0
    } else if p.last() == '/' {
        path_depth(p.drop_last()) + 1
    } else {
        path_depth(p.drop_last())
    }
}

/// A diagnostic as plain values: range, severity, source, message.
pub open spec fn diag_view(d: Diagnostic) -> (Range, Severity, Seq<char>, Seq<char>) {
    (d.range, d.severity, d.source@, d.message@)
}

/// The plain values of a sequence of diagnostics.
pub open spec fn diag_views(ds: Seq<Diagnostic>) -> Seq<(Range, Severity, Seq<char>, Seq<char>)> {
    ds.map_values(|d: Diagnostic| diag_view(d))
}

/// The position of a byte offset.
pub open spec fn position_of(b: Seq<u8>, o: int) -> Position {
    Position { line: line_col(b, o).0 as u32, character: line_col(b, o).1 as u32 }
}

/// The range of positions of a span.
pub open spec fn span_range(b: Seq<u8>, sp: Span) -> Range {
    Range { start: position_of(b, span_offsets(b, sp).0), end: position_of(b, span_offsets(b, sp).1) }
}

/// The range at the start of the text.
pub open spec fn origin() -> Range {
    Range {
        start: Position { line: 0, character: 0 },
        end: Position { line: 0, character: 0 },
    }
}

/// The range a diagnostic about the value at `path` covers: the span of the
/// node there, or the start of the text when there is no such node. `None`
/// when that span cannot be converted (it does not lie on character
/// boundaries, or its positions do not fit).
pub open spec fn diag_range(node: Node, path: Seq<char>, b: Seq<u8>) -> Option<Range> {
    match instance_target(node, path) {
        Some(n) => if span_on_boundaries(b, n.span) && positions_fit(
            b,
            max_offset(span_offsets(b, n.span)),
        ) {
            Some(span_range(b, n.span))
        } else {
            None
        },
        None => Some(origin()),
    }
}

/// The message of an error, prefixed by its path when there is one.
pub open spec fn plain_message(path: Seq<char>, message: Seq<char>) -> Seq<char> {
    if path.len() == 0 {
        message
    } else {
        path + ": "@ + message
    }
}

/// The segments of a JSON pointer path; none for the empty path.
pub open spec fn path_segments(p: Seq<char>) -> Seq<Seq<char>> {
    if p.len() == 0 {
        Seq::<Seq<char>>::empty()
    } else if p[0] == '/' {
        split_on(p.drop_first(), '/')
    } else {
        split_on(p, '/')
    }
}

/// The first line that starts with `**Type:**`.
pub open spec fn first_type_line(ls: Seq<Seq<char>>) -> Option<Seq<char>>
    decreases ls.len(),
{
    if ls.len() == 0 {
        None
    } else if has_prefix(ls[0], "**Type:**"@) {
        Some(ls[0])
    } else {
        first_type_line(ls.drop_first())
    }
}

/// The type named in hover text: its `**Type:**` line without the label and
/// the backticks, or "a valid value" when there is none.
pub open spec fn expected_type(hover: Option<Seq<char>>) -> Seq<char> {
    match hover {
        Some(c) => match first_type_line(lines_of(c)) {
            Some(l) => trim_end_char(trim_start_all(l, "**Type:** `"@), '`'),
            None => "a valid value"@,
        },
        None => "a valid value"@,
    }
}

/// The message for a value that matched none of its variants: what type the
/// schema expects there, or the error's own message when the schema has no
/// sub-schema at that path. `None` when looking up the schema does not end.
pub open spec fn expected_message(path: Seq<char>, message: Seq<char>, root: Json) -> Option<
    Seq<char>,
> {
    let segs = path_segments(path);
    if !sub_schema_defined(root, segs) {
        None
    } else {
        match sub_schema(root, segs) {
            Some(sub) => if hover_defined(root, sub) {
                let ty = expected_type(hover_of(root, sub));
                Some(
                    if path.len() == 0 {
                        "expected "@ + ty
                    } else {
                        path + ": expected "@ + ty
                    },
                )
            } else {
                None
            },
            None => Some(plain_message(path, message)),
        }
    }
}

/// Every error of every variant is at the path `p`.
pub open spec fn all_at_path(vs: Seq<Vec<SchemaError>>, p: Seq<char>) -> bool {
    forall|i: int, j: int|
        0 <= i < vs.len() && 0 <= j < vs[i].len() ==> (#[trigger] vs[i]@[j]).path@ == p
}

/// The greatest depth among the errors; zero for none.
pub open spec fn max_depth(es: Seq<SchemaError>) -> nat
    decreases es.len(),
{
    if es.len() == 0 {
        0
    } else {
        let rest = max_depth(es.drop_last());
        if path_depth(es.last().path@) > rest {
            path_depth(es.last().path@)
        } else {
            rest
        }
    }
}

/// The greatest of the variants' depths; zero for none.
pub open spec fn deepest(vs: Seq<Vec<SchemaError>>) -> nat
    decreases vs.len(),
{
    if vs.len() == 0 {
        0
    } else {
        let rest = deepest(vs.drop_last());
        if max_depth(vs.last()@) > rest {
            max_depth(vs.last()@)
        } else {
            rest
        }
    }
}

/// The index of the first variant at least `d` deep, counting from `i`;
/// the length when there is none.
pub open spec fn first_at_depth(vs: Seq<Vec<SchemaError>>, d: nat, i: int) -> int
    decreases vs.len() - i,
{
    if i >= vs.len() {
        vs.len() as int
    } else if max_depth(vs[i]@) >= d {
        i
    } else {
        first_at_depth(vs, d, i + 1)
    }
}

/// The diagnostics for the most specific errors below `e`. A value that
/// matched none of its variants gets one diagnostic saying what is expected
/// there when all variants failed at its own path; otherwise the errors of
/// the first deepest variant are expanded. Any other error gets one
/// diagnostic with its message. `None` when looking up the schema would not end
/// or a range cannot be converted.
pub open spec fn leaf_f(e: SchemaError, node: Node, b: Seq<u8>, root: Json) -> Option<
    Seq<(Range, Severity, Seq<char>, Seq<char>)>,
>
    decreases e,
{
    let leaf = match diag_range(node, e.path@, b) {
        Some(r) => Some(seq![(r, Severity::Error, "ayml-schema"@, plain_message(e.path@, e.message@))]),
        None => None,
    };
    match e.variants {
        Some(vs) => if all_at_path(vs@, e.path@) {
            match (diag_range(node, e.path@, b), expected_message(e.path@, e.message@, root)) {
                (Some(r), Some(m)) => Some(seq![(r, Severity::Error, "ayml-schema"@, m)]),
                _ => None,
            }
        } else {
            let k = first_at_depth(vs@, deepest(vs@), 0);
            if 0 <= k < vs.len() {
                errors_f(vs@[k]@, node, b, root)
            } else {
                leaf
            }
        },
        None => leaf,
    }
}

/// The diagnostics for each error in turn.
pub open spec fn errors_f(es: Seq<SchemaError>, node: Node, b: Seq<u8>, root: Json) -> Option<
    Seq<(Range, Severity, Seq<char>, Seq<char>)>,
>
    decreases es,
{
    if es.len() == 0 {
        Some(Seq::empty())
    } else {
        match (errors_f(es.drop_last(), node, b, root), leaf_f(es.last(), node, b, root)) {
            (Some(a), Some(c)) => Some(a + c),
            _ => None,
        }
    }
}

pub(crate) proof fn lemma_errors_prefix(es: Seq<SchemaError>, k: int, node: Node, b: Seq<u8>, root: Json)
    requires
        0 <= k < es.len(),
        errors_f(es, node, b, root) is Some,
    ensures
        errors_f(es.take(k), node, b, root) is Some,
        leaf_f(es[k], node, b, root) is Some,
        errors_f(es.take(k + 1), node, b, root) == Some(
            errors_f(es.take(k), node, b, root)->0 + leaf_f(es[k], node, b, root)->0,
        ),
    decreases es.len(),
{
    assert(es.take(k + 1).drop_last() == es.take(k));
    if k + 1 < es.len() {
        lemma_errors_prefix(es.drop_last(), k, node, b, root);
        assert(es.drop_last().take(k) == es.take(k));
        assert(es.drop_last().take(k + 1) == es.take(k + 1));
    } else {
        assert(es.take(k + 1) == es);
    }
}

/// The range of the node at `path`, or the start of the text.
fn diagnostic_range(node: &Node, path: &str, text: &str) -> (r: Range)
    requires
        diag_range(*node, path@, text.spec_bytes()) is Some,
    ensures
        r == diag_range(*node, path@, text.spec_bytes())->0,
{
    match resolve_instance_path(node, path) {
        Some(span) => {
            let ghost b = text.spec_bytes();
            let ghost o = span_offsets(b, span);
            assert(line_col(b, o.0).0 <= u32::MAX && line_col(b, o.0).1 <= u32::MAX);
            assert(line_col(b, o.1).0 <= u32::MAX && line_col(b, o.1).1 <= u32::MAX);
            span_to_range(text, span)
        },
        None => origin_range(),
    }
}

/// The message of an error, prefixed by its path when there is one.
fn plain_message_of(path: &str, message: &str) -> (r: String)
    ensures
        r@ == plain_message(path@, message@),
{
    if chars_of(path).len() == 0 {
        to_string(message)
    } else {
        concat3(path, ": ", message)
    }
}

/// Every error of every variant is at `path`.
fn all_same_path(variants: &Vec<Vec<SchemaError>>, path: &str) -> (r: bool)
    ensures
        r == all_at_path(variants@, path@),
{
    let mut i: usize = 0;
    while i < variants.len()
        invariant
            i <= variants.len(),
            forall|a: int, c: int|
                0 <= a < i && 0 <= c < variants@[a].len() ==> (#[trigger] variants@[a]@[c]).path@
                    == path@,
        decreases variants.len() - i,
    {
        let mut j: usize = 0;
        while j < variants[i].len()
            invariant
                i < variants.len(),
                j <= variants@[i as int].len(),
                forall|c: int| 0 <= c < j ==> (#[trigger] variants@[i as int]@[c]).path@ == path@,
            decreases variants@[i as int].len() - j,
        {
            if !crate::strings::text_eq(variants[i][j].path.as_str(), path) {
                assert(!all_at_path(variants@, path@)) by {
                    assert(variants@[i as int]@[j as int].path@ != path@);
                }
                return false;
            }
            j = j + 1;
        }
        i = i + 1;
    }
    true
}

/// How many segments a JSON pointer path has.
fn path_depth_of(path: &str) -> (r: usize)
    ensures
        r as nat == path_depth(path@),
{
    let cs = chars_of(path);
    let mut n: usize = 0;
    let mut i: usize = 0;
    assert(cs@.take(0) == Seq::<char>::empty());
    while i < cs.len()
        invariant
            cs@ == path@,
            i <= cs.len(),
            n as nat == path_depth(cs@.take(i as int)),
            n <= i,
        decreases cs.len() - i,
    {
        assert(cs@.take(i + 1).drop_last() == cs@.take(i as int));
        if cs[i] == '/' {
            n = n + 1;
        }
        i = i + 1;
    }
    assert(cs@.take(cs.len() as int) == cs@);
    n
}

/// The greatest depth among the errors; zero for none.
fn max_depth_of(es: &Vec<SchemaError>) -> (r: usize)
    ensures
        r as nat == max_depth(es@),
{
    let mut m: usize = 0;
    let mut i: usize = 0;
    assert(es@.take(0) == Seq::<SchemaError>::empty());
    while i < es.len()
        invariant
            i <= es.len(),
            m as nat == max_depth(es@.take(i as int)),
        decreases es.len() - i,
    {
        assert(es@.take(i + 1).drop_last() == es@.take(i as int));
        let d = path_depth_of(es[i].path.as_str());
        if d > m {
            m = d;
        }
        i = i + 1;
    }
    assert(es@.take(es.len() as int) == es@);
    m
}

/// The greatest of the variants' depths; zero for none.
fn deepest_of(vs: &Vec<Vec<SchemaError>>) -> (r: usize)
    ensures
        r as nat == deepest(vs@),
{
    let mut m: usize = 0;
    let mut i: usize = 0;
    assert(vs@.take(0) == Seq::<Vec<SchemaError>>::empty());
    while i < vs.len()
        invariant
            i <= vs.len(),
            m as nat == deepest(vs@.take(i as int)),
        decreases vs.len() - i,
    {
        assert(vs@.take(i + 1).drop_last() == vs@.take(i as int));
        let d = max_depth_of(&vs[i]);
        if d > m {
            m = d;
        }
        i = i + 1;
    }
    assert(vs@.take(vs.len() as int) == vs@);
    m
}

/// The segments of a JSON pointer path.
fn path_segments_of(path: &str) -> (r: Vec<String>)
    ensures
        views(r@) == path_segments(path@),
{
    let cs = chars_of(path);
    if cs.len() == 0 {
        let r: Vec<String> = Vec::new();
        assert(views(r@) == Seq::<Seq<char>>::empty());
        return r;
    }
    if cs[0] == '/' {
        let rest = string_from_range(&cs, 1, cs.len());
        assert(cs@.subrange(1, cs@.len() as int) == cs@.drop_first());
        split_char(rest.as_str(), '/')
    } else {
        split_char(path, '/')
    }
}

/// The type named in hover text, or "a valid value".
fn expected_type_of(hover: Option<String>) -> (r: String)
    ensures
        r@ == expected_type(string_opt(hover)),
{
    match &hover {
        Some(c) => {
            let ls = lines(c.as_str());
            let ghost all = views(ls@);
            let mut i: usize = 0;
            assert(all.skip(0) == all);
            while i < ls.len()
                invariant
                    all == views(ls@),
                    all == lines_of(c@),
                    string_opt(hover) == Some(c@),
                    i <= ls.len(),
                    first_type_line(all) == first_type_line(all.skip(i as int)),
                decreases ls.len() - i,
            {
                assert(all.skip(i as int).drop_first() == all.skip(i + 1));
                assert(all.skip(i as int)[0] == ls@[i as int]@);
                if starts_with(ls[i].as_str(), "**Type:**") {
                    let t = trim_start_matches(ls[i].as_str(), "**Type:** `");
                    return trim_end_matches(t.as_str(), '`');
                }
                i = i + 1;
            }
            to_string("a valid value")
        },
        None => to_string("a valid value"),
    }
}

/// What type the schema expects at `path`, or the error's own message.
fn expected_message_of(path: &str, message: &str, root: &Json) -> (r: String)
    requires
        expected_message(path@, message@, *root) is Some,
    ensures
        r@ == expected_message(path@, message@, *root)->0,
{
    let segs = path_segments_of(path);
    let mut refs: Vec<&str> = Vec::new();
    let mut i: usize = 0;
    while i < segs.len()
        invariant
            i <= segs.len(),
            refs@.len() == i,
            forall|k: int| 0 <= k < i ==> (#[trigger] refs@[k])@ == segs@[k]@,
        decreases segs.len() - i,
    {
        refs.push(segs[i].as_str());
        i = i + 1;
    }
    assert(path_views(refs@) == views(segs@));
    match resolve_sub_schema(root, refs.as_slice()) {
        Some(sub) => {
            let ty = expected_type_of(hover_content(root, sub));
            if chars_of(path).len() == 0 {
                concat2("expected ", ty.as_str())
            } else {
                concat3(path, ": expected ", ty.as_str())
            }
        },
        None => plain_message_of(path, message),
    }
}

/// Appends a diagnostic from the schema validator.
fn push_schema_diagnostic(diagnostics: &mut Vec<Diagnostic>, range: Range, message: String)
    ensures
        diag_views(final(diagnostics)@) == diag_views(old(diagnostics)@).push(
            (range, Severity::Error, "ayml-schema"@, message@),
        ),
{
    let d = Diagnostic {
        range,
        severity: Severity::Error,
        source: to_string("ayml-schema"),
        message,
    };
    diagnostics.push(d);
    assert(diag_views(diagnostics@) == diag_views(old(diagnostics)@).push(diag_view(d)));
}

/// Recursively collect the most specific (leaf) validation errors.
/// Composition errors (anyOf, oneOf) are expanded into their sub-errors so
/// diagnostics point to the actual invalid values rather than the outer
/// composition keyword.
pub fn collect_leaf_errors(
    error: &SchemaError,
    node: &Node,
    text: &str,
    schema_root: &Json,
    diagnostics: &mut Vec<Diagnostic>,
)
    requires
        leaf_f(*error, *node, text.spec_bytes(), *schema_root) is Some,
    ensures
        diag_views(final(diagnostics)@) == diag_views(old(diagnostics)@) + leaf_f(
            *error,
            *node,
            text.spec_bytes(),
            *schema_root,
        )->0,
    decreases error,
{
    let ghost b = text.spec_bytes();
    if let Some(variants) = &error.variants {
        if all_same_path(variants, error.path.as_str()) {
            let range = diagnostic_range(node, error.path.as_str(), text);
            let message = expected_message_of(
                error.path.as_str(),
                error.message.as_str(),
                schema_root,
            );
            push_schema_diagnostic(diagnostics, range, message);
            return;
        }
        let depth = deepest_of(variants);
        let mut i: usize = 0;
        while i < variants.len()
            invariant
                i <= variants.len(),
                error.variants == Some(*variants),
                first_at_depth(variants@, depth as nat, 0) == first_at_depth(
                    variants@,
                    depth as nat,
                    i as int,
                ),
                depth as nat == deepest(variants@),
                diagnostics@ == old(diagnostics)@,
                !all_at_path(variants@, error.path@),
                leaf_f(*error, *node, text.spec_bytes(), *schema_root) is Some,
            decreases variants.len() - i,
        {
            if max_depth_of(&variants[i]) >= depth {
                assert(decreases_to!(*error => error.variants));
                assert(decreases_to!(error.variants => *variants));
                assert(decreases_to!(*variants => variants@));
                assert(decreases_to!(variants@ => variants@[i as int]));
                collect_all(&variants[i], node, text, schema_root, diagnostics);
                return;
            }
            i = i + 1;
        }
    }
    let range = diagnostic_range(node, error.path.as_str(), text);
    let message = plain_message_of(error.path.as_str(), error.message.as_str());
    push_schema_diagnostic(diagnostics, range, message);
}

/// Collect the leaf errors of each error in turn.
pub(crate) fn collect_all(
    errors: &Vec<SchemaError>,
    node: &Node,
    text: &str,
    schema_root: &Json,
    diagnostics: &mut Vec<Diagnostic>,
)
    requires
        errors_f(errors@, *node, text.spec_bytes(), *schema_root) is Some,
    ensures
        diag_views(final(diagnostics)@) == diag_views(old(diagnostics)@) + errors_f(
            errors@,
            *node,
            text.spec_bytes(),
            *schema_root,
        )->0,
    decreases errors,
{
    let ghost b = text.spec_bytes();
    let mut j: usize = 0;
    assert(errors@.take(0) == Seq::<SchemaError>::empty());
    while j < errors.len()
        invariant
            j <= errors.len(),
            b == text.spec_bytes(),
            errors_f(errors@, *node, b, *schema_root) is Some,
            errors_f(errors@.take(j as int), *node, b, *schema_root) is Some,
            diag_views(diagnostics@) == diag_views(old(diagnostics)@) + errors_f(
                errors@.take(j as int),
                *node,
                b,
                *schema_root,
            )->0,
        decreases errors.len() - j,
    {
        proof {
            lemma_errors_prefix(errors@, j as int, *node, b, *schema_root);
        }
        assert(decreases_to!(*errors => errors@));
        assert(decreases_to!(errors@ => errors@[j as int]));
        collect_leaf_errors(&errors[j], node, text, schema_root, diagnostics);
        j = j + 1;
    }
    assert(errors@.take(errors.len() as int) == errors@);
}

} // verus!
