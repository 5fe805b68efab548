//! The language server's decisions: what each message from the editor does
//! to the open documents and what is sent back, the diagnostics published
//! for a document, and the hover answer at a position.
use vstd::prelude::*;
use vstd::string::StringSliceAdditionalSpecFns;

use crate::diagnostics::{
    collect_all, diag_views, errors_f, Diagnostic, SchemaError, Severity,
};
use crate::document::{compute_hover_range, hover_offsets, hover_spans_ok, max_offset, Node};
use crate::json::Json;
use crate::schema::{
    hover_content, hover_defined, hover_of, path_views, resolve_sub_schema, string_opt, sub_schema,
    sub_schema_defined,
};
use crate::locate::{path_at, path_at_offset};
use crate::store::TextMap;
use crate::strings::{concat2, to_string, views};
use crate::text::{
    in_comment, offset_of_position, origin_range, position_to_offset, positions_fit,
    positions_fit_raw, Position,
    Range,
};

verus! {

/// A message from the editor, as far as the server's decisions need it.
pub enum Event {
    /// A hover request about a document.
    Hover { uri: String },
    /// A request for a method the server does not handle.
    Request { method: String },
    /// A document was opened with this text.
    DidOpen { uri: String, text: String },
    /// A document changed; the text of its first content change, if any.
    DidChange { uri: String, change: Option<String> },
    /// A document was closed.
    DidClose { uri: String },
    /// Any other notification.
    Other,
}

/// What the server sends back for an event.
pub enum Action {
    /// Answer the hover request from this document text (none: no answer).
    AnswerHover { document: Option<String> },
    /// Answer the request with a method-not-found error and this message.
    MethodNotFound { message: String },
    /// Publish the diagnostics of this document text.
    Publish { uri: String, text: String },
    /// Publish an empty list of diagnostics for the document.
    Clear { uri: String },
    /// Send nothing.
    Nothing,
}

/// An action as plain values.
pub enum ActionView {
    AnswerHover(Option<Seq<char>>),
    MethodNotFound(Seq<char>),
    Publish(Seq<char>, Seq<char>),
    Clear(Seq<char>),
    Nothing,
}

pub open spec fn action_view(a: Action) -> ActionView {
    match a {
        Action::AnswerHover { document } => ActionView::AnswerHover(string_opt(document)),
        Action::MethodNotFound { message } => ActionView::MethodNotFound(message@),
        Action::Publish { uri, text } => ActionView::Publish(uri@, text@),
        Action::Clear { uri } => ActionView::Clear(uri@),
        Action::Nothing => ActionView::Nothing,
    }
}

/// The open documents after an event.
pub open spec fn next_documents(docs: Map<Seq<char>, String>, e: Event) -> Map<Seq<char>, String> {
    match e {
        Event::DidOpen { uri, text } => docs.insert(uri@, text),
        Event::DidChange { uri, change } => match change {
            Some(t) => docs.insert(uri@, t),
            None => docs,
        },
        Event::DidClose { uri } => docs.remove(uri@),
        _ => docs,
    }
}

/// What the server sends back for an event, given the open documents.
pub open spec fn action_for(docs: Map<Seq<char>, String>, e: Event) -> ActionView {
    match e {
        Event::Hover { uri } => ActionView::AnswerHover(
            if docs.contains_key(uri@) {
                Some(docs[uri@]@)
            } else {
                None
            },
        ),
        Event::Request { method } => ActionView::MethodNotFound("unhandled method: "@ + method@),
        Event::DidOpen { uri, text } => ActionView::Publish(uri@, text@),
        Event::DidChange { uri, change } => match change {
            Some(t) => ActionView::Publish(uri@, t@),
            None => ActionView::Nothing,
        },
        Event::DidClose { uri } => ActionView::Clear(uri@),
        Event::Other => ActionView::Nothing,
    }
}

/// Apply an event to the open documents and decide what to send back.
pub fn handle_event(documents: &mut TextMap<String>, event: Event) -> (a: Action)
    requires
        old(documents).wf(),
    ensures
        final(documents).wf(),
        final(documents).view() == next_documents(old(documents).view(), event),
        action_view(a) == action_for(old(documents).view(), event),
{
    match event {
        Event::Hover { uri } => {
            let document = match documents.get(uri.as_str()) {
                Some(t) => Some(t.clone()),
                None => None,
            };
            Action::AnswerHover { document }
        },
        Event::Request { method } => Action::MethodNotFound {
            message: concat2("unhandled method: ", method.as_str()),
        },
        Event::DidOpen { uri, text } => {
            let copy = text.clone();
            documents.insert(uri.as_str(), text);
            Action::Publish { uri, text: copy }
        },
        Event::DidChange { uri, change } => match change {
            Some(t) => {
                let copy = t.clone();
                documents.insert(uri.as_str(), t);
                Action::Publish { uri, text: copy }
            },
            None => Action::Nothing,
        },
        Event::DidClose { uri } => {
            documents.remove(uri.as_str());
            Action::Clear { uri }
        },
        Event::Other => Action::Nothing,
    }
}

/// A hover request about a document answers from the text it was last
/// opened or changed with.
pub proof fn lemma_hover_sees_last_text(
    docs: Map<Seq<char>, String>,
    write: Event,
    hover: Event,
)
    requires
        write is DidOpen || write matches Event::DidChange { change: Some(_), .. },
        hover matches Event::Hover { uri } && uri@ == match write {
            Event::DidOpen { uri, .. } => uri@,
            Event::DidChange { uri, .. } => uri@,
            _ => Seq::<char>::empty(),
        },
    ensures
        action_for(next_documents(docs, write), hover) == ActionView::AnswerHover(
            Some(
                match write {
                    Event::DidOpen { text, .. } => text@,
                    Event::DidChange { change, .. } => change->0@,
                    _ => Seq::<char>::empty(),
                },
            ),
        ),
{
}

/// A hover request about a document that was closed gets no answer.
pub proof fn lemma_hover_after_close(docs: Map<Seq<char>, String>, close: Event, hover: Event)
    requires
        close matches Event::DidClose { uri } && hover matches Event::Hover { uri: h } && h@
            == uri@,
    ensures
        action_for(next_documents(docs, close), hover) == ActionView::AnswerHover(None),
{
}

/// An event about one document leaves every other document as it was.
pub proof fn lemma_other_documents_kept(docs: Map<Seq<char>, String>, e: Event, other: Seq<char>)
    requires
        match e {
            Event::DidOpen { uri, .. } => uri@ != other,
            Event::DidChange { uri, .. } => uri@ != other,
            Event::DidClose { uri } => uri@ != other,
            _ => true,
        },
    ensures
        next_documents(docs, e).contains_key(other) == docs.contains_key(other),
        docs.contains_key(other) ==> next_documents(docs, e)[other] == docs[other],
{
}

/// The open documents after a run of events, in order.
pub open spec fn documents_after(docs: Map<Seq<char>, String>, es: Seq<Event>) -> Map<
    Seq<char>,
    String,
>
    decreases es.len(),
{
    if es.len() == 0 {
        docs
    } else {
        next_documents(documents_after(docs, es.drop_last()), es.last())
    }
}

/// The text of document `u` after a run of events: that of the last event
/// that opened it or changed it with content, unless a later event closed
/// it; before any such event, its text at the start.
pub open spec fn last_text(docs: Map<Seq<char>, String>, es: Seq<Event>, u: Seq<char>) -> Option<
    Seq<char>,
>
    decreases es.len(),
{
    if es.len() == 0 {
        if docs.contains_key(u) {
            Some(docs[u]@)
        } else {
            None
        }
    } else {
        match es.last() {
            Event::DidOpen { uri, text } => if uri@ == u {
                Some(text@)
            } else {
                last_text(docs, es.drop_last(), u)
            },
            Event::DidChange { uri, change } => if uri@ == u && change is Some {
                Some(change->0@)
            } else {
                last_text(docs, es.drop_last(), u)
            },
            Event::DidClose { uri } => if uri@ == u {
                None
            } else {
                last_text(docs, es.drop_last(), u)
            },
            _ => last_text(docs, es.drop_last(), u),
        }
    }
}

proof fn lemma_documents_after(docs: Map<Seq<char>, String>, es: Seq<Event>, u: Seq<char>)
    ensures
        documents_after(docs, es).contains_key(u) == last_text(docs, es, u) is Some,
        documents_after(docs, es).contains_key(u) ==> documents_after(docs, es)[u]@ == last_text(
            docs,
            es,
            u,
        )->0,
    decreases es.len(),
{
    if es.len() > 0 {
        lemma_documents_after(docs, es.drop_last(), u);
    }
}

/// Over a run of events handled in turn, a hover request about a document
/// is answered from its text as of the request's arrival: the text of the
/// last event before it that opened or changed the document with content,
/// and no text when a later event closed it.
pub proof fn lemma_hover_in_run(docs: Map<Seq<char>, String>, es: Seq<Event>, i: int)
    requires
        0 <= i < es.len(),
        es[i] is Hover,
    ensures
        action_for(documents_after(docs, es.take(i)), es[i]) == ActionView::AnswerHover(
            last_text(docs, es.take(i), es[i]->Hover_uri@),
        ),
{
    lemma_documents_after(docs, es.take(i), es[i]->Hover_uri@);
}

/// The diagnostic for a document that does not parse: an error at the
/// (one-based) line and column the parser reports, turned zero-based.
pub fn parse_error_diagnostic(line: usize, column: usize, message: &str) -> (d: Diagnostic)
    ensures
        d.range.start == d.range.end,
        d.range.start.line == (if line > 0 {
            (line - 1) as usize
        } else {
            0usize
        }) as u32,
        d.range.start.character == (if column > 0 {
            (column - 1) as usize
        } else {
            0usize
        }) as u32,
        d.severity == Severity::Error,
        d.source@ == "ayml"@,
        d.message@ == message@,
{
    let l = if line > 0 {
        line - 1
    } else {
        0
    };
    let c = if column > 0 {
        column - 1
    } else {
        0
    };
    let p = Position::new(l as u32, c as u32);
    Diagnostic {
        range: Range::new(p, p),
        severity: Severity::Error,
        source: to_string("ayml"),
        message: to_string(message),
    }
}

/// Why a document's schema could not be used.
#[derive(Clone, Copy, Debug, PartialEq, Eq)]
pub enum SchemaProblem {
    /// The schema could not be fetched.
    FetchFailed,
    /// The schema is not a valid JSON Schema.
    Invalid,
}

/// The message that introduces a schema problem.
pub open spec fn problem_prefix(p: SchemaProblem) -> Seq<char> {
    match p {
        SchemaProblem::FetchFailed => "failed to fetch schema: "@,
        SchemaProblem::Invalid => "invalid schema: "@,
    }
}

/// The warning for a schema that could not be used, at the start of the
/// document.
pub fn schema_problem_diagnostic(problem: SchemaProblem, detail: &str) -> (d: Diagnostic)
    ensures
        d.range == (Range {
            start: Position { line: 0, character: 0 },
            end: Position { line: 0, character: 0 },
        }),
        d.severity == Severity::Warning,
        d.source@ == "ayml"@,
        d.message@ == problem_prefix(problem) + detail@,
{
    let message = match problem {
        SchemaProblem::FetchFailed => concat2("failed to fetch schema: ", detail),
        SchemaProblem::Invalid => concat2("invalid schema: ", detail),
    };
    Diagnostic {
        range: origin_range(),
        severity: Severity::Warning,
        source: to_string("ayml"),
        message,
    }
}

/// The diagnostics for the errors that validating a document against its
/// schema reported: the most specific errors below each, in order.
pub fn validation_diagnostics(
    errors: &Vec<SchemaError>,
    node: &Node,
    text: &str,
    schema_root: &Json,
) -> (r: Vec<Diagnostic>)
    requires
        errors_f(errors@, *node, text.spec_bytes(), *schema_root) is Some,
    ensures
        diag_views(r@) == errors_f(errors@, *node, text.spec_bytes(), *schema_root)->0,
{
    let mut diagnostics: Vec<Diagnostic> = Vec::new();
    collect_all(errors, node, text, schema_root, &mut diagnostics);
    assert(diag_views(diagnostics@) == Seq::<(Range, Severity, Seq<char>, Seq<char>)>::empty() + errors_f(
        errors@,
        *node,
        text.spec_bytes(),
        *schema_root,
    )->0);
    diagnostics
}

/// The byte offset a hover at `pos` is about, or none when it falls in a
/// comment.
pub fn hover_offset(text: &str, pos: Position) -> (r: Option<usize>)
    requires
        positions_fit_raw(
            text.spec_bytes(),
            offset_of_position(text.spec_bytes(), pos.line, pos.character),
        ),
    ensures
        ({
            let o = offset_of_position(text.spec_bytes(), pos.line, pos.character);
            match r {
                Some(x) => x as int == o && !in_comment(text.spec_bytes(), o),
                None => in_comment(text.spec_bytes(), o),
            }
        }),
{
    let offset = position_to_offset(text, pos);
    proof {
        crate::text::lemma_offset_on_boundary(text.spec_bytes(), pos.line, pos.character);
    }
    if crate::text::is_in_comment(text, offset) {
        None
    } else {
        Some(offset)
    }
}

/// A hover answer: markdown text and the range it is about.
pub struct Hover {
    pub contents: String,
    pub range: Option<Range>,
}

/// The hover inputs at `path` lie where the walks are defined: resolving
/// the schema there ends, and so does reading its hover text; the spans the
/// hover range is read from lie on character boundaries, and the positions
/// of its ends fit in `u32`.
pub open spec fn hover_inputs_ok(schema: Json, node: Node, path: Seq<Seq<char>>, b: Seq<u8>) -> bool {
    &&& sub_schema_defined(schema, path)
    &&& sub_schema(schema, path) matches Some(sub) ==> hover_defined(schema, sub)
    &&& hover_spans_ok(node, path, b)
    &&& hover_offsets(node, path, b) matches Some(o) ==> positions_fit(b, max_offset(o))
}

/// `r` is the hover answer for the value at `path`: the hover text of the
/// sub-schema there, with the range of `hover_offsets` when there is one;
/// none when there is no sub-schema at `path` or it has no hover text.
pub open spec fn hover_answer(
    schema: Json,
    node: Node,
    path: Seq<Seq<char>>,
    b: Seq<u8>,
    r: Option<Hover>,
) -> bool {
    match r {
        Some(h) => {
            &&& sub_schema(schema, path) matches Some(sub) && hover_of(schema, sub) == Some(
                h.contents@,
            )
            &&& h.range is Some <==> hover_offsets(node, path, b) is Some
            &&& h.range matches Some(rg) ==> crate::document::range_at(
                rg,
                b,
                hover_offsets(node, path, b)->0,
            )
        },
        None => sub_schema(schema, path) matches Some(sub) ==> hover_of(schema, sub) is None,
    }
}

/// The hover answer for the value at `path`: the hover text of the
/// sub-schema there, and the range `compute_hover_range` gives. None when
/// the schema has no sub-schema at `path` or it has no hover text.
pub fn hover_for_path(schema: &Json, node: &Node, path: &Vec<String>, text: &str) -> (r: Option<
    Hover,
>)
    requires
        hover_inputs_ok(*schema, *node, views(path@), text.spec_bytes()),
    ensures
        hover_answer(*schema, *node, views(path@), text.spec_bytes(), r),
{
    let mut refs: Vec<&str> = Vec::new();
    let mut i: usize = 0;
    while i < path.len()
        invariant
            i <= path.len(),
            refs@.len() == i,
            forall|k: int| 0 <= k < i ==> (#[trigger] refs@[k])@ == path@[k]@,
        decreases path.len() - i,
    {
        refs.push(path[i].as_str());
        i = i + 1;
    }
    assert(path_views(refs@) == views(path@));
    let sub = match resolve_sub_schema(schema, refs.as_slice()) {
        Some(s) => s,
        None => {
            return None;
        },
    };
    let content = match hover_content(schema, sub) {
        Some(c) => c,
        None => {
            return None;
        },
    };
    let range = compute_hover_range(node, path.as_slice(), text);
    Some(Hover { contents: content, range })
}

/// The hover answer at a position of a document whose schema is known:
/// none on a comment, else the answer for the path to the value that the
/// position's byte offset is about.
pub fn hover_at(schema: &Json, node: &Node, text: &str, pos: Position) -> (r: Option<Hover>)
    requires
        positions_fit_raw(
            text.spec_bytes(),
            offset_of_position(text.spec_bytes(), pos.line, pos.character),
        ),
        ({
            let o = offset_of_position(text.spec_bytes(), pos.line, pos.character);
            !in_comment(text.spec_bytes(), o) ==> hover_inputs_ok(
                *schema,
                *node,
                path_at(*node, o),
                text.spec_bytes(),
            )
        }),
    ensures
        ({
            let o = offset_of_position(text.spec_bytes(), pos.line, pos.character);
            if in_comment(text.spec_bytes(), o) {
                r is None
            } else {
                hover_answer(*schema, *node, path_at(*node, o), text.spec_bytes(), r)
            }
        }),
{
    let offset = match hover_offset(text, pos) {
        Some(o) => o,
        None => {
            return None;
        },
    };
    let path = path_at_offset(node, offset);
    hover_for_path(schema, node, &path, text)
}

} // verus!
