use vstd::prelude::*;

use crate::json::{JsonV, JsonValue, ObjectBuilder};
use crate::text::{decimal, push_char, push_decimal, string_of};

verus! {

/// A region of source text: file and 1-based start and end positions.
pub struct SourceSpan {
    pub file: String,
    pub start_line: u32,
    pub start_column: u32,
    pub end_line: u32,
    pub end_column: u32,
}

/// The model of a source span.
pub struct SpanV {
    pub file: Seq<char>,
    pub start_line: u32,
    pub start_column: u32,
    pub end_line: u32,
    pub end_column: u32,
}

impl View for SourceSpan {
    type V = SpanV;

    open spec fn view(&self) -> SpanV {
        SpanV {
            file: self.file@,
            start_line: self.start_line,
            start_column: self.start_column,
            end_line: self.end_line,
            end_column: self.end_column,
        }
    }
}

impl SourceSpan {
    /// A copy of this span.
    pub fn copy(&self) -> (r: SourceSpan)
        ensures
            r@ == self@,
    {
        SourceSpan {
            file: self.file.clone(),
            start_line: self.start_line,
            start_column: self.start_column,
            end_line: self.end_line,
            end_column: self.end_column,
        }
    }

    /// Whether two spans cover the same region of the same file.
    pub fn same(&self, other: &SourceSpan) -> (r: bool)
        ensures
            r == (self@ == other@),
    {
        self.file == other.file && self.start_line == other.start_line && self.start_column
            == other.start_column && self.end_line == other.end_line && self.end_column
            == other.end_column
    }
}

/// The model of an optional span.
pub open spec fn opt_span_view(span: Option<SourceSpan>) -> Option<SpanV> {
    match span {
        Some(s) => Some(s@),
        None => None,
    }
}

/// The identity of a syntax node.
#[derive(Clone, Copy, PartialEq, Eq, Structural)]
pub struct NodeId {
    pub index: u64,
}

/// How a node id is shown in diagnostic details: the node kind, `#`, then the index.
pub open spec fn node_display(index: u64, prefix: Seq<char>) -> Seq<char> {
    prefix + seq!['#'] + decimal(index as nat)
}

impl NodeId {
    /// The displayed form of this node id under the given node kind.
    pub fn display(&self, prefix: &str) -> (r: String)
        ensures
            r@ == node_display(self.index, prefix@),
    {
        let mut out = string_of(prefix);
        push_char(&mut out, '#');
        push_decimal(&mut out, self.index);
        out
    }
}

/// How severe a diagnostic is.
#[derive(Clone, Copy, PartialEq, Eq, Structural)]
pub enum Severity {
    Error,
    Warning,
    Hint,
}

/// The analysis phase a diagnostic belongs to.
#[derive(Clone, Copy, PartialEq, Eq, Structural)]
pub enum DiagnosticKind {
    Type,
    Name,
    Effect,
    Contract,
    Module,
}

/// A structured diagnostic: an id, a human message, a span and machine-readable details.
pub struct Diagnostic {
    pub id: String,
    pub severity: Severity,
    pub kind: DiagnosticKind,
    pub message: String,
    pub span: Option<SourceSpan>,
    pub details: JsonValue,
    pub related: Vec<JsonValue>,
}

/// The models of a sequence of JSON values.
pub open spec fn jsons(s: Seq<JsonValue>) -> Seq<JsonV> {
    Seq::new(s.len(), |i: int| s[i]@)
}

impl Diagnostic {
    /// A diagnostic with no related notes.
    pub fn new(
        id: &str,
        severity: Severity,
        kind: DiagnosticKind,
        message: String,
        span: Option<SourceSpan>,
        details: JsonValue,
    ) -> (r: Diagnostic)
        ensures
            r.id@ == id@,
            r.severity == severity,
            r.kind == kind,
            r.message@ == message@,
            opt_span_view(r.span) == opt_span_view(span),
            r.details@ == details@,
            r.related@.len() == 0,
    {
        Diagnostic {
            id: string_of(id),
            severity,
            kind,
            message,
            span,
            details,
            related: Vec::new(),
        }
    }
}

/// The model of `span_json`: the file and the four positions.
pub open spec fn span_json_view(span: SpanV) -> JsonV {
    JsonV::Object(
        seq![
            ("file"@, JsonV::Str(span.file)),
            ("start_line"@, JsonV::Number(span.start_line as int)),
            ("start_column"@, JsonV::Number(span.start_column as int)),
            ("end_line"@, JsonV::Number(span.end_line as int)),
            ("end_column"@, JsonV::Number(span.end_column as int)),
        ],
    )
}

/// A span as JSON.
pub fn span_json(span: &SourceSpan) -> (r: JsonValue)
    ensures
        r@ == span_json_view(span@),
{
    let mut b = ObjectBuilder::new();
    b.push("file", JsonValue::String(span.file.clone()));
    b.push("start_line", JsonValue::Number(span.start_line as i64));
    b.push("start_column", JsonValue::Number(span.start_column as i64));
    b.push("end_line", JsonValue::Number(span.end_line as i64));
    b.push("end_column", JsonValue::Number(span.end_column as i64));
    let r = b.finish();
    assert(r@->Object_0 =~= span_json_view(span@)->Object_0);
    r
}

} // verus!
