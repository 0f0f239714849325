use vstd::prelude::*;

use crate::diag::{Diagnostic, DiagnosticKind, NodeId, Severity, SourceSpan, SpanV, jsons, opt_span_view};
use crate::json::{ArrayBuilder, JsonV, JsonValue, ObjectBuilder, json_string};
use crate::types::{Type, TypeV};

verus! {

/// A value binding in scope and its type.
pub struct Binding {
    pub name: String,
    pub ty: Type,
}

/// Where an expected type came from.
#[derive(Clone, Copy, PartialEq, Eq, Structural)]
pub enum ExpectedTypeSource {
    Inferred,
    DeclaredReturn,
    DeclaredParameter,
    LocalAnnotation,
}

impl ExpectedTypeSource {
    /// The source as named in type diagnostics.
    pub fn as_type_source(self) -> (r: &'static str)
        ensures
            r@ == type_source_name(self),
    {
        proof {
            reveal_strlit("inferred");
            reveal_strlit("declared_return");
            reveal_strlit("declared_parameter");
            reveal_strlit("local_annotation");
        }
        match self {
            ExpectedTypeSource::Inferred => "inferred",
            ExpectedTypeSource::DeclaredReturn => "declared_return",
            ExpectedTypeSource::DeclaredParameter => "declared_parameter",
            ExpectedTypeSource::LocalAnnotation => "local_annotation",
        }
    }
}

/// The name of an expected-type source in type diagnostics.
pub open spec fn type_source_name(s: ExpectedTypeSource) -> Seq<char> {
    match s {
        ExpectedTypeSource::Inferred => "inferred"@,
        ExpectedTypeSource::DeclaredReturn => "declared_return"@,
        ExpectedTypeSource::DeclaredParameter => "declared_parameter"@,
        ExpectedTypeSource::LocalAnnotation => "local_annotation"@,
    }
}

/// A type that an expression is checked against, with where the expectation came from.
pub struct ExpectedType {
    pub ty: Type,
    pub source: ExpectedTypeSource,
    pub origin_node_id: NodeId,
    pub origin_span: Option<SourceSpan>,
    pub origin_message: &'static str,
}

impl ExpectedType {
    /// A copy of this expectation.
    pub fn copy(&self) -> (r: ExpectedType)
        ensures
            r.ty@ == self.ty@,
            r.source == self.source,
            r.origin_node_id == self.origin_node_id,
            opt_span_view(r.origin_span) == opt_span_view(self.origin_span),
            r.origin_message == self.origin_message,
    {
        ExpectedType {
            ty: self.ty.copy(),
            source: self.source,
            origin_node_id: self.origin_node_id,
            origin_span: match &self.origin_span {
                Some(s) => Some(s.copy()),
                None => None,
            },
            origin_message: self.origin_message,
        }
    }
}

/// An effect required by an expression of the body: the effect, the expression's node
/// and span, the kind of expression that requires it, and the symbol it goes through.
pub struct EffectUse {
    pub effect: String,
    pub node_id: NodeId,
    pub span: SourceSpan,
    pub kind: &'static str,
    pub symbol: String,
}

/// Whether `d` is exactly the described diagnostic.
pub open spec fn diag_is(
    d: Diagnostic,
    id: Seq<char>,
    kind: DiagnosticKind,
    message: Seq<char>,
    span: Option<SpanV>,
    details: JsonV,
    related: Seq<JsonV>,
) -> bool {
    &&& d.id@ == id
    &&& d.severity == Severity::Error
    &&& d.kind == kind
    &&& d.message@ == message
    &&& opt_span_view(d.span) == span
    &&& d.details@ == details
    &&& jsons(d.related@) == related
}

/// `new` is `old` with exactly one more diagnostic at the end.
pub open spec fn pushed_one(old: Seq<Diagnostic>, new: Seq<Diagnostic>) -> bool {
    new.len() == old.len() + 1 && new.take(old.len() as int) == old
}

/// The model of a JSON string array.
pub open spec fn str_array(items: Seq<Seq<char>>) -> JsonV {
    JsonV::Array(Seq::new(items.len(), |i: int| JsonV::Str(items[i])))
}

/// The model of `type_details`.
pub open spec fn type_details_view(
    node_id: Seq<char>,
    expected: Seq<char>,
    actual: Seq<char>,
    expected_source: Seq<char>,
    actual_source: Seq<char>,
    constraint: Seq<char>,
    related: Seq<Seq<char>>,
) -> JsonV {
    JsonV::Object(seq![
        ("phase"@, JsonV::Str("type"@)),
        ("node_id"@, JsonV::Str(node_id)),
        ("expected"@, JsonV::Str(expected)),
        ("actual"@, JsonV::Str(actual)),
        ("expected_source"@, JsonV::Str(expected_source)),
        ("actual_source"@, JsonV::Str(actual_source)),
        ("constraint"@, JsonV::Str(constraint)),
        ("related_node_ids"@, str_array(related)),
    ])
}

/// The details object of a type diagnostic.
pub fn type_details(
    node_id: String,
    expected: &str,
    actual: &str,
    expected_source: &str,
    actual_source: &str,
    constraint: &str,
    related_node_ids: Vec<String>,
) -> (r: JsonValue)
    ensures
        r@ == type_details_view(node_id@, expected@, actual@, expected_source@, actual_source@, constraint@, related_node_ids.deep_view()),
{
    let mut related = ArrayBuilder::new();
    let mut i: usize = 0;
    while i < related_node_ids.len()
        invariant
            0 <= i <= related_node_ids@.len(),
            related.wf(),
            related.elements() == Seq::new(i as nat, |k: int| JsonV::Str(related_node_ids@[k]@)),
        decreases related_node_ids.len() - i,
    {
        related.push(json_string(related_node_ids[i].clone()));
        assert(related.elements() =~= Seq::new((i + 1) as nat, |k: int| JsonV::Str(related_node_ids@[k]@)));
        i += 1;
    }
    let related = related.finish();
    let mut b = ObjectBuilder::new();
    b.push_str("phase", "type");
    b.push_string("node_id", node_id);
    b.push_str("expected", expected);
    b.push_str("actual", actual);
    b.push_str("expected_source", expected_source);
    b.push_str("actual_source", actual_source);
    b.push_str("constraint", constraint);
    b.push("related_node_ids", related);
    let r = b.finish();
    assert(related@->Array_0 =~= str_array(related_node_ids.deep_view())->Array_0);
    assert(r@->Object_0 =~= type_details_view(node_id@, expected@, actual@, expected_source@, actual_source@, constraint@, related_node_ids.deep_view())->Object_0);
    r
}

} // verus!
