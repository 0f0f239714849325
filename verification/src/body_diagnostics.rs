use vstd::prelude::*;

use crate::ast::{Expr, Param, Pattern, PatternKind, RecordPatternField};
use crate::checker::{FunctionChecker, same_but_diagnostics};
use crate::diag::{Diagnostic, DiagnosticKind, NodeId, Severity, SourceSpan, SpanV, jsons, node_display, span_json, span_json_view};
use crate::json::{ArrayBuilder, JsonV, JsonValue, ObjectBuilder, json_string};
use crate::relations::{assignable, is_assignable};
use crate::render::{render, render_type};
use crate::semantic::{ExpectedType, diag_is, pushed_one, str_array, type_details, type_details_view, type_source_name};
use crate::text::string_of;
use crate::types::{Type, TypeV};

verus! {

/// A one-field-per-line helper: the model of `("name", "text")`.
pub open spec fn sfield(name: Seq<char>, text: Seq<char>) -> (Seq<char>, JsonV) {
    (name, JsonV::Str(text))
}

/// The model of a related note `{kind, message, span}`.
pub open spec fn note_view(kind: Seq<char>, message: Seq<char>, span: SpanV) -> JsonV {
    JsonV::Object(seq![sfield("kind"@, kind), sfield("message"@, message), ("span"@, span_json_view(span))])
}

/// Builds a related note `{kind, message, span}`.
pub fn note(kind: &str, message: String, span: &SourceSpan) -> (r: JsonValue)
    ensures
        r@ == note_view(kind@, message@, span@),
{
    let ghost m = message@;
    let mut b = ObjectBuilder::new();
    b.push_str("kind", kind);
    b.push_string("message", message);
    b.push("span", span_json(span));
    let r = b.finish();
    assert(r@->Object_0 =~= note_view(kind@, m, span@)->Object_0);
    r
}

/// The details of a variadic-parameter shape diagnostic.
pub open spec fn variadic_details_view(node_id: Seq<char>, expected: Seq<char>) -> JsonV {
    JsonV::Object(seq![
        sfield("phase"@, "type"@),
        sfield("node_id"@, node_id),
        sfield("expected"@, expected),
        sfield("actual"@, "variadic_parameter"@),
        sfield("constraint"@, "function_parameter_shape"@),
    ])
}

/// The details of an ambiguous-name diagnostic.
pub open spec fn ambiguous_name_details_view(node_id: Seq<char>, symbol: Seq<char>, namespace: Seq<char>) -> JsonV {
    JsonV::Object(seq![
        sfield("phase"@, "name"@),
        sfield("node_id"@, node_id),
        sfield("symbol"@, symbol),
        sfield("namespace"@, namespace),
        sfield("resolution_status"@, "ambiguous"@),
    ])
}

/// The details of an ambiguous-constructor-type diagnostic.
pub open spec fn ambiguous_constructor_details_view(node_id: Seq<char>, symbol: Seq<char>, ty: TypeV) -> JsonV {
    JsonV::Object(seq![
        sfield("phase"@, "type"@),
        sfield("node_id"@, node_id),
        sfield("slot_kind"@, "constructor_type"@),
        sfield("constructor"@, symbol),
        sfield("inferred_type"@, render(ty)),
        sfield("constraint"@, "constructor_type_context"@),
    ])
}

/// The details of an ambiguous-match-scrutinee diagnostic.
pub open spec fn ambiguous_scrutinee_details_view(node_id: Seq<char>, candidates: Seq<Seq<char>>) -> JsonV {
    JsonV::Object(seq![
        sfield("phase"@, "type"@),
        sfield("node_id"@, node_id),
        sfield("slot_kind"@, "match_scrutinee"@),
        ("candidates"@, str_array(candidates)),
        sfield("constraint"@, "match_constructor_pattern_domain"@),
    ])
}

/// The details of an ambiguous-empty-collection diagnostic.
pub open spec fn ambiguous_collection_details_view(node_id: Seq<char>, collection: Seq<char>, ty: TypeV) -> JsonV {
    JsonV::Object(seq![
        sfield("phase"@, "type"@),
        sfield("node_id"@, node_id),
        sfield("slot_kind"@, "empty_collection"@),
        sfield("collection"@, collection),
        sfield("inferred_type"@, render(ty)),
        sfield("constraint"@, "empty_collection_type_context"@),
    ])
}

/// Builds a JSON array of strings.
pub fn string_array(items: Vec<String>) -> (r: JsonValue)
    ensures
        r@ == str_array(items.deep_view()),
{
    let mut a = ArrayBuilder::new();
    let mut i: usize = 0;
    while i < items.len()
        invariant
            0 <= i <= items@.len(),
            a.wf(),
            a.elements() == Seq::new(i as nat, |k: int| JsonV::Str(items@[k]@)),
        decreases items.len() - i,
    {
        a.push(json_string(items[i].clone()));
        assert(a.elements() =~= Seq::new((i + 1) as nat, |k: int| JsonV::Str(items@[k]@)));
        i += 1;
    }
    let r = a.finish();
    assert(r@->Array_0 =~= str_array(items.deep_view())->Array_0);
    r
}

impl<'a> FunctionChecker<'a> {
    /// Records one more diagnostic.
    pub fn push_diagnostic(&mut self, d: Diagnostic)
        ensures
            final(self).diagnostics@ == old(self).diagnostics@.push(d),
            pushed_one(old(self).diagnostics@, final(self).diagnostics@),
            same_but_diagnostics(*old(self), *final(self)),
    {
        let ghost before = self.diagnostics@;
        self.diagnostics.push(d);
        assert(self.diagnostics@.take(before.len() as int) =~= before);
    }

    /// Reports a variadic parameter in a position whose shape does not allow it.
    pub fn push_variadic_parameter_diagnostic(&mut self, node_id: NodeId, span: SourceSpan, id: &str, message: String, expected: &str)
        ensures
            pushed_one(old(self).diagnostics@, final(self).diagnostics@),
            same_but_diagnostics(*old(self), *final(self)),
            diag_is(final(self).diagnostics@.last(), id@, DiagnosticKind::Type, message@, Some(span@),
                variadic_details_view(node_display(node_id.index, "param"@), expected@), Seq::empty()),
    {
        let ghost sp = span@;
        let ghost m = message@;
        let mut b = ObjectBuilder::new();
        b.push_str("phase", "type");
        b.push_string("node_id", node_id.display("param"));
        b.push_str("expected", expected);
        b.push_str("actual", "variadic_parameter");
        b.push_str("constraint", "function_parameter_shape");
        let details = b.finish();
        assert(details@->Object_0 =~= variadic_details_view(node_display(node_id.index, "param"@), expected@)->Object_0);
        let d = Diagnostic::new(id, Severity::Error, DiagnosticKind::Type, message, Some(span), details);
        assert(jsons(d.related@) =~= Seq::<JsonV>::empty());
        self.push_diagnostic(d);
    }

    /// Reports a name that resolves to more than one declaration.
    pub fn push_ambiguous_name(&mut self, node_id: NodeId, span: SourceSpan, symbol: &str, namespace: &str)
        ensures
            pushed_one(old(self).diagnostics@, final(self).diagnostics@),
            same_but_diagnostics(*old(self), *final(self)),
            diag_is(final(self).diagnostics@.last(), "name.ambiguous"@, DiagnosticKind::Name,
                "ambiguous "@ + namespace@ + " `"@ + symbol@ + "`"@, Some(span@),
                ambiguous_name_details_view(node_display(node_id.index, "name"@), symbol@, namespace@), Seq::empty()),
    {
        let mut message = string_of("ambiguous ");
        message.append(namespace);
        message.append(" `");
        message.append(symbol);
        message.append("`");
        let mut b = ObjectBuilder::new();
        b.push_str("phase", "name");
        b.push_string("node_id", node_id.display("name"));
        b.push_str("symbol", symbol);
        b.push_str("namespace", namespace);
        b.push_str("resolution_status", "ambiguous");
        let details = b.finish();
        assert(details@->Object_0 =~= ambiguous_name_details_view(node_display(node_id.index, "name"@), symbol@, namespace@)->Object_0);
        let d = Diagnostic::new("name.ambiguous", Severity::Error, DiagnosticKind::Name, message, Some(span), details);
        assert(jsons(d.related@) =~= Seq::<JsonV>::empty());
        self.push_diagnostic(d);
    }

    /// Reports a constructor whose type cannot be fixed without more context.
    pub fn push_ambiguous_constructor_type(&mut self, node_id: NodeId, span: SourceSpan, symbol: &str, ty: &Type)
        ensures
            pushed_one(old(self).diagnostics@, final(self).diagnostics@),
            same_but_diagnostics(*old(self), *final(self)),
            diag_is(final(self).diagnostics@.last(), "type.inference_ambiguous"@, DiagnosticKind::Type,
                "constructor `"@ + symbol@ + "` needs type context"@, Some(span@),
                ambiguous_constructor_details_view(node_display(node_id.index, "expr"@), symbol@, ty@), Seq::empty()),
    {
        let mut message = string_of("constructor `");
        message.append(symbol);
        message.append("` needs type context");
        let mut b = ObjectBuilder::new();
        b.push_str("phase", "type");
        b.push_string("node_id", node_id.display("expr"));
        b.push_str("slot_kind", "constructor_type");
        b.push_str("constructor", symbol);
        b.push_string("inferred_type", render_type(ty));
        b.push_str("constraint", "constructor_type_context");
        let details = b.finish();
        assert(details@->Object_0 =~= ambiguous_constructor_details_view(node_display(node_id.index, "expr"@), symbol@, ty@)->Object_0);
        let d = Diagnostic::new("type.inference_ambiguous", Severity::Error, DiagnosticKind::Type, message, Some(span), details);
        assert(jsons(d.related@) =~= Seq::<JsonV>::empty());
        self.push_diagnostic(d);
    }

    /// Reports a `match` whose constructor patterns fit more than one type.
    pub fn push_ambiguous_match_scrutinee_type(&mut self, node_id: NodeId, span: SourceSpan, candidates: Vec<String>)
        ensures
            pushed_one(old(self).diagnostics@, final(self).diagnostics@),
            same_but_diagnostics(*old(self), *final(self)),
            diag_is(final(self).diagnostics@.last(), "type.inference_ambiguous"@, DiagnosticKind::Type,
                "match scrutinee type is ambiguous"@, Some(span@),
                ambiguous_scrutinee_details_view(node_display(node_id.index, "expr"@), candidates.deep_view()), Seq::empty()),
    {
        let ghost cands = candidates.deep_view();
        let mut b = ObjectBuilder::new();
        b.push_str("phase", "type");
        b.push_string("node_id", node_id.display("expr"));
        b.push_str("slot_kind", "match_scrutinee");
        b.push("candidates", string_array(candidates));
        b.push_str("constraint", "match_constructor_pattern_domain");
        let details = b.finish();
        assert(details@->Object_0 =~= ambiguous_scrutinee_details_view(node_display(node_id.index, "expr"@), cands)->Object_0);
        let d = Diagnostic::new("type.inference_ambiguous", Severity::Error, DiagnosticKind::Type, string_of("match scrutinee type is ambiguous"), Some(span), details);
        assert(jsons(d.related@) =~= Seq::<JsonV>::empty());
        self.push_diagnostic(d);
    }

    /// Reports an empty collection literal whose element type is not fixed.
    pub fn push_ambiguous_empty_collection_type(&mut self, node_id: NodeId, span: SourceSpan, collection: &str, ty: &Type)
        ensures
            pushed_one(old(self).diagnostics@, final(self).diagnostics@),
            same_but_diagnostics(*old(self), *final(self)),
            diag_is(final(self).diagnostics@.last(), "type.inference_ambiguous"@, DiagnosticKind::Type,
                "empty "@ + collection@ + " literal needs concrete type context"@, Some(span@),
                ambiguous_collection_details_view(node_display(node_id.index, "expr"@), collection@, ty@), Seq::empty()),
    {
        let mut message = string_of("empty ");
        message.append(collection);
        message.append(" literal needs concrete type context");
        let mut b = ObjectBuilder::new();
        b.push_str("phase", "type");
        b.push_string("node_id", node_id.display("expr"));
        b.push_str("slot_kind", "empty_collection");
        b.push_str("collection", collection);
        b.push_string("inferred_type", render_type(ty));
        b.push_str("constraint", "empty_collection_type_context");
        let details = b.finish();
        assert(details@->Object_0 =~= ambiguous_collection_details_view(node_display(node_id.index, "expr"@), collection@, ty@)->Object_0);
        let d = Diagnostic::new("type.inference_ambiguous", Severity::Error, DiagnosticKind::Type, message, Some(span), details);
        assert(jsons(d.related@) =~= Seq::<JsonV>::empty());
        self.push_diagnostic(d);
    }

    /// Reports a type annotation that does not parse.
    pub fn push_invalid_type_annotation(&mut self, annotation: &str, error: &str, origin_node_id: NodeId, span: SourceSpan)
        ensures
            pushed_one(old(self).diagnostics@, final(self).diagnostics@),
            same_but_diagnostics(*old(self), *final(self)),
            diag_is(final(self).diagnostics@.last(), "type.invalid_annotation"@, DiagnosticKind::Type,
                "invalid type annotation `"@ + annotation@ + "`: "@ + error@, Some(span@),
                type_details_view(node_display(origin_node_id.index, "expr"@), "valid_type"@, annotation@, "source"@, "source"@, "assignable"@,
                    seq![node_display(old(self).function.node_id.index, "fn"@), node_display(origin_node_id.index, "expr"@)]),
                Seq::empty()),
    {
        let mut message = string_of("invalid type annotation `");
        message.append(annotation);
        message.append("`: ");
        message.append(error);
        let mut related: Vec<String> = Vec::new();
        related.push(self.function.node_id.display("fn"));
        related.push(origin_node_id.display("expr"));
        let ghost rel = related.deep_view();
        assert(rel =~= seq![node_display(self.function.node_id.index, "fn"@), node_display(origin_node_id.index, "expr"@)]);
        let details = type_details(origin_node_id.display("expr"), "valid_type", annotation, "source", "source", "assignable", related);
        let d = Diagnostic::new("type.invalid_annotation", Severity::Error, DiagnosticKind::Type, message, Some(span), details);
        assert(jsons(d.related@) =~= Seq::<JsonV>::empty());
        self.push_diagnostic(d);
    }

    /// Reports `actual` where `expected` is required, unless it is assignable.
    pub fn check_assignable(&mut self, expr: &Expr, expected: &Type, actual: &Type, expected_source: &ExpectedType, constraint: &str)
        ensures
            same_but_diagnostics(*old(self), *final(self)),
            crate::patterns::grew(*old(self), *final(self)),
            assignable(expected@, actual@) ==> final(self).diagnostics == old(self).diagnostics,
            !assignable(expected@, actual@) ==> pushed_one(old(self).diagnostics@, final(self).diagnostics@)
                && diag_is(final(self).diagnostics@.last(), "type.mismatch"@, DiagnosticKind::Type,
                    "expected `"@ + render(expected@) + "`, but found `"@ + render(actual@) + "`"@, Some(expr.span@),
                    type_details_view(node_display(expr.node_id.index, "expr"@), render(expected@), render(actual@),
                        type_source_name(expected_source.source), "inferred_expression"@, constraint@,
                        seq![node_display(old(self).function.node_id.index, "fn"@), node_display(expected_source.origin_node_id.index, "expr"@), node_display(expr.node_id.index, "expr"@)]),
                    Seq::empty()),
    {
        if is_assignable(expected, actual) {
            assert(self.diagnostics@.take(self.diagnostics@.len() as int) =~= self.diagnostics@);
            return;
        }
        let e = render_type(expected);
        let a = render_type(actual);
        let mut message = string_of("expected `");
        message.append(e.as_str());
        message.append("`, but found `");
        message.append(a.as_str());
        message.append("`");
        let mut related: Vec<String> = Vec::new();
        related.push(self.function.node_id.display("fn"));
        related.push(expected_source.origin_node_id.display("expr"));
        related.push(expr.node_id.display("expr"));
        let ghost rel = related.deep_view();
        assert(rel =~= seq![node_display(self.function.node_id.index, "fn"@), node_display(expected_source.origin_node_id.index, "expr"@), node_display(expr.node_id.index, "expr"@)]);
        let details = type_details(expr.node_id.display("expr"), e.as_str(), a.as_str(), expected_source.source.as_type_source(), "inferred_expression", constraint, related);
        let d = Diagnostic::new("type.mismatch", Severity::Error, DiagnosticKind::Type, message, Some(expr.span.copy()), details);
        assert(jsons(d.related@) =~= Seq::<JsonV>::empty());
        self.push_diagnostic(d);
    }

    /// Like `check_assignable` for an operator operand, except that an `Int` operand is
    /// accepted where a `Float` is expected.
    pub fn check_numeric_operator_assignable(&mut self, expr: &Expr, expected: &Type, actual: &Type, expected_context: &ExpectedType)
        ensures
            same_but_diagnostics(*old(self), *final(self)),
            crate::patterns::grew(*old(self), *final(self)),
            (expected@ == crate::types::named0("Float"@) && actual@ == crate::types::named0("Int"@)) || assignable(expected@, actual@)
                ==> final(self).diagnostics == old(self).diagnostics,
            !(expected@ == crate::types::named0("Float"@) && actual@ == crate::types::named0("Int"@)) && !assignable(expected@, actual@)
                ==> pushed_one(old(self).diagnostics@, final(self).diagnostics@)
                && final(self).diagnostics@.last().id@ == "type.mismatch"@,
    {
        if expected.is_named0("Float") && actual.is_named0("Int") {
            assert(self.diagnostics@.take(self.diagnostics@.len() as int) =~= self.diagnostics@);
            return;
        }
        self.check_assignable(expr, expected, actual, expected_context, "operator_operand");
    }
}

} // verus!
