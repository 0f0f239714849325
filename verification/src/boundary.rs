use vstd::prelude::*;

use crate::ast::{BinaryOp, Expr, Function, Param};
use crate::declarations::{diag_view, diag_views, function_prefix, DiagV};
use crate::diag::{span_json, span_json_view};
use crate::json::{JsonValue, ObjectBuilder};
use crate::render::{render, render_type};
use crate::diag::SpanV;
use crate::body_diagnostics::sfield;
use crate::diag::{Diagnostic, DiagnosticKind, NodeId, Severity, SourceSpan, jsons, node_display, opt_span_view};
use crate::json::JsonV;
use crate::semantic::{ExpectedType, ExpectedTypeSource, diag_is, type_details, type_details_view};
use crate::text::{str_eq, string_of};
use crate::types::{Type, TypeV, named0};

verus! {

/// A test may return `()` or a `Result` whose value type is `()`.
pub open spec fn allowed_test_return(t: TypeV) -> bool {
    t == named0("Unit"@) || (t matches TypeV::Named { name, args } && name == "Result"@ && args.len() == 2 && args[0] == named0("Unit"@))
}

/// Whether a test declaration may return `ty`.
pub fn is_allowed_test_return(ty: &Type) -> (r: bool)
    ensures
        r == allowed_test_return(ty@),
{
    if ty.is_named0("Unit") {
        return true;
    }
    match ty.result_parts() {
        Some((value, _)) => value.is_named0("Unit"),
        None => false,
    }
}

/// The type diagnostic for a public parameter without an annotation.
pub open spec fn missing_param_annotation_is(d: Diagnostic, function: Function, p: Param) -> bool {
    diag_is(d, "type.public_signature_missing"@, DiagnosticKind::Type,
        "public parameter `"@ + p.name@ + "` has no type annotation"@, Some(p.span@),
        type_details_view(node_display(p.node_id.index, "param"@), "explicit"@, "missing"@, "declared_parameter"@, "source"@, "assignable"@,
            seq![node_display(function.node_id.index, "fn"@)]),
        Seq::empty())
}

/// The type diagnostic for a public function without a return annotation.
pub open spec fn missing_return_annotation_is(d: Diagnostic, function: Function) -> bool {
    diag_is(d, "type.public_signature_missing"@, DiagnosticKind::Type,
        "public function has no return type annotation"@, Some(function.span@),
        type_details_view(node_display(function.node_id.index, "fn"@), "explicit"@, "missing"@, "declared_return"@, "source"@, "return_value"@,
            seq![node_display(function.node_id.index, "fn"@)]),
        Seq::empty())
}

/// The unannotated parameters, in order.
pub open spec fn unannotated_params(ps: Seq<Param>) -> Seq<Param>
    decreases ps.len(),
{
    if ps.len() == 0 {
        Seq::empty()
    } else if ps.last().ty is None {
        unannotated_params(ps.drop_last()).push(ps.last())
    } else {
        unannotated_params(ps.drop_last())
    }
}

/// A public function must annotate every parameter and its result: one diagnostic per
/// unannotated parameter, in order, then one if the result is unannotated.
pub fn check_public_function_boundary(function: &Function) -> (r: Vec<Diagnostic>)
    ensures
        ({
            let missing = unannotated_params(function.params@);
            &&& r@.len() == missing.len() + if function.return_type is None { 1int } else { 0int }
            &&& forall|k: int| 0 <= k < missing.len() ==> missing_param_annotation_is(#[trigger] r@[k], *function, missing[k])
            &&& function.return_type is None ==> missing_return_annotation_is(r@.last(), *function)
        }),
{
    let mut diagnostics: Vec<Diagnostic> = Vec::new();
    let params = &function.params;
    let mut i: usize = 0;
    while i < params.len()
        invariant
            0 <= i <= params@.len(),
            diagnostics@.len() == unannotated_params(params@.take(i as int)).len(),
            forall|k: int| 0 <= k < diagnostics@.len() ==> missing_param_annotation_is(#[trigger] diagnostics@[k], *function, unannotated_params(params@.take(i as int))[k]),
        decreases params.len() - i,
    {
        proof {
            assert(params@.take(i + 1).drop_last() =~= params@.take(i as int));
        }
        let param = &params[i];
        if param.ty.is_none() {
            let mut message = string_of("public parameter `");
            message.append(param.name.as_str());
            message.append("` has no type annotation");
            let mut related: Vec<String> = Vec::new();
            related.push(function.node_id.display("fn"));
            assert(related.deep_view() =~= seq![node_display(function.node_id.index, "fn"@)]);
            let details = type_details(param.node_id.display("param"), "explicit", "missing", "declared_parameter", "source", "assignable", related);
            let d = Diagnostic::new("type.public_signature_missing", Severity::Error, DiagnosticKind::Type, message, Some(param.span.copy()), details);
            assert(jsons(d.related@) =~= Seq::<JsonV>::empty());
            diagnostics.push(d);
        }
        i += 1;
    }
    assert(params@.take(params@.len() as int) =~= params@);
    if function.return_type.is_none() {
        let mut related: Vec<String> = Vec::new();
        related.push(function.node_id.display("fn"));
        assert(related.deep_view() =~= seq![node_display(function.node_id.index, "fn"@)]);
        let details = type_details(function.node_id.display("fn"), "explicit", "missing", "declared_return", "source", "return_value", related);
        let d = Diagnostic::new("type.public_signature_missing", Severity::Error, DiagnosticKind::Type,
            string_of("public function has no return type annotation"), Some(function.span.copy()), details);
        assert(jsons(d.related@) =~= Seq::<JsonV>::empty());
        diagnostics.push(d);
    }
    diagnostics
}

/// The text of a shift operator.
pub fn shift_operator_text(op: BinaryOp) -> (r: Option<&'static str>)
    ensures
        r matches Some(t) ==> (op == BinaryOp::ShiftLeft && t@ == "<<"@) || (op == BinaryOp::ShiftRight && t@ == ">>"@)
            || (op == BinaryOp::ShiftRightLogical && t@ == ">>>"@),
        r is None <==> !(op == BinaryOp::ShiftLeft || op == BinaryOp::ShiftRight || op == BinaryOp::ShiftRightLogical),
{
    match op {
        BinaryOp::ShiftLeft => Some("<<"),
        BinaryOp::ShiftRight => Some(">>"),
        BinaryOp::ShiftRightLogical => Some(">>>"),
        _ => None,
    }
}

/// Prelude helpers whose collection input is their second argument.
pub open spec fn input_is_second(helper: Seq<char>) -> bool {
    helper == "vec_try_map_with"@ || helper == "dict_map_with"@ || helper == "dict_filter_with"@
        || helper == "dict_fold_with"@ || helper == "dict_try_map_with"@
}

/// The argument holding a prelude helper's collection input.
pub fn prelude_input_arg<'b>(args: &'b [Expr], helper_name: &str) -> (r: Option<&'b Expr>)
    ensures
        input_is_second(helper_name@) ==> (if args@.len() > 1 { r == Some(&args@[1]) } else { r is None }),
        !input_is_second(helper_name@) ==> (if args@.len() > 0 { r == Some(&args@[0]) } else { r is None }),
{
    let second = str_eq(helper_name, "vec_try_map_with") || str_eq(helper_name, "dict_map_with")
        || str_eq(helper_name, "dict_filter_with") || str_eq(helper_name, "dict_fold_with")
        || str_eq(helper_name, "dict_try_map_with");
    if second {
        if args.len() > 1 { Some(&args[1]) } else { None }
    } else {
        if args.len() > 0 { Some(&args[0]) } else { None }
    }
}

/// The expectation for a collection element: the element type, with the origin of the
/// collection's own expectation when there is one, else the collection literal itself.
pub fn collection_item_expected(ty: Type, expected: Option<&ExpectedType>, origin_node_id: NodeId, origin_span: SourceSpan, inferred_message: &'static str) -> (r: ExpectedType)
    ensures
        r.ty@ == ty@,
        match expected {
            Some(e) => r.source == e.source && r.origin_node_id == e.origin_node_id && r.origin_message == e.origin_message
                && opt_span_view(r.origin_span) == (match e.origin_span { Some(s) => Some(s@), None => Some(origin_span@) }),
            None => r.source == ExpectedTypeSource::Inferred && r.origin_node_id == origin_node_id && r.origin_message == inferred_message
                && opt_span_view(r.origin_span) == Some(origin_span@),
        },
{
    match expected {
        Some(e) => ExpectedType {
            ty,
            source: e.source,
            origin_node_id: e.origin_node_id,
            origin_span: match &e.origin_span {
                Some(s) => Some(s.copy()),
                None => Some(origin_span),
            },
            origin_message: e.origin_message,
        },
        None => ExpectedType {
            ty,
            source: ExpectedTypeSource::Inferred,
            origin_node_id,
            origin_span: Some(origin_span),
            origin_message: inferred_message,
        },
    }
}

/// A note on the shape a test declaration must have.
pub open spec fn test_shape_note(message: Seq<char>, span: SpanV) -> JsonV {
    JsonV::Object(seq![
        ("kind"@, JsonV::Str("test_shape"@)),
        ("message"@, JsonV::Str(message)),
        ("span"@, span_json_view(span)),
    ])
}

fn test_shape_note_json(message: &str, span: &SourceSpan) -> (r: JsonValue)
    ensures
        r@ == test_shape_note(message@, span@),
{
    let mut b = ObjectBuilder::new();
    b.push_str("kind", "test_shape");
    b.push_str("message", message);
    b.push("span", span_json(span));
    let r = b.finish();
    assert(r@->Object_0 =~= test_shape_note(message@, span@)->Object_0);
    r
}

/// The model of the diagnostic for a test declaration whose return type is not `()`
/// or `Result<(), E>`.
pub open spec fn test_return_view(function: Function, node_id: Seq<char>, message: Seq<char>, actual_type: Seq<char>) -> DiagV {
    DiagV {
        id: "test.return_type"@,
        severity: Severity::Error,
        kind: DiagnosticKind::Type,
        message,
        span: Some(function.span@),
        details: JsonV::Object(seq![
            ("phase"@, JsonV::Str("test"@)),
            ("node_id"@, JsonV::Str(node_id)),
            ("expected_type"@, JsonV::Str("() or Result<(), E>"@)),
            ("actual_type"@, JsonV::Str(actual_type)),
        ]),
        related: seq![test_shape_note("A test declaration returns `()` or `Result<(), E>`."@, function.span@)],
    }
}

/// The diagnostic for a test declaration whose return type is not `()` or
/// `Result<(), E>`.
pub fn test_return_diagnostic(function: &Function, node_id: &str, message: String, actual_type: String) -> (r: Diagnostic)
    ensures
        diag_view(r) == test_return_view(*function, node_id@, message@, actual_type@),
{
    let ghost m = message@;
    let ghost a = actual_type@;
    let mut b = ObjectBuilder::new();
    b.push_str("phase", "test");
    b.push_str("node_id", node_id);
    b.push_str("expected_type", "() or Result<(), E>");
    b.push_string("actual_type", actual_type);
    let details = b.finish();
    let mut d = Diagnostic::new("test.return_type", Severity::Error, DiagnosticKind::Type, message, Some(function.span.copy()), details);
    d.related.push(test_shape_note_json("A test declaration returns `()` or `Result<(), E>`.", &function.span));
    proof {
        let v = test_return_view(*function, node_id@, m, a);
        assert(d.details@->Object_0 =~= v.details->Object_0);
        assert(jsons(d.related@) =~= v.related);
    }
    d
}

/// The model of the diagnostic for a test declaration with parameters, if it has any.
pub open spec fn test_parameter_view(function: Function, node_id: Seq<char>) -> Option<DiagV> {
    if function.params@.len() == 0 {
        None
    } else {
        Some(DiagV {
            id: "test.parameters"@,
            severity: Severity::Error,
            kind: DiagnosticKind::Type,
            message: "test declaration has parameters"@,
            span: Some(function.params@[0].span@),
            details: JsonV::Object(seq![
                ("phase"@, JsonV::Str("test"@)),
                ("node_id"@, JsonV::Str(node_id)),
                ("expected_parameters"@, JsonV::Number(0)),
                ("actual_parameters"@, JsonV::Number((function.params@.len() as i64) as int)),
            ]),
            related: seq![test_shape_note("A test declaration uses an empty parameter list."@, function.span@)],
        })
    }
}

/// The diagnostic for a test declaration with parameters, at the first of them.
pub fn test_parameter_diagnostic(function: &Function, node_id: &str) -> (r: Option<Diagnostic>)
    ensures
        match r {
            Some(d) => test_parameter_view(*function, node_id@) == Some(diag_view(d)),
            None => test_parameter_view(*function, node_id@) is None,
        },
{
    if function.params.len() == 0 {
        return None;
    }
    let param = &function.params[0];
    let mut b = ObjectBuilder::new();
    b.push_str("phase", "test");
    b.push_str("node_id", node_id);
    b.push("expected_parameters", JsonValue::Number(0));
    b.push("actual_parameters", JsonValue::Number(function.params.len() as i64));
    let details = b.finish();
    let mut d = Diagnostic::new("test.parameters", Severity::Error, DiagnosticKind::Type, string_of("test declaration has parameters"),
        Some(param.span.copy()), details);
    d.related.push(test_shape_note_json("A test declaration uses an empty parameter list.", &function.span));
    proof {
        let v = test_parameter_view(*function, node_id@)->0;
        assert(d.details@->Object_0 =~= v.details->Object_0);
        assert(jsons(d.related@) =~= v.related);
    }
    Some(d)
}

/// The model of the diagnostic for a test declaration's return type: missing, or a
/// parsed type other than `()` and `Result<(), E>`; an annotation that does not parse
/// is reported elsewhere.
pub open spec fn test_boundary_return_view(function: Function, node_id: Seq<char>) -> Option<DiagV> {
    match function.return_type {
        None => Some(test_return_view(function, node_id, "test declaration has no return type annotation"@, "missing"@)),
        Some(a) => match a.parsed {
            Err(_) => None,
            Ok(t) => if allowed_test_return(t@) {
                None
            } else {
                Some(test_return_view(function, node_id, "test declaration returns `"@ + render(t@) + "`"@, render(t@)))
            },
        },
    }
}

/// The diagnostic for a test declaration's return type, when it is missing or not
/// `()` or `Result<(), E>`.
pub fn test_boundary_return_diagnostic(function: &Function, node_id: &str) -> (r: Option<Diagnostic>)
    ensures
        match r {
            Some(d) => test_boundary_return_view(*function, node_id@) == Some(diag_view(d)),
            None => test_boundary_return_view(*function, node_id@) is None,
        },
{
    match &function.return_type {
        None => Some(test_return_diagnostic(function, node_id, string_of("test declaration has no return type annotation"),
            string_of("missing"))),
        Some(a) => match &a.parsed {
            Err(_) => None,
            Ok(t) => {
                if is_allowed_test_return(t) {
                    None
                } else {
                    let rendered = render_type(t);
                    let mut message = string_of("test declaration returns `");
                    message.append(rendered.as_str());
                    message.append("`");
                    Some(test_return_diagnostic(function, node_id, message, rendered))
                }
            },
        },
    }
}

/// The diagnostics of an optional diagnostic model.
pub open spec fn opt_diag(d: Option<DiagV>) -> Seq<DiagV> {
    match d {
        Some(v) => seq![v],
        None => Seq::empty(),
    }
}

/// The diagnostics for a test declaration: parameters, then the return type.
pub fn check_test_declaration_boundary(function: &Function) -> (r: Vec<Diagnostic>)
    ensures
        ({
            let node_id = node_display(function.node_id.index, function_prefix(function.kind));
            diag_views(r@) == opt_diag(test_parameter_view(*function, node_id)) + opt_diag(test_boundary_return_view(*function, node_id))
        }),
{
    let node_id = function.node_id.display(function.kind.node_prefix());
    let mut out: Vec<Diagnostic> = Vec::new();
    match test_parameter_diagnostic(function, node_id.as_str()) {
        Some(d) => out.push(d),
        None => {},
    }
    let ghost first = diag_views(out@);
    match test_boundary_return_diagnostic(function, node_id.as_str()) {
        Some(d) => {
            out.push(d);
            assert(diag_views(out@) =~= first.push(diag_view(d)));
        },
        None => {},
    }
    proof {
        let nid = node_display(function.node_id.index, function_prefix(function.kind));
        assert(diag_views(out@) =~= opt_diag(test_parameter_view(*function, nid)) + opt_diag(test_boundary_return_view(*function, nid)));
    }
    out
}

} // verus!
