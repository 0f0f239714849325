//! Checks of handler declarations: the handled effect and the declared effects resolve,
//! each operation of the effect has exactly one clause, each clause binds the
//! operation's arguments once each, and each clause body computes the operation's
//! result without performing the handled effect.
use vstd::prelude::*;

use crate::ast::{Annotation, ClauseParam, Function, FunctionKind, HandlerDecl, HandlerOperationClauseDecl, SurfaceModule, Visibility};
use crate::checker::{FunctionChecker, LocalName};
use crate::relations::assignable;
use crate::infer::kept_scope;
use crate::expressions::expr_result;
use crate::render::{render, render_type};
use crate::semantic::{type_details_view, Binding, ExpectedType, ExpectedTypeSource};
use crate::types::{Type, TypeV};
use crate::declarations::{diag_view, diag_views, DiagV};
use crate::diag::{jsons, node_display, span_json, span_json_view, Diagnostic, DiagnosticKind, Severity, SourceSpan, SpanV};
use crate::effect_boundary::opt_string;
use crate::env::{CompanionAccessTarget, EffectOperationSignature, EffectSignature, HandlerSignature, TypeEnvironment, UserEffectPathResolution};
use crate::json::{ArrayBuilder, JsonV, JsonValue, ObjectBuilder};
use crate::text::{decimal, has_prefix, push_decimal, str_eq, string_of};

verus! {

/// An optional name as JSON: the string, or `null`.
pub open spec fn opt_str_json(o: Option<Seq<char>>) -> JsonV {
    match o {
        Some(s) => JsonV::Str(s),
        None => JsonV::Null,
    }
}

/// The details of a handler diagnostic: phase, node id, boundary, handler, handled
/// effect, operation (or `null`) and reason.
pub open spec fn handler_details_view(
    node_id: Seq<char>,
    boundary: Seq<char>,
    handler: Seq<char>,
    effect: Seq<char>,
    operation: Option<Seq<char>>,
    reason: Seq<char>,
) -> JsonV {
    JsonV::Object(seq![
        ("phase"@, JsonV::Str("effect"@)),
        ("node_id"@, JsonV::Str(node_id)),
        ("boundary"@, JsonV::Str(boundary)),
        ("handler"@, JsonV::Str(handler)),
        ("effect"@, JsonV::Str(effect)),
        ("operation"@, opt_str_json(operation)),
        ("reason"@, JsonV::Str(reason)),
    ])
}

/// The details of a handler diagnostic.
pub fn handler_details(
    node_id: String,
    boundary: &str,
    handler: String,
    effect: String,
    operation: Option<&str>,
    reason: &str,
) -> (r: JsonValue)
    ensures
        r@ == handler_details_view(node_id@, boundary@, handler@, effect@, match operation {
            Some(o) => Some(o@),
            None => None,
        }, reason@),
{
    let ghost (n, h, e) = (node_id@, handler@, effect@);
    let mut b = ObjectBuilder::new();
    b.push_str("phase", "effect");
    b.push_string("node_id", node_id);
    b.push_str("boundary", boundary);
    b.push_string("handler", handler);
    b.push_string("effect", effect);
    match operation {
        Some(o) => b.push_str("operation", o),
        None => b.push("operation", JsonValue::Null),
    }
    b.push_str("reason", reason);
    let r = b.finish();
    assert(r@->Object_0 =~= handler_details_view(n, boundary@, h, e, match operation {
        Some(o) => Some(o@),
        None => None,
    }, reason@)->Object_0);
    r
}

/// The details of a diagnostic about an operation clause of a handler.
pub open spec fn clause_details_view(
    node_id: Seq<char>,
    signature: HandlerSignature,
    effect: EffectSignature,
    operation: Option<Seq<char>>,
    reason: Seq<char>,
) -> JsonV {
    handler_details_view(node_id, "handler_operation_clause"@, signature.qualified_name@, effect.qualified_name@, operation, reason)
}

/// The details of a diagnostic about an operation clause of a handler.
pub fn clause_details(
    node_id: String,
    signature: &HandlerSignature,
    effect: &EffectSignature,
    operation: Option<&str>,
    reason: &str,
) -> (r: JsonValue)
    ensures
        r@ == clause_details_view(node_id@, *signature, *effect, match operation {
            Some(o) => Some(o@),
            None => None,
        }, reason@),
{
    handler_details(
        node_id,
        "handler_operation_clause",
        signature.qualified_name.clone(),
        effect.qualified_name.clone(),
        operation,
        reason,
    )
}

/// A module name, or the empty text for none.
pub open spec fn module_text(m: Option<String>) -> Seq<char> {
    match m {
        Some(s) => s@,
        None => Seq::empty(),
    }
}

fn module_or_empty(m: &Option<String>) -> (r: String)
    ensures
        r@ == module_text(*m),
{
    match m {
        Some(s) => s.clone(),
        None => String::new(),
    }
}

/// The note naming the companion target a private declaration should belong to.
pub open spec fn companion_note_view(kind_plural: Seq<char>, access: CompanionAccessTarget) -> JsonV {
    JsonV::Object(seq![
        ("kind"@, JsonV::Str("companion_target"@)),
        ("message"@, JsonV::Str("This test companion may access private "@ + kind_plural + " only from target module `"@ + access.target_module@ + "`."@)),
        ("companion_path"@, JsonV::Str(access.companion_path@)),
        ("companion_target_module"@, JsonV::Str(access.target_module@)),
    ])
}

fn companion_note(kind_plural: &str, access: &CompanionAccessTarget) -> (r: JsonValue)
    ensures
        r@ == companion_note_view(kind_plural@, *access),
{
    let mut message = string_of("This test companion may access private ");
    message.append(kind_plural);
    message.append(" only from target module `");
    message.append(access.target_module.as_str());
    message.append("`.");
    let mut b = ObjectBuilder::new();
    b.push_str("kind", "companion_target");
    b.push_string("message", message);
    b.push_str("companion_path", access.companion_path.as_str());
    b.push_str("companion_target_module", access.target_module.as_str());
    let r = b.finish();
    assert(r@->Object_0 =~= companion_note_view(kind_plural@, *access)->Object_0);
    r
}

/// The diagnostic for a private effect reached from a test companion whose target is
/// another module.
pub open spec fn private_companion_effect_view(
    node_id: Seq<char>,
    boundary: Seq<char>,
    effect_path: Seq<char>,
    effect: EffectSignature,
    access: CompanionAccessTarget,
    span: SpanV,
) -> DiagV {
    DiagV {
        id: "effect.private_companion_target"@,
        severity: Severity::Error,
        kind: DiagnosticKind::Effect,
        message: "private effect `"@ + effect_path + "` belongs to `"@ + module_text(effect.module_name)
            + "` instead of companion target `"@ + access.target_module@ + "`"@,
        span: Some(span),
        details: JsonV::Object(seq![
            ("phase"@, JsonV::Str("effect"@)),
            ("node_id"@, JsonV::Str(node_id)),
            ("boundary"@, JsonV::Str(boundary)),
            ("effect"@, JsonV::Str(effect_path)),
            ("resolved_effect"@, JsonV::Str(effect.qualified_name@)),
            ("companion_path"@, JsonV::Str(access.companion_path@)),
            ("companion_target_module"@, JsonV::Str(access.target_module@)),
            ("effect_module"@, JsonV::Str(module_text(effect.module_name))),
            ("reason"@, JsonV::Str("companion_target_mismatch"@)),
        ]),
        related: seq![
            companion_note_view("effects"@, access),
            JsonV::Object(seq![
                ("kind"@, JsonV::Str("effect_declaration"@)),
                ("message"@, JsonV::Str("Private effect `"@ + effect.qualified_name@ + "` is declared here."@)),
                ("effect"@, JsonV::Str(effect.qualified_name@)),
                ("span"@, span_json_view(effect.span@)),
            ]),
        ],
    }
}

/// The diagnostic for a private effect reached from a test companion whose target is
/// another module.
pub fn private_companion_effect_target_diagnostic(
    node_id: String,
    boundary: &str,
    effect_path: &str,
    effect: &EffectSignature,
    access: &CompanionAccessTarget,
    span: SourceSpan,
) -> (r: Diagnostic)
    ensures
        diag_view(r) == private_companion_effect_view(node_id@, boundary@, effect_path@, *effect, *access, span@),
{
    let ghost (n, sp) = (node_id@, span@);
    let module = module_or_empty(&effect.module_name);
    let mut message = string_of("private effect `");
    message.append(effect_path);
    message.append("` belongs to `");
    message.append(module.as_str());
    message.append("` instead of companion target `");
    message.append(access.target_module.as_str());
    message.append("`");
    let mut b = ObjectBuilder::new();
    b.push_str("phase", "effect");
    b.push_string("node_id", node_id);
    b.push_str("boundary", boundary);
    b.push_str("effect", effect_path);
    b.push_str("resolved_effect", effect.qualified_name.as_str());
    b.push_str("companion_path", access.companion_path.as_str());
    b.push_str("companion_target_module", access.target_module.as_str());
    b.push_string("effect_module", module);
    b.push_str("reason", "companion_target_mismatch");
    let details = b.finish();
    let mut diagnostic = Diagnostic::new(
        "effect.private_companion_target",
        Severity::Error,
        DiagnosticKind::Effect,
        message,
        Some(span),
        details,
    );
    diagnostic.related.push(companion_note("effects", access));
    let mut note_message = string_of("Private effect `");
    note_message.append(effect.qualified_name.as_str());
    note_message.append("` is declared here.");
    let mut d = ObjectBuilder::new();
    d.push_str("kind", "effect_declaration");
    d.push_string("message", note_message);
    d.push_str("effect", effect.qualified_name.as_str());
    d.push("span", span_json(&effect.span));
    let declared = d.finish();
    diagnostic.related.push(declared);
    proof {
        let v = private_companion_effect_view(n, boundary@, effect_path@, *effect, *access, sp);
        assert(diagnostic.details@->Object_0 =~= v.details->Object_0);
        assert(declared@->Object_0 =~= v.related[1]->Object_0);
        assert(jsons(diagnostic.related@) =~= v.related);
    }
    diagnostic
}

/// The diagnostic for a private handler reached from a test companion whose target is
/// another module.
pub open spec fn private_companion_handler_view(
    node_id: Seq<char>,
    boundary: Seq<char>,
    handler_path: Seq<char>,
    handler: HandlerSignature,
    access: CompanionAccessTarget,
    span: SpanV,
) -> DiagV {
    DiagV {
        id: "handler.private_companion_target"@,
        severity: Severity::Error,
        kind: DiagnosticKind::Effect,
        message: "private handler `"@ + handler_path + "` belongs to `"@ + module_text(handler.module_name)
            + "` instead of companion target `"@ + access.target_module@ + "`"@,
        span: Some(span),
        details: JsonV::Object(seq![
            ("phase"@, JsonV::Str("effect"@)),
            ("node_id"@, JsonV::Str(node_id)),
            ("boundary"@, JsonV::Str(boundary)),
            ("handler"@, JsonV::Str(handler_path)),
            ("resolved_handler"@, JsonV::Str(handler.qualified_name@)),
            ("companion_path"@, JsonV::Str(access.companion_path@)),
            ("companion_target_module"@, JsonV::Str(access.target_module@)),
            ("handler_module"@, JsonV::Str(module_text(handler.module_name))),
            ("reason"@, JsonV::Str("companion_target_mismatch"@)),
        ]),
        related: seq![companion_note_view("handlers"@, access)],
    }
}

/// The diagnostic for a private handler reached from a test companion whose target is
/// another module.
pub fn private_companion_handler_target_diagnostic(
    node_id: String,
    boundary: &str,
    handler_path: &str,
    handler: &HandlerSignature,
    access: &CompanionAccessTarget,
    span: SourceSpan,
) -> (r: Diagnostic)
    ensures
        diag_view(r) == private_companion_handler_view(node_id@, boundary@, handler_path@, *handler, *access, span@),
{
    let ghost (n, sp) = (node_id@, span@);
    let module = module_or_empty(&handler.module_name);
    let mut message = string_of("private handler `");
    message.append(handler_path);
    message.append("` belongs to `");
    message.append(module.as_str());
    message.append("` instead of companion target `");
    message.append(access.target_module.as_str());
    message.append("`");
    let mut b = ObjectBuilder::new();
    b.push_str("phase", "effect");
    b.push_string("node_id", node_id);
    b.push_str("boundary", boundary);
    b.push_str("handler", handler_path);
    b.push_str("resolved_handler", handler.qualified_name.as_str());
    b.push_str("companion_path", access.companion_path.as_str());
    b.push_str("companion_target_module", access.target_module.as_str());
    b.push_string("handler_module", module);
    b.push_str("reason", "companion_target_mismatch");
    let details = b.finish();
    let mut diagnostic = Diagnostic::new(
        "handler.private_companion_target",
        Severity::Error,
        DiagnosticKind::Effect,
        message,
        Some(span),
        details,
    );
    diagnostic.related.push(companion_note("handlers", access));
    proof {
        let v = private_companion_handler_view(n, boundary@, handler_path@, *handler, *access, sp);
        assert(diagnostic.details@->Object_0 =~= v.details->Object_0);
        assert(jsons(diagnostic.related@) =~= v.related);
    }
    diagnostic
}

/// Where the handler's declared effect at `index` is written, or else the handler.
pub open spec fn handler_effect_span(h: HandlerDecl, index: int) -> SpanV {
    match h.effect_spans {
        Some(spans) => if 0 <= index < spans@.len() { spans@[index]@ } else { h.span@ },
        None => h.span@,
    }
}

fn handler_effect_span_at(handler: &HandlerDecl, index: usize) -> (r: SourceSpan)
    ensures
        r@ == handler_effect_span(*handler, index as int),
{
    match &handler.effect_spans {
        Some(spans) => if index < spans.len() { spans[index].copy() } else { handler.span.copy() },
        None => handler.span.copy(),
    }
}

/// The diagnostic for a label of the handler's `effects` clause that names no effect.
pub open spec fn unknown_declared_effect_view(h: HandlerDecl, effect: Seq<char>, index: int, declared: Seq<Seq<char>>, known: Seq<Seq<char>>) -> DiagV {
    DiagV {
        id: "effect.unknown"@,
        severity: Severity::Error,
        kind: DiagnosticKind::Effect,
        message: "declared effect `"@ + effect + "` is not known"@,
        span: Some(handler_effect_span(h, index)),
        details: JsonV::Object(seq![
            ("phase"@, JsonV::Str("effect"@)),
            ("node_id"@, JsonV::Str(node_display(h.node_id.index, "handler"@))),
            ("effect"@, JsonV::Str(effect)),
            ("boundary"@, JsonV::Str("handler_declaration_effects"@)),
            ("declared_effects"@, crate::semantic::str_array(declared)),
            ("known_effects"@, crate::semantic::str_array(known)),
        ]),
        related: seq![JsonV::Object(seq![
            ("kind"@, JsonV::Str("repair_hint"@)),
            ("message"@, JsonV::Str("Use a known effect label or remove the declaration."@)),
            ("span"@, span_json_view(h.span@)),
        ])],
    }
}

/// The diagnostic for a label of the handler's `effects` clause that names no effect.
pub fn unknown_declared_effect_diagnostic(handler: &HandlerDecl, effect: &str, effect_index: usize, known_effects: &Vec<String>) -> (r: Diagnostic)
    requires
        handler.effects is Some,
    ensures
        diag_view(r) == unknown_declared_effect_view(*handler, effect@, effect_index as int,
            handler.effects->0.deep_view(), known_effects.deep_view()),
{
    let declared_effects = match &handler.effects {
        Some(e) => e,
        None => return Diagnostic::new("", Severity::Error, DiagnosticKind::Effect, String::new(), None, JsonValue::Null),
    };
    let mut message = string_of("declared effect `");
    message.append(effect);
    message.append("` is not known");
    let node = handler.node_id.display("handler");
    let ghost n = node@;
    let mut b = ObjectBuilder::new();
    b.push_str("phase", "effect");
    b.push_string("node_id", node);
    b.push_str("effect", effect);
    b.push_str("boundary", "handler_declaration_effects");
    b.push("declared_effects", crate::body_diagnostics::string_array(declared_effects.clone()));
    b.push("known_effects", crate::body_diagnostics::string_array(known_effects.clone()));
    let details = b.finish();
    let mut d = Diagnostic::new("effect.unknown", Severity::Error, DiagnosticKind::Effect, message,
        Some(handler_effect_span_at(handler, effect_index)), details);
    let mut h = ObjectBuilder::new();
    h.push_str("kind", "repair_hint");
    h.push_str("message", "Use a known effect label or remove the declaration.");
    h.push("span", span_json(&handler.span));
    let hint = h.finish();
    d.related.push(hint);
    proof {
        let v = unknown_declared_effect_view(*handler, effect@, effect_index as int, declared_effects.deep_view(), known_effects.deep_view());
        assert(d.details@->Object_0 =~= v.details->Object_0);
        assert(hint@->Object_0 =~= v.related[0]->Object_0);
        assert(jsons(d.related@) =~= v.related);
    }
    d
}

/// The note pointing at a candidate effect a handler could have meant.
pub open spec fn candidate_effect_note(e: EffectSignature) -> JsonV {
    JsonV::Object(seq![
        ("kind"@, JsonV::Str("effect_declaration"@)),
        ("message"@, JsonV::Str("Candidate effect `"@ + e.qualified_name@ + "` is declared here."@)),
        ("effect"@, JsonV::Str(e.qualified_name@)),
        ("operations"@, crate::semantic::str_array(operation_names(e.operations@))),
        ("span"@, span_json_view(e.span@)),
    ])
}

/// The names of a list of operations.
pub open spec fn operation_names(ops: Seq<EffectOperationSignature>) -> Seq<Seq<char>> {
    Seq::new(ops.len(), |i: int| ops[i].name@)
}

fn candidate_effect_json(e: &EffectSignature) -> (r: JsonValue)
    ensures
        r@ == candidate_effect_note(*e),
{
    let mut message = string_of("Candidate effect `");
    message.append(e.qualified_name.as_str());
    message.append("` is declared here.");
    let mut ops = ArrayBuilder::new();
    let mut i: usize = 0;
    while i < e.operations.len()
        invariant
            0 <= i <= e.operations@.len(),
            ops.wf(),
            ops.elements() == Seq::new(i as nat, |k: int| JsonV::Str(e.operations@[k].name@)),
        decreases e.operations.len() - i,
    {
        ops.push(JsonValue::String(e.operations[i].name.clone()));
        assert(ops.elements() =~= Seq::new((i + 1) as nat, |k: int| JsonV::Str(e.operations@[k].name@)));
        i += 1;
    }
    let operations = ops.finish();
    assert(operations@->Array_0 =~= crate::semantic::str_array(operation_names(e.operations@))->Array_0);
    let mut b = ObjectBuilder::new();
    b.push_str("kind", "effect_declaration");
    b.push_string("message", message);
    b.push_str("effect", e.qualified_name.as_str());
    b.push("operations", operations);
    b.push("span", span_json(&e.span));
    let r = b.finish();
    assert(r@->Object_0 =~= candidate_effect_note(*e)->Object_0);
    r
}

/// The diagnostic for a handler whose handled effect names nothing, with a note for
/// each effect visible from the handler's module.
pub open spec fn unknown_effect_view(h: HandlerDecl, candidates: Seq<EffectSignature>) -> DiagV {
    DiagV {
        id: "handler.effect_unknown"@,
        severity: Severity::Error,
        kind: DiagnosticKind::Effect,
        message: "handled effect `"@ + crate::names_infer::join_path_view(h.effect.deep_view()) + "` is not known"@,
        span: Some(h.effect_span@),
        details: handler_details_view(
            node_display(h.node_id.index, "handler"@),
            "handler_declaration"@,
            module_text(h.name),
            crate::names_infer::join_path_view(h.effect.deep_view()),
            None,
            "unknown_handled_effect"@,
        ),
        related: Seq::new(candidates.len(), |i: int| candidate_effect_note(candidates[i])),
    }
}

/// The diagnostic for a handler whose handled effect names nothing. `visible` lists,
/// by position among the environment's effects, the effects visible from the
/// handler's module.
pub fn unknown_effect_diagnostic(handler: &HandlerDecl, environment: &TypeEnvironment, visible: &Vec<usize>) -> (r: Diagnostic)
    requires
        forall|i: int| 0 <= i < visible@.len() ==> visible@[i] < environment.effects@.len(),
    ensures
        diag_view(r) == unknown_effect_view(*handler, Seq::new(visible@.len(), |i: int| environment.effects@[visible@[i] as int])),
{
    let path = crate::names_infer::join_path(handler.effect.as_slice());
    let mut message = string_of("handled effect `");
    message.append(path.as_str());
    message.append("` is not known");
    let name = module_or_empty(&handler.name);
    let details = handler_details(handler.node_id.display("handler"), "handler_declaration", name, path, None, "unknown_handled_effect");
    let ghost cands = Seq::new(visible@.len(), |i: int| environment.effects@[visible@[i] as int]);
    let mut related: Vec<JsonValue> = Vec::new();
    let mut i: usize = 0;
    while i < visible.len()
        invariant
            0 <= i <= visible@.len(),
            related@.len() == i,
            cands == Seq::new(visible@.len(), |i: int| environment.effects@[visible@[i] as int]),
            forall|i: int| 0 <= i < visible@.len() ==> visible@[i] < environment.effects@.len(),
            forall|k: int| 0 <= k < i ==> (#[trigger] related@[k])@ == candidate_effect_note(cands[k]),
        decreases visible.len() - i,
    {
        let note = candidate_effect_json(&environment.effects[visible[i]]);
        related.push(note);
        i += 1;
    }
    let mut d = Diagnostic::new("handler.effect_unknown", Severity::Error, DiagnosticKind::Effect, message,
        Some(handler.effect_span.copy()), details);
    d.related = related;
    proof {
        assert(jsons(d.related@) =~= unknown_effect_view(*handler, cands).related);
    }
    d
}

/// The diagnostic for a clause of an operation the handled effect does not declare.
pub open spec fn unknown_operation_view(clause: HandlerOperationClauseDecl, operation: Seq<char>, signature: HandlerSignature, effect: EffectSignature) -> DiagV {
    DiagV {
        id: "handler.unknown_operation"@,
        severity: Severity::Error,
        kind: DiagnosticKind::Effect,
        message: "handled effect `"@ + effect.qualified_name@ + "` has no operation clause `"@ + operation + "`"@,
        span: Some(clause.operation_span@),
        details: clause_details_view(node_display(clause.node_id.index, "clause"@), signature, effect, Some(operation), "unknown_operation"@),
        related: seq![JsonV::Object(seq![
            ("kind"@, JsonV::Str("effect_declaration"@)),
            ("message"@, JsonV::Str("Effect `"@ + effect.qualified_name@ + "` is declared here."@)),
            ("span"@, span_json_view(effect.span@)),
        ])],
    }
}

/// The diagnostic for a clause of an operation the handled effect does not declare.
pub fn unknown_operation_diagnostic(
    clause: &HandlerOperationClauseDecl,
    operation_name: &str,
    signature: &HandlerSignature,
    effect: &EffectSignature,
) -> (r: Diagnostic)
    ensures
        diag_view(r) == unknown_operation_view(*clause, operation_name@, *signature, *effect),
{
    let mut message = string_of("handled effect `");
    message.append(effect.qualified_name.as_str());
    message.append("` has no operation clause `");
    message.append(operation_name);
    message.append("`");
    let details = clause_details(clause.node_id.display("clause"), signature, effect, Some(operation_name), "unknown_operation");
    let mut d = Diagnostic::new("handler.unknown_operation", Severity::Error, DiagnosticKind::Effect, message,
        Some(clause.operation_span.copy()), details);
    let mut note_message = string_of("Effect `");
    note_message.append(effect.qualified_name.as_str());
    note_message.append("` is declared here.");
    let mut b = ObjectBuilder::new();
    b.push_str("kind", "effect_declaration");
    b.push_string("message", note_message);
    b.push("span", span_json(&effect.span));
    let note = b.finish();
    d.related.push(note);
    proof {
        let v = unknown_operation_view(*clause, operation_name@, *signature, *effect);
        assert(note@->Object_0 =~= v.related[0]->Object_0);
        assert(jsons(d.related@) =~= v.related);
    }
    d
}

/// An optional operation name as diagnostics print it.
pub open spec fn operation_text(o: Option<String>) -> Seq<char> {
    match o {
        Some(s) => s@,
        None => "<missing>"@,
    }
}

/// The diagnostic for a clause whose body performs the effect its handler handles.
pub open spec fn recursive_clause_view(clause: HandlerOperationClauseDecl, signature: HandlerSignature, effect: EffectSignature) -> DiagV {
    DiagV {
        id: "handler.recursive_operation_clause"@,
        severity: Severity::Error,
        kind: DiagnosticKind::Effect,
        message: "operation clause `"@ + operation_text(clause.operation) + "` performs handled effect `"@ + signature.effect@ + "`"@,
        span: Some(clause.body.span@),
        details: clause_details_view(node_display(clause.node_id.index, "clause"@), signature, effect,
            opt_string(clause.operation), "recursive_operation_clause"@),
        related: seq![JsonV::Object(seq![
            ("kind"@, JsonV::Str("handler_declaration"@)),
            ("message"@, JsonV::Str("Handler `"@ + signature.qualified_name@ + "` handles `"@ + effect.qualified_name@ + "`."@)),
            ("handler"@, JsonV::Str(signature.qualified_name@)),
            ("handled_effect"@, JsonV::Str(effect.qualified_name@)),
            ("span"@, span_json_view(effect.span@)),
        ])],
    }
}

/// The diagnostic for a clause whose body performs the effect its handler handles.
pub fn recursive_clause_diagnostic(clause: &HandlerOperationClauseDecl, signature: &HandlerSignature, effect: &EffectSignature) -> (r: Diagnostic)
    ensures
        diag_view(r) == recursive_clause_view(*clause, *signature, *effect),
{
    proof { reveal_strlit("<missing>"); }
    let mut message = string_of("operation clause `");
    match &clause.operation {
        Some(o) => message.append(o.as_str()),
        None => message.append("<missing>"),
    }
    message.append("` performs handled effect `");
    message.append(signature.effect.as_str());
    message.append("`");
    let operation = match &clause.operation {
        Some(o) => Some(o.as_str()),
        None => None,
    };
    let details = clause_details(clause.node_id.display("clause"), signature, effect, operation, "recursive_operation_clause");
    let mut d = Diagnostic::new("handler.recursive_operation_clause", Severity::Error, DiagnosticKind::Effect, message,
        Some(clause.body.span.copy()), details);
    let mut note_message = string_of("Handler `");
    note_message.append(signature.qualified_name.as_str());
    note_message.append("` handles `");
    note_message.append(effect.qualified_name.as_str());
    note_message.append("`.");
    let mut b = ObjectBuilder::new();
    b.push_str("kind", "handler_declaration");
    b.push_string("message", note_message);
    b.push_str("handler", signature.qualified_name.as_str());
    b.push_str("handled_effect", effect.qualified_name.as_str());
    b.push("span", span_json(&effect.span));
    let note = b.finish();
    d.related.push(note);
    proof {
        let v = recursive_clause_view(*clause, *signature, *effect);
        assert(note@->Object_0 =~= v.related[0]->Object_0);
        assert(jsons(d.related@) =~= v.related);
    }
    d
}

/// The position of the first of `cs[0..n]` that handles `op`.
pub open spec fn first_clause_for(cs: Seq<HandlerOperationClauseDecl>, op: Seq<char>, n: int) -> Option<int>
    decreases n,
{
    if n <= 0 {
        None
    } else {
        match first_clause_for(cs, op, n - 1) {
            Some(j) => Some(j),
            None => if opt_string(cs[n - 1].operation) == Some(op) { Some(n - 1) } else { None },
        }
    }
}

/// The diagnostic for a second clause of operation `op`, pointing at the first.
pub open spec fn duplicate_clause_view(clause: HandlerOperationClauseDecl, op: Seq<char>, first: HandlerOperationClauseDecl,
    signature: HandlerSignature, effect: EffectSignature) -> DiagV {
    DiagV {
        id: "handler.duplicate_operation_clause"@,
        severity: Severity::Error,
        kind: DiagnosticKind::Effect,
        message: "handler `"@ + signature.qualified_name@ + "` declares operation `"@ + op + "` more than once"@,
        span: Some(clause.operation_span@),
        details: clause_details_view(node_display(clause.node_id.index, "clause"@), signature, effect, Some(op), "duplicate_operation_clause"@),
        related: seq![JsonV::Object(seq![
            ("kind"@, JsonV::Str("handler_operation_clause"@)),
            ("message"@, JsonV::Str("The first clause for operation `"@ + op + "` is here."@)),
            ("span"@, span_json_view(first.operation_span@)),
        ])],
    }
}

/// One diagnostic for each of `cs[0..n]` that handles an operation an earlier clause
/// already handles, in order.
pub open spec fn duplicate_clauses(cs: Seq<HandlerOperationClauseDecl>, n: int, signature: HandlerSignature, effect: EffectSignature) -> Seq<DiagV>
    decreases n,
{
    if n <= 0 {
        Seq::empty()
    } else {
        let before = duplicate_clauses(cs, n - 1, signature, effect);
        match cs[n - 1].operation {
            Some(op) => match first_clause_for(cs, op@, n - 1) {
                Some(j) => before.push(duplicate_clause_view(cs[n - 1], op@, cs[j], signature, effect)),
                None => before,
            },
            None => before,
        }
    }
}

fn first_clause_index(clauses: &Vec<HandlerOperationClauseDecl>, op: &str, n: usize) -> (r: Option<usize>)
    requires
        n <= clauses@.len(),
    ensures
        match r {
            Some(j) => first_clause_for(clauses@, op@, n as int) == Some(j as int) && j < n,
            None => first_clause_for(clauses@, op@, n as int) is None,
        },
{
    let mut j: usize = 0;
    while j < n
        invariant
            0 <= j <= n <= clauses@.len(),
            first_clause_for(clauses@, op@, j as int) is None,
        decreases n - j,
    {
        let same = match &clauses[j].operation {
            Some(o) => str_eq(o.as_str(), op),
            None => false,
        };
        if same {
            proof { lemma_first_clause_stable(clauses@, op@, j as int + 1, n as int); }
            return Some(j);
        }
        j += 1;
    }
    None
}

proof fn lemma_first_clause_stable(cs: Seq<HandlerOperationClauseDecl>, op: Seq<char>, m: int, n: int)
    requires
        0 <= m <= n,
        first_clause_for(cs, op, m) is Some,
    ensures
        first_clause_for(cs, op, n) == first_clause_for(cs, op, m),
    decreases n - m,
{
    if m < n {
        lemma_first_clause_stable(cs, op, m, n - 1);
    }
}

/// The diagnostics for operations handled by more than one clause.
pub fn duplicate_clause_diagnostics(handler: &HandlerDecl, signature: &HandlerSignature, effect: &EffectSignature) -> (r: Vec<Diagnostic>)
    ensures
        diag_views(r@) == duplicate_clauses(handler.operation_clauses@, handler.operation_clauses@.len() as int, *signature, *effect),
{
    let clauses = &handler.operation_clauses;
    let mut diagnostics: Vec<Diagnostic> = Vec::new();
    let mut k: usize = 0;
    while k < clauses.len()
        invariant
            0 <= k <= clauses@.len(),
            diag_views(diagnostics@) == duplicate_clauses(clauses@, k as int, *signature, *effect),
        decreases clauses.len() - k,
    {
        let clause = &clauses[k];
        if let Some(op) = &clause.operation {
            if let Some(j) = first_clause_index(clauses, op.as_str(), k) {
                let mut message = string_of("handler `");
                message.append(signature.qualified_name.as_str());
                message.append("` declares operation `");
                message.append(op.as_str());
                message.append("` more than once");
                let details = clause_details(clause.node_id.display("clause"), signature, effect, Some(op.as_str()), "duplicate_operation_clause");
                let mut d = Diagnostic::new("handler.duplicate_operation_clause", Severity::Error, DiagnosticKind::Effect, message,
                    Some(clause.operation_span.copy()), details);
                let mut note_message = string_of("The first clause for operation `");
                note_message.append(op.as_str());
                note_message.append("` is here.");
                let mut b = ObjectBuilder::new();
                b.push_str("kind", "handler_operation_clause");
                b.push_string("message", note_message);
                b.push("span", span_json(&clauses[j].operation_span));
                let note = b.finish();
                d.related.push(note);
                proof {
                    let v = duplicate_clause_view(*clause, op@, clauses@[j as int], *signature, *effect);
                    assert(note@->Object_0 =~= v.related[0]->Object_0);
                    assert(jsons(d.related@) =~= v.related);
                    assert(diag_view(d) == v);
                }
                let ghost before = diagnostics@;
                diagnostics.push(d);
                assert(diag_views(diagnostics@) =~= diag_views(before).push(diag_view(d)));
            }
        }
        k += 1;
    }
    diagnostics
}

/// Whether the handler's signature has a clause for operation `name`.
pub open spec fn has_clause_for(signature: HandlerSignature, name: Seq<char>) -> bool {
    exists|i: int| 0 <= i < signature.operation_clauses@.len() && (#[trigger] signature.operation_clauses@[i]).operation@ == name
}

/// The diagnostic for an operation of the handled effect that no clause handles.
pub open spec fn missing_clause_view(h: HandlerDecl, op: EffectOperationSignature, signature: HandlerSignature, effect: EffectSignature) -> DiagV {
    DiagV {
        id: "handler.missing_operation_clause"@,
        severity: Severity::Error,
        kind: DiagnosticKind::Effect,
        message: "handler `"@ + signature.qualified_name@ + "` does not declare operation `"@ + op.name@ + "`"@,
        span: Some(h.span@),
        details: clause_details_view(node_display(h.node_id.index, "handler"@), signature, effect, Some(op.name@), "missing_operation_clause"@),
        related: seq![JsonV::Object(seq![
            ("kind"@, JsonV::Str("effect_operation"@)),
            ("message"@, JsonV::Str("Operation `"@ + op.name@ + "` is declared here."@)),
            ("span"@, span_json_view(op.name_span@)),
        ])],
    }
}

/// One diagnostic for each of the first `n` operations of the effect that no clause
/// of the signature handles, in order.
pub open spec fn missing_clauses(h: HandlerDecl, signature: HandlerSignature, effect: EffectSignature, n: int) -> Seq<DiagV>
    decreases n,
{
    if n <= 0 {
        Seq::empty()
    } else {
        let before = missing_clauses(h, signature, effect, n - 1);
        let op = effect.operations@[n - 1];
        if has_clause_for(signature, op.name@) { before } else { before.push(missing_clause_view(h, op, signature, effect)) }
    }
}

fn signature_has_clause(signature: &HandlerSignature, name: &str) -> (r: bool)
    ensures
        r == has_clause_for(*signature, name@),
{
    let mut i: usize = 0;
    while i < signature.operation_clauses.len()
        invariant
            0 <= i <= signature.operation_clauses@.len(),
            forall|j: int| 0 <= j < i ==> (#[trigger] signature.operation_clauses@[j]).operation@ != name@,
        decreases signature.operation_clauses.len() - i,
    {
        if str_eq(signature.operation_clauses[i].operation.as_str(), name) {
            return true;
        }
        i += 1;
    }
    false
}

/// The diagnostics for operations of the handled effect that no clause handles.
pub fn missing_clause_diagnostics(handler: &HandlerDecl, signature: &HandlerSignature, effect: &EffectSignature) -> (r: Vec<Diagnostic>)
    ensures
        diag_views(r@) == missing_clauses(*handler, *signature, *effect, effect.operations@.len() as int),
{
    let mut diagnostics: Vec<Diagnostic> = Vec::new();
    let mut k: usize = 0;
    while k < effect.operations.len()
        invariant
            0 <= k <= effect.operations@.len(),
            diag_views(diagnostics@) == missing_clauses(*handler, *signature, *effect, k as int),
        decreases effect.operations.len() - k,
    {
        let op = &effect.operations[k];
        if !signature_has_clause(signature, op.name.as_str()) {
            let mut message = string_of("handler `");
            message.append(signature.qualified_name.as_str());
            message.append("` does not declare operation `");
            message.append(op.name.as_str());
            message.append("`");
            let details = clause_details(handler.node_id.display("handler"), signature, effect, Some(op.name.as_str()), "missing_operation_clause");
            let mut d = Diagnostic::new("handler.missing_operation_clause", Severity::Error, DiagnosticKind::Effect, message,
                Some(handler.span.copy()), details);
            let mut note_message = string_of("Operation `");
            note_message.append(op.name.as_str());
            note_message.append("` is declared here.");
            let mut b = ObjectBuilder::new();
            b.push_str("kind", "effect_operation");
            b.push_string("message", note_message);
            b.push("span", span_json(&op.name_span));
            let note = b.finish();
            d.related.push(note);
            proof {
                let v = missing_clause_view(*handler, *op, *signature, *effect);
                assert(note@->Object_0 =~= v.related[0]->Object_0);
                assert(jsons(d.related@) =~= v.related);
                assert(diag_view(d) == v);
            }
            let ghost before = diagnostics@;
            diagnostics.push(d);
            assert(diag_views(diagnostics@) =~= diag_views(before).push(diag_view(d)));
        }
        k += 1;
    }
    diagnostics
}

/// The diagnostic for a clause that binds a different number of names than the
/// operation takes arguments.
pub open spec fn clause_arity_view(clause: HandlerOperationClauseDecl, op: EffectOperationSignature, signature: HandlerSignature, effect: EffectSignature) -> DiagV {
    DiagV {
        id: "handler.operation_clause_arity"@,
        severity: Severity::Error,
        kind: DiagnosticKind::Type,
        message: "operation `"@ + op.name@ + "` expects "@ + decimal(op.params@.len()) + " parameter bindings, but clause declares "@
            + decimal(clause.params@.len()),
        span: Some(clause.span@),
        details: clause_details_view(node_display(clause.node_id.index, "clause"@), signature, effect, Some(op.name@), "operation_clause_arity"@),
        related: Seq::empty(),
    }
}

/// The diagnostic for a clause binding that repeats an earlier one.
pub open spec fn repeated_binding_view(param: ClauseParam, op: EffectOperationSignature, signature: HandlerSignature, effect: EffectSignature) -> DiagV {
    DiagV {
        id: "handler.duplicate_operation_binding"@,
        severity: Severity::Error,
        kind: DiagnosticKind::Name,
        message: "operation clause repeats binding `"@ + param.name@ + "`"@,
        span: Some(param.span@),
        details: clause_details_view(node_display(param.node_id.index, "param"@), signature, effect, Some(op.name@), "duplicate_operation_binding"@),
        related: Seq::empty(),
    }
}

/// Whether one of `ps[0..n]` binds `name`.
pub open spec fn bound_before(ps: Seq<ClauseParam>, name: Seq<char>, n: int) -> bool {
    exists|j: int| 0 <= j < n && (#[trigger] ps[j]).name@ == name
}

/// One diagnostic for each of `ps[0..n]` that repeats an earlier binding, in order.
pub open spec fn repeated_bindings(ps: Seq<ClauseParam>, n: int, op: EffectOperationSignature, signature: HandlerSignature, effect: EffectSignature) -> Seq<DiagV>
    decreases n,
{
    if n <= 0 {
        Seq::empty()
    } else {
        let before = repeated_bindings(ps, n - 1, op, signature, effect);
        if bound_before(ps, ps[n - 1].name@, n - 1) {
            before.push(repeated_binding_view(ps[n - 1], op, signature, effect))
        } else {
            before
        }
    }
}

/// The binding diagnostics of a clause: a wrong number of bindings, then each repeated
/// binding.
pub open spec fn clause_bindings(clause: HandlerOperationClauseDecl, op: EffectOperationSignature, signature: HandlerSignature, effect: EffectSignature) -> Seq<DiagV> {
    (if clause.params@.len() != op.params@.len() { seq![clause_arity_view(clause, op, signature, effect)] } else { Seq::empty() })
        + repeated_bindings(clause.params@, clause.params@.len() as int, op, signature, effect)
}

/// The diagnostics for the names a clause binds to the operation's arguments.
pub fn clause_binding_diagnostics(
    clause: &HandlerOperationClauseDecl,
    operation: &EffectOperationSignature,
    signature: &HandlerSignature,
    effect: &EffectSignature,
) -> (r: Vec<Diagnostic>)
    ensures
        diag_views(r@) == clause_bindings(*clause, *operation, *signature, *effect),
{
    let mut diagnostics: Vec<Diagnostic> = Vec::new();
    if clause.params.len() != operation.params.len() {
        let mut message = string_of("operation `");
        message.append(operation.name.as_str());
        message.append("` expects ");
        push_decimal(&mut message, operation.params.len() as u64);
        message.append(" parameter bindings, but clause declares ");
        push_decimal(&mut message, clause.params.len() as u64);
        let details = clause_details(clause.node_id.display("clause"), signature, effect, Some(operation.name.as_str()), "operation_clause_arity");
        let d = Diagnostic::new("handler.operation_clause_arity", Severity::Error, DiagnosticKind::Type, message,
            Some(clause.span.copy()), details);
        proof {
            assert(jsons(d.related@) =~= Seq::<JsonV>::empty());
            assert(diag_view(d) == clause_arity_view(*clause, *operation, *signature, *effect));
        }
        diagnostics.push(d);
    }
    let ghost head = diag_views(diagnostics@);
    assert(head == (if clause.params@.len() != operation.params@.len() { seq![clause_arity_view(*clause, *operation, *signature, *effect)] } else { Seq::<DiagV>::empty() }))
        by {
        if clause.params@.len() != operation.params@.len() {
            assert(head =~= seq![clause_arity_view(*clause, *operation, *signature, *effect)]);
        } else {
            assert(head =~= Seq::<DiagV>::empty());
        }
    }
    let ps = &clause.params;
    let mut k: usize = 0;
    while k < ps.len()
        invariant
            0 <= k <= ps@.len(),
            diag_views(diagnostics@) == head + repeated_bindings(ps@, k as int, *operation, *signature, *effect),
        decreases ps.len() - k,
    {
        let mut seen = false;
        let mut j: usize = 0;
        while j < k
            invariant
                0 <= j <= k < ps@.len(),
                seen == bound_before(ps@, ps@[k as int].name@, j as int),
            decreases k - j,
        {
            if str_eq(ps[j].name.as_str(), ps[k].name.as_str()) {
                seen = true;
            }
            proof {
                if seen {
                    if ps@[j as int].name@ == ps@[k as int].name@ {
                        assert(bound_before(ps@, ps@[k as int].name@, j + 1));
                    } else {
                        let w = choose|w: int| 0 <= w < j && (#[trigger] ps@[w]).name@ == ps@[k as int].name@;
                        assert(bound_before(ps@, ps@[k as int].name@, j + 1));
                    }
                } else {
                    assert forall|w: int| 0 <= w < j + 1 implies (#[trigger] ps@[w]).name@ != ps@[k as int].name@ by {
                        if w < j {
                            assert(!bound_before(ps@, ps@[k as int].name@, j as int));
                        }
                    }
                }
            }
            j += 1;
        }
        if seen {
            let param = &ps[k];
            let mut message = string_of("operation clause repeats binding `");
            message.append(param.name.as_str());
            message.append("`");
            let details = clause_details(param.node_id.display("param"), signature, effect, Some(operation.name.as_str()), "duplicate_operation_binding");
            let d = Diagnostic::new("handler.duplicate_operation_binding", Severity::Error, DiagnosticKind::Name, message,
                Some(param.span.copy()), details);
            proof {
                assert(jsons(d.related@) =~= Seq::<JsonV>::empty());
                assert(diag_view(d) == repeated_binding_view(*param, *operation, *signature, *effect));
            }
            let ghost before = diagnostics@;
            diagnostics.push(d);
            assert(diag_views(diagnostics@) =~= diag_views(before).push(diag_view(d)));
        }
        k += 1;
    }
    diagnostics
}

/// Whether a resolution points inside the environment's effects.
pub open spec fn resolution_in(env: TypeEnvironment, r: UserEffectPathResolution) -> bool {
    match r {
        UserEffectPathResolution::Found(i) => i < env.effects@.len(),
        UserEffectPathResolution::PrivateCompanionTargetMismatch { effect, .. } => effect < env.effects@.len(),
        UserEffectPathResolution::Missing => true,
    }
}

/// Whether a label of the handler's `effects` clause is reported: it is no row tail,
/// no built-in label, and resolves to no declared effect.
pub open spec fn declared_effect_flagged(e: Seq<char>, known: Seq<Seq<char>>, r: UserEffectPathResolution) -> bool {
    !has_prefix(e, "..."@) && !known.contains(e) && !(r is Found)
}

/// The diagnostic for a reported label of the handler's `effects` clause: a private
/// effect outside the companion's target, or else an unknown label.
pub open spec fn declared_effect_view(h: HandlerDecl, env: TypeEnvironment, e: Seq<char>, index: int, r: UserEffectPathResolution) -> DiagV {
    match r {
        UserEffectPathResolution::PrivateCompanionTargetMismatch { effect, access } => private_companion_effect_view(
            node_display(h.node_id.index, "handler"@),
            "handler_declaration_effects"@,
            e,
            env.effects@[effect as int],
            access,
            handler_effect_span(h, index),
        ),
        _ => unknown_declared_effect_view(h, e, index, h.effects->0.deep_view(), env.known_effect_labels.deep_view()),
    }
}

/// The diagnostics for the first `n` labels of the handler's `effects` clause, in order.
pub open spec fn declared_effects_report(h: HandlerDecl, env: TypeEnvironment, rs: Seq<UserEffectPathResolution>, n: int) -> Seq<DiagV>
    decreases n,
{
    if n <= 0 {
        Seq::empty()
    } else {
        let before = declared_effects_report(h, env, rs, n - 1);
        let e = h.effects->0@[n - 1]@;
        if declared_effect_flagged(e, env.known_effect_labels.deep_view(), rs[n - 1]) {
            before.push(declared_effect_view(h, env, e, n - 1, rs[n - 1]))
        } else {
            before
        }
    }
}

/// The diagnostics for the labels of the handler's `effects` clause.
pub open spec fn declared_effects_diags(h: HandlerDecl, env: TypeEnvironment, rs: Seq<UserEffectPathResolution>) -> Seq<DiagV> {
    match h.effects {
        Some(es) => declared_effects_report(h, env, rs, es@.len() as int),
        None => Seq::empty(),
    }
}

/// The diagnostics for the labels of the handler's `effects` clause. `resolutions`
/// holds how each label resolves as an effect path from the handler's module.
pub fn declared_effect_diagnostics(handler: &HandlerDecl, environment: &TypeEnvironment, resolutions: &Vec<UserEffectPathResolution>) -> (r: Vec<Diagnostic>)
    requires
        handler.effects matches Some(es) ==> resolutions@.len() == es@.len(),
        forall|i: int| 0 <= i < resolutions@.len() ==> resolution_in(*environment, #[trigger] resolutions@[i]),
    ensures
        diag_views(r@) == declared_effects_diags(*handler, *environment, resolutions@),
{
    proof { reveal_strlit("..."); }
    let mut diagnostics: Vec<Diagnostic> = Vec::new();
    let declared = match &handler.effects {
        Some(es) => es,
        None => return diagnostics,
    };
    let mut k: usize = 0;
    while k < declared.len()
        invariant
            handler.effects == Some(*declared),
            resolutions@.len() == declared@.len(),
            forall|i: int| 0 <= i < resolutions@.len() ==> resolution_in(*environment, #[trigger] resolutions@[i]),
            0 <= k <= declared@.len(),
            diag_views(diagnostics@) == declared_effects_report(*handler, *environment, resolutions@, k as int),
        decreases declared.len() - k,
    {
        let effect = declared[k].as_str();
        let found = match &resolutions[k] {
            UserEffectPathResolution::Found(_) => true,
            _ => false,
        };
        if !crate::text::starts_with(effect, "...") && !crate::text::contains_str(&environment.known_effect_labels, effect) && !found {
            let d = match &resolutions[k] {
                UserEffectPathResolution::PrivateCompanionTargetMismatch { effect: e, access } => private_companion_effect_target_diagnostic(
                    handler.node_id.display("handler"),
                    "handler_declaration_effects",
                    effect,
                    &environment.effects[*e],
                    access,
                    handler_effect_span_at(handler, k),
                ),
                _ => unknown_declared_effect_diagnostic(handler, effect, k, &environment.known_effect_labels),
            };
            let ghost before = diagnostics@;
            diagnostics.push(d);
            assert(diag_views(diagnostics@) =~= diag_views(before).push(diag_view(d)));
        }
        k += 1;
    }
    diagnostics
}

/// The position of the first operation named `name`.
pub open spec fn first_operation(ops: Seq<EffectOperationSignature>, name: Seq<char>) -> Option<int> {
    if exists|k: int| 0 <= k < ops.len() && (#[trigger] ops[k]).name@ == name {
        Some(choose|k: int| 0 <= k < ops.len() && (#[trigger] ops[k]).name@ == name && forall|j: int| 0 <= j < k ==> (#[trigger] ops[j]).name@ != name)
    } else {
        None
    }
}

fn find_operation(effect: &EffectSignature, name: &str) -> (r: Option<usize>)
    ensures
        match r {
            Some(k) => first_operation(effect.operations@, name@) == Some(k as int) && k < effect.operations@.len(),
            None => first_operation(effect.operations@, name@) is None,
        },
{
    let ops = &effect.operations;
    let mut i: usize = 0;
    while i < ops.len()
        invariant
            0 <= i <= ops@.len(),
            forall|j: int| 0 <= j < i ==> (#[trigger] ops@[j]).name@ != name@,
        decreases ops.len() - i,
    {
        if str_eq(ops[i].name.as_str(), name) {
            proof {
                let c = choose|k: int| 0 <= k < ops@.len() && (#[trigger] ops@[k]).name@ == name@ && forall|j: int| 0 <= j < k ==> (#[trigger] ops@[j]).name@ != name@;
                if c < i { assert(ops@[c].name@ != name@); }
                if i < c { assert(ops@[i as int].name@ != name@); }
            }
            return Some(i);
        }
        i += 1;
    }
    None
}

/// The diagnostic for a public handler's clause that uses an effect the handler does
/// not declare.
pub open spec fn missing_public_effect_view(clause: HandlerOperationClauseDecl, op: EffectOperationSignature, signature: HandlerSignature,
    effect: EffectSignature, used: Seq<char>) -> DiagV {
    DiagV {
        id: "handler.missing_public_effect"@,
        severity: Severity::Error,
        kind: DiagnosticKind::Effect,
        message: "public handler `"@ + signature.qualified_name@ + "` uses undeclared effect `"@ + used + "`"@,
        span: Some(clause.body.span@),
        details: clause_details_view(node_display(clause.node_id.index, "clause"@), signature, effect, Some(op.name@), "missing_public_effect"@),
        related: Seq::empty(),
    }
}

/// Whether a clause body's effect use falls outside what a public handler declares:
/// it is not the handled effect and not among the handler's declared effects.
pub open spec fn undeclared_use(signature: HandlerSignature, used: Seq<char>) -> bool {
    used != signature.effect@ && !signature.effects.deep_view().contains(used)
}

/// The missing-public-effect diagnostics for the first `n` effect uses, in order.
pub open spec fn undeclared_uses(uses: Seq<crate::semantic::EffectUse>, n: int, clause: HandlerOperationClauseDecl, op: EffectOperationSignature,
    signature: HandlerSignature, effect: EffectSignature) -> Seq<DiagV>
    decreases n,
{
    if n <= 0 {
        Seq::empty()
    } else {
        let before = undeclared_uses(uses, n - 1, clause, op, signature, effect);
        if undeclared_use(signature, uses[n - 1].effect@) {
            before.push(missing_public_effect_view(clause, op, signature, effect, uses[n - 1].effect@))
        } else {
            before
        }
    }
}

/// What a clause body's effect uses report: the recursion diagnostic when a use is of
/// the handled effect, then, for a public handler, one diagnostic for each use of an
/// undeclared effect.
pub open spec fn clause_effects(uses: Seq<crate::semantic::EffectUse>, clause: HandlerOperationClauseDecl, op: EffectOperationSignature,
    signature: HandlerSignature, effect: EffectSignature, public: bool) -> Seq<DiagV> {
    (if exists|i: int| 0 <= i < uses.len() && (#[trigger] uses[i]).effect@ == signature.effect@ {
        seq![recursive_clause_view(clause, signature, effect)]
    } else {
        Seq::empty()
    }) + (if public { undeclared_uses(uses, uses.len() as int, clause, op, signature, effect) } else { Seq::empty() })
}

/// The diagnostics a clause body's effect uses report.
pub fn clause_effect_diagnostics(
    uses: &Vec<crate::semantic::EffectUse>,
    clause: &HandlerOperationClauseDecl,
    operation: &EffectOperationSignature,
    signature: &HandlerSignature,
    effect: &EffectSignature,
    public: bool,
) -> (r: Vec<Diagnostic>)
    ensures
        diag_views(r@) == clause_effects(uses@, *clause, *operation, *signature, *effect, public),
{
    let mut diagnostics: Vec<Diagnostic> = Vec::new();
    let mut recursive = false;
    let mut i: usize = 0;
    while i < uses.len()
        invariant
            0 <= i <= uses@.len(),
            recursive == exists|j: int| 0 <= j < i && (#[trigger] uses@[j]).effect@ == signature.effect@,
        decreases uses.len() - i,
    {
        if str_eq(uses[i].effect.as_str(), signature.effect.as_str()) {
            recursive = true;
        }
        proof {
            if recursive && uses@[i as int].effect@ != signature.effect@ {
                let w = choose|j: int| 0 <= j < i && (#[trigger] uses@[j]).effect@ == signature.effect@;
                assert(0 <= w < i + 1 && uses@[w].effect@ == signature.effect@);
            }
            if !recursive {
                assert forall|j: int| 0 <= j < i + 1 implies (#[trigger] uses@[j]).effect@ != signature.effect@ by {
                    if j < i {
                        assert(!(exists|j: int| 0 <= j < i && (#[trigger] uses@[j]).effect@ == signature.effect@));
                    }
                }
            }
        }
        i += 1;
    }
    if recursive {
        diagnostics.push(recursive_clause_diagnostic(clause, signature, effect));
    }
    let ghost head = diag_views(diagnostics@);
    assert(head == (if exists|i: int| 0 <= i < uses@.len() && (#[trigger] uses@[i]).effect@ == signature.effect@ {
        seq![recursive_clause_view(*clause, *signature, *effect)]
    } else {
        Seq::<DiagV>::empty()
    })) by {
        if recursive {
            assert(head =~= seq![recursive_clause_view(*clause, *signature, *effect)]);
        } else {
            assert(head =~= Seq::<DiagV>::empty());
        }
    }
    if !public {
        assert(head + Seq::<DiagV>::empty() =~= head);
        return diagnostics;
    }
    let mut k: usize = 0;
    while k < uses.len()
        invariant
            0 <= k <= uses@.len(),
            diag_views(diagnostics@) == head + undeclared_uses(uses@, k as int, *clause, *operation, *signature, *effect),
        decreases uses.len() - k,
    {
        let used = uses[k].effect.as_str();
        if !str_eq(used, signature.effect.as_str()) && !crate::text::contains_str(&signature.effects, used) {
            let mut message = string_of("public handler `");
            message.append(signature.qualified_name.as_str());
            message.append("` uses undeclared effect `");
            message.append(used);
            message.append("`");
            let details = clause_details(clause.node_id.display("clause"), signature, effect, Some(operation.name.as_str()), "missing_public_effect");
            let d = Diagnostic::new("handler.missing_public_effect", Severity::Error, DiagnosticKind::Effect, message,
                Some(clause.body.span.copy()), details);
            proof {
                assert(jsons(d.related@) =~= Seq::<JsonV>::empty());
                assert(diag_view(d) == missing_public_effect_view(*clause, *operation, *signature, *effect, used@));
            }
            let ghost before = diagnostics@;
            diagnostics.push(d);
            assert(diag_views(diagnostics@) =~= diag_views(before).push(diag_view(d)));
        }
        k += 1;
    }
    diagnostics
}

pub proof fn lemma_diag_views_append(a: Seq<Diagnostic>, b: Seq<Diagnostic>)
    ensures
        diag_views(a + b) == diag_views(a) + diag_views(b),
{
    assert(diag_views(a + b) =~= diag_views(a) + diag_views(b));
}

/// The function a clause body is checked as: private, in the handler's module, with
/// the operation's result type as its declared result, at the clause.
pub open spec fn synthetic_clause(h: HandlerDecl, clause: HandlerOperationClauseDecl, op: EffectOperationSignature, f: Function, name: Seq<char>) -> bool {
    &&& f.node_id == clause.node_id
    &&& f.module_name == h.module_name
    &&& f.kind == FunctionKind::Function
    &&& f.visibility == Visibility::Private
    &&& opt_string(f.name) == Some(name)
    &&& f.effect_binder is None
    &&& f.params@.len() == 0
    &&& f.return_binding is None
    &&& (f.return_type matches Some(a) && a.text@ == render(op.return_type@) && (a.parsed matches Ok(t) && t@ == op.return_type@))
    &&& (f.return_type_span matches Some(sp) && sp@ == op.name_span@)
    &&& f.effects is None
    &&& f.effect_spans is None
    &&& f.contracts@.len() == 0
    &&& f.body@.len() == 0
    &&& f.span@ == clause.span@
}

fn copy_module(m: &Option<String>) -> (r: Option<String>)
    ensures
        r == *m,
{
    match m {
        Some(s) => {
            let c = s.clone();
            assert(c == *s);
            Some(c)
        },
        None => None,
    }
}

/// The function a clause body is checked as, named `name`.
pub fn synthetic_clause_function(handler: &HandlerDecl, clause: &HandlerOperationClauseDecl, operation: &EffectOperationSignature, name: String) -> (r: Function)
    ensures
        synthetic_clause(*handler, *clause, *operation, r, name@),
{
    Function {
        node_id: clause.node_id,
        module_name: copy_module(&handler.module_name),
        kind: FunctionKind::Function,
        visibility: Visibility::Private,
        name: Some(name),
        effect_binder: None,
        params: Vec::new(),
        return_binding: None,
        return_type: Some(Annotation { text: render_type(&operation.return_type), parsed: Ok(operation.return_type.copy()) }),
        return_type_span: Some(operation.name_span.copy()),
        effects: None,
        effect_spans: None,
        contracts: Vec::new(),
        body: Vec::new(),
        span: clause.span.copy(),
    }
}

/// The type diagnostic for a clause body whose type `t` does not fit the operation's
/// result type.
pub open spec fn result_mismatch_view(clause: HandlerOperationClauseDecl, op: EffectOperationSignature, t: TypeV) -> DiagV {
    DiagV {
        id: "type.mismatch"@,
        severity: Severity::Error,
        kind: DiagnosticKind::Type,
        message: "expected `"@ + render(op.return_type@) + "`, but found `"@ + render(t) + "`"@,
        span: Some(clause.body.span@),
        details: type_details_view(
            node_display(clause.body.node_id.index, "expr"@),
            render(op.return_type@),
            render(t),
            "declared_return"@,
            "inferred_expression"@,
            "handler_operation_result"@,
            seq![
                node_display(clause.node_id.index, "fn"@),
                node_display(op.node_id.index, "expr"@),
                node_display(clause.body.node_id.index, "expr"@),
            ],
        ),
        related: Seq::empty(),
    }
}

/// What checking a clause body ends with, for body type `t`: the mismatch diagnostic
/// when `t` does not fit the operation's result type.
pub open spec fn result_tail(clause: HandlerOperationClauseDecl, op: EffectOperationSignature, t: TypeV) -> Seq<DiagV> {
    if assignable(op.return_type@, t) { Seq::empty() } else { seq![result_mismatch_view(clause, op, t)] }
}

/// The type a binding list gives position `i`: the listed type, or unknown past the
/// list.
pub open spec fn type_at(ts: Seq<Type>, i: int) -> TypeV {
    if 0 <= i < ts.len() { ts[i]@ } else { TypeV::Unknown }
}

/// Whether `c` is the checker a clause body is checked in: the handler's environment
/// and module, the clause's node, nothing reported or used yet, and in scope the
/// handler's parameters with the handler's parameter types, then the clause's
/// bindings with the operation's argument types.
pub open spec fn clause_scope(c: FunctionChecker, h: HandlerDecl, clause: HandlerOperationClauseDecl, op: EffectOperationSignature,
    sig: HandlerSignature, env: TypeEnvironment) -> bool {
    &&& *c.environment == env
    &&& c.function.node_id == clause.node_id
    &&& c.function.module_name == h.module_name
    &&& c.diagnostics@.len() == 0
    &&& c.inferred_effects@.len() == 0
    &&& c.bindings@.len() == h.params@.len() + clause.params@.len()
    &&& forall|i: int| 0 <= i < h.params@.len() ==> (#[trigger] c.bindings@[i]).name@ == h.params@[i].name@
        && c.bindings@[i].ty@ == type_at(sig.params@, i)
    &&& forall|j: int| 0 <= j < clause.params@.len() ==> (#[trigger] c.bindings@[h.params@.len() + j]).name@ == clause.params@[j].name@
        && c.bindings@[h.params@.len() + j].ty@ == type_at(op.params@, j)
}

/// Whether `e` is the expectation a clause body is checked against: the operation's
/// declared result type.
pub open spec fn clause_expectation(e: ExpectedType, op: EffectOperationSignature) -> bool {
    e.ty@ == op.return_type@ && e.source == ExpectedTypeSource::DeclaredReturn && e.origin_node_id == op.node_id
        && e.origin_message@ == "Operation result type is declared here."@
}

/// Whether `ds` is what checking a clause body reports: starting from the clause's
/// scope, inferring the body gives type `t` and ends in state `c2` as `infer_reported`
/// states; the report is what checking the body found, then the result check for `t`,
/// then what the effect uses the body recorded report.
pub open spec fn body_reported(h: HandlerDecl, clause: HandlerOperationClauseDecl, op: EffectOperationSignature, sig: HandlerSignature,
    effect: EffectSignature, env: TypeEnvironment, ds: Seq<Diagnostic>) -> bool {
    exists|c: FunctionChecker, e: ExpectedType, t: TypeV, c2: FunctionChecker| {
        &&& clause_scope(c, h, clause, op, sig, env)
        &&& clause_expectation(e, op)
        &&& #[trigger] crate::expressions::infer_reported(c, c2, clause.body, Some(&e), t)
        &&& diag_views(ds) == diag_views(c2.diagnostics@) + result_tail(clause, op, t)
            + clause_effects(c2.inferred_effects@, clause, op, sig, effect, h.visibility == Visibility::Public)
    }
}

/// Records `name` as declared by a parameter, replacing an earlier record of the
/// same name.
fn set_local_name(names: &mut Vec<LocalName>, name: &str, node_id: String, span: SourceSpan)
    ensures
        ({
            let entry_is = |e: LocalName| e.name@ == name@ && e.node_id@ == node_id@ && e.span@ == span@;
            match first_local_name(old(names)@, name@) {
                Some(k) => final(names)@.len() == old(names)@.len() && entry_is(final(names)@[k])
                    && forall|j: int| 0 <= j < old(names)@.len() && j != k ==> final(names)@[j] == old(names)@[j],
                None => final(names)@.len() == old(names)@.len() + 1 && entry_is(final(names)@.last())
                    && final(names)@.take(old(names)@.len() as int) == old(names)@,
            }
        }),
{
    let ghost before = names@;
    let mut i: usize = 0;
    while i < names.len()
        invariant
            names@ == before,
            0 <= i <= before.len(),
            forall|j: int| 0 <= j < i ==> (#[trigger] before[j]).name@ != name@,
        decreases names.len() - i,
    {
        if str_eq(names[i].name.as_str(), name) {
            proof {
                let c = choose|c: int| 0 <= c < before.len() && (#[trigger] before[c]).name@ == name@ && forall|j: int| 0 <= j < c ==> (#[trigger] before[j]).name@ != name@;
                if c < i { assert(before[c].name@ != name@); }
                if i < c { assert(before[i as int].name@ != name@); }
            }
            names.set(i, LocalName { name: string_of(name), node_id, span });
            return;
        }
        i += 1;
    }
    names.push(LocalName { name: string_of(name), node_id, span });
    assert(names@.take(before.len() as int) =~= before);
}

/// The position of the first record of `name`.
pub open spec fn first_local_name(names: Seq<LocalName>, name: Seq<char>) -> Option<int> {
    if exists|k: int| 0 <= k < names.len() && (#[trigger] names[k]).name@ == name {
        Some(choose|k: int| 0 <= k < names.len() && (#[trigger] names[k]).name@ == name && forall|j: int| 0 <= j < k ==> (#[trigger] names[j]).name@ != name)
    } else {
        None
    }
}

/// Checks a clause body as a private function of the handler's module: the handler's
/// parameters and the clause's bindings are in scope with the types the handler and
/// the operation give them, and the body must compute the operation's result type.
/// `name` is the name the clause's function goes by.
pub fn clause_body_diagnostics(
    handler: &HandlerDecl,
    clause: &HandlerOperationClauseDecl,
    operation: &EffectOperationSignature,
    signature: &HandlerSignature,
    effect: &EffectSignature,
    environment: &TypeEnvironment,
    name: String,
) -> (r: Vec<Diagnostic>)
    ensures
        body_reported(*handler, *clause, *operation, *signature, *effect, *environment, r@),
{
    let synthetic = synthetic_clause_function(handler, clause, operation, name);
    let mut checker = FunctionChecker::new(&synthetic, environment);
    let mut i: usize = 0;
    while i < handler.params.len()
        invariant
            0 <= i <= handler.params@.len(),
            checker.function == &synthetic,
            checker.environment == environment,
            checker.inferred_effects@.len() == 0,
            checker.diagnostics@.len() == 0,
            checker.bindings@.len() == i,
            forall|k: int| 0 <= k < i ==> (#[trigger] checker.bindings@[k]).name@ == handler.params@[k].name@
                && checker.bindings@[k].ty@ == type_at(signature.params@, k),
        decreases handler.params.len() - i,
    {
        let param = &handler.params[i];
        let ty = if i < signature.params.len() { signature.params[i].copy() } else { Type::Unknown };
        checker.bindings.push(Binding { name: param.name.clone(), ty });
        set_local_name(&mut checker.local_names, param.name.as_str(), param.node_id.display("param"), param.span.copy());
        i += 1;
    }
    let mut j: usize = 0;
    while j < clause.params.len()
        invariant
            0 <= j <= clause.params@.len(),
            checker.function == &synthetic,
            checker.environment == environment,
            checker.inferred_effects@.len() == 0,
            checker.diagnostics@.len() == 0,
            checker.bindings@.len() == handler.params@.len() + j,
            forall|k: int| 0 <= k < handler.params@.len() ==> (#[trigger] checker.bindings@[k]).name@ == handler.params@[k].name@
                && checker.bindings@[k].ty@ == type_at(signature.params@, k),
            forall|k: int| 0 <= k < j ==> (#[trigger] checker.bindings@[handler.params@.len() + k]).name@ == clause.params@[k].name@
                && checker.bindings@[handler.params@.len() + k].ty@ == type_at(operation.params@, k),
        decreases clause.params.len() - j,
    {
        let param = &clause.params[j];
        let ty = if j < operation.params.len() { operation.params[j].copy() } else { Type::Unknown };
        checker.bindings.push(Binding { name: param.name.clone(), ty });
        set_local_name(&mut checker.local_names, param.name.as_str(), param.node_id.display("param"), param.span.copy());
        j += 1;
    }
    let expected = ExpectedType {
        ty: operation.return_type.copy(),
        source: ExpectedTypeSource::DeclaredReturn,
        origin_node_id: operation.node_id,
        origin_span: Some(operation.name_span.copy()),
        origin_message: "Operation result type is declared here.",
    };
    let ghost c0 = checker;
    assert(clause_scope(c0, *handler, *clause, *operation, *signature, *environment));
    let actual = checker.infer_expr(&clause.body, Some(&expected));
    let ghost c2 = checker;
    let ghost inferred = checker.diagnostics@;
    checker.check_assignable(&clause.body, &operation.return_type, &actual, &expected, "handler_operation_result");
    proof {
        if !assignable(operation.return_type@, actual@) {
            let last = checker.diagnostics@.last();
            assert(checker.diagnostics@ =~= inferred.push(last));
            assert(jsons(last.related@) =~= Seq::<JsonV>::empty());
            assert(diag_view(last) == result_mismatch_view(*clause, *operation, actual@));
            assert(diag_views(checker.diagnostics@) =~= diag_views(inferred) + result_tail(*clause, *operation, actual@));
        } else {
            assert(diag_views(checker.diagnostics@) =~= diag_views(inferred) + result_tail(*clause, *operation, actual@));
        }
    }
    let public = handler.visibility == Visibility::Public;
    let extra = clause_effect_diagnostics(&checker.inferred_effects, clause, operation, signature, effect, public);
    let mut diagnostics = checker.diagnostics;
    let ghost before = diagnostics@;
    let ghost extra_seq = extra@;
    let mut extra = extra;
    diagnostics.append(&mut extra);
    proof {
        lemma_diag_views_append(before, extra_seq);
        assert(diagnostics@ == before + extra_seq);
        assert(clause_expectation(expected, *operation));
        assert(expr_result(c0, clause.body, Some(&expected), actual@));
        assert(kept_scope(c0, c2));
        assert(diag_views(diagnostics@) == diag_views(c2.diagnostics@) + result_tail(*clause, *operation, actual@)
            + clause_effects(c2.inferred_effects@, *clause, *operation, *signature, *effect, public));
    }
    diagnostics
}

/// Whether `ds` is what checking one clause reports: nothing for a clause without an
/// operation, the unknown-operation diagnostic when the handled effect has no such
/// operation, else the binding diagnostics followed by what checking the body reports.
pub open spec fn clause_checked(h: HandlerDecl, env: TypeEnvironment, clause: HandlerOperationClauseDecl, signature: HandlerSignature, effect: EffectSignature, ds: Seq<Diagnostic>) -> bool {
    match clause.operation {
        None => ds.len() == 0,
        Some(op) => match first_operation(effect.operations@, op@) {
            None => diag_views(ds) == seq![unknown_operation_view(clause, op@, signature, effect)],
            Some(k) => exists|b: Seq<Diagnostic>| #[trigger] body_reported(h, clause, effect.operations@[k], signature, effect, env, b)
                && diag_views(ds) == clause_bindings(clause, effect.operations@[k], signature, effect) + diag_views(b),
        },
    }
}

/// Checks one operation clause of a handler. `name` is the name the clause's function
/// goes by.
pub fn check_clause(
    handler: &HandlerDecl,
    clause: &HandlerOperationClauseDecl,
    signature: &HandlerSignature,
    effect: &EffectSignature,
    environment: &TypeEnvironment,
    name: String,
) -> (r: Vec<Diagnostic>)
    ensures
        clause_checked(*handler, *environment, *clause, *signature, *effect, r@),
{
    let operation_name = match &clause.operation {
        Some(o) => o,
        None => return Vec::new(),
    };
    let k = match find_operation(effect, operation_name.as_str()) {
        Some(k) => k,
        None => {
            let d = unknown_operation_diagnostic(clause, operation_name.as_str(), signature, effect);
            let r = vec![d];
            assert(diag_views(r@) =~= seq![diag_view(d)]);
            return r;
        },
    };
    let operation = &effect.operations[k];
    let mut diagnostics = clause_binding_diagnostics(clause, operation, signature, effect);
    let mut body = clause_body_diagnostics(handler, clause, operation, signature, effect, environment, name);
    let ghost (a, b) = (diagnostics@, body@);
    diagnostics.append(&mut body);
    proof {
        lemma_diag_views_append(a, b);
        assert(diagnostics@ == a + b);
        assert(body_reported(*handler, *clause, effect.operations@[k as int], *signature, *effect, *environment, b));
        let kk = first_operation(effect.operations@, operation_name@)->0;
        assert(kk == k as int);
        assert(exists|bb: Seq<Diagnostic>| #[trigger] body_reported(*handler, *clause, effect.operations@[kk], *signature, *effect, *environment, bb)
            && diag_views(diagnostics@) == clause_bindings(*clause, effect.operations@[kk], *signature, *effect) + diag_views(bb));
        assert(clause_checked(*handler, *environment, *clause, *signature, *effect, diagnostics@));
    }
    diagnostics
}

/// What the program model resolves for one handler declaration: the handler's
/// signature (when its name resolves to one), how the handled effect resolves, how
/// each label of its `effects` clause resolves, the effects visible from its module
/// (by position among the environment's effects), and the name each clause's function
/// goes by.
pub struct HandlerContext {
    pub signature: Option<HandlerSignature>,
    pub effect: UserEffectPathResolution,
    pub declared_effects: Vec<UserEffectPathResolution>,
    pub visible_effects: Vec<usize>,
    pub clause_function_names: Vec<String>,
}

/// Whether a context fits a handler and an environment.
pub open spec fn context_fits(h: HandlerDecl, env: TypeEnvironment, c: HandlerContext) -> bool {
    &&& resolution_in(env, c.effect)
    &&& (h.effects matches Some(es) ==> c.declared_effects@.len() == es@.len())
    &&& forall|i: int| 0 <= i < c.declared_effects@.len() ==> resolution_in(env, #[trigger] c.declared_effects@[i])
    &&& forall|i: int| 0 <= i < c.visible_effects@.len() ==> (#[trigger] c.visible_effects@[i]) < env.effects@.len()
    &&& c.clause_function_names@.len() == h.operation_clauses@.len()
}

/// The diagnostics of a list of lists, in order.
pub open spec fn flat_views(parts: Seq<Seq<Diagnostic>>) -> Seq<DiagV>
    decreases parts.len(),
{
    if parts.len() == 0 {
        Seq::empty()
    } else {
        flat_views(parts.drop_last()) + diag_views(parts.last())
    }
}

/// Whether `ds` is what checking a handler reports: nothing for a handler whose name
/// resolves to no signature; the companion diagnostic or the unknown-effect diagnostic
/// when the handled effect does not resolve; else the diagnostics for its `effects`
/// clause, repeated clauses, missing clauses, then each clause in order.
pub open spec fn handler_checked(h: HandlerDecl, env: TypeEnvironment, c: HandlerContext, ds: Seq<Diagnostic>) -> bool {
    match c.signature {
        None => ds.len() == 0,
        Some(sig) => match c.effect {
            UserEffectPathResolution::PrivateCompanionTargetMismatch { effect, access } => diag_views(ds) == seq![
                private_companion_effect_view(
                    node_display(h.node_id.index, "handler"@),
                    "handler_declaration"@,
                    crate::names_infer::join_path_view(h.effect.deep_view()),
                    env.effects@[effect as int],
                    access,
                    h.effect_span@,
                ),
            ],
            UserEffectPathResolution::Missing => diag_views(ds) == seq![
                unknown_effect_view(h, Seq::new(c.visible_effects@.len(), |i: int| env.effects@[c.visible_effects@[i] as int])),
            ],
            UserEffectPathResolution::Found(e) => exists|parts: Seq<Seq<Diagnostic>>| {
                &&& parts.len() == h.operation_clauses@.len()
                &&& forall|i: int| 0 <= i < parts.len() ==> clause_checked(h, env, h.operation_clauses@[i], sig, env.effects@[e as int], #[trigger] parts[i])
                &&& diag_views(ds) == declared_effects_diags(h, env, c.declared_effects@)
                    + duplicate_clauses(h.operation_clauses@, h.operation_clauses@.len() as int, sig, env.effects@[e as int])
                    + missing_clauses(h, sig, env.effects@[e as int], env.effects@[e as int].operations@.len() as int)
                    + flat_views(parts)
            },
        },
    }
}

/// Checks one handler declaration against what the program model resolves for it.
pub fn check_handler_declaration(handler: &HandlerDecl, environment: &TypeEnvironment, context: &HandlerContext) -> (r: Vec<Diagnostic>)
    requires
        context_fits(*handler, *environment, *context),
    ensures
        handler_checked(*handler, *environment, *context, r@),
{
    let signature = match &context.signature {
        Some(s) => s,
        None => return Vec::new(),
    };
    let e = match &context.effect {
        UserEffectPathResolution::Found(e) => *e,
        UserEffectPathResolution::PrivateCompanionTargetMismatch { effect, access } => {
            let path = crate::names_infer::join_path(handler.effect.as_slice());
            let d = private_companion_effect_target_diagnostic(
                handler.node_id.display("handler"),
                "handler_declaration",
                path.as_str(),
                &environment.effects[*effect],
                access,
                handler.effect_span.copy(),
            );
            let r = vec![d];
            assert(diag_views(r@) =~= seq![diag_view(d)]);
            return r;
        },
        UserEffectPathResolution::Missing => {
            let d = unknown_effect_diagnostic(handler, environment, &context.visible_effects);
            let r = vec![d];
            assert(diag_views(r@) =~= seq![diag_view(d)]);
            return r;
        },
    };
    let effect = &environment.effects[e];
    let mut diagnostics = declared_effect_diagnostics(handler, environment, &context.declared_effects);
    let mut duplicates = duplicate_clause_diagnostics(handler, signature, effect);
    let mut missing = missing_clause_diagnostics(handler, signature, effect);
    let ghost (a, b, m) = (diagnostics@, duplicates@, missing@);
    diagnostics.append(&mut duplicates);
    diagnostics.append(&mut missing);
    proof {
        lemma_diag_views_append(a, b);
        lemma_diag_views_append(a + b, m);
        assert(diagnostics@ == a + b + m);
    }
    let ghost head = diag_views(diagnostics@);
    let ghost mut parts: Seq<Seq<Diagnostic>> = Seq::empty();
    let clauses = &handler.operation_clauses;
    let mut k: usize = 0;
    while k < clauses.len()
        invariant
            0 <= k <= clauses@.len(),
            context_fits(*handler, *environment, *context),
            clauses == &handler.operation_clauses,
            parts.len() == k,
            forall|i: int| 0 <= i < k ==> clause_checked(*handler, *environment, clauses@[i], *signature, *effect, #[trigger] parts[i]),
            diag_views(diagnostics@) == head + flat_views(parts),
        decreases clauses.len() - k,
    {
        let mut part = check_clause(handler, &clauses[k], signature, effect, environment, context.clause_function_names[k].clone());
        let ghost (before, p) = (diagnostics@, part@);
        diagnostics.append(&mut part);
        proof {
            lemma_diag_views_append(before, p);
            assert(diagnostics@ == before + p);
            let old_parts = parts;
            parts = parts.push(p);
            assert(parts.drop_last() =~= old_parts);
            assert(flat_views(parts) == flat_views(old_parts) + diag_views(p));
            assert(head + flat_views(old_parts) + diag_views(p) =~= head + flat_views(parts));
        }
        k += 1;
    }
    diagnostics
}

/// Whether `ds` is what checking each handler of the module reports, in order.
pub open spec fn handlers_checked(hs: Seq<HandlerDecl>, env: TypeEnvironment, cs: Seq<HandlerContext>, ds: Seq<Diagnostic>) -> bool {
    exists|parts: Seq<Seq<Diagnostic>>| {
        &&& parts.len() == hs.len()
        &&& forall|i: int| 0 <= i < parts.len() ==> handler_checked(hs[i], env, cs[i], #[trigger] parts[i])
        &&& diag_views(ds) == flat_views(parts)
    }
}

/// Checks every handler declaration of a module; `contexts` holds what the program
/// model resolves for each handler, in the same order.
pub fn check_handler_declarations(module: &SurfaceModule, environment: &TypeEnvironment, contexts: &Vec<HandlerContext>) -> (r: Vec<Diagnostic>)
    requires
        contexts@.len() == module.handlers@.len(),
        forall|i: int| 0 <= i < contexts@.len() ==> context_fits(module.handlers@[i], *environment, #[trigger] contexts@[i]),
    ensures
        handlers_checked(module.handlers@, *environment, contexts@, r@),
{
    let mut diagnostics: Vec<Diagnostic> = Vec::new();
    let ghost mut parts: Seq<Seq<Diagnostic>> = Seq::empty();
    let mut k: usize = 0;
    while k < module.handlers.len()
        invariant
            0 <= k <= module.handlers@.len(),
            contexts@.len() == module.handlers@.len(),
            forall|i: int| 0 <= i < contexts@.len() ==> context_fits(module.handlers@[i], *environment, #[trigger] contexts@[i]),
            parts.len() == k,
            forall|i: int| 0 <= i < k ==> handler_checked(module.handlers@[i], *environment, contexts@[i], #[trigger] parts[i]),
            diag_views(diagnostics@) == flat_views(parts),
        decreases module.handlers.len() - k,
    {
        let mut part = check_handler_declaration(&module.handlers[k], environment, &contexts[k]);
        let ghost (before, p) = (diagnostics@, part@);
        diagnostics.append(&mut part);
        proof {
            lemma_diag_views_append(before, p);
            assert(diagnostics@ == before + p);
            let old_parts = parts;
            parts = parts.push(p);
            assert(parts.drop_last() =~= old_parts);
        }
        k += 1;
    }
    diagnostics
}

/// Whether two of `cs[0..n]` handle the same operation.
pub open spec fn repeats_operation(cs: Seq<HandlerOperationClauseDecl>, n: int) -> bool {
    exists|i: int, j: int| 0 <= i < j < n && (#[trigger] cs[i]).operation is Some && opt_string((#[trigger] cs[j]).operation) == opt_string(cs[i].operation)
}

proof fn lemma_first_clause_found(cs: Seq<HandlerOperationClauseDecl>, op: Seq<char>, n: int, i: int)
    requires
        0 <= i < n,
        opt_string(cs[i].operation) == Some(op),
    ensures
        first_clause_for(cs, op, n) is Some,
    decreases n,
{
    if i < n - 1 {
        lemma_first_clause_found(cs, op, n - 1, i);
    }
}

proof fn lemma_first_clause_bound(cs: Seq<HandlerOperationClauseDecl>, op: Seq<char>, n: int)
    requires
        first_clause_for(cs, op, n) is Some,
    ensures
        0 <= first_clause_for(cs, op, n)->0 < n,
        opt_string(cs[first_clause_for(cs, op, n)->0].operation) == Some(op),
    decreases n,
{
    if n > 0 && first_clause_for(cs, op, n - 1) is Some {
        lemma_first_clause_bound(cs, op, n - 1);
    }
}

/// A handler's clauses draw a repeated-clause report exactly when two of them handle
/// the same operation.
pub proof fn law_repeated_clause_reported(cs: Seq<HandlerOperationClauseDecl>, signature: HandlerSignature, effect: EffectSignature)
    ensures
        (duplicate_clauses(cs, cs.len() as int, signature, effect).len() == 0) == !repeats_operation(cs, cs.len() as int),
{
    lemma_repeats_reported(cs, cs.len() as int, signature, effect);
}

proof fn lemma_repeats_reported(cs: Seq<HandlerOperationClauseDecl>, n: int, signature: HandlerSignature, effect: EffectSignature)
    requires
        0 <= n <= cs.len(),
    ensures
        (duplicate_clauses(cs, n, signature, effect).len() == 0) == !repeats_operation(cs, n),
    decreases n,
{
    if n > 0 {
        lemma_repeats_reported(cs, n - 1, signature, effect);
        let last = cs[n - 1];
        if repeats_operation(cs, n - 1) {
            let (i, j) = choose|i: int, j: int| 0 <= i < j < n - 1 && (#[trigger] cs[i]).operation is Some && opt_string((#[trigger] cs[j]).operation) == opt_string(cs[i].operation);
            assert(0 <= i < j < n && cs[i].operation is Some && opt_string(cs[j].operation) == opt_string(cs[i].operation));
        }
        match last.operation {
            Some(op) => {
                if first_clause_for(cs, op@, n - 1) is Some {
                    lemma_first_clause_bound(cs, op@, n - 1);
                    let i = first_clause_for(cs, op@, n - 1)->0;
                    assert(opt_string(cs[i].operation) == opt_string(last.operation));
                    assert(0 <= i < n - 1 < n && cs[i].operation is Some && opt_string(cs[n - 1].operation) == opt_string(cs[i].operation));
                } else if repeats_operation(cs, n) && !repeats_operation(cs, n - 1) {
                    let (i, j) = choose|i: int, j: int| 0 <= i < j < n && (#[trigger] cs[i]).operation is Some && opt_string((#[trigger] cs[j]).operation) == opt_string(cs[i].operation);
                    if j < n - 1 {
                        assert(0 <= i < j < n - 1 && cs[i].operation is Some && opt_string(cs[j].operation) == opt_string(cs[i].operation));
                    } else {
                        lemma_first_clause_found(cs, op@, n - 1, i);
                    }
                }
            },
            None => {
                if repeats_operation(cs, n) && !repeats_operation(cs, n - 1) {
                    let (i, j) = choose|i: int, j: int| 0 <= i < j < n && (#[trigger] cs[i]).operation is Some && opt_string((#[trigger] cs[j]).operation) == opt_string(cs[i].operation);
                    assert(0 <= i < j < n - 1 && cs[i].operation is Some && opt_string(cs[j].operation) == opt_string(cs[i].operation));
                }
            },
        }
    }
}

/// A handler draws no missing-clause report exactly when its signature has a clause
/// for every operation of the handled effect.
pub proof fn law_every_operation_handled(h: HandlerDecl, signature: HandlerSignature, effect: EffectSignature)
    ensures
        (missing_clauses(h, signature, effect, effect.operations@.len() as int).len() == 0)
            == forall|k: int| 0 <= k < effect.operations@.len() ==> has_clause_for(signature, (#[trigger] effect.operations@[k]).name@),
{
    lemma_missing_reported(h, signature, effect, effect.operations@.len() as int);
}

proof fn lemma_missing_reported(h: HandlerDecl, signature: HandlerSignature, effect: EffectSignature, n: int)
    requires
        0 <= n <= effect.operations@.len(),
    ensures
        (missing_clauses(h, signature, effect, n).len() == 0)
            == forall|k: int| 0 <= k < n ==> has_clause_for(signature, (#[trigger] effect.operations@[k]).name@),
    decreases n,
{
    if n > 0 {
        lemma_missing_reported(h, signature, effect, n - 1);
    }
}

} // verus!
