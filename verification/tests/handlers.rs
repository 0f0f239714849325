use lib::ast::{ClauseParam, Expr, ExprKind, HandlerDecl, HandlerOperationClauseDecl, Param, SurfaceModule, Visibility};
use lib::diag::{Diagnostic, NodeId, SourceSpan};
use lib::env::{
    AdtRegistry, CompanionAccessTarget, EffectOperationSignature, EffectSignature, HandlerClauseSignature, HandlerSignature,
    TypeEnvironment, UserEffectPathResolution,
};
use lib::handlers::{
    check_clause, check_handler_declaration, check_handler_declarations, clause_binding_diagnostics, clause_body_diagnostics,
    clause_effect_diagnostics, declared_effect_diagnostics, duplicate_clause_diagnostics, handler_details,
    missing_clause_diagnostics, private_companion_effect_target_diagnostic, private_companion_handler_target_diagnostic,
    recursive_clause_diagnostic, synthetic_clause_function, unknown_declared_effect_diagnostic, unknown_effect_diagnostic,
    unknown_operation_diagnostic, HandlerContext,
};
use lib::json::JsonValue;
use lib::semantic::EffectUse;
use lib::types::Type;

fn span(line: u32) -> SourceSpan {
    SourceSpan { file: "log.veln".to_string(), start_line: line, start_column: 1, end_line: line, end_column: 10 }
}

fn operation(name: &str, params: Vec<Type>, line: u32) -> EffectOperationSignature {
    EffectOperationSignature { name: name.to_string(), params, return_type: Type::unit_type(), node_id: NodeId { index: line as u64 }, name_span: span(line) }
}

fn log_effect() -> EffectSignature {
    EffectSignature {
        name: "Log".to_string(),
        qualified_name: "app::Log".to_string(),
        module_name: Some("app".to_string()),
        operations: vec![operation("write", vec![Type::string_type()], 2), operation("flush", Vec::new(), 3)],
        span: span(1),
    }
}

fn environment() -> TypeEnvironment {
    TypeEnvironment {
        functions: Vec::new(),
        adts: AdtRegistry { descriptors: Vec::new() },
        effects: vec![log_effect()],
        handlers: Vec::new(),
        known_effect_labels: vec!["io".to_string(), "clock".to_string()],
    }
}

fn signature(clauses: &[&str]) -> HandlerSignature {
    HandlerSignature {
        name: "Console".to_string(),
        qualified_name: "app::Console".to_string(),
        module_name: Some("app".to_string()),
        effect: "app::Log".to_string(),
        params: Vec::new(),
        effects: vec!["io".to_string()],
        operation_clauses: clauses.iter().map(|c| HandlerClauseSignature { operation: c.to_string() }).collect(),
    }
}

fn body(kind: ExprKind, index: u64) -> Expr {
    Expr { kind, node_id: NodeId { index }, span: span(index as u32) }
}

fn clause(operation: Option<&str>, params: &[&str], index: u64, result: ExprKind) -> HandlerOperationClauseDecl {
    HandlerOperationClauseDecl {
        operation: operation.map(|o| o.to_string()),
        operation_span: span(index as u32),
        params: params
            .iter()
            .enumerate()
            .map(|(i, p)| ClauseParam { name: p.to_string(), node_id: NodeId { index: index * 10 + i as u64 }, span: span(index as u32) })
            .collect(),
        body: body(result, index + 100),
        node_id: NodeId { index },
        span: span(index as u32),
    }
}

fn handler(clauses: Vec<HandlerOperationClauseDecl>, effects: Option<Vec<&str>>) -> HandlerDecl {
    HandlerDecl {
        name: Some("Console".to_string()),
        module_name: Some("app".to_string()),
        visibility: Visibility::Public,
        effect: vec!["Log".to_string()],
        effect_span: span(20),
        effects: effects.map(|es| es.iter().map(|e| e.to_string()).collect()),
        effect_spans: None,
        params: Vec::<Param>::new(),
        operation_clauses: clauses,
        node_id: NodeId { index: 50 },
        span: span(21),
    }
}

fn ids(ds: &[Diagnostic]) -> Vec<&str> {
    ds.iter().map(|d| d.id.as_str()).collect()
}

fn field<'a>(value: &'a JsonValue, name: &str) -> Option<&'a JsonValue> {
    match value {
        JsonValue::Object(entries) => entries.iter().find(|(k, _)| k == name).map(|(_, v)| v),
        _ => None,
    }
}

fn text<'a>(value: &'a JsonValue, name: &str) -> &'a str {
    match field(value, name) {
        Some(JsonValue::String(s)) => s.as_str(),
        _ => "",
    }
}

#[test]
fn details_name_the_handler_and_operation() {
    let d = handler_details("clause#4".to_string(), "handler_operation_clause", "app::Console".to_string(), "app::Log".to_string(), Some("write"), "unknown_operation");
    assert_eq!(text(&d, "phase"), "effect");
    assert_eq!(text(&d, "node_id"), "clause#4");
    assert_eq!(text(&d, "operation"), "write");
    assert_eq!(text(&d, "reason"), "unknown_operation");
    let d = handler_details("handler#1".to_string(), "handler_declaration", String::new(), "Log".to_string(), None, "unknown_handled_effect");
    assert!(matches!(field(&d, "operation"), Some(JsonValue::Null)));
}

#[test]
fn second_clause_for_an_operation_is_reported() {
    let h = handler(
        vec![
            clause(Some("write"), &["msg"], 4, ExprKind::Unit),
            clause(Some("write"), &["msg"], 5, ExprKind::Unit),
            clause(Some("flush"), &[], 6, ExprKind::Unit),
            clause(Some("write"), &["m"], 7, ExprKind::Unit),
        ],
        None,
    );
    let ds = duplicate_clause_diagnostics(&h, &signature(&["write", "flush"]), &log_effect());
    assert_eq!(ids(&ds), vec!["handler.duplicate_operation_clause", "handler.duplicate_operation_clause"]);
    assert_eq!(ds[0].message, "handler `app::Console` declares operation `write` more than once");
    assert_eq!(ds[0].span.as_ref().unwrap().start_line, 5);
    assert_eq!(text(&ds[0].related[0], "message"), "The first clause for operation `write` is here.");
    let first = field(&ds[1].related[0], "span").unwrap();
    assert!(matches!(field(first, "start_line"), Some(JsonValue::Number(4))));
}

#[test]
fn operation_without_clause_is_reported() {
    let h = handler(vec![clause(Some("write"), &["msg"], 4, ExprKind::Unit)], None);
    let ds = missing_clause_diagnostics(&h, &signature(&["write"]), &log_effect());
    assert_eq!(ids(&ds), vec!["handler.missing_operation_clause"]);
    assert_eq!(ds[0].message, "handler `app::Console` does not declare operation `flush`");
    assert_eq!(text(&ds[0].details, "node_id"), "handler#50");
    assert_eq!(text(&ds[0].related[0], "message"), "Operation `flush` is declared here.");
    assert!(missing_clause_diagnostics(&h, &signature(&["write", "flush"]), &log_effect()).is_empty());
}

#[test]
fn clause_bindings_match_operation_arguments() {
    let effect = log_effect();
    let c = clause(Some("write"), &["a", "b", "a"], 4, ExprKind::Unit);
    let ds = clause_binding_diagnostics(&c, &effect.operations[0], &signature(&["write"]), &effect);
    assert_eq!(ids(&ds), vec!["handler.operation_clause_arity", "handler.duplicate_operation_binding"]);
    assert_eq!(ds[0].message, "operation `write` expects 1 parameter bindings, but clause declares 3");
    assert_eq!(ds[1].message, "operation clause repeats binding `a`");
    assert_eq!(text(&ds[1].details, "node_id"), "param#42");
    let ok = clause(Some("write"), &["msg"], 4, ExprKind::Unit);
    assert!(clause_binding_diagnostics(&ok, &effect.operations[0], &signature(&["write"]), &effect).is_empty());
}

#[test]
fn clause_for_unknown_operation() {
    let effect = log_effect();
    let env = environment();
    let h = handler(Vec::new(), None);
    let c = clause(Some("close"), &[], 8, ExprKind::Unit);
    let ds = check_clause(&h, &c, &signature(&[]), &effect, &env, "close_clause".to_string());
    assert_eq!(ids(&ds), vec!["handler.unknown_operation"]);
    assert_eq!(ds[0].message, "handled effect `app::Log` has no operation clause `close`");
    let d = unknown_operation_diagnostic(&c, "close", &signature(&[]), &effect);
    assert_eq!(text(&d.related[0], "message"), "Effect `app::Log` is declared here.");
    let none = clause(None, &[], 9, ExprKind::Unit);
    assert!(check_clause(&h, &none, &signature(&[]), &effect, &env, "x".to_string()).is_empty());
}

#[test]
fn clause_body_must_compute_the_result_type() {
    let effect = log_effect();
    let env = environment();
    let h = handler(Vec::new(), None);
    let good = clause(Some("flush"), &[], 6, ExprKind::Unit);
    assert!(clause_body_diagnostics(&h, &good, &effect.operations[1], &signature(&["flush"]), &effect, &env, "f".to_string()).is_empty());
    let bad = clause(Some("flush"), &[], 6, ExprKind::IntLiteral { text: "1".to_string(), value: Some(1) });
    let ds = clause_body_diagnostics(&h, &bad, &effect.operations[1], &signature(&["flush"]), &effect, &env, "f".to_string());
    assert_eq!(ids(&ds), vec!["type.mismatch"]);
    assert_eq!(ds[0].message, "expected `()`, but found `Int`");
    assert_eq!(text(&ds[0].details, "constraint"), "handler_operation_result");
    assert_eq!(text(&ds[0].details, "expected_source"), "declared_return");
}

#[test]
fn clause_body_performing_the_handled_effect_is_recursive() {
    let effect = log_effect();
    let env = environment();
    let h = handler(Vec::new(), None);
    let perform = ExprKind::Perform {
        effect: vec!["Log".to_string()],
        effect_span: span(7),
        operation: "flush".to_string(),
        operation_span: span(7),
        args: Vec::new(),
    };
    let c = clause(Some("flush"), &[], 6, perform);
    let ds = clause_body_diagnostics(&h, &c, &effect.operations[1], &signature(&["flush"]), &effect, &env, "f".to_string());
    assert_eq!(ids(&ds), vec!["handler.recursive_operation_clause"]);
    assert_eq!(ds[0].message, "operation clause `flush` performs handled effect `app::Log`");
}

#[test]
fn clause_effects_report_recursion_and_undeclared_uses() {
    let effect = log_effect();
    let c = clause(Some("write"), &["msg"], 4, ExprKind::Unit);
    let uses = vec![
        EffectUse { effect: "app::Log".to_string(), node_id: NodeId { index: 30 }, span: span(30), kind: "perform_expression", symbol: "app::Log::write".to_string() },
        EffectUse { effect: "net".to_string(), node_id: NodeId { index: 31 }, span: span(31), kind: "perform_expression", symbol: "send".to_string() },
        EffectUse { effect: "io".to_string(), node_id: NodeId { index: 32 }, span: span(32), kind: "perform_expression", symbol: "print".to_string() },
    ];
    let ds = clause_effect_diagnostics(&uses, &c, &effect.operations[0], &signature(&["write"]), &effect, true);
    assert_eq!(ids(&ds), vec!["handler.recursive_operation_clause", "handler.missing_public_effect"]);
    assert_eq!(ds[0].message, "operation clause `write` performs handled effect `app::Log`");
    assert_eq!(ds[1].message, "public handler `app::Console` uses undeclared effect `net`");
    let private = clause_effect_diagnostics(&uses, &c, &effect.operations[0], &signature(&["write"]), &effect, false);
    assert_eq!(ids(&private), vec!["handler.recursive_operation_clause"]);
    let d = recursive_clause_diagnostic(&c, &signature(&["write"]), &effect);
    assert_eq!(text(&d.related[0], "message"), "Handler `app::Console` handles `app::Log`.");
}

#[test]
fn declared_effect_labels_resolve() {
    let env = environment();
    let h = handler(Vec::new(), Some(vec!["io", "...rest", "Log", "net", "Secret"]));
    let access = CompanionAccessTarget { companion_path: "app_test".to_string(), target_module: "app".to_string() };
    let resolutions = vec![
        UserEffectPathResolution::Missing,
        UserEffectPathResolution::Missing,
        UserEffectPathResolution::Found(0),
        UserEffectPathResolution::Missing,
        UserEffectPathResolution::PrivateCompanionTargetMismatch { effect: 0, access },
    ];
    let ds = declared_effect_diagnostics(&h, &env, &resolutions);
    assert_eq!(ids(&ds), vec!["effect.unknown", "effect.private_companion_target"]);
    assert_eq!(ds[0].message, "declared effect `net` is not known");
    assert_eq!(text(&ds[0].details, "boundary"), "handler_declaration_effects");
    assert_eq!(ds[1].message, "private effect `Secret` belongs to `app` instead of companion target `app`");
    let d = unknown_declared_effect_diagnostic(&h, "net", 3, &env.known_effect_labels);
    assert_eq!(text(&d.related[0], "kind"), "repair_hint");
    assert!(declared_effect_diagnostics(&handler(Vec::new(), None), &env, &Vec::new()).is_empty());
}

#[test]
fn companion_target_diagnostics() {
    let access = CompanionAccessTarget { companion_path: "core_test".to_string(), target_module: "core".to_string() };
    let d = private_companion_effect_target_diagnostic("expr#3".to_string(), "perform_expression", "Log", &log_effect(), &access, span(9));
    assert_eq!(d.id, "effect.private_companion_target");
    assert_eq!(d.message, "private effect `Log` belongs to `app` instead of companion target `core`");
    assert_eq!(text(&d.details, "resolved_effect"), "app::Log");
    assert_eq!(text(&d.related[0], "message"), "This test companion may access private effects only from target module `core`.");
    assert_eq!(text(&d.related[1], "message"), "Private effect `app::Log` is declared here.");
    let h = private_companion_handler_target_diagnostic("expr#4".to_string(), "handle_expression", "Console", &signature(&[]), &access, span(9));
    assert_eq!(h.id, "handler.private_companion_target");
    assert_eq!(h.message, "private handler `Console` belongs to `app` instead of companion target `core`");
    assert_eq!(text(&h.details, "handler_module"), "app");
}

#[test]
fn unknown_handled_effect_lists_candidates() {
    let env = environment();
    let h = handler(Vec::new(), None);
    let d = unknown_effect_diagnostic(&h, &env, &vec![0]);
    assert_eq!(d.id, "handler.effect_unknown");
    assert_eq!(d.message, "handled effect `Log` is not known");
    assert_eq!(d.related.len(), 1);
    assert_eq!(text(&d.related[0], "message"), "Candidate effect `app::Log` is declared here.");
    match field(&d.related[0], "operations") {
        Some(JsonValue::Array(ops)) => assert_eq!(ops.len(), 2),
        _ => panic!("operations missing"),
    }
}

#[test]
fn whole_handler_check() {
    let env = environment();
    let h = handler(
        vec![
            clause(Some("write"), &["msg"], 4, ExprKind::Unit),
            clause(Some("write"), &["msg"], 5, ExprKind::Unit),
            clause(Some("close"), &[], 6, ExprKind::Unit),
        ],
        Some(vec!["net"]),
    );
    let context = HandlerContext {
        signature: Some(signature(&["write", "write", "close"])),
        effect: UserEffectPathResolution::Found(0),
        declared_effects: vec![UserEffectPathResolution::Missing],
        visible_effects: Vec::new(),
        clause_function_names: vec!["a".to_string(), "b".to_string(), "c".to_string()],
    };
    let ds = check_handler_declaration(&h, &env, &context);
    assert_eq!(
        ids(&ds),
        vec!["effect.unknown", "handler.duplicate_operation_clause", "handler.missing_operation_clause", "handler.unknown_operation"]
    );
    let unresolved = HandlerContext {
        signature: Some(signature(&[])),
        effect: UserEffectPathResolution::Missing,
        declared_effects: vec![UserEffectPathResolution::Missing],
        visible_effects: vec![0],
        clause_function_names: vec!["a".to_string(), "b".to_string(), "c".to_string()],
    };
    assert_eq!(ids(&check_handler_declaration(&h, &env, &unresolved)), vec!["handler.effect_unknown"]);
    let unnamed = HandlerContext {
        signature: None,
        effect: UserEffectPathResolution::Missing,
        declared_effects: vec![UserEffectPathResolution::Missing],
        visible_effects: Vec::new(),
        clause_function_names: vec!["a".to_string(), "b".to_string(), "c".to_string()],
    };
    assert!(check_handler_declaration(&h, &env, &unnamed).is_empty());
    let module = SurfaceModule {
        module: None,
        uses: Vec::new(),
        functions: Vec::new(),
        types: Vec::new(),
        effects: Vec::new(),
        schemas: Vec::new(),
        aliases: Vec::new(),
        handlers: vec![h],
    };
    assert_eq!(check_handler_declarations(&module, &env, &vec![context]).len(), 4);
}

#[test]
fn synthetic_function_for_a_clause() {
    let effect = log_effect();
    let h = handler(Vec::new(), None);
    let c = clause(Some("flush"), &[], 6, ExprKind::Unit);
    let f = synthetic_clause_function(&h, &c, &effect.operations[1], "Console::flush".to_string());
    assert_eq!(f.name.as_deref(), Some("Console::flush"));
    assert_eq!(f.module_name.as_deref(), Some("app"));
    assert!(f.visibility == Visibility::Private);
    assert_eq!(f.return_type.as_ref().unwrap().text, "()");
    assert!(f.node_id == NodeId { index: 6 });
}
