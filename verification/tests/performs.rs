use lib::ast::{Expr, ExprKind, Function, FunctionKind, Visibility};
use lib::checker::FunctionChecker;
use lib::diag::{NodeId, SourceSpan};
use lib::env::{AdtRegistry, EffectOperationSignature, EffectSignature, HandlerClauseSignature, HandlerSignature, TypeEnvironment};
use lib::json::JsonValue;
use lib::render::render_type;
use lib::types::Type;

fn span(line: u32) -> SourceSpan {
    SourceSpan { file: "app.veln".to_string(), start_line: line, start_column: 1, end_line: line, end_column: 10 }
}

fn expr(kind: ExprKind, id: u64) -> Expr {
    Expr { kind, node_id: NodeId { index: id }, span: span(id as u32) }
}

fn string_lit(text: &str, id: u64) -> Expr {
    expr(ExprKind::StringLiteral(text.to_string()), id)
}

fn int_lit(value: i64, id: u64) -> Expr {
    expr(ExprKind::IntLiteral { text: value.to_string(), value: Some(value) }, id)
}

fn environment() -> TypeEnvironment {
    TypeEnvironment {
        functions: Vec::new(),
        adts: AdtRegistry { descriptors: Vec::new() },
        effects: vec![EffectSignature {
            name: "Log".to_string(),
            qualified_name: "app::Log".to_string(),
            module_name: Some("app".to_string()),
            operations: vec![EffectOperationSignature {
                name: "write".to_string(),
                params: vec![Type::string_type()],
                return_type: Type::int_type(),
                node_id: NodeId { index: 50 },
                name_span: span(50),
            }],
            span: span(49),
        }],
        handlers: vec![HandlerSignature {
            name: "Console".to_string(),
            qualified_name: "app::Console".to_string(),
            module_name: Some("app".to_string()),
            effect: "app::Log".to_string(),
            params: Vec::new(),
            effects: vec!["io".to_string()],
            operation_clauses: vec![HandlerClauseSignature { operation: "write".to_string() }],
        }],
        known_effect_labels: vec!["io".to_string()],
    }
}

fn function(visibility: Visibility) -> Function {
    Function {
        name: Some("main".to_string()),
        module_name: Some("app".to_string()),
        kind: FunctionKind::Function,
        visibility,
        params: Vec::new(),
        return_type: None,
        return_type_span: None,
        return_binding: None,
        effects: None,
        effect_spans: None,
        effect_binder: None,
        contracts: Vec::new(),
        body: Vec::new(),
        node_id: NodeId { index: 100 },
        span: span(100),
    }
}

fn start_line(span: &Option<SourceSpan>) -> Option<u32> {
    span.as_ref().map(|s| s.start_line)
}

fn number(d: &JsonValue, key: &str) -> Option<i64> {
    match d {
        JsonValue::Object(entries) => entries.iter().find(|(k, _)| k == key).and_then(|(_, v)| match v {
            JsonValue::Number(n) => Some(*n),
            _ => None,
        }),
        _ => None,
    }
}

fn flag(d: &JsonValue, key: &str) -> Option<bool> {
    match d {
        JsonValue::Object(entries) => entries.iter().find(|(k, _)| k == key).and_then(|(_, v)| match v {
            JsonValue::Bool(b) => Some(*b),
            _ => None,
        }),
        _ => None,
    }
}

fn perform(effect: &str, operation: &str, args: Vec<Expr>, id: u64) -> Expr {
    expr(
        ExprKind::Perform {
            effect: vec![effect.to_string()],
            effect_span: span(id as u32 + 1),
            operation: operation.to_string(),
            operation_span: span(id as u32 + 2),
            args,
        },
        id,
    )
}

fn handle(body: Expr, handler: &str, id: u64) -> Expr {
    expr(ExprKind::Handle { body: Box::new(body), handler: vec![handler.to_string()], handler_span: span(id as u32 + 1), args: Vec::new() }, id)
}

#[test]
fn perform_has_the_operation_result_type_and_records_the_use() {
    let f = function(Visibility::Private);
    let env = environment();
    let mut checker = FunctionChecker::new(&f, &env);
    let ty = checker.infer_expr(&perform("Log", "write", vec![string_lit("hi", 11)], 10), None);
    assert_eq!(render_type(&ty), "Int");
    assert!(checker.diagnostics.is_empty());
    assert_eq!(checker.inferred_effects.len(), 1);
    assert_eq!(checker.inferred_effects[0].effect, "app::Log");
    assert_eq!(checker.inferred_effects[0].symbol, "app::Log::write");
    assert_eq!(checker.inferred_effects[0].span.start_line, 10);
    assert_eq!(checker.inferred_effects[0].kind, "perform_expression");
    assert_eq!(checker.inferred_effects[0].node_id.index, 10);
}

#[test]
fn perform_checks_arguments_against_the_operation() {
    let f = function(Visibility::Private);
    let env = environment();
    let mut checker = FunctionChecker::new(&f, &env);
    checker.infer_expr(&perform("Log", "write", vec![int_lit(3, 11)], 10), None);
    assert_eq!(checker.diagnostics.len(), 1);
    assert_eq!(checker.diagnostics[0].id, "type.mismatch");
    assert_eq!(checker.diagnostics[0].message, "expected `String`, but found `Int`");
    assert_eq!(checker.inferred_effects.len(), 1);
}

#[test]
fn perform_of_an_unknown_effect_is_reported() {
    let f = function(Visibility::Private);
    let env = environment();
    let mut checker = FunctionChecker::new(&f, &env);
    let ty = checker.infer_expr(&perform("Nope", "write", Vec::new(), 10), None);
    assert_eq!(render_type(&ty), "_");
    assert_eq!(checker.diagnostics.len(), 1);
    assert_eq!(checker.diagnostics[0].id, "effect.unknown");
    assert_eq!(checker.diagnostics[0].message, "performed effect `Nope` is not known");
    assert_eq!(start_line(&checker.diagnostics[0].span), Some(11));
    assert!(checker.inferred_effects.is_empty());
}

#[test]
fn perform_of_an_unknown_operation_is_reported() {
    let f = function(Visibility::Private);
    let env = environment();
    let mut checker = FunctionChecker::new(&f, &env);
    let ty = checker.infer_expr(&perform("Log", "read", vec![int_lit(1, 11)], 10), None);
    assert_eq!(render_type(&ty), "_");
    assert_eq!(checker.diagnostics.len(), 1);
    assert_eq!(checker.diagnostics[0].id, "effect.unknown_operation");
    assert_eq!(checker.diagnostics[0].message, "effect `app::Log` has no operation `read`");
    assert_eq!(start_line(&checker.diagnostics[0].span), Some(12));
}

#[test]
fn handle_drops_the_handled_effect_and_records_the_handler_effects() {
    let f = function(Visibility::Private);
    let env = environment();
    let mut checker = FunctionChecker::new(&f, &env);
    let ty = checker.infer_expr(&handle(perform("Log", "write", vec![string_lit("hi", 21)], 20), "Console", 30), None);
    assert_eq!(render_type(&ty), "Int");
    assert!(checker.diagnostics.is_empty());
    assert_eq!(checker.inferred_effects.len(), 1);
    assert_eq!(checker.inferred_effects[0].effect, "io");
    assert_eq!(checker.inferred_effects[0].symbol, "app::Console");
    assert_eq!(checker.inferred_effects[0].span.start_line, 30);
    assert_eq!(checker.inferred_effects[0].kind, "handle_expression");
    assert_eq!(checker.inferred_effects[0].node_id.index, 30);
}

#[test]
fn handle_with_an_unknown_handler_is_reported() {
    let f = function(Visibility::Private);
    let env = environment();
    let mut checker = FunctionChecker::new(&f, &env);
    let ty = checker.infer_expr(&handle(perform("Log", "write", vec![string_lit("hi", 21)], 20), "Missing", 30), None);
    assert_eq!(render_type(&ty), "Int");
    assert_eq!(checker.diagnostics.len(), 1);
    assert_eq!(checker.diagnostics[0].id, "handler.unknown");
    assert_eq!(checker.diagnostics[0].message, "handler `Missing` is not known");
    assert_eq!(checker.inferred_effects.len(), 1);
    assert_eq!(checker.inferred_effects[0].effect, "app::Log");
}

#[test]
fn public_function_reports_the_undeclared_performed_effect() {
    let f = function(Visibility::Public);
    let env = environment();
    let mut checker = FunctionChecker::new(&f, &env);
    checker.infer_expr(&perform("Log", "write", vec![string_lit("a", 11)], 10), None);
    checker.infer_expr(&perform("Log", "write", vec![string_lit("b", 21)], 20), None);
    checker.check_effect_boundaries();
    assert_eq!(checker.diagnostics.len(), 1);
    let d = &checker.diagnostics[0];
    assert_eq!(d.id, "effect.missing_public");
    assert_eq!(d.message, "public function uses undeclared effect `app::Log`");
    assert_eq!(d.related.len(), 2);
    assert_eq!(number(&d.details, "omitted_path_count"), Some(0));
    assert_eq!(flag(&d.details, "provenance_truncated"), Some(false));
}

#[test]
fn missing_effect_details_count_the_uses_left_out() {
    let f = function(Visibility::Public);
    let env = environment();
    let mut checker = FunctionChecker::new(&f, &env);
    for i in 0..4u64 {
        checker.infer_expr(&perform("Log", "write", vec![string_lit("a", 10 * i + 11)], 10 * i + 10), None);
    }
    checker.check_effect_boundaries();
    assert_eq!(checker.diagnostics.len(), 1);
    let d = &checker.diagnostics[0];
    assert_eq!(d.related.len(), 3);
    assert_eq!(number(&d.details, "omitted_path_count"), Some(1));
    assert_eq!(flag(&d.details, "provenance_truncated"), Some(true));
}
