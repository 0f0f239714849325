use lib::ast::{Annotation, Function, FunctionKind, Param, Visibility};
use lib::diag::{Diagnostic, NodeId, SourceSpan};
use lib::effect_labels::{
    check_annotation_effect_rows, check_declared_effect_labels, check_effect_row_entries, declared_effect_boundary, effect_offset_in_effect_clause, type_effect_span,
};
use lib::env::{AdtRegistry, EffectSignature, TypeEnvironment};
use lib::types::Type;

fn span(line: u32, column: u32) -> SourceSpan {
    SourceSpan { file: "effects.veln".to_string(), start_line: line, start_column: column, end_line: line, end_column: column + 20 }
}

fn environment() -> TypeEnvironment {
    TypeEnvironment {
        functions: Vec::new(),
        adts: AdtRegistry { descriptors: Vec::new() },
        effects: vec![EffectSignature {
            name: "Log".to_string(),
            qualified_name: "app::Log".to_string(),
            module_name: Some("app".to_string()),
            operations: Vec::new(),
            span: span(1, 1),
        }],
        handlers: Vec::new(),
        known_effect_labels: vec!["io".to_string(), "clock".to_string()],
    }
}

fn function(effects: Option<Vec<&str>>, binder: Option<&str>) -> Function {
    Function {
        name: Some("work".to_string()),
        module_name: Some("app".to_string()),
        kind: FunctionKind::Function,
        visibility: Visibility::Public,
        params: Vec::new(),
        return_type: None,
        return_type_span: None,
        return_binding: None,
        effects: effects.map(|es| es.iter().map(|e| e.to_string()).collect()),
        effect_spans: None,
        effect_binder: binder.map(|b| b.to_string()),
        contracts: Vec::new(),
        body: Vec::new(),
        node_id: NodeId { index: 9 },
        span: span(1, 1),
    }
}

fn ids(diagnostics: &[Diagnostic]) -> Vec<String> {
    diagnostics.iter().map(|d| d.id.clone()).collect()
}

#[test]
fn boundaries_by_kind_and_visibility() {
    let mut f = function(None, None);
    assert_eq!(declared_effect_boundary(&f), "public_function");
    f.visibility = Visibility::Private;
    assert_eq!(declared_effect_boundary(&f), "private_function");
    f.kind = FunctionKind::Test;
    assert_eq!(declared_effect_boundary(&f), "test_declaration");
}

#[test]
fn effect_offsets_are_found_inside_effect_clauses() {
    assert_eq!(effect_offset_in_effect_clause("fn(Int) -> Int effects [io, net]", "net"), Some(28));
    assert_eq!(effect_offset_in_effect_clause("fn(Int) -> Int effects [io]", "net"), None);
    assert_eq!(effect_offset_in_effect_clause("fn() -> fn() -> Int effects [a] effects [b]", "b"), Some(41));
    let s = type_effect_span("fn() -> Int effects [io]", &span(3, 10), "io").unwrap();
    assert_eq!((s.start_line, s.start_column, s.end_column), (3, 31, 33));
}

#[test]
fn row_tails_must_be_single_final_and_bound() {
    let f = function(None, Some("e"));
    let effects = vec!["...e".to_string(), "io".to_string(), "...f".to_string()];
    let diagnostics = check_effect_row_entries(&f, &effects, None, "public_function");
    assert_eq!(
        ids(&diagnostics),
        vec!["effect.row_non_final".to_string(), "effect.row_multiple".to_string(), "effect.row_unbound".to_string()]
    );
    let fine = vec!["io".to_string(), "...e".to_string()];
    assert!(check_effect_row_entries(&f, &fine, None, "public_function").is_empty());
}

#[test]
fn empty_effect_clause_is_reported() {
    let f = function(Some(Vec::new()), None);
    let diagnostics = check_declared_effect_labels(&f, &environment());
    assert_eq!(ids(&diagnostics), vec!["effect.empty_declaration".to_string()]);
    assert_eq!(diagnostics[0].message, "empty effects list is not allowed on a function declaration");
    assert_eq!(diagnostics[0].related.len(), 2);
}

#[test]
fn declared_effects_must_name_something() {
    let f = function(Some(vec!["io", "Log", "app::Log", "mystery"]), None);
    let diagnostics = check_declared_effect_labels(&f, &environment());
    assert_eq!(ids(&diagnostics), vec!["effect.unknown".to_string()]);
    assert_eq!(diagnostics[0].message, "declared effect `mystery` is not known");
}

#[test]
fn function_type_effects_in_annotations_are_checked() {
    let mut f = function(None, None);
    f.params = vec![Param {
        name: "callback".to_string(),
        ty: Some(Annotation {
            text: "fn() -> Int effects [io, ghost]".to_string(),
            parsed: Ok(Type::Function {
                params: Vec::new(),
                variadic: None,
                return_type: Box::new(Type::named("Int")),
                effects: vec!["io".to_string(), "ghost".to_string()],
            }),
        }),
        ty_span: Some(span(2, 5)),
        is_variadic: false,
        node_id: NodeId { index: 3 },
        span: span(2, 1),
    }];
    let diagnostics = check_declared_effect_labels(&f, &environment());
    assert_eq!(ids(&diagnostics), vec!["effect.unknown".to_string()]);
    assert_eq!(diagnostics[0].message, "function type effect `ghost` is not known");
    let s = diagnostics[0].span.as_ref().unwrap();
    assert_eq!((s.start_column, s.end_column), (5 + 25, 5 + 30));
}

fn detail_text(d: &Diagnostic, key: &str) -> Option<String> {
    match &d.details {
        lib::json::JsonValue::Object(entries) => entries.iter().find(|(k, _)| k == key).and_then(|(_, v)| match v {
            lib::json::JsonValue::String(s) => Some(s.clone()),
            _ => None,
        }),
        _ => None,
    }
}

#[test]
fn annotation_row_diagnostics_name_the_row_and_boundary() {
    let f = function(None, None);
    let annotation = "fn() -> () effects [...e, io]";
    let ds = check_annotation_effect_rows(annotation, &span(3, 5), &f, "function_declaration");
    assert_eq!(ids(&ds), vec!["effect.row_non_final".to_string(), "effect.row_unbound".to_string()]);
    for d in &ds {
        assert_eq!(detail_text(d, "row"), Some("e".to_string()));
        assert_eq!(detail_text(d, "boundary"), Some("function_declaration".to_string()));
    }
}
