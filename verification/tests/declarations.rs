use lib::ast::{
    Annotation, EffectDecl, EffectOperationDecl, Function, FunctionKind, ModuleHeader, Param, PublicAlias, PublicAliasKind,
    SurfaceModule, TypeDecl, UseDecl, UseOrigin, VariantDecl, Visibility,
};
use lib::boundary::{check_test_declaration_boundary, test_boundary_return_diagnostic, test_parameter_diagnostic};
use lib::declarations::{
    alias_kind_mismatch_diagnostic, check_duplicate_constructor_names, check_duplicate_effect_names,
    check_duplicate_function_names, check_duplicate_schema_names, check_duplicate_type_names, check_duplicate_use_aliases,
    check_reserved_prelude_aliases, is_toolchain_standard_prelude, private_alias_diagnostic, unresolved_alias_diagnostic,
};
use lib::diag::{Diagnostic, NodeId, SourceSpan};
use lib::json::JsonValue;
use lib::schema::SchemaDecl;
use lib::types::Type;

fn span(line: u32) -> SourceSpan {
    SourceSpan { file: "main.veln".to_string(), start_line: line, start_column: 1, end_line: line, end_column: 10 }
}

fn function(name: &str, index: u64, line: u32) -> Function {
    Function {
        name: Some(name.to_string()),
        module_name: Some("app".to_string()),
        kind: FunctionKind::Function,
        visibility: Visibility::Public,
        params: Vec::new(),
        return_type: None,
        return_type_span: None,
        return_binding: None,
        effects: None,
        effect_spans: None,
        effect_binder: None,
        contracts: Vec::new(),
        body: Vec::new(),
        node_id: NodeId { index },
        span: span(line),
    }
}

fn alias(name: &str, kind: PublicAliasKind, target: &[&str], index: u64) -> PublicAlias {
    PublicAlias {
        name: Some(name.to_string()),
        module_name: Some("app".to_string()),
        kind,
        target: target.iter().map(|s| s.to_string()).collect(),
        node_id: NodeId { index },
        span: span(30),
    }
}

fn empty_module() -> SurfaceModule {
    SurfaceModule {
        module: None,
        uses: Vec::new(),
        functions: Vec::new(),
        types: Vec::new(),
        effects: Vec::new(),
        schemas: Vec::new(),
        aliases: Vec::new(),
        handlers: Vec::new(),
    }
}

fn ids(ds: &[Diagnostic]) -> Vec<String> {
    ds.iter().map(|d| d.id.clone()).collect()
}

fn detail(d: &Diagnostic, key: &str) -> Option<String> {
    match &d.details {
        JsonValue::Object(entries) => entries.iter().find(|(k, _)| k == key).and_then(|(_, v)| match v {
            JsonValue::String(s) => Some(s.clone()),
            _ => None,
        }),
        _ => None,
    }
}

#[test]
fn repeated_function_names_are_reported_against_the_first() {
    let mut module = empty_module();
    module.functions = vec![function("run", 1, 1), function("stop", 2, 2), function("run", 3, 3)];
    module.aliases = vec![alias("stop", PublicAliasKind::Function, &["other", "stop"], 4), alias("run", PublicAliasKind::Type, &["T"], 5)];
    let ds = check_duplicate_function_names(&module);
    assert_eq!(ids(&ds), vec!["name.duplicate".to_string(), "name.duplicate".to_string()]);
    assert_eq!(ds[0].message, "duplicate function declaration name `run`");
    assert_eq!(detail(&ds[0], "node_id"), Some("fn#3".to_string()));
    assert_eq!(detail(&ds[0], "first_node_id"), Some("fn#1".to_string()));
    assert_eq!(ds[1].message, "duplicate function alias name `stop`");
    assert_eq!(detail(&ds[1], "node_id"), Some("alias#4".to_string()));
    assert_eq!(detail(&ds[1], "first_node_id"), Some("fn#2".to_string()));
    assert_eq!(detail(&ds[1], "namespace"), Some("function".to_string()));
}

#[test]
fn same_names_in_other_modules_do_not_clash() {
    let mut module = empty_module();
    let mut other = function("run", 2, 2);
    other.module_name = Some("lib".to_string());
    module.functions = vec![function("run", 1, 1), other];
    assert!(check_duplicate_function_names(&module).is_empty());
}

#[test]
fn type_and_schema_names() {
    let mut module = empty_module();
    let ty = |name: &str, index: u64| TypeDecl {
        name: Some(name.to_string()),
        module_name: None,
        variants: Vec::new(),
        node_id: NodeId { index },
        span: span(index as u32),
    };
    module.types = vec![ty("User", 1), ty("User", 2)];
    let ds = check_duplicate_type_names(&module);
    assert_eq!(ds.len(), 1);
    assert_eq!(ds[0].message, "duplicate type declaration name `User`");
    assert_eq!(detail(&ds[0], "first_node_id"), Some("type#1".to_string()));
    let schema = |index: u64| SchemaDecl {
        name: Some("Packet".to_string()),
        module_name: None,
        format: None,
        fields: Vec::new(),
        node_id: NodeId { index },
        span: span(index as u32),
    };
    module.schemas = vec![schema(7), schema(8), schema(9)];
    let ds = check_duplicate_schema_names(&module);
    assert_eq!(ds.len(), 2);
    assert_eq!(detail(&ds[1], "node_id"), Some("schema#9".to_string()));
    assert_eq!(detail(&ds[1], "first_node_id"), Some("schema#7".to_string()));
}

#[test]
fn effects_and_their_operations() {
    let op = |name: &str, index: u64| EffectOperationDecl { name: Some(name.to_string()), node_id: NodeId { index }, name_span: span(index as u32) };
    let effect = |name: &str, index: u64, ops: Vec<EffectOperationDecl>| EffectDecl {
        name: Some(name.to_string()),
        module_name: None,
        operations: ops,
        node_id: NodeId { index },
        span: span(index as u32),
    };
    let mut module = empty_module();
    module.effects = vec![
        effect("Log", 1, vec![op("write", 2), op("write", 3)]),
        effect("Log", 4, vec![op("write", 5)]),
    ];
    let ds = check_duplicate_effect_names(&module);
    assert_eq!(ds.len(), 2);
    assert_eq!(ds[0].message, "duplicate effect operation declaration name `write`");
    assert_eq!(detail(&ds[0], "namespace"), Some("operation".to_string()));
    assert_eq!(ds[1].message, "duplicate effect declaration name `Log`");
    assert_eq!(detail(&ds[1], "first_node_id"), Some("effect#1".to_string()));
}

#[test]
fn import_aliases_and_constructors() {
    let use_decl = |alias: &str, origin: UseOrigin, index: u64| UseDecl {
        name: "std::io".to_string(),
        alias: alias.to_string(),
        module_name: Some("app".to_string()),
        origin,
        node_id: NodeId { index },
        span: span(index as u32),
    };
    let mut module = empty_module();
    module.uses = vec![use_decl("io", UseOrigin::Source, 1), use_decl("io", UseOrigin::Implicit, 2), use_decl("io", UseOrigin::Source, 3)];
    let ds = check_duplicate_use_aliases(&module);
    assert_eq!(ds.len(), 1);
    assert_eq!(ds[0].message, "duplicate import alias name `io`");
    assert_eq!(detail(&ds[0], "node_id"), Some("use#3".to_string()));
    let variant = |name: &str, index: u64| VariantDecl { name: Some(name.to_string()), node_id: NodeId { index }, span: span(index as u32) };
    let ty = |name: &str, variants: Vec<VariantDecl>| TypeDecl {
        name: Some(name.to_string()),
        module_name: None,
        variants,
        node_id: NodeId { index: 0 },
        span: span(1),
    };
    module.types = vec![ty("A", vec![variant("X", 1), variant("X", 2)]), ty("B", vec![variant("X", 3)])];
    let ds = check_duplicate_constructor_names(&module);
    assert_eq!(ds.len(), 1);
    assert_eq!(ds[0].message, "duplicate constructor declaration name `X`");
    assert_eq!(detail(&ds[0], "node_id"), Some("variant#2".to_string()));
}

#[test]
fn prelude_name_is_reserved() {
    let mut module = empty_module();
    module.module = Some(ModuleHeader { name: "prelude".to_string(), node_id: NodeId { index: 1 }, span: span(1) });
    module.uses = vec![
        UseDecl { name: "x".to_string(), alias: "prelude".to_string(), module_name: Some("std::core".to_string()), origin: UseOrigin::Source, node_id: NodeId { index: 2 }, span: span(2) },
        UseDecl { name: "x".to_string(), alias: "prelude".to_string(), module_name: Some("app".to_string()), origin: UseOrigin::Source, node_id: NodeId { index: 3 }, span: span(3) },
    ];
    let ds = check_reserved_prelude_aliases(&module);
    assert_eq!(ids(&ds), vec!["name.reserved".to_string(), "name.reserved".to_string()]);
    assert_eq!(ds[0].message, "module identity `prelude` conflicts with the standard prelude");
    assert_eq!(ds[1].message, "import alias `prelude` conflicts with the standard prelude");
    assert_eq!(detail(&ds[1], "node_id"), Some("use#3".to_string()));
    module.module.as_mut().unwrap().span.file = "prelude.veln".to_string();
    assert_eq!(check_reserved_prelude_aliases(&module).len(), 1);
    assert!(is_toolchain_standard_prelude(&SourceSpan { file: "prelude.veln".to_string(), start_line: 1, start_column: 1, end_line: 1, end_column: 1 }));
}

#[test]
fn alias_target_diagnostics() {
    let a = alias("Packet", PublicAliasKind::Schema, &["wire", "Packet"], 6);
    let d = unresolved_alias_diagnostic(&a, "schema");
    assert_eq!(d.id, "name.unresolved");
    assert_eq!(d.message, "unresolved schema alias target `wire::Packet`");
    assert_eq!(detail(&d, "target"), Some("wire::Packet".to_string()));
    let d = private_alias_diagnostic(&a);
    assert_eq!(d.message, "schema alias target `wire::Packet` is private");
    assert_eq!(detail(&d, "reason"), Some("private".to_string()));
    let d = alias_kind_mismatch_diagnostic(&a, "schema", "type");
    assert_eq!(d.message, "public alias target `wire::Packet` is a type, not a schema");
    assert_eq!(detail(&d, "node_id"), Some("alias#6".to_string()));
}

#[test]
fn test_declarations_take_no_parameters_and_return_unit_or_result() {
    let mut f = function("checks_sum", 4, 4);
    f.kind = FunctionKind::Test;
    let ds = check_test_declaration_boundary(&f);
    assert_eq!(ids(&ds), vec!["test.return_type".to_string()]);
    assert_eq!(ds[0].message, "test declaration has no return type annotation");
    assert_eq!(detail(&ds[0], "actual_type"), Some("missing".to_string()));
    assert_eq!(detail(&ds[0], "node_id"), Some("test#4".to_string()));
    f.return_type = Some(Annotation { text: "Int".to_string(), parsed: Ok(Type::named("Int")) });
    let d = test_boundary_return_diagnostic(&f, "test#4").unwrap();
    assert_eq!(d.message, "test declaration returns `Int`");
    f.return_type = Some(Annotation { text: "()".to_string(), parsed: Ok(Type::named("Unit")) });
    assert!(test_boundary_return_diagnostic(&f, "test#4").is_none());
    f.return_type = Some(Annotation { text: "?".to_string(), parsed: Err("bad".to_string()) });
    assert!(test_boundary_return_diagnostic(&f, "test#4").is_none());
    f.params = vec![Param { name: "x".to_string(), ty: None, ty_span: None, is_variadic: false, node_id: NodeId { index: 5 }, span: span(5) }];
    let d = test_parameter_diagnostic(&f, "test#4").unwrap();
    assert_eq!(d.message, "test declaration has parameters");
    assert_eq!(d.span.as_ref().map(|s| s.start_line), Some(5));
    assert_eq!(ids(&check_test_declaration_boundary(&f)), vec!["test.parameters".to_string()]);
}
