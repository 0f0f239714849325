use lib::ast::{
    Annotation, BinaryOp, DictEntry, RecordField, BodyLine, BodyLineKind, Expr, ExprKind, Function, FunctionKind, IfBranch, MatchArm, Param,
    Pattern, PatternKind, PrefixOp, Visibility,
};
use lib::checker::FunctionChecker;
use lib::diag::{Diagnostic, NodeId, SourceSpan};
use lib::env::{AdtDescriptor, AdtRegistry, AdtVariant, FunctionSignature, TypeEnvironment};
use lib::function_body::check_function_body;
use lib::json::JsonValue;
use lib::render::render_type;
use lib::semantic::{Binding, ExpectedType, ExpectedTypeSource};
use lib::types::Type;

fn span(line: u32) -> SourceSpan {
    SourceSpan { file: "main.veln".to_string(), start_line: line, start_column: 1, end_line: line, end_column: 10 }
}

fn expr(kind: ExprKind, id: u64) -> Expr {
    Expr { kind, node_id: NodeId { index: id }, span: span(id as u32) }
}

fn int_lit(value: i64, id: u64) -> Expr {
    expr(ExprKind::IntLiteral { text: value.to_string(), value: Some(value) }, id)
}

fn bool_lit(value: bool, id: u64) -> Expr {
    expr(ExprKind::BoolLiteral(value), id)
}

fn string_lit(text: &str, id: u64) -> Expr {
    expr(ExprKind::StringLiteral(text.to_string()), id)
}

fn name(text: &str, id: u64) -> Expr {
    expr(ExprKind::NamePath { segments: vec![text.to_string()] }, id)
}

fn empty_environment() -> TypeEnvironment {
    TypeEnvironment { functions: Vec::new(), adts: AdtRegistry { descriptors: Vec::new() }, effects: Vec::new(), handlers: Vec::new(), known_effect_labels: Vec::new() }
}

fn option_environment() -> TypeEnvironment {
    TypeEnvironment {
        functions: Vec::new(),
        adts: AdtRegistry {
            descriptors: vec![AdtDescriptor {
                name: "Choice".to_string(),
                module_name: None,
                type_parameters: Vec::new(),
                variants: vec![
                    AdtVariant { name: "Yes".to_string(), coverage_case: "Yes".to_string(), fields: Vec::new() },
                    AdtVariant { name: "No".to_string(), coverage_case: "No".to_string(), fields: Vec::new() },
                ],
            }],
        },
        effects: Vec::new(),
        handlers: Vec::new(),
        known_effect_labels: Vec::new(),
    }
}

fn function(body: Vec<BodyLine>, return_type: Option<&str>) -> Function {
    Function {
        name: Some("main".to_string()),
        module_name: None,
        kind: FunctionKind::Function,
        visibility: Visibility::Private,
        params: Vec::new(),
        return_type: return_type.map(|text| Annotation { text: text.to_string(), parsed: Ok(Type::named(text)) }),
        return_type_span: None,
        return_binding: None,
        effects: None,
        effect_spans: None,
        effect_binder: None,
        contracts: Vec::new(),
        body,
        node_id: NodeId { index: 100 },
        span: span(100),
    }
}

fn expected(ty: Type) -> ExpectedType {
    ExpectedType {
        ty,
        source: ExpectedTypeSource::DeclaredReturn,
        origin_node_id: NodeId { index: 7 },
        origin_span: Some(span(7)),
        origin_message: "Return type declared here.",
    }
}

fn ids(diagnostics: &[Diagnostic]) -> Vec<String> {
    diagnostics.iter().map(|d| d.id.clone()).collect()
}

#[test]
fn literals_have_their_types() {
    let f = function(Vec::new(), None);
    let env = empty_environment();
    let mut checker = FunctionChecker::new(&f, &env);
    assert_eq!(render_type(&checker.infer_expr(&int_lit(3, 1), None)), "Int");
    assert_eq!(render_type(&checker.infer_expr(&bool_lit(true, 2), None)), "Bool");
    assert_eq!(render_type(&checker.infer_expr(&string_lit("a", 3), None)), "String");
    assert_eq!(render_type(&checker.infer_expr(&expr(ExprKind::FloatLiteral("1.5".to_string()), 4), None)), "Float");
    assert_eq!(render_type(&checker.infer_expr(&expr(ExprKind::Unit, 5), None)), "()");
    assert_eq!(render_type(&checker.infer_expr(&expr(ExprKind::Missing, 6), None)), "_");
    assert!(checker.diagnostics.is_empty());
}

#[test]
fn list_takes_its_element_type_from_the_first_item() {
    let f = function(Vec::new(), None);
    let env = empty_environment();
    let mut checker = FunctionChecker::new(&f, &env);
    let list = expr(ExprKind::List(vec![int_lit(1, 2), string_lit("x", 3)]), 1);
    let ty = checker.infer_expr(&list, None);
    assert_eq!(render_type(&ty), "Vec<Int>");
    assert_eq!(ids(&checker.diagnostics), vec!["type.mismatch".to_string()]);
    assert_eq!(checker.diagnostics[0].message, "expected `Int`, but found `String`");
}

#[test]
fn empty_list_with_incomplete_expectation_is_ambiguous() {
    let f = function(Vec::new(), None);
    let env = empty_environment();
    let mut checker = FunctionChecker::new(&f, &env);
    let list = expr(ExprKind::List(Vec::new()), 1);
    let ty = checker.infer_expr(&list, Some(&expected(Type::vec_of(Type::Unknown))));
    assert_eq!(render_type(&ty), "Vec<_>");
    assert_eq!(ids(&checker.diagnostics), vec!["type.inference_ambiguous".to_string()]);
}

#[test]
fn if_condition_must_be_bool_and_branches_agree() {
    let f = function(Vec::new(), None);
    let env = empty_environment();
    let mut checker = FunctionChecker::new(&f, &env);
    let if_expr = expr(
        ExprKind::If {
            condition: Box::new(int_lit(1, 2)),
            then_branch: Box::new(int_lit(2, 3)),
            else_if_branches: vec![IfBranch { condition: bool_lit(false, 4), expr: int_lit(3, 5) }],
            else_branch: Box::new(string_lit("no", 6)),
        },
        1,
    );
    let ty = checker.infer_expr(&if_expr, None);
    assert_eq!(render_type(&ty), "Int");
    assert_eq!(ids(&checker.diagnostics), vec!["type.mismatch".to_string(), "type.mismatch".to_string()]);
    assert_eq!(checker.diagnostics[0].message, "expected `Bool`, but found `Int`");
    assert_eq!(checker.diagnostics[1].message, "expected `Int`, but found `String`");
}

#[test]
fn if_follows_a_known_expectation() {
    let f = function(Vec::new(), None);
    let env = empty_environment();
    let mut checker = FunctionChecker::new(&f, &env);
    let if_expr = expr(
        ExprKind::If {
            condition: Box::new(bool_lit(true, 2)),
            then_branch: Box::new(int_lit(2, 3)),
            else_if_branches: Vec::new(),
            else_branch: Box::new(int_lit(4, 4)),
        },
        1,
    );
    let ty = checker.infer_expr(&if_expr, Some(&expected(Type::named("Int"))));
    assert_eq!(render_type(&ty), "Int");
    assert!(checker.diagnostics.is_empty());
}

#[test]
fn operators_have_their_result_types() {
    let f = function(Vec::new(), None);
    let env = empty_environment();
    let mut checker = FunctionChecker::new(&f, &env);
    let sum = expr(ExprKind::Binary { op: BinaryOp::Add, left: Box::new(int_lit(1, 2)), right: Box::new(int_lit(2, 3)) }, 1);
    assert_eq!(render_type(&checker.infer_expr(&sum, None)), "Int");
    let less = expr(ExprKind::Binary { op: BinaryOp::Less, left: Box::new(int_lit(1, 5)), right: Box::new(int_lit(2, 6)) }, 4);
    assert_eq!(render_type(&checker.infer_expr(&less, None)), "Bool");
    let float_sum = expr(
        ExprKind::Binary {
            op: BinaryOp::Multiply,
            left: Box::new(expr(ExprKind::FloatLiteral("2.0".to_string()), 8)),
            right: Box::new(int_lit(2, 9)),
        },
        7,
    );
    assert_eq!(render_type(&checker.infer_expr(&float_sum, None)), "Float");
    let not = expr(ExprKind::Prefix { op: PrefixOp::Not, expr: Box::new(bool_lit(true, 11)) }, 10);
    assert_eq!(render_type(&checker.infer_expr(&not, None)), "Bool");
    assert!(checker.diagnostics.is_empty());
}

#[test]
fn bool_operand_of_and_must_be_bool() {
    let f = function(Vec::new(), None);
    let env = empty_environment();
    let mut checker = FunctionChecker::new(&f, &env);
    let and = expr(ExprKind::Binary { op: BinaryOp::And, left: Box::new(int_lit(1, 2)), right: Box::new(bool_lit(true, 3)) }, 1);
    assert_eq!(render_type(&checker.infer_expr(&and, None)), "Bool");
    assert_eq!(ids(&checker.diagnostics), vec!["type.mismatch".to_string()]);
}

#[test]
fn shift_by_literal_out_of_range_is_reported() {
    let f = function(Vec::new(), None);
    let env = empty_environment();
    let mut checker = FunctionChecker::new(&f, &env);
    let shift = expr(ExprKind::Binary { op: BinaryOp::ShiftLeft, left: Box::new(int_lit(1, 2)), right: Box::new(int_lit(64, 3)) }, 1);
    assert_eq!(render_type(&checker.infer_expr(&shift, None)), "Int");
    assert_eq!(ids(&checker.diagnostics), vec!["type.invalid_shift_count".to_string()]);
    assert_eq!(checker.diagnostics[0].message, "shift count 64 is outside the permitted range 0 through 63");
    let negative = expr(
        ExprKind::Binary {
            op: BinaryOp::ShiftRight,
            left: Box::new(int_lit(1, 5)),
            right: Box::new(expr(ExprKind::Prefix { op: PrefixOp::Negate, expr: Box::new(int_lit(2, 7)) }, 6)),
        },
        4,
    );
    checker.infer_expr(&negative, None);
    assert_eq!(checker.diagnostics[1].message, "shift count -2 is outside the permitted range 0 through 63");
}

#[test]
fn pipeline_target_must_be_a_call() {
    let f = function(Vec::new(), None);
    let env = empty_environment();
    let mut checker = FunctionChecker::new(&f, &env);
    let pipe = expr(ExprKind::Binary { op: BinaryOp::PipeGreater, left: Box::new(int_lit(1, 2)), right: Box::new(int_lit(2, 3)) }, 1);
    assert_eq!(render_type(&checker.infer_expr(&pipe, None)), "_");
    assert_eq!(ids(&checker.diagnostics), vec!["type.pipeline_target".to_string()]);
}

#[test]
fn unresolved_name_is_reported() {
    let f = function(Vec::new(), None);
    let env = empty_environment();
    let mut checker = FunctionChecker::new(&f, &env);
    let ty = checker.infer_expr(&name("missing", 1), None);
    assert_eq!(render_type(&ty), "_");
    assert_eq!(checker.diagnostics[0].id, "name.unresolved");
    assert_eq!(checker.diagnostics[0].message, "unresolved value `missing`");
}

#[test]
fn exact_width_primitive_as_value_is_a_schema_diagnostic() {
    let f = function(Vec::new(), None);
    let env = empty_environment();
    let mut checker = FunctionChecker::new(&f, &env);
    checker.infer_expr(&name("UInt16be", 1), None);
    assert_eq!(checker.diagnostics[0].id, "schema.exact_width_primitive");
}

#[test]
fn local_binding_takes_a_known_expected_type() {
    let f = function(Vec::new(), None);
    let env = empty_environment();
    let mut checker = FunctionChecker::new(&f, &env);
    checker.bindings.push(Binding { name: "x".to_string(), ty: Type::Unknown });
    let ty = checker.infer_expr(&name("x", 1), Some(&expected(Type::named("Int"))));
    assert_eq!(render_type(&ty), "Int");
    assert_eq!(render_type(&checker.bindings[0].ty), "Int");
}

#[test]
fn bare_constructor_without_context_needs_one_when_generic() {
    let f = function(Vec::new(), None);
    let env = TypeEnvironment {
        functions: Vec::new(),
        adts: AdtRegistry {
            descriptors: vec![AdtDescriptor {
                name: "Maybe".to_string(),
                module_name: None,
                type_parameters: vec!["T".to_string()],
                variants: vec![AdtVariant { name: "Nothing".to_string(), coverage_case: "Nothing".to_string(), fields: Vec::new() }],
            }],
        },
        effects: Vec::new(),
        handlers: Vec::new(),
        known_effect_labels: Vec::new(),
    };
    let mut checker = FunctionChecker::new(&f, &env);
    let ty = checker.infer_expr(&name("Nothing", 1), None);
    assert_eq!(render_type(&ty), "Maybe<_>");
    assert_eq!(checker.diagnostics[0].id, "type.inference_ambiguous");
}

#[test]
fn function_name_has_its_signature_type() {
    let f = function(Vec::new(), None);
    let env = TypeEnvironment {
        functions: vec![FunctionSignature {
            name: "helper".to_string(),
            module_name: None,
            params: vec![Type::named("Int")],
            variadic: None,
            return_type: Type::named("Bool"),
            effects: vec!["io".to_string()],
        }],
        adts: AdtRegistry { descriptors: Vec::new() },
        effects: Vec::new(),
        handlers: Vec::new(),
        known_effect_labels: Vec::new(),
    };
    let mut checker = FunctionChecker::new(&f, &env);
    let ty = checker.infer_expr(&name("helper", 1), None);
    assert_eq!(render_type(&ty), "fn(Int) -> Bool effects [io]");
    assert!(checker.diagnostics.is_empty());
}

#[test]
fn qualified_path_names_a_function_of_another_module() {
    let f = function(Vec::new(), None);
    let env = TypeEnvironment {
        functions: vec![FunctionSignature {
            name: "double".to_string(),
            module_name: Some("math::ops".to_string()),
            params: vec![Type::named("Int")],
            variadic: None,
            return_type: Type::named("Int"),
            effects: Vec::new(),
        }],
        adts: AdtRegistry { descriptors: Vec::new() },
        effects: Vec::new(),
        handlers: Vec::new(),
        known_effect_labels: Vec::new(),
    };
    let mut checker = FunctionChecker::new(&f, &env);
    let path = expr(ExprKind::NamePath { segments: vec!["math".to_string(), "ops".to_string(), "double".to_string()] }, 1);
    let ty = checker.infer_expr(&path, None);
    assert_eq!(render_type(&ty), "fn(Int) -> Int");
    assert!(checker.diagnostics.is_empty());
    let missing = expr(ExprKind::NamePath { segments: vec!["math".to_string(), "triple".to_string()] }, 2);
    let ty = checker.infer_expr(&missing, None);
    assert_eq!(render_type(&ty), "_");
    assert_eq!(ids(&checker.diagnostics), vec!["name.unresolved".to_string()]);
}

#[test]
fn match_reports_missing_case() {
    let f = function(Vec::new(), None);
    let env = option_environment();
    let mut checker = FunctionChecker::new(&f, &env);
    let scrutinee = name("Yes", 2);
    let arm = MatchArm {
        pattern: Pattern { kind: PatternKind::Constructor { name: vec!["Yes".to_string()], args: Vec::new() }, node_id: NodeId { index: 3 }, span: span(3) },
        expr: int_lit(1, 4),
    };
    let m = expr(ExprKind::Match { scrutinee: Box::new(scrutinee), arms: vec![arm] }, 1);
    let ty = checker.infer_expr(&m, None);
    assert_eq!(render_type(&ty), "Int");
    assert_eq!(ids(&checker.diagnostics), vec!["type.match_non_exhaustive".to_string()]);
    assert_eq!(checker.diagnostics[0].message, "match is missing case No");
    assert_eq!(checker.diagnostics[0].related.len(), 2);
}

#[test]
fn match_with_wildcard_is_exhaustive_and_scopes_its_bindings() {
    let f = function(Vec::new(), None);
    let env = option_environment();
    let mut checker = FunctionChecker::new(&f, &env);
    let arm = MatchArm {
        pattern: Pattern { kind: PatternKind::Binding("other".to_string()), node_id: NodeId { index: 3 }, span: span(3) },
        expr: name("other", 4),
    };
    let m = expr(ExprKind::Match { scrutinee: Box::new(name("Yes", 2)), arms: vec![arm] }, 1);
    let ty = checker.infer_expr(&m, None);
    assert_eq!(render_type(&ty), "Choice");
    assert!(checker.diagnostics.is_empty());
    assert!(checker.bindings.is_empty());
    assert!(checker.local_names.is_empty());
}

#[test]
fn body_value_must_fit_the_return_type() {
    let line = BodyLine { kind: BodyLineKind::Expr { expr: string_lit("text", 2) }, node_id: NodeId { index: 1 }, span: span(1) };
    let f = function(vec![line], Some("Int"));
    let env = empty_environment();
    let diagnostics = check_function_body(&f, &env);
    assert_eq!(ids(&diagnostics), vec!["type.mismatch".to_string()]);
    assert_eq!(diagnostics[0].message, "expected `Int`, but found `String`");
}

#[test]
fn missing_final_expression_returns_unit() {
    let pattern = Pattern { kind: PatternKind::Binding("x".to_string()), node_id: NodeId { index: 3 }, span: span(3) };
    let line = BodyLine { kind: BodyLineKind::Let { pattern, annotation: None, expr: int_lit(1, 2) }, node_id: NodeId { index: 1 }, span: span(1) };
    let f = function(vec![line], Some("Int"));
    let env = empty_environment();
    let diagnostics = check_function_body(&f, &env);
    assert_eq!(ids(&diagnostics), vec!["type.mismatch".to_string()]);
    assert_eq!(diagnostics[0].message, "expected `Int`, but found `()`");
    match &diagnostics[0].details {
        JsonValue::Object(entries) => {
            assert!(entries.iter().any(|(k, v)| k == "actual_source" && matches!(v, JsonValue::String(s) if s == "implicit_unit")));
        },
        _ => panic!("details should be an object"),
    }
}

#[test]
fn let_annotation_is_checked_against_initializer() {
    let pattern = Pattern { kind: PatternKind::Binding("x".to_string()), node_id: NodeId { index: 3 }, span: span(3) };
    let annotation = Annotation { text: "Int".to_string(), parsed: Ok(Type::named("Int")) };
    let line = BodyLine {
        kind: BodyLineKind::Let { pattern, annotation: Some(annotation), expr: bool_lit(true, 2) },
        node_id: NodeId { index: 1 },
        span: span(1),
    };
    let value = BodyLine { kind: BodyLineKind::Expr { expr: name("x", 5) }, node_id: NodeId { index: 4 }, span: span(4) };
    let f = function(vec![line, value], Some("Int"));
    let env = empty_environment();
    let diagnostics = check_function_body(&f, &env);
    assert_eq!(ids(&diagnostics), vec!["type.mismatch".to_string()]);
    assert_eq!(diagnostics[0].message, "expected `Int`, but found `Bool`");
}

#[test]
fn invalid_annotation_is_reported() {
    let pattern = Pattern { kind: PatternKind::Binding("x".to_string()), node_id: NodeId { index: 3 }, span: span(3) };
    let annotation = Annotation { text: "Vec<".to_string(), parsed: Err("unclosed type arguments".to_string()) };
    let line = BodyLine {
        kind: BodyLineKind::Let { pattern, annotation: Some(annotation), expr: int_lit(1, 2) },
        node_id: NodeId { index: 1 },
        span: span(1),
    };
    let value = BodyLine { kind: BodyLineKind::Expr { expr: name("x", 5) }, node_id: NodeId { index: 4 }, span: span(4) };
    let f = function(vec![line, value], Some("Int"));
    let env = empty_environment();
    let diagnostics = check_function_body(&f, &env);
    assert_eq!(ids(&diagnostics), vec!["type.invalid_annotation".to_string()]);
    assert_eq!(diagnostics[0].message, "invalid type annotation `Vec<`: unclosed type arguments");
}

#[test]
fn parameters_are_bound_with_their_declared_types() {
    let mut f = function(Vec::new(), Some("Int"));
    f.params = vec![Param {
        name: "count".to_string(),
        ty: Some(Annotation { text: "Int".to_string(), parsed: Ok(Type::named("Int")) }),
        is_variadic: false,
        ty_span: None,
        node_id: NodeId { index: 2 },
        span: span(2),
    }];
    f.body = vec![BodyLine { kind: BodyLineKind::Expr { expr: name("count", 4) }, node_id: NodeId { index: 3 }, span: span(3) }];
    let env = empty_environment();
    let diagnostics = check_function_body(&f, &env);
    assert!(diagnostics.is_empty());
}

#[test]
fn variadic_parameter_not_last_is_reported() {
    let mut f = function(vec![BodyLine { kind: BodyLineKind::Expr { expr: int_lit(1, 9) }, node_id: NodeId { index: 8 }, span: span(8) }], Some("Int"));
    f.params = vec![
        Param {
            name: "rest".to_string(),
            ty: Some(Annotation { text: "Int".to_string(), parsed: Ok(Type::named("Int")) }),
            is_variadic: true,
            ty_span: None,
            node_id: NodeId { index: 2 },
            span: span(2),
        },
        Param {
            name: "last".to_string(),
            ty: Some(Annotation { text: "Int".to_string(), parsed: Ok(Type::named("Int")) }),
            is_variadic: false,
            ty_span: None,
            node_id: NodeId { index: 3 },
            span: span(3),
        },
    ];
    let env = empty_environment();
    let diagnostics = check_function_body(&f, &env);
    assert_eq!(ids(&diagnostics), vec!["type.variadic_parameter_position".to_string()]);
    assert_eq!(diagnostics[0].message, "variadic parameter `rest` must be the final parameter");
}

fn field_access(base: Expr, field: &str, id: u64) -> Expr {
    expr(ExprKind::FieldAccess { base: Box::new(base), field: field.to_string(), field_span: span(id as u32 + 1) }, id)
}

#[test]
fn field_access_reads_a_record_field() {
    let f = function(Vec::new(), None);
    let env = empty_environment();
    let mut checker = FunctionChecker::new(&f, &env);
    checker.bindings.push(Binding { name: "p".to_string(), ty: Type::Record(vec![("x".to_string(), Type::int_type())]) });
    let ty = checker.infer_expr(&field_access(name("p", 1), "x", 2), None);
    assert_eq!(render_type(&ty), "Int");
    assert!(checker.diagnostics.is_empty());
}

#[test]
fn field_access_to_a_missing_field_is_reported() {
    let f = function(Vec::new(), None);
    let env = empty_environment();
    let mut checker = FunctionChecker::new(&f, &env);
    checker.bindings.push(Binding { name: "p".to_string(), ty: Type::Record(vec![("x".to_string(), Type::int_type())]) });
    let ty = checker.infer_expr(&field_access(name("p", 1), "y", 2), None);
    assert_eq!(render_type(&ty), "_");
    assert_eq!(ids(&checker.diagnostics), vec!["type.field_missing".to_string()]);
    assert_eq!(checker.diagnostics[0].message, "type `{x: Int}` has no field `y`");
    assert_eq!(checker.diagnostics[0].related.len(), 1);
    checker.bindings.push(Binding { name: "u".to_string(), ty: Type::Unknown });
    let ty = checker.infer_expr(&field_access(name("u", 4), "y", 5), None);
    assert_eq!(render_type(&ty), "_");
    assert_eq!(checker.diagnostics.len(), 1);
}

#[test]
fn dict_takes_key_and_value_types_from_the_first_entry() {
    let f = function(Vec::new(), None);
    let env = empty_environment();
    let mut checker = FunctionChecker::new(&f, &env);
    let dict = expr(
        ExprKind::Dict(vec![
            DictEntry { key: string_lit("a", 2), value: int_lit(1, 3) },
            DictEntry { key: string_lit("b", 4), value: string_lit("x", 5) },
        ]),
        1,
    );
    let ty = checker.infer_expr(&dict, None);
    assert_eq!(render_type(&ty), "Dict<String, Int>");
    assert_eq!(ids(&checker.diagnostics), vec!["type.mismatch".to_string()]);
    assert_eq!(checker.diagnostics[0].message, "expected `Int`, but found `String`");
}

#[test]
fn empty_dict_with_incomplete_expectation_is_ambiguous() {
    let f = function(Vec::new(), None);
    let env = empty_environment();
    let mut checker = FunctionChecker::new(&f, &env);
    let expected_type = Type::Named { name: "Dict".to_string(), args: vec![Type::Unknown, Type::int_type()] };
    let ty = checker.infer_expr(&expr(ExprKind::Dict(Vec::new()), 1), Some(&expected(expected_type)));
    assert_eq!(render_type(&ty), "Dict<_, Int>");
    assert_eq!(ids(&checker.diagnostics), vec!["type.inference_ambiguous".to_string()]);
    assert_eq!(checker.diagnostics[0].message, "empty Dict literal needs concrete type context");
}

fn record_field(name: &str, value: Expr, id: u64) -> RecordField {
    RecordField { name: name.to_string(), expr: value, node_id: NodeId { index: id }, span: span(id as u32) }
}

#[test]
fn record_literal_has_its_fields_types() {
    let f = function(Vec::new(), None);
    let env = empty_environment();
    let mut checker = FunctionChecker::new(&f, &env);
    let rec = expr(ExprKind::Record(vec![record_field("x", int_lit(1, 3), 2), record_field("y", string_lit("a", 5), 4)]), 1);
    let ty = checker.infer_expr(&rec, None);
    assert_eq!(render_type(&ty), "{x: Int, y: String}");
    assert!(checker.diagnostics.is_empty());
}

#[test]
fn record_literal_reports_repeated_names_and_field_mismatches() {
    let f = function(Vec::new(), None);
    let env = empty_environment();
    let mut checker = FunctionChecker::new(&f, &env);
    let rec = expr(ExprKind::Record(vec![record_field("x", int_lit(1, 3), 2), record_field("x", string_lit("a", 5), 4)]), 1);
    let expected_type = Type::Record(vec![("x".to_string(), Type::int_type())]);
    let ty = checker.infer_expr(&rec, Some(&expected(expected_type)));
    assert_eq!(render_type(&ty), "{x: Int}");
    assert_eq!(ids(&checker.diagnostics), vec!["name.duplicate".to_string(), "type.mismatch".to_string()]);
    assert_eq!(checker.diagnostics[0].message, "duplicate record field name `x`");
}

#[test]
fn empty_braces_where_a_dict_is_expected_are_that_dict() {
    let f = function(Vec::new(), None);
    let env = empty_environment();
    let mut checker = FunctionChecker::new(&f, &env);
    let expected_type = Type::Named { name: "Dict".to_string(), args: vec![Type::string_type(), Type::int_type()] };
    let ty = checker.infer_expr(&expr(ExprKind::Record(Vec::new()), 1), Some(&expected(expected_type)));
    assert_eq!(render_type(&ty), "Dict<String, Int>");
    assert!(checker.diagnostics.is_empty());
}

#[test]
fn bare_names_are_shadowed_by_bindings_and_local_functions() {
    let f = function(Vec::new(), None);
    let env = TypeEnvironment {
        functions: vec![FunctionSignature {
            name: "helper".to_string(),
            module_name: None,
            params: Vec::new(),
            variadic: None,
            return_type: Type::named("Int"),
            effects: Vec::new(),
        }],
        adts: AdtRegistry { descriptors: Vec::new() },
        effects: Vec::new(),
        handlers: Vec::new(),
        known_effect_labels: Vec::new(),
    };
    let mut checker = FunctionChecker::new(&f, &env);
    assert!(checker.bare_name_is_shadowed("helper"));
    assert!(!checker.bare_name_is_shadowed("x"));
    checker.bindings.push(Binding { name: "x".to_string(), ty: Type::int_type() });
    assert!(checker.bare_name_is_shadowed("x"));
}
