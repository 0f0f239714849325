use lib::ast::{Function, FunctionKind, Visibility};
use lib::candidates::SymbolCandidate;
use lib::checker::FunctionChecker;
use lib::diag::{NodeId, SourceSpan};
use lib::env::{AdtRegistry, TypeEnvironment};
use lib::repair::{SatisfyAllowedBinding, SatisfyRepairConstraint};
use lib::semantic::Binding;
use lib::types::Type;

fn span() -> SourceSpan {
    SourceSpan { file: "hole.veln".to_string(), start_line: 1, start_column: 1, end_line: 1, end_column: 5 }
}

fn environment() -> TypeEnvironment {
    TypeEnvironment { functions: Vec::new(), adts: AdtRegistry { descriptors: Vec::new() }, effects: Vec::new(), handlers: Vec::new(), known_effect_labels: Vec::new() }
}

fn function() -> Function {
    Function {
        name: Some("fill".to_string()),
        module_name: None,
        kind: FunctionKind::Function,
        visibility: Visibility::Private,
        params: Vec::new(),
        return_type: None,
        return_type_span: None,
        return_binding: None,
        effects: None,
        effect_spans: None,
        effect_binder: None,
        contracts: Vec::new(),
        body: Vec::new(),
        node_id: NodeId { index: 1 },
        span: span(),
    }
}

fn names(cs: &[SymbolCandidate]) -> Vec<String> {
    cs.iter().map(|c| c.name.clone()).collect()
}

#[test]
fn exact_matches_rank_before_assignable_ones_newest_first() {
    let f = function();
    let env = environment();
    let mut checker = FunctionChecker::new(&f, &env);
    checker.bindings.push(Binding { name: "a".to_string(), ty: Type::int_type() });
    checker.bindings.push(Binding { name: "b".to_string(), ty: Type::string_type() });
    checker.bindings.push(Binding { name: "c".to_string(), ty: Type::int_type() });
    checker.bindings.push(Binding { name: "d".to_string(), ty: Type::Unknown });
    let cs = checker.ranked_symbol_candidates(&Type::int_type(), None);
    assert_eq!(names(&cs), vec!["c".to_string(), "a".to_string(), "d".to_string()]);
    assert_eq!(cs.iter().map(|c| c.rank).collect::<Vec<_>>(), vec![1, 2, 3]);
    assert_eq!(cs[0].reason, "exact_type_match");
    assert_eq!(cs[2].reason, "assignable_type_match");
    assert_eq!(cs[0].candidate_id(), "symbol-1");
    assert_eq!(cs[2].candidate_id(), "symbol-3");
}

#[test]
fn only_five_are_offered_unless_the_satisfy_clause_allows_more() {
    let f = function();
    let env = environment();
    let mut checker = FunctionChecker::new(&f, &env);
    for i in 0..7 {
        checker.bindings.push(Binding { name: format!("x{i}"), ty: Type::int_type() });
    }
    let cs = checker.ranked_symbol_candidates(&Type::int_type(), None);
    assert_eq!(names(&cs), vec!["x6", "x5", "x4", "x3", "x2"].iter().map(|s| s.to_string()).collect::<Vec<_>>());
    let satisfy = SatisfyRepairConstraint {
        allowed_bindings: Some(vec![SatisfyAllowedBinding { name: "x0".to_string(), reason: "satisfy_require_match" }]),
        reason: "satisfy_require_match",
    };
    let cs = checker.ranked_symbol_candidates(&Type::int_type(), Some(&satisfy));
    assert_eq!(cs.len(), 6);
    assert_eq!(cs[5].name, "x0");
    assert_eq!(cs[5].rank, 6);
    assert_eq!(cs[5].reason, "satisfy_require_match");
    assert_eq!(cs[0].reason, "exact_type_match");
}

#[test]
fn no_binding_fits_no_candidate() {
    let f = function();
    let env = environment();
    let mut checker = FunctionChecker::new(&f, &env);
    checker.bindings.push(Binding { name: "s".to_string(), ty: Type::string_type() });
    assert!(checker.ranked_symbol_candidates(&Type::int_type(), None).is_empty());
}
