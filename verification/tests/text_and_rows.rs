use lib::ast::BinaryOp;
use lib::effect_rows::{collect_effect_row_substitution, instantiate_effects, merge_effect_row_substitution, push_unique_effect};
use lib::names::{invalid_value_binding_name, valid_value_binding_name};
use lib::names_infer::join_path;
use lib::predicate_text::{
    collapse_whitespace, is_ordering_op, is_plain_identifier, normalized_predicate_clause, operand_path, reflexive_operand,
    split_once, starts_with_comparison_operator, strip_balanced_outer_parens, stripped_not_operand, trimmed, NormalizedRepairComparison,
    ParsedRepairComparison, TotalOrderRelation,
};
use lib::relations::is_assignable;
use lib::repair::{contract_callee_segments, SatisfyAllowedBinding, SatisfyRepairConstraint};
use lib::types::Type;

fn strings(items: &[&str]) -> Vec<String> {
    items.iter().map(|s| s.to_string()).collect()
}

#[test]
fn binding_names_start_with_a_lowercase_letter() {
    assert!(valid_value_binding_name("count"));
    assert!(!valid_value_binding_name("Count"));
    assert!(!valid_value_binding_name("_count"));
    assert!(!valid_value_binding_name(""));
    assert!(invalid_value_binding_name("Count"));
    assert_eq!(valid_value_binding_name("x"), !invalid_value_binding_name("x"));
}

#[test]
fn trim_and_collapse() {
    assert_eq!(trimmed("  a b \t"), "a b");
    assert_eq!(trimmed(&trimmed("  a b \t")), trimmed("  a b \t"));
    assert_eq!(collapse_whitespace("  x   ==\t y "), "x == y");
    assert_eq!(collapse_whitespace(""), "");
}

#[test]
fn plain_identifiers_and_operand_paths() {
    assert!(is_plain_identifier("value_1"));
    assert!(is_plain_identifier("_x"));
    assert!(!is_plain_identifier("1x"));
    assert!(!is_plain_identifier(""));
    assert_eq!(operand_path(" a . b "), Some(strings(&["a", "b"])));
    assert_eq!(operand_path("a.1b"), None);
    assert_eq!(operand_path("a..b"), None);
}

#[test]
fn outer_parentheses_are_stripped_only_when_they_wrap_everything() {
    assert_eq!(strip_balanced_outer_parens(" ((x > 1)) "), "x > 1");
    assert_eq!(strip_balanced_outer_parens("(a) and (b)"), "(a) and (b)");
    assert_eq!(strip_balanced_outer_parens("()"), "");
    let once = strip_balanced_outer_parens("( (a or b) )");
    assert_eq!(strip_balanced_outer_parens(&once), once);
}

#[test]
fn not_operands_and_normalized_clauses() {
    assert_eq!(stripped_not_operand("not x"), Some("x".to_string()));
    assert_eq!(stripped_not_operand("not( y )"), Some("y".to_string()));
    assert_eq!(stripped_not_operand("x"), None);
    assert_eq!(normalized_predicate_clause("not true"), "false");
    assert_eq!(normalized_predicate_clause("( not (false) )"), "true");
    assert_eq!(normalized_predicate_clause("(a   <  b)"), "a < b");
}

#[test]
fn comparisons_split_at_the_first_operator_in_order() {
    let parsed = ParsedRepairComparison::parse("x <= y").unwrap();
    assert_eq!((parsed.left.as_str(), parsed.operator, parsed.right.as_str()), ("x", "<=", "y"));
    assert!(ParsedRepairComparison::parse("== y").is_none());
    assert!(ParsedRepairComparison::parse("x + y").is_none());
    let normalized = NormalizedRepairComparison::parse("(a > b)").unwrap();
    assert_eq!((normalized.left.as_str(), normalized.operator, normalized.right.as_str()), ("b", "<", "a"));
    assert_eq!(split_once("a::b::c", "::"), Some(("a".to_string(), "b::c".to_string())));
    assert!(starts_with_comparison_operator(">= 3"));
    assert!(!starts_with_comparison_operator("= 3"));
    assert!(is_ordering_op(BinaryOp::Less));
    assert!(!is_ordering_op(BinaryOp::Equal));
}

#[test]
fn reflexive_operand_suggests_the_other_path() {
    assert_eq!(reflexive_operand("x.len == y.len", "x", "=="), Some("y".to_string()));
    assert_eq!(reflexive_operand("y.len <= x.len", "x", "<="), Some("y".to_string()));
    assert_eq!(reflexive_operand("x.len == y.size", "x", "=="), None);
}

#[test]
fn relation_inversion_is_an_involution() {
    for r in [TotalOrderRelation::Less, TotalOrderRelation::Equal, TotalOrderRelation::Greater] {
        assert!(r.invert().invert() == r);
    }
    assert_eq!(TotalOrderRelation::Less.bit() | TotalOrderRelation::Equal.bit() | TotalOrderRelation::Greater.bit(), 7);
}

#[test]
fn callee_paths_split_at_double_colons() {
    assert_eq!(contract_callee_segments("list::len"), strings(&["list", "len"]));
    assert_eq!(contract_callee_segments("len"), strings(&["len"]));
    assert_eq!(join_path(&contract_callee_segments("a::b::c")), "a::b::c");
}

#[test]
fn satisfy_constraint_reasons() {
    let mut constraint = SatisfyRepairConstraint {
        allowed_bindings: Some(vec![SatisfyAllowedBinding { name: "a".to_string(), reason: "satisfy_equality_match" }]),
        reason: "satisfy_tautology",
    };
    assert_eq!(constraint.reason_for("a"), Some("satisfy_equality_match"));
    assert_eq!(constraint.reason_for("b"), None);
    assert!(!constraint.allows_any_binding());
    constraint.extend_allowed_bindings(vec![
        SatisfyAllowedBinding { name: "a".to_string(), reason: "other" },
        SatisfyAllowedBinding { name: "b".to_string(), reason: "satisfy_reflexive_match" },
    ]);
    assert_eq!(constraint.reason_for("a"), Some("satisfy_equality_match"));
    assert_eq!(constraint.reason_for("b"), Some("satisfy_reflexive_match"));
    let any = SatisfyRepairConstraint { allowed_bindings: None, reason: "satisfy_tautology" };
    assert_eq!(any.reason_for("zzz"), Some("satisfy_tautology"));
    assert!(any.allows_any_binding());
}

#[test]
fn effects_are_kept_once_each() {
    let mut effects = strings(&["io"]);
    push_unique_effect(&mut effects, "io".to_string());
    push_unique_effect(&mut effects, "net".to_string());
    assert_eq!(effects, strings(&["io", "net"]));
}

#[test]
fn row_substitutions_merge_and_instantiate() {
    let mut subs: Vec<(String, Vec<String>)> = Vec::new();
    merge_effect_row_substitution(&mut subs, "e", strings(&["io", "io"]));
    merge_effect_row_substitution(&mut subs, "e", strings(&["net", "io"]));
    assert_eq!(subs, vec![("e".to_string(), strings(&["io", "net"]))]);
    let instantiated = instantiate_effects(&strings(&["...e", "io", "...f"]), &subs);
    assert_eq!(instantiated, strings(&["io", "net", "...f"]));
}

#[test]
fn matching_function_types_finds_row_substitutions() {
    let expected = Type::Function {
        params: vec![Type::Function { params: Vec::new(), variadic: None, return_type: Box::new(Type::named("Int")), effects: strings(&["...e"]) }],
        variadic: None,
        return_type: Box::new(Type::named("Int")),
        effects: strings(&["...e"]),
    };
    let actual = Type::Function {
        params: vec![Type::Function { params: Vec::new(), variadic: None, return_type: Box::new(Type::named("Int")), effects: strings(&["io"]) }],
        variadic: None,
        return_type: Box::new(Type::named("Int")),
        effects: strings(&["...e", "clock"]),
    };
    let mut subs: Vec<(String, Vec<String>)> = Vec::new();
    collect_effect_row_substitution(&expected, &actual, &mut subs);
    assert_eq!(subs, vec![("e".to_string(), strings(&["clock", "io"]))]);
}

#[test]
fn assignability_is_reflexive_and_unknown_fits_anything() {
    let t = Type::vec_of(Type::named("Int"));
    assert!(is_assignable(&t, &t));
    assert!(is_assignable(&Type::Unknown, &t));
    assert!(is_assignable(&t, &Type::Unknown));
    assert!(!is_assignable(&Type::named("Int"), &Type::named("Bool")));
}
