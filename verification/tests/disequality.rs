use lib::clause_implies::{repair_clause_implies, repair_clause_implies_with_equivalences};
use lib::decimal::RepairRational;
use lib::disequality::{
    boolean_disequality_alias_implies_comparison, boolean_literal_value_for_operand, disequality_implies_numeric_ordering_disjunction,
    equality_side_excludes_wanted_literal, equality_with_distinct_literal_implies_disequality, inclusive_bound_implies_order_or_equality_disjunction,
    literal_bound_implies_disequality, literal_lower_bound_implies_disequality, literal_upper_bound_implies_disequality,
    numeric_literal_comparison_side, repair_disequality_literal_for_operand,
};
use lib::equivalences::RepairEquivalences;
use lib::predicate_text::ParsedRepairComparison;

fn parse(text: &str) -> ParsedRepairComparison {
    ParsedRepairComparison::parse(text).unwrap()
}

fn strings(items: &[&str]) -> Vec<String> {
    items.iter().map(|s| s.to_string()).collect()
}

#[test]
fn disequality_constant_of_an_operand() {
    let eq = RepairEquivalences::new();
    assert_eq!(repair_disequality_literal_for_operand(&parse("x != 3"), "x", &eq), Some(RepairRational { numerator: 3, denominator: 1 }));
    assert_eq!(repair_disequality_literal_for_operand(&parse("0.5 != x"), "x", &eq), Some(RepairRational { numerator: 1, denominator: 2 }));
    assert_eq!(repair_disequality_literal_for_operand(&parse("y != 3"), "x", &eq), None);
    assert_eq!(repair_disequality_literal_for_operand(&parse("x != y"), "x", &eq), None);
}

#[test]
fn bounds_exclude_constants_beyond_them() {
    let eq = RepairEquivalences::new();
    assert!(literal_lower_bound_implies_disequality(&parse("3 < x"), &parse("x != 2"), &eq));
    assert!(literal_lower_bound_implies_disequality(&parse("3 < x"), &parse("x != 3"), &eq));
    assert!(!literal_lower_bound_implies_disequality(&parse("3 <= x"), &parse("x != 3"), &eq));
    assert!(!literal_lower_bound_implies_disequality(&parse("3 < x"), &parse("x != 4"), &eq));
    assert!(literal_upper_bound_implies_disequality(&parse("x < 3"), &parse("4 != x"), &eq));
    assert!(literal_upper_bound_implies_disequality(&parse("x < 3"), &parse("x != 3"), &eq));
    assert!(!literal_upper_bound_implies_disequality(&parse("x <= 3"), &parse("x != 3"), &eq));
    assert!(literal_bound_implies_disequality(&parse("x <= 3"), &parse("x != 5"), &eq));
    assert!(!literal_bound_implies_disequality(&parse("x == 3"), &parse("x != 5"), &eq));
    assert!(!literal_bound_implies_disequality(&parse("x < 3"), &parse("x == 5"), &eq));
}

#[test]
fn comparison_side_with_a_constant() {
    let (subject, value) = numeric_literal_comparison_side(&parse("x != 7")).unwrap();
    assert_eq!(subject, "x");
    assert_eq!(value, RepairRational { numerator: 7, denominator: 1 });
    assert!(numeric_literal_comparison_side(&parse("x != y")).is_none());
}

#[test]
fn equality_excludes_other_constants() {
    let eq = RepairEquivalences::new();
    assert!(equality_side_excludes_wanted_literal("x", "1", "x", "2", &eq));
    assert!(equality_side_excludes_wanted_literal("x", "1", "2", "x", &eq));
    assert!(!equality_side_excludes_wanted_literal("x", "1", "x", "1", &eq));
    assert!(!equality_side_excludes_wanted_literal("x", "1", "y", "2", &eq));
    assert!(equality_with_distinct_literal_implies_disequality("x", "==", "\"a\"", "x", "!=", "\"b\"", &eq));
    assert!(equality_with_distinct_literal_implies_disequality("1", "==", "x", "x", "!=", "2", &eq));
    assert!(!equality_with_distinct_literal_implies_disequality("x", "<", "1", "x", "!=", "2", &eq));
}

#[test]
fn disequality_means_one_of_two_orderings() {
    let eq = RepairEquivalences::new();
    assert!(disequality_implies_numeric_ordering_disjunction("x != 3", &strings(&["x < 3", "3 < x"]), &eq));
    assert!(disequality_implies_numeric_ordering_disjunction("3 != x", &strings(&["3 < x", "junk", "x < 3"]), &eq));
    assert!(!disequality_implies_numeric_ordering_disjunction("x != 3", &strings(&["x < 3"]), &eq));
    assert!(!disequality_implies_numeric_ordering_disjunction("x != 3", &strings(&["x < 3", "4 < x"]), &eq));
    assert!(!disequality_implies_numeric_ordering_disjunction("x == 3", &strings(&["x < 3", "3 < x"]), &eq));
}

#[test]
fn inclusive_bound_means_strict_or_equal() {
    let eq = RepairEquivalences::new();
    assert!(inclusive_bound_implies_order_or_equality_disjunction("a <= b", &strings(&["a < b", "b == a"]), &eq));
    assert!(!inclusive_bound_implies_order_or_equality_disjunction("a <= b", &strings(&["b < a", "b == a"]), &eq));
    assert!(!inclusive_bound_implies_order_or_equality_disjunction("a < b", &strings(&["a < b", "a == b"]), &eq));
}

#[test]
fn boolean_value_and_alias() {
    let eq = RepairEquivalences::new();
    let clauses = strings(&["flag == true", "x != flag", "other == false"]);
    assert_eq!(boolean_literal_value_for_operand(&clauses, "flag", &eq), Some(true));
    assert_eq!(boolean_literal_value_for_operand(&clauses, "other", &eq), Some(false));
    assert_eq!(boolean_literal_value_for_operand(&clauses, "x", &eq), None);
    assert!(boolean_disequality_alias_implies_comparison(&clauses, &parse("x == false"), &eq));
    assert!(!boolean_disequality_alias_implies_comparison(&clauses, &parse("x == true"), &eq));
    assert!(!boolean_disequality_alias_implies_comparison(&clauses, &parse("x < 1"), &eq));
}

#[test]
fn clause_implication_rules() {
    assert!(repair_clause_implies("x < 3", "x < 3"));
    assert!(repair_clause_implies("x < y", "x <= y"));
    assert!(repair_clause_implies("x < y", "y != x"));
    assert!(repair_clause_implies("x == 1", "x != 2"));
    assert!(repair_clause_implies("x < 1", "x < 2"));
    assert!(repair_clause_implies("x == 2", "1 < x"));
    assert!(repair_clause_implies("3 < x", "x != 1"));
    assert!(repair_clause_implies("ready", "ready == true"));
    assert!(repair_clause_implies("done == false", "false == done"));
    assert!(repair_clause_implies("x == y", "y <= x"));
    assert!(!repair_clause_implies("x <= y", "x < y"));
    assert!(!repair_clause_implies("x < 2", "x < 1"));
    assert!(!repair_clause_implies("ready", "x < 1"));
}

#[test]
fn clause_implication_with_equivalences() {
    let mut eq = RepairEquivalences::new();
    eq.union("x", "z");
    assert!(repair_clause_implies_with_equivalences("x < y", &parse("z < y"), &eq));
    assert!(repair_clause_implies_with_equivalences("x < y", &parse("z <= y"), &eq));
    assert!(repair_clause_implies_with_equivalences("y < x", &parse("z != y"), &eq));
    assert!(repair_clause_implies_with_equivalences("x == 1", &parse("z != 2"), &eq));
    assert!(repair_clause_implies_with_equivalences("z == 4", &parse("3 < x"), &eq));
    assert!(repair_clause_implies_with_equivalences("not x", &parse("z == false"), &eq));
    assert!(!repair_clause_implies_with_equivalences("x < y", &parse("y < z"), &eq));
}
