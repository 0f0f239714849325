use lib::clauses::{canonical_negated_disjunction_repair_clauses, canonical_non_disjunctive_repair_clauses, normalized_and_clauses};
use lib::equivalences::{normalized_repair_operand_text, RepairEquivalences};
use lib::implication::{
    boolean_atom_implies_literal_comparison, boolean_atom_truth, boolean_literal_comparison_implies_atom,
    boolean_literal_comparison_implies_comparison, boolean_literal_comparison_truth, inclusive_bounds_imply_equality,
    int_successor_repair_clause_implies, int_successor_repair_comparison_implies, repair_atoms_equivalent,
    repair_clause_set_int_successor_implies_clause, repair_equivalences, repair_operands_equivalent,
    repair_operands_equivalent_ordered, repair_operands_equivalent_unordered, same_repair_operands_unordered,
    strict_int_lower_bound_implies_adjacent_inclusive,
};
use lib::predicate_text::{NormalizedRepairComparison, ParsedRepairComparison};

fn strings(items: &[&str]) -> Vec<String> {
    items.iter().map(|s| s.to_string()).collect()
}

#[test]
fn operands_normalize_before_grouping() {
    assert_eq!(normalized_repair_operand_text("( a . b )"), "a.b");
    assert_eq!(normalized_repair_operand_text("f( (x) )"), "fx");
}

#[test]
fn union_groups_equal_operands() {
    let mut eq = RepairEquivalences::new();
    eq.union("a", "b");
    assert!(eq.equivalent("a", "b"));
    assert!(!eq.equivalent("a", "c"));
    eq.union("c", "d");
    assert_eq!(eq.groups.len(), 2);
    eq.union("b", "c");
    assert_eq!(eq.groups.len(), 1);
    assert!(eq.equivalent("a", "d"));
    assert!(eq.equivalent("d", "a"));
    eq.union("x", "x");
    assert_eq!(eq.groups.len(), 1);
    assert_eq!(eq.group_index("c"), Some(0));
    assert_eq!(eq.group_index("z"), None);
    assert_eq!(eq.canonical_operand("d"), "a");
    assert_eq!(eq.canonical_operand("z"), "z");
    assert_eq!(eq.canonical_expression("d + 1 == x.d"), "a+1==x.d");
}

#[test]
fn equalities_from_clauses() {
    let eq = repair_equivalences(&strings(&["x == y", "y < 3", "(z) == y"]));
    assert!(eq.equivalent("x", "z"));
    assert!(!eq.equivalent("x", "3"));
    assert!(repair_operands_equivalent("x + 1", "z+1", &eq));
    assert!(repair_operands_equivalent("a  b", "ab", &eq));
    assert!(!repair_operands_equivalent("x", "w", &eq));
    assert!(repair_operands_equivalent_ordered("x", "1", "y", "1", &eq));
    assert!(!repair_operands_equivalent_ordered("x", "1", "1", "y", &eq));
    assert!(repair_operands_equivalent_unordered("x", "1", "1", "y", &eq));
    assert!(same_repair_operands_unordered("a", "b", "b", "a"));
    assert!(!same_repair_operands_unordered("a", "b", "a", "a"));
    assert!(repair_atoms_equivalent("x.ok", "z.ok", &eq));
    assert!(!repair_atoms_equivalent("x == 1", "x == 1", &eq));
}

#[test]
fn boolean_atoms() {
    assert_eq!(boolean_atom_truth("(ready)"), Some(("ready".to_string(), true)));
    assert_eq!(boolean_atom_truth("not (ready)"), Some(("ready".to_string(), false)));
    assert_eq!(boolean_atom_truth("true"), None);
    assert_eq!(boolean_atom_truth("a and b"), None);
    assert_eq!(boolean_atom_truth("x > 1"), None);
    let c = ParsedRepairComparison::parse("ready == false").unwrap();
    assert_eq!(boolean_literal_comparison_truth(&c), Some(("ready".to_string(), false)));
    let c = ParsedRepairComparison::parse("true != done").unwrap();
    assert_eq!(boolean_literal_comparison_truth(&c), Some(("done".to_string(), false)));
    let c = ParsedRepairComparison::parse("1 == 2").unwrap();
    assert_eq!(boolean_literal_comparison_truth(&c), None);
}

#[test]
fn boolean_implications() {
    let eq = RepairEquivalences::new();
    assert!(boolean_literal_comparison_implies_atom("ready == true", "ready", &eq));
    assert!(boolean_literal_comparison_implies_atom("ready != true", "not ready", &eq));
    assert!(!boolean_literal_comparison_implies_atom("ready == true", "not ready", &eq));
    let wanted = ParsedRepairComparison::parse("ready == true").unwrap();
    assert!(boolean_atom_implies_literal_comparison("(ready)", &wanted, &eq));
    assert!(!boolean_atom_implies_literal_comparison("not ready", &wanted, &eq));
    let required = ParsedRepairComparison::parse("false == ready").unwrap();
    let wanted = ParsedRepairComparison::parse("ready != true").unwrap();
    assert!(boolean_literal_comparison_implies_comparison(&required, &wanted, &eq));
}

#[test]
fn integer_successors() {
    assert!(int_successor_repair_clause_implies("0 < x", "1 <= x"));
    assert!(int_successor_repair_clause_implies("x < 10", "x <= 9"));
    assert!(int_successor_repair_clause_implies("x >= 1", "x > 0"));
    assert!(int_successor_repair_clause_implies("x <= 5", "x < 6"));
    assert!(!int_successor_repair_clause_implies("0 < x", "2 <= x"));
    assert!(!int_successor_repair_clause_implies("0.5 < x", "1.5 <= x"));
    assert!(!int_successor_repair_clause_implies("0 < x", "1 <= y"));
    let eq = RepairEquivalences::new();
    let r = NormalizedRepairComparison::parse("0 < n").unwrap();
    let w = NormalizedRepairComparison::parse("1 <= n").unwrap();
    assert!(strict_int_lower_bound_implies_adjacent_inclusive(&r, &w, &eq));
    assert!(int_successor_repair_comparison_implies(&r, &w, &eq));
    assert!(int_successor_repair_comparison_implies(&w, &r, &eq));
    assert!(!int_successor_repair_comparison_implies(&r, &r, &eq));
    assert!(repair_clause_set_int_successor_implies_clause(&strings(&["n == m", "0 < m"]), "1 <= n"));
    assert!(!repair_clause_set_int_successor_implies_clause(&strings(&["0 < m"]), "1 <= n"));
}

#[test]
fn opposite_inclusive_bounds_give_equality() {
    let eq = RepairEquivalences::new();
    let wanted = ParsedRepairComparison::parse("a == b").unwrap();
    assert!(inclusive_bounds_imply_equality("a <= b", "b <= a", &wanted, &eq));
    assert!(!inclusive_bounds_imply_equality("a <= b", "a <= b", &wanted, &eq));
    assert!(!inclusive_bounds_imply_equality("a < b", "b <= a", &wanted, &eq));
}

#[test]
fn clause_normal_forms() {
    assert_eq!(normalized_and_clauses("(a  >  1 and (b) and )"), strings(&["a > 1", "b"]));
    assert_eq!(canonical_negated_disjunction_repair_clauses("not (x > 1 or ready)"), Some(strings(&["x <= 1", "not ready"])));
    assert_eq!(canonical_negated_disjunction_repair_clauses("not (true or x)"), Some(strings(&["false"])));
    assert_eq!(canonical_negated_disjunction_repair_clauses("not (false or false)"), Some(strings(&["true"])));
    assert_eq!(canonical_negated_disjunction_repair_clauses("not (x)"), None);
    assert_eq!(canonical_non_disjunctive_repair_clauses("not (a < b and c)"), strings(&["b <= a", "not c"]));
    assert_eq!(canonical_non_disjunctive_repair_clauses("not (a < b or c)"), strings(&["b <= a", "not c"]));
    assert_eq!(canonical_non_disjunctive_repair_clauses("x > 1"), strings(&["1 < x"]));
}
