use lib::equivalences::RepairEquivalences;
use lib::ordering::{
    disequality_clause_exists, disequality_lies_on_ordering_path, ordering_edges_of, ordering_path_contains_disequality,
    ordering_path_exists, ordering_path_implies_clause,
};
use lib::predicate_text::ParsedRepairComparison;

fn strings(items: &[&str]) -> Vec<String> {
    items.iter().map(|s| s.to_string()).collect()
}

fn parse(text: &str) -> ParsedRepairComparison {
    ParsedRepairComparison::parse(text).unwrap()
}

#[test]
fn order_comparisons_become_edges() {
    let edges = ordering_edges_of(&strings(&["a < b", "b == c", "c <= d", "junk"]));
    assert_eq!(edges.len(), 2);
    assert_eq!(edges[0].left, "a");
    assert!(edges[0].strict);
    assert_eq!(edges[1].right, "d");
    assert!(!edges[1].strict);
}

#[test]
fn chains_of_order_comparisons() {
    let eq = RepairEquivalences::new();
    let cs = strings(&["a <= b", "b < c", "c <= d", "d <= a2"]);
    assert!(ordering_path_exists(&cs, "a", "d", false, &eq));
    assert!(ordering_path_exists(&cs, "a", "d", true, &eq));
    assert!(ordering_path_exists(&cs, "a", "b", false, &eq));
    assert!(!ordering_path_exists(&cs, "a", "b", true, &eq));
    assert!(!ordering_path_exists(&cs, "d", "a", false, &eq));
    assert!(ordering_path_exists(&cs, "a", "a", false, &eq));
    let cycle = strings(&["x <= y", "y <= x"]);
    assert!(!ordering_path_exists(&cycle, "x", "z", false, &eq));
    assert!(!ordering_path_exists(&cycle, "x", "x", true, &eq));
}

#[test]
fn chains_through_equivalent_operands() {
    let mut eq = RepairEquivalences::new();
    eq.union("b", "b2");
    let cs = strings(&["a < b", "b2 <= c"]);
    assert!(ordering_path_exists(&cs, "a", "c", true, &eq));
}

#[test]
fn disequalities_on_chains() {
    let eq = RepairEquivalences::new();
    let cs = strings(&["a <= b", "b <= c", "b != a", "c <= d"]);
    assert!(disequality_clause_exists(&cs, "a", "b", &eq));
    assert!(!disequality_clause_exists(&cs, "a", "c", &eq));
    assert!(disequality_lies_on_ordering_path(&cs, "a", "d", "a", "b", &eq));
    assert!(!disequality_lies_on_ordering_path(&cs, "a", "d", "b", "a", &eq));
    assert!(ordering_path_contains_disequality(&cs, "a", "d", &eq));
    assert!(!ordering_path_contains_disequality(&cs, "b", "d", &eq));
}

#[test]
fn chains_imply_comparisons() {
    let eq = RepairEquivalences::new();
    let cs = strings(&["a <= b", "b <= c", "b != a", "c <= a", "x < y"]);
    assert!(ordering_path_implies_clause(&cs, &parse("a <= c"), &eq));
    assert!(ordering_path_implies_clause(&cs, &parse("a == c"), &eq));
    assert!(ordering_path_implies_clause(&cs, &parse("a < b"), &eq));
    assert!(ordering_path_implies_clause(&cs, &parse("y != x"), &eq));
    assert!(!ordering_path_implies_clause(&cs, &parse("y <= x"), &eq));
    assert!(!ordering_path_implies_clause(&cs, &parse("a > c"), &eq));
}
