use lib::clauses::{
    canonical_negated_repair_clause, canonical_negated_repair_or_atom_clause, canonical_repair_clause, compact_predicate_text,
    complementary_candidate_comparisons, complementary_disjunct_key, expression_identifiers, expression_references_identifier,
    flattened_repair_keyword_clauses, has_complementary_candidate_comparison_disjuncts, has_complementary_candidate_disjuncts,
    has_exclusive_inclusive_order_candidate_conjuncts, has_exclusive_order_candidate_conjuncts,
    has_inclusive_total_order_candidate_disjuncts, has_total_order_candidate_disjuncts, has_true_disjunct,
    inclusive_total_order_candidate_clause, is_ident_continue, is_ident_start, is_value_identifier_position, is_word_boundary,
    negated_and_clauses, order_bound_candidate_clause, repair_relevant_negated_and_clauses, replace_identifier,
    split_top_level_keyword, text_less, total_order_candidate_clause,
};
use lib::predicate_text::{NormalizedRepairComparison, TotalOrderRelation};

fn strings(items: &[&str]) -> Vec<String> {
    items.iter().map(|s| s.to_string()).collect()
}

#[test]
fn identifier_characters() {
    assert!(is_ident_start('a') && is_ident_start('_') && is_ident_start('Z'));
    assert!(!is_ident_start('1') && !is_ident_start('.'));
    assert!(is_ident_continue('1') && is_ident_continue('_') && !is_ident_continue('-'));
}

#[test]
fn word_boundaries() {
    assert!(is_word_boundary("a and b", 2, 5));
    assert!(!is_word_boundary("band b", 1, 4));
    assert!(!is_word_boundary("a andy", 2, 5));
    assert!(is_word_boundary("and", 0, 3));
}

#[test]
fn split_at_top_level_keywords_only() {
    assert_eq!(split_top_level_keyword("a > 0 and b < 1", "and"), strings(&["a > 0 ", " b < 1"]));
    assert_eq!(split_top_level_keyword("(a and b) and c", "and"), strings(&["(a and b) ", " c"]));
    assert_eq!(split_top_level_keyword("s == \"x and y\" and t", "and"), strings(&["s == \"x and y\" ", " t"]));
    assert_eq!(split_top_level_keyword("brand or candy", "and"), strings(&["brand or candy"]));
    assert_eq!(split_top_level_keyword("x", "or"), strings(&["x"]));
}

#[test]
fn split_pieces_rejoin_to_the_text() {
    let text = "p or (q or r) or \"or\" or s";
    let pieces = split_top_level_keyword(text, "or");
    assert_eq!(pieces.join("or"), text);
}

#[test]
fn true_disjuncts() {
    assert!(has_true_disjunct("x > 0 or true"));
    assert!(has_true_disjunct("(false or (true))"));
    assert!(has_true_disjunct("not false or x"));
    assert!(!has_true_disjunct("x > 0 or y > 0"));
}

#[test]
fn flattened_clauses() {
    assert_eq!(flattened_repair_keyword_clauses("a and (b and c)", "and"), strings(&["a", "b", "c"]));
    assert_eq!(flattened_repair_keyword_clauses("(a or b)", "and"), strings(&["a or b"]));
}

#[test]
fn negated_conjunctions() {
    assert_eq!(negated_and_clauses("not (a and b)"), Some(strings(&["a", "b"])));
    assert_eq!(negated_and_clauses("  not(a and b)"), Some(strings(&["a", "b"])));
    assert_eq!(negated_and_clauses("a and b"), None);
}

#[test]
fn compacting_keeps_string_literals() {
    assert_eq!(compact_predicate_text(" a  ==  \"x y\" "), "a==\"x y\"");
    assert_eq!(compact_predicate_text("\"a\\\" b\" c"), "\"a\\\" b\"c");
    let once = compact_predicate_text("f ( x , \" y \" )");
    assert_eq!(compact_predicate_text(&once), once);
}

#[test]
fn identifiers_in_value_positions() {
    assert_eq!(expression_identifiers("a.b + c - a"), strings(&["a", "c"]));
    assert_eq!(expression_identifiers("m::f(x) == \"y\""), strings(&["x"]));
    assert_eq!(expression_identifiers("n1 + _t"), strings(&["n1", "_t"]));
    assert!(expression_references_identifier("result.len() > 0", "result"));
    assert!(!expression_references_identifier("x.result > 0", "result"));
    assert!(is_value_identifier_position("a.b", 0, 1));
    assert!(!is_value_identifier_position("a.b", 2, 3));
    assert!(!is_value_identifier_position("m::f", 0, 1));
}

#[test]
fn replacing_identifiers() {
    assert_eq!(replace_identifier("x + x.x == \"x\"", "x", "y"), "y + y.x == \"x\"");
    assert_eq!(replace_identifier("xs + x", "x", "value"), "xs + value");
    let text = "a.b(c) + \"a\" - a";
    assert_eq!(replace_identifier(text, "a", "a"), text);
}

#[test]
fn text_order() {
    assert!(text_less("a", "b"));
    assert!(text_less("ab", "abc"));
    assert!(!text_less("b", "a"));
    assert!(!text_less("a", "a"));
    assert!(text_less("B", "a"));
}

#[test]
fn canonical_clauses() {
    assert_eq!(canonical_repair_clause("(b == a)"), "a == b");
    assert_eq!(canonical_repair_clause("x > y"), "y < x");
    assert_eq!(canonical_repair_clause("x >= y"), "y <= x");
    assert_eq!(canonical_repair_clause("a != b"), "a != b");
    assert_eq!(canonical_repair_clause("not (a < b)"), "b <= a");
    assert_eq!(canonical_repair_clause("not not x == y"), "x == y");
    assert_eq!(canonical_repair_clause("plain"), "plain");
    assert_eq!(canonical_negated_repair_clause("not true"), Some("false".to_string()));
    assert_eq!(canonical_negated_repair_clause("not (b == a)"), Some("a != b".to_string()));
    assert_eq!(canonical_negated_repair_clause("a == b"), None);
    assert_eq!(canonical_negated_repair_clause("not ready"), None);
}

#[test]
fn negated_atoms() {
    assert_eq!(canonical_negated_repair_or_atom_clause("not (ready)"), Some("not ready".to_string()));
    assert_eq!(canonical_negated_repair_or_atom_clause("not (a and b)"), None);
    assert_eq!(canonical_negated_repair_or_atom_clause("not (x > 1)"), Some("x <= 1".to_string()));
}

#[test]
fn negated_conjunctions_expand_to_disjuncts() {
    assert_eq!(repair_relevant_negated_and_clauses("not (a < b and ready)"), Some(strings(&["b <= a", "not ready"])));
    assert_eq!(repair_relevant_negated_and_clauses("not (false and x == 1)"), Some(strings(&["true"])));
    assert_eq!(repair_relevant_negated_and_clauses("not (true and true)"), Some(strings(&["false"])));
    assert_eq!(repair_relevant_negated_and_clauses("not (a)"), None);
    assert_eq!(repair_relevant_negated_and_clauses("a and b"), None);
}

#[test]
fn total_order_clauses() {
    let t = total_order_candidate_clause("(x > y)", "x").unwrap();
    assert_eq!((t.left.as_str(), t.right.as_str()), ("x", "y"));
    assert!(t.relation == TotalOrderRelation::Greater);
    let t = total_order_candidate_clause("y < x", "x").unwrap();
    assert_eq!((t.left.as_str(), t.right.as_str()), ("x", "y"));
    assert!(t.relation == TotalOrderRelation::Greater);
    assert!(total_order_candidate_clause("x <= y", "x").is_none());
    assert!(total_order_candidate_clause("a < b", "x").is_none());
    assert!(total_order_candidate_clause("x == x", "x").is_none());
}

#[test]
fn order_bounds() {
    let b = order_bound_candidate_clause("x >= 3", "x").unwrap();
    assert_eq!((b.left.as_str(), b.right.as_str(), b.strict), ("3", "x", false));
    let b = order_bound_candidate_clause("x < 3", "x").unwrap();
    assert_eq!((b.left.as_str(), b.right.as_str(), b.strict), ("x", "3", true));
    assert!(order_bound_candidate_clause("x == 3", "x").is_none());
}

#[test]
fn inclusive_clauses() {
    let c = inclusive_total_order_candidate_clause("y >= x", "x").unwrap();
    assert_eq!((c.left.as_str(), c.right.as_str()), ("x", "y"));
    assert!(inclusive_total_order_candidate_clause("x < y", "x").is_none());
}

#[test]
fn operand_comparisons() {
    let a = NormalizedRepairComparison::parse("a == b").unwrap();
    let b = NormalizedRepairComparison::parse("b != a").unwrap();
    assert!(a.same_operands_unordered(&b));
    assert!(a.same_operands_reversed(&b));
    let c = NormalizedRepairComparison::parse("a  !=  b").unwrap();
    assert!(a.same_operands_unordered(&c));
    assert!(!a.same_operands_reversed(&c));
}

#[test]
fn complementary_comparisons() {
    assert!(complementary_candidate_comparisons("x == 1", "x != 1", "x"));
    assert!(complementary_candidate_comparisons("x < y", "y <= x", "x"));
    assert!(complementary_candidate_comparisons("y <= x", "x < y", "x"));
    assert!(!complementary_candidate_comparisons("x < y", "x < y", "x"));
    assert!(!complementary_candidate_comparisons("a == 1", "a != 1", "x"));
}

#[test]
fn disjunct_lists() {
    let c = "x";
    assert!(has_complementary_candidate_comparison_disjuncts(&strings(&["p", "x == 1", "x != 1"]), c));
    assert!(!has_complementary_candidate_comparison_disjuncts(&strings(&["x == 1"]), c));
    assert!(has_inclusive_total_order_candidate_disjuncts(&strings(&["x <= y", "y <= x"]), c));
    assert!(!has_inclusive_total_order_candidate_disjuncts(&strings(&["x <= y", "x <= y"]), c));
    assert!(has_total_order_candidate_disjuncts(&strings(&["x < y", "x == y", "y < x"]), c));
    assert!(!has_total_order_candidate_disjuncts(&strings(&["x < y", "x == y"]), c));
    assert!(has_exclusive_order_candidate_conjuncts(&strings(&["x < y", "x == y"]), c));
    assert!(!has_exclusive_order_candidate_conjuncts(&strings(&["x < y", "y > x"]), c));
    assert!(has_exclusive_inclusive_order_candidate_conjuncts(&strings(&["x < y", "y <= x"]), c));
    assert!(!has_exclusive_inclusive_order_candidate_conjuncts(&strings(&["x <= y", "y <= x"]), c));
}

#[test]
fn clauses_beside_their_negation() {
    assert_eq!(complementary_disjunct_key("not (x > 1)", "x"), Some((true, "1 < x".to_string())));
    assert_eq!(complementary_disjunct_key("y", "x"), None);
    assert!(has_complementary_candidate_disjuncts(&strings(&["x.ok", "not x.ok"]), "x"));
    assert!(has_complementary_candidate_disjuncts(&strings(&["x > 1", "not (1 < x)"]), "x"));
    assert!(!has_complementary_candidate_disjuncts(&strings(&["x.ok", "x.ready"]), "x"));
}
