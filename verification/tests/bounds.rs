use lib::bounds::{
    literal_equality_implies_lower_bound, literal_equality_implies_order_comparison, literal_equality_implies_upper_bound,
    literal_equality_subject, literal_lower_bound_implies, literal_order_comparison_implies, literal_order_strength_implies,
    literal_upper_bound_implies, rational_precedes,
};
use lib::decimal::RepairRational;
use lib::equivalences::RepairEquivalences;
use lib::predicate_text::ParsedRepairComparison;

fn parse(text: &str) -> ParsedRepairComparison {
    ParsedRepairComparison::parse(text).unwrap()
}

fn rational(n: i128, d: i128) -> RepairRational {
    RepairRational { numerator: n, denominator: d }
}

#[test]
fn rationals_order_by_cross_products() {
    assert!(rational_precedes(rational(1, 3), rational(1, 2)));
    assert!(!rational_precedes(rational(1, 2), rational(1, 3)));
    assert!(!rational_precedes(rational(2, 4), rational(1, 2)));
    assert!(rational_precedes(rational(-5, 1), rational(0, 1)));
}

#[test]
fn bound_strength_by_constant_and_operator() {
    let two = rational(2, 1);
    let three = rational(3, 1);
    assert!(literal_order_strength_implies(three, "<", two, "<=", true));
    assert!(!literal_order_strength_implies(two, "<", three, "<", true));
    assert!(literal_order_strength_implies(two, "<", three, "<", false));
    assert!(literal_order_strength_implies(two, "<", two, "<", true));
    assert!(literal_order_strength_implies(two, "<=", two, "<=", false));
    assert!(!literal_order_strength_implies(two, "<=", two, "<", true));
}

#[test]
fn tighter_lower_bound_implies_looser() {
    let eq = RepairEquivalences::new();
    assert!(literal_lower_bound_implies(&parse("3 < x"), &parse("2 <= x"), &eq));
    assert!(literal_lower_bound_implies(&parse("3 <= x"), &parse("2.5 < x"), &eq));
    assert!(!literal_lower_bound_implies(&parse("2 < x"), &parse("3 < x"), &eq));
    assert!(!literal_lower_bound_implies(&parse("3 < x"), &parse("2 < y"), &eq));
    assert!(!literal_lower_bound_implies(&parse("a < x"), &parse("2 < x"), &eq));
}

#[test]
fn tighter_upper_bound_implies_looser() {
    let eq = RepairEquivalences::new();
    assert!(literal_upper_bound_implies(&parse("x < 3"), &parse("x <= 5"), &eq));
    assert!(literal_upper_bound_implies(&parse("x < 3"), &parse("x <= 3"), &eq));
    assert!(!literal_upper_bound_implies(&parse("x <= 3"), &parse("x < 3"), &eq));
    assert!(!literal_upper_bound_implies(&parse("x < 5"), &parse("x < 3"), &eq));
}

#[test]
fn order_comparison_through_equivalent_operands() {
    let mut eq = RepairEquivalences::new();
    eq.union("x", "y");
    assert!(literal_order_comparison_implies(&parse("x < 1"), &parse("y < 2"), &eq));
    assert!(literal_order_comparison_implies(&parse("4 <= x"), &parse("3 < y"), &eq));
    assert!(!literal_order_comparison_implies(&parse("x == 1"), &parse("y < 2"), &eq));
    assert!(!literal_order_comparison_implies(&parse("x < 1"), &parse("z < 2"), &eq));
}

#[test]
fn equality_pins_an_operand() {
    let (subject, value) = literal_equality_subject(&parse("x == 2")).unwrap();
    assert_eq!(subject, "x");
    assert_eq!(value, rational(2, 1));
    let (subject, value) = literal_equality_subject(&parse("0.5 == y")).unwrap();
    assert_eq!(subject, "y");
    assert_eq!(value, rational(1, 2));
    assert!(literal_equality_subject(&parse("x == y")).is_none());
}

#[test]
fn equality_implies_the_bounds_it_meets() {
    let eq = RepairEquivalences::new();
    assert!(literal_equality_implies_lower_bound(&parse("x == 2"), &parse("1 < x"), &eq));
    assert!(literal_equality_implies_lower_bound(&parse("x == 2"), &parse("2 <= x"), &eq));
    assert!(!literal_equality_implies_lower_bound(&parse("x == 2"), &parse("2 < x"), &eq));
    assert!(literal_equality_implies_upper_bound(&parse("x == 2"), &parse("x < 3"), &eq));
    assert!(!literal_equality_implies_upper_bound(&parse("x == 2"), &parse("x < 2"), &eq));
    assert!(literal_equality_implies_order_comparison(&parse("x == 2"), &parse("x <= 2"), &eq));
    assert!(literal_equality_implies_order_comparison(&parse("x == 2"), &parse("0 < x"), &eq));
    assert!(!literal_equality_implies_order_comparison(&parse("x < 2"), &parse("x < 3"), &eq));
    assert!(!literal_equality_implies_order_comparison(&parse("x == 2"), &parse("y < 3"), &eq));
}
