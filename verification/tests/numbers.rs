use lib::clauses::{reflexive_expression_binding, reflexive_expression_operand, tautological_candidate_expression};
use lib::decimal::{checked_pow10, parse_repair_number_literal, repair_divisor_scale, repair_gcd_i128, RepairNumber, RepairRational};
use lib::numeric::{
    compact_direct_repair_expression_text, is_repair_atom_text, operator_is_binary, parse_repair_string_literal,
    repair_literals_are_distinct, repair_numeric_expression, repair_numeric_literal, repair_numeric_order_literal,
    repair_numeric_rational_expression, split_repair_numeric_operator, strip_redundant_repair_atom_parens, RepairLiteral,
};

fn num(mantissa: i128, scale: u32) -> RepairNumber {
    RepairNumber { mantissa, scale }
}

fn parts(n: Option<RepairNumber>) -> Option<(i128, u32)> {
    n.map(|n| (n.mantissa, n.scale))
}

fn ratio(q: Option<RepairRational>) -> Option<(i128, i128)> {
    q.map(|q| (q.numerator, q.denominator))
}

#[test]
fn number_literals() {
    assert_eq!(parts(parse_repair_number_literal("12.50")), Some((125, 1)));
    assert_eq!(parts(parse_repair_number_literal("-0.5")), Some((-5, 1)));
    assert_eq!(parts(parse_repair_number_literal("- 3")), Some((-3, 0)));
    assert_eq!(parts(parse_repair_number_literal("100")), Some((100, 0)));
    assert_eq!(parts(parse_repair_number_literal("1.000")), Some((1, 0)));
    assert_eq!(parse_repair_number_literal("3."), None);
    assert_eq!(parse_repair_number_literal(".5"), None);
    assert_eq!(parse_repair_number_literal("1e5"), None);
    assert_eq!(parse_repair_number_literal(" 1"), None);
    assert_eq!(parts(parse_repair_number_literal("170141183460469231731687303715884105727")), Some((i128::MAX, 0)));
    assert_eq!(parse_repair_number_literal("170141183460469231731687303715884105728"), None);
    assert_eq!(parts(parse_repair_number_literal("-170141183460469231731687303715884105728")), Some((i128::MIN, 0)));
}

#[test]
fn decimal_arithmetic_is_exact() {
    assert_eq!(parts(num(15, 1).add(num(225, 2))), Some((375, 2)));
    assert_eq!(parts(num(1, 0).sub(num(5, 1))), Some((5, 1)));
    assert_eq!(parts(num(15, 1).mul(num(15, 1))), Some((225, 2)));
    assert_eq!(parts(num(25, 1).add(num(25, 1))), Some((5, 0)));
    assert_eq!(parts(num(1, 0).div(num(4, 0))), Some((25, 2)));
    assert_eq!(parts(num(75, 1).div(num(25, 1))), Some((3, 0)));
    assert_eq!(parts(num(-1, 0).div(num(8, 0))), Some((-125, 3)));
    assert_eq!(parts(num(1, 0).div(num(-8, 0))), Some((-125, 3)));
    assert_eq!(num(1, 0).div(num(3, 0)), None);
    assert_eq!(num(1, 0).div(num(0, 0)), None);
    assert_eq!(num(i128::MAX, 0).add(num(1, 0)), None);
    assert_eq!(num(i128::MIN, 0).negate(), None);
    assert_eq!(parts(Some(RepairNumber::from_raw(1200, 3))), Some((12, 1)));
    assert_eq!(parts(Some(RepairNumber::from_raw(1200, 0))), Some((1200, 0)));
    assert_eq!(num(5, 1).scaled_mantissa(3), Some(500));
    assert_eq!(num(5, 1).scaled_mantissa(0), None);
}

#[test]
fn powers_and_common_divisors() {
    assert_eq!(checked_pow10(3), Some(1000));
    assert_eq!(checked_pow10(38), Some(100_000_000_000_000_000_000_000_000_000_000_000_000));
    assert_eq!(checked_pow10(39), None);
    assert_eq!(repair_divisor_scale(3, 2), Some(200));
    assert_eq!(repair_gcd_i128(12, -18), Some(6));
    assert_eq!(repair_gcd_i128(0, 7), Some(7));
    assert_eq!(repair_gcd_i128(0, 0), None);
    assert_eq!(repair_gcd_i128(i128::MIN, 1), None);
}

#[test]
fn rationals_stay_in_lowest_terms() {
    assert_eq!(ratio(RepairRational::from_raw(6, -4)), Some((-3, 2)));
    assert_eq!(RepairRational::from_raw(1, 0), None);
    let half = RepairRational::from_raw(1, 2).unwrap();
    let third = RepairRational::from_raw(1, 3).unwrap();
    assert_eq!(ratio(half.add(third)), Some((5, 6)));
    assert_eq!(ratio(half.sub(third)), Some((1, 6)));
    assert_eq!(ratio(half.mul(third)), Some((1, 6)));
    assert_eq!(ratio(half.div(third)), Some((3, 2)));
    assert_eq!(ratio(half.add_int(2)), Some((5, 2)));
    assert!(!half.is_integer());
    assert_eq!(ratio(RepairRational::from_number(num(125, 2))), Some((5, 4)));
    let zero = RepairRational::from_raw(0, 5).unwrap();
    assert_eq!(ratio(Some(zero)), Some((0, 1)));
    assert_eq!(half.div(zero), None);
}

#[test]
fn splitting_at_binary_operators() {
    assert_eq!(split_repair_numeric_operator("1 + 2 + 3", '+'), Some(("1 + 2".to_string(), "3".to_string())));
    assert_eq!(split_repair_numeric_operator("2 - -1", '-'), Some(("2".to_string(), "-1".to_string())));
    assert_eq!(split_repair_numeric_operator("(1 + 2)", '+'), None);
    assert_eq!(split_repair_numeric_operator("\"a+b\"", '+'), None);
    assert!(operator_is_binary("x", '+'));
    assert!(!operator_is_binary("x", '-'));
    assert!(operator_is_binary("3", '-'));
}

#[test]
fn constant_expressions() {
    assert_eq!(parts(repair_numeric_expression("(1 + 2) * 3")), Some((9, 0)));
    assert_eq!(parts(repair_numeric_expression("2 - -1")), Some((3, 0)));
    assert_eq!(parts(repair_numeric_expression("1/4")), Some((25, 2)));
    assert_eq!(parts(repair_numeric_expression("-(2)")), Some((-2, 0)));
    assert_eq!(repair_numeric_expression("1/3"), None);
    assert_eq!(repair_numeric_expression("x + 1"), None);
    assert_eq!(ratio(repair_numeric_rational_expression("1/3 + 1/6")), Some((1, 2)));
    assert_eq!(ratio(repair_numeric_order_literal("0.5")), Some((1, 2)));
    assert_eq!(parts(repair_numeric_literal(" 4 ")), Some((4, 0)));
}

#[test]
fn string_and_other_literals() {
    assert_eq!(parse_repair_string_literal("\"a\\\"b\""), Some("a\"b".to_string()));
    assert_eq!(parse_repair_string_literal("\"a\"b\""), None);
    assert_eq!(parse_repair_string_literal("\"ab\\\""), None);
    assert_eq!(parse_repair_string_literal("x"), None);
    assert!(matches!(RepairLiteral::parse("true"), Some(RepairLiteral::Bool(true))));
    assert!(matches!(RepairLiteral::parse("\"s\""), Some(RepairLiteral::String(ref s)) if s == "s"));
    assert!(RepairLiteral::parse("name").is_none());
    assert!(!repair_literals_are_distinct("1.0", "1"));
    assert!(repair_literals_are_distinct("1", "2"));
    assert!(repair_literals_are_distinct("\"a\"", "\"b\""));
    assert!(repair_literals_are_distinct("true", "1"));
    assert!(!repair_literals_are_distinct("x", "1"));
}

#[test]
fn atoms_and_direct_expressions() {
    assert!(is_repair_atom_text("a.b"));
    assert!(is_repair_atom_text("1 + 2"));
    assert!(!is_repair_atom_text("f(x)"));
    assert_eq!(strip_redundant_repair_atom_parens("f((x))+(1)"), "f(x)+1");
    assert_eq!(compact_direct_repair_expression_text("f( (x) ) + (1)"), "fx+1");
    assert_eq!(compact_direct_repair_expression_text("a + (b.c)"), "a+b.c");
}

#[test]
fn reflexive_expressions() {
    assert_eq!(reflexive_expression_binding("x + 1", "y + 1", "x"), Some("y".to_string()));
    assert_eq!(reflexive_expression_binding("x + 1", "y + z", "x"), None);
    assert_eq!(reflexive_expression_binding("x + 1", "x + 1", "x"), None);
    assert_eq!(reflexive_expression_operand("x + 1 == y + 1", "x", "=="), Some("y".to_string()));
    assert_eq!(reflexive_expression_operand("y + 1 <= x + 1", "x", "<="), Some("y".to_string()));
    assert!(tautological_candidate_expression("x + 1", "(x)+1", "x"));
    assert!(!tautological_candidate_expression("y + 1", "(y)+1", "x"));
}
