//! Implications that end in a disequality or in a disjunction of comparisons: a bound
//! excludes the constants beyond it, an equality with one constant excludes every other
//! constant, `x != c` means `x < c or c < x`, and `a <= b` means `a < b or a == b`.
use vstd::prelude::*;

use crate::bounds::{comparable, equality_subject, literal_equality_subject, literal_safe, order_operator, parsed_view, rational_below, rational_precedes, sides_safe};
use crate::decimal::RepairRational;
use crate::equivalences::{operand_safe, RepairEquivalences};
use crate::implication::{literal_comparison_truth, operands_equivalent, repair_operands_equivalent};
use crate::numeric::{literals_distinct, order_literal, repair_literals_are_distinct, repair_numeric_order_literal};
use crate::predicate_text::{parse_comparison_from, trim, ParsedRepairComparison};
use crate::text::str_eq;

verus! {

/// The constant `wanted` compares an operand equivalent to `operand` with: its right
/// side when its left side is equivalent to `operand`, else its left side when its
/// right side is, when that side reads as a constant.
pub open spec fn disequality_literal(gs: Seq<Seq<Seq<char>>>, wanted: (Seq<char>, Seq<char>, Seq<char>), operand: Seq<char>) -> Option<RepairRational> {
    if operands_equivalent(gs, wanted.0, operand) {
        order_literal(wanted.2)
    } else if operands_equivalent(gs, wanted.2, operand) {
        order_literal(wanted.0)
    } else {
        None
    }
}

/// Whether finding that constant stays clear of a lone `"`, in the order the reads are
/// made.
pub open spec fn disequality_literal_safe(gs: Seq<Seq<Seq<char>>>, wanted: (Seq<char>, Seq<char>, Seq<char>), operand: Seq<char>) -> bool {
    operand_safe(wanted.0) && operand_safe(operand) && if operands_equivalent(gs, wanted.0, operand) {
        literal_safe(wanted.2)
    } else {
        operand_safe(wanted.2) && (operands_equivalent(gs, wanted.2, operand) ==> literal_safe(wanted.0))
    }
}

/// The constant `wanted` compares an operand equivalent to `operand` with.
pub fn repair_disequality_literal_for_operand(wanted: &ParsedRepairComparison, operand: &str, equivalences: &RepairEquivalences) -> (r: Option<RepairRational>)
    requires
        disequality_literal_safe(equivalences.view_groups(), parsed_view(wanted), operand@),
    ensures
        r == disequality_literal(equivalences.view_groups(), parsed_view(wanted), operand@),
{
    if repair_operands_equivalent(wanted.left.as_str(), operand, equivalences) {
        return repair_numeric_order_literal(wanted.right.as_str());
    }
    if repair_operands_equivalent(wanted.right.as_str(), operand, equivalences) {
        return repair_numeric_order_literal(wanted.left.as_str());
    }
    None
}

/// Whether the lower bound `c op x` excludes the constant `wanted` compares an
/// equivalent of `x` with: that constant is below `c`, or equal to it under `<`.
pub open spec fn lower_excludes(gs: Seq<Seq<Seq<char>>>, required: (Seq<char>, Seq<char>, Seq<char>), wanted: (Seq<char>, Seq<char>, Seq<char>)) -> bool {
    match order_literal(required.0) {
        Some(q) => match disequality_literal(gs, wanted, required.2) {
            Some(w) => rational_below(w, q) || (!rational_below(q, w) && required.1 == "<"@),
            None => false,
        },
        None => false,
    }
}

/// Whether the upper bound `x op c` excludes the constant `wanted` compares an
/// equivalent of `x` with: that constant is above `c`, or equal to it under `<`.
pub open spec fn upper_excludes(gs: Seq<Seq<Seq<char>>>, required: (Seq<char>, Seq<char>, Seq<char>), wanted: (Seq<char>, Seq<char>, Seq<char>)) -> bool {
    match order_literal(required.2) {
        Some(q) => match disequality_literal(gs, wanted, required.0) {
            Some(w) => rational_below(q, w) || (!rational_below(w, q) && required.1 == "<"@),
            None => false,
        },
        None => false,
    }
}

/// Whether checking a bound against a disequality stays clear of a lone `"` and of an
/// overflowing comparison: the bound's constant, then the disequality's, then their
/// comparison.
pub open spec fn excludes_safe(gs: Seq<Seq<Seq<char>>>, bound_literal: Seq<char>, bound_operand: Seq<char>, wanted: (Seq<char>, Seq<char>, Seq<char>)) -> bool {
    literal_safe(bound_literal) && (order_literal(bound_literal) matches Some(q) ==> disequality_literal_safe(gs, wanted, bound_operand)
        && (disequality_literal(gs, wanted, bound_operand) matches Some(w) ==> comparable(w, q)))
}

/// Whether the lower bound `c op x` implies the disequality `wanted`.
pub fn literal_lower_bound_implies_disequality(required: &ParsedRepairComparison, wanted: &ParsedRepairComparison, equivalences: &RepairEquivalences) -> (r: bool)
    requires
        excludes_safe(equivalences.view_groups(), required.left@, required.right@, parsed_view(wanted)),
    ensures
        r == lower_excludes(equivalences.view_groups(), parsed_view(required), parsed_view(wanted)),
{
    proof { reveal_strlit("<"); }
    let q = match repair_numeric_order_literal(required.left.as_str()) {
        Some(q) => q,
        None => return false,
    };
    let w = match repair_disequality_literal_for_operand(wanted, required.right.as_str(), equivalences) {
        Some(w) => w,
        None => return false,
    };
    if rational_precedes(w, q) {
        true
    } else if rational_precedes(q, w) {
        false
    } else {
        str_eq(required.operator, "<")
    }
}

/// Whether the upper bound `x op c` implies the disequality `wanted`.
pub fn literal_upper_bound_implies_disequality(required: &ParsedRepairComparison, wanted: &ParsedRepairComparison, equivalences: &RepairEquivalences) -> (r: bool)
    requires
        excludes_safe(equivalences.view_groups(), required.right@, required.left@, parsed_view(wanted)),
    ensures
        r == upper_excludes(equivalences.view_groups(), parsed_view(required), parsed_view(wanted)),
{
    proof { reveal_strlit("<"); }
    let q = match repair_numeric_order_literal(required.right.as_str()) {
        Some(q) => q,
        None => return false,
    };
    let w = match repair_disequality_literal_for_operand(wanted, required.left.as_str(), equivalences) {
        Some(w) => w,
        None => return false,
    };
    if rational_precedes(q, w) {
        true
    } else if rational_precedes(w, q) {
        false
    } else {
        str_eq(required.operator, "<")
    }
}

/// Whether a bound on an operand implies a disequality of it with a constant.
pub open spec fn bound_excludes(gs: Seq<Seq<Seq<char>>>, required: (Seq<char>, Seq<char>, Seq<char>), wanted: (Seq<char>, Seq<char>, Seq<char>)) -> bool {
    order_operator(required.1) && wanted.1 == "!="@ && (lower_excludes(gs, required, wanted) || upper_excludes(gs, required, wanted))
}

/// Whether the bound-to-disequality check stays clear of a lone `"` and of an
/// overflowing comparison.
pub open spec fn bound_excludes_safe(gs: Seq<Seq<Seq<char>>>, required: (Seq<char>, Seq<char>, Seq<char>), wanted: (Seq<char>, Seq<char>, Seq<char>)) -> bool {
    (order_operator(required.1) && wanted.1 == "!="@) ==> (excludes_safe(gs, required.0, required.2, wanted)
        && (!lower_excludes(gs, required, wanted) ==> excludes_safe(gs, required.2, required.0, wanted)))
}

/// Whether a bound on an operand implies a disequality of it with a constant.
pub fn literal_bound_implies_disequality(required: &ParsedRepairComparison, wanted: &ParsedRepairComparison, equivalences: &RepairEquivalences) -> (r: bool)
    requires
        bound_excludes_safe(equivalences.view_groups(), parsed_view(required), parsed_view(wanted)),
    ensures
        r == bound_excludes(equivalences.view_groups(), parsed_view(required), parsed_view(wanted)),
{
    proof {
        reveal_strlit("<");
        reveal_strlit("<=");
        reveal_strlit("!=");
    }
    if !(str_eq(required.operator, "<") || str_eq(required.operator, "<=")) || !str_eq(wanted.operator, "!=") {
        return false;
    }
    literal_lower_bound_implies_disequality(required, wanted, equivalences)
        || literal_upper_bound_implies_disequality(required, wanted, equivalences)
}

/// The operand a comparison with a constant compares, and the constant.
pub fn numeric_literal_comparison_side(comparison: &ParsedRepairComparison) -> (r: Option<(String, RepairRational)>)
    requires
        sides_safe(parsed_view(comparison)),
    ensures
        match r {
            Some((s, q)) => equality_subject(parsed_view(comparison)) == Some((s@, q)),
            None => equality_subject(parsed_view(comparison)) is None,
        },
{
    literal_equality_subject(comparison)
}

/// Whether `subject == value` excludes the constant `wanted` compares an equivalent
/// of `subject` with: the two constants are known to differ.
pub open spec fn side_excludes(gs: Seq<Seq<Seq<char>>>, subject: Seq<char>, value: Seq<char>, wanted_left: Seq<char>, wanted_right: Seq<char>) -> bool {
    if operands_equivalent(gs, subject, wanted_left) {
        literals_distinct(value, wanted_right)
    } else if operands_equivalent(gs, subject, wanted_right) {
        literals_distinct(value, wanted_left)
    } else {
        false
    }
}

/// Whether that check stays clear of a lone `"`.
pub open spec fn side_excludes_safe(gs: Seq<Seq<Seq<char>>>, subject: Seq<char>, value: Seq<char>, wanted_left: Seq<char>, wanted_right: Seq<char>) -> bool {
    operand_safe(subject) && operand_safe(wanted_left) && if operands_equivalent(gs, subject, wanted_left) {
        literal_safe(value) && literal_safe(wanted_right)
    } else {
        operand_safe(wanted_right) && (operands_equivalent(gs, subject, wanted_right) ==> literal_safe(value) && literal_safe(wanted_left))
    }
}

/// Whether `subject == value` excludes the constant the wanted disequality names.
pub fn equality_side_excludes_wanted_literal(
    required_subject: &str,
    required_value: &str,
    wanted_left: &str,
    wanted_right: &str,
    equivalences: &RepairEquivalences,
) -> (r: bool)
    requires
        side_excludes_safe(equivalences.view_groups(), required_subject@, required_value@, wanted_left@, wanted_right@),
    ensures
        r == side_excludes(equivalences.view_groups(), required_subject@, required_value@, wanted_left@, wanted_right@),
{
    if repair_operands_equivalent(required_subject, wanted_left, equivalences) {
        return repair_literals_are_distinct(required_value, wanted_right);
    }
    if repair_operands_equivalent(required_subject, wanted_right, equivalences) {
        return repair_literals_are_distinct(required_value, wanted_left);
    }
    false
}

/// Whether the equality `required` implies the disequality `wanted`: one side of the
/// equality is an operand the disequality compares with a constant different from the
/// equality's other side.
pub open spec fn equality_excludes(gs: Seq<Seq<Seq<char>>>, required: (Seq<char>, Seq<char>, Seq<char>), wanted: (Seq<char>, Seq<char>, Seq<char>)) -> bool {
    required.1 == "=="@ && wanted.1 == "!="@ && (side_excludes(gs, required.0, required.2, wanted.0, wanted.2)
        || side_excludes(gs, required.2, required.0, wanted.0, wanted.2))
}

/// Whether that check stays clear of a lone `"`.
pub open spec fn equality_excludes_safe(gs: Seq<Seq<Seq<char>>>, required: (Seq<char>, Seq<char>, Seq<char>), wanted: (Seq<char>, Seq<char>, Seq<char>)) -> bool {
    (required.1 == "=="@ && wanted.1 == "!="@) ==> (side_excludes_safe(gs, required.0, required.2, wanted.0, wanted.2)
        && (!side_excludes(gs, required.0, required.2, wanted.0, wanted.2) ==> side_excludes_safe(gs, required.2, required.0, wanted.0, wanted.2)))
}

/// Whether `required_left required_operator required_right`, an equality, implies the
/// disequality `wanted_left wanted_operator wanted_right`.
pub fn equality_with_distinct_literal_implies_disequality(
    required_left: &str,
    required_operator: &str,
    required_right: &str,
    wanted_left: &str,
    wanted_operator: &str,
    wanted_right: &str,
    equivalences: &RepairEquivalences,
) -> (r: bool)
    requires
        equality_excludes_safe(equivalences.view_groups(), (required_left@, required_operator@, required_right@), (wanted_left@, wanted_operator@, wanted_right@)),
    ensures
        r == equality_excludes(equivalences.view_groups(), (required_left@, required_operator@, required_right@), (wanted_left@, wanted_operator@, wanted_right@)),
{
    proof {
        reveal_strlit("==");
        reveal_strlit("!=");
    }
    if !str_eq(required_operator, "==") || !str_eq(wanted_operator, "!=") {
        return false;
    }
    equality_side_excludes_wanted_literal(required_left, required_right, wanted_left, wanted_right, equivalences)
        || equality_side_excludes_wanted_literal(required_right, required_left, wanted_left, wanted_right, equivalences)
}

/// The split of a clause at its comparison operator.
pub open spec fn parsed_comparison(text: Seq<char>) -> Option<(Seq<char>, Seq<char>, Seq<char>)> {
    parse_comparison_from(text, 0)
}

/// Whether the disjunct `w` is `x < c` for an `x` equivalent to `subject`.
pub open spec fn below_side(gs: Seq<Seq<Seq<char>>>, w: Seq<char>, subject: Seq<char>, excluded: RepairRational) -> bool {
    match parsed_comparison(w) {
        Some(c) => c.1 == "<"@ && operands_equivalent(gs, c.0, subject) && order_literal(c.2) == Some(excluded),
        None => false,
    }
}

/// Whether the disjunct `w` is `c < x` for an `x` equivalent to `subject`.
pub open spec fn above_side(gs: Seq<Seq<Seq<char>>>, w: Seq<char>, subject: Seq<char>, excluded: RepairRational) -> bool {
    match parsed_comparison(w) {
        Some(c) => c.1 == "<"@ && order_literal(c.0) == Some(excluded) && operands_equivalent(gs, c.2, subject),
        None => false,
    }
}

/// Whether `x != c` implies the disjunction: one disjunct is `x < c` and one is
/// `c < x`, for operands equivalent to `x`.
pub open spec fn ordering_disjunction(gs: Seq<Seq<Seq<char>>>, required: Seq<char>, ws: Seq<Seq<char>>) -> bool {
    match parsed_comparison(required) {
        Some(c) => c.1 == "!="@ && match equality_subject(c) {
            Some((subject, excluded)) => (exists|i: int| 0 <= i < ws.len() && below_side(gs, #[trigger] ws[i], subject, excluded))
                && (exists|i: int| 0 <= i < ws.len() && above_side(gs, #[trigger] ws[i], subject, excluded)),
            None => false,
        },
        None => false,
    }
}

/// Whether reading the disjunct `w` against `subject` and `excluded` stays clear of a
/// lone `"`.
pub open spec fn side_read_safe(gs: Seq<Seq<Seq<char>>>, w: Seq<char>, subject: Seq<char>, excluded: RepairRational) -> bool {
    match parsed_comparison(w) {
        Some(c) => c.1 == "<"@ ==> {
            &&& operand_safe(c.0) && operand_safe(subject)
            &&& operands_equivalent(gs, c.0, subject) ==> literal_safe(c.2)
            &&& literal_safe(c.0)
            &&& order_literal(c.0) == Some(excluded) ==> operand_safe(c.2)
        },
        None => true,
    }
}

/// Whether the disequality-to-disjunction check stays clear of a lone `"`.
pub open spec fn ordering_disjunction_safe(gs: Seq<Seq<Seq<char>>>, required: Seq<char>, ws: Seq<Seq<char>>) -> bool {
    match parsed_comparison(required) {
        Some(c) => c.1 == "!="@ ==> sides_safe(c) && match equality_subject(c) {
            Some((subject, excluded)) => forall|i: int| 0 <= i < ws.len() ==> side_read_safe(gs, #[trigger] ws[i], subject, excluded),
            None => true,
        },
        None => true,
    }
}

/// Whether the disequality `required` of an operand with a constant implies the
/// disjunction `wanted_disjuncts`, which then holds both orderings of the two.
pub fn disequality_implies_numeric_ordering_disjunction(required: &str, wanted_disjuncts: &Vec<String>, equivalences: &RepairEquivalences) -> (r: bool)
    requires
        ordering_disjunction_safe(equivalences.view_groups(), required@, wanted_disjuncts.deep_view()),
    ensures
        r == ordering_disjunction(equivalences.view_groups(), required@, wanted_disjuncts.deep_view()),
{
    proof {
        reveal_strlit("!=");
        reveal_strlit("<");
    }
    let ghost gs = equivalences.view_groups();
    let ghost ws = wanted_disjuncts.deep_view();
    let required = match ParsedRepairComparison::parse(required) {
        Some(c) => c,
        None => return false,
    };
    if !str_eq(required.operator, "!=") {
        return false;
    }
    let (subject, excluded) = match numeric_literal_comparison_side(&required) {
        Some(x) => x,
        None => return false,
    };
    let mut has_lower_side = false;
    let mut has_upper_side = false;
    let mut i: usize = 0;
    while i < wanted_disjuncts.len()
        invariant
            0 <= i <= ws.len(),
            ws == wanted_disjuncts.deep_view(),
            gs == equivalences.view_groups(),
            forall|k: int| 0 <= k < ws.len() ==> side_read_safe(gs, #[trigger] ws[k], subject@, excluded),
            has_lower_side == exists|k: int| 0 <= k < i && below_side(gs, #[trigger] ws[k], subject@, excluded),
            has_upper_side == exists|k: int| 0 <= k < i && above_side(gs, #[trigger] ws[k], subject@, excluded),
        decreases wanted_disjuncts.len() - i,
    {
        assert(ws[i as int] == wanted_disjuncts@[i as int]@);
        assert(side_read_safe(gs, ws[i as int], subject@, excluded));
        match ParsedRepairComparison::parse(wanted_disjuncts[i].as_str()) {
            Some(wanted) => {
                if str_eq(wanted.operator, "<") {
                    if repair_operands_equivalent(wanted.left.as_str(), subject.as_str(), equivalences)
                        && repair_numeric_order_literal(wanted.right.as_str()) == Some(excluded) {
                        has_lower_side = true;
                    }
                    if repair_numeric_order_literal(wanted.left.as_str()) == Some(excluded)
                        && repair_operands_equivalent(wanted.right.as_str(), subject.as_str(), equivalences) {
                        has_upper_side = true;
                    }
                }
            },
            None => {},
        }
        proof {
            assert forall|k: int| 0 <= k < i + 1 && below_side(gs, #[trigger] ws[k], subject@, excluded) implies has_lower_side by {
                if k < i {
                    assert(exists|k: int| 0 <= k < i && below_side(gs, #[trigger] ws[k], subject@, excluded));
                }
            }
            assert forall|k: int| 0 <= k < i + 1 && above_side(gs, #[trigger] ws[k], subject@, excluded) implies has_upper_side by {
                if k < i {
                    assert(exists|k: int| 0 <= k < i && above_side(gs, #[trigger] ws[k], subject@, excluded));
                }
            }
            if has_lower_side && !(exists|k: int| 0 <= k < i && below_side(gs, #[trigger] ws[k], subject@, excluded)) {
                assert(below_side(gs, ws[i as int], subject@, excluded));
            }
            if has_upper_side && !(exists|k: int| 0 <= k < i && above_side(gs, #[trigger] ws[k], subject@, excluded)) {
                assert(above_side(gs, ws[i as int], subject@, excluded));
            }
        }
        i += 1;
    }
    has_lower_side && has_upper_side
}

/// Whether the disjunct `w` is `a < b` for operands equivalent to `a` and `b` in order.
pub open spec fn strict_side(gs: Seq<Seq<Seq<char>>>, w: Seq<char>, a: Seq<char>, b: Seq<char>) -> bool {
    match parsed_comparison(w) {
        Some(c) => operands_equivalent(gs, a, c.0) && operands_equivalent(gs, b, c.2) && c.1 == "<"@,
        None => false,
    }
}

/// Whether the disjunct `w` is `a == b` for operands equivalent to `a` and `b` in
/// either order.
pub open spec fn equality_side(gs: Seq<Seq<Seq<char>>>, w: Seq<char>, a: Seq<char>, b: Seq<char>) -> bool {
    match parsed_comparison(w) {
        Some(c) => ((operands_equivalent(gs, a, c.0) && operands_equivalent(gs, b, c.2))
            || (operands_equivalent(gs, a, c.2) && operands_equivalent(gs, b, c.0))) && c.1 == "=="@,
        None => false,
    }
}

/// Whether `a <= b` implies the disjunction: one disjunct is `a < b` and one is
/// `a == b`, up to equivalent operands.
pub open spec fn order_or_equality(gs: Seq<Seq<Seq<char>>>, required: Seq<char>, ws: Seq<Seq<char>>) -> bool {
    match parsed_comparison(required) {
        Some(c) => c.1 == "<="@
            && (exists|i: int| 0 <= i < ws.len() && strict_side(gs, #[trigger] ws[i], c.0, c.2))
            && (exists|i: int| 0 <= i < ws.len() && equality_side(gs, #[trigger] ws[i], c.0, c.2)),
        None => false,
    }
}

/// Whether comparing the operands of `a op b` with those of the disjunct `w` stays
/// clear of a lone `"`.
pub open spec fn pair_read_safe(gs: Seq<Seq<Seq<char>>>, w: Seq<char>, a: Seq<char>, b: Seq<char>) -> bool {
    parsed_comparison(w) matches Some(c) ==> {
        &&& crate::implication::ordered_safe(gs, a, b, c.0, c.2)
        &&& !(operands_equivalent(gs, a, c.0) && operands_equivalent(gs, b, c.2)) ==> crate::implication::ordered_safe(gs, a, b, c.2, c.0)
    }
}

/// Whether the bound-to-disjunction check stays clear of a lone `"`.
pub open spec fn order_or_equality_safe(gs: Seq<Seq<Seq<char>>>, required: Seq<char>, ws: Seq<Seq<char>>) -> bool {
    match parsed_comparison(required) {
        Some(c) => c.1 == "<="@ ==> forall|i: int| 0 <= i < ws.len() ==> pair_read_safe(gs, #[trigger] ws[i], c.0, c.2),
        None => true,
    }
}

/// Whether the inclusive bound `required` implies the disjunction `wanted_disjuncts`,
/// which then holds its strict form and its equality.
pub fn inclusive_bound_implies_order_or_equality_disjunction(required: &str, wanted_disjuncts: &Vec<String>, equivalences: &RepairEquivalences) -> (r: bool)
    requires
        order_or_equality_safe(equivalences.view_groups(), required@, wanted_disjuncts.deep_view()),
    ensures
        r == order_or_equality(equivalences.view_groups(), required@, wanted_disjuncts.deep_view()),
{
    proof {
        reveal_strlit("<=");
        reveal_strlit("<");
        reveal_strlit("==");
    }
    let ghost gs = equivalences.view_groups();
    let ghost ws = wanted_disjuncts.deep_view();
    let required = match ParsedRepairComparison::parse(required) {
        Some(c) => c,
        None => return false,
    };
    if !str_eq(required.operator, "<=") {
        return false;
    }
    let ghost (a, b) = (required.left@, required.right@);
    let mut has_strict_side = false;
    let mut has_equality_side = false;
    let mut i: usize = 0;
    while i < wanted_disjuncts.len()
        invariant
            0 <= i <= ws.len(),
            ws == wanted_disjuncts.deep_view(),
            gs == equivalences.view_groups(),
            a == required.left@,
            b == required.right@,
            forall|k: int| 0 <= k < ws.len() ==> pair_read_safe(gs, #[trigger] ws[k], a, b),
            has_strict_side == exists|k: int| 0 <= k < i && strict_side(gs, #[trigger] ws[k], a, b),
            has_equality_side == exists|k: int| 0 <= k < i && equality_side(gs, #[trigger] ws[k], a, b),
        decreases wanted_disjuncts.len() - i,
    {
        assert(ws[i as int] == wanted_disjuncts@[i as int]@);
        assert(pair_read_safe(gs, ws[i as int], a, b));
        match ParsedRepairComparison::parse(wanted_disjuncts[i].as_str()) {
            Some(wanted) => {
                if crate::implication::repair_operands_equivalent_ordered(required.left.as_str(), required.right.as_str(),
                    wanted.left.as_str(), wanted.right.as_str(), equivalences) && str_eq(wanted.operator, "<") {
                    has_strict_side = true;
                }
                if crate::implication::repair_operands_equivalent_unordered(required.left.as_str(), required.right.as_str(),
                    wanted.left.as_str(), wanted.right.as_str(), equivalences) && str_eq(wanted.operator, "==") {
                    has_equality_side = true;
                }
            },
            None => {},
        }
        proof {
            assert forall|k: int| 0 <= k < i + 1 && strict_side(gs, #[trigger] ws[k], a, b) implies has_strict_side by {
                if k < i {
                    assert(exists|k: int| 0 <= k < i && strict_side(gs, #[trigger] ws[k], a, b));
                }
            }
            assert forall|k: int| 0 <= k < i + 1 && equality_side(gs, #[trigger] ws[k], a, b) implies has_equality_side by {
                if k < i {
                    assert(exists|k: int| 0 <= k < i && equality_side(gs, #[trigger] ws[k], a, b));
                }
            }
            if has_strict_side && !(exists|k: int| 0 <= k < i && strict_side(gs, #[trigger] ws[k], a, b)) {
                assert(strict_side(gs, ws[i as int], a, b));
            }
            if has_equality_side && !(exists|k: int| 0 <= k < i && equality_side(gs, #[trigger] ws[k], a, b)) {
                assert(equality_side(gs, ws[i as int], a, b));
            }
        }
        i += 1;
    }
    has_strict_side && has_equality_side
}

/// The truth value a clause gives an operand equivalent to `operand`: the clause
/// compares an atom with a boolean literal, and that atom is equivalent to `operand`.
pub open spec fn clause_value(gs: Seq<Seq<Seq<char>>>, clause: Seq<char>, operand: Seq<char>) -> Option<bool> {
    match parsed_comparison(clause) {
        Some(c) => match literal_comparison_truth(c.0, c.1, c.2) {
            Some((a, t)) => if operands_equivalent(gs, a, operand) { Some(t) } else { None },
            None => None,
        },
        None => None,
    }
}

/// Whether reading that truth value stays clear of a lone `"`.
pub open spec fn clause_value_safe(gs: Seq<Seq<Seq<char>>>, clause: Seq<char>, operand: Seq<char>) -> bool {
    match parsed_comparison(clause) {
        Some(c) => c.0 != seq!['"'] && c.2 != seq!['"'] && match literal_comparison_truth(c.0, c.1, c.2) {
            Some((a, _)) => operand_safe(a) && operand_safe(operand),
            None => true,
        },
        None => true,
    }
}

/// The truth value the first of `cs[0..n]` that gives one gives `operand`.
pub open spec fn first_value(gs: Seq<Seq<Seq<char>>>, cs: Seq<Seq<char>>, operand: Seq<char>, n: int) -> Option<bool>
    decreases n,
{
    if n <= 0 {
        None
    } else {
        match first_value(gs, cs, operand, n - 1) {
            Some(v) => Some(v),
            None => clause_value(gs, cs[n - 1], operand),
        }
    }
}

/// Whether looking for that truth value stays clear of a lone `"`: each clause read
/// before one gives a value is safe to read.
pub open spec fn first_value_safe(gs: Seq<Seq<Seq<char>>>, cs: Seq<Seq<char>>, operand: Seq<char>) -> bool {
    forall|i: int| 0 <= i < cs.len() && first_value(gs, cs, operand, i) is None ==> clause_value_safe(gs, #[trigger] cs[i], operand)
}

proof fn lemma_first_value_stable(gs: Seq<Seq<Seq<char>>>, cs: Seq<Seq<char>>, operand: Seq<char>, m: int, n: int)
    requires
        0 <= m <= n,
        first_value(gs, cs, operand, m) is Some,
    ensures
        first_value(gs, cs, operand, n) == first_value(gs, cs, operand, m),
    decreases n - m,
{
    if m < n {
        lemma_first_value_stable(gs, cs, operand, m, n - 1);
    }
}

/// The truth value the required clauses give an operand equivalent to `operand`, from
/// the first clause that compares such an operand with a boolean literal.
pub fn boolean_literal_value_for_operand(required_clauses: &Vec<String>, operand: &str, equivalences: &RepairEquivalences) -> (r: Option<bool>)
    requires
        first_value_safe(equivalences.view_groups(), required_clauses.deep_view(), operand@),
    ensures
        r == first_value(equivalences.view_groups(), required_clauses.deep_view(), operand@, required_clauses@.len() as int),
{
    let ghost gs = equivalences.view_groups();
    let ghost cs = required_clauses.deep_view();
    let mut i: usize = 0;
    while i < required_clauses.len()
        invariant
            0 <= i <= cs.len(),
            cs == required_clauses.deep_view(),
            gs == equivalences.view_groups(),
            first_value_safe(gs, cs, operand@),
            first_value(gs, cs, operand@, i as int) is None,
        decreases required_clauses.len() - i,
    {
        assert(cs[i as int] == required_clauses@[i as int]@);
        assert(clause_value_safe(gs, cs[i as int], operand@));
        if let Some(required) = ParsedRepairComparison::parse(required_clauses[i].as_str()) {
            if let Some((atom, truth)) = crate::implication::boolean_literal_comparison_truth(&required) {
                if repair_operands_equivalent(atom.as_str(), operand, equivalences) {
                    proof { lemma_first_value_stable(gs, cs, operand@, i + 1, cs.len() as int); }
                    return Some(truth);
                }
            }
        }
        i += 1;
    }
    None
}

/// Whether the required disequality `clause` makes the wanted comparison hold: it
/// sets apart an atom equivalent to the wanted atom from an operand the required
/// clauses give the opposite truth.
pub open spec fn alias_holds(gs: Seq<Seq<Seq<char>>>, cs: Seq<Seq<char>>, clause: Seq<char>, wanted_atom: Seq<char>, wanted_truth: bool) -> bool {
    match parsed_comparison(clause) {
        Some(c) => c.1 == "!="@ && if operands_equivalent(gs, c.0, wanted_atom) {
            first_value(gs, cs, c.2, cs.len() as int) == Some(!wanted_truth)
        } else if operands_equivalent(gs, c.2, wanted_atom) {
            first_value(gs, cs, c.0, cs.len() as int) == Some(!wanted_truth)
        } else {
            false
        },
        None => false,
    }
}

/// Whether checking one required clause that way stays clear of a lone `"`.
pub open spec fn alias_safe(gs: Seq<Seq<Seq<char>>>, cs: Seq<Seq<char>>, clause: Seq<char>, wanted_atom: Seq<char>) -> bool {
    match parsed_comparison(clause) {
        Some(c) => c.1 == "!="@ ==> operand_safe(c.0) && operand_safe(wanted_atom) && if operands_equivalent(gs, c.0, wanted_atom) {
            first_value_safe(gs, cs, c.2)
        } else {
            operand_safe(c.2) && (operands_equivalent(gs, c.2, wanted_atom) ==> first_value_safe(gs, cs, c.0))
        },
        None => true,
    }
}

/// Whether a required disequality of a boolean atom with an operand of known truth
/// implies the wanted comparison of the atom with a boolean literal.
pub open spec fn alias_implies(gs: Seq<Seq<Seq<char>>>, cs: Seq<Seq<char>>, wanted: (Seq<char>, Seq<char>, Seq<char>)) -> bool {
    match literal_comparison_truth(wanted.0, wanted.1, wanted.2) {
        Some((w, t)) => exists|i: int| 0 <= i < cs.len() && alias_holds(gs, cs, #[trigger] cs[i], w, t),
        None => false,
    }
}

/// Whether that check stays clear of a lone `"`: each clause read before one that
/// holds is safe to read.
pub open spec fn alias_implies_safe(gs: Seq<Seq<Seq<char>>>, cs: Seq<Seq<char>>, wanted: (Seq<char>, Seq<char>, Seq<char>)) -> bool {
    wanted.0 != seq!['"'] && wanted.2 != seq!['"'] && match literal_comparison_truth(wanted.0, wanted.1, wanted.2) {
        Some((w, t)) => forall|i: int| 0 <= i < cs.len() && (forall|j: int| 0 <= j < i ==> !alias_holds(gs, cs, #[trigger] cs[j], w, t))
            ==> alias_safe(gs, cs, #[trigger] cs[i], w),
        None => true,
    }
}

/// Whether a required disequality between the wanted atom and an operand the required
/// clauses fix to the opposite truth implies the wanted comparison with a boolean.
pub fn boolean_disequality_alias_implies_comparison(required_clauses: &Vec<String>, wanted: &ParsedRepairComparison, equivalences: &RepairEquivalences) -> (r: bool)
    requires
        alias_implies_safe(equivalences.view_groups(), required_clauses.deep_view(), parsed_view(wanted)),
    ensures
        r == alias_implies(equivalences.view_groups(), required_clauses.deep_view(), parsed_view(wanted)),
{
    proof { reveal_strlit("!="); }
    let ghost gs = equivalences.view_groups();
    let ghost cs = required_clauses.deep_view();
    let (wanted_atom, wanted_truth) = match crate::implication::boolean_literal_comparison_truth(wanted) {
        Some(x) => x,
        None => return false,
    };
    let mut i: usize = 0;
    while i < required_clauses.len()
        invariant
            0 <= i <= cs.len(),
            cs == required_clauses.deep_view(),
            gs == equivalences.view_groups(),
            alias_implies_safe(gs, cs, parsed_view(wanted)),
            literal_comparison_truth(wanted.left@, wanted.operator@, wanted.right@) == Some((wanted_atom@, wanted_truth)),
            forall|j: int| 0 <= j < i ==> !alias_holds(gs, cs, #[trigger] cs[j], wanted_atom@, wanted_truth),
        decreases required_clauses.len() - i,
    {
        assert(cs[i as int] == required_clauses@[i as int]@);
        assert(alias_safe(gs, cs, cs[i as int], wanted_atom@));
        let holds = match ParsedRepairComparison::parse(required_clauses[i].as_str()) {
            Some(required) => {
                if !str_eq(required.operator, "!=") {
                    false
                } else if repair_operands_equivalent(required.left.as_str(), wanted_atom.as_str(), equivalences) {
                    boolean_literal_value_for_operand(required_clauses, required.right.as_str(), equivalences) == Some(!wanted_truth)
                } else if repair_operands_equivalent(required.right.as_str(), wanted_atom.as_str(), equivalences) {
                    boolean_literal_value_for_operand(required_clauses, required.left.as_str(), equivalences) == Some(!wanted_truth)
                } else {
                    false
                }
            },
            None => false,
        };
        assert(holds == alias_holds(gs, cs, cs[i as int], wanted_atom@, wanted_truth));
        if holds {
            return true;
        }
        i += 1;
    }
    false
}

/// A lower bound excludes what the bound check says it excludes: when `c op x` holds
/// and the constant `w` is below `c`, or equal to it under `<`, then `x != w`, for
/// every rational `x`.
pub proof fn law_lower_bound_excludes(bound: RepairRational, op: Seq<char>, excluded: RepairRational, x_n: int, x_d: int)
    requires
        bound.denominator > 0,
        excluded.denominator > 0,
        x_d > 0,
        op == "<"@ || op == "<="@,
        crate::bounds::order_holds(bound.numerator as int, bound.denominator as int, op, x_n, x_d),
        rational_below(excluded, bound) || (!rational_below(bound, excluded) && op == "<"@),
    ensures
        x_n * (excluded.denominator as int) != (excluded.numerator as int) * x_d,
{
    let (qn, qd, wn, wd) = (bound.numerator as int, bound.denominator as int, excluded.numerator as int, excluded.denominator as int);
    assert(qn * x_d <= x_n * qd);
    if rational_below(excluded, bound) {
        assert(wn * x_d < x_n * wd) by (nonlinear_arith)
            requires
                wn * qd < qn * wd,
                qn * x_d <= x_n * qd,
                qd > 0,
                wd > 0,
                x_d > 0,
        ;
    } else {
        assert(wn * qd == qn * wd);
        assert(qn * x_d < x_n * qd);
        assert(wn * x_d < x_n * wd) by (nonlinear_arith)
            requires
                wn * qd == qn * wd,
                qn * x_d < x_n * qd,
                qd > 0,
                wd > 0,
        ;
    }
}

/// An upper bound excludes what the bound check says it excludes: when `x op c` holds
/// and the constant `w` is above `c`, or equal to it under `<`, then `x != w`, for
/// every rational `x`.
pub proof fn law_upper_bound_excludes(bound: RepairRational, op: Seq<char>, excluded: RepairRational, x_n: int, x_d: int)
    requires
        bound.denominator > 0,
        excluded.denominator > 0,
        x_d > 0,
        op == "<"@ || op == "<="@,
        crate::bounds::order_holds(x_n, x_d, op, bound.numerator as int, bound.denominator as int),
        rational_below(bound, excluded) || (!rational_below(excluded, bound) && op == "<"@),
    ensures
        x_n * (excluded.denominator as int) != (excluded.numerator as int) * x_d,
{
    let (qn, qd, wn, wd) = (bound.numerator as int, bound.denominator as int, excluded.numerator as int, excluded.denominator as int);
    assert(x_n * qd <= qn * x_d);
    if rational_below(bound, excluded) {
        assert(x_n * wd < wn * x_d) by (nonlinear_arith)
            requires
                qn * wd < wn * qd,
                x_n * qd <= qn * x_d,
                qd > 0,
                wd > 0,
                x_d > 0,
        ;
    } else {
        assert(wn * qd == qn * wd);
        assert(x_n * qd < qn * x_d);
        assert(x_n * wd < wn * x_d) by (nonlinear_arith)
            requires
                wn * qd == qn * wd,
                x_n * qd < qn * x_d,
                qd > 0,
                wd > 0,
        ;
    }
}

} // verus!
