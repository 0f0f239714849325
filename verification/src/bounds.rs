//! Implications between comparisons of an operand with numeric constants: a tighter
//! bound implies a looser one, an equality implies the bounds it meets, and a bound
//! excludes the constants beyond it.
use vstd::prelude::*;

use crate::decimal::RepairRational;
use crate::equivalences::{operand_safe, RepairEquivalences};
use crate::implication::{operands_equivalent, repair_operands_equivalent};
use crate::numeric::{order_literal, repair_numeric_order_literal};
use crate::predicate_text::{trim, ParsedRepairComparison};
use crate::text::{str_eq, string_of};

verus! {

/// Whether `a < b` for rationals with positive denominators.
pub open spec fn rational_below(a: RepairRational, b: RepairRational) -> bool {
    a.numerator * b.denominator < b.numerator * a.denominator
}

/// Whether comparing `a` and `b` by cross products stays within `i128`.
pub open spec fn comparable(a: RepairRational, b: RepairRational) -> bool {
    i128::MIN <= a.numerator * b.denominator <= i128::MAX && i128::MIN <= b.numerator * a.denominator <= i128::MAX
}

/// Whether `a` comes before `b`, comparing cross products.
pub fn rational_precedes(a: RepairRational, b: RepairRational) -> (r: bool)
    requires
        comparable(a, b),
    ensures
        r == rational_below(a, b),
{
    let left = a.numerator * b.denominator;
    let right = b.numerator * a.denominator;
    left < right
}

/// Whether the bound `required` (with operator `required_op`) is at least as tight as
/// `wanted`: for a lower bound (`c op x`) the required constant is larger, for an upper
/// bound (`x op c`) smaller; for equal constants the required bound is strict or the
/// wanted one inclusive.
pub open spec fn bound_strength_implies(required: RepairRational, required_op: Seq<char>, wanted: RepairRational, wanted_op: Seq<char>, lower_bound: bool) -> bool {
    if rational_below(wanted, required) {
        lower_bound
    } else if rational_below(required, wanted) {
        !lower_bound
    } else {
        required_op == "<"@ || wanted_op == "<="@
    }
}

/// Whether the bound with constant `required_literal` is at least as tight as the
/// wanted one.
pub fn literal_order_strength_implies(
    required_literal: RepairRational,
    required_operator: &str,
    wanted_literal: RepairRational,
    wanted_operator: &str,
    lower_bound: bool,
) -> (r: bool)
    requires
        comparable(required_literal, wanted_literal),
    ensures
        r == bound_strength_implies(required_literal, required_operator@, wanted_literal, wanted_operator@, lower_bound),
{
    proof {
        reveal_strlit("<");
        reveal_strlit("<=");
    }
    if rational_precedes(wanted_literal, required_literal) {
        lower_bound
    } else if rational_precedes(required_literal, wanted_literal) {
        !lower_bound
    } else {
        str_eq(required_operator, "<") || str_eq(wanted_operator, "<=")
    }
}

/// Whether `a op b` holds between two rationals with positive denominators, for `op`
/// one of `<` and `<=`.
pub open spec fn order_holds(a_n: int, a_d: int, op: Seq<char>, b_n: int, b_d: int) -> bool {
    if op == "<"@ { a_n * b_d < b_n * a_d } else { a_n * b_d <= b_n * a_d }
}

/// A tighter lower bound implies a looser one: when `c1 op1 x` holds and the bound is at
/// least as tight as `c2 op2 x`, so does `c2 op2 x`, for every rational `x`.
pub proof fn law_lower_bound_sound(
    required: RepairRational,
    required_op: Seq<char>,
    wanted: RepairRational,
    wanted_op: Seq<char>,
    x_n: int,
    x_d: int,
)
    requires
        required.denominator > 0,
        wanted.denominator > 0,
        x_d > 0,
        required_op == "<"@ || required_op == "<="@,
        wanted_op == "<"@ || wanted_op == "<="@,
        bound_strength_implies(required, required_op, wanted, wanted_op, true),
        order_holds(required.numerator as int, required.denominator as int, required_op, x_n, x_d),
    ensures
        order_holds(wanted.numerator as int, wanted.denominator as int, wanted_op, x_n, x_d),
{
    let qn = required.numerator as int;
    let qd = required.denominator as int;
    let wn = wanted.numerator as int;
    let wd = wanted.denominator as int;
    assert(qn * x_d <= x_n * qd);
    if rational_below(wanted, required) {
        assert(wn * qd < qn * wd);
        assert(wn * x_d < x_n * wd) by (nonlinear_arith)
            requires
                wn * qd < qn * wd,
                qn * x_d <= x_n * qd,
                qd > 0,
                wd > 0,
                x_d > 0,
        ;
    } else {
        assert(wn * qd == qn * wd);
        if required_op == "<"@ {
            assert(qn * x_d < x_n * qd);
            assert(wn * x_d < x_n * wd) by (nonlinear_arith)
                requires
                    wn * qd == qn * wd,
                    qn * x_d < x_n * qd,
                    qd > 0,
                    wd > 0,
            ;
        } else {
            assert(wn * x_d <= x_n * wd) by (nonlinear_arith)
                requires
                    wn * qd == qn * wd,
                    qn * x_d <= x_n * qd,
                    qd > 0,
                    wd > 0,
            ;
        }
    }
}

/// A tighter upper bound implies a looser one: when `x op1 c1` holds and the bound is at
/// least as tight as `x op2 c2`, so does `x op2 c2`, for every rational `x`.
pub proof fn law_upper_bound_sound(
    required: RepairRational,
    required_op: Seq<char>,
    wanted: RepairRational,
    wanted_op: Seq<char>,
    x_n: int,
    x_d: int,
)
    requires
        required.denominator > 0,
        wanted.denominator > 0,
        x_d > 0,
        required_op == "<"@ || required_op == "<="@,
        wanted_op == "<"@ || wanted_op == "<="@,
        bound_strength_implies(required, required_op, wanted, wanted_op, false),
        order_holds(x_n, x_d, required_op, required.numerator as int, required.denominator as int),
    ensures
        order_holds(x_n, x_d, wanted_op, wanted.numerator as int, wanted.denominator as int),
{
    let qn = required.numerator as int;
    let qd = required.denominator as int;
    let wn = wanted.numerator as int;
    let wd = wanted.denominator as int;
    assert(x_n * qd <= qn * x_d);
    if rational_below(required, wanted) {
        assert(qn * wd < wn * qd);
        assert(x_n * wd < wn * x_d) by (nonlinear_arith)
            requires
                qn * wd < wn * qd,
                x_n * qd <= qn * x_d,
                qd > 0,
                wd > 0,
                x_d > 0,
        ;
    } else {
        assert(!rational_below(wanted, required));
        assert(wn * qd == qn * wd);
        if required_op == "<"@ {
            assert(x_n * qd < qn * x_d);
            assert(x_n * wd < wn * x_d) by (nonlinear_arith)
                requires
                    wn * qd == qn * wd,
                    x_n * qd < qn * x_d,
                    qd > 0,
                    wd > 0,
            ;
        } else {
            assert(x_n * wd <= wn * x_d) by (nonlinear_arith)
                requires
                    wn * qd == qn * wd,
                    x_n * qd <= qn * x_d,
                    qd > 0,
                    wd > 0,
            ;
        }
    }
}

/// The model of a parsed comparison: left operand, operator, right operand.
pub open spec fn parsed_view(c: &ParsedRepairComparison) -> (Seq<char>, Seq<char>, Seq<char>) {
    (c.left@, c.operator@, c.right@)
}

/// Whether reading `text` as a constant stays clear of a lone `"`.
pub open spec fn literal_safe(text: Seq<char>) -> bool {
    trim(text) != seq!['"']
}

/// Whether a lower bound `c1 op x` implies the lower bound `c2 op x` on an equivalent
/// operand: the required constant and the wanted one read, the operands the same, and
/// the required bound at least as tight.
pub open spec fn lower_bound_implies(gs: Seq<Seq<Seq<char>>>, required: (Seq<char>, Seq<char>, Seq<char>), wanted: (Seq<char>, Seq<char>, Seq<char>)) -> bool {
    match (order_literal(required.0), order_literal(wanted.0)) {
        (Some(q), Some(w)) => operands_equivalent(gs, required.2, wanted.2) && bound_strength_implies(q, required.1, w, wanted.1, true),
        _ => false,
    }
}

/// Whether an upper bound `x op c1` implies the upper bound `x op c2`.
pub open spec fn upper_bound_implies(gs: Seq<Seq<Seq<char>>>, required: (Seq<char>, Seq<char>, Seq<char>), wanted: (Seq<char>, Seq<char>, Seq<char>)) -> bool {
    match (order_literal(required.2), order_literal(wanted.2)) {
        (Some(q), Some(w)) => operands_equivalent(gs, required.0, wanted.0) && bound_strength_implies(q, required.1, w, wanted.1, false),
        _ => false,
    }
}

/// Whether the reads of a bound check stay clear of a lone `"` and of an overflowing
/// comparison, in the order they are made: the two constants, the operands, then the
/// comparison.
pub open spec fn bound_check_safe(gs: Seq<Seq<Seq<char>>>, required_lit: Seq<char>, wanted_lit: Seq<char>, required_operand: Seq<char>, wanted_operand: Seq<char>) -> bool {
    literal_safe(required_lit) && (order_literal(required_lit) is Some ==> literal_safe(wanted_lit)
        && (order_literal(wanted_lit) is Some ==> operand_safe(required_operand) && operand_safe(wanted_operand)
            && (operands_equivalent(gs, required_operand, wanted_operand)
                ==> comparable(order_literal(required_lit)->0, order_literal(wanted_lit)->0))))
}

/// Whether a lower bound on an operand implies another lower bound on it.
pub fn literal_lower_bound_implies(required: &ParsedRepairComparison, wanted: &ParsedRepairComparison, equivalences: &RepairEquivalences) -> (r: bool)
    requires
        bound_check_safe(equivalences.view_groups(), required.left@, wanted.left@, required.right@, wanted.right@),
    ensures
        r == lower_bound_implies(equivalences.view_groups(), parsed_view(required), parsed_view(wanted)),
{
    let q = match repair_numeric_order_literal(required.left.as_str()) {
        Some(q) => q,
        None => return false,
    };
    let w = match repair_numeric_order_literal(wanted.left.as_str()) {
        Some(w) => w,
        None => return false,
    };
    repair_operands_equivalent(required.right.as_str(), wanted.right.as_str(), equivalences)
        && literal_order_strength_implies(q, required.operator, w, wanted.operator, true)
}

/// Whether an upper bound on an operand implies another upper bound on it.
pub fn literal_upper_bound_implies(required: &ParsedRepairComparison, wanted: &ParsedRepairComparison, equivalences: &RepairEquivalences) -> (r: bool)
    requires
        bound_check_safe(equivalences.view_groups(), required.right@, wanted.right@, required.left@, wanted.left@),
    ensures
        r == upper_bound_implies(equivalences.view_groups(), parsed_view(required), parsed_view(wanted)),
{
    let q = match repair_numeric_order_literal(required.right.as_str()) {
        Some(q) => q,
        None => return false,
    };
    let w = match repair_numeric_order_literal(wanted.right.as_str()) {
        Some(w) => w,
        None => return false,
    };
    repair_operands_equivalent(required.left.as_str(), wanted.left.as_str(), equivalences)
        && literal_order_strength_implies(q, required.operator, w, wanted.operator, false)
}

/// Whether `op` is `<` or `<=`.
pub open spec fn order_operator(op: Seq<char>) -> bool {
    op == "<"@ || op == "<="@
}

/// Whether one order comparison with a constant implies another: as a lower bound, or
/// else as an upper bound.
pub open spec fn order_comparison_implies(gs: Seq<Seq<Seq<char>>>, required: (Seq<char>, Seq<char>, Seq<char>), wanted: (Seq<char>, Seq<char>, Seq<char>)) -> bool {
    order_operator(required.1) && order_operator(wanted.1)
        && (lower_bound_implies(gs, required, wanted) || upper_bound_implies(gs, required, wanted))
}

/// Whether the reads of the order-comparison check stay clear of a lone `"` and of an
/// overflowing comparison.
pub open spec fn order_comparison_safe(gs: Seq<Seq<Seq<char>>>, required: (Seq<char>, Seq<char>, Seq<char>), wanted: (Seq<char>, Seq<char>, Seq<char>)) -> bool {
    (order_operator(required.1) && order_operator(wanted.1)) ==> (bound_check_safe(gs, required.0, wanted.0, required.2, wanted.2)
        && (!lower_bound_implies(gs, required, wanted) ==> bound_check_safe(gs, required.2, wanted.2, required.0, wanted.0)))
}

/// Whether one order comparison with a constant implies another.
pub fn literal_order_comparison_implies(required: &ParsedRepairComparison, wanted: &ParsedRepairComparison, equivalences: &RepairEquivalences) -> (r: bool)
    requires
        order_comparison_safe(equivalences.view_groups(), parsed_view(required), parsed_view(wanted)),
    ensures
        r == order_comparison_implies(equivalences.view_groups(), parsed_view(required), parsed_view(wanted)),
{
    proof {
        reveal_strlit("<");
        reveal_strlit("<=");
    }
    let required_order = str_eq(required.operator, "<") || str_eq(required.operator, "<=");
    let wanted_order = str_eq(wanted.operator, "<") || str_eq(wanted.operator, "<=");
    if !required_order || !wanted_order {
        return false;
    }
    literal_lower_bound_implies(required, wanted, equivalences) || literal_upper_bound_implies(required, wanted, equivalences)
}

/// The operand an equality pins to a constant, and the constant: the right operand
/// when the left reads as a constant, else the left one when the right does.
pub open spec fn equality_subject(required: (Seq<char>, Seq<char>, Seq<char>)) -> Option<(Seq<char>, RepairRational)> {
    match order_literal(required.0) {
        Some(q) => Some((required.2, q)),
        None => match order_literal(required.2) {
            Some(q) => Some((required.0, q)),
            None => None,
        },
    }
}

/// Whether the sides of a comparison can be read as constants, left first, without
/// meeting a lone `"`.
pub open spec fn sides_safe(c: (Seq<char>, Seq<char>, Seq<char>)) -> bool {
    literal_safe(c.0) && (order_literal(c.0) is None ==> literal_safe(c.2))
}

/// The operand an equality pins to a constant, and the constant.
pub fn literal_equality_subject(required: &ParsedRepairComparison) -> (r: Option<(String, RepairRational)>)
    requires
        sides_safe(parsed_view(required)),
    ensures
        match r {
            Some((s, q)) => equality_subject(parsed_view(required)) == Some((s@, q)),
            None => equality_subject(parsed_view(required)) is None,
        },
{
    match repair_numeric_order_literal(required.left.as_str()) {
        Some(q) => Some((string_of(required.right.as_str()), q)),
        None => match repair_numeric_order_literal(required.right.as_str()) {
            Some(q) => Some((string_of(required.left.as_str()), q)),
            None => None,
        },
    }
}

/// Whether `s == c` implies the lower bound `c2 op x` on an equivalent operand.
pub open spec fn equality_lower_implies(gs: Seq<Seq<Seq<char>>>, required: (Seq<char>, Seq<char>, Seq<char>), wanted: (Seq<char>, Seq<char>, Seq<char>)) -> bool {
    match (equality_subject(required), order_literal(wanted.0)) {
        (Some((s, q)), Some(w)) => operands_equivalent(gs, s, wanted.2) && bound_strength_implies(q, "<="@, w, wanted.1, true),
        _ => false,
    }
}

/// Whether `s == c` implies the upper bound `x op c2` on an equivalent operand.
pub open spec fn equality_upper_implies(gs: Seq<Seq<Seq<char>>>, required: (Seq<char>, Seq<char>, Seq<char>), wanted: (Seq<char>, Seq<char>, Seq<char>)) -> bool {
    match (equality_subject(required), order_literal(wanted.2)) {
        (Some((s, q)), Some(w)) => operands_equivalent(gs, s, wanted.0) && bound_strength_implies(q, "<="@, w, wanted.1, false),
        _ => false,
    }
}

/// Whether the reads of an equality-to-bound check stay clear of a lone `"` and of an
/// overflowing comparison.
pub open spec fn equality_bound_safe(gs: Seq<Seq<Seq<char>>>, required: (Seq<char>, Seq<char>, Seq<char>), wanted_lit: Seq<char>, wanted_operand: Seq<char>) -> bool {
    sides_safe(required) && (equality_subject(required) matches Some((s, q)) ==> literal_safe(wanted_lit)
        && (order_literal(wanted_lit) matches Some(w) ==> operand_safe(s) && operand_safe(wanted_operand)
            && (operands_equivalent(gs, s, wanted_operand) ==> comparable(q, w))))
}

/// Whether an equality with a constant implies a lower bound on the same operand.
pub fn literal_equality_implies_lower_bound(required: &ParsedRepairComparison, wanted: &ParsedRepairComparison, equivalences: &RepairEquivalences) -> (r: bool)
    requires
        equality_bound_safe(equivalences.view_groups(), parsed_view(required), wanted.left@, wanted.right@),
    ensures
        r == equality_lower_implies(equivalences.view_groups(), parsed_view(required), parsed_view(wanted)),
{
    let (subject, q) = match literal_equality_subject(required) {
        Some(x) => x,
        None => return false,
    };
    let w = match repair_numeric_order_literal(wanted.left.as_str()) {
        Some(w) => w,
        None => return false,
    };
    repair_operands_equivalent(subject.as_str(), wanted.right.as_str(), equivalences)
        && literal_order_strength_implies(q, "<=", w, wanted.operator, true)
}

/// Whether an equality with a constant implies an upper bound on the same operand.
pub fn literal_equality_implies_upper_bound(required: &ParsedRepairComparison, wanted: &ParsedRepairComparison, equivalences: &RepairEquivalences) -> (r: bool)
    requires
        equality_bound_safe(equivalences.view_groups(), parsed_view(required), wanted.right@, wanted.left@),
    ensures
        r == equality_upper_implies(equivalences.view_groups(), parsed_view(required), parsed_view(wanted)),
{
    let (subject, q) = match literal_equality_subject(required) {
        Some(x) => x,
        None => return false,
    };
    let w = match repair_numeric_order_literal(wanted.right.as_str()) {
        Some(w) => w,
        None => return false,
    };
    repair_operands_equivalent(subject.as_str(), wanted.left.as_str(), equivalences)
        && literal_order_strength_implies(q, "<=", w, wanted.operator, false)
}

/// Whether an equality with a constant implies an order comparison of the same operand
/// with a constant.
pub open spec fn equality_order_implies(gs: Seq<Seq<Seq<char>>>, required: (Seq<char>, Seq<char>, Seq<char>), wanted: (Seq<char>, Seq<char>, Seq<char>)) -> bool {
    required.1 == "=="@ && order_operator(wanted.1)
        && (equality_lower_implies(gs, required, wanted) || equality_upper_implies(gs, required, wanted))
}

/// Whether the reads of the equality-to-order check stay clear of a lone `"` and of an
/// overflowing comparison.
pub open spec fn equality_order_safe(gs: Seq<Seq<Seq<char>>>, required: (Seq<char>, Seq<char>, Seq<char>), wanted: (Seq<char>, Seq<char>, Seq<char>)) -> bool {
    (required.1 == "=="@ && order_operator(wanted.1)) ==> (equality_bound_safe(gs, required, wanted.0, wanted.2)
        && (!equality_lower_implies(gs, required, wanted) ==> equality_bound_safe(gs, required, wanted.2, wanted.0)))
}

/// Whether an equality with a constant implies an order comparison with a constant.
pub fn literal_equality_implies_order_comparison(required: &ParsedRepairComparison, wanted: &ParsedRepairComparison, equivalences: &RepairEquivalences) -> (r: bool)
    requires
        equality_order_safe(equivalences.view_groups(), parsed_view(required), parsed_view(wanted)),
    ensures
        r == equality_order_implies(equivalences.view_groups(), parsed_view(required), parsed_view(wanted)),
{
    proof {
        reveal_strlit("==");
        reveal_strlit("<");
        reveal_strlit("<=");
    }
    if !str_eq(required.operator, "==") || !(str_eq(wanted.operator, "<") || str_eq(wanted.operator, "<=")) {
        return false;
    }
    literal_equality_implies_lower_bound(required, wanted, equivalences) || literal_equality_implies_upper_bound(required, wanted, equivalences)
}

} // verus!
