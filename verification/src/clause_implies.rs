//! Whether one repair clause implies another: the rules of the bound, equality,
//! disequality and boolean-literal checks tried in turn, with or without equivalent
//! operands.
use vstd::prelude::*;

use crate::bounds::{
    equality_order_implies, equality_order_safe, literal_equality_implies_order_comparison, literal_order_comparison_implies,
    order_comparison_implies, order_comparison_safe, parsed_view,
};
use crate::disequality::{
    bound_excludes, bound_excludes_safe, equality_excludes, equality_excludes_safe,
    equality_with_distinct_literal_implies_disequality, literal_bound_implies_disequality, parsed_comparison,
};
use crate::equivalences::{operand_safe, RepairEquivalences};
use crate::implication::{
    atom_truth, boolean_atom_implies_literal_comparison, boolean_literal_comparison_implies_comparison, literal_comparison_truth,
    operands_equivalent, ordered_safe, repair_operands_equivalent_ordered, repair_operands_equivalent_unordered,
    same_repair_operands_unordered,
};
use crate::predicate_text::ParsedRepairComparison;
use crate::text::str_eq;

verus! {

/// A comparison model: left side, operator, right side.
pub type Comparison = (Seq<char>, Seq<char>, Seq<char>);

/// Whether an atom (or its negation) implies the wanted comparison with a boolean
/// literal.
pub open spec fn atom_implies(gs: Seq<Seq<Seq<char>>>, required: Seq<char>, wanted: Comparison) -> bool {
    match (atom_truth(required), literal_comparison_truth(wanted.0, wanted.1, wanted.2)) {
        (Some((a, t)), Some((w, u))) => t == u && operands_equivalent(gs, a, w),
        _ => false,
    }
}

/// Whether that check stays clear of a lone `"`.
pub open spec fn atom_implies_safe(gs: Seq<Seq<Seq<char>>>, required: Seq<char>, wanted: Comparison) -> bool {
    (atom_truth(required) is Some ==> wanted.0 != seq!['"'] && wanted.2 != seq!['"'])
        && match (atom_truth(required), literal_comparison_truth(wanted.0, wanted.1, wanted.2)) {
            (Some((a, _)), Some((w, _))) => operand_safe(a) && operand_safe(w),
            _ => true,
        }
}

/// Whether one comparison with a boolean literal implies another.
pub open spec fn boolean_implies(gs: Seq<Seq<Seq<char>>>, required: Comparison, wanted: Comparison) -> bool {
    match (literal_comparison_truth(required.0, required.1, required.2), literal_comparison_truth(wanted.0, wanted.1, wanted.2)) {
        (Some((a, t)), Some((w, u))) => t == u && operands_equivalent(gs, a, w),
        _ => false,
    }
}

/// Whether that check stays clear of a lone `"`.
pub open spec fn boolean_implies_safe(required: Comparison, wanted: Comparison) -> bool {
    &&& required.0 != seq!['"'] && required.2 != seq!['"']
    &&& literal_comparison_truth(required.0, required.1, required.2) is Some ==> wanted.0 != seq!['"'] && wanted.2 != seq!['"']
    &&& match (literal_comparison_truth(required.0, required.1, required.2), literal_comparison_truth(wanted.0, wanted.1, wanted.2)) {
        (Some((a, _)), Some((w, _))) => operand_safe(a) && operand_safe(w),
        _ => true,
    }
}

/// Whether both operand pairs are equivalent, in order.
pub open spec fn ordered_equivalent(gs: Seq<Seq<Seq<char>>>, required: Comparison, wanted: Comparison) -> bool {
    operands_equivalent(gs, required.0, wanted.0) && operands_equivalent(gs, required.2, wanted.2)
}

/// Whether both operand pairs are equivalent, in either order.
pub open spec fn unordered_equivalent(gs: Seq<Seq<Seq<char>>>, required: Comparison, wanted: Comparison) -> bool {
    ordered_equivalent(gs, required, wanted)
        || (operands_equivalent(gs, required.0, wanted.2) && operands_equivalent(gs, required.2, wanted.0))
}

/// Whether comparing the operand pairs in either order stays clear of a lone `"`.
pub open spec fn unordered_safe(gs: Seq<Seq<Seq<char>>>, required: Comparison, wanted: Comparison) -> bool {
    ordered_safe(gs, required.0, required.2, wanted.0, wanted.2)
        && (!ordered_equivalent(gs, required, wanted) ==> ordered_safe(gs, required.0, required.2, wanted.2, wanted.0))
}

/// Whether the constant-based checks, tried in turn, find that `required` implies
/// `wanted`: an order comparison, an equality against an order comparison, a bound
/// against a disequality, or a comparison with a boolean literal.
pub open spec fn literal_rules(gs: Seq<Seq<Seq<char>>>, required: Comparison, wanted: Comparison) -> bool {
    order_comparison_implies(gs, required, wanted) || equality_order_implies(gs, required, wanted)
        || bound_excludes(gs, required, wanted) || boolean_implies(gs, required, wanted)
}

/// Whether those checks stay clear of a lone `"` and of an overflowing comparison.
pub open spec fn literal_rules_safe(gs: Seq<Seq<Seq<char>>>, required: Comparison, wanted: Comparison) -> bool {
    &&& order_comparison_safe(gs, required, wanted)
    &&& !order_comparison_implies(gs, required, wanted) ==> {
        &&& equality_order_safe(gs, required, wanted)
        &&& !equality_order_implies(gs, required, wanted) ==> {
            &&& bound_excludes_safe(gs, required, wanted)
            &&& !bound_excludes(gs, required, wanted) ==> boolean_implies_safe(required, wanted)
        }
    }
}

fn literal_rules_hold(required: &ParsedRepairComparison, wanted: &ParsedRepairComparison, equivalences: &RepairEquivalences) -> (r: bool)
    requires
        literal_rules_safe(equivalences.view_groups(), parsed_view(required), parsed_view(wanted)),
    ensures
        r == literal_rules(equivalences.view_groups(), parsed_view(required), parsed_view(wanted)),
{
    literal_order_comparison_implies(required, wanted, equivalences)
        || literal_equality_implies_order_comparison(required, wanted, equivalences)
        || literal_bound_implies_disequality(required, wanted, equivalences)
        || boolean_literal_comparison_implies_comparison(required, wanted, equivalences)
}

/// The rule for the operator pair of two comparisons whose operand pairs are not
/// already the same under the same operator.
pub open spec fn operator_rule(gs: Seq<Seq<Seq<char>>>, required: Comparison, wanted: Comparison) -> bool {
    if required.1 == "<"@ && wanted.1 == "<="@ {
        ordered_equivalent(gs, required, wanted)
    } else if (required.1 == "<"@ && wanted.1 == "!="@) || (required.1 == "=="@ && wanted.1 == "<="@) {
        unordered_equivalent(gs, required, wanted)
    } else if required.1 == "=="@ && wanted.1 == "!="@ {
        equality_excludes(gs, required, wanted)
    } else {
        literal_rules(gs, required, wanted)
    }
}

/// Whether that rule stays clear of a lone `"` and of an overflowing comparison.
pub open spec fn operator_rule_safe(gs: Seq<Seq<Seq<char>>>, required: Comparison, wanted: Comparison) -> bool {
    if required.1 == "<"@ && wanted.1 == "<="@ {
        ordered_safe(gs, required.0, required.2, wanted.0, wanted.2)
    } else if (required.1 == "<"@ && wanted.1 == "!="@) || (required.1 == "=="@ && wanted.1 == "<="@) {
        unordered_safe(gs, required, wanted)
    } else if required.1 == "=="@ && wanted.1 == "!="@ {
        equality_excludes_safe(gs, required, wanted)
    } else {
        literal_rules_safe(gs, required, wanted)
    }
}

/// Whether the clause `required` implies the comparison `wanted`, up to the operand
/// equivalences `gs`: an atom implies a comparison with a boolean literal; a
/// comparison implies the same comparison of equivalent operands, else by the rule for
/// its operator pair.
pub open spec fn clause_implies_under(gs: Seq<Seq<Seq<char>>>, required: Seq<char>, wanted: Comparison) -> bool {
    match parsed_comparison(required) {
        Some(c) => (c.1 == wanted.1 && ordered_equivalent(gs, c, wanted)) || operator_rule(gs, c, wanted),
        None => atom_implies(gs, required, wanted),
    }
}

/// Whether that check stays clear of a lone `"` and of an overflowing comparison.
pub open spec fn clause_implies_under_safe(gs: Seq<Seq<Seq<char>>>, required: Seq<char>, wanted: Comparison) -> bool {
    match parsed_comparison(required) {
        Some(c) => (c.1 == wanted.1 ==> ordered_safe(gs, c.0, c.2, wanted.0, wanted.2))
            && (!(c.1 == wanted.1 && ordered_equivalent(gs, c, wanted)) ==> operator_rule_safe(gs, c, wanted)),
        None => atom_implies_safe(gs, required, wanted),
    }
}

fn operator_rule_holds(required: &ParsedRepairComparison, wanted: &ParsedRepairComparison, equivalences: &RepairEquivalences) -> (r: bool)
    requires
        operator_rule_safe(equivalences.view_groups(), parsed_view(required), parsed_view(wanted)),
    ensures
        r == operator_rule(equivalences.view_groups(), parsed_view(required), parsed_view(wanted)),
{
    proof {
        reveal_strlit("<");
        reveal_strlit("<=");
        reveal_strlit("!=");
        reveal_strlit("==");
    }
    let lt = str_eq(required.operator, "<");
    let eq = str_eq(required.operator, "==");
    let wanted_le = str_eq(wanted.operator, "<=");
    let wanted_ne = str_eq(wanted.operator, "!=");
    if lt && wanted_le {
        repair_operands_equivalent_ordered(required.left.as_str(), required.right.as_str(), wanted.left.as_str(), wanted.right.as_str(), equivalences)
    } else if (lt && wanted_ne) || (eq && wanted_le) {
        repair_operands_equivalent_unordered(required.left.as_str(), required.right.as_str(), wanted.left.as_str(), wanted.right.as_str(), equivalences)
    } else if eq && wanted_ne {
        equality_with_distinct_literal_implies_disequality(
            required.left.as_str(),
            required.operator,
            required.right.as_str(),
            wanted.left.as_str(),
            wanted.operator,
            wanted.right.as_str(),
            equivalences,
        )
    } else {
        literal_rules_hold(required, wanted, equivalences)
    }
}

/// Whether the clause `required` implies the comparison `wanted`, up to the operand
/// equivalences.
pub fn repair_clause_implies_with_equivalences(required: &str, wanted: &ParsedRepairComparison, equivalences: &RepairEquivalences) -> (r: bool)
    requires
        clause_implies_under_safe(equivalences.view_groups(), required@, parsed_view(wanted)),
    ensures
        r == clause_implies_under(equivalences.view_groups(), required@, parsed_view(wanted)),
{
    let required_text = required;
    let required = match ParsedRepairComparison::parse(required_text) {
        Some(c) => c,
        None => return boolean_atom_implies_literal_comparison(required_text, wanted, equivalences),
    };
    if str_eq(required.operator, wanted.operator)
        && repair_operands_equivalent_ordered(required.left.as_str(), required.right.as_str(), wanted.left.as_str(), wanted.right.as_str(), equivalences) {
        return true;
    }
    operator_rule_holds(&required, wanted, equivalences)
}

/// The plain-text rules of `repair_clause_implies` after the constant-based checks.
pub open spec fn plain_rules(required: Comparison, wanted: Comparison) -> bool {
    ||| required.0 == wanted.0 && required.2 == wanted.2 && required.1 == "<"@ && wanted.1 == "<="@
    ||| required.1 == "<"@ && wanted.1 == "!="@ && same_pair(required, wanted)
}

/// Whether two comparisons have the same operand texts, in either order.
pub open spec fn same_pair(required: Comparison, wanted: Comparison) -> bool {
    (required.0 == wanted.0 && required.2 == wanted.2) || (required.0 == wanted.2 && required.2 == wanted.0)
}

/// Whether the clause `required` implies the clause `wanted` on their texts alone: the
/// same clause; an atom implying a comparison with a boolean literal; `a < b` implying
/// `a <= b` or `a != b`; an equality implying a disequality with another constant; the
/// constant-based checks; or an equality implying `a <= b`.
pub open spec fn clause_implies(required: Seq<char>, wanted: Seq<char>) -> bool {
    let gs = Seq::<Seq<Seq<char>>>::empty();
    if required == wanted {
        true
    } else {
        match parsed_comparison(wanted) {
            None => false,
            Some(w) => match parsed_comparison(required) {
                None => atom_implies(gs, required, w),
                Some(c) => plain_rules(c, w) || equality_excludes(gs, c, w) || literal_rules(gs, c, w)
                    || (c.1 == "=="@ && w.1 == "<="@ && same_pair(c, w)),
            },
        }
    }
}

/// Whether that check stays clear of a lone `"` and of an overflowing comparison.
pub open spec fn clause_implies_safe(required: Seq<char>, wanted: Seq<char>) -> bool {
    let gs = Seq::<Seq<Seq<char>>>::empty();
    required != wanted ==> match parsed_comparison(wanted) {
        None => true,
        Some(w) => match parsed_comparison(required) {
            None => atom_implies_safe(gs, required, w),
            Some(c) => !plain_rules(c, w) ==> {
                &&& equality_excludes_safe(gs, c, w)
                &&& !equality_excludes(gs, c, w) ==> literal_rules_safe(gs, c, w)
            },
        },
    }
}

/// Whether the clause `required` implies the clause `wanted`, comparing operands by
/// their text.
pub fn repair_clause_implies(required: &str, wanted: &str) -> (r: bool)
    requires
        clause_implies_safe(required@, wanted@),
    ensures
        r == clause_implies(required@, wanted@),
{
    proof {
        reveal_strlit("<");
        reveal_strlit("<=");
        reveal_strlit("!=");
        reveal_strlit("==");
    }
    if str_eq(required, wanted) {
        return true;
    }
    let none = RepairEquivalences::new();
    let wanted = match ParsedRepairComparison::parse(wanted) {
        Some(c) => c,
        None => return false,
    };
    let required_text = required;
    let required = match ParsedRepairComparison::parse(required_text) {
        Some(c) => c,
        None => return boolean_atom_implies_literal_comparison(required_text, &wanted, &none),
    };
    if str_eq(required.left.as_str(), wanted.left.as_str()) && str_eq(required.right.as_str(), wanted.right.as_str())
        && str_eq(required.operator, "<") && str_eq(wanted.operator, "<=") {
        return true;
    }
    if str_eq(required.operator, "<") && str_eq(wanted.operator, "!=")
        && same_repair_operands_unordered(required.left.as_str(), required.right.as_str(), wanted.left.as_str(), wanted.right.as_str()) {
        return true;
    }
    if equality_with_distinct_literal_implies_disequality(
        required.left.as_str(),
        required.operator,
        required.right.as_str(),
        wanted.left.as_str(),
        wanted.operator,
        wanted.right.as_str(),
        &none,
    ) {
        return true;
    }
    if literal_rules_hold(&required, &wanted, &none) {
        return true;
    }
    str_eq(required.operator, "==") && str_eq(wanted.operator, "<=")
        && same_repair_operands_unordered(required.left.as_str(), required.right.as_str(), wanted.left.as_str(), wanted.right.as_str())
}

} // verus!
