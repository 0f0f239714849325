//! Whether required clauses imply a wanted clause: operands compared up to recorded
//! equalities, boolean atoms against boolean literals, and integer bounds one apart.
use vstd::prelude::*;

use crate::clauses::{compact, compact_predicate_text, normalized_view, split_top, split_top_level_keyword};
use crate::decimal::{rational_plus_int, RepairRational};
use crate::equivalences::{
    canonical_expression_view, equivalent_view, groups_wf, joined, law_union_joins, law_union_keeps, normalized_operand,
    operand_safe, same_group, RepairEquivalences,
};
use crate::numeric::{literal, order_literal, repair_numeric_order_literal, LiteralV, RepairLiteral};
use crate::predicate_text::{
    normalized_comparison, not_operand, parse_comparison_from, strip_balanced_outer_parens, strip_parens, stripped_not_operand,
    trim, NormalizedRepairComparison, ParsedRepairComparison,
};
use crate::text::{str_eq, string_of};

verus! {

/// The operands of a clause that states an equality, when it does.
pub open spec fn equality_operands(clause: Seq<char>) -> Option<(Seq<char>, Seq<char>)> {
    match parse_comparison_from(clause, 0) {
        Some((l, op, r)) => if op == "=="@ { Some((l, r)) } else { None },
        None => None,
    }
}

/// The groups of operands the equalities among `clauses` make equal, recorded in order.
pub open spec fn equalities(clauses: Seq<Seq<char>>) -> Seq<Seq<Seq<char>>>
    decreases clauses.len(),
{
    if clauses.len() == 0 {
        Seq::empty()
    } else {
        let gs = equalities(clauses.drop_last());
        match equality_operands(clauses.last()) {
            Some((l, r)) => joined(gs, normalized_operand(l), normalized_operand(r)),
            None => gs,
        }
    }
}

/// Whether the operands of every equality among `clauses` can be normalized.
pub open spec fn equalities_safe(clauses: Seq<Seq<char>>) -> bool {
    forall|i: int| 0 <= i < clauses.len() ==> match equality_operands(#[trigger] clauses[i]) {
        Some((l, r)) => operand_safe(l) && operand_safe(r),
        None => true,
    }
}

proof fn lemma_equalities_wf(clauses: Seq<Seq<char>>)
    ensures
        groups_wf(equalities(clauses)),
    decreases clauses.len(),
{
    if clauses.len() > 0 {
        lemma_equalities_wf(clauses.drop_last());
        crate::equivalences::lemma_joined_wf_pub(equalities(clauses.drop_last()), clauses.last());
    }
}

/// The equalities that `clauses` state, recorded as groups of equal operands.
pub fn repair_equivalences(clauses: &Vec<String>) -> (r: RepairEquivalences)
    requires
        equalities_safe(clauses.deep_view()),
    ensures
        r.view_groups() == equalities(clauses.deep_view()),
        groups_wf(r.view_groups()),
{
    proof { reveal_strlit("=="); }
    let ghost cs = clauses.deep_view();
    let mut eq = RepairEquivalences::new();
    let mut i: usize = 0;
    assert(cs.take(0) =~= Seq::<Seq<char>>::empty());
    while i < clauses.len()
        invariant
            0 <= i <= clauses@.len(),
            cs == clauses.deep_view(),
            equalities_safe(cs),
            eq.view_groups() == equalities(cs.take(i as int)),
            groups_wf(eq.view_groups()),
        decreases clauses.len() - i,
    {
        assert(cs.take(i + 1).drop_last() =~= cs.take(i as int));
        assert(cs.take(i + 1).last() == cs[i as int]);
        assert(clauses@[i as int]@ == cs[i as int]);
        match ParsedRepairComparison::parse(clauses[i].as_str()) {
            Some(parsed) => {
                if str_eq(parsed.operator, "==") {
                    assert(equality_operands(cs[i as int]) == Some((parsed.left@, parsed.right@)));
                    eq.union(parsed.left.as_str(), parsed.right.as_str());
                }
            },
            None => {},
        }
        i += 1;
    }
    assert(cs.take(cs.len() as int) =~= cs);
    eq
}

/// Every equality among the clauses makes its two operands equivalent.
pub proof fn law_equalities_recorded(clauses: Seq<Seq<char>>, i: int)
    requires
        0 <= i < clauses.len(),
        equality_operands(clauses[i]) is Some,
    ensures
        ({
            let (l, r) = equality_operands(clauses[i])->0;
            equivalent_view(equalities(clauses), l, r)
        }),
    decreases clauses.len(),
{
    let (l, r) = equality_operands(clauses[i])->0;
    let a = normalized_operand(l);
    let b = normalized_operand(r);
    let init = clauses.drop_last();
    lemma_equalities_wf(init);
    if i == clauses.len() - 1 {
        if a != b {
            law_union_joins(equalities(init), a, b);
        }
    } else {
        assert(init[i] == clauses[i]);
        law_equalities_recorded(init, i);
        if a != b {
            match equality_operands(clauses.last()) {
                Some((l2, r2)) => law_union_keeps(equalities(init), normalized_operand(l2), normalized_operand(r2), a, b),
                None => {},
            }
        }
    }
}

/// Whether two operands are the same: equal as recorded, as written without white
/// space, or once each named operand is replaced by the one standing for its group.
pub open spec fn operands_equivalent(gs: Seq<Seq<Seq<char>>>, required: Seq<char>, wanted: Seq<char>) -> bool {
    equivalent_view(gs, required, wanted) || compact(required) == compact(wanted)
        || canonical_expression_view(gs, required) == canonical_expression_view(gs, wanted)
}

/// Whether two operands are the same, up to the recorded equalities.
pub fn repair_operands_equivalent(required: &str, wanted: &str, equivalences: &RepairEquivalences) -> (r: bool)
    requires
        operand_safe(required@),
        operand_safe(wanted@),
    ensures
        r == operands_equivalent(equivalences.view_groups(), required@, wanted@),
{
    if equivalences.equivalent(required, wanted) {
        return true;
    }
    let a = compact_predicate_text(required);
    let b = compact_predicate_text(wanted);
    if str_eq(a.as_str(), b.as_str()) {
        return true;
    }
    let c = equivalences.canonical_expression(required);
    let d = equivalences.canonical_expression(wanted);
    str_eq(c.as_str(), d.as_str())
}

/// Whether comparing two pairs of operands in order stays clear of a lone `"`: the
/// first pair, then the second when the first matched.
pub open spec fn ordered_safe(gs: Seq<Seq<Seq<char>>>, rl: Seq<char>, rr: Seq<char>, wl: Seq<char>, wr: Seq<char>) -> bool {
    operand_safe(rl) && operand_safe(wl) && (operands_equivalent(gs, rl, wl) ==> operand_safe(rr) && operand_safe(wr))
}

/// Whether both pairs of operands are the same, in order.
pub fn repair_operands_equivalent_ordered(
    required_left: &str,
    required_right: &str,
    wanted_left: &str,
    wanted_right: &str,
    equivalences: &RepairEquivalences,
) -> (r: bool)
    requires
        ordered_safe(equivalences.view_groups(), required_left@, required_right@, wanted_left@, wanted_right@),
    ensures
        r == (operands_equivalent(equivalences.view_groups(), required_left@, wanted_left@)
            && operands_equivalent(equivalences.view_groups(), required_right@, wanted_right@)),
{
    repair_operands_equivalent(required_left, wanted_left, equivalences)
        && repair_operands_equivalent(required_right, wanted_right, equivalences)
}

/// Whether the pairs of operands are the same, in either order.
pub fn repair_operands_equivalent_unordered(
    required_left: &str,
    required_right: &str,
    wanted_left: &str,
    wanted_right: &str,
    equivalences: &RepairEquivalences,
) -> (r: bool)
    requires
        ordered_safe(equivalences.view_groups(), required_left@, required_right@, wanted_left@, wanted_right@),
        !(operands_equivalent(equivalences.view_groups(), required_left@, wanted_left@)
            && operands_equivalent(equivalences.view_groups(), required_right@, wanted_right@))
            ==> ordered_safe(equivalences.view_groups(), required_left@, required_right@, wanted_right@, wanted_left@),
    ensures
        r == ((operands_equivalent(equivalences.view_groups(), required_left@, wanted_left@)
            && operands_equivalent(equivalences.view_groups(), required_right@, wanted_right@))
            || (operands_equivalent(equivalences.view_groups(), required_left@, wanted_right@)
            && operands_equivalent(equivalences.view_groups(), required_right@, wanted_left@))),
{
    repair_operands_equivalent_ordered(required_left, required_right, wanted_left, wanted_right, equivalences)
        || repair_operands_equivalent_ordered(required_left, required_right, wanted_right, wanted_left, equivalences)
}

/// Whether two pairs of operands are the same texts, in either order.
pub fn same_repair_operands_unordered(required_left: &str, required_right: &str, wanted_left: &str, wanted_right: &str) -> (r: bool)
    ensures
        r == ((required_left@ == wanted_left@ && required_right@ == wanted_right@)
            || (required_left@ == wanted_right@ && required_right@ == wanted_left@)),
{
    (str_eq(required_left, wanted_left) && str_eq(required_right, wanted_right))
        || (str_eq(required_left, wanted_right) && str_eq(required_right, wanted_left))
}

/// Whether `required`, not a comparison, reads as the same atom as `wanted`.
pub fn repair_atoms_equivalent(required: &str, wanted: &str, equivalences: &RepairEquivalences) -> (r: bool)
    ensures
        r == (parse_comparison_from(required@, 0) is None && (compact(required@) == compact(wanted@)
            || canonical_expression_view(equivalences.view_groups(), required@)
                == canonical_expression_view(equivalences.view_groups(), wanted@))),
{
    if ParsedRepairComparison::parse(required).is_some() {
        return false;
    }
    let a = compact_predicate_text(required);
    let b = compact_predicate_text(wanted);
    if str_eq(a.as_str(), b.as_str()) {
        return true;
    }
    let c = equivalences.canonical_expression(required);
    let d = equivalences.canonical_expression(wanted);
    str_eq(c.as_str(), d.as_str())
}

/// Whether `s` is a plain atom: not empty, no top-level `and` or `or`, no comparison.
pub open spec fn plain_atom(s: Seq<char>) -> bool {
    s.len() > 0 && split_top(s, "and"@).len() <= 1 && split_top(s, "or"@).len() <= 1 && parse_comparison_from(s, 0) is None
}

/// The atom a clause asserts and whether it asserts it true: an atom other than the
/// constants, or the negation of a plain atom.
pub open spec fn atom_truth(atom: Seq<char>) -> Option<(Seq<char>, bool)> {
    let a = strip_parens(atom);
    if !plain_atom(a) || a == "true"@ || a == "false"@ {
        None
    } else {
        match not_operand(a) {
            Some(n) => if plain_atom(strip_parens(n)) { Some((strip_parens(n), false)) } else { None },
            None => Some((a, true)),
        }
    }
}

fn is_plain_atom(s: &str) -> (r: bool)
    ensures
        r == plain_atom(s@),
{
    proof {
        reveal_strlit("and");
        reveal_strlit("or");
    }
    s.unicode_len() > 0 && split_top_level_keyword(s, "and").len() <= 1 && split_top_level_keyword(s, "or").len() <= 1
        && ParsedRepairComparison::parse(s).is_none()
}

/// The atom `atom` asserts and whether it asserts it true.
pub fn boolean_atom_truth(atom: &str) -> (r: Option<(String, bool)>)
    ensures
        match r {
            Some((a, t)) => atom_truth(atom@) == Some((a@, t)),
            None => atom_truth(atom@) is None,
        },
{
    let a = strip_balanced_outer_parens(atom);
    if !is_plain_atom(a.as_str()) || str_eq(a.as_str(), "true") || str_eq(a.as_str(), "false") {
        return None;
    }
    match stripped_not_operand(a.as_str()) {
        Some(n) => {
            let negated = strip_balanced_outer_parens(n.as_str());
            if is_plain_atom(negated.as_str()) {
                Some((negated, false))
            } else {
                None
            }
        },
        None => Some((a, true)),
    }
}

/// The atom a comparison with a boolean literal asserts, and whether it asserts it
/// true: `a == true`, `false != a` and the like, with the other side no literal.
pub open spec fn literal_comparison_truth(left: Seq<char>, op: Seq<char>, right: Seq<char>) -> Option<(Seq<char>, bool)> {
    let found = match (literal(left), literal(right)) {
        (None, Some(LiteralV::Bool(v))) => Some((left, v)),
        (Some(LiteralV::Bool(v)), None) => Some((right, v)),
        _ => None,
    };
    match found {
        Some((atom, v)) => if op == "=="@ {
            Some((atom, v))
        } else if op == "!="@ {
            Some((atom, !v))
        } else {
            None
        },
        None => None,
    }
}

/// Whether the sides of a comparison can be read as literals without meeting a lone
/// `"`.
pub open spec fn comparison_sides_safe(c: &ParsedRepairComparison) -> bool {
    c.left@ != seq!['"'] && c.right@ != seq!['"']
}

/// The atom a comparison with a boolean literal asserts, and whether true.
pub fn boolean_literal_comparison_truth(comparison: &ParsedRepairComparison) -> (r: Option<(String, bool)>)
    requires
        comparison_sides_safe(comparison),
    ensures
        match r {
            Some((a, t)) => literal_comparison_truth(comparison.left@, comparison.operator@, comparison.right@) == Some((a@, t)),
            None => literal_comparison_truth(comparison.left@, comparison.operator@, comparison.right@) is None,
        },
{
    proof {
        reveal_strlit("==");
        reveal_strlit("!=");
    }
    let left_literal = RepairLiteral::parse(comparison.left.as_str());
    let right_literal = RepairLiteral::parse(comparison.right.as_str());
    let (atom, value) = match (left_literal, right_literal) {
        (None, Some(RepairLiteral::Bool(v))) => (string_of(comparison.left.as_str()), v),
        (Some(RepairLiteral::Bool(v)), None) => (string_of(comparison.right.as_str()), v),
        _ => return None,
    };
    if str_eq(comparison.operator, "==") {
        Some((atom, value))
    } else if str_eq(comparison.operator, "!=") {
        Some((atom, !value))
    } else {
        None
    }
}

/// Whether a comparison of an atom with a boolean literal implies the wanted atom (or
/// its negation): the same truth, about equivalent atoms.
pub fn boolean_literal_comparison_implies_atom(required: &str, wanted_atom: &str, equivalences: &RepairEquivalences) -> (r: bool)
    requires
        (match parse_comparison_from(required@, 0) {
            Some((l, _, rt)) => l != seq!['"'] && rt != seq!['"'],
            None => true,
        }),
        (match (parse_comparison_from(required@, 0), atom_truth(wanted_atom@)) {
            (Some((l, op, rt)), Some((w, _))) => literal_comparison_truth(l, op, rt) matches Some((a, _)) ==> operand_safe(a) && operand_safe(w),
            _ => true,
        }),
    ensures
        r == match parse_comparison_from(required@, 0) {
            Some((l, op, rt)) => match (literal_comparison_truth(l, op, rt), atom_truth(wanted_atom@)) {
                (Some((a, t)), Some((w, u))) => t == u && operands_equivalent(equivalences.view_groups(), a, w),
                _ => false,
            },
            None => false,
        },
{
    let required = match ParsedRepairComparison::parse(required) {
        Some(p) => p,
        None => return false,
    };
    let (required_atom, required_truth) = match boolean_literal_comparison_truth(&required) {
        Some(x) => x,
        None => return false,
    };
    let (wanted, wanted_truth) = match boolean_atom_truth(wanted_atom) {
        Some(x) => x,
        None => return false,
    };
    required_truth == wanted_truth && repair_operands_equivalent(required_atom.as_str(), wanted.as_str(), equivalences)
}

/// Whether an atom (or its negation) implies a comparison of an atom with a boolean
/// literal: the same truth, about equivalent atoms.
pub fn boolean_atom_implies_literal_comparison(
    required_atom: &str,
    wanted: &ParsedRepairComparison,
    equivalences: &RepairEquivalences,
) -> (r: bool)
    requires
        atom_truth(required_atom@) is Some ==> comparison_sides_safe(wanted),
        (match (atom_truth(required_atom@), literal_comparison_truth(wanted.left@, wanted.operator@, wanted.right@)) {
            (Some((a, _)), Some((w, _))) => operand_safe(a) && operand_safe(w),
            _ => true,
        }),
    ensures
        r == match (atom_truth(required_atom@), literal_comparison_truth(wanted.left@, wanted.operator@, wanted.right@)) {
            (Some((a, t)), Some((w, u))) => t == u && operands_equivalent(equivalences.view_groups(), a, w),
            _ => false,
        },
{
    let (atom, truth) = match boolean_atom_truth(required_atom) {
        Some(x) => x,
        None => return false,
    };
    let (wanted_atom, wanted_truth) = match boolean_literal_comparison_truth(wanted) {
        Some(x) => x,
        None => return false,
    };
    truth == wanted_truth && repair_operands_equivalent(atom.as_str(), wanted_atom.as_str(), equivalences)
}

/// Whether one comparison with a boolean literal implies another: the same truth,
/// about equivalent atoms.
pub fn boolean_literal_comparison_implies_comparison(
    required: &ParsedRepairComparison,
    wanted: &ParsedRepairComparison,
    equivalences: &RepairEquivalences,
) -> (r: bool)
    requires
        comparison_sides_safe(required),
        literal_comparison_truth(required.left@, required.operator@, required.right@) is Some ==> comparison_sides_safe(wanted),
        (match (literal_comparison_truth(required.left@, required.operator@, required.right@),
            literal_comparison_truth(wanted.left@, wanted.operator@, wanted.right@)) {
            (Some((a, _)), Some((w, _))) => operand_safe(a) && operand_safe(w),
            _ => true,
        }),
    ensures
        r == match (literal_comparison_truth(required.left@, required.operator@, required.right@),
            literal_comparison_truth(wanted.left@, wanted.operator@, wanted.right@)) {
            (Some((a, t)), Some((w, u))) => t == u && operands_equivalent(equivalences.view_groups(), a, w),
            _ => false,
        },
{
    let (atom, truth) = match boolean_literal_comparison_truth(required) {
        Some(x) => x,
        None => return false,
    };
    let (wanted_atom, wanted_truth) = match boolean_literal_comparison_truth(wanted) {
        Some(x) => x,
        None => return false,
    };
    truth == wanted_truth && repair_operands_equivalent(atom.as_str(), wanted_atom.as_str(), equivalences)
}

/// Whether `literal` is an integer rational and `wanted` is the rational `offset` away
/// from it.
pub open spec fn integer_step(required: Option<RepairRational>, wanted: Option<RepairRational>, offset: int) -> bool {
    match (required, wanted) {
        (Some(q), Some(w)) => q.denominator == 1 && w.denominator == 1 && rational_plus_int(q, offset) == Some(w),
        _ => false,
    }
}

/// Whether the integer constant of `wanted` is that of `required` plus `offset`,
/// reading both as constants after checking `required` is an integer constant.
fn integer_step_holds(required: &str, wanted: &str, offset: i128) -> (r: bool)
    requires
        trim(required@) != seq!['"'],
        (order_literal(required@) matches Some(q) && q.denominator == 1) ==> trim(wanted@) != seq!['"'],
    ensures
        r == integer_step(order_literal(required@), order_literal(wanted@), offset as int),
{
    let q = match repair_numeric_order_literal(required) {
        Some(q) => q,
        None => return false,
    };
    if !q.is_integer() {
        return false;
    }
    let w = match repair_numeric_order_literal(wanted) {
        Some(w) => w,
        None => return false,
    };
    if !w.is_integer() {
        return false;
    }
    match q.add_int(offset) {
        Some(next) => next == w,
        None => false,
    }
}

/// Whether the operands and constants of a bound can be read without meeting a lone
/// `"`, in the order the integer-successor checks read them.
pub open spec fn successor_safe(gs: Seq<Seq<Seq<char>>>, same_a: Seq<char>, same_b: Seq<char>, lit_a: Seq<char>, lit_b: Seq<char>) -> bool {
    operand_safe(same_a) && operand_safe(same_b) && (operands_equivalent(gs, same_a, same_b) ==> (trim(lit_a) != seq!['"']
        && ((order_literal(lit_a) matches Some(q) && q.denominator == 1) ==> trim(lit_b) != seq!['"'])))
}

/// `a < x` implies `a + 1 <= x` for integer constants: the right operands the same, the
/// wanted constant one more.
pub open spec fn strict_lower_adjacent(gs: Seq<Seq<Seq<char>>>, required: (Seq<char>, Seq<char>, Seq<char>), wanted: (Seq<char>, Seq<char>, Seq<char>)) -> bool {
    operands_equivalent(gs, required.2, wanted.2) && integer_step(order_literal(required.0), order_literal(wanted.0), 1)
}

/// `x < a` implies `x <= a - 1` for integer constants.
pub open spec fn strict_upper_adjacent(gs: Seq<Seq<Seq<char>>>, required: (Seq<char>, Seq<char>, Seq<char>), wanted: (Seq<char>, Seq<char>, Seq<char>)) -> bool {
    operands_equivalent(gs, required.0, wanted.0) && integer_step(order_literal(required.2), order_literal(wanted.2), -1)
}

/// `a <= x` implies `a - 1 < x` for integer constants.
pub open spec fn inclusive_lower_adjacent(gs: Seq<Seq<Seq<char>>>, required: (Seq<char>, Seq<char>, Seq<char>), wanted: (Seq<char>, Seq<char>, Seq<char>)) -> bool {
    operands_equivalent(gs, required.2, wanted.2) && integer_step(order_literal(required.0), order_literal(wanted.0), -1)
}

/// `x <= a` implies `x < a + 1` for integer constants.
pub open spec fn inclusive_upper_adjacent(gs: Seq<Seq<Seq<char>>>, required: (Seq<char>, Seq<char>, Seq<char>), wanted: (Seq<char>, Seq<char>, Seq<char>)) -> bool {
    operands_equivalent(gs, required.0, wanted.0) && integer_step(order_literal(required.2), order_literal(wanted.2), 1)
}

/// The model of a normalized comparison.
pub open spec fn comparison_view(c: &NormalizedRepairComparison) -> (Seq<char>, Seq<char>, Seq<char>) {
    (c.left@, c.operator@, c.right@)
}

/// `a < x` implies `a + 1 <= x`, for integer constants `a` and `a + 1`.
pub fn strict_int_lower_bound_implies_adjacent_inclusive(
    required: &NormalizedRepairComparison,
    wanted: &NormalizedRepairComparison,
    equivalences: &RepairEquivalences,
) -> (r: bool)
    requires
        successor_safe(equivalences.view_groups(), required.right@, wanted.right@, required.left@, wanted.left@),
    ensures
        r == strict_lower_adjacent(equivalences.view_groups(), comparison_view(required), comparison_view(wanted)),
{
    repair_operands_equivalent(required.right.as_str(), wanted.right.as_str(), equivalences)
        && integer_step_holds(required.left.as_str(), wanted.left.as_str(), 1)
}

/// `x < a` implies `x <= a - 1`, for integer constants `a` and `a - 1`.
pub fn strict_int_upper_bound_implies_adjacent_inclusive(
    required: &NormalizedRepairComparison,
    wanted: &NormalizedRepairComparison,
    equivalences: &RepairEquivalences,
) -> (r: bool)
    requires
        successor_safe(equivalences.view_groups(), required.left@, wanted.left@, required.right@, wanted.right@),
    ensures
        r == strict_upper_adjacent(equivalences.view_groups(), comparison_view(required), comparison_view(wanted)),
{
    repair_operands_equivalent(required.left.as_str(), wanted.left.as_str(), equivalences)
        && integer_step_holds(required.right.as_str(), wanted.right.as_str(), -1)
}

/// `a <= x` implies `a - 1 < x`, for integer constants `a` and `a - 1`.
pub fn inclusive_int_lower_bound_implies_adjacent_strict(
    required: &NormalizedRepairComparison,
    wanted: &NormalizedRepairComparison,
    equivalences: &RepairEquivalences,
) -> (r: bool)
    requires
        successor_safe(equivalences.view_groups(), required.right@, wanted.right@, required.left@, wanted.left@),
    ensures
        r == inclusive_lower_adjacent(equivalences.view_groups(), comparison_view(required), comparison_view(wanted)),
{
    repair_operands_equivalent(required.right.as_str(), wanted.right.as_str(), equivalences)
        && integer_step_holds(required.left.as_str(), wanted.left.as_str(), -1)
}

/// `x <= a` implies `x < a + 1`, for integer constants `a` and `a + 1`.
pub fn inclusive_int_upper_bound_implies_adjacent_strict(
    required: &NormalizedRepairComparison,
    wanted: &NormalizedRepairComparison,
    equivalences: &RepairEquivalences,
) -> (r: bool)
    requires
        successor_safe(equivalences.view_groups(), required.left@, wanted.left@, required.right@, wanted.right@),
    ensures
        r == inclusive_upper_adjacent(equivalences.view_groups(), comparison_view(required), comparison_view(wanted)),
{
    repair_operands_equivalent(required.left.as_str(), wanted.left.as_str(), equivalences)
        && integer_step_holds(required.right.as_str(), wanted.right.as_str(), 1)
}

/// A strict integer bound implies the inclusive bound one step further in.
pub open spec fn strict_adjacent(gs: Seq<Seq<Seq<char>>>, required: (Seq<char>, Seq<char>, Seq<char>), wanted: (Seq<char>, Seq<char>, Seq<char>)) -> bool {
    strict_lower_adjacent(gs, required, wanted) || strict_upper_adjacent(gs, required, wanted)
}

/// An inclusive integer bound implies the strict bound one step further out.
pub open spec fn inclusive_adjacent(gs: Seq<Seq<Seq<char>>>, required: (Seq<char>, Seq<char>, Seq<char>), wanted: (Seq<char>, Seq<char>, Seq<char>)) -> bool {
    inclusive_lower_adjacent(gs, required, wanted) || inclusive_upper_adjacent(gs, required, wanted)
}

/// Whether every read the adjacent-bound checks make stays clear of a lone `"`.
pub open spec fn adjacent_safe(gs: Seq<Seq<Seq<char>>>, required: (Seq<char>, Seq<char>, Seq<char>), wanted: (Seq<char>, Seq<char>, Seq<char>), lower_step: int) -> bool {
    successor_safe(gs, required.2, wanted.2, required.0, wanted.0)
        && (!(operands_equivalent(gs, required.2, wanted.2) && integer_step(order_literal(required.0), order_literal(wanted.0), lower_step))
            ==> successor_safe(gs, required.0, wanted.0, required.2, wanted.2))
}

/// A strict integer bound implies the inclusive bound one step further in.
pub fn strict_int_bound_implies_adjacent_inclusive(
    required: &NormalizedRepairComparison,
    wanted: &NormalizedRepairComparison,
    equivalences: &RepairEquivalences,
) -> (r: bool)
    requires
        adjacent_safe(equivalences.view_groups(), comparison_view(required), comparison_view(wanted), 1),
    ensures
        r == strict_adjacent(equivalences.view_groups(), comparison_view(required), comparison_view(wanted)),
{
    strict_int_lower_bound_implies_adjacent_inclusive(required, wanted, equivalences)
        || strict_int_upper_bound_implies_adjacent_inclusive(required, wanted, equivalences)
}

/// An inclusive integer bound implies the strict bound one step further out.
pub fn inclusive_int_bound_implies_adjacent_strict(
    required: &NormalizedRepairComparison,
    wanted: &NormalizedRepairComparison,
    equivalences: &RepairEquivalences,
) -> (r: bool)
    requires
        adjacent_safe(equivalences.view_groups(), comparison_view(required), comparison_view(wanted), -1),
    ensures
        r == inclusive_adjacent(equivalences.view_groups(), comparison_view(required), comparison_view(wanted)),
{
    inclusive_int_lower_bound_implies_adjacent_strict(required, wanted, equivalences)
        || inclusive_int_upper_bound_implies_adjacent_strict(required, wanted, equivalences)
}

/// Whether one normalized comparison implies another by integer adjacency: `<` to the
/// adjacent `<=`, or `<=` to the adjacent `<`.
pub open spec fn successor_implies(gs: Seq<Seq<Seq<char>>>, required: (Seq<char>, Seq<char>, Seq<char>), wanted: (Seq<char>, Seq<char>, Seq<char>)) -> bool {
    if required.1 == "<"@ && wanted.1 == "<="@ {
        strict_adjacent(gs, required, wanted)
    } else if required.1 == "<="@ && wanted.1 == "<"@ {
        inclusive_adjacent(gs, required, wanted)
    } else {
        false
    }
}

/// Whether the integer-adjacency checks on these comparisons stay clear of a lone `"`.
pub open spec fn successor_implies_safe(gs: Seq<Seq<Seq<char>>>, required: (Seq<char>, Seq<char>, Seq<char>), wanted: (Seq<char>, Seq<char>, Seq<char>)) -> bool {
    if required.1 == "<"@ && wanted.1 == "<="@ {
        adjacent_safe(gs, required, wanted, 1)
    } else if required.1 == "<="@ && wanted.1 == "<"@ {
        adjacent_safe(gs, required, wanted, -1)
    } else {
        true
    }
}

/// Whether one normalized comparison implies another by integer adjacency.
pub fn int_successor_repair_comparison_implies(
    required: &NormalizedRepairComparison,
    wanted: &NormalizedRepairComparison,
    equivalences: &RepairEquivalences,
) -> (r: bool)
    requires
        successor_implies_safe(equivalences.view_groups(), comparison_view(required), comparison_view(wanted)),
    ensures
        r == successor_implies(equivalences.view_groups(), comparison_view(required), comparison_view(wanted)),
{
    proof {
        reveal_strlit("<");
        reveal_strlit("<=");
    }
    if str_eq(required.operator, "<") && str_eq(wanted.operator, "<=") {
        strict_int_bound_implies_adjacent_inclusive(required, wanted, equivalences)
    } else if str_eq(required.operator, "<=") && str_eq(wanted.operator, "<") {
        inclusive_int_bound_implies_adjacent_strict(required, wanted, equivalences)
    } else {
        false
    }
}

/// Whether one clause implies another by integer adjacency, with no equalities known.
pub open spec fn successor_clause_implies(required: Seq<char>, wanted: Seq<char>) -> bool {
    match (normalized_view(required), normalized_view(wanted)) {
        (Some(r), Some(w)) => successor_implies(Seq::empty(), r, w),
        _ => false,
    }
}

/// Whether one clause implies another by integer adjacency: `a < x` gives `a + 1 <= x`,
/// `x <= a` gives `x < a + 1`, and so on, for integer constants.
pub fn int_successor_repair_clause_implies(required: &str, wanted: &str) -> (r: bool)
    requires
        match (normalized_view(required@), normalized_view(wanted@)) {
            (Some(r), Some(w)) => successor_implies_safe(Seq::empty(), r, w),
            _ => true,
        },
    ensures
        r == successor_clause_implies(required@, wanted@),
{
    let required = match NormalizedRepairComparison::parse(required) {
        Some(c) => c,
        None => return false,
    };
    let wanted = match NormalizedRepairComparison::parse(wanted) {
        Some(c) => c,
        None => return false,
    };
    let equivalences = RepairEquivalences::new();
    int_successor_repair_comparison_implies(&required, &wanted, &equivalences)
}

/// Whether the clause at `i` is the first that gives `wanted` by integer adjacency, or
/// an earlier one does.
pub open spec fn successor_from_clause(cs: Seq<Seq<char>>, i: int, w: (Seq<char>, Seq<char>, Seq<char>)) -> bool {
    match normalized_view(cs[i]) {
        Some(r) => successor_implies(equalities(cs), r, w),
        None => false,
    }
}

/// Whether a set of required clauses gives `wanted` by integer adjacency, up to the
/// equalities among them.
pub open spec fn set_successor_implies(cs: Seq<Seq<char>>, wanted: Seq<char>) -> bool {
    match normalized_view(wanted) {
        Some(w) => exists|i: int| 0 <= i < cs.len() && #[trigger] successor_from_clause(cs, i, w),
        None => false,
    }
}

/// Whether the reads that checking a clause set makes stay clear of a lone `"`: the
/// equalities, and each clause checked before one succeeds.
pub open spec fn set_successor_safe(cs: Seq<Seq<char>>, wanted: Seq<char>) -> bool {
    match normalized_view(wanted) {
        Some(w) => equalities_safe(cs) && forall|i: int| 0 <= i < cs.len()
            && (forall|k: int| 0 <= k < i ==> !#[trigger] successor_from_clause(cs, k, w))
            ==> match normalized_view(#[trigger] cs[i]) {
                Some(r) => successor_implies_safe(equalities(cs), r, w),
                None => true,
            },
        None => true,
    }
}

/// Whether some required clause gives `wanted` by integer adjacency, up to the
/// equalities the clauses state.
pub fn repair_clause_set_int_successor_implies_clause(required_clauses: &Vec<String>, wanted: &str) -> (r: bool)
    requires
        set_successor_safe(required_clauses.deep_view(), wanted@),
    ensures
        r == set_successor_implies(required_clauses.deep_view(), wanted@),
{
    let ghost cs = required_clauses.deep_view();
    let w = match NormalizedRepairComparison::parse(wanted) {
        Some(c) => c,
        None => return false,
    };
    let equivalences = repair_equivalences(required_clauses);
    let mut i: usize = 0;
    while i < required_clauses.len()
        invariant
            0 <= i <= required_clauses@.len(),
            cs == required_clauses.deep_view(),
            equivalences.view_groups() == equalities(cs),
            normalized_view(wanted@) == Some(comparison_view(&w)),
            set_successor_safe(cs, wanted@),
            forall|k: int| 0 <= k < i ==> !#[trigger] successor_from_clause(cs, k, comparison_view(&w)),
        decreases required_clauses.len() - i,
    {
        assert(required_clauses@[i as int]@ == cs[i as int]);
        match NormalizedRepairComparison::parse(required_clauses[i].as_str()) {
            Some(r) => {
                if int_successor_repair_comparison_implies(&r, &w, &equivalences) {
                    assert(successor_from_clause(cs, i as int, comparison_view(&w)));
                    return true;
                }
            },
            None => {},
        }
        assert(!successor_from_clause(cs, i as int, comparison_view(&w)));
        i += 1;
    }
    false
}

/// Whether `a <= b` and `b <= a` give `a == b`: both clauses inclusive bounds, running
/// in opposite directions between operands equivalent to the wanted ones.
pub open spec fn bounds_give_equality(gs: Seq<Seq<Seq<char>>>, left: Seq<char>, right: Seq<char>, wl: Seq<char>, wr: Seq<char>) -> bool {
    match (parse_comparison_from(left, 0), parse_comparison_from(right, 0)) {
        (Some(l), Some(r)) => l.1 == "<="@ && r.1 == "<="@ && operands_equivalent(gs, l.0, wl) && operands_equivalent(gs, l.2, wr)
            && operands_equivalent(gs, r.0, wr) && operands_equivalent(gs, r.2, wl),
        _ => false,
    }
}

/// Whether the operand comparisons of the inclusive-bounds check stay clear of a lone
/// `"`, in the order they are made.
pub open spec fn bounds_safe(gs: Seq<Seq<Seq<char>>>, left: Seq<char>, right: Seq<char>, wl: Seq<char>, wr: Seq<char>) -> bool {
    match (parse_comparison_from(left, 0), parse_comparison_from(right, 0)) {
        (Some(l), Some(r)) => (l.1 == "<="@ && r.1 == "<="@) ==> (ordered_safe(gs, l.0, l.2, wl, wr)
            && ((operands_equivalent(gs, l.0, wl) && operands_equivalent(gs, l.2, wr)) ==> ordered_safe(gs, r.0, r.2, wr, wl))),
        _ => true,
    }
}

/// Whether two inclusive bounds running in opposite directions give the wanted
/// equality.
pub fn inclusive_bounds_imply_equality(left: &str, right: &str, wanted: &ParsedRepairComparison, equivalences: &RepairEquivalences) -> (r: bool)
    requires
        bounds_safe(equivalences.view_groups(), left@, right@, wanted.left@, wanted.right@),
    ensures
        r == bounds_give_equality(equivalences.view_groups(), left@, right@, wanted.left@, wanted.right@),
{
    proof { reveal_strlit("<="); }
    let l = match ParsedRepairComparison::parse(left) {
        Some(p) => p,
        None => return false,
    };
    let r = match ParsedRepairComparison::parse(right) {
        Some(p) => p,
        None => return false,
    };
    str_eq(l.operator, "<=") && str_eq(r.operator, "<=")
        && repair_operands_equivalent_ordered(l.left.as_str(), l.right.as_str(), wanted.left.as_str(), wanted.right.as_str(), equivalences)
        && repair_operands_equivalent_ordered(r.left.as_str(), r.right.as_str(), wanted.right.as_str(), wanted.left.as_str(), equivalences)
}

} // verus!
