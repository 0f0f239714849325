//! Chains of order comparisons among the required clauses: whether `a < b` or
//! `a <= b` follows by walking `<` and `<=` clauses from one operand to another.
use vstd::prelude::*;

use crate::disequality::parsed_comparison;
use crate::equivalences::{operand_safe, RepairEquivalences};
use crate::implication::{operands_equivalent, repair_operands_equivalent};
use crate::predicate_text::ParsedRepairComparison;
use crate::text::{str_eq, string_of};

verus! {

/// An order comparison `left < right` (strict) or `left <= right` among the required
/// clauses.
pub struct OrderingEdge {
    pub left: String,
    pub right: String,
    pub strict: bool,
}

/// The model of an order comparison.
pub struct EdgeV {
    pub left: Seq<char>,
    pub right: Seq<char>,
    pub strict: bool,
}

/// The model of an order comparison.
pub open spec fn edge_view(e: OrderingEdge) -> EdgeV {
    EdgeV { left: e.left@, right: e.right@, strict: e.strict }
}

/// The models of a list of order comparisons.
pub open spec fn edge_views(es: Seq<OrderingEdge>) -> Seq<EdgeV> {
    Seq::new(es.len(), |i: int| edge_view(es[i]))
}

/// The order comparison a clause makes, if it is `<` or `<=`.
pub open spec fn clause_edge(clause: Seq<char>) -> Option<EdgeV> {
    match parsed_comparison(clause) {
        Some(c) => if c.1 == "<"@ || c.1 == "<="@ {
            Some(EdgeV { left: c.0, right: c.2, strict: c.1 == "<"@ })
        } else {
            None
        },
        None => None,
    }
}

/// The order comparisons among `cs`, in order.
pub open spec fn ordering_edges(cs: Seq<Seq<char>>) -> Seq<EdgeV>
    decreases cs.len(),
{
    if cs.len() == 0 {
        Seq::empty()
    } else {
        let before = ordering_edges(cs.drop_last());
        match clause_edge(cs.last()) {
            Some(e) => before.push(e),
            None => before,
        }
    }
}

/// The order comparisons among the clauses.
pub fn ordering_edges_of(clauses: &Vec<String>) -> (r: Vec<OrderingEdge>)
    ensures
        edge_views(r@) == ordering_edges(clauses.deep_view()),
{
    proof {
        reveal_strlit("<");
        reveal_strlit("<=");
    }
    let ghost cs = clauses.deep_view();
    let mut edges: Vec<OrderingEdge> = Vec::new();
    let mut i: usize = 0;
    while i < clauses.len()
        invariant
            0 <= i <= cs.len(),
            cs == clauses.deep_view(),
            edge_views(edges@) == ordering_edges(cs.take(i as int)),
        decreases clauses.len() - i,
    {
        assert(cs.take(i + 1).drop_last() =~= cs.take(i as int));
        assert(cs.take(i + 1).last() == clauses@[i as int]@);
        if let Some(parsed) = ParsedRepairComparison::parse(clauses[i].as_str()) {
            let strict = str_eq(parsed.operator, "<");
            if strict || str_eq(parsed.operator, "<=") {
                let ghost before = edges@;
                edges.push(OrderingEdge { left: parsed.left, right: parsed.right, strict });
                assert(edge_views(edges@) =~= edge_views(before).push(edge_view(edges@.last())));
            }
        }
        i += 1;
    }
    assert(cs.take(cs.len() as int) =~= cs);
    edges
}

/// A point of the walk: an operand, and whether a strict comparison was passed on the
/// way to it.
pub type WalkState = (Seq<char>, bool);

/// Whether one comparison leads from `a` to `b`: its left side is equivalent to `a`'s
/// operand, `b`'s operand is its right side, and `b` is strict when `a` was or the
/// comparison is.
pub open spec fn steps_to(gs: Seq<Seq<Seq<char>>>, es: Seq<EdgeV>, a: WalkState, b: WalkState) -> bool {
    exists|i: int| 0 <= i < es.len() && operands_equivalent(gs, a.0, (#[trigger] es[i]).left) && b == (es[i].right, a.1 || es[i].strict)
}

/// The points reachable from `start` in at most `n` steps.
pub open spec fn reachable_within(gs: Seq<Seq<Seq<char>>>, es: Seq<EdgeV>, start: WalkState, n: nat) -> Set<WalkState>
    decreases n,
{
    if n == 0 {
        set![start]
    } else {
        let before = reachable_within(gs, es, start, (n - 1) as nat);
        Set::new(|s: WalkState| before.contains(s) || exists|a: WalkState| before.contains(a) && steps_to(gs, es, a, s))
    }
}

/// Whether a point is reachable from `start`.
pub open spec fn reachable(gs: Seq<Seq<Seq<char>>>, es: Seq<EdgeV>, start: WalkState, s: WalkState) -> bool {
    exists|n: nat| #[trigger] reachable_within(gs, es, start, n).contains(s)
}

/// Whether a point ends the walk: its operand is equivalent to `to`, and it is strict
/// when a strict chain is needed.
pub open spec fn is_goal(gs: Seq<Seq<Seq<char>>>, to: Seq<char>, needs_strict: bool, s: WalkState) -> bool {
    operands_equivalent(gs, s.0, to) && (!needs_strict || s.1)
}

/// Whether a chain of `<` and `<=` clauses among `cs` leads from `from` to an operand
/// equivalent to `to`, passing a strict comparison when `needs_strict`.
pub open spec fn ordering_path(gs: Seq<Seq<Seq<char>>>, cs: Seq<Seq<char>>, from: Seq<char>, to: Seq<char>, needs_strict: bool) -> bool {
    exists|s: WalkState| reachable(gs, ordering_edges(cs), (from, false), s) && is_goal(gs, to, needs_strict, s)
}

/// Whether walking the chains reads only operands clear of a lone `"`: the two ends
/// and both sides of every order comparison.
pub open spec fn path_safe(cs: Seq<Seq<char>>, from: Seq<char>, to: Seq<char>) -> bool {
    &&& operand_safe(from)
    &&& operand_safe(to)
    &&& edges_safe(cs)
}

/// Whether both sides of every order comparison among `cs` are clear of a lone `"`.
pub open spec fn edges_safe(cs: Seq<Seq<char>>) -> bool {
    forall|i: int| 0 <= i < ordering_edges(cs).len() ==> operand_safe((#[trigger] ordering_edges(cs)[i]).left)
        && operand_safe(ordering_edges(cs)[i].right)
}

/// The models of walk points.
pub open spec fn state_views(v: Seq<(String, bool)>) -> Seq<WalkState> {
    Seq::new(v.len(), |i: int| (v[i].0@, v[i].1))
}

/// Whether a point's operand is `from` or the right side of a comparison.
pub open spec fn in_universe(es: Seq<EdgeV>, from: Seq<char>, s: WalkState) -> bool {
    s.0 == from || exists|j: int| 0 <= j < es.len() && (#[trigger] es[j]).right == s.0
}

/// Every point whose operand is `from` or the right side of a comparison, listed.
pub open spec fn universe(es: Seq<EdgeV>, from: Seq<char>) -> Seq<WalkState> {
    seq![(from, false), (from, true)] + Seq::new(es.len(), |j: int| (es[j].right, false)) + Seq::new(es.len(), |j: int| (es[j].right, true))
}

proof fn lemma_universe_bound(es: Seq<EdgeV>, from: Seq<char>, v: Seq<WalkState>)
    requires
        v.no_duplicates(),
        forall|i: int| 0 <= i < v.len() ==> in_universe(es, from, #[trigger] v[i]),
    ensures
        v.len() <= 2 * es.len() + 2,
{
    let u = universe(es, from);
    assert forall|s: WalkState| v.to_set().contains(s) implies u.to_set().contains(s) by {
        let i = choose|i: int| 0 <= i < v.len() && v[i] == s;
        assert(in_universe(es, from, v[i]));
        if s.0 == from {
            if s.1 {
                assert(u[1] == s);
            } else {
                assert(u[0] == s);
            }
        } else {
            let j = choose|j: int| 0 <= j < es.len() && (#[trigger] es[j]).right == s.0;
            if s.1 {
                assert(u[2 + es.len() + j] == s);
            } else {
                assert(u[2 + j] == s);
            }
        }
    }
    vstd::seq_lib::seq_to_set_is_finite(u);
    v.unique_seq_to_set();
    u.lemma_cardinality_of_set();
    vstd::set_lib::lemma_len_subset(v.to_set(), u.to_set());
}

proof fn lemma_reachable_step(gs: Seq<Seq<Seq<char>>>, es: Seq<EdgeV>, start: WalkState, a: WalkState, b: WalkState)
    requires
        reachable(gs, es, start, a),
        steps_to(gs, es, a, b),
    ensures
        reachable(gs, es, start, b),
{
    let n = choose|n: nat| #[trigger] reachable_within(gs, es, start, n).contains(a);
    assert(reachable_within(gs, es, start, n + 1).contains(b));
}

proof fn lemma_closed_covers(gs: Seq<Seq<Seq<char>>>, es: Seq<EdgeV>, start: WalkState, vs: Seq<WalkState>, n: nat)
    requires
        vs.contains(start),
        forall|v: WalkState, t: WalkState| vs.contains(v) && steps_to(gs, es, v, t) ==> vs.contains(t),
    ensures
        forall|s: WalkState| reachable_within(gs, es, start, n).contains(s) ==> vs.contains(s),
    decreases n,
{
    if n > 0 {
        lemma_closed_covers(gs, es, start, vs, (n - 1) as nat);
    }
}

fn contains_state(visited: &Vec<(String, bool)>, operand: &str, strict: bool) -> (r: bool)
    ensures
        r == state_views(visited@).contains((operand@, strict)),
{
    let mut i: usize = 0;
    while i < visited.len()
        invariant
            0 <= i <= visited@.len(),
            forall|j: int| 0 <= j < i ==> state_views(visited@)[j] != (operand@, strict),
        decreases visited.len() - i,
    {
        if str_eq(visited[i].0.as_str(), operand) && visited[i].1 == strict {
            assert(state_views(visited@)[i as int] == (operand@, strict));
            return true;
        }
        i += 1;
    }
    false
}

/// Whether a chain of `<` and `<=` clauses among the required clauses leads from
/// `from` to an operand equivalent to `to`, passing a strict comparison when
/// `needs_strict`.
pub fn ordering_path_exists(required_clauses: &Vec<String>, from: &str, to: &str, needs_strict: bool, equivalences: &RepairEquivalences) -> (r: bool)
    requires
        path_safe(required_clauses.deep_view(), from@, to@),
    ensures
        r == ordering_path(equivalences.view_groups(), required_clauses.deep_view(), from@, to@, needs_strict),
{
    let ghost gs = equivalences.view_groups();
    let ghost cs = required_clauses.deep_view();
    let edges = ordering_edges_of(required_clauses);
    let ghost es = edge_views(edges@);
    let ghost start: WalkState = (from@, false);
    let ghost bound: int = (2 * es.len() + 2) as int;
    let mut pending: Vec<(String, bool)> = Vec::new();
    pending.push((string_of(from), false));
    let mut visited: Vec<(String, bool)> = Vec::new();
    proof {
        assert(state_views(pending@)[0] == start);
        assert(reachable_within(gs, es, start, 0).contains(start));
    }
    while pending.len() > 0
        invariant
            es == edge_views(edges@),
            es == ordering_edges(cs),
            cs == required_clauses.deep_view(),
            gs == equivalences.view_groups(),
            start == (from@, false),
            bound == 2 * es.len() + 2,
            path_safe(cs, from@, to@),
            forall|i: int| 0 <= i < pending@.len() ==> reachable(gs, es, start, #[trigger] state_views(pending@)[i])
                && in_universe(es, from@, state_views(pending@)[i]),
            forall|i: int| 0 <= i < visited@.len() ==> reachable(gs, es, start, #[trigger] state_views(visited@)[i])
                && in_universe(es, from@, state_views(visited@)[i])
                && !is_goal(gs, to@, needs_strict, state_views(visited@)[i]),
            forall|v: WalkState, t: WalkState| state_views(visited@).contains(v) && steps_to(gs, es, v, t)
                ==> state_views(visited@).contains(t) || state_views(pending@).contains(t),
            state_views(visited@).contains(start) || state_views(pending@).contains(start),
            state_views(visited@).no_duplicates(),
            visited@.len() <= bound,
        decreases bound - visited@.len(), pending@.len(),
    {
        let ghost before_pending = state_views(pending@);
        let ghost before_visited = state_views(visited@);
        let (current, has_strict) = match pending.pop() {
            Some(x) => x,
            None => return false,
        };
        let ghost cur: WalkState = (current@, has_strict);
        proof {
            assert(before_pending =~= state_views(pending@).push(cur));
            assert(before_pending[before_pending.len() - 1] == cur);
            assert(reachable(gs, es, start, cur) && in_universe(es, from@, cur));
            if cur.0 != from@ {
                let j = choose|j: int| 0 <= j < es.len() && (#[trigger] es[j]).right == cur.0;
                assert(operand_safe(ordering_edges(cs)[j].right));
            }
        }
        if repair_operands_equivalent(current.as_str(), to, equivalences) && (!needs_strict || has_strict) {
            proof {
                assert(is_goal(gs, to@, needs_strict, cur));
            }
            return true;
        }
        if contains_state(&visited, current.as_str(), has_strict) {
            proof {
                assert forall|v: WalkState, t: WalkState| state_views(visited@).contains(v) && steps_to(gs, es, v, t)
                    implies state_views(visited@).contains(t) || state_views(pending@).contains(t) by {
                    if before_pending.contains(t) && !state_views(pending@).contains(t) {
                        let k = choose|k: int| 0 <= k < before_pending.len() && before_pending[k] == t;
                        if k < state_views(pending@).len() {
                            assert(state_views(pending@)[k] == t);
                        }
                    }
                }
                if !state_views(pending@).contains(start) && before_pending.contains(start) {
                    let k = choose|k: int| 0 <= k < before_pending.len() && before_pending[k] == start;
                    if k < state_views(pending@).len() {
                        assert(state_views(pending@)[k] == start);
                    }
                }
                assert forall|i: int| 0 <= i < pending@.len() implies reachable(gs, es, start, #[trigger] state_views(pending@)[i])
                    && in_universe(es, from@, state_views(pending@)[i]) by {
                    assert(state_views(pending@)[i] == before_pending[i]);
                }
            }
            continue;
        }
        let ghost mid_pending = state_views(pending@);
        visited.push((string_of(current.as_str()), has_strict));
        proof {
            assert(state_views(visited@) =~= before_visited.push(cur));
            assert forall|i: int, j: int| 0 <= i < j < state_views(visited@).len() implies state_views(visited@)[i] != state_views(visited@)[j] by {
                if j == before_visited.len() {
                    assert(before_visited[i] != cur);
                } else {
                    assert(before_visited[i] != before_visited[j]);
                }
            }
            lemma_universe_bound(es, from@, state_views(visited@));
            assert(state_views(pending@).take(mid_pending.len() as int) =~= mid_pending);
            assert forall|i: int| 0 <= i < pending@.len() implies reachable(gs, es, start, #[trigger] state_views(pending@)[i])
                && in_universe(es, from@, state_views(pending@)[i]) by {
                assert(state_views(pending@)[i] == before_pending[i]);
            }
        }
        let mut k: usize = 0;
        while k < edges.len()
            invariant
                es == edge_views(edges@),
                es == ordering_edges(cs),
                gs == equivalences.view_groups(),
                start == (from@, false),
                cur == (current@, has_strict),
                reachable(gs, es, start, cur),
                path_safe(cs, from@, to@),
                operand_safe(current@),
                0 <= k <= edges@.len(),
                state_views(pending@).len() >= mid_pending.len(),
                state_views(pending@).take(mid_pending.len() as int) == mid_pending,
                forall|i: int| 0 <= i < mid_pending.len() ==> reachable(gs, es, start, #[trigger] mid_pending[i])
                    && in_universe(es, from@, mid_pending[i]),
                forall|i: int| 0 <= i < pending@.len() ==> reachable(gs, es, start, #[trigger] state_views(pending@)[i])
                    && in_universe(es, from@, state_views(pending@)[i]),
                forall|j: int| 0 <= j < k && operands_equivalent(gs, cur.0, (#[trigger] es[j]).left)
                    ==> state_views(pending@).contains((es[j].right, has_strict || es[j].strict)),
            decreases edges.len() - k,
        {
            proof {
                assert(es[k as int] == edge_view(edges@[k as int]));
                assert(operand_safe(ordering_edges(cs)[k as int].left));
            }
            if repair_operands_equivalent(current.as_str(), edges[k].left.as_str(), equivalences) {
                let ghost before = state_views(pending@);
                let next = (string_of(edges[k].right.as_str()), has_strict || edges[k].strict);
                pending.push(next);
                proof {
                    let t: WalkState = (es[k as int].right, has_strict || es[k as int].strict);
                    assert(state_views(pending@) =~= before.push(t));
                    assert(steps_to(gs, es, cur, t));
                    lemma_reachable_step(gs, es, start, cur, t);
                    assert(in_universe(es, from@, t));
                    assert(state_views(pending@).take(mid_pending.len() as int) =~= before.take(mid_pending.len() as int));
                    assert forall|i: int| 0 <= i < pending@.len() implies reachable(gs, es, start, #[trigger] state_views(pending@)[i])
                        && in_universe(es, from@, state_views(pending@)[i]) by {
                        if i < before.len() {
                            assert(state_views(pending@)[i] == before[i]);
                        }
                    }
                    assert forall|j: int| 0 <= j < k + 1 && operands_equivalent(gs, cur.0, (#[trigger] es[j]).left)
                        implies state_views(pending@).contains((es[j].right, has_strict || es[j].strict)) by {
                        if j < k {
                            let w = choose|w: int| 0 <= w < before.len() && before[w] == (es[j].right, has_strict || es[j].strict);
                            assert(state_views(pending@)[w] == before[w]);
                        } else {
                            assert(state_views(pending@)[before.len() as int] == t);
                        }
                    }
                }
            }
            k += 1;
        }
        proof {
            let vs = state_views(visited@);
            let ps = state_views(pending@);
            assert forall|x: WalkState| mid_pending.contains(x) implies ps.contains(x) by {
                let w = choose|w: int| 0 <= w < mid_pending.len() && mid_pending[w] == x;
                assert(ps.take(mid_pending.len() as int)[w] == x);
                assert(ps[w] == x);
            }
            assert forall|v: WalkState, t: WalkState| vs.contains(v) && steps_to(gs, es, v, t) implies vs.contains(t) || ps.contains(t) by {
                if v == cur {
                    let j = choose|j: int| 0 <= j < es.len() && operands_equivalent(gs, v.0, (#[trigger] es[j]).left) && t == (es[j].right, v.1 || es[j].strict);
                    assert(ps.contains((es[j].right, has_strict || es[j].strict)));
                } else {
                    let w = choose|w: int| 0 <= w < vs.len() && vs[w] == v;
                    assert(before_visited.contains(v)) by {
                        assert(w < before_visited.len());
                        assert(before_visited[w] == v);
                    }
                    if before_visited.contains(t) {
                        let z = choose|z: int| 0 <= z < before_visited.len() && before_visited[z] == t;
                        assert(vs[z] == t);
                    } else {
                        assert(before_pending.contains(t));
                        if t == cur {
                            assert(vs[before_visited.len() as int] == t);
                        } else {
                            let z = choose|z: int| 0 <= z < before_pending.len() && before_pending[z] == t;
                            assert(z < mid_pending.len());
                            assert(mid_pending[z] == t);
                        }
                    }
                }
            }
            if before_visited.contains(start) {
                let z = choose|z: int| 0 <= z < before_visited.len() && before_visited[z] == start;
                assert(vs[z] == start);
            } else if start == cur {
                assert(vs[before_visited.len() as int] == start);
            } else {
                let z = choose|z: int| 0 <= z < before_pending.len() && before_pending[z] == start;
                assert(mid_pending[z] == start);
            }
            assert forall|i: int| 0 <= i < visited@.len() implies reachable(gs, es, start, #[trigger] state_views(visited@)[i])
                && in_universe(es, from@, state_views(visited@)[i])
                && !is_goal(gs, to@, needs_strict, state_views(visited@)[i]) by {
                if i < before_visited.len() {
                    assert(vs[i] == before_visited[i]);
                }
            }
        }
    }
    proof {
        let vs = state_views(visited@);
        assert(state_views(pending@) =~= Seq::<WalkState>::empty());
        assert forall|v: WalkState, t: WalkState| vs.contains(v) && steps_to(gs, es, v, t) implies vs.contains(t) by {
            assert(!state_views(pending@).contains(t));
        }
        assert(vs.contains(start));
        assert forall|s: WalkState| reachable(gs, es, start, s) implies !is_goal(gs, to@, needs_strict, s) by {
            let n = choose|n: nat| #[trigger] reachable_within(gs, es, start, n).contains(s);
            lemma_closed_covers(gs, es, start, vs, n);
            assert(vs.contains(s));
            let w = choose|w: int| 0 <= w < vs.len() && vs[w] == s;
            assert(reachable(gs, es, start, state_views(visited@)[w]));
        }
    }
    false
}

/// Whether the clause is a disequality of operands equivalent to `left` and `right`,
/// in either order.
pub open spec fn disequality_of(gs: Seq<Seq<Seq<char>>>, clause: Seq<char>, left: Seq<char>, right: Seq<char>) -> bool {
    match parsed_comparison(clause) {
        Some(c) => c.1 == "!="@ && ((operands_equivalent(gs, c.0, left) && operands_equivalent(gs, c.2, right))
            || (operands_equivalent(gs, c.0, right) && operands_equivalent(gs, c.2, left))),
        None => false,
    }
}

/// Whether both sides of every disequality among `cs` are clear of a lone `"`.
pub open spec fn disequalities_safe(cs: Seq<Seq<char>>) -> bool {
    forall|i: int| 0 <= i < cs.len() ==> match parsed_comparison(#[trigger] cs[i]) {
        Some(c) => c.1 == "!="@ ==> operand_safe(c.0) && operand_safe(c.2),
        None => true,
    }
}

/// Whether a required clause is a disequality of `left` and `right`, up to equivalent
/// operands.
pub fn disequality_clause_exists(required_clauses: &Vec<String>, left: &str, right: &str, equivalences: &RepairEquivalences) -> (r: bool)
    requires
        disequalities_safe(required_clauses.deep_view()),
        operand_safe(left@),
        operand_safe(right@),
    ensures
        r == exists|i: int| 0 <= i < required_clauses@.len() && disequality_of(equivalences.view_groups(), #[trigger] required_clauses.deep_view()[i], left@, right@),
{
    proof { reveal_strlit("!="); }
    let ghost cs = required_clauses.deep_view();
    let mut i: usize = 0;
    while i < required_clauses.len()
        invariant
            0 <= i <= cs.len(),
            cs == required_clauses.deep_view(),
            disequalities_safe(cs),
            operand_safe(left@),
            operand_safe(right@),
            forall|j: int| 0 <= j < i ==> !disequality_of(equivalences.view_groups(), #[trigger] cs[j], left@, right@),
        decreases required_clauses.len() - i,
    {
        assert(cs[i as int] == required_clauses@[i as int]@);
        if let Some(parsed) = ParsedRepairComparison::parse(required_clauses[i].as_str()) {
            if str_eq(parsed.operator, "!=")
                && crate::implication::repair_operands_equivalent_unordered(parsed.left.as_str(), parsed.right.as_str(), left, right, equivalences) {
                assert(disequality_of(equivalences.view_groups(), cs[i as int], left@, right@));
                return true;
            }
        }
        i += 1;
    }
    false
}

/// Whether a chain of order comparisons passes from `from` through `a`, then from `a`
/// to `b`, then from `b` to `to`.
pub open spec fn lies_on_path(gs: Seq<Seq<Seq<char>>>, cs: Seq<Seq<char>>, from: Seq<char>, to: Seq<char>, a: Seq<char>, b: Seq<char>) -> bool {
    ordering_path(gs, cs, from, a, false) && ordering_path(gs, cs, a, b, false) && ordering_path(gs, cs, b, to, false)
}

/// Whether the disequality of `disequal_left` and `disequal_right` lies on a chain
/// from `from` to `to`.
pub fn disequality_lies_on_ordering_path(
    required_clauses: &Vec<String>,
    from: &str,
    to: &str,
    disequal_left: &str,
    disequal_right: &str,
    equivalences: &RepairEquivalences,
) -> (r: bool)
    requires
        edges_safe(required_clauses.deep_view()),
        operand_safe(from@),
        operand_safe(to@),
        operand_safe(disequal_left@),
        operand_safe(disequal_right@),
    ensures
        r == lies_on_path(equivalences.view_groups(), required_clauses.deep_view(), from@, to@, disequal_left@, disequal_right@),
{
    ordering_path_exists(required_clauses, from, disequal_left, false, equivalences)
        && ordering_path_exists(required_clauses, disequal_left, disequal_right, false, equivalences)
        && ordering_path_exists(required_clauses, disequal_right, to, false, equivalences)
}

/// Whether the clause is a disequality that lies, either way round, on a chain from
/// `from` to `to`.
pub open spec fn disequality_on_path(gs: Seq<Seq<Seq<char>>>, cs: Seq<Seq<char>>, clause: Seq<char>, from: Seq<char>, to: Seq<char>) -> bool {
    match parsed_comparison(clause) {
        Some(c) => c.1 == "!="@ && (lies_on_path(gs, cs, from, to, c.0, c.2) || lies_on_path(gs, cs, from, to, c.2, c.0)),
        None => false,
    }
}

/// Whether some required disequality lies on a chain from `from` to `to`, which makes
/// the chain strict.
pub fn ordering_path_contains_disequality(required_clauses: &Vec<String>, from: &str, to: &str, equivalences: &RepairEquivalences) -> (r: bool)
    requires
        edges_safe(required_clauses.deep_view()),
        disequalities_safe(required_clauses.deep_view()),
        operand_safe(from@),
        operand_safe(to@),
    ensures
        r == exists|i: int| 0 <= i < required_clauses@.len()
            && disequality_on_path(equivalences.view_groups(), required_clauses.deep_view(), #[trigger] required_clauses.deep_view()[i], from@, to@),
{
    proof { reveal_strlit("!="); }
    let ghost cs = required_clauses.deep_view();
    let mut i: usize = 0;
    while i < required_clauses.len()
        invariant
            0 <= i <= cs.len(),
            cs == required_clauses.deep_view(),
            edges_safe(cs),
            disequalities_safe(cs),
            operand_safe(from@),
            operand_safe(to@),
            forall|j: int| 0 <= j < i ==> !disequality_on_path(equivalences.view_groups(), cs, #[trigger] cs[j], from@, to@),
        decreases required_clauses.len() - i,
    {
        assert(cs[i as int] == required_clauses@[i as int]@);
        if let Some(parsed) = ParsedRepairComparison::parse(required_clauses[i].as_str()) {
            if str_eq(parsed.operator, "!=") {
                if disequality_lies_on_ordering_path(required_clauses, from, to, parsed.left.as_str(), parsed.right.as_str(), equivalences)
                    || disequality_lies_on_ordering_path(required_clauses, from, to, parsed.right.as_str(), parsed.left.as_str(), equivalences) {
                    assert(disequality_on_path(equivalences.view_groups(), cs, cs[i as int], from@, to@));
                    return true;
                }
            }
        }
        i += 1;
    }
    false
}

/// Whether chains of the required order comparisons imply the wanted comparison:
/// `a == b` by chains both ways, `a < b` by a strict chain or by a chain with a
/// disequality of the two ends or on the way, `a <= b` by any chain, `a != b` by a
/// strict chain either way.
pub open spec fn ordering_implies(gs: Seq<Seq<Seq<char>>>, cs: Seq<Seq<char>>, wanted: (Seq<char>, Seq<char>, Seq<char>)) -> bool {
    let (a, op, b) = wanted;
    if op == "=="@ {
        ordering_path(gs, cs, a, b, false) && ordering_path(gs, cs, b, a, false)
    } else if op == "<"@ {
        ordering_path(gs, cs, a, b, true) || (ordering_path(gs, cs, a, b, false)
            && ((exists|i: int| 0 <= i < cs.len() && disequality_of(gs, #[trigger] cs[i], a, b))
                || (exists|i: int| 0 <= i < cs.len() && disequality_on_path(gs, cs, #[trigger] cs[i], a, b))))
    } else if op == "<="@ {
        ordering_path(gs, cs, a, b, false)
    } else if op == "!="@ {
        ordering_path(gs, cs, a, b, true) || ordering_path(gs, cs, b, a, true)
    } else {
        false
    }
}

/// Whether chains of the required order comparisons imply the wanted comparison.
pub fn ordering_path_implies_clause(required_clauses: &Vec<String>, wanted: &ParsedRepairComparison, equivalences: &RepairEquivalences) -> (r: bool)
    requires
        edges_safe(required_clauses.deep_view()),
        disequalities_safe(required_clauses.deep_view()),
        operand_safe(wanted.left@),
        operand_safe(wanted.right@),
    ensures
        r == ordering_implies(equivalences.view_groups(), required_clauses.deep_view(), crate::bounds::parsed_view(wanted)),
{
    proof {
        reveal_strlit("==");
        reveal_strlit("<");
        reveal_strlit("<=");
        reveal_strlit("!=");
    }
    let (a, b) = (wanted.left.as_str(), wanted.right.as_str());
    if str_eq(wanted.operator, "==") {
        ordering_path_exists(required_clauses, a, b, false, equivalences) && ordering_path_exists(required_clauses, b, a, false, equivalences)
    } else if str_eq(wanted.operator, "<") {
        ordering_path_exists(required_clauses, a, b, true, equivalences)
            || (ordering_path_exists(required_clauses, a, b, false, equivalences)
                && (disequality_clause_exists(required_clauses, a, b, equivalences)
                    || ordering_path_contains_disequality(required_clauses, a, b, equivalences)))
    } else if str_eq(wanted.operator, "<=") {
        ordering_path_exists(required_clauses, a, b, false, equivalences)
    } else if str_eq(wanted.operator, "!=") {
        ordering_path_exists(required_clauses, a, b, true, equivalences) || ordering_path_exists(required_clauses, b, a, true, equivalences)
    } else {
        false
    }
}

/// Whether every order comparison holds of the values `val` gives operands.
pub open spec fn edges_hold(es: Seq<EdgeV>, val: spec_fn(Seq<char>) -> int) -> bool {
    forall|i: int| 0 <= i < es.len() ==> if (#[trigger] es[i]).strict { val(es[i].left) < val(es[i].right) } else { val(es[i].left) <= val(es[i].right) }
}

/// Whether equivalent operands get the same value.
pub open spec fn respects(gs: Seq<Seq<Seq<char>>>, val: spec_fn(Seq<char>) -> int) -> bool {
    forall|a: Seq<char>, b: Seq<char>| #[trigger] operands_equivalent(gs, a, b) ==> val(a) == val(b)
}

proof fn lemma_walk_bounds(gs: Seq<Seq<Seq<char>>>, es: Seq<EdgeV>, from: Seq<char>, val: spec_fn(Seq<char>) -> int, n: nat)
    requires
        edges_hold(es, val),
        respects(gs, val),
    ensures
        forall|s: WalkState| #[trigger] reachable_within(gs, es, (from, false), n).contains(s)
            ==> val(from) <= val(s.0) && (s.1 ==> val(from) < val(s.0)),
    decreases n,
{
    if n > 0 {
        lemma_walk_bounds(gs, es, from, val, (n - 1) as nat);
        let before = reachable_within(gs, es, (from, false), (n - 1) as nat);
        assert forall|s: WalkState| #[trigger] reachable_within(gs, es, (from, false), n).contains(s)
            implies val(from) <= val(s.0) && (s.1 ==> val(from) < val(s.0)) by {
            if !before.contains(s) {
                let a = choose|a: WalkState| before.contains(a) && steps_to(gs, es, a, s);
                let i = choose|i: int| 0 <= i < es.len() && operands_equivalent(gs, a.0, (#[trigger] es[i]).left) && s == (es[i].right, a.1 || es[i].strict);
                assert(val(a.0) == val(es[i].left));
            }
        }
    }
}

/// A chain of order comparisons is sound: when every required order comparison holds
/// of some values of the operands, and equivalent operands have equal values, a chain
/// from `from` to `to` gives `from <= to`, and a strict chain gives `from < to`.
pub proof fn law_ordering_path_sound(
    gs: Seq<Seq<Seq<char>>>,
    cs: Seq<Seq<char>>,
    from: Seq<char>,
    to: Seq<char>,
    needs_strict: bool,
    val: spec_fn(Seq<char>) -> int,
)
    requires
        edges_hold(ordering_edges(cs), val),
        respects(gs, val),
        ordering_path(gs, cs, from, to, needs_strict),
    ensures
        val(from) <= val(to),
        needs_strict ==> val(from) < val(to),
{
    let es = ordering_edges(cs);
    let s = choose|s: WalkState| reachable(gs, es, (from, false), s) && is_goal(gs, to, needs_strict, s);
    let n = choose|n: nat| #[trigger] reachable_within(gs, es, (from, false), n).contains(s);
    lemma_walk_bounds(gs, es, from, val, n);
    assert(val(s.0) == val(to));
}

} // verus!
