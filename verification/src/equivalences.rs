//! Operands that required clauses state to be equal, kept in disjoint groups, and
//! operand comparison up to those equalities.
use vstd::prelude::*;

use crate::clauses::{
    compact, compact_predicate_text, ident_end, ident_start, is_ident_start, lemma_ident_end, lemma_string_end, lex_less,
    string_end, text_less, value_position,
};
use crate::numeric::{compact_direct_repair_expression_text, direct_expression, direct_expression_safe};
use crate::predicate_text::{is_white, is_whitespace, strip_balanced_outer_parens, strip_parens, string_from};
use crate::text::{chars_of, contains_str, push_char, str_eq};

verus! {

/// An operand as equalities compare it: without wrapping parentheses, compacted, with
/// parenthesized atoms unwrapped.
pub open spec fn normalized_operand(operand: Seq<char>) -> Seq<char> {
    direct_expression(strip_parens(operand))
}

/// Whether normalizing the operand stays clear of a lone `"`.
pub open spec fn operand_safe(operand: Seq<char>) -> bool {
    direct_expression_safe(strip_parens(operand))
}

/// An operand as equalities compare it.
pub fn normalized_repair_operand_text(operand: &str) -> (r: String)
    requires
        operand_safe(operand@),
    ensures
        r@ == normalized_operand(operand@),
{
    let stripped = strip_balanced_outer_parens(operand);
    compact_direct_repair_expression_text(stripped.as_str())
}

/// The first group, from index `i` on, that holds `x`.
pub open spec fn group_from(gs: Seq<Seq<Seq<char>>>, x: Seq<char>, i: int) -> Option<int>
    decreases gs.len() - i,
{
    if i < 0 || i >= gs.len() {
        None
    } else if gs[i].contains(x) {
        Some(i)
    } else {
        group_from(gs, x, i + 1)
    }
}

/// The first group that holds `x`.
pub open spec fn group_of(gs: Seq<Seq<Seq<char>>>, x: Seq<char>) -> Option<int> {
    group_from(gs, x, 0)
}

proof fn lemma_group_from(gs: Seq<Seq<Seq<char>>>, x: Seq<char>, i: int)
    requires
        0 <= i,
    ensures
        group_from(gs, x, i) matches Some(k) ==> i <= k < gs.len() && gs[k].contains(x),
        group_from(gs, x, i) is None ==> forall|k: int| i <= k < gs.len() ==> !(#[trigger] gs[k]).contains(x),
    decreases gs.len() - i,
{
    if i < gs.len() && !gs[i].contains(x) {
        lemma_group_from(gs, x, i + 1);
    }
}

/// Whether some group holds both `x` and `y`.
pub open spec fn same_group(gs: Seq<Seq<Seq<char>>>, x: Seq<char>, y: Seq<char>) -> bool {
    exists|i: int| 0 <= i < gs.len() && (#[trigger] gs[i]).contains(x) && gs[i].contains(y)
}

/// The groups are pairwise disjoint and none repeats an item.
pub open spec fn groups_wf(gs: Seq<Seq<Seq<char>>>) -> bool {
    &&& forall|i: int| 0 <= i < gs.len() ==> (#[trigger] gs[i]).no_duplicates()
    &&& forall|i: int, j: int, x: Seq<char>|
        #![trigger gs[i].contains(x), gs[j].contains(x)]
        0 <= i < gs.len() && 0 <= j < gs.len() && i != j && gs[i].contains(x) ==> !gs[j].contains(x)
}

/// The groups after recording that `a` and `b` are equal: their groups merged, or the
/// missing one added to the other's group, or a new group of the two.
pub open spec fn joined(gs: Seq<Seq<Seq<char>>>, a: Seq<char>, b: Seq<char>) -> Seq<Seq<Seq<char>>> {
    if a == b {
        gs
    } else {
        match (group_of(gs, a), group_of(gs, b)) {
            (Some(li), Some(ri)) => if li != ri {
                let rest = gs.remove(ri);
                let d = if ri < li { li - 1 } else { li };
                rest.update(d, rest[d] + gs[ri])
            } else {
                gs
            },
            (Some(i), None) => gs.update(i, gs[i].push(b)),
            (None, Some(i)) => gs.update(i, gs[i].push(a)),
            (None, None) => gs.push(seq![a, b]),
        }
    }
}

/// Whether two operands are equal as written, after normalizing, or through recorded
/// equalities.
pub open spec fn equivalent_view(gs: Seq<Seq<Seq<char>>>, left: Seq<char>, right: Seq<char>) -> bool {
    normalized_operand(left) == normalized_operand(right) || same_group(gs, normalized_operand(left), normalized_operand(right))
}

/// Operands known to be equal, in disjoint groups.
pub struct RepairEquivalences {
    pub groups: Vec<Vec<String>>,
}

impl RepairEquivalences {
    /// The model of the groups.
    pub open spec fn view_groups(&self) -> Seq<Seq<Seq<char>>> {
        self.groups.deep_view()
    }

    /// No recorded equalities.
    pub fn new() -> (r: RepairEquivalences)
        ensures
            r.view_groups() == Seq::<Seq<Seq<char>>>::empty(),
            groups_wf(r.view_groups()),
    {
        let r = RepairEquivalences { groups: Vec::new() };
        assert(r.view_groups() =~= Seq::<Seq<Seq<char>>>::empty());
        r
    }

    /// The index of the first group that holds `operand`.
    pub fn group_index(&self, operand: &str) -> (r: Option<usize>)
        ensures
            match r {
                Some(i) => group_of(self.view_groups(), operand@) == Some(i as int),
                None => group_of(self.view_groups(), operand@) is None,
            },
    {
        let ghost gs = self.view_groups();
        let mut i: usize = 0;
        while i < self.groups.len()
            invariant
                0 <= i <= self.groups@.len(),
                gs == self.view_groups(),
                group_of(gs, operand@) == group_from(gs, operand@, i as int),
            decreases self.groups.len() - i,
        {
            assert(self.groups@[i as int].deep_view() == gs[i as int]);
            if contains_str(&self.groups[i], operand) {
                return Some(i);
            }
            i += 1;
        }
        None
    }

    /// Records that `left` and `right` are equal, both taken as normalized operands.
    pub fn union(&mut self, left: &str, right: &str)
        requires
            operand_safe(left@),
            operand_safe(right@),
            groups_wf(old(self).view_groups()),
        ensures
            final(self).view_groups() == joined(old(self).view_groups(), normalized_operand(left@), normalized_operand(right@)),
            groups_wf(final(self).view_groups()),
    {
        let l = normalized_repair_operand_text(left);
        let r = normalized_repair_operand_text(right);
        let ghost gs = self.view_groups();
        proof { lemma_joined_wf(gs, l@, r@); }
        if str_eq(l.as_str(), r.as_str()) {
            return;
        }
        let li = self.group_index(l.as_str());
        let ri = self.group_index(r.as_str());
        proof {
            lemma_group_from(gs, l@, 0);
            lemma_group_from(gs, r@, 0);
        }
        match (li, ri) {
            (Some(li), Some(ri)) => {
                if li != ri {
                    self.merge_groups(li, ri);
                }
            },
            (Some(i), None) => self.add_to_group(i, r),
            (None, Some(i)) => self.add_to_group(i, l),
            (None, None) => {
                let mut g: Vec<String> = Vec::new();
                let ghost lv = l@;
                let ghost rv = r@;
                g.push(l);
                g.push(r);
                assert(g.deep_view() =~= seq![lv, rv]);
                self.groups.push(g);
                assert(self.view_groups() =~= gs.push(seq![lv, rv]));
            },
        }
    }

    /// Moves the items of group `ri` into group `li`, dropping group `ri`.
    fn merge_groups(&mut self, li: usize, ri: usize)
        requires
            li < old(self).groups@.len(),
            ri < old(self).groups@.len(),
            li != ri,
        ensures
            final(self).view_groups() == ({
                let gs = old(self).view_groups();
                let rest = gs.remove(ri as int);
                let d = if ri < li { li - 1 } else { li as int };
                rest.update(d, rest[d] + gs[ri as int])
            }),
    {
        let ghost gs = self.view_groups();
        let ghost rest = gs.remove(ri as int);
        let mut right_group = self.groups.remove(ri);
        assert(right_group.deep_view() == gs[ri as int]);
        assert(self.view_groups() =~= rest);
        let d = if ri < li { li - 1 } else { li };
        let mut dest = self.groups.remove(d);
        assert(dest.deep_view() == rest[d as int]);
        let ghost shorter = self.view_groups();
        assert(shorter =~= rest.remove(d as int));
        let ghost dv = dest.deep_view();
        let ghost rv = right_group.deep_view();
        dest.append(&mut right_group);
        assert(dest.deep_view() =~= dv + rv);
        self.groups.insert(d, dest);
        assert(self.view_groups() =~= shorter.insert(d as int, dv + rv));
        assert(self.view_groups() =~= rest.update(d as int, rest[d as int] + gs[ri as int]));
    }

    /// Adds `item` to group `i`.
    fn add_to_group(&mut self, i: usize, item: String)
        requires
            i < old(self).groups@.len(),
        ensures
            final(self).view_groups() == old(self).view_groups().update(i as int, old(self).view_groups()[i as int].push(item@)),
    {
        let ghost gs = self.view_groups();
        let mut g = self.groups.remove(i);
        let ghost shorter = self.view_groups();
        assert(shorter =~= gs.remove(i as int));
        let ghost gv = g.deep_view();
        assert(gv == gs[i as int]);
        let ghost iv = item@;
        g.push(item);
        assert(g.deep_view() =~= gv.push(iv));
        self.groups.insert(i, g);
        assert(self.view_groups() =~= shorter.insert(i as int, gv.push(iv)));
        assert(self.view_groups() =~= gs.update(i as int, gs[i as int].push(iv)));
    }

    /// Whether `left` and `right` are known to be equal.
    pub fn equivalent(&self, left: &str, right: &str) -> (r: bool)
        requires
            operand_safe(left@),
            operand_safe(right@),
        ensures
            r == equivalent_view(self.view_groups(), left@, right@),
    {
        let l = normalized_repair_operand_text(left);
        let r = normalized_repair_operand_text(right);
        if str_eq(l.as_str(), r.as_str()) {
            return true;
        }
        let ghost gs = self.view_groups();
        let mut i: usize = 0;
        while i < self.groups.len()
            invariant
                0 <= i <= self.groups@.len(),
                gs == self.view_groups(),
                forall|k: int| 0 <= k < i ==> !((#[trigger] gs[k]).contains(l@) && gs[k].contains(r@)),
            decreases self.groups.len() - i,
        {
            assert(self.groups@[i as int].deep_view() == gs[i as int]);
            if contains_str(&self.groups[i], l.as_str()) && contains_str(&self.groups[i], r.as_str()) {
                return true;
            }
            i += 1;
        }
        false
    }
}

/// The smallest text of a non-empty group, the first of equal ones.
pub open spec fn min_text(g: Seq<Seq<char>>) -> Seq<char>
    decreases g.len(),
{
    if g.len() <= 1 {
        g[0]
    } else {
        let m = min_text(g.drop_last());
        if lex_less(g.last(), m) { g.last() } else { m }
    }
}

/// The operand a group stands for: the smallest text of the first group that holds
/// `operand`, or `operand` itself when no group does.
pub open spec fn canonical_operand_view(gs: Seq<Seq<Seq<char>>>, operand: Seq<char>) -> Seq<char> {
    match group_of(gs, operand) {
        Some(i) => min_text(gs[i]),
        None => operand,
    }
}

impl RepairEquivalences {
    /// The operand that stands for `operand`'s group.
    pub fn canonical_operand(&self, operand: &str) -> (r: String)
        ensures
            r@ == canonical_operand_view(self.view_groups(), operand@),
    {
        let ghost gs = self.view_groups();
        match self.group_index(operand) {
            None => crate::text::string_of(operand),
            Some(i) => {
                proof { lemma_group_from(gs, operand@, 0); }
                let group = &self.groups[i];
                let ghost g = gs[i as int];
                assert(group.deep_view() == g);
                assert(g.len() > 0);
                let mut best = group[0].clone();
                let mut k: usize = 1;
                assert(g.take(1).drop_last() =~= Seq::<Seq<char>>::empty() || true);
                assert(min_text(g.take(1)) == g[0]);
                while k < group.len()
                    invariant
                        1 <= k <= group@.len(),
                        group.deep_view() == g,
                        best@ == min_text(g.take(k as int)),
                    decreases group.len() - k,
                {
                    assert(g.take(k + 1).drop_last() =~= g.take(k as int));
                    assert(g.take(k + 1).last() == g[k as int]);
                    assert(group@[k as int]@ == g[k as int]);
                    if text_less(group[k].as_str(), best.as_str()) {
                        best = group[k].clone();
                    }
                    k += 1;
                }
                assert(g.take(g.len() as int) =~= g);
                best
            },
        }
    }
}

/// `s` from position `i` on with white space outside string literals dropped and each
/// identifier in a value position replaced by the operand that stands for its group.
pub open spec fn canonical_scan(gs: Seq<Seq<Seq<char>>>, s: Seq<char>, i: int) -> Seq<char>
    decreases s.len() - i,
{
    if i < 0 || i >= s.len() {
        Seq::empty()
    } else if s[i] == '"' {
        proof { lemma_string_end(s, i + 1, false); }
        let e = string_end(s, i + 1, false);
        s.subrange(i, e) + canonical_scan(gs, s, e)
    } else if ident_start(s[i]) {
        proof { lemma_ident_end(s, i + 1); }
        let e = ident_end(s, i + 1);
        let id = s.subrange(i, e);
        (if value_position(s, i, e) { canonical_operand_view(gs, id) } else { id }) + canonical_scan(gs, s, e)
    } else if is_white(s[i]) {
        canonical_scan(gs, s, i + 1)
    } else {
        seq![s[i]] + canonical_scan(gs, s, i + 1)
    }
}

/// An expression with white space dropped and each named operand replaced by the one
/// that stands for its group.
pub open spec fn canonical_expression_view(gs: Seq<Seq<Seq<char>>>, expression: Seq<char>) -> Seq<char> {
    canonical_scan(gs, expression, 0)
}

fn push_range(out: &mut String, v: &Vec<char>, start: usize, end: usize)
    requires
        start <= end <= v@.len(),
    ensures
        final(out)@ == old(out)@ + v@.subrange(start as int, end as int),
{
    let mut k = start;
    while k < end
        invariant
            start <= k <= end <= v@.len(),
            out@ == old(out)@ + v@.subrange(start as int, k as int),
        decreases end - k,
    {
        push_char(out, v[k]);
        assert(old(out)@ + v@.subrange(start as int, k + 1) =~= old(out)@ + v@.subrange(start as int, k as int) + seq![v@[k as int]]);
        k += 1;
    }
}

impl RepairEquivalences {
    /// `expression` with white space dropped and each named operand replaced by the one
    /// that stands for its group.
    pub fn canonical_expression(&self, expression: &str) -> (r: String)
        ensures
            r@ == canonical_expression_view(self.view_groups(), expression@),
    {
        let v = chars_of(expression);
        let mut out = String::new();
        let mut i: usize = 0;
        while i < v.len()
            invariant
                0 <= i <= v@.len(),
                v@ == expression@,
                out@ + canonical_scan(self.view_groups(), v@, i as int) == canonical_expression_view(self.view_groups(), expression@),
            decreases v.len() - i,
        {
            let ch = v[i];
            let ghost before = out@;
            let ghost gs = self.view_groups();
            if ch == '"' {
                proof { lemma_string_end(v@, i + 1, false); }
                let e = crate::clauses::skip_string(&v, i + 1);
                push_range(&mut out, &v, i, e);
                assert(before + (v@.subrange(i as int, e as int) + canonical_scan(gs, v@, e as int)) =~= out@ + canonical_scan(gs, v@, e as int));
                i = e;
            } else if is_ident_start(ch) {
                proof { lemma_ident_end(v@, i + 1); }
                let e = crate::clauses::ident_run_end(&v, i + 1);
                let id = string_from(&v, i, e);
                let piece = if crate::clauses::value_position_at(&v, i, e) { self.canonical_operand(id.as_str()) } else { id };
                let pv = chars_of(piece.as_str());
                push_range(&mut out, &pv, 0, pv.len());
                assert(pv@.subrange(0, pv@.len() as int) =~= pv@);
                assert(before + (piece@ + canonical_scan(gs, v@, e as int)) =~= out@ + canonical_scan(gs, v@, e as int));
                i = e;
            } else if is_whitespace(ch) {
                i += 1;
            } else {
                push_char(&mut out, ch);
                assert(before + (seq![ch] + canonical_scan(gs, v@, i + 1)) =~= out@ + canonical_scan(gs, v@, i + 1));
                i += 1;
            }
        }
        assert(out@ =~= out@ + Seq::<char>::empty());
        out
    }
}

proof fn lemma_joined_wf(gs: Seq<Seq<Seq<char>>>, a: Seq<char>, b: Seq<char>)
    requires
        groups_wf(gs),
    ensures
        groups_wf(joined(gs, a, b)),
{
    lemma_group_from(gs, a, 0);
    lemma_group_from(gs, b, 0);
    let j = joined(gs, a, b);
    if a != b {
        match (group_of(gs, a), group_of(gs, b)) {
            (Some(li), Some(ri)) => {
                if li != ri {
                    let rest = gs.remove(ri);
                    let d = if ri < li { li - 1 } else { li };
                    let merged = rest[d] + gs[ri];
                    assert(rest[d] == gs[li]);
                    assert forall|i: int| 0 <= i < j.len() implies (#[trigger] j[i]).no_duplicates() by {
                        if i == d {
                            assert forall|p: int, q: int| 0 <= p < q < merged.len() implies merged[p] != merged[q] by {
                                if q >= gs[li].len() && p < gs[li].len() {
                                    assert(gs[li].contains(merged[p]));
                                    assert(gs[ri].contains(merged[q]));
                                }
                            }
                        } else {
                            let k = if i < ri { i } else { i + 1 };
                            assert(j[i] == gs[k]);
                        }
                    }
                    assert forall|i: int, k: int, x: Seq<char>|
                        #![trigger j[i].contains(x), j[k].contains(x)]
                        0 <= i < j.len() && 0 <= k < j.len() && i != k && j[i].contains(x) implies !j[k].contains(x) by {
                        let oi = if i < ri { i } else { i + 1 };
                        let ok = if k < ri { k } else { k + 1 };
                        if i == d {
                            assert(j[k] == gs[ok]);
                            if gs[li].contains(x) {
                            } else {
                                assert(gs[ri].contains(x));
                            }
                        } else if k == d {
                            assert(j[i] == gs[oi]);
                            if j[k].contains(x) {
                                if gs[li].contains(x) {
                                } else {
                                    assert(gs[ri].contains(x));
                                }
                            }
                        } else {
                            assert(j[i] == gs[oi]);
                            assert(j[k] == gs[ok]);
                        }
                    }
                }
            },
            (Some(i0), None) => {
                assert forall|i: int| 0 <= i < j.len() implies (#[trigger] j[i]).no_duplicates() by {
                    if i == i0 {
                        assert forall|p: int, q: int| 0 <= p < q < j[i].len() implies j[i][p] != j[i][q] by {
                            if q == gs[i0].len() {
                                assert(gs[i0].contains(j[i][p]));
                            }
                        }
                    }
                }
                assert forall|i: int, k: int, x: Seq<char>|
                    #![trigger j[i].contains(x), j[k].contains(x)]
                        0 <= i < j.len() && 0 <= k < j.len() && i != k && j[i].contains(x) implies !j[k].contains(x) by {
                    if i == i0 {
                        if x == b {
                        } else {
                            let p = choose|p: int| 0 <= p < j[i].len() && j[i][p] == x;
                            assert(gs[i0].contains(x));
                        }
                    } else if k == i0 {
                        if j[k].contains(x) && x != b {
                            let p = choose|p: int| 0 <= p < j[k].len() && j[k][p] == x;
                            assert(gs[i0].contains(x));
                        }
                    }
                }
            },
            (None, Some(i0)) => {
                assert forall|i: int| 0 <= i < j.len() implies (#[trigger] j[i]).no_duplicates() by {
                    if i == i0 {
                        assert forall|p: int, q: int| 0 <= p < q < j[i].len() implies j[i][p] != j[i][q] by {
                            if q == gs[i0].len() {
                                assert(gs[i0].contains(j[i][p]));
                            }
                        }
                    }
                }
                assert forall|i: int, k: int, x: Seq<char>|
                    #![trigger j[i].contains(x), j[k].contains(x)]
                        0 <= i < j.len() && 0 <= k < j.len() && i != k && j[i].contains(x) implies !j[k].contains(x) by {
                    if i == i0 {
                        if x == a {
                        } else {
                            let p = choose|p: int| 0 <= p < j[i].len() && j[i][p] == x;
                            assert(gs[i0].contains(x));
                        }
                    } else if k == i0 {
                        if j[k].contains(x) && x != a {
                            let p = choose|p: int| 0 <= p < j[k].len() && j[k][p] == x;
                            assert(gs[i0].contains(x));
                        }
                    }
                }
            },
            (None, None) => {
                assert forall|i: int| 0 <= i < j.len() implies (#[trigger] j[i]).no_duplicates() by {
                    if i == gs.len() {
                        assert(j[i] == seq![a, b]);
                    }
                }
                assert forall|i: int, k: int, x: Seq<char>|
                    #![trigger j[i].contains(x), j[k].contains(x)]
                        0 <= i < j.len() && 0 <= k < j.len() && i != k && j[i].contains(x) implies !j[k].contains(x) by {
                    if i == gs.len() {
                        assert(x == a || x == b);
                    } else if k == gs.len() {
                        if j[k].contains(x) {
                            assert(x == a || x == b);
                        }
                    }
                }
            },
        }
    }
}

/// Recording an equality between normalized operands keeps the groups disjoint and
/// free of repeats.
pub proof fn lemma_joined_wf_pub(gs: Seq<Seq<Seq<char>>>, clause: Seq<char>)
    requires
        groups_wf(gs),
    ensures
        match crate::implication::equality_operands(clause) {
            Some((l, r)) => groups_wf(joined(gs, normalized_operand(l), normalized_operand(r))),
            None => true,
        },
{
    match crate::implication::equality_operands(clause) {
        Some((l, r)) => lemma_joined_wf(gs, normalized_operand(l), normalized_operand(r)),
        None => {},
    }
}

/// Recording an equality makes its two operands equal.
pub proof fn law_union_joins(gs: Seq<Seq<Seq<char>>>, a: Seq<char>, b: Seq<char>)
    requires
        groups_wf(gs),
        a != b,
    ensures
        same_group(joined(gs, a, b), a, b),
{
    lemma_group_from(gs, a, 0);
    lemma_group_from(gs, b, 0);
    let j = joined(gs, a, b);
    match (group_of(gs, a), group_of(gs, b)) {
        (Some(li), Some(ri)) => {
            if li != ri {
                let rest = gs.remove(ri);
                let d = if ri < li { li - 1 } else { li };
                assert(rest[d] == gs[li]);
                let pa = choose|p: int| 0 <= p < gs[li].len() && gs[li][p] == a;
                assert(j[d][pa] == a);
                assert(j[d].contains(a));
                let p = choose|p: int| 0 <= p < gs[ri].len() && gs[ri][p] == b;
                assert(j[d][gs[li].len() + p] == b);
                assert(j[d].contains(b));
            } else {
                assert(gs[li].contains(a) && gs[li].contains(b));
            }
        },
        (Some(i), None) => {
            let pa = choose|p: int| 0 <= p < gs[i].len() && gs[i][p] == a;
            assert(j[i][pa] == a);
            assert(j[i][gs[i].len() as int] == b);
        },
        (None, Some(i)) => {
            let pb = choose|p: int| 0 <= p < gs[i].len() && gs[i][p] == b;
            assert(j[i][pb] == b);
            assert(j[i][gs[i].len() as int] == a);
        },
        (None, None) => {
            assert(j[gs.len() as int][0] == a);
            assert(j[gs.len() as int][1] == b);
        },
    }
}

/// Recording an equality keeps every equality recorded before.
pub proof fn law_union_keeps(gs: Seq<Seq<Seq<char>>>, a: Seq<char>, b: Seq<char>, x: Seq<char>, y: Seq<char>)
    requires
        groups_wf(gs),
        same_group(gs, x, y),
    ensures
        same_group(joined(gs, a, b), x, y),
{
    lemma_group_from(gs, a, 0);
    lemma_group_from(gs, b, 0);
    let j = joined(gs, a, b);
    let i = choose|i: int| 0 <= i < gs.len() && (#[trigger] gs[i]).contains(x) && gs[i].contains(y);
    if a != b {
        match (group_of(gs, a), group_of(gs, b)) {
            (Some(li), Some(ri)) => {
                if li != ri {
                    let rest = gs.remove(ri);
                    let d = if ri < li { li - 1 } else { li };
                    assert(rest[d] == gs[li]);
                    if i == ri || i == li {
                        let px = choose|p: int| 0 <= p < gs[i].len() && gs[i][p] == x;
                        let py = choose|p: int| 0 <= p < gs[i].len() && gs[i][p] == y;
                        if i == li {
                            assert(j[d][px] == x && j[d][py] == y);
                        } else {
                            assert(j[d][gs[li].len() + px] == x && j[d][gs[li].len() + py] == y);
                        }
                        assert(j[d].contains(x) && j[d].contains(y));
                    } else {
                        let k = if i < ri { i } else { i - 1 };
                        assert(j[k] == gs[i]);
                    }
                }
            },
            (Some(i0), None) => {
                if i == i0 {
                    let px = choose|p: int| 0 <= p < gs[i].len() && gs[i][p] == x;
                    let py = choose|p: int| 0 <= p < gs[i].len() && gs[i][p] == y;
                    assert(j[i][px] == x && j[i][py] == y);
                } else {
                    assert(j[i] == gs[i]);
                }
            },
            (None, Some(i0)) => {
                if i == i0 {
                    let px = choose|p: int| 0 <= p < gs[i].len() && gs[i][p] == x;
                    let py = choose|p: int| 0 <= p < gs[i].len() && gs[i][p] == y;
                    assert(j[i][px] == x && j[i][py] == y);
                } else {
                    assert(j[i] == gs[i]);
                }
            },
            (None, None) => {
                assert(j[i] == gs[i]);
            },
        }
    }
}

} // verus!
