use vstd::prelude::*;

use crate::checker::FunctionChecker;
use crate::relations::{assignable, is_assignable};
use crate::repair::{SatisfyRepairConstraint, first_reason};
use crate::semantic::Binding;
use crate::text::{decimal, push_decimal, string_of};
use crate::types::{Type, TypeV, types_equal};

verus! {

/// A binding offered to fill a typed hole, with its rank (from 1) and why it fits.
pub struct SymbolCandidate {
    pub name: String,
    pub ty: Type,
    pub rank: usize,
    pub reason: &'static str,
}

impl SymbolCandidate {
    /// The candidate's id: `symbol-` and its rank.
    pub fn candidate_id(&self) -> (r: String)
        ensures
            r@ == "symbol-"@ + decimal(self.rank as nat),
    {
        let mut out = string_of("symbol-");
        push_decimal(&mut out, self.rank as u64);
        out
    }
}

/// The bindings whose type may stand where `expected` is required, newest first: only
/// those whose type is exactly `expected` when `exact`, else only the others.
pub open spec fn matching_newest_first(bs: Seq<Binding>, expected: TypeV, exact: bool) -> Seq<Binding>
    decreases bs.len(),
{
    if bs.len() == 0 {
        Seq::empty()
    } else {
        let b = bs.last();
        let rest = matching_newest_first(bs.drop_last(), expected, exact);
        if assignable(expected, b.ty@) && ((b.ty@ == expected) == exact) {
            seq![b] + rest
        } else {
            rest
        }
    }
}

/// The bindings that fit `expected` in rank order: exact type matches before merely
/// assignable ones, and within each the newest binding first.
pub open spec fn candidate_order(bs: Seq<Binding>, expected: TypeV) -> Seq<Binding> {
    matching_newest_first(bs, expected, true) + matching_newest_first(bs, expected, false)
}

/// The reason a `satisfy` constraint gives for a binding, if it allows it.
pub open spec fn satisfy_reason(satisfy: Option<&SatisfyRepairConstraint>, name: Seq<char>) -> Option<Seq<char>> {
    match satisfy {
        None => None,
        Some(c) => match c.allowed_bindings {
            Some(allowed) => first_reason(allowed@, name),
            None => Some(c.reason@),
        },
    }
}

/// Of the first `n` ordered bindings, those offered: the first five, and any later one
/// the `satisfy` constraint allows.
pub open spec fn offered(order: Seq<Binding>, satisfy: Option<&SatisfyRepairConstraint>, n: int) -> Seq<Binding>
    decreases n,
{
    if n <= 0 {
        Seq::empty()
    } else {
        let rest = offered(order, satisfy, n - 1);
        if n - 1 < 5 || satisfy_reason(satisfy, order[n - 1].name@) is Some {
            rest.push(order[n - 1])
        } else {
            rest
        }
    }
}

/// Why a candidate is offered: the `satisfy` constraint's reason, else whether its type
/// matches exactly or is merely assignable.
pub open spec fn candidate_reason(satisfy: Option<&SatisfyRepairConstraint>, b: Binding, expected: TypeV) -> Seq<char> {
    match satisfy_reason(satisfy, b.name@) {
        Some(reason) => reason,
        None => if b.ty@ == expected { "exact_type_match"@ } else { "assignable_type_match"@ },
    }
}

/// The bindings at the given positions.
pub open spec fn at_positions(bs: Seq<Binding>, positions: Seq<usize>) -> Seq<Binding> {
    Seq::new(positions.len(), |i: int| bs[positions[i] as int])
}

impl<'a> FunctionChecker<'a> {
    /// The positions of the bindings that fit `expected`, newest first, restricted to
    /// exact matches or to the others.
    fn matching_positions(&self, expected: &Type, exact: bool) -> (r: Vec<usize>)
        ensures
            forall|i: int| 0 <= i < r@.len() ==> (#[trigger] r@[i]) < self.bindings@.len(),
            at_positions(self.bindings@, r@) == matching_newest_first(self.bindings@, expected@, exact),
    {
        let bs = &self.bindings;
        let ghost all = bs@;
        let mut out: Vec<usize> = Vec::new();
        let mut k: usize = bs.len();
        assert(all.take(all.len() as int) =~= all);
        assert(at_positions(all, out@) + matching_newest_first(all.take(k as int), expected@, exact) =~= matching_newest_first(all, expected@, exact));
        while k > 0
            invariant
                0 <= k <= all.len(),
                all == bs@,
                forall|i: int| 0 <= i < out@.len() ==> (#[trigger] out@[i]) < all.len(),
                at_positions(all, out@) + matching_newest_first(all.take(k as int), expected@, exact) == matching_newest_first(all, expected@, exact),
            decreases k,
        {
            let j = k - 1;
            let ghost before = at_positions(all, out@);
            proof {
                assert(all.take(k as int).drop_last() =~= all.take(j as int));
                assert(all.take(k as int).last() == all[j as int]);
            }
            let b = &bs[j];
            if is_assignable(expected, &b.ty) && types_equal(&b.ty, expected) == exact {
                out.push(j);
                proof {
                    assert(at_positions(all, out@) =~= before.push(all[j as int]));
                    assert(at_positions(all, out@) + matching_newest_first(all.take(j as int), expected@, exact)
                        =~= before + matching_newest_first(all.take(k as int), expected@, exact));
                }
            }
            k = j;
        }
        assert(all.take(0) =~= Seq::<Binding>::empty());
        assert(at_positions(all, out@) + Seq::<Binding>::empty() =~= at_positions(all, out@));
        out
    }

    /// The bindings offered to fill a hole of type `expected`, ranked: exact type matches
    /// before merely assignable ones, the newest binding first within each; the first
    /// five are offered, and any later one that the `satisfy` constraint allows. Each
    /// carries its rank and why it is offered.
    pub fn ranked_symbol_candidates(&self, expected: &Type, satisfy: Option<&SatisfyRepairConstraint>) -> (r: Vec<SymbolCandidate>)
        ensures
            ({
                let order = candidate_order(self.bindings@, expected@);
                let kept = offered(order, satisfy, order.len() as int);
                &&& r@.len() == kept.len()
                &&& forall|i: int| 0 <= i < r@.len() ==> {
                    &&& (#[trigger] r@[i]).name@ == kept[i].name@
                    &&& r@[i].ty@ == kept[i].ty@
                    &&& r@[i].rank == i + 1
                    &&& r@[i].reason@ == candidate_reason(satisfy, kept[i], expected@)
                }
            }),
    {
        let bs = &self.bindings;
        let exact = self.matching_positions(expected, true);
        let others = self.matching_positions(expected, false);
        let mut order = exact;
        let mut o: usize = 0;
        let ghost first = order@;
        while o < others.len()
            invariant
                0 <= o <= others@.len(),
                order@ == first + others@.take(o as int),
                forall|i: int| 0 <= i < first.len() ==> (#[trigger] first[i]) < bs@.len(),
                forall|i: int| 0 <= i < others@.len() ==> (#[trigger] others@[i]) < bs@.len(),
            decreases others.len() - o,
        {
            order.push(others[o]);
            assert(others@.take(o + 1) =~= others@.take(o as int).push(others@[o as int]));
            o += 1;
        }
        assert(others@.take(others@.len() as int) =~= others@);
        let ghost ord = candidate_order(bs@, expected@);
        assert(at_positions(bs@, order@) =~= ord);
        let mut out: Vec<SymbolCandidate> = Vec::new();
        let mut k: usize = 0;
        while k < order.len()
            invariant
                0 <= k <= order@.len(),
                ord == at_positions(bs@, order@),
                forall|i: int| 0 <= i < order@.len() ==> (#[trigger] order@[i]) < bs@.len(),
                out@.len() == offered(ord, satisfy, k as int).len(),
                out@.len() <= k,
                forall|i: int| 0 <= i < out@.len() ==> {
                    &&& (#[trigger] out@[i]).name@ == offered(ord, satisfy, k as int)[i].name@
                    &&& out@[i].ty@ == offered(ord, satisfy, k as int)[i].ty@
                    &&& out@[i].rank == i + 1
                    &&& out@[i].reason@ == candidate_reason(satisfy, offered(ord, satisfy, k as int)[i], expected@)
                },
            decreases order.len() - k,
        {
            let b = &bs[order[k]];
            assert(ord[k as int] == bs@[order@[k as int] as int]);
            let allowed = match satisfy {
                Some(c) => c.reason_for(b.name.as_str()),
                None => None,
            };
            assert(allowed is Some == satisfy_reason(satisfy, b.name@) is Some);
            let ghost prev = offered(ord, satisfy, k as int);
            if k < 5 || allowed.is_some() {
                let reason = match allowed {
                    Some(reason) => reason,
                    None => if types_equal(&b.ty, expected) { "exact_type_match" } else { "assignable_type_match" },
                };
                proof {
                    reveal_strlit("exact_type_match");
                    reveal_strlit("assignable_type_match");
                }
                assert(reason@ == candidate_reason(satisfy, ord[k as int], expected@));
                let rank = out.len() + 1;
                out.push(SymbolCandidate { name: b.name.clone(), ty: b.ty.copy(), rank, reason });
                proof {
                    let now = offered(ord, satisfy, k + 1);
                    assert(now == prev.push(ord[k as int]));
                }
            } else {
                assert(offered(ord, satisfy, k + 1) == prev);
            }
            k += 1;
        }
        out
    }
}

} // verus!
