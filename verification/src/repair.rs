use vstd::prelude::*;

use crate::predicate_text::{split_once, split_once_view};
use crate::text::{str_eq, string_of};

verus! {

/// A binding a typed hole's `satisfy` clause allows, with why it does.
pub struct SatisfyAllowedBinding {
    pub name: String,
    pub reason: &'static str,
}

/// What a `satisfy` clause allows as a repair: any binding (with one reason), or only
/// the listed ones.
pub struct SatisfyRepairConstraint {
    pub allowed_bindings: Option<Vec<SatisfyAllowedBinding>>,
    pub reason: &'static str,
}

/// The names of a list of allowed bindings.
pub open spec fn allowed_names(bs: Seq<SatisfyAllowedBinding>) -> Seq<Seq<char>> {
    Seq::new(bs.len(), |i: int| bs[i].name@)
}

/// The reason the first allowed binding named `name` carries.
pub open spec fn first_reason(bs: Seq<SatisfyAllowedBinding>, name: Seq<char>) -> Option<Seq<char>>
    decreases bs.len(),
{
    if bs.len() == 0 {
        None
    } else if bs[0].name@ == name {
        Some(bs[0].reason@)
    } else {
        first_reason(bs.drop_first(), name)
    }
}

/// `existing` followed by each of `more` whose name is not already there, in order.
pub open spec fn extended(existing: Seq<Seq<char>>, more: Seq<Seq<char>>) -> Seq<Seq<char>>
    decreases more.len(),
{
    if more.len() == 0 {
        existing
    } else {
        let e = if existing.contains(more[0]) { existing } else { existing.push(more[0]) };
        extended(e, more.drop_first())
    }
}

impl SatisfyRepairConstraint {
    /// Why `binding` would satisfy the clause, if it would.
    pub fn reason_for(&self, binding: &str) -> (r: Option<&'static str>)
        ensures
            match self.allowed_bindings {
                Some(allowed) => match r {
                    Some(reason) => first_reason(allowed@, binding@) == Some(reason@),
                    None => first_reason(allowed@, binding@) is None,
                },
                None => r == Some(self.reason),
            },
    {
        match &self.allowed_bindings {
            Some(allowed) => {
                let mut i: usize = 0;
                assert(allowed@.skip(0) =~= allowed@);
                while i < allowed.len()
                    invariant
                        0 <= i <= allowed@.len(),
                        first_reason(allowed@, binding@) == first_reason(allowed@.skip(i as int), binding@),
                    decreases allowed.len() - i,
                {
                    assert(allowed@.skip(i as int).drop_first() =~= allowed@.skip(i + 1));
                    if str_eq(allowed[i].name.as_str(), binding) {
                        return Some(allowed[i].reason);
                    }
                    i += 1;
                }
                None
            },
            None => Some(self.reason),
        }
    }

    /// Whether the clause allows any binding.
    pub fn allows_any_binding(&self) -> (r: bool)
        ensures
            r == (self.allowed_bindings is None),
    {
        self.allowed_bindings.is_none()
    }

    /// Allows more bindings, keeping the first entry for each name; a clause that allows
    /// any binding stays as it is.
    pub fn extend_allowed_bindings(&mut self, bindings: Vec<SatisfyAllowedBinding>)
        ensures
            final(self).reason == old(self).reason,
            match old(self).allowed_bindings {
                Some(before) => final(self).allowed_bindings matches Some(after)
                    && allowed_names(after@) == extended(allowed_names(before@), allowed_names(bindings@))
                    && after@.take(before@.len() as int) == before@,
                None => final(self).allowed_bindings is None,
            },
    {
        let mut allowed = match self.allowed_bindings.take() {
            Some(a) => a,
            None => return,
        };
        let ghost before = allowed@;
        let ghost more = allowed_names(bindings@);
        let mut bindings = bindings;
        let ghost mut k: int = 0;
        let ghost total = bindings@;
        assert(total.skip(0) =~= total);
        assert(allowed@.take(before.len() as int) =~= before);
        while bindings.len() > 0
            invariant
                bindings@ == total.skip(k),
                0 <= k <= total.len(),
                more == allowed_names(total),
                allowed@.len() >= before.len(),
                allowed@.take(before.len() as int) == before,
                extended(allowed_names(allowed@), allowed_names(bindings@)) == extended(allowed_names(before), more),
            decreases bindings@.len(),
        {
            let ghost old_b = bindings@;
            let binding = bindings.remove(0);
            assert(old_b =~= seq![binding] + bindings@);
            let mut present = false;
            let mut j: usize = 0;
            while j < allowed.len()
                invariant
                    0 <= j <= allowed@.len(),
                    !present ==> forall|m: int| 0 <= m < j ==> allowed@[m].name@ != binding.name@,
                    present ==> allowed_names(allowed@).contains(binding.name@),
                decreases allowed.len() - j,
            {
                if str_eq(allowed[j].name.as_str(), binding.name.as_str()) {
                    assert(allowed_names(allowed@)[j as int] == binding.name@);
                    present = true;
                }
                j += 1;
            }
            let ghost names_before = allowed_names(allowed@);
            let ghost rest = allowed_names(bindings@);
            proof {
                assert(allowed_names(seq![binding] + bindings@) =~= seq![binding.name@] + rest);
                assert((seq![binding.name@] + rest).drop_first() =~= rest);
                if !present {
                    assert(!names_before.contains(binding.name@));
                }
            }
            if !present {
                let ghost len_before = allowed@.len();
                let ghost prev = allowed@;
                allowed.push(binding);
                proof {
                    assert(allowed_names(allowed@) =~= names_before.push(allowed@.last().name@));
                    assert(allowed@.take(before.len() as int) =~= prev.take(before.len() as int));
                }
            }
            proof {
                assert(total.skip(k).drop_first() =~= total.skip(k + 1));
                assert(bindings@ =~= total.skip(k + 1));
                k = k + 1;
            }
        }
        proof {
            assert(allowed_names(bindings@) =~= Seq::<Seq<char>>::empty());
        }
        self.allowed_bindings = Some(allowed);
    }
}

/// The segments of a `::`-separated callee path.
pub open spec fn path_segments(callee: Seq<char>) -> Seq<Seq<char>>
    decreases callee.len(),
{
    match split_once_view(callee, "::"@) {
        Some((head, rest)) => {
            proof {
                reveal_strlit("::");
                crate::predicate_text::lemma_find_from(callee, "::"@, 0);
            }
            seq![head] + path_segments(rest)
        },
        None => seq![callee],
    }
}

/// The segments of a `::`-separated callee path.
pub fn contract_callee_segments(callee: &str) -> (r: Vec<String>)
    ensures
        r.deep_view() == path_segments(callee@),
    decreases callee@.len(),
{
    proof {
        reveal_strlit("::");
        crate::predicate_text::lemma_find_from(callee@, "::"@, 0);
    }
    match split_once(callee, "::") {
        Some((head, rest)) => {
            let mut out: Vec<String> = Vec::new();
            let ghost h = head@;
            out.push(head);
            let mut tail = contract_callee_segments(rest.as_str());
            let ghost t = tail.deep_view();
            out.append(&mut tail);
            assert(out.deep_view() =~= seq![h] + t);
            out
        },
        None => {
            let mut out: Vec<String> = Vec::new();
            out.push(string_of(callee));
            assert(out.deep_view() =~= seq![callee@]);
            out
        },
    }
}

} // verus!
