use vstd::prelude::*;

use crate::text::{contains_str, starts_with, str_eq};
use crate::types::{Type, TypeV, lemma_function_view, lemma_named_view, lemma_record_view, types_view, fields_view};

verus! {

/// Whether an effect names an effect row variable such as `...e`.
pub open spec fn is_row(effect: Seq<char>) -> bool {
    crate::text::has_prefix(effect, "..."@)
}

/// Whether a value of type `actual` may stand where `expected` is required.
/// Unknown parts are compatible with anything; named types and records must agree
/// name by name with compatible arguments; a function type must agree on its
/// parameters and result, and may only use effects that the expected type declares
/// unless the expected type has an open effect row.
pub open spec fn assignable(expected: TypeV, actual: TypeV) -> bool
    decreases expected,
{
    if expected is Unknown || actual is Unknown {
        true
    } else {
        match (expected, actual) {
            (TypeV::Named { name: n1, args: a1 }, TypeV::Named { name: n2, args: a2 }) =>
                n1 == n2 && a1.len() == a2.len() && forall|i: int| 0 <= i < a1.len() ==> assignable(#[trigger] a1[i], a2[i]),
            (TypeV::Record(f1), TypeV::Record(f2)) =>
                f1.len() == f2.len() && forall|i: int| 0 <= i < f1.len() ==> (#[trigger] f1[i]).0 == f2[i].0 && assignable(f1[i].1, f2[i].1),
            (TypeV::Function { params: p1, variadic: v1, return_type: r1, effects: e1 },
             TypeV::Function { params: p2, variadic: v2, return_type: r2, effects: e2 }) =>
                p1.len() == p2.len()
                && (forall|i: int| 0 <= i < p1.len() ==> assignable(#[trigger] p1[i], p2[i]))
                && match (v1, v2) {
                    (None, None) => true,
                    (Some(x), Some(y)) => assignable(*x, *y),
                    _ => false,
                }
                && assignable(*r1, *r2)
                && ((exists|i: int| 0 <= i < e1.len() && is_row(#[trigger] e1[i])) || forall|j: int| 0 <= j < e2.len() ==> e1.contains(#[trigger] e2[j])),
            _ => false,
        }
    }
}

/// Whether a value of type `actual` may stand where `expected` is required.
pub fn is_assignable(expected: &Type, actual: &Type) -> (r: bool)
    ensures
        r == assignable(expected@, actual@),
    decreases expected,
{
    if expected.is_unknown() || actual.is_unknown() {
        return true;
    }
    match (expected, actual) {
        (Type::Named { name: n1, args: a1 }, Type::Named { name: n2, args: a2 }) => {
            proof {
                lemma_named_view(*n1, *a1);
                lemma_named_view(*n2, *a2);
            }
            if !str_eq(n1.as_str(), n2.as_str()) || a1.len() != a2.len() {
                return false;
            }
            let mut i: usize = 0;
            while i < a1.len()
                invariant
                    0 <= i <= a1@.len(),
                    forall|j: int| 0 <= j < i ==> assignable(#[trigger] a1@[j]@, a2@[j]@),
                decreases a1.len() - i,
            {
                assert(decreases_to!(*expected => a1@[i as int]));
                if !is_assignable(&a1[i], &a2[i]) {
                    assert(types_view(a1@)[i as int] == a1@[i as int]@);
                    return false;
                }
                i += 1;
            }
            assert forall|j: int| 0 <= j < a1@.len() implies assignable(#[trigger] types_view(a1@)[j], types_view(a2@)[j]) by {
                assert(assignable(a1@[j]@, a2@[j]@));
            }
            true
        },
        (Type::Record(f1), Type::Record(f2)) => {
            proof {
                lemma_record_view(*f1);
                lemma_record_view(*f2);
            }
            if f1.len() != f2.len() {
                return false;
            }
            let mut i: usize = 0;
            while i < f1.len()
                invariant
                    0 <= i <= f1@.len(),
                    forall|j: int| 0 <= j < i ==> (#[trigger] f1@[j]).0@ == f2@[j].0@ && assignable(f1@[j].1@, f2@[j].1@),
                decreases f1.len() - i,
            {
                assert(decreases_to!(*expected => f1@[i as int].1));
                if !str_eq(f1[i].0.as_str(), f2[i].0.as_str()) || !is_assignable(&f1[i].1, &f2[i].1) {
                    assert(fields_view(f1@)[i as int] == (f1@[i as int].0@, f1@[i as int].1@));
                    return false;
                }
                i += 1;
            }
            assert forall|j: int| 0 <= j < f1@.len() implies (#[trigger] fields_view(f1@)[j]).0 == fields_view(f2@)[j].0 && assignable(fields_view(f1@)[j].1, fields_view(f2@)[j].1) by {
                assert(f1@[j].0@ == f2@[j].0@ && assignable(f1@[j].1@, f2@[j].1@));
            }
            true
        },
        (Type::Function { params: p1, variadic: v1, return_type: r1, effects: e1 },
         Type::Function { params: p2, variadic: v2, return_type: r2, effects: e2 }) => {
            proof {
                lemma_function_view(*p1, *v1, *r1, *e1);
                lemma_function_view(*p2, *v2, *r2, *e2);
            }
            if p1.len() != p2.len() {
                return false;
            }
            let mut i: usize = 0;
            while i < p1.len()
                invariant
                    0 <= i <= p1@.len(),
                    forall|j: int| 0 <= j < i ==> assignable(#[trigger] p1@[j]@, p2@[j]@),
                decreases p1.len() - i,
            {
                assert(decreases_to!(*expected => p1@[i as int]));
                if !is_assignable(&p1[i], &p2[i]) {
                    assert(types_view(p1@)[i as int] == p1@[i as int]@);
                    return false;
                }
                i += 1;
            }
            assert forall|j: int| 0 <= j < p1@.len() implies assignable(#[trigger] types_view(p1@)[j], types_view(p2@)[j]) by {
                assert(assignable(p1@[j]@, p2@[j]@));
            }
            let variadic_ok = match (v1, v2) {
                (None, None) => true,
                (Some(x), Some(y)) => is_assignable(&**x, &**y),
                _ => false,
            };
            if !variadic_ok {
                return false;
            }
            if !is_assignable(&**r1, &**r2) {
                return false;
            }
            let mut has_row = false;
            let mut k: usize = 0;
            while k < e1.len()
                invariant
                    0 <= k <= e1@.len(),
                    has_row == exists|j: int| 0 <= j < k && is_row(#[trigger] e1.deep_view()[j]),
                decreases e1.len() - k,
            {
                if starts_with(e1[k].as_str(), "...") {
                    assert(is_row(e1.deep_view()[k as int]));
                    has_row = true;
                }
                k += 1;
            }
            if has_row {
                return true;
            }
            let mut m: usize = 0;
            while m < e2.len()
                invariant
                    0 <= m <= e2@.len(),
                    forall|j: int| 0 <= j < m ==> e1.deep_view().contains(#[trigger] e2.deep_view()[j]),
                decreases e2.len() - m,
            {
                if !contains_str(e1, e2[m].as_str()) {
                    assert(e2.deep_view()[m as int] == e2@[m as int]@);
                    assert(!e1.deep_view().contains(e2.deep_view()[m as int]));
                    let ghost ev1 = expected@->Function_effects;
                    let ghost ev2 = actual@->Function_effects;
                    assert(ev1 == e1.deep_view());
                    assert(ev2 == e2.deep_view());
                    assert(!(forall|j: int| 0 <= j < ev2.len() ==> ev1.contains(#[trigger] ev2[j])));
                    assert(!(exists|i: int| 0 <= i < ev1.len() && is_row(#[trigger] ev1[i])));
                    return false;
                }
                m += 1;
            }
            true
        },
        (Type::Named { name, args }, _) => {
            proof { lemma_named_view(*name, *args); }
            proof { lemma_kind_differs(expected, actual); }
            false
        },
        (Type::Record(fs), _) => {
            proof { lemma_record_view(*fs); }
            proof { lemma_kind_differs(expected, actual); }
            false
        },
        (Type::Function { params, variadic, return_type, effects }, _) => {
            proof { lemma_function_view(*params, *variadic, *return_type, *effects); }
            proof { lemma_kind_differs(expected, actual); }
            false
        },
        _ => false,
    }
}

/// A type's model has the same kind as the type.
pub proof fn lemma_kind_facts(a: &Type)
    ensures
        (a@ is Unknown) == (*a is Unknown),
        (a@ is Named) == (*a is Named),
        (a@ is Record) == (*a is Record),
        (a@ is Function) == (*a is Function),
{
}

/// Types of different kinds have models of different kinds.
proof fn lemma_kind_differs(a: &Type, b: &Type)
    ensures
        (a@ is Unknown) == (*a is Unknown),
        (a@ is Named) == (*a is Named),
        (a@ is Record) == (*a is Record),
        (a@ is Function) == (*a is Function),
        (b@ is Unknown) == (*b is Unknown),
        (b@ is Named) == (*b is Named),
        (b@ is Record) == (*b is Record),
        (b@ is Function) == (*b is Function),
{
}

} // verus!
