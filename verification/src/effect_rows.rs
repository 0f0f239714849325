use vstd::prelude::*;

use crate::names::effect_row_name;
use crate::text::{contains_str, has_prefix, str_eq, strip_prefix};
use crate::types::{Type, TypeV};

verus! {

/// `effects` with `effect` appended unless it is already present.
pub open spec fn push_unique(effects: Seq<Seq<char>>, effect: Seq<char>) -> Seq<Seq<char>> {
    if effects.contains(effect) {
        effects
    } else {
        effects.push(effect)
    }
}

/// `base` extended, in order, by each of `items` that it does not hold yet.
pub open spec fn push_unique_all(base: Seq<Seq<char>>, items: Seq<Seq<char>>) -> Seq<Seq<char>>
    decreases items.len(),
{
    if items.len() == 0 {
        base
    } else {
        push_unique(push_unique_all(base, items.drop_last()), items.last())
    }
}

/// Appends `effect` unless the list already holds it.
pub fn push_unique_effect(effects: &mut Vec<String>, effect: String)
    ensures
        final(effects).deep_view() == push_unique(old(effects).deep_view(), effect@),
{
    if !contains_str(effects, effect.as_str()) {
        let ghost before = effects.deep_view();
        effects.push(effect);
        assert(effects.deep_view() =~= before.push(effect@));
    }
}

/// Appends, in order, each of `items` that the list does not hold yet.
pub fn push_unique_effects(effects: &mut Vec<String>, items: &Vec<String>)
    ensures
        final(effects).deep_view() == push_unique_all(old(effects).deep_view(), items.deep_view()),
{
    let ghost base = effects.deep_view();
    let mut i: usize = 0;
    while i < items.len()
        invariant
            0 <= i <= items@.len(),
            effects.deep_view() == push_unique_all(base, items.deep_view().take(i as int)),
        decreases items.len() - i,
    {
        push_unique_effect(effects, items[i].clone());
        proof {
            let t = items.deep_view().take(i + 1);
            assert(t.drop_last() =~= items.deep_view().take(i as int));
        }
        i += 1;
    }
    assert(items.deep_view().take(items@.len() as int) =~= items.deep_view());
}

/// The model of a row substitution table: row names with the effects they stand for.
pub open spec fn subs_view(s: Seq<(String, Vec<String>)>) -> Seq<(Seq<char>, Seq<Seq<char>>)> {
    Seq::new(s.len(), |i: int| (s[i].0@, s[i].1.deep_view()))
}

/// The index of the first entry for `row`, if any.
pub open spec fn row_index(subs: Seq<(Seq<char>, Seq<Seq<char>>)>, row: Seq<char>) -> Option<int> {
    if exists|k: int| 0 <= k < subs.len() && (#[trigger] subs[k]).0 == row {
        Some(choose|k: int| 0 <= k < subs.len() && (#[trigger] subs[k]).0 == row && forall|j: int| 0 <= j < k ==> (#[trigger] subs[j]).0 != row)
    } else {
        None
    }
}

/// The table after merging `effects` into the entry for `row`: the first entry for
/// `row` gains the effects it lacks; without an entry, a new one is appended that
/// holds the effects once each.
pub open spec fn merge_rows(subs: Seq<(Seq<char>, Seq<Seq<char>>)>, row: Seq<char>, effects: Seq<Seq<char>>) -> Seq<(Seq<char>, Seq<Seq<char>>)> {
    match row_index(subs, row) {
        Some(k) => subs.update(k, (row, push_unique_all(subs[k].1, effects))),
        None => subs.push((row, push_unique_all(Seq::empty(), effects))),
    }
}

proof fn lemma_first_index(subs: Seq<(Seq<char>, Seq<Seq<char>>)>, row: Seq<char>, k: int)
    requires
        0 <= k < subs.len(),
        subs[k].0 == row,
        forall|j: int| 0 <= j < k ==> (#[trigger] subs[j]).0 != row,
    ensures
        row_index(subs, row) == Some(k),
{
    let c = choose|c: int| 0 <= c < subs.len() && (#[trigger] subs[c]).0 == row && forall|j: int| 0 <= j < c ==> (#[trigger] subs[j]).0 != row;
    if c < k {
        assert(subs[c].0 != row);
    }
    if k < c {
        assert(subs[k].0 != row);
    }
}

/// Records that the effect row `row` stands for `effects`.
pub fn merge_effect_row_substitution(row_substitutions: &mut Vec<(String, Vec<String>)>, row: &str, effects: Vec<String>)
    ensures
        subs_view(final(row_substitutions)@) == merge_rows(subs_view(old(row_substitutions)@), row@, effects.deep_view()),
{
    let ghost old_subs = subs_view(row_substitutions@);
    let mut i: usize = 0;
    while i < row_substitutions.len()
        invariant
            0 <= i <= row_substitutions@.len(),
            subs_view(row_substitutions@) == old_subs,
            forall|j: int| 0 <= j < i ==> (#[trigger] row_substitutions@[j]).0@ != row@,
        decreases row_substitutions.len() - i,
    {
        if str_eq(row_substitutions[i].0.as_str(), row) {
            proof {
                assert forall|j: int| 0 <= j < i implies (#[trigger] old_subs[j]).0 != row@ by {
                    assert(old_subs[j].0 == row_substitutions@[j].0@);
                }
                lemma_first_index(old_subs, row@, i as int);
            }
            let mut existing = row_substitutions[i].1.clone();
            push_unique_effects(&mut existing, &effects);
            let name = row_substitutions[i].0.clone();
            row_substitutions.set(i, (name, existing));
            assert(subs_view(row_substitutions@) =~= merge_rows(old_subs, row@, effects.deep_view()));
            return;
        }
        i += 1;
    }
    proof {
        if row_index(old_subs, row@) is Some {
            let k = choose|k: int| 0 <= k < old_subs.len() && (#[trigger] old_subs[k]).0 == row@;
            assert(row_substitutions@[k].0@ == row@);
        }
    }
    let mut unique: Vec<String> = Vec::new();
    assert(unique.deep_view() =~= Seq::<Seq<char>>::empty());
    push_unique_effects(&mut unique, &effects);
    row_substitutions.push((crate::text::string_of(row), unique));
    assert(subs_view(row_substitutions@) =~= merge_rows(old_subs, row@, effects.deep_view()));
}

/// The effects after replacing each row variable `...r` that has a substitution by
/// the effects it stands for; every effect appears once, in first-seen order.
pub open spec fn instantiate(effects: Seq<Seq<char>>, subs: Seq<(Seq<char>, Seq<Seq<char>>)>) -> Seq<Seq<char>>
    decreases effects.len(),
{
    if effects.len() == 0 {
        Seq::empty()
    } else {
        let acc = instantiate(effects.drop_last(), subs);
        let effect = effects.last();
        if has_prefix(effect, "..."@) {
            match row_index(subs, effect.skip(3)) {
                Some(k) => push_unique_all(acc, subs[k].1),
                None => push_unique(acc, effect),
            }
        } else {
            push_unique(acc, effect)
        }
    }
}

/// Instantiates the effect rows of a signature with the substitutions found at a call.
pub fn instantiate_effects(effects: &Vec<String>, row_substitutions: &Vec<(String, Vec<String>)>) -> (r: Vec<String>)
    ensures
        r.deep_view() == instantiate(effects.deep_view(), subs_view(row_substitutions@)),
{
    let ghost subs = subs_view(row_substitutions@);
    let mut out: Vec<String> = Vec::new();
    let mut i: usize = 0;
    assert(out.deep_view() =~= Seq::<Seq<char>>::empty());
    assert(effects.deep_view().take(0) =~= Seq::<Seq<char>>::empty());
    while i < effects.len()
        invariant
            0 <= i <= effects@.len(),
            subs == subs_view(row_substitutions@),
            out.deep_view() == instantiate(effects.deep_view().take(i as int), subs),
        decreases effects.len() - i,
    {
        let ghost prefix = effects.deep_view().take(i + 1);
        proof {
            assert(prefix.drop_last() =~= effects.deep_view().take(i as int));
            assert(prefix.last() == effects@[i as int]@);
        }
        match effect_row_name(effects[i].as_str()) {
            Some(row) => {
                let mut found: Option<usize> = None;
                let mut k: usize = 0;
                while k < row_substitutions.len()
                    invariant
                        0 <= k <= row_substitutions@.len(),
                        subs == subs_view(row_substitutions@),
                        found is None,
                        forall|j: int| 0 <= j < k ==> (#[trigger] subs[j]).0 != row@,
                    decreases row_substitutions.len() - k,
                {
                    if str_eq(row_substitutions[k].0.as_str(), row.as_str()) {
                        found = Some(k);
                        break;
                    }
                    k += 1;
                }
                match found {
                    Some(k) => {
                        proof {
                            lemma_first_index(subs, row@, k as int);
                        }
                        push_unique_effects(&mut out, &row_substitutions[k].1);
                    },
                    None => {
                        proof {
                            if row_index(subs, row@) is Some {
                                let c = choose|c: int| 0 <= c < subs.len() && (#[trigger] subs[c]).0 == row@;
                                assert(subs[c].0 != row@);
                            }
                        }
                        push_unique_effect(&mut out, effects[i].clone());
                    },
                }
            },
            None => {
                push_unique_effect(&mut out, effects[i].clone());
            },
        }
        i += 1;
    }
    assert(effects.deep_view().take(effects@.len() as int) =~= effects.deep_view());
    out
}

} // verus!

verus! {

/// The effects of `actual` that `expected` does not name, in order.
pub open spec fn unnamed_effects(actual: Seq<Seq<char>>, expected: Seq<Seq<char>>) -> Seq<Seq<char>>
    decreases actual.len(),
{
    if actual.len() == 0 {
        Seq::empty()
    } else {
        let rest = unnamed_effects(actual.drop_last(), expected);
        if expected.contains(actual.last()) { rest } else { rest.push(actual.last()) }
    }
}

/// The table after binding each row variable among the first `n` expected effects to
/// `concrete`.
pub open spec fn merge_expected_rows(subs: Seq<(Seq<char>, Seq<Seq<char>>)>, expected: Seq<Seq<char>>, concrete: Seq<Seq<char>>, n: int) -> Seq<(Seq<char>, Seq<Seq<char>>)>
    decreases n,
{
    if n <= 0 || n > expected.len() {
        subs
    } else {
        let before = merge_expected_rows(subs, expected, concrete, n - 1);
        let effect = expected[n - 1];
        if has_prefix(effect, "..."@) { merge_rows(before, effect.skip(3), concrete) } else { before }
    }
}

/// The row substitutions that matching an actual function type against an expected one
/// finds: each row variable of the expected effects stands for the actual effects the
/// expected ones do not name, then parameters, the variadic parameter and the return
/// type are matched in turn.
pub open spec fn collect_rows(e: TypeV, a: TypeV, subs: Seq<(Seq<char>, Seq<Seq<char>>)>) -> Seq<(Seq<char>, Seq<Seq<char>>)>
    decreases e, 1int,
{
    match (e, a) {
        (TypeV::Function { params: ep, variadic: ev, return_type: er, effects: ee },
         TypeV::Function { params: ap, variadic: av, return_type: ar, effects: ae }) => {
            let s1 = merge_expected_rows(subs, ee, unnamed_effects(ae, ee), ee.len() as int);
            let n = if ep.len() <= ap.len() { ep.len() } else { ap.len() };
            let s2 = collect_params(ep, ap, s1, n as int);
            let s3 = match (ev, av) {
                (Some(x), Some(y)) => collect_rows(*x, *y, s2),
                _ => s2,
            };
            collect_rows(*er, *ar, s3)
        },
        _ => subs,
    }
}

/// The row substitutions found by matching the first `n` parameter pairs in order.
pub open spec fn collect_params(eps: Seq<TypeV>, aps: Seq<TypeV>, subs: Seq<(Seq<char>, Seq<Seq<char>>)>, n: int) -> Seq<(Seq<char>, Seq<Seq<char>>)>
    decreases eps, n,
{
    if n <= 0 || n > eps.len() || n > aps.len() {
        subs
    } else {
        collect_rows(eps[n - 1], aps[n - 1], collect_params(eps, aps, subs, n - 1))
    }
}

/// The effects of `actual` that `expected` does not name, in order.
fn unnamed_effect_list(actual: &Vec<String>, expected: &Vec<String>) -> (r: Vec<String>)
    ensures
        r.deep_view() == unnamed_effects(actual.deep_view(), expected.deep_view()),
{
    let mut out: Vec<String> = Vec::new();
    let mut i: usize = 0;
    assert(actual.deep_view().take(0) =~= Seq::<Seq<char>>::empty());
    assert(out.deep_view() =~= Seq::<Seq<char>>::empty());
    while i < actual.len()
        invariant
            0 <= i <= actual@.len(),
            out.deep_view() == unnamed_effects(actual.deep_view().take(i as int), expected.deep_view()),
        decreases actual.len() - i,
    {
        proof {
            assert(actual.deep_view().take(i + 1).drop_last() =~= actual.deep_view().take(i as int));
        }
        if !contains_str(expected, actual[i].as_str()) {
            let ghost before = out.deep_view();
            out.push(actual[i].clone());
            assert(out.deep_view() =~= before.push(actual@[i as int]@));
        }
        i += 1;
    }
    assert(actual.deep_view().take(actual@.len() as int) =~= actual.deep_view());
    out
}

/// Records the effect-row substitutions that matching `actual` against `expected` finds.
pub fn collect_effect_row_substitution(expected: &Type, actual: &Type, row_substitutions: &mut Vec<(String, Vec<String>)>)
    ensures
        subs_view(final(row_substitutions)@) == collect_rows(expected@, actual@, subs_view(old(row_substitutions)@)),
    decreases expected,
{
    match (expected, actual) {
        (Type::Function { params: ep, variadic: ev, return_type: er, effects: ee },
         Type::Function { params: ap, variadic: av, return_type: ar, effects: ae }) => {
            proof {
                crate::types::lemma_function_view(*ep, *ev, *er, *ee);
                crate::types::lemma_function_view(*ap, *av, *ar, *ae);
            }
            let ghost start = subs_view(row_substitutions@);
            let concrete = unnamed_effect_list(ae, ee);
            let mut i: usize = 0;
            while i < ee.len()
                invariant
                    0 <= i <= ee@.len(),
                    concrete.deep_view() == unnamed_effects(ae.deep_view(), ee.deep_view()),
                    subs_view(row_substitutions@) == merge_expected_rows(start, ee.deep_view(), concrete.deep_view(), i as int),
                decreases ee.len() - i,
            {
                match strip_prefix(ee[i].as_str(), "...") {
                    Some(row) => {
                        proof { reveal_strlit("..."); }
                        merge_effect_row_substitution(row_substitutions, row.as_str(), concrete.clone());
                    },
                    None => {},
                }
                proof { reveal_strlit("..."); }
                i += 1;
            }
            let ghost s1 = subs_view(row_substitutions@);
            let n = if ep.len() <= ap.len() { ep.len() } else { ap.len() };
            let mut k: usize = 0;
            while k < n
                invariant
                    0 <= k <= n,
                    n <= ep@.len(),
                    n <= ap@.len(),
                    subs_view(row_substitutions@) == collect_params(crate::types::types_view(ep@), crate::types::types_view(ap@), s1, k as int),
                decreases n - k,
            {
                assert(decreases_to!(*expected => ep@[k as int]));
                collect_effect_row_substitution(&ep[k], &ap[k], row_substitutions);
                k += 1;
            }
            match (ev, av) {
                (Some(x), Some(y)) => {
                    assert(decreases_to!(*expected => **x));
                    collect_effect_row_substitution(x, y, row_substitutions);
                },
                _ => {},
            }
            collect_effect_row_substitution(er, ar, row_substitutions);
        },
        _ => {
            proof {
                crate::relations::lemma_kind_facts(expected);
                crate::relations::lemma_kind_facts(actual);
            }
        },
    }
}

} // verus!
