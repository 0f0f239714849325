use vstd::prelude::*;

use crate::checker::{distinct_effects, kept_diagnostics};
use crate::semantic::EffectUse;
use crate::diag::Diagnostic;
use crate::effect_rows::{instantiate, merge_rows, push_unique, push_unique_all, row_index};
use crate::predicate_text::{TotalOrderRelation, inverted, is_white, strip_parens, trim, trim_end, trim_start, wraps_whole};
use crate::relations::assignable;
use crate::repair::extended;
use crate::types::TypeV;

verus! {

/// Every type may stand where that same type is required.
pub proof fn law_assignable_reflexive(t: TypeV)
    ensures
        assignable(t, t),
    decreases t,
{
    match t {
        TypeV::Unknown => {},
        TypeV::Named { name, args } => {
            assert forall|i: int| 0 <= i < args.len() implies assignable(#[trigger] args[i], args[i]) by {
                law_assignable_reflexive(args[i]);
            }
        },
        TypeV::Record(fields) => {
            assert forall|i: int| 0 <= i < fields.len() implies (#[trigger] fields[i]).0 == fields[i].0 && assignable(fields[i].1, fields[i].1) by {
                law_assignable_reflexive(fields[i].1);
            }
        },
        TypeV::Function { params, variadic, return_type, effects } => {
            assert forall|i: int| 0 <= i < params.len() implies assignable(#[trigger] params[i], params[i]) by {
                law_assignable_reflexive(params[i]);
            }
            match variadic {
                Some(v) => law_assignable_reflexive(*v),
                None => {},
            }
            law_assignable_reflexive(*return_type);
            assert forall|j: int| 0 <= j < effects.len() implies effects.contains(#[trigger] effects[j]) by {}
        },
    }
}

/// An unknown type is compatible with every type, in both directions.
pub proof fn law_unknown_assignable(t: TypeV)
    ensures
        assignable(TypeV::Unknown, t),
        assignable(t, TypeV::Unknown),
{
}

/// Swapping a relation's operands twice gives the relation back.
pub proof fn law_invert_involution(r: TotalOrderRelation)
    ensures
        inverted(inverted(r)) == r,
{
}

/// Whether no element occurs twice.
pub open spec fn distinct(s: Seq<Seq<char>>) -> bool {
    forall|i: int, j: int| 0 <= i < j < s.len() ==> s[i] != s[j]
}

/// Adding an effect once keeps a list free of repeats, makes it hold the effect, and
/// adding it again changes nothing.
pub proof fn law_push_unique(s: Seq<Seq<char>>, e: Seq<char>)
    requires
        distinct(s),
    ensures
        distinct(push_unique(s, e)),
        push_unique(s, e).contains(e),
        push_unique(push_unique(s, e), e) == push_unique(s, e),
        forall|x: Seq<char>| s.contains(x) ==> push_unique(s, e).contains(x),
{
    if !s.contains(e) {
        let t = s.push(e);
        assert(t[s.len() as int] == e);
        assert forall|x: Seq<char>| s.contains(x) implies t.contains(x) by {
            let k = choose|k: int| 0 <= k < s.len() && s[k] == x;
            assert(t[k] == x);
        }
    }
}

/// Adding several effects once each keeps a list free of repeats and makes it hold
/// every one of them.
pub proof fn law_push_unique_all(base: Seq<Seq<char>>, items: Seq<Seq<char>>)
    requires
        distinct(base),
    ensures
        distinct(push_unique_all(base, items)),
        forall|i: int| 0 <= i < items.len() ==> push_unique_all(base, items).contains(#[trigger] items[i]),
        forall|x: Seq<char>| base.contains(x) ==> push_unique_all(base, items).contains(x),
    decreases items.len(),
{
    if items.len() > 0 {
        let prev = push_unique_all(base, items.drop_last());
        law_push_unique_all(base, items.drop_last());
        law_push_unique(prev, items.last());
        assert forall|i: int| 0 <= i < items.len() implies push_unique_all(base, items).contains(#[trigger] items[i]) by {
            if i < items.len() - 1 {
                assert(items.drop_last()[i] == items[i]);
                assert(prev.contains(items[i]));
            }
        }
    }
}

/// Instantiating a signature's effects never lists an effect twice.
pub proof fn law_instantiate_distinct(effects: Seq<Seq<char>>, subs: Seq<(Seq<char>, Seq<Seq<char>>)>)
    ensures
        distinct(instantiate(effects, subs)),
    decreases effects.len(),
{
    if effects.len() > 0 {
        let acc = instantiate(effects.drop_last(), subs);
        law_instantiate_distinct(effects.drop_last(), subs);
        let effect = effects.last();
        if crate::text::has_prefix(effect, "..."@) {
            match row_index(subs, effect.skip(3)) {
                Some(k) => law_push_unique_all(acc, subs[k].1),
                None => law_push_unique(acc, effect),
            }
        } else {
            law_push_unique(acc, effect);
        }
    }
}

/// After merging effects into a row, the table has an entry for the row that holds
/// every merged effect.
pub proof fn law_merge_rows_covers(subs: Seq<(Seq<char>, Seq<Seq<char>>)>, row: Seq<char>, effects: Seq<Seq<char>>)
    ensures
        ({
            let merged = merge_rows(subs, row, effects);
            row_index(merged, row) matches Some(k)
                && forall|i: int| 0 <= i < effects.len() ==> merged[k].1.contains(#[trigger] effects[i])
        }),
{
    let merged = merge_rows(subs, row, effects);
    match row_index(subs, row) {
        Some(k) => {
            lemma_row_index_facts(subs, row);
            assert(merged[k].0 == row);
            assert forall|j: int| 0 <= j < k implies (#[trigger] merged[j]).0 != row by {
                assert(merged[j] == subs[j]);
            }
            lemma_row_index_is(merged, row, k);
            lemma_push_unique_all_holds(subs[k].1, effects);
        },
        None => {
            let n = subs.len() as int;
            lemma_row_index_facts(subs, row);
            assert(merged[n].0 == row);
            assert forall|j: int| 0 <= j < n implies (#[trigger] merged[j]).0 != row by {
                assert(merged[j] == subs[j]);
            }
            lemma_row_index_is(merged, row, n);
            lemma_push_unique_all_holds(Seq::empty(), effects);
        },
    }
}

proof fn lemma_row_index_facts(subs: Seq<(Seq<char>, Seq<Seq<char>>)>, row: Seq<char>)
    ensures
        row_index(subs, row) matches Some(k) ==> 0 <= k < subs.len() && subs[k].0 == row
            && forall|j: int| 0 <= j < k ==> (#[trigger] subs[j]).0 != row,
        row_index(subs, row) is None ==> forall|j: int| 0 <= j < subs.len() ==> (#[trigger] subs[j]).0 != row,
{
    if exists|k: int| 0 <= k < subs.len() && (#[trigger] subs[k]).0 == row {
        let k = choose|k: int| 0 <= k < subs.len() && (#[trigger] subs[k]).0 == row;
        lemma_first_row(subs, row, k);
    }
}

proof fn lemma_first_row(subs: Seq<(Seq<char>, Seq<Seq<char>>)>, row: Seq<char>, k: int)
    requires
        0 <= k < subs.len(),
        subs[k].0 == row,
    ensures
        exists|m: int| 0 <= m < subs.len() && (#[trigger] subs[m]).0 == row && forall|j: int| 0 <= j < m ==> (#[trigger] subs[j]).0 != row,
    decreases k,
{
    if exists|j: int| 0 <= j < k && (#[trigger] subs[j]).0 == row {
        let j = choose|j: int| 0 <= j < k && (#[trigger] subs[j]).0 == row;
        lemma_first_row(subs, row, j);
    } else {
        assert(forall|j: int| 0 <= j < k ==> (#[trigger] subs[j]).0 != row);
    }
}

proof fn lemma_row_index_is(subs: Seq<(Seq<char>, Seq<Seq<char>>)>, row: Seq<char>, k: int)
    requires
        0 <= k < subs.len(),
        subs[k].0 == row,
        forall|j: int| 0 <= j < k ==> (#[trigger] subs[j]).0 != row,
    ensures
        row_index(subs, row) == Some(k),
{
    let c = choose|c: int| 0 <= c < subs.len() && (#[trigger] subs[c]).0 == row && forall|j: int| 0 <= j < c ==> (#[trigger] subs[j]).0 != row;
    if c < k {
        assert(subs[c].0 != row);
    }
    if k < c {
        assert(subs[k].0 != row);
    }
}

proof fn lemma_push_unique_all_holds(base: Seq<Seq<char>>, items: Seq<Seq<char>>)
    ensures
        forall|i: int| 0 <= i < items.len() ==> push_unique_all(base, items).contains(#[trigger] items[i]),
    decreases items.len(),
{
    if items.len() > 0 {
        let prev = push_unique_all(base, items.drop_last());
        lemma_push_unique_all_holds(base, items.drop_last());
        assert forall|i: int| 0 <= i < items.len() implies push_unique_all(base, items).contains(#[trigger] items[i]) by {
            let now = push_unique_all(base, items);
            if i < items.len() - 1 {
                assert(items.drop_last()[i] == items[i]);
                assert(prev.contains(items[i]));
                if !prev.contains(items.last()) {
                    let k = choose|k: int| 0 <= k < prev.len() && prev[k] == items[i];
                    assert(now[k] == items[i]);
                }
            } else if !prev.contains(items.last()) {
                assert(now[prev.len() as int] == items.last());
            }
        }
    }
}

/// Trimming twice is trimming once.
pub proof fn law_trim_idempotent(s: Seq<char>)
    ensures
        trim(trim(s)) == trim(s),
{
    lemma_trim_start_end(s);
    lemma_trim_end_idempotent(trim_start(s));
}

proof fn lemma_trim_start_first(s: Seq<char>)
    ensures
        trim_start(s).len() > 0 ==> !is_white(trim_start(s)[0]),
        trim_start(trim_start(s)) == trim_start(s),
    decreases s.len(),
{
    if s.len() > 0 && is_white(s[0]) {
        lemma_trim_start_first(s.drop_first());
    }
}

proof fn lemma_trim_end_idempotent(s: Seq<char>)
    ensures
        trim_end(trim_end(s)) == trim_end(s),
    decreases s.len(),
{
    if s.len() > 0 && is_white(s.last()) {
        lemma_trim_end_idempotent(s.drop_last());
    }
}

proof fn lemma_trim_end_keeps_front(s: Seq<char>)
    requires
        s.len() > 0 ==> !is_white(s[0]),
    ensures
        trim_end(s).len() > 0 ==> trim_end(s)[0] == s[0],
        trim_end(s).len() == 0 || !is_white(trim_end(s)[0]),
        trim_start(trim_end(s)) == trim_end(s),
    decreases s.len(),
{
    if s.len() > 0 && is_white(s.last()) {
        let t = s.drop_last();
        if t.len() > 0 {
            assert(t[0] == s[0]);
        }
        lemma_trim_end_keeps_front(t);
    }
}

proof fn lemma_trim_start_end(s: Seq<char>)
    ensures
        trim_start(trim(s)) == trim(s),
{
    lemma_trim_start_first(s);
    lemma_trim_end_keeps_front(trim_start(s));
}

/// Stripping wrapping parentheses twice is stripping them once.
pub proof fn law_strip_parens_idempotent(s: Seq<char>)
    ensures
        strip_parens(strip_parens(s)) == strip_parens(s),
    decreases s.len(),
{
    let t = trim(s);
    crate::predicate_text::lemma_trim_len(s);
    if wraps_whole(t) {
        law_strip_parens_idempotent(t.subrange(1, t.len() - 1));
    } else {
        law_trim_idempotent(s);
    }
}

/// Dropping suppressed diagnostics keeps the others in their order: the result is never
/// longer, and with nothing suppressed nothing is dropped.
pub proof fn law_kept_diagnostics(ds: Seq<Diagnostic>, suppressed: Seq<usize>)
    ensures
        kept_diagnostics(ds, suppressed).len() <= ds.len(),
        forall|i: int| 0 <= i < kept_diagnostics(ds, suppressed).len() ==> ds.contains(#[trigger] kept_diagnostics(ds, suppressed)[i]),
        suppressed.len() == 0 ==> kept_diagnostics(ds, suppressed) == ds,
    decreases ds.len(),
{
    if ds.len() > 0 {
        let d = ds.drop_last();
        law_kept_diagnostics(d, suppressed);
        let k = kept_diagnostics(d, suppressed);
        let now = kept_diagnostics(ds, suppressed);
        assert forall|i: int| 0 <= i < now.len() implies ds.contains(#[trigger] now[i]) by {
            if i < k.len() {
                assert(now[i] == k[i]);
                assert(d.contains(k[i]));
                let j = choose|j: int| 0 <= j < d.len() && d[j] == k[i];
                assert(ds[j] == d[j]);
            } else {
                assert(now[i] == ds.last());
                assert(ds[ds.len() - 1] == ds.last());
            }
        }
        if suppressed.len() == 0 {
            assert(d.push(ds.last()) =~= ds);
        }
    }
}

/// Allowing more bindings keeps every name already allowed, allows every new name, and
/// never allows a name twice.
pub proof fn law_extended(existing: Seq<Seq<char>>, more: Seq<Seq<char>>)
    requires
        distinct(existing),
    ensures
        distinct(extended(existing, more)),
        forall|x: Seq<char>| existing.contains(x) ==> extended(existing, more).contains(x),
        forall|i: int| 0 <= i < more.len() ==> extended(existing, more).contains(#[trigger] more[i]),
    decreases more.len(),
{
    if more.len() > 0 {
        let e = push_unique(existing, more[0]);
        law_push_unique(existing, more[0]);
        assert(e == (if existing.contains(more[0]) { existing } else { existing.push(more[0]) }));
        law_extended(e, more.drop_first());
        assert forall|i: int| 0 <= i < more.len() implies extended(existing, more).contains(#[trigger] more[i]) by {
            if i > 0 {
                assert(more.drop_first()[i - 1] == more[i]);
            }
        }
    }
}


/// The effects a body is reported to use list each effect once, and every effect of a
/// recorded use is among them.
pub proof fn law_distinct_effects(uses: Seq<EffectUse>)
    ensures
        distinct(distinct_effects(uses)),
        forall|i: int| 0 <= i < uses.len() ==> distinct_effects(uses).contains(#[trigger] uses[i].effect@),
    decreases uses.len(),
{
    if uses.len() == 0 {
    } else {
        let prev = distinct_effects(uses.drop_last());
        law_distinct_effects(uses.drop_last());
        law_push_unique(prev, uses.last().effect@);
        assert forall|i: int| 0 <= i < uses.len() implies distinct_effects(uses).contains(#[trigger] uses[i].effect@) by {
            if i < uses.len() - 1 {
                assert(uses.drop_last()[i] == uses[i]);
                assert(prev.contains(uses[i].effect@));
            }
        }
    }
}

} // verus!
