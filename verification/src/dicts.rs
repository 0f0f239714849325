use vstd::prelude::*;

use crate::ast::{DictEntry, Expr};
use crate::checker::{FunctionChecker, same_but_diagnostics};
use crate::diag::{DiagnosticKind, node_display};
use crate::expressions::{element_after, item_checked, item_step};
use crate::infer::{kept_scope, lemma_grew_kept, lemma_kept_scope_refl, lemma_kept_scope_trans, lemma_size_entries, size_entries};
use crate::semantic::{ExpectedType, diag_is, pushed_one};
use crate::types::{Type, TypeV, contains_unknown};

verus! {

/// The key and value types a dictionary is expected to have: those of an expected
/// `Dict`, else unknown.
pub open spec fn expected_entry(expected: Option<&ExpectedType>) -> (TypeV, TypeV) {
    match expected {
        Some(e) => match e.ty@ {
            TypeV::Named { name, args } => if name == "Dict"@ && args.len() == 2 { (args[0], args[1]) } else { (TypeV::Unknown, TypeV::Unknown) },
            _ => (TypeV::Unknown, TypeV::Unknown),
        },
        None => (TypeV::Unknown, TypeV::Unknown),
    }
}

/// Whether an empty dictionary is reported as ambiguous: its expected type is a `Dict`
/// whose type is incomplete.
pub open spec fn empty_dict_ambiguous(expected: Option<&ExpectedType>) -> bool {
    expected matches Some(e) && (e.ty@ matches TypeV::Named { name, args } && name == "Dict"@ && args.len() == 2)
        && contains_unknown(e.ty@)
}

/// `b` is `a` after checking the first `n` entries of a dictionary in order: each key
/// against the key type so far, then its value against the value type so far; `ks` and
/// `vs` are the key and value types found.
pub open spec fn dict_entries_checked(a: FunctionChecker, b: FunctionChecker, dict: Expr, entries: Seq<DictEntry>, n: int,
    expected: Option<&ExpectedType>, ks: Seq<TypeV>, vs: Seq<TypeV>) -> bool
    decreases n,
{
    if n <= 0 {
        a == b && ks.len() == 0 && vs.len() == 0
    } else {
        ks.len() == n && vs.len() == n && exists|m1: FunctionChecker, m2: FunctionChecker|
            dict_entries_checked(a, m1, dict, entries, n - 1, expected, ks.drop_last(), vs.drop_last())
            && #[trigger] item_checked(m1, m2, dict, entries[n - 1].key, element_after(expected_entry(expected).0, ks.drop_last()),
                "dict_key"@, ks.last())
            && #[trigger] item_checked(m2, b, dict, entries[n - 1].value, element_after(expected_entry(expected).1, vs.drop_last()),
                "dict_value"@, vs.last())
    }
}

/// What inferring a dictionary literal takes `a` to, with type `r`: an empty one
/// reports an incomplete expected `Dict` type; the entries are checked in order, and the
/// key and value types are the expected ones, else the first that are known.
pub open spec fn dict_reported(a: FunctionChecker, b: FunctionChecker, dict: Expr, entries: Seq<DictEntry>, expected: Option<&ExpectedType>,
    r: TypeV) -> bool {
    &&& entries.len() == 0 ==> if empty_dict_ambiguous(expected) {
        pushed_one(a.diagnostics@, b.diagnostics@) && same_but_diagnostics(a, b)
        && diag_is(b.diagnostics@.last(), "type.inference_ambiguous"@, DiagnosticKind::Type,
            "empty "@ + "Dict"@ + " literal needs concrete type context"@, Some(dict.span@),
            crate::body_diagnostics::ambiguous_collection_details_view(node_display(dict.node_id.index, "expr"@), "Dict"@,
                expected->0.ty@), Seq::empty())
            && r == expected->0.ty@
    } else {
        b == a && r == (TypeV::Named { name: "Dict"@, args: seq![expected_entry(expected).0, expected_entry(expected).1] })
    }
    &&& entries.len() > 0 ==> exists|ks: Seq<TypeV>, vs: Seq<TypeV>|
        #[trigger] dict_entries_checked(a, b, dict, entries, entries.len() as int, expected, ks, vs)
        && r == (TypeV::Named { name: "Dict"@, args: seq![element_after(expected_entry(expected).0, ks),
            element_after(expected_entry(expected).1, vs)] })
}

impl<'a> FunctionChecker<'a> {
    /// Infers a dictionary literal: each key and value is checked against the key and
    /// value types, which the expectation or else the first known entry fixes. An empty
    /// dictionary whose expected `Dict` type is incomplete is reported as ambiguous.
    #[verifier::rlimit(80)]
    pub fn infer_dict(&mut self, expr: &Expr, entries: &Vec<DictEntry>, expected: Option<&ExpectedType>) -> (r: Type)
        ensures
            kept_scope(*old(self), *final(self)),
            dict_reported(*old(self), *final(self), *expr, entries@, expected, r@),
        decreases size_entries(entries@) + 1, 1nat,
    {
        let ghost start = *self;
        proof { lemma_kept_scope_refl(start); }
        if entries.len() == 0 {
            if let Some(e) = expected {
                if e.ty.dict_parts().is_some() && crate::types::type_contains_unknown(&e.ty) {
                    self.push_ambiguous_empty_collection_type(expr.node_id, expr.span.copy(), "Dict", &e.ty);
                    proof {
                        reveal_strlit("Dict");
                        crate::patterns::lemma_grew_push(start, *self);
                        lemma_grew_kept(start, *self);
                    }
                    return e.ty.copy();
                }
            }
        }
        let (expected_key, expected_value) = match expected {
            Some(e) => match e.ty.dict_parts() {
                Some((k, v)) => (k.copy(), v.copy()),
                None => (Type::Unknown, Type::Unknown),
            },
            None => (Type::Unknown, Type::Unknown),
        };
        assert(expected_key@ == expected_entry(expected).0 && expected_value@ == expected_entry(expected).1);
        let mut key_type = expected_key.copy();
        let mut value_type = expected_value.copy();
        let ghost mut ks: Seq<TypeV> = Seq::empty();
        let ghost mut vs: Seq<TypeV> = Seq::empty();
        let ghost after_empty = *self;
        let mut i: usize = 0;
        while i < entries.len()
            invariant
                0 <= i <= entries@.len(),
                kept_scope(start, *self),
                entries@.len() > 0 ==> dict_entries_checked(start, *self, *expr, entries@, i as int, expected, ks, vs),
                entries@.len() == 0 ==> *self == after_empty && after_empty == start,
                ks.len() == i && vs.len() == i,
                expected_key@ == expected_entry(expected).0,
                expected_value@ == expected_entry(expected).1,
                key_type@ == element_after(expected_key@, ks),
                value_type@ == element_after(expected_value@, vs),
            decreases entries.len() - i,
        {
            let entry = &entries[i];
            let ghost before = *self;
            let ghost before_ks = ks;
            let ghost before_vs = vs;
            proof { lemma_size_entries(entries@, i as int); }
            let key_expected = crate::boundary::collection_item_expected(key_type.copy(), expected, expr.node_id, expr.span.copy(),
                "Dict key type inferred here.");
            let actual_key = self.infer_expr(&entry.key, Some(&key_expected));
            let ghost k_mid = *self;
            self.check_assignable(&entry.key, &key_expected.ty, &actual_key, &key_expected, "dict_key");
            let ghost m1 = *self;
            proof {
                reveal_strlit("dict_key");
                lemma_grew_kept(k_mid, m1);
                lemma_kept_scope_trans(before, k_mid, m1);
                assert(item_step(before, k_mid, m1, *expr, entry.key, element_after(expected_entry(expected).0, before_ks), "dict_key"@,
                    actual_key@, key_expected));
                assert(item_checked(before, m1, *expr, entry.key, element_after(expected_entry(expected).0, before_ks), "dict_key"@,
                    actual_key@));
            }
            if key_type.is_unknown() {
                key_type = actual_key;
            }
            let value_expected = crate::boundary::collection_item_expected(value_type.copy(), expected, expr.node_id, expr.span.copy(),
                "Dict value type inferred here.");
            let actual_value = self.infer_expr(&entry.value, Some(&value_expected));
            let ghost v_mid = *self;
            self.check_assignable(&entry.value, &value_expected.ty, &actual_value, &value_expected, "dict_value");
            proof {
                reveal_strlit("dict_value");
                lemma_grew_kept(v_mid, *self);
                lemma_kept_scope_trans(m1, v_mid, *self);
                lemma_kept_scope_trans(before, m1, *self);
                lemma_kept_scope_trans(start, before, *self);
                assert(item_step(m1, v_mid, *self, *expr, entry.value, element_after(expected_entry(expected).1, before_vs), "dict_value"@,
                    actual_value@, value_expected));
                assert(item_checked(m1, *self, *expr, entry.value, element_after(expected_entry(expected).1, before_vs), "dict_value"@,
                    actual_value@));
                ks = before_ks.push(actual_key@);
                vs = before_vs.push(actual_value@);
                assert(ks.drop_last() =~= before_ks);
                assert(vs.drop_last() =~= before_vs);
                if i == 0 {
                    assert(dict_entries_checked(start, before, *expr, entries@, 0, expected, before_ks, before_vs));
                }
                assert(dict_entries_checked(start, *self, *expr, entries@, i + 1, expected, ks, vs));
            }
            if value_type.is_unknown() {
                value_type = actual_value;
            }
            i += 1;
        }
        Type::dict_of(key_type, value_type)
    }
}

} // verus!
