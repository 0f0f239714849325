use vstd::prelude::*;

use crate::ast::{Expr, RecordField};
use crate::checker::{FunctionChecker, duplicate_details_view, duplicate_name_diagnostic, duplicate_origin_view, same_but_diagnostics};
use crate::diag::{DiagnosticKind, node_display};
use crate::dicts::empty_dict_ambiguous;
use crate::expressions::{expr_result, item_step};
use crate::infer::{kept_scope, lemma_grew_kept, lemma_kept_scope_refl, lemma_kept_scope_trans, lemma_size_fields, size_fields};
use crate::semantic::{ExpectedType, diag_is, pushed_one};
use crate::text::str_eq;
use crate::types::{Type, TypeV, record_field_type};

verus! {

/// The position of the first of the first `n` fields named `name`.
pub open spec fn first_field_named(fields: Seq<RecordField>, name: Seq<char>, n: int) -> Option<int> {
    if exists|j: int| 0 <= j < n && j < fields.len() && (#[trigger] fields[j]).name@ == name {
        Some(choose|j: int| 0 <= j < n && j < fields.len() && (#[trigger] fields[j]).name@ == name
            && forall|k: int| 0 <= k < j ==> (#[trigger] fields[k]).name@ != name)
    } else {
        None
    }
}

/// The type a record field is checked against: that of the expected record's field of
/// the same name, if there is one.
pub open spec fn expected_field(expected: Option<&ExpectedType>, name: Seq<char>) -> Option<TypeV> {
    match expected {
        Some(e) => record_field_type(e.ty@, name),
        None => None,
    }
}

/// Checking field `i` of a record literal from `a` to `b`, with value type `t`: a name
/// that an earlier field already used is reported against the first one, then the value
/// is inferred, against the expected record's field of that name when there is one, and
/// a mismatch with that field type is reported.
pub open spec fn record_field_step(a: FunctionChecker, d: FunctionChecker, b: FunctionChecker, fields: Seq<RecordField>, i: int,
    expected: Option<&ExpectedType>, t: TypeV) -> bool {
    let f = fields[i];
    &&& match first_field_named(fields, f.name@, i) {
        Some(j) => same_but_diagnostics(a, d) && pushed_one(a.diagnostics@, d.diagnostics@)
            && diag_is(d.diagnostics@.last(), "name.duplicate"@, DiagnosticKind::Name,
                "duplicate "@ + "record field"@ + " name `"@ + f.name@ + "`"@, Some(f.span@),
                duplicate_details_view(f.name@, "record_field"@, node_display(f.node_id.index, "field"@),
                    node_display(fields[j].node_id.index, "field"@)),
                seq![duplicate_origin_view("record field"@, fields[j].span@)]),
        None => d == a,
    }
    &&& match expected_field(expected, f.name@) {
        Some(ft) => exists|m: FunctionChecker, e: ExpectedType| #[trigger] item_step(d, m, b, f.expr, f.expr, ft, "assignable"@, t, e),
        None => kept_scope(d, b) && expr_result(d, f.expr, None, t),
    }
}

/// `b` is `a` after checking the first `n` fields of a record literal in order, with
/// value types `ts`.
pub open spec fn record_fields_checked(a: FunctionChecker, b: FunctionChecker, fields: Seq<RecordField>, n: int,
    expected: Option<&ExpectedType>, ts: Seq<TypeV>) -> bool
    decreases n,
{
    if n <= 0 {
        a == b && ts.len() == 0
    } else {
        ts.len() == n && exists|m: FunctionChecker, d: FunctionChecker| record_fields_checked(a, m, fields, n - 1, expected, ts.drop_last())
            && #[trigger] record_field_step(m, d, b, fields, n - 1, expected, ts.last())
    }
}

/// What inferring a record literal takes `a` to, with type `r`: `{}` where a `Dict` is
/// expected is that dictionary type, reported as ambiguous when incomplete; otherwise the
/// fields are checked in order, and the type is the expected record type, else the
/// record of the fields' names and value types.
pub open spec fn record_reported(a: FunctionChecker, b: FunctionChecker, rec: Expr, fields: Seq<RecordField>, expected: Option<&ExpectedType>,
    r: TypeV) -> bool {
    let dict_expected = expected matches Some(e) && (e.ty@ matches TypeV::Named { name, args } && name == "Dict"@ && args.len() == 2);
    if fields.len() == 0 && dict_expected {
        &&& r == expected->0.ty@
        &&& if empty_dict_ambiguous(expected) {
            pushed_one(a.diagnostics@, b.diagnostics@) && same_but_diagnostics(a, b)
            && diag_is(b.diagnostics@.last(), "type.inference_ambiguous"@, DiagnosticKind::Type,
                "empty "@ + "Dict"@ + " literal needs concrete type context"@, Some(rec.span@),
                crate::body_diagnostics::ambiguous_collection_details_view(node_display(rec.node_id.index, "expr"@), "Dict"@,
                    expected->0.ty@), Seq::empty())
        } else {
            b == a
        }
    } else {
        exists|ts: Seq<TypeV>| #[trigger] record_fields_checked(a, b, fields, fields.len() as int, expected, ts)
            && r == if expected matches Some(e) && e.ty@ is Record {
                expected->0.ty@
            } else {
                TypeV::Record(Seq::new(fields.len(), |i: int| (fields[i].name@, ts[i])))
            }
    }
}

impl<'a> FunctionChecker<'a> {
    /// The first of the first `n` fields named `name`.
    fn earlier_field(fields: &Vec<RecordField>, name: &str, n: usize) -> (r: Option<usize>)
        requires
            n <= fields@.len(),
        ensures
            match r {
                Some(j) => first_field_named(fields@, name@, n as int) == Some(j as int) && j < n,
                None => first_field_named(fields@, name@, n as int) is None,
            },
    {
        let mut j: usize = 0;
        while j < n
            invariant
                0 <= j <= n <= fields@.len(),
                forall|k: int| 0 <= k < j ==> (#[trigger] fields@[k]).name@ != name@,
            decreases n - j,
        {
            if str_eq(fields[j].name.as_str(), name) {
                proof {
                    let c = choose|c: int| 0 <= c < n && c < fields@.len() && (#[trigger] fields@[c]).name@ == name@
                        && forall|k: int| 0 <= k < c ==> (#[trigger] fields@[k]).name@ != name@;
                    if c < j { assert(fields@[c].name@ != name@); }
                    if j < c { assert(fields@[j as int].name@ != name@); }
                }
                return Some(j);
            }
            j += 1;
        }
        None
    }

    /// Checks field `i` of a record literal and gives its value type.
    #[verifier::rlimit(80)]
    fn check_record_field(&mut self, fields: &Vec<RecordField>, i: usize, expected: Option<&ExpectedType>) -> (r: Type)
        requires
            i < fields@.len(),
        ensures
            kept_scope(*old(self), *final(self)),
            exists|d: FunctionChecker| #[trigger] record_field_step(*old(self), d, *final(self), fields@, i as int, expected, r@),
        decreases size_fields(fields@) + 1, 0nat,
    {
        let ghost start = *self;
        let field = &fields[i];
        match Self::earlier_field(fields, field.name.as_str(), i) {
            Some(j) => {
                let d = duplicate_name_diagnostic(field.name.as_str(), "record_field", "record field", field.node_id.display("field"),
                    field.span.copy(), fields[j].node_id.display("field"), &fields[j].span);
                self.diagnostics.push(d);
                proof {
                    assert(self.diagnostics@.take(start.diagnostics@.len() as int) =~= start.diagnostics@);
                    assert(crate::patterns::grew(start, *self));
                    lemma_grew_kept(start, *self);
                }
            },
            None => {
                proof { lemma_kept_scope_refl(start); }
            },
        }
        let ghost d = *self;
        proof { lemma_size_fields(fields@, i as int); }
        let field_expected = match expected {
            Some(e) => match e.ty.record_field(field.name.as_str()) {
                Some(t) => Some(ExpectedType {
                    ty: t.copy(),
                    source: e.source,
                    origin_node_id: e.origin_node_id,
                    origin_span: match &e.origin_span { Some(s) => Some(s.copy()), None => None },
                    origin_message: e.origin_message,
                }),
                None => None,
            },
            None => None,
        };
        match &field_expected {
            Some(fe) => {
                let actual = self.infer_expr(&field.expr, Some(fe));
                let ghost m = *self;
                self.check_assignable(&field.expr, &fe.ty, &actual, fe, "assignable");
                proof {
                    reveal_strlit("assignable");
                    lemma_grew_kept(m, *self);
                    lemma_kept_scope_trans(d, m, *self);
                    lemma_kept_scope_trans(start, d, *self);
                    assert(item_step(d, m, *self, field.expr, field.expr, fe.ty@, "assignable"@, actual@, *fe));
                    assert(record_field_step(start, d, *self, fields@, i as int, expected, actual@));
                }
                actual
            },
            None => {
                let actual = self.infer_expr(&field.expr, None);
                proof {
                    lemma_kept_scope_trans(start, d, *self);
                    assert(record_field_step(start, d, *self, fields@, i as int, expected, actual@));
                }
                actual
            },
        }
    }

    /// Infers a record literal: each field's value against the expected record's field of
    /// the same name, a repeated field name reported; `{}` where a dictionary is expected
    /// is that dictionary.
    #[verifier::rlimit(60)]
    pub fn infer_record(&mut self, expr: &Expr, fields: &Vec<RecordField>, expected: Option<&ExpectedType>) -> (r: Type)
        ensures
            kept_scope(*old(self), *final(self)),
            record_reported(*old(self), *final(self), *expr, fields@, expected, r@),
        decreases size_fields(fields@) + 1, 1nat,
    {
        let ghost start = *self;
        proof { lemma_kept_scope_refl(start); }
        if fields.len() == 0 {
            if let Some(e) = expected {
                if e.ty.dict_parts().is_some() {
                    if crate::types::type_contains_unknown(&e.ty) {
                        self.push_ambiguous_empty_collection_type(expr.node_id, expr.span.copy(), "Dict", &e.ty);
                        proof {
                            reveal_strlit("Dict");
                            crate::patterns::lemma_grew_push(start, *self);
                            lemma_grew_kept(start, *self);
                        }
                    }
                    return e.ty.copy();
                }
            }
        }
        let mut actual_fields: Vec<(String, Type)> = Vec::new();
        let ghost mut ts: Seq<TypeV> = Seq::empty();
        let mut i: usize = 0;
        while i < fields.len()
            invariant
                0 <= i <= fields@.len(),
                kept_scope(start, *self),
                record_fields_checked(start, *self, fields@, i as int, expected, ts),
                ts.len() == i,
                actual_fields@.len() == i,
                forall|k: int| 0 <= k < i ==> (#[trigger] actual_fields@[k]).0@ == fields@[k].name@ && actual_fields@[k].1@ == ts[k],
            decreases fields.len() - i,
        {
            let ghost before = *self;
            let ghost before_ts = ts;
            let actual = self.check_record_field(fields, i, expected);
            proof {
                lemma_kept_scope_trans(start, before, *self);
                ts = before_ts.push(actual@);
                assert(ts.drop_last() =~= before_ts);
                let d = choose|d: FunctionChecker| #[trigger] record_field_step(before, d, *self, fields@, i as int, expected, actual@);
                let n: int = i + 1;
                assert(ts.last() == actual@);
                assert(record_fields_checked(start, before, fields@, n - 1, expected, ts.drop_last()));
                assert(record_field_step(before, d, *self, fields@, n - 1, expected, ts.last()));
                assert(record_fields_checked(start, *self, fields@, n, expected, ts));
            }
            actual_fields.push((fields[i].name.clone(), actual));
            i += 1;
        }
        if let Some(e) = expected {
            match &e.ty {
                Type::Record(_) => {
                    proof { crate::relations::lemma_kind_facts(&e.ty); }
                    return e.ty.copy();
                },
                _ => {
                    proof { crate::relations::lemma_kind_facts(&e.ty); }
                },
            }
        }
        let r = Type::Record(actual_fields);
        proof {
            crate::types::lemma_record_view(actual_fields);
            assert(crate::types::fields_view(actual_fields@) =~= Seq::new(fields@.len(), |k: int| (fields@[k].name@, ts[k])));
        }
        r
    }
}

} // verus!
