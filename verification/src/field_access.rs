use vstd::prelude::*;

use crate::ast::Expr;
use crate::body_diagnostics::{note, note_view};
use crate::checker::{FunctionChecker, same_but_diagnostics};
use crate::diag::{Diagnostic, DiagnosticKind, Severity, SourceSpan, SpanV, jsons, node_display};
use crate::expressions::expr_result;
use crate::infer::{kept_scope, lemma_grew_kept, lemma_kept_scope_trans, size};
use crate::render::{render, render_type};
use crate::semantic::{diag_is, pushed_one, type_details, type_details_view};
use crate::text::string_of;
use crate::types::{Type, TypeV, record_field_type};

verus! {

/// What inferring `base.field` takes `a` to, with type `r`: the base is inferred against
/// nothing, with type `t`, into `m`; a record field of that name gives its type; an
/// unknown base gives an unknown type; any other base is reported as having no such
/// field.
pub open spec fn field_reported(a: FunctionChecker, b: FunctionChecker, expr: Expr, base: Expr, field: Seq<char>, field_span: SpanV,
    r: TypeV) -> bool {
    exists|m: FunctionChecker, t: TypeV| #[trigger] kept_scope(a, m) && #[trigger] expr_result(a, base, None, t) && match record_field_type(t, field) {
        Some(ft) => r == ft && b == m,
        None => if t == TypeV::Unknown {
            r == TypeV::Unknown && b == m
        } else {
            r == TypeV::Unknown && same_but_diagnostics(m, b) && pushed_one(m.diagnostics@, b.diagnostics@)
                && diag_is(b.diagnostics@.last(), "type.field_missing"@, DiagnosticKind::Type,
                    "type `"@ + render(t) + "` has no field `"@ + field + "`"@, Some(field_span),
                    type_details_view(node_display(expr.node_id.index, "expr"@), "record field `"@ + field + "`"@, render(t),
                        "field_access"@, "inferred_expression"@, "field_access"@,
                        seq![node_display(a.function.node_id.index, "fn"@), node_display(base.node_id.index, "expr"@)]),
                    seq![note_view("field_base"@, "Field access base has type `"@ + render(t) + "`."@, base.span@)])
        },
    }
}

impl<'a> FunctionChecker<'a> {
    /// Infers `base.field`: the type of the base's record field of that name; a base of
    /// another known type is reported as having no such field.
    pub fn infer_field_access(&mut self, expr: &Expr, base: &Expr, field: &String, field_span: &SourceSpan) -> (r: Type)
        ensures
            kept_scope(*old(self), *final(self)),
            field_reported(*old(self), *final(self), *expr, *base, field@, field_span@, r@),
        decreases size(*base) + 1, 1nat,
    {
        let ghost start = *self;
        let base_type = self.infer_expr(base, None);
        let ghost m = *self;
        proof {
            assert(kept_scope(start, m));
            assert(expr_result(start, *base, None, base_type@));
        }
        if let Some(t) = base_type.record_field(field.as_str()) {
            return t.copy();
        }
        if base_type.is_unknown() {
            return Type::Unknown;
        }
        let rendered = render_type(&base_type);
        let mut message = string_of("type `");
        message.append(rendered.as_str());
        message.append("` has no field `");
        message.append(field.as_str());
        message.append("`");
        let mut expected_text = string_of("record field `");
        expected_text.append(field.as_str());
        expected_text.append("`");
        let mut related_ids: Vec<String> = Vec::new();
        related_ids.push(self.function.node_id.display("fn"));
        related_ids.push(base.node_id.display("expr"));
        let ghost ids = related_ids.deep_view();
        let details = type_details(expr.node_id.display("expr"), expected_text.as_str(), rendered.as_str(), "field_access",
            "inferred_expression", "field_access", related_ids);
        let mut d = Diagnostic::new("type.field_missing", Severity::Error, DiagnosticKind::Type, message, Some(field_span.copy()), details);
        let mut base_message = string_of("Field access base has type `");
        base_message.append(rendered.as_str());
        base_message.append("`.");
        let n = note("field_base", base_message, &base.span);
        let ghost nv = n@;
        d.related.push(n);
        assert(jsons(d.related@) =~= seq![nv]);
        self.diagnostics.push(d);
        proof {
            assert(ids =~= seq![node_display(start.function.node_id.index, "fn"@), node_display(base.node_id.index, "expr"@)]);
            assert(self.diagnostics@.take(m.diagnostics@.len() as int) =~= m.diagnostics@);
            assert(crate::patterns::grew(m, *self));
            lemma_grew_kept(m, *self);
            lemma_kept_scope_trans(start, m, *self);
        }
        Type::Unknown
    }
}

} // verus!
