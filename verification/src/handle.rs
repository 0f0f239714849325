use vstd::prelude::*;

use crate::ast::Expr;
use crate::checker::{FunctionChecker, same_but_diagnostics};
use crate::diag::{Diagnostic, DiagnosticKind, Severity, SourceSpan, SpanV, jsons, node_display};
use crate::effect_labels::{effect_details, effect_details_view};
use crate::env::{HandlerSignature, handler_choice};
use crate::expressions::expr_result;
use crate::infer::{kept_scope, lemma_grew_kept, lemma_kept_scope_trans, opt_module, size, size_all};
use crate::names_infer::{join_path, join_path_view};
use crate::perform::{arguments_checked, type_views};
use crate::semantic::{EffectUse, ExpectedType, diag_is, pushed_one};
use crate::text::{str_eq, string_of};
use crate::types::{Type, TypeV};

verus! {

/// The uses, in order, of every effect but `effect`.
pub open spec fn without_effect(uses: Seq<EffectUse>, effect: Seq<char>) -> Seq<EffectUse>
    decreases uses.len(),
{
    if uses.len() == 0 {
        Seq::empty()
    } else if uses.last().effect@ == effect {
        without_effect(uses.drop_last(), effect)
    } else {
        without_effect(uses.drop_last(), effect).push(uses.last())
    }
}

/// The use a handle expression records for one effect its handler's clauses may use.
pub open spec fn handler_use(u: EffectUse, effect: Seq<char>, handler: HandlerSignature, expr: Expr) -> bool {
    u.effect@ == effect && u.symbol@ == handler.qualified_name@ && u.span@ == expr.span@
        && u.node_id == expr.node_id && u.kind@ == "handle_expression"@
}

/// What checking `handle body with Handler(args)` leaves, where the body's type is `r`.
/// With the handler resolved: the arguments checked against its parameter types, the
/// body inferred against the expectation, the body's uses of the handled effect
/// dropped, and one use recorded for each effect the handler's clauses may use. With
/// the handler unresolved: the arguments inferred against nothing, the body inferred,
/// and the unknown handler reported.
pub open spec fn handle_reported(a: FunctionChecker, b: FunctionChecker, expr: Expr, body: Expr, handler: Seq<Seq<char>>,
    handler_span: SpanV, args: Seq<Expr>, expected: Option<&ExpectedType>, r: TypeV) -> bool {
    let hs = a.environment.handlers@;
    match handler_choice(hs, join_path_view(handler), opt_module(a.function.module_name)) {
        None => exists|m1: FunctionChecker, m2: FunctionChecker| #[trigger] arguments_checked(a, m1, args, Seq::empty(), expr.node_id)
            && #[trigger] kept_scope(m1, m2) && #[trigger] expr_result(m1, body, expected, r)
            && same_but_diagnostics(m2, b) && pushed_one(m2.diagnostics@, b.diagnostics@)
            && diag_is(b.diagnostics@.last(), "handler.unknown"@, DiagnosticKind::Effect,
                "handler `"@ + join_path_view(handler) + "` is not known"@, Some(handler_span),
                effect_details_view(node_display(expr.node_id.index, "expr"@), "handle_expression"@), Seq::empty()),
        Some(h) => exists|m1: FunctionChecker, m2: FunctionChecker|
            #[trigger] arguments_checked(a, m1, args, type_views(hs[h].params@), expr.node_id)
            && #[trigger] kept_scope(m1, m2) && #[trigger] expr_result(m1, body, expected, r)
            && b.diagnostics == m2.diagnostics && b.bindings == m2.bindings
            && ({
                let kept = m1.inferred_effects@ + without_effect(m2.inferred_effects@.skip(m1.inferred_effects@.len() as int), hs[h].effect@);
                &&& b.inferred_effects@.len() == kept.len() + hs[h].effects@.len()
                &&& b.inferred_effects@.take(kept.len() as int) == kept
                &&& forall|i: int| 0 <= i < hs[h].effects@.len()
                    ==> handler_use(#[trigger] b.inferred_effects@[kept.len() + i], hs[h].effects@[i]@, hs[h], expr)
            }),
    }
}

impl EffectUse {
    /// A copy of this use.
    pub fn copy(&self) -> (r: EffectUse)
        ensures
            r == *self,
    {
        EffectUse {
            effect: self.effect.clone(),
            node_id: self.node_id,
            kind: self.kind,
            symbol: self.symbol.clone(),
            span: SourceSpan {
                file: self.span.file.clone(),
                start_line: self.span.start_line,
                start_column: self.span.start_column,
                end_line: self.span.end_line,
                end_column: self.span.end_column,
            },
        }
    }
}

impl<'a> FunctionChecker<'a> {
    /// Drops the uses of `effect` recorded after position `before`, keeping the others in
    /// order.
    pub fn retain_unhandled_effects(&mut self, before: usize, effect: &String)
        requires
            before <= old(self).inferred_effects@.len(),
        ensures
            final(self).inferred_effects@ == old(self).inferred_effects@.take(before as int)
                + without_effect(old(self).inferred_effects@.skip(before as int), effect@),
            final(self).function == old(self).function,
            final(self).environment == old(self).environment,
            final(self).bindings == old(self).bindings,
            final(self).invalid_binding_recoveries == old(self).invalid_binding_recoveries,
            final(self).omitted_local_bindings == old(self).omitted_local_bindings,
            final(self).local_names == old(self).local_names,
            final(self).inferred_return_type == old(self).inferred_return_type,
            final(self).diagnostics == old(self).diagnostics,
            final(self).suppressed_diagnostic_indices == old(self).suppressed_diagnostic_indices,
    {
        let ghost uses = self.inferred_effects@;
        let mut retained: Vec<EffectUse> = Vec::new();
        let mut i: usize = 0;
        while i < before
            invariant
                0 <= i <= before <= uses.len(),
                uses == self.inferred_effects@,
                retained@ == uses.take(i as int),
            decreases before - i,
        {
            retained.push(self.inferred_effects[i].copy());
            assert(retained@ =~= uses.take(i + 1));
            i += 1;
        }
        let mut j: usize = before;
        assert(uses.subrange(before as int, before as int) =~= Seq::<EffectUse>::empty());
        while j < self.inferred_effects.len()
            invariant
                before <= j <= uses.len(),
                uses == self.inferred_effects@,
                retained@ == uses.take(before as int) + without_effect(uses.subrange(before as int, j as int), effect@),
            decreases self.inferred_effects.len() - j,
        {
            let ghost tail = uses.subrange(before as int, j + 1);
            assert(tail.drop_last() =~= uses.subrange(before as int, j as int));
            assert(tail.last() == uses[j as int]);
            if !str_eq(self.inferred_effects[j].effect.as_str(), effect.as_str()) {
                retained.push(self.inferred_effects[j].copy());
                assert(retained@ =~= uses.take(before as int) + without_effect(tail, effect@));
            }
            j += 1;
        }
        assert(uses.subrange(before as int, uses.len() as int) =~= uses.skip(before as int));
        self.inferred_effects = retained;
    }

    /// Infers `handle body with Handler(args)`: the type is the body's. With the handler
    /// resolved, its arguments are checked, the body's uses of the handled effect are
    /// dropped, and the effects the handler's clauses may use are recorded at the
    /// expression; an unknown handler is reported.
    #[verifier::rlimit(50)]
    pub fn infer_handle(&mut self, expr: &Expr, body: &Expr, handler: &Vec<String>, handler_span: &SourceSpan, args: &Vec<Expr>,
        expected: Option<&ExpectedType>) -> (r: Type)
        ensures
            kept_scope(*old(self), *final(self)),
            handle_reported(*old(self), *final(self), *expr, *body, handler.deep_view(), handler_span@, args@, expected, r@),
        decreases size(*body) + size_all(args@) + 1, 1nat,
    {
        let ghost start = *self;
        let segments = handler.as_slice();
        let path = join_path(segments);
        assert(segments.deep_view() =~= handler.deep_view());
        let module = crate::patterns::module_of(&self.function.module_name);
        let environment = self.environment;
        match environment.user_handler_path(path.as_str(), module) {
            None => {
                let empty: Vec<Type> = Vec::new();
                self.check_call_arguments(args, &empty, expr.node_id, handler_span);
                let ghost m1 = *self;
                let body_type = self.infer_expr(body, expected);
                let ghost m2 = *self;
                let mut message = string_of("handler `");
                message.append(path.as_str());
                message.append("` is not known");
                let details = effect_details(expr.node_id.display("expr"), "handle_expression");
                let d = Diagnostic::new("handler.unknown", Severity::Error, DiagnosticKind::Effect, message, Some(handler_span.copy()), details);
                assert(jsons(d.related@) =~= Seq::empty());
                self.diagnostics.push(d);
                proof {
                    assert(type_views(empty@) =~= Seq::<TypeV>::empty());
                    assert(self.diagnostics@.take(m2.diagnostics@.len() as int) =~= m2.diagnostics@);
                    assert(crate::patterns::grew(m2, *self));
                    lemma_grew_kept(m2, *self);
                    lemma_kept_scope_trans(start, m1, m2);
                    lemma_kept_scope_trans(start, m2, *self);
                    assert(arguments_checked(start, m1, args@, Seq::empty(), expr.node_id));
                    assert(expr_result(m1, *body, expected, body_type@));
                    assert(kept_scope(m1, m2));
                }
                body_type
            },
            Some(k) => {
                let signature = &environment.handlers[k];
                self.check_call_arguments(args, &signature.params, expr.node_id, handler_span);
                let ghost m1 = *self;
                let before = self.inferred_effects.len();
                let body_type = self.infer_expr(body, expected);
                let ghost m2 = *self;
                self.retain_unhandled_effects(before, &signature.effect);
                let ghost kept = self.inferred_effects@;
                proof {
                    assert(m2.inferred_effects@.take(before as int) =~= m1.inferred_effects@);
                }
                let mut i: usize = 0;
                while i < signature.effects.len()
                    invariant
                        0 <= i <= signature.effects@.len(),
                        signature == &environment.handlers@[k as int],
                        self.function == m2.function,
                        self.environment == m2.environment,
                        self.bindings == m2.bindings,
                        self.invalid_binding_recoveries == m2.invalid_binding_recoveries,
                        self.omitted_local_bindings == m2.omitted_local_bindings,
                        self.local_names == m2.local_names,
                        self.inferred_return_type == m2.inferred_return_type,
                        self.diagnostics == m2.diagnostics,
                        self.suppressed_diagnostic_indices == m2.suppressed_diagnostic_indices,
                        self.inferred_effects@.len() == kept.len() + i,
                        self.inferred_effects@.take(kept.len() as int) == kept,
                        forall|j: int| 0 <= j < i ==> handler_use(#[trigger] self.inferred_effects@[kept.len() + j], signature.effects@[j]@, *signature, *expr),
                    decreases signature.effects.len() - i,
                {
                    let used = EffectUse {
                        effect: signature.effects[i].clone(),
                        node_id: expr.node_id,
                        span: expr.span.copy(),
                        kind: "handle_expression",
                        symbol: signature.qualified_name.clone(),
                    };
                    proof { reveal_strlit("handle_expression"); }
                    let ghost pre = self.inferred_effects@;
                    self.inferred_effects.push(used);
                    proof {
                        assert(self.inferred_effects@.take(kept.len() as int) =~= pre.take(kept.len() as int));
                        assert forall|j: int| 0 <= j < i + 1 implies handler_use(#[trigger] self.inferred_effects@[kept.len() + j], signature.effects@[j]@, *signature, *expr) by {
                            if j < i {
                                assert(self.inferred_effects@[kept.len() + j] == pre[kept.len() + j]);
                            }
                        }
                    }
                    i += 1;
                }
                proof {
                    lemma_kept_scope_trans(start, m1, m2);
                    assert forall|j: int| 0 <= j < start.inferred_effects@.len() implies #[trigger] self.inferred_effects@[j] == start.inferred_effects@[j] by {
                        assert(self.inferred_effects@.take(kept.len() as int)[j] == kept[j]);
                        assert(kept[j] == m1.inferred_effects@[j]);
                    }
                    assert(kept_scope(start, *self));
                    assert(arguments_checked(start, m1, args@, type_views(signature.params@), expr.node_id));
                    assert(expr_result(m1, *body, expected, body_type@));
                    assert(kept_scope(m1, m2));
                }
                body_type
            },
        }
    }
}

} // verus!
