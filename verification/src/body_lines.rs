use vstd::prelude::*;

use crate::ast::{Expr, FunctionKind, Param, Visibility};
use crate::body_checks::{annotation_omitted, private_param_details_view, private_return_details_view};
use crate::declarations::{diag_view, diag_views, DiagV};
use crate::types::TypeV;
use crate::body_checks::{last_binding_type, omitted_local_details_view};
use crate::body_diagnostics::{note, note_view};
use crate::checker::{FunctionChecker, OmittedLocalBinding, PatternBinding, contains_index, same_but_diagnostics};
use crate::diag::{Diagnostic, DiagnosticKind, Severity, jsons, node_display, opt_span_view};
use crate::json::{JsonV, ObjectBuilder, json_string_field_is, spec_json_string_field_is};
use crate::names::{starts_lower, valid_value_binding_name};
use crate::render::{render, render_type};
use crate::semantic::{Binding, diag_is};
use crate::text::string_of;
use crate::types::{Type, contains_unknown, type_contains_unknown};

verus! {

/// The names, in order, of the omitted-annotation locals whose type is still incomplete
/// and for which no deferred initializer diagnostic stands.
pub open spec fn incomplete_locals(bindings: Seq<Binding>, omitted: Seq<OmittedLocalBinding>) -> Seq<Seq<char>>
    decreases omitted.len(),
{
    if omitted.len() == 0 {
        Seq::empty()
    } else {
        let rest = incomplete_locals(bindings, omitted.drop_last());
        let o = omitted.last();
        if contains_unknown(last_binding_type(bindings, o.name@)) && o.deferred_initializer_diagnostic is None {
            rest.push(o.name@)
        } else {
            rest
        }
    }
}

impl<'a> FunctionChecker<'a> {
    /// For a private plain function: reports each parameter and the result whose
    /// omitted annotation inference could not fix. Public functions and tests have
    /// their own boundary checks; an annotated result is not checked here.
    pub fn check_private_inference_complete(&mut self)
        ensures
            same_but_diagnostics(*old(self), *final(self)),
            diag_views(final(self).diagnostics@) == diag_views(old(self).diagnostics@) + private_inference_report(*old(self)),
    {
        let ghost before = *self;
        let ghost start = self.diagnostics@;
        if self.function.visibility == Visibility::Public || self.function.kind != FunctionKind::Function {
            assert(diag_views(start) + Seq::<DiagV>::empty() =~= diag_views(start));
            return;
        }
        let function = self.function;
        let mut i: usize = 0;
        while i < function.params.len()
            invariant
                0 <= i <= function.params@.len(),
                function == before.function,
                same_but_diagnostics(before, *self),
                diag_views(self.diagnostics@) == diag_views(start) + params_report(before.bindings@, function.params@, i as int),
            decreases function.params.len() - i,
        {
            let ghost pre = self.diagnostics@;
            self.check_private_parameter_inference(&function.params[i]);
            proof {
                let p = function.params@[i as int];
                if annotation_omitted(p) && contains_unknown(last_binding_type(before.bindings@, p.name@)) {
                    assert(self.diagnostics@ =~= pre.push(self.diagnostics@.last()));
                    assert(diag_view(self.diagnostics@.last()) == param_report_view(before.bindings@, p));
                    assert(diag_views(self.diagnostics@) =~= diag_views(pre).push(param_report_view(before.bindings@, p)));
                }
                assert(diag_views(self.diagnostics@) =~= diag_views(start) + params_report(before.bindings@, function.params@, i + 1));
            }
            i += 1;
        }
        if function.return_type.is_some() {
            assert(diag_views(self.diagnostics@) =~= diag_views(start) + private_inference_report(before));
            return;
        }
        let ghost pre = self.diagnostics@;
        self.check_private_return_inference();
        proof {
            let inferred = match before.inferred_return_type { Some(t) => t@, None => TypeV::Unknown };
            if contains_unknown(inferred) {
                assert(self.diagnostics@ =~= pre.push(self.diagnostics@.last()));
                assert(diag_view(self.diagnostics@.last()) == return_report_view(before));
                assert(diag_views(self.diagnostics@) =~= diag_views(pre).push(return_report_view(before)));
            }
            assert(diag_views(self.diagnostics@) =~= diag_views(start) + private_inference_report(before));
        }
    }

    /// For each local binding whose annotation was omitted: once the later body has fixed
    /// its type, a deferred ambiguity diagnostic of its initializer is suppressed;
    /// otherwise, unless such a deferred diagnostic stands for it, the binding is reported.
    pub fn check_omitted_local_inference_complete(&mut self)
        ensures
            final(self).function == old(self).function,
            final(self).environment == old(self).environment,
            final(self).bindings == old(self).bindings,
            final(self).omitted_local_bindings == old(self).omitted_local_bindings,
            final(self).local_names == old(self).local_names,
            final(self).diagnostics@.len() >= old(self).diagnostics@.len(),
            final(self).diagnostics@.take(old(self).diagnostics@.len() as int) == old(self).diagnostics@,
            forall|k: int| old(self).diagnostics@.len() <= k < final(self).diagnostics@.len()
                ==> (#[trigger] final(self).diagnostics@[k]).id@ == "type.local_inference_incomplete"@,
            ({
                let names = incomplete_locals(old(self).bindings@, old(self).omitted_local_bindings@);
                &&& final(self).diagnostics@.len() == old(self).diagnostics@.len() + names.len()
                &&& forall|k: int| 0 <= k < names.len() ==> (#[trigger] final(self).diagnostics@[old(self).diagnostics@.len() + k]).message@
                    == "omitted local binding `"@ + names[k] + "` has no concrete inferred type"@
            }),
            forall|j: int| 0 <= j < old(self).omitted_local_bindings@.len()
                && !contains_unknown(last_binding_type(old(self).bindings@, (#[trigger] old(self).omitted_local_bindings@[j]).name@))
                && old(self).omitted_local_bindings@[j].deferred_initializer_diagnostic is Some
                ==> final(self).suppressed_diagnostic_indices@.contains(old(self).omitted_local_bindings@[j].deferred_initializer_diagnostic->0),
            forall|x: usize| old(self).suppressed_diagnostic_indices@.contains(x) ==> final(self).suppressed_diagnostic_indices@.contains(x),
    {
        let ghost start = self.diagnostics@;
        let ghost before = *self;
        assert(start.take(start.len() as int) =~= start);
        let mut i: usize = 0;
        while i < self.omitted_local_bindings.len()
            invariant
                0 <= i <= self.omitted_local_bindings@.len(),
                self.function == before.function,
                self.environment == before.environment,
                self.bindings == before.bindings,
                self.omitted_local_bindings == before.omitted_local_bindings,
                self.local_names == before.local_names,
                self.diagnostics@.len() >= start.len(),
                self.diagnostics@.take(start.len() as int) == start,
                forall|k: int| start.len() <= k < self.diagnostics@.len() ==> (#[trigger] self.diagnostics@[k]).id@ == "type.local_inference_incomplete"@,
                self.diagnostics@.len() == start.len() + incomplete_locals(before.bindings@, before.omitted_local_bindings@.take(i as int)).len(),
                forall|k: int| 0 <= k < incomplete_locals(before.bindings@, before.omitted_local_bindings@.take(i as int)).len()
                    ==> (#[trigger] self.diagnostics@[start.len() + k]).message@ == "omitted local binding `"@
                        + incomplete_locals(before.bindings@, before.omitted_local_bindings@.take(i as int))[k] + "` has no concrete inferred type"@,
                forall|j: int| 0 <= j < i
                    && !contains_unknown(last_binding_type(before.bindings@, (#[trigger] before.omitted_local_bindings@[j]).name@))
                    && before.omitted_local_bindings@[j].deferred_initializer_diagnostic is Some
                    ==> self.suppressed_diagnostic_indices@.contains(before.omitted_local_bindings@[j].deferred_initializer_diagnostic->0),
                forall|x: usize| before.suppressed_diagnostic_indices@.contains(x) ==> self.suppressed_diagnostic_indices@.contains(x),
            decreases self.omitted_local_bindings.len() - i,
        {
            let ghost names_before = incomplete_locals(before.bindings@, before.omitted_local_bindings@.take(i as int));
            let ghost diags_before = self.diagnostics@;
            proof {
                let t = before.omitted_local_bindings@.take(i + 1);
                assert(t.drop_last() =~= before.omitted_local_bindings@.take(i as int));
                assert(t.last() == before.omitted_local_bindings@[i as int]);
            }
            let inferred = self.binding_type(self.omitted_local_bindings[i].name.as_str());
            if !type_contains_unknown(&inferred) {
                match self.omitted_local_bindings[i].deferred_initializer_diagnostic {
                    Some(index) => {
                        if !contains_index(&self.suppressed_diagnostic_indices, index) {
                            let ghost pre_s = self.suppressed_diagnostic_indices@;
                            self.suppressed_diagnostic_indices.push(index);
                            assert(self.suppressed_diagnostic_indices@[pre_s.len() as int] == index);
                            assert forall|x: usize| pre_s.contains(x) implies self.suppressed_diagnostic_indices@.contains(x) by {
                                let w = choose|w: int| 0 <= w < pre_s.len() && pre_s[w] == x;
                                assert(self.suppressed_diagnostic_indices@[w] == x);
                            }
                        }
                        assert(self.suppressed_diagnostic_indices@.contains(index));
                    },
                    None => {},
                }
            } else if self.omitted_local_bindings[i].deferred_initializer_diagnostic.is_none() {
                let omitted = &self.omitted_local_bindings[i];
                let mut message = string_of("omitted local binding `");
                message.append(omitted.name.as_str());
                message.append("` has no concrete inferred type");
                let mut b = ObjectBuilder::new();
                b.push_str("phase", "type_check");
                b.push_string("node_id", omitted.node_id.display("pattern"));
                b.push_str("slot_kind", "local_binding");
                b.push_str("binding", omitted.name.as_str());
                b.push_string("inferred_type", render_type(&inferred));
                let details = b.finish();
                let mut d = Diagnostic::new("type.local_inference_incomplete", Severity::Error, DiagnosticKind::Type, message, Some(omitted.span.copy()), details);
                d.related.push(note("repair_hint", string_of("Add a type annotation or a later same-function use that fixes the type."), &omitted.span));
                let ghost pre = self.diagnostics@;
                self.diagnostics.push(d);
                proof {
                    assert(self.diagnostics@.take(start.len() as int) =~= start) by {
                        assert(pre.take(start.len() as int) == start);
                    }
                    let names = incomplete_locals(before.bindings@, before.omitted_local_bindings@.take(i + 1));
                    assert(names == names_before.push(omitted.name@));
                    assert forall|k: int| 0 <= k < names.len() implies (#[trigger] self.diagnostics@[start.len() + k]).message@
                        == "omitted local binding `"@ + names[k] + "` has no concrete inferred type"@ by {
                        if k < names_before.len() {
                            assert(self.diagnostics@[start.len() + k] == diags_before[start.len() + k]);
                        }
                    }
                }
            }
            i += 1;
        }
        proof { assert(before.omitted_local_bindings@.take(before.omitted_local_bindings@.len() as int) =~= before.omitted_local_bindings@); }
    }

    /// When the initializer just checked produced exactly one diagnostic, and that is a
    /// constructor-type ambiguity at the initializer itself while its type is still
    /// incomplete, its position: the diagnostic may be withdrawn if later uses fix the type.
    pub fn deferred_ambiguous_initializer_diagnostic(&self, start_index: usize, expr: &Expr, actual: &Type) -> (r: Option<usize>)
        ensures
            r matches Some(i) ==> i == start_index,
            r is Some <==> (contains_unknown(actual@) && self.diagnostics@.len() == start_index + 1
                && self.diagnostics@[start_index as int].id@ == "type.inference_ambiguous"@
                && opt_span_view(self.diagnostics@[start_index as int].span) == Some(expr.span@)
                && spec_json_string_field_is(self.diagnostics@[start_index as int].details@, "slot_kind"@, "constructor_type"@)),
    {
        if !type_contains_unknown(actual) || start_index >= self.diagnostics.len() || self.diagnostics.len() - 1 != start_index {
            return None;
        }
        let d = &self.diagnostics[start_index];
        let same_span = match &d.span {
            Some(s) => s.same(&expr.span),
            None => false,
        };
        if crate::text::str_eq(d.id.as_str(), "type.inference_ambiguous") && same_span
            && json_string_field_is(&d.details, "slot_kind", "constructor_type") {
            Some(start_index)
        } else {
            None
        }
    }

    /// Brings a `let` pattern binding into scope. An invalid name becomes a recovery;
    /// a duplicate is reported. A binding whose annotation was omitted and whose type is
    /// still incomplete is remembered, unless its pattern or initializer already produced
    /// a diagnostic that is not a deferred one.
    pub fn bind_let_pattern(&mut self, binding: PatternBinding, annotation_is_omitted: bool, initializer_has_diagnostic: bool,
        deferred_initializer_diagnostic: Option<usize>, pattern_has_diagnostic: bool)
        ensures
            crate::checker::statement_frame(*old(self), *final(self)),
            final(self).inferred_return_type == old(self).inferred_return_type,
            final(self).function == old(self).function,
            final(self).environment == old(self).environment,
            !starts_lower(binding.name@) ==> final(self).invalid_binding_recoveries@.len() == old(self).invalid_binding_recoveries@.len() + 1
                && final(self).bindings == old(self).bindings
                && final(self).omitted_local_bindings == old(self).omitted_local_bindings
                && final(self).diagnostics == old(self).diagnostics,
            starts_lower(binding.name@) && old(self).declared_names().contains(binding.name@) ==> final(self).bindings == old(self).bindings
                && final(self).omitted_local_bindings == old(self).omitted_local_bindings,
            starts_lower(binding.name@) && !old(self).declared_names().contains(binding.name@) ==> final(self).bindings@.len() == old(self).bindings@.len() + 1
                && final(self).bindings@.last().name@ == binding.name@ && final(self).bindings@.last().ty@ == binding.ty@
                && final(self).diagnostics == old(self).diagnostics
                && if annotation_is_omitted && (!initializer_has_diagnostic || deferred_initializer_diagnostic is Some)
                    && !pattern_has_diagnostic && contains_unknown(binding.ty@) {
                    final(self).omitted_local_bindings@.len() == old(self).omitted_local_bindings@.len() + 1
                        && final(self).omitted_local_bindings@.last().name@ == binding.name@
                        && final(self).omitted_local_bindings@.last().node_id == binding.node_id
                        && final(self).omitted_local_bindings@.last().deferred_initializer_diagnostic == deferred_initializer_diagnostic
                } else {
                    final(self).omitted_local_bindings == old(self).omitted_local_bindings
                },
    {
        let ghost start = *self;
        if !valid_value_binding_name(binding.name.as_str()) {
            self.push_invalid_binding_recovery(binding);
            proof { crate::checker::lemma_statement_frame_refl(start); }
            return;
        }
        let declared = self.declare_local_name(binding.name.as_str(), binding.node_id.display("pattern"), binding.span.copy(), "local binding");
        if !declared {
            assert(self.diagnostics@.take(start.diagnostics@.len() as int) =~= start.diagnostics@);
            return;
        }
        self.bindings.push(Binding { name: binding.name.clone(), ty: binding.ty.copy() });
        assert(self.diagnostics@.take(start.diagnostics@.len() as int) =~= start.diagnostics@);
        if annotation_is_omitted && (!initializer_has_diagnostic || deferred_initializer_diagnostic.is_some())
            && !pattern_has_diagnostic && type_contains_unknown(&binding.ty) {
            self.omitted_local_bindings.push(OmittedLocalBinding {
                name: binding.name,
                node_id: binding.node_id,
                span: binding.span,
                deferred_initializer_diagnostic,
            });
        }
    }
}

/// The report for a private parameter whose omitted annotation inference did not fix.
pub open spec fn param_report_view(bindings: Seq<Binding>, p: Param) -> DiagV {
    DiagV {
        id: "type.private_inference_incomplete"@,
        severity: Severity::Error,
        kind: DiagnosticKind::Type,
        message: "private parameter `"@ + p.name@ + "` has no inferred type"@,
        span: Some(p.span@),
        details: private_param_details_view(node_display(p.node_id.index, "param"@), p.name@, render(last_binding_type(bindings, p.name@))),
        related: seq![note_view("repair_hint"@, "Add a parameter type annotation."@, p.span@)],
    }
}

/// The reports for the first `n` parameters, in order: one for each whose annotation
/// is omitted and whose type in scope is still incomplete.
pub open spec fn params_report(bindings: Seq<Binding>, ps: Seq<Param>, n: int) -> Seq<DiagV>
    decreases n,
{
    if n <= 0 {
        Seq::empty()
    } else {
        let before = params_report(bindings, ps, n - 1);
        let p = ps[n - 1];
        if annotation_omitted(p) && contains_unknown(last_binding_type(bindings, p.name@)) {
            before.push(param_report_view(bindings, p))
        } else {
            before
        }
    }
}

/// The report for a private function whose inferred result type is incomplete.
pub open spec fn return_report_view(c: FunctionChecker) -> DiagV {
    let inferred = match c.inferred_return_type { Some(t) => t@, None => TypeV::Unknown };
    DiagV {
        id: "type.private_inference_incomplete"@,
        severity: Severity::Error,
        kind: DiagnosticKind::Type,
        message: "private function has no inferred return type"@,
        span: Some(c.function.span@),
        details: private_return_details_view(node_display(c.function.node_id.index, "fn"@), render(inferred)),
        related: seq![note_view("repair_hint"@, "Add a return type annotation."@, c.function.span@)],
    }
}

/// What the private inference check reports: nothing for a public function or a test;
/// else the parameter reports, then, when the result annotation is omitted and the
/// inferred result type is incomplete, the result report.
pub open spec fn private_inference_report(c: FunctionChecker) -> Seq<DiagV> {
    if c.function.visibility == Visibility::Public || c.function.kind != FunctionKind::Function {
        Seq::empty()
    } else {
        let inferred = match c.inferred_return_type { Some(t) => t@, None => TypeV::Unknown };
        params_report(c.bindings@, c.function.params@, c.function.params@.len() as int)
            + if c.function.return_type is None && contains_unknown(inferred) { seq![return_report_view(c)] } else { Seq::<DiagV>::empty() }
    }
}

} // verus!
