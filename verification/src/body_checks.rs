use vstd::prelude::*;

use crate::ast::{Function, FunctionKind, Param, Pattern, PatternKind, RecordPatternField, Visibility};
use crate::body_diagnostics::{note, note_view, sfield};
use crate::checker::{FunctionChecker, OmittedLocalBinding, same_but_diagnostics};
use crate::diag::{Diagnostic, DiagnosticKind, NodeId, Severity, SourceSpan, SpanV, jsons, node_display, span_json, span_json_view};
use crate::json::{JsonV, ObjectBuilder};
use crate::render::{render, render_type};
use crate::semantic::{Binding, diag_is, pushed_one};
use crate::text::{str_eq, string_of};
use crate::types::{Type, TypeV, contains_unknown, type_contains_unknown};

verus! {

/// The type last bound to `name`, or unknown when it is not bound.
pub open spec fn last_binding_type(bs: Seq<Binding>, name: Seq<char>) -> TypeV
    decreases bs.len(),
{
    if bs.len() == 0 {
        TypeV::Unknown
    } else if bs.last().name@ == name {
        bs.last().ty@
    } else {
        last_binding_type(bs.drop_last(), name)
    }
}

/// The details of a duplicate result-binding diagnostic.
pub open spec fn result_binding_details_view(node_id: Seq<char>, name: Seq<char>, first_node_id: Seq<char>) -> JsonV {
    JsonV::Object(seq![
        sfield("phase"@, "name"@),
        sfield("node_id"@, node_id),
        sfield("name"@, name),
        sfield("namespace"@, "value"@),
        sfield("first_node_id"@, first_node_id),
    ])
}

/// The details of a refutable-let diagnostic.
pub open spec fn refutable_details_view(node_id: Seq<char>) -> JsonV {
    JsonV::Object(seq![sfield("phase"@, "type_check"@), sfield("node_id"@, node_id)])
}

/// The note attached to a refutable-let diagnostic.
pub open spec fn refutable_note_view(span: SpanV) -> JsonV {
    note_view("let_pattern"@, "Use a binding, wildcard, record pattern, or constructor pattern in a let statement."@, span)
}

/// The literal sub-patterns of a `let` pattern, in source order: the node id and span
/// of each refutable part.
pub open spec fn refutable_parts(p: Pattern) -> Seq<(u64, SpanV)>
    decreases p, 0nat,
{
    match p.kind {
        PatternKind::Wildcard | PatternKind::Binding(_) => Seq::empty(),
        PatternKind::Record(fields) => {
            proof {
                assert(decreases_to!(fields => fields@));
            }
            field_parts(fields@, fields@.len())
        },
        PatternKind::Constructor { args, .. } => {
            proof {
                assert(decreases_to!(args => args@));
            }
            arg_parts(args@, args@.len())
        },
        _ => seq![(p.node_id.index, p.span@)],
    }
}

/// The refutable parts of the first `n` record pattern fields.
pub open spec fn field_parts(fs: Seq<RecordPatternField>, n: nat) -> Seq<(u64, SpanV)>
    decreases fs, n,
{
    if n == 0 || n > fs.len() {
        Seq::empty()
    } else {
        proof {
            assert(decreases_to!(fs => fs[n - 1]));
            assert(decreases_to!(fs[n - 1] => fs[n - 1].pattern));
        }
        field_parts(fs, (n - 1) as nat) + refutable_parts(fs[n - 1].pattern)
    }
}

/// The refutable parts of the first `n` constructor argument patterns.
pub open spec fn arg_parts(args: Seq<Pattern>, n: nat) -> Seq<(u64, SpanV)>
    decreases args, n,
{
    if n == 0 || n > args.len() {
        Seq::empty()
    } else {
        proof {
            assert(decreases_to!(args => args[n - 1]));
        }
        arg_parts(args, (n - 1) as nat) + refutable_parts(args[n - 1])
    }
}

/// `new` extends `old` by one refutable-let diagnostic per part, in order.
pub open spec fn reports_refutable(old: Seq<Diagnostic>, new: Seq<Diagnostic>, parts: Seq<(u64, SpanV)>) -> bool {
    &&& new.len() == old.len() + parts.len()
    &&& new.take(old.len() as int) == old
    &&& forall|i: int| 0 <= i < parts.len() ==> diag_is(#[trigger] new[old.len() + i], "pattern.refutable_let"@, DiagnosticKind::Type,
        "refutable let pattern is not supported"@, Some(parts[i].1), refutable_details_view(node_display(parts[i].0, "pattern"@)),
        seq![refutable_note_view(parts[i].1)])
}

/// The details of a private-parameter inference diagnostic.
pub open spec fn private_param_details_view(node_id: Seq<char>, name: Seq<char>, inferred: Seq<char>) -> JsonV {
    JsonV::Object(seq![
        sfield("phase"@, "type_check"@),
        sfield("node_id"@, node_id),
        sfield("boundary"@, "private_function"@),
        sfield("slot_kind"@, "private_parameter"@),
        sfield("parameter"@, name),
        sfield("missing_fact"@, "parameter_type"@),
        sfield("inferred_type"@, inferred),
    ])
}

/// The details of a private-return inference diagnostic.
pub open spec fn private_return_details_view(node_id: Seq<char>, inferred: Seq<char>) -> JsonV {
    JsonV::Object(seq![
        sfield("phase"@, "type_check"@),
        sfield("node_id"@, node_id),
        sfield("boundary"@, "private_function"@),
        sfield("slot_kind"@, "private_return"@),
        sfield("missing_fact"@, "return_type"@),
        sfield("inferred_type"@, inferred),
    ])
}

/// The details of an omitted-local inference diagnostic.
pub open spec fn omitted_local_details_view(node_id: Seq<char>, name: Seq<char>, inferred: Seq<char>) -> JsonV {
    JsonV::Object(seq![
        sfield("phase"@, "type_check"@),
        sfield("node_id"@, node_id),
        sfield("slot_kind"@, "local_binding"@),
        sfield("binding"@, name),
        sfield("inferred_type"@, inferred),
    ])
}

/// Whether a parameter's annotation is omitted: absent, or empty on a variadic parameter.
pub open spec fn annotation_omitted(p: Param) -> bool {
    match p.ty {
        None => true,
        Some(a) => p.is_variadic && a.text@.len() == 0,
    }
}

/// Tells whether a parameter's annotation is omitted.
pub fn parameter_annotation_is_omitted(param: &Param) -> (r: bool)
    ensures
        r == annotation_omitted(*param),
{
    match &param.ty {
        None => true,
        Some(a) => param.is_variadic && a.text.unicode_len() == 0,
    }
}

/// The position of the first parameter named `name`.
pub fn first_param_named(params: &Vec<Param>, name: &str) -> (r: Option<usize>)
    ensures
        match r {
            Some(i) => i < params@.len() && params@[i as int].name@ == name@
                && forall|j: int| 0 <= j < i ==> (#[trigger] params@[j]).name@ != name@,
            None => forall|j: int| 0 <= j < params@.len() ==> (#[trigger] params@[j]).name@ != name@,
        },
{
    let mut i: usize = 0;
    while i < params.len()
        invariant
            0 <= i <= params@.len(),
            forall|j: int| 0 <= j < i ==> (#[trigger] params@[j]).name@ != name@,
        decreases params.len() - i,
    {
        if str_eq(params[i].name.as_str(), name) {
            return Some(i);
        }
        i += 1;
    }
    None
}

impl<'a> FunctionChecker<'a> {
    /// The type last bound to `name` in scope, or unknown.
    pub fn binding_type(&self, name: &str) -> (r: Type)
        ensures
            r@ == last_binding_type(self.bindings@, name@),
    {
        let bs = &self.bindings;
        let mut i = bs.len();
        assert(bs@.take(bs@.len() as int) =~= bs@);
        while i > 0
            invariant
                i <= bs@.len(),
                last_binding_type(bs@, name@) == last_binding_type(bs@.take(i as int), name@),
            decreases i,
        {
            proof {
                assert(bs@.take(i as int).drop_last() =~= bs@.take(i - 1));
            }
            if str_eq(bs[i - 1].name.as_str(), name) {
                return bs[i - 1].ty.copy();
            }
            i -= 1;
        }
        Type::Unknown
    }

    /// Reports a result binding that reuses a parameter's name.
    pub fn check_result_binding_name(&mut self)
        ensures
            same_but_diagnostics(*old(self), *final(self)),
            match old(self).function.return_binding {
                Some(rb) => if exists|k: int| 0 <= k < old(self).function.params@.len() && (#[trigger] old(self).function.params@[k]).name@ == rb.name@ {
                    let k = choose|k: int| 0 <= k < old(self).function.params@.len() && (#[trigger] old(self).function.params@[k]).name@ == rb.name@
                        && forall|j: int| 0 <= j < k ==> (#[trigger] old(self).function.params@[j]).name@ != rb.name@;
                    let p = old(self).function.params@[k];
                    pushed_one(old(self).diagnostics@, final(self).diagnostics@) && diag_is(final(self).diagnostics@.last(), "name.duplicate"@,
                        DiagnosticKind::Name, "duplicate result binding name `"@ + rb.name@ + "`"@, Some(rb.span@),
                        result_binding_details_view(node_display(rb.node_id.index, "result"@), rb.name@, node_display(p.node_id.index, "param"@)),
                        seq![note_view("duplicate_origin"@, "Parameter with this name is here."@, p.span@)])
                } else {
                    final(self).diagnostics == old(self).diagnostics
                },
                None => final(self).diagnostics == old(self).diagnostics,
            },
    {
        let function = self.function;
        let rb = match &function.return_binding {
            Some(rb) => rb,
            None => return,
        };
        let params = &function.params;
        let found = first_param_named(params, rb.name.as_str());
        let i = match found {
            Some(i) => i,
            None => return,
        };
        let param = &params[i];
        proof {
            let k = choose|k: int| 0 <= k < params@.len() && (#[trigger] params@[k]).name@ == rb.name@
                && forall|j: int| 0 <= j < k ==> (#[trigger] params@[j]).name@ != rb.name@;
            if k < i { assert(params@[k].name@ != rb.name@); }
            if i < k { assert(params@[i as int].name@ != rb.name@); }
        }
        let mut message = string_of("duplicate result binding name `");
        message.append(rb.name.as_str());
        message.append("`");
        let mut b = ObjectBuilder::new();
        b.push_str("phase", "name");
        b.push_string("node_id", rb.node_id.display("result"));
        b.push_str("name", rb.name.as_str());
        b.push_str("namespace", "value");
        b.push_string("first_node_id", param.node_id.display("param"));
        let details = b.finish();
        assert(details@->Object_0 =~= result_binding_details_view(node_display(rb.node_id.index, "result"@), rb.name@, node_display(param.node_id.index, "param"@))->Object_0);
        let mut d = Diagnostic::new("name.duplicate", Severity::Error, DiagnosticKind::Name, message, Some(rb.span.copy()), details);
        d.related.push(note("duplicate_origin", string_of("Parameter with this name is here."), &param.span));
        assert(jsons(d.related@) =~= seq![note_view("duplicate_origin"@, "Parameter with this name is here."@, param.span@)]);
        self.push_diagnostic(d);
    }

    /// Reports each literal sub-pattern of a `let` pattern: `let` needs an irrefutable pattern.
    pub fn check_let_pattern_supported(&mut self, pattern: &Pattern)
        ensures
            same_but_diagnostics(*old(self), *final(self)),
            reports_refutable(old(self).diagnostics@, final(self).diagnostics@, refutable_parts(*pattern)),
        decreases pattern,
    {
        let ghost start = self.diagnostics@;
        match &pattern.kind {
            PatternKind::Wildcard | PatternKind::Binding(_) => {
                assert(self.diagnostics@.take(start.len() as int) =~= start);
            },
            PatternKind::Record(fields) => {
                let mut i: usize = 0;
                assert(self.diagnostics@.take(start.len() as int) =~= start);
                while i < fields.len()
                    invariant
                        0 <= i <= fields@.len(),
                        same_but_diagnostics(*old(self), *self),
                        reports_refutable(start, self.diagnostics@, field_parts(fields@, i as nat)),
                    decreases fields.len() - i,
                {
                    assert(decreases_to!(*pattern => fields@[i as int].pattern));
                    let ghost before = self.diagnostics@;
                    self.check_let_pattern_supported(&fields[i].pattern);
                    proof {
                        assert(field_parts(fields@, (i + 1) as nat) == field_parts(fields@, i as nat) + refutable_parts(fields@[i as int].pattern));
                        lemma_reports_append(start, before, self.diagnostics@, field_parts(fields@, i as nat), refutable_parts(fields@[i as int].pattern));
                    }
                    i += 1;
                }
            },
            PatternKind::Constructor { args, .. } => {
                let mut i: usize = 0;
                assert(self.diagnostics@.take(start.len() as int) =~= start);
                while i < args.len()
                    invariant
                        0 <= i <= args@.len(),
                        same_but_diagnostics(*old(self), *self),
                        reports_refutable(start, self.diagnostics@, arg_parts(args@, i as nat)),
                    decreases args.len() - i,
                {
                    assert(decreases_to!(*pattern => args@[i as int]));
                    let ghost before = self.diagnostics@;
                    self.check_let_pattern_supported(&args[i]);
                    proof {
                        assert(arg_parts(args@, (i + 1) as nat) == arg_parts(args@, i as nat) + refutable_parts(args@[i as int]));
                        lemma_reports_append(start, before, self.diagnostics@, arg_parts(args@, i as nat), refutable_parts(args@[i as int]));
                    }
                    i += 1;
                }
            },
            _ => {
                let mut b = ObjectBuilder::new();
                b.push_str("phase", "type_check");
                b.push_string("node_id", pattern.node_id.display("pattern"));
                let details = b.finish();
                assert(details@->Object_0 =~= refutable_details_view(node_display(pattern.node_id.index, "pattern"@))->Object_0);
                let mut d = Diagnostic::new("pattern.refutable_let", Severity::Error, DiagnosticKind::Type,
                    string_of("refutable let pattern is not supported"), Some(pattern.span.copy()), details);
                d.related.push(note("let_pattern", string_of("Use a binding, wildcard, record pattern, or constructor pattern in a let statement."), &pattern.span));
                assert(jsons(d.related@) =~= seq![refutable_note_view(pattern.span@)]);
                self.push_diagnostic(d);
                assert(refutable_parts(*pattern) == seq![(pattern.node_id.index, pattern.span@)]);
            },
        }
    }

    /// Reports a private parameter whose omitted annotation was not fixed by inference.
    pub fn check_private_parameter_inference(&mut self, param: &Param)
        ensures
            same_but_diagnostics(*old(self), *final(self)),
            !annotation_omitted(*param) || !contains_unknown(last_binding_type(old(self).bindings@, param.name@))
                ==> final(self).diagnostics == old(self).diagnostics,
            annotation_omitted(*param) && contains_unknown(last_binding_type(old(self).bindings@, param.name@))
                ==> pushed_one(old(self).diagnostics@, final(self).diagnostics@)
                && diag_is(final(self).diagnostics@.last(), "type.private_inference_incomplete"@, DiagnosticKind::Type,
                    "private parameter `"@ + param.name@ + "` has no inferred type"@, Some(param.span@),
                    private_param_details_view(node_display(param.node_id.index, "param"@), param.name@, render(last_binding_type(old(self).bindings@, param.name@))),
                    seq![note_view("repair_hint"@, "Add a parameter type annotation."@, param.span@)]),
    {
        if !parameter_annotation_is_omitted(param) {
            return;
        }
        let inferred = self.binding_type(param.name.as_str());
        if !type_contains_unknown(&inferred) {
            return;
        }
        let mut message = string_of("private parameter `");
        message.append(param.name.as_str());
        message.append("` has no inferred type");
        let mut b = ObjectBuilder::new();
        b.push_str("phase", "type_check");
        b.push_string("node_id", param.node_id.display("param"));
        b.push_str("boundary", "private_function");
        b.push_str("slot_kind", "private_parameter");
        b.push_str("parameter", param.name.as_str());
        b.push_str("missing_fact", "parameter_type");
        b.push_string("inferred_type", render_type(&inferred));
        let details = b.finish();
        assert(details@->Object_0 =~= private_param_details_view(node_display(param.node_id.index, "param"@), param.name@, render(inferred@))->Object_0);
        let mut d = Diagnostic::new("type.private_inference_incomplete", Severity::Error, DiagnosticKind::Type, message, Some(param.span.copy()), details);
        d.related.push(note("repair_hint", string_of("Add a parameter type annotation."), &param.span));
        assert(jsons(d.related@) =~= seq![note_view("repair_hint"@, "Add a parameter type annotation."@, param.span@)]);
        self.push_diagnostic(d);
    }

    /// Reports a private function whose result type was not fixed by inference.
    pub fn check_private_return_inference(&mut self)
        ensures
            same_but_diagnostics(*old(self), *final(self)),
            ({
                let inferred = match old(self).inferred_return_type { Some(t) => t@, None => TypeV::Unknown };
                &&& !contains_unknown(inferred) ==> final(self).diagnostics == old(self).diagnostics
                &&& contains_unknown(inferred) ==> pushed_one(old(self).diagnostics@, final(self).diagnostics@)
                    && diag_is(final(self).diagnostics@.last(), "type.private_inference_incomplete"@, DiagnosticKind::Type,
                        "private function has no inferred return type"@, Some(old(self).function.span@),
                        private_return_details_view(node_display(old(self).function.node_id.index, "fn"@), render(inferred)),
                        seq![note_view("repair_hint"@, "Add a return type annotation."@, old(self).function.span@)])
            }),
    {
        let inferred = match &self.inferred_return_type {
            Some(t) => t.copy(),
            None => Type::Unknown,
        };
        if !type_contains_unknown(&inferred) {
            return;
        }
        let function = self.function;
        let mut b = ObjectBuilder::new();
        b.push_str("phase", "type_check");
        b.push_string("node_id", function.node_id.display("fn"));
        b.push_str("boundary", "private_function");
        b.push_str("slot_kind", "private_return");
        b.push_str("missing_fact", "return_type");
        b.push_string("inferred_type", render_type(&inferred));
        let details = b.finish();
        assert(details@->Object_0 =~= private_return_details_view(node_display(function.node_id.index, "fn"@), render(inferred@))->Object_0);
        let mut d = Diagnostic::new("type.private_inference_incomplete", Severity::Error, DiagnosticKind::Type,
            string_of("private function has no inferred return type"), Some(function.span.copy()), details);
        d.related.push(note("repair_hint", string_of("Add a return type annotation."), &function.span));
        assert(jsons(d.related@) =~= seq![note_view("repair_hint"@, "Add a return type annotation."@, function.span@)]);
        self.push_diagnostic(d);
    }
}

proof fn lemma_reports_append(start: Seq<Diagnostic>, before: Seq<Diagnostic>, after: Seq<Diagnostic>, a: Seq<(u64, SpanV)>, b: Seq<(u64, SpanV)>)
    requires
        reports_refutable(start, before, a),
        reports_refutable(before, after, b),
    ensures
        reports_refutable(start, after, a + b),
{
    assert(after.take(before.len() as int) == before);
    assert(after.take(start.len() as int) =~= start) by {
        assert(before.take(start.len() as int) == start);
    }
    assert forall|k: int| 0 <= k < (a + b).len() implies diag_is(#[trigger] after[start.len() + k], "pattern.refutable_let"@, DiagnosticKind::Type,
        "refutable let pattern is not supported"@, Some((a + b)[k].1), refutable_details_view(node_display((a + b)[k].0, "pattern"@)),
        seq![refutable_note_view((a + b)[k].1)]) by {
        if k < a.len() {
            assert(after[start.len() + k] == before[start.len() + k]);
        } else {
            assert(after[start.len() + k] == after[before.len() + (k - a.len())]);
        }
    }
}

} // verus!
