use vstd::prelude::*;

use crate::ast::{Function, FunctionKind, Visibility};
use crate::diag::{Diagnostic, DiagnosticKind, NodeId, Severity, SourceSpan, SpanV, jsons, node_display, opt_span_view, span_json, span_json_view};
use crate::env::TypeEnvironment;
use crate::json::{JsonV, ObjectBuilder};
use crate::names::{invalid_value_binding_name, starts_lower};
use crate::semantic::{Binding, EffectUse, ExpectedType, diag_is, pushed_one, str_array, type_details, type_details_view, type_source_name};
use crate::render::{render, render_type};
use crate::relations::{assignable, is_assignable};
use crate::json::{ArrayBuilder, json_string};
use crate::text::{str_eq, string_of};
use crate::types::{Type, TypeV};

verus! {

/// A binding whose name is not a valid value name; kept so later lookups can explain it.
pub struct InvalidBindingRecovery {
    pub name: String,
    pub ty: Type,
}

/// A local binding whose annotation was omitted and whose type must be fixed by later uses.
pub struct OmittedLocalBinding {
    pub name: String,
    pub node_id: NodeId,
    pub span: SourceSpan,
    pub deferred_initializer_diagnostic: Option<usize>,
}

/// A name declared in the function's value namespace, with the declaring node and span.
pub struct LocalName {
    pub name: String,
    pub node_id: String,
    pub span: SourceSpan,
}

/// A binding introduced by a pattern.
pub struct PatternBinding {
    pub name: String,
    pub ty: Type,
    pub node_id: NodeId,
    pub span: SourceSpan,
}

/// Checks one function body: bindings in scope, declared local names, inferred effects
/// and the diagnostics found so far.
pub struct FunctionChecker<'a> {
    pub function: &'a Function,
    pub environment: &'a TypeEnvironment,
    pub bindings: Vec<Binding>,
    pub invalid_binding_recoveries: Vec<InvalidBindingRecovery>,
    pub omitted_local_bindings: Vec<OmittedLocalBinding>,
    pub local_names: Vec<LocalName>,
    pub inferred_effects: Vec<EffectUse>,
    pub inferred_return_type: Option<Type>,
    pub diagnostics: Vec<Diagnostic>,
    pub suppressed_diagnostic_indices: Vec<usize>,
}

/// Everything but the diagnostics is the same in `a` and `b`.
pub open spec fn same_but_diagnostics(a: FunctionChecker, b: FunctionChecker) -> bool {
    &&& a.function == b.function
    &&& a.environment == b.environment
    &&& a.bindings == b.bindings
    &&& a.invalid_binding_recoveries == b.invalid_binding_recoveries
    &&& a.omitted_local_bindings == b.omitted_local_bindings
    &&& a.local_names == b.local_names
    &&& a.inferred_effects == b.inferred_effects
    &&& a.inferred_return_type == b.inferred_return_type
    &&& a.suppressed_diagnostic_indices == b.suppressed_diagnostic_indices
}

/// The number of recoveries recorded for `name`, optionally only those of function type.
pub open spec fn recovery_count(rs: Seq<InvalidBindingRecovery>, name: Seq<char>, callables_only: bool) -> nat
    decreases rs.len(),
{
    if rs.len() == 0 {
        0
    } else {
        recovery_count(rs.drop_last(), name, callables_only) + if rs.last().name@ == name && (!callables_only || rs.last().ty@ is Function) {
            1nat
        } else {
            0nat
        }
    }
}

/// The diagnostics left after dropping those whose positions are suppressed.
pub open spec fn kept_diagnostics(ds: Seq<Diagnostic>, suppressed: Seq<usize>) -> Seq<Diagnostic>
    decreases ds.len(),
{
    if ds.len() == 0 {
        ds
    } else if suppressed.contains((ds.len() - 1) as usize) {
        kept_diagnostics(ds.drop_last(), suppressed)
    } else {
        kept_diagnostics(ds.drop_last(), suppressed).push(ds.last())
    }
}

/// The effects used by the body, each once, in first-use order.
pub open spec fn distinct_effects(uses: Seq<EffectUse>) -> Seq<Seq<char>>
    decreases uses.len(),
{
    if uses.len() == 0 {
        Seq::empty()
    } else {
        crate::effect_rows::push_unique(distinct_effects(uses.drop_last()), uses.last().effect@)
    }
}

/// `b` is `a` with bindings, recoveries, declared names and diagnostics only added at
/// the end, and nothing else changed.
pub open spec fn scope_extended(a: FunctionChecker, b: FunctionChecker) -> bool {
    &&& a.function == b.function
    &&& a.environment == b.environment
    &&& a.omitted_local_bindings == b.omitted_local_bindings
    &&& a.inferred_effects == b.inferred_effects
    &&& a.inferred_return_type == b.inferred_return_type
    &&& a.suppressed_diagnostic_indices == b.suppressed_diagnostic_indices
    &&& b.bindings@.len() >= a.bindings@.len()
    &&& b.bindings@.take(a.bindings@.len() as int) == a.bindings@
    &&& b.invalid_binding_recoveries@.len() >= a.invalid_binding_recoveries@.len()
    &&& b.invalid_binding_recoveries@.take(a.invalid_binding_recoveries@.len() as int) == a.invalid_binding_recoveries@
    &&& b.local_names@.len() >= a.local_names@.len()
    &&& b.local_names@.take(a.local_names@.len() as int) == a.local_names@
    &&& b.diagnostics@.len() >= a.diagnostics@.len()
    &&& b.diagnostics@.take(a.diagnostics@.len() as int) == a.diagnostics@
}

pub proof fn lemma_scope_extended_trans(a: FunctionChecker, b: FunctionChecker, c: FunctionChecker)
    requires
        scope_extended(a, b),
        scope_extended(b, c),
    ensures
        scope_extended(a, c),
{
    assert(c.bindings@.take(a.bindings@.len() as int) =~= a.bindings@) by {
        assert(c.bindings@.take(b.bindings@.len() as int) == b.bindings@);
    }
    assert(c.invalid_binding_recoveries@.take(a.invalid_binding_recoveries@.len() as int) =~= a.invalid_binding_recoveries@) by {
        assert(c.invalid_binding_recoveries@.take(b.invalid_binding_recoveries@.len() as int) == b.invalid_binding_recoveries@);
    }
    assert(c.local_names@.take(a.local_names@.len() as int) =~= a.local_names@) by {
        assert(c.local_names@.take(b.local_names@.len() as int) == b.local_names@);
    }
    assert(c.diagnostics@.take(a.diagnostics@.len() as int) =~= a.diagnostics@) by {
        assert(c.diagnostics@.take(b.diagnostics@.len() as int) == b.diagnostics@);
    }
}

pub proof fn lemma_scope_extended_refl(a: FunctionChecker)
    ensures
        scope_extended(a, a),
{
    assert(a.bindings@.take(a.bindings@.len() as int) =~= a.bindings@);
    assert(a.invalid_binding_recoveries@.take(a.invalid_binding_recoveries@.len() as int) =~= a.invalid_binding_recoveries@);
    assert(a.local_names@.take(a.local_names@.len() as int) =~= a.local_names@);
    assert(a.diagnostics@.take(a.diagnostics@.len() as int) =~= a.diagnostics@);
}

/// `b` holds the effect uses of `a` in order, and possibly more after them.
pub open spec fn effects_extended(a: Seq<EffectUse>, b: Seq<EffectUse>) -> bool {
    b.len() >= a.len() && forall|i: int| 0 <= i < a.len() ==> #[trigger] b[i] == a[i]
}

pub proof fn lemma_effects_extended_refl(a: Seq<EffectUse>)
    ensures
        effects_extended(a, a),
{
}

pub proof fn lemma_effects_extended_trans(a: Seq<EffectUse>, b: Seq<EffectUse>, c: Seq<EffectUse>)
    requires
        effects_extended(a, b),
        effects_extended(b, c),
    ensures
        effects_extended(a, c),
{
    assert forall|i: int| 0 <= i < a.len() implies #[trigger] c[i] == a[i] by {
        assert(b[i] == a[i]);
    }
}

/// `b` is `a` after checking a statement: the same function and environment, no effect
/// use or suppression recorded, the bindings in scope keep their names and at most gain
/// more, and diagnostics were only added.
pub open spec fn statement_frame(a: FunctionChecker, b: FunctionChecker) -> bool {
    &&& a.function == b.function
    &&& a.environment == b.environment
    &&& effects_extended(a.inferred_effects@, b.inferred_effects@)
    &&& a.suppressed_diagnostic_indices@ == b.suppressed_diagnostic_indices@
    &&& b.bindings@.len() >= a.bindings@.len()
    &&& forall|i: int| 0 <= i < a.bindings@.len() ==> (#[trigger] b.bindings@[i]).name@ == a.bindings@[i].name@
    &&& b.diagnostics@.len() >= a.diagnostics@.len()
    &&& b.diagnostics@.take(a.diagnostics@.len() as int) == a.diagnostics@
}

pub proof fn lemma_statement_frame_trans(a: FunctionChecker, b: FunctionChecker, c: FunctionChecker)
    requires
        statement_frame(a, b),
        statement_frame(b, c),
    ensures
        statement_frame(a, c),
{
    lemma_effects_extended_trans(a.inferred_effects@, b.inferred_effects@, c.inferred_effects@);
    assert(c.diagnostics@.take(a.diagnostics@.len() as int) =~= a.diagnostics@) by {
        assert(c.diagnostics@.take(b.diagnostics@.len() as int) == b.diagnostics@);
    }
    assert forall|i: int| 0 <= i < a.bindings@.len() implies (#[trigger] c.bindings@[i]).name@ == a.bindings@[i].name@ by {
        assert(b.bindings@[i].name@ == a.bindings@[i].name@);
    }
}

pub proof fn lemma_statement_frame_refl(a: FunctionChecker)
    ensures
        statement_frame(a, a),
{
    lemma_effects_extended_refl(a.inferred_effects@);
    assert(a.diagnostics@.take(a.diagnostics@.len() as int) =~= a.diagnostics@);
}

/// The names of a list of declared local names.
pub open spec fn local_name_seq(names: Seq<LocalName>) -> Seq<Seq<char>> {
    Seq::new(names.len(), |i: int| names[i].name@)
}

/// The model of the related note of a duplicate-name diagnostic.
pub open spec fn duplicate_origin_view(declaration_kind: Seq<char>, first_span: SpanV) -> JsonV {
    JsonV::Object(seq![
        ("kind"@, JsonV::Str("duplicate_origin"@)),
        ("message"@, JsonV::Str("First "@ + declaration_kind + " with this name is here."@)),
        ("span"@, span_json_view(first_span)),
    ])
}

/// The model of the details of a duplicate-name diagnostic.
pub open spec fn duplicate_details_view(name: Seq<char>, namespace: Seq<char>, node_id: Seq<char>, first_node_id: Seq<char>) -> JsonV {
    JsonV::Object(seq![
        ("phase"@, JsonV::Str("name"@)),
        ("node_id"@, JsonV::Str(node_id)),
        ("name"@, JsonV::Str(name)),
        ("namespace"@, JsonV::Str(namespace)),
        ("first_node_id"@, JsonV::Str(first_node_id)),
    ])
}

/// The diagnostic for a second declaration of `name` in `namespace`.
pub fn duplicate_name_diagnostic(
    name: &str,
    namespace: &str,
    declaration_kind: &str,
    node_id: String,
    span: SourceSpan,
    first_node_id: String,
    first_span: &SourceSpan,
) -> (r: Diagnostic)
    ensures
        diag_is(
            r,
            "name.duplicate"@,
            DiagnosticKind::Name,
            "duplicate "@ + declaration_kind@ + " name `"@ + name@ + "`"@,
            Some(span@),
            duplicate_details_view(name@, namespace@, node_id@, first_node_id@),
            seq![duplicate_origin_view(declaration_kind@, first_span@)],
        ),
{
    let mut message = string_of("duplicate ");
    message.append(declaration_kind);
    message.append(" name `");
    message.append(name);
    message.append("`");
    let ghost nid = node_id@;
    let ghost fid = first_node_id@;
    let ghost sp = span@;
    let mut b = ObjectBuilder::new();
    b.push_str("phase", "name");
    b.push_string("node_id", node_id);
    b.push_str("name", name);
    b.push_str("namespace", namespace);
    b.push_string("first_node_id", first_node_id);
    let details = b.finish();
    let mut diagnostic = Diagnostic::new("name.duplicate", Severity::Error, DiagnosticKind::Name, message, Some(span), details);
    let mut note_message = string_of("First ");
    note_message.append(declaration_kind);
    note_message.append(" with this name is here.");
    let mut n = ObjectBuilder::new();
    n.push_str("kind", "duplicate_origin");
    n.push_string("message", note_message);
    n.push("span", span_json(first_span));
    let note = n.finish();
    diagnostic.related.push(note);
    proof {
        assert(diagnostic.details@->Object_0 =~= duplicate_details_view(name@, namespace@, nid, fid)->Object_0);
        assert(note@->Object_0 =~= duplicate_origin_view(declaration_kind@, first_span@)->Object_0);
        assert(jsons(diagnostic.related@) =~= seq![duplicate_origin_view(declaration_kind@, first_span@)]);
    }
    diagnostic
}

impl<'a> FunctionChecker<'a> {
    /// The names declared so far.
    pub open spec fn declared_names(&self) -> Seq<Seq<char>> {
        local_name_seq(self.local_names@)
    }

    /// A checker for `function` with nothing in scope and no diagnostics.
    pub fn new(function: &'a Function, environment: &'a TypeEnvironment) -> (r: FunctionChecker<'a>)
        ensures
            r.function == function,
            r.environment == environment,
            r.bindings@.len() == 0,
            r.invalid_binding_recoveries@.len() == 0,
            r.omitted_local_bindings@.len() == 0,
            r.local_names@.len() == 0,
            r.inferred_effects@.len() == 0,
            r.inferred_return_type is None,
            r.diagnostics@.len() == 0,
            r.suppressed_diagnostic_indices@.len() == 0,
    {
        FunctionChecker {
            function,
            environment,
            bindings: Vec::new(),
            invalid_binding_recoveries: Vec::new(),
            omitted_local_bindings: Vec::new(),
            local_names: Vec::new(),
            inferred_effects: Vec::new(),
            inferred_return_type: None,
            diagnostics: Vec::new(),
            suppressed_diagnostic_indices: Vec::new(),
        }
    }

    /// Declares `name` in the value namespace. A second declaration of the same name
    /// is reported as a duplicate, naming the first declaration, and is not recorded.
    pub fn declare_local_name(&mut self, name: &str, node_id: String, span: SourceSpan, declaration_kind: &str) -> (r: bool)
        ensures
            final(self).function == old(self).function,
            final(self).environment == old(self).environment,
            final(self).bindings == old(self).bindings,
            final(self).invalid_binding_recoveries == old(self).invalid_binding_recoveries,
            final(self).omitted_local_bindings == old(self).omitted_local_bindings,
            final(self).inferred_effects == old(self).inferred_effects,
            final(self).inferred_return_type == old(self).inferred_return_type,
            final(self).suppressed_diagnostic_indices == old(self).suppressed_diagnostic_indices,
            r == !old(self).declared_names().contains(name@),
            r ==> final(self).local_names@.len() == old(self).local_names@.len() + 1
                && final(self).local_names@.take(old(self).local_names@.len() as int) == old(self).local_names@
                && final(self).local_names@.last().name@ == name@
                && final(self).local_names@.last().node_id@ == node_id@
                && final(self).local_names@.last().span@ == span@
                && final(self).diagnostics == old(self).diagnostics,
            !r ==> final(self).local_names == old(self).local_names
                && pushed_one(old(self).diagnostics@, final(self).diagnostics@)
                && exists|k: int| 0 <= k < old(self).local_names@.len() && (#[trigger] old(self).local_names@[k]).name@ == name@
                    && (forall|j: int| 0 <= j < k ==> (#[trigger] old(self).local_names@[j]).name@ != name@)
                    && diag_is(
                        final(self).diagnostics@.last(),
                        "name.duplicate"@,
                        DiagnosticKind::Name,
                        "duplicate "@ + declaration_kind@ + " name `"@ + name@ + "`"@,
                        Some(span@),
                        duplicate_details_view(name@, "value"@, node_id@, old(self).local_names@[k].node_id@),
                        seq![duplicate_origin_view(declaration_kind@, old(self).local_names@[k].span@)],
                    ),
    {
        let ghost old_names = self.local_names@;
        match self.find_local_name(name) {
            Some(i) => {
                let first_node_id = self.local_names[i].node_id.clone();
                let d = duplicate_name_diagnostic(name, "value", declaration_kind, node_id, span, first_node_id, &self.local_names[i].span);
                self.diagnostics.push(d);
                proof {
                    assert(local_name_seq(old_names)[i as int] == name@);
                    assert(self.diagnostics@.take(self.diagnostics@.len() - 1) =~= old(self).diagnostics@);
                }
                false
            },
            None => {
                self.local_names.push(LocalName { name: string_of(name), node_id, span });
                assert(self.local_names@.take(old_names.len() as int) =~= old_names);
                true
            },
        }
    }

    /// The position of the declaration of `name`, if it is declared.
    pub fn find_local_name(&self, name: &str) -> (r: Option<usize>)
        ensures
            match r {
                Some(k) => k < self.local_names@.len() && self.local_names@[k as int].name@ == name@
                    && forall|j: int| 0 <= j < k ==> (#[trigger] self.local_names@[j]).name@ != name@,
                None => !self.declared_names().contains(name@),
            },
    {
        let mut i: usize = 0;
        while i < self.local_names.len()
            invariant
                0 <= i <= self.local_names@.len(),
                forall|j: int| 0 <= j < i ==> (#[trigger] self.local_names@[j]).name@ != name@,
            decreases self.local_names.len() - i,
        {
            if str_eq(self.local_names[i].name.as_str(), name) {
                return Some(i);
            }
            i += 1;
        }
        proof {
            if self.declared_names().contains(name@) {
                let k = choose|k: int| 0 <= k < self.declared_names().len() && self.declared_names()[k] == name@;
                assert(self.local_names@[k].name@ == name@);
            }
        }
        None
    }

    /// Brings `name: ty` into scope. A name that is not a valid value name is kept as a
    /// recovery instead; a duplicate declaration is reported and not bound.
    pub fn admit_value_binding(&mut self, name: &str, ty: Type, node_id: String, span: SourceSpan, declaration_kind: &str)
        ensures
            statement_frame(*old(self), *final(self)),
            final(self).inferred_return_type == old(self).inferred_return_type,
            final(self).function == old(self).function,
            final(self).environment == old(self).environment,
            final(self).omitted_local_bindings == old(self).omitted_local_bindings,
            final(self).inferred_effects == old(self).inferred_effects,
            !starts_lower(name@) ==> final(self).invalid_binding_recoveries@.len() == old(self).invalid_binding_recoveries@.len() + 1
                && final(self).invalid_binding_recoveries@.take(old(self).invalid_binding_recoveries@.len() as int) == old(self).invalid_binding_recoveries@
                && final(self).invalid_binding_recoveries@.last().name@ == name@
                && final(self).invalid_binding_recoveries@.last().ty@ == ty@
                && final(self).bindings == old(self).bindings
                && final(self).local_names == old(self).local_names
                && final(self).diagnostics == old(self).diagnostics,
            starts_lower(name@) ==> final(self).invalid_binding_recoveries == old(self).invalid_binding_recoveries,
            starts_lower(name@) && !old(self).declared_names().contains(name@) ==> final(self).bindings@.len() == old(self).bindings@.len() + 1
                && final(self).bindings@.take(old(self).bindings@.len() as int) == old(self).bindings@
                && final(self).bindings@.last().name@ == name@ && final(self).bindings@.last().ty@ == ty@
                && final(self).diagnostics == old(self).diagnostics
                && final(self).declared_names() == old(self).declared_names().push(name@),
            starts_lower(name@) && old(self).declared_names().contains(name@) ==> final(self).bindings == old(self).bindings
                && pushed_one(old(self).diagnostics@, final(self).diagnostics@)
                && final(self).diagnostics@.last().id@ == "name.duplicate"@,
    {
        let ghost start = *self;
        if invalid_value_binding_name(name) {
            self.invalid_binding_recoveries.push(InvalidBindingRecovery { name: string_of(name), ty });
            assert(self.invalid_binding_recoveries@.take(start.invalid_binding_recoveries@.len() as int) =~= start.invalid_binding_recoveries@);
            proof { lemma_statement_frame_refl(start); }
            return;
        }
        let ghost old_names = self.local_names@;
        let declared = self.declare_local_name(name, node_id, span, declaration_kind);
        if !declared {
            assert(self.diagnostics@.take(start.diagnostics@.len() as int) =~= start.diagnostics@);
            return;
        }
        proof {
            assert(local_name_seq(self.local_names@) =~= local_name_seq(old_names).push(name@));
        }
        let ghost old_bindings = self.bindings@;
        self.bindings.push(Binding { name: string_of(name), ty });
        assert(self.bindings@.take(old_bindings.len() as int) =~= old_bindings);
        assert(self.diagnostics@.take(start.diagnostics@.len() as int) =~= start.diagnostics@);
    }

    /// Brings `name: ty` into scope without declaring the name; an invalid value name
    /// is kept as a recovery instead.
    pub fn admit_value_binding_without_duplicate_diagnostic(&mut self, name: &str, ty: Type)
        ensures
            final(self).function == old(self).function,
            final(self).environment == old(self).environment,
            final(self).local_names == old(self).local_names,
            final(self).diagnostics == old(self).diagnostics,
            !starts_lower(name@) ==> final(self).bindings == old(self).bindings
                && final(self).invalid_binding_recoveries@.len() == old(self).invalid_binding_recoveries@.len() + 1
                && final(self).invalid_binding_recoveries@.take(old(self).invalid_binding_recoveries@.len() as int) == old(self).invalid_binding_recoveries@
                && final(self).invalid_binding_recoveries@.last().name@ == name@
                && final(self).invalid_binding_recoveries@.last().ty@ == ty@,
            starts_lower(name@) ==> final(self).invalid_binding_recoveries == old(self).invalid_binding_recoveries
                && final(self).bindings@.len() == old(self).bindings@.len() + 1
                && final(self).bindings@.take(old(self).bindings@.len() as int) == old(self).bindings@
                && final(self).bindings@.last().name@ == name@ && final(self).bindings@.last().ty@ == ty@,
    {
        if invalid_value_binding_name(name) {
            let ghost old_r = self.invalid_binding_recoveries@;
            self.invalid_binding_recoveries.push(InvalidBindingRecovery { name: string_of(name), ty });
            assert(self.invalid_binding_recoveries@.take(old_r.len() as int) =~= old_r);
            return;
        }
        let ghost old_bindings = self.bindings@;
        self.bindings.push(Binding { name: string_of(name), ty });
        assert(self.bindings@.take(old_bindings.len() as int) =~= old_bindings);
    }

    /// Keeps a pattern binding with an invalid name as a recovery.
    pub fn push_invalid_binding_recovery(&mut self, binding: PatternBinding)
        ensures
            final(self).invalid_binding_recoveries@.len() == old(self).invalid_binding_recoveries@.len() + 1,
            final(self).invalid_binding_recoveries@.take(old(self).invalid_binding_recoveries@.len() as int) == old(self).invalid_binding_recoveries@,
            final(self).invalid_binding_recoveries@.last().name@ == binding.name@,
            final(self).invalid_binding_recoveries@.last().ty@ == binding.ty@,
            final(self).omitted_local_bindings == old(self).omitted_local_bindings,
            final(self).inferred_effects == old(self).inferred_effects,
            final(self).inferred_return_type == old(self).inferred_return_type,
            final(self).suppressed_diagnostic_indices == old(self).suppressed_diagnostic_indices,
            final(self).function == old(self).function,
            final(self).environment == old(self).environment,
            final(self).bindings == old(self).bindings,
            final(self).local_names == old(self).local_names,
            final(self).diagnostics == old(self).diagnostics,
    {
        let ghost old_r = self.invalid_binding_recoveries@;
        self.invalid_binding_recoveries.push(InvalidBindingRecovery { name: binding.name, ty: binding.ty });
        assert(self.invalid_binding_recoveries@.take(old_r.len() as int) =~= old_r);
    }

    /// How many recoveries are recorded for `name`.
    pub fn invalid_local_binding_recovery_count(&self, name: &str) -> (r: usize)
        ensures
            r == recovery_count(self.invalid_binding_recoveries@, name@, false),
    {
        self.count_recoveries(name, false)
    }

    /// How many recoveries of function type are recorded for `name`.
    pub fn invalid_local_callable_recovery_count(&self, name: &str) -> (r: usize)
        ensures
            r == recovery_count(self.invalid_binding_recoveries@, name@, true),
    {
        self.count_recoveries(name, true)
    }

    fn count_recoveries(&self, name: &str, callables_only: bool) -> (r: usize)
        ensures
            r == recovery_count(self.invalid_binding_recoveries@, name@, callables_only),
    {
        let rs = &self.invalid_binding_recoveries;
        let mut count: usize = 0;
        let mut i: usize = 0;
        while i < rs.len()
            invariant
                0 <= i <= rs@.len(),
                count == recovery_count(rs@.take(i as int), name@, callables_only),
                count <= i,
            decreases rs.len() - i,
        {
            proof {
                assert(rs@.take(i + 1).drop_last() =~= rs@.take(i as int));
            }
            if str_eq(rs[i].name.as_str(), name) && (!callables_only || rs[i].ty.is_function()) {
                count += 1;
            }
            i += 1;
        }
        assert(rs@.take(rs@.len() as int) =~= rs@);
        count
    }

    /// The effects that the body uses, each once, in first-use order.
    pub fn inferred_boundary_effects(&self) -> (r: Vec<String>)
        ensures
            r.deep_view() == distinct_effects(self.inferred_effects@),
            crate::laws::distinct(r.deep_view()),
            forall|i: int| 0 <= i < self.inferred_effects@.len() ==> r.deep_view().contains(#[trigger] self.inferred_effects@[i].effect@),
    {
        let uses = &self.inferred_effects;
        let mut out: Vec<String> = Vec::new();
        let mut i: usize = 0;
        assert(out.deep_view() =~= Seq::<Seq<char>>::empty());
        while i < uses.len()
            invariant
                0 <= i <= uses@.len(),
                out.deep_view() == distinct_effects(uses@.take(i as int)),
            decreases uses.len() - i,
        {
            proof {
                assert(uses@.take(i + 1).drop_last() =~= uses@.take(i as int));
            }
            crate::effect_rows::push_unique_effect(&mut out, uses[i].effect.clone());
            i += 1;
        }
        assert(uses@.take(uses@.len() as int) =~= uses@);
        proof { crate::laws::law_distinct_effects(uses@); }
        out
    }

    /// Drops the diagnostics whose positions were marked as suppressed.
    pub fn remove_suppressed_diagnostics(&mut self)
        ensures
            final(self).diagnostics@ == kept_diagnostics(old(self).diagnostics@, old(self).suppressed_diagnostic_indices@),
            same_but_diagnostics(*old(self), *final(self)),
    {
        if self.suppressed_diagnostic_indices.len() == 0 {
            proof {
                lemma_keep_all(self.diagnostics@, self.suppressed_diagnostic_indices@);
            }
            return;
        }
        let mut all = Vec::new();
        std::mem::swap(&mut all, &mut self.diagnostics);
        let ghost ds = all@;
        let mut kept: Vec<Diagnostic> = Vec::new();
        let mut reversed: Vec<Diagnostic> = Vec::new();
        // Take the diagnostics off the end, then put the kept ones back in order.
        let mut n = all.len();
        while n > 0
            invariant
                n == all@.len(),
                all@ == ds.take(n as int),
                forall|k: int| 0 <= k < reversed@.len() ==> reversed@[k] == ds[ds.len() - 1 - k],
                reversed@.len() == ds.len() - n,
                n <= ds.len(),
            decreases n,
        {
            let d = all.pop().unwrap();
            reversed.push(d);
            n -= 1;
            assert(all@ =~= ds.take(n as int));
        }
        assert(kept@ =~= kept_diagnostics(ds.take(0), self.suppressed_diagnostic_indices@));
        let mut idx: usize = 0;
        while reversed.len() > 0
            invariant
                idx + reversed@.len() == ds.len(),
                forall|k: int| 0 <= k < reversed@.len() ==> reversed@[k] == ds[ds.len() - 1 - k],
                kept@ == kept_diagnostics(ds.take(idx as int), self.suppressed_diagnostic_indices@),
            decreases reversed@.len(),
        {
            let d = reversed.pop().unwrap();
            proof {
                assert(d == ds[idx as int]);
                assert(ds.take(idx + 1).drop_last() =~= ds.take(idx as int));
                assert(ds.take(idx + 1).last() == ds[idx as int]);
            }
            if !contains_index(&self.suppressed_diagnostic_indices, idx) {
                kept.push(d);
            }
            idx += 1;
        }
        assert(ds.take(ds.len() as int) =~= ds);
        self.diagnostics = kept;
    }
}

/// Whether the list holds `index`.
pub fn contains_index(v: &Vec<usize>, index: usize) -> (r: bool)
    ensures
        r == v@.contains(index),
{
    let mut i: usize = 0;
    while i < v.len()
        invariant
            0 <= i <= v@.len(),
            forall|j: int| 0 <= j < i ==> v@[j] != index,
        decreases v.len() - i,
    {
        if v[i] == index {
            return true;
        }
        i += 1;
    }
    false
}

proof fn lemma_keep_all(ds: Seq<Diagnostic>, suppressed: Seq<usize>)
    requires
        suppressed.len() == 0,
    ensures
        kept_diagnostics(ds, suppressed) == ds,
    decreases ds.len(),
{
    if ds.len() > 0 {
        lemma_keep_all(ds.drop_last(), suppressed);
        assert(ds.drop_last().push(ds.last()) =~= ds);
    }
}

} // verus!
