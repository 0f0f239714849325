use vstd::prelude::*;

use crate::ast::{Function, FunctionKind, Visibility};
use crate::body_diagnostics::{note, note_view, sfield, string_array};
use crate::checker::{FunctionChecker, distinct_effects, same_but_diagnostics};
use crate::diag::{Diagnostic, DiagnosticKind, Severity, SourceSpan, SpanV, jsons, node_display, span_json, span_json_view};
use crate::effect_rows::push_unique;
use crate::env::{effect_choice, opt_str, TypeEnvironment};
use crate::json::{ArrayBuilder, JsonV, JsonValue, ObjectBuilder, json_str};
use crate::semantic::{EffectUse, pushed_one, str_array};
use crate::text::{contains_str, has_prefix, starts_with, str_eq, string_of};

verus! {

/// The boundary at which a function's effects must be declared.
pub struct EffectBoundary {
    pub kind: &'static str,
    pub diagnostic_id: &'static str,
    pub subject: &'static str,
}

impl EffectBoundary {
    /// Tests and public functions must declare the effects their bodies use.
    pub fn for_function(function: &Function) -> (r: Option<EffectBoundary>)
        ensures
            function.kind == FunctionKind::Test ==> (r matches Some(b) && b.kind@ == "test_declaration"@
                && b.diagnostic_id@ == "effect.missing_test"@ && b.subject@ == "test declaration"@),
            function.kind != FunctionKind::Test && function.visibility == Visibility::Public ==> (r matches Some(b)
                && b.kind@ == "public_function"@ && b.diagnostic_id@ == "effect.missing_public"@ && b.subject@ == "public function"@),
            function.kind != FunctionKind::Test && function.visibility != Visibility::Public ==> r is None,
    {
        if function.kind == FunctionKind::Test {
            return Some(EffectBoundary { kind: "test_declaration", diagnostic_id: "effect.missing_test", subject: "test declaration" });
        }
        if function.visibility == Visibility::Public {
            return Some(EffectBoundary { kind: "public_function", diagnostic_id: "effect.missing_public", subject: "public function" });
        }
        None
    }
}

/// How a declared effect is compared at the boundary: rows stay as written, other
/// effects become the qualified name of the user effect they resolve to, if any.
pub open spec fn resolved_effect(env: TypeEnvironment, module: Option<Seq<char>>, effect: Seq<char>) -> Seq<char> {
    if has_prefix(effect, "..."@) {
        effect
    } else {
        match effect_choice(env.effects@, effect, module) {
            Some(k) => env.effects@[k].qualified_name@,
            None => effect,
        }
    }
}

/// The model of an optional module name.
pub open spec fn opt_string(o: Option<String>) -> Option<Seq<char>> {
    match o {
        Some(s) => Some(s@),
        None => None,
    }
}

/// The uses of `effect`, in order.
pub open spec fn uses_of(uses: Seq<EffectUse>, effect: Seq<char>) -> Seq<EffectUse>
    decreases uses.len(),
{
    if uses.len() == 0 {
        Seq::empty()
    } else if uses.last().effect@ == effect {
        uses_of(uses.drop_last(), effect).push(uses.last())
    } else {
        uses_of(uses.drop_last(), effect)
    }
}

/// The note naming the call that requires an effect.
pub open spec fn provenance_note(u: EffectUse) -> JsonV {
    note_view("effect_provenance"@, "Call to `"@ + u.symbol@ + "` requires this effect."@, u.span@)
}

/// One provenance entry of a missing-effect diagnostic's details.
pub open spec fn provenance_entry(u: EffectUse) -> JsonV {
    JsonV::Object(seq![("symbol"@, JsonV::Str(u.symbol@)), ("span"@, span_json_view(u.span@))])
}

/// The details of a missing-effect diagnostic, given the uses of the effect: the first
/// three uses as provenance, whether more were left out, and how many.
pub open spec fn missing_effect_details_view(f: Function, boundary_kind: Seq<char>, effect: Seq<char>, declared: Seq<Seq<char>>,
    inferred: Seq<Seq<char>>, uses: Seq<EffectUse>) -> JsonV {
    let n = if uses.len() < 3 { uses.len() } else { 3 };
    JsonV::Object(seq![
        ("phase"@, JsonV::Str("effect"@)),
        ("node_id"@, JsonV::Str(node_display(f.node_id.index, match f.kind { FunctionKind::Function => "fn"@, FunctionKind::Test => "test"@ }))),
        ("function"@, JsonV::Str(match f.name { Some(n) => n@, None => "<missing>"@ })),
        ("span"@, span_json_view(f.span@)),
        ("effect"@, JsonV::Str(effect)),
        ("boundary"@, JsonV::Str(boundary_kind)),
        ("declared_effects"@, str_array(declared)),
        ("inferred_effects"@, str_array(inferred)),
        ("provenance"@, JsonV::Array(Seq::new(n, |k: int| provenance_entry(uses[k])))),
        ("provenance_truncated"@, JsonV::Bool(uses.len() > n)),
        ("omitted_path_count"@, JsonV::Number(((uses.len() - n) as i64) as int)),
    ])
}

/// The effects the body uses that the function does not declare, each once, in
/// first-use order: the declared effects are compared as `resolved_effect` gives them.
pub open spec fn boundary_missing_effects(c: FunctionChecker) -> Seq<Seq<char>> {
    let declared = match c.function.effects {
        Some(es) => Seq::new(es@.len(), |i: int| resolved_effect(*c.environment, opt_string(c.function.module_name), es@[i]@)),
        None => Seq::<Seq<char>>::empty(),
    };
    missing_effects(distinct_effects(c.inferred_effects@), declared)
}

/// The inferred effects missing from the declared ones, in order.
pub open spec fn missing_effects(inferred: Seq<Seq<char>>, declared: Seq<Seq<char>>) -> Seq<Seq<char>>
    decreases inferred.len(),
{
    if inferred.len() == 0 {
        Seq::empty()
    } else if declared.contains(inferred.last()) {
        missing_effects(inferred.drop_last(), declared)
    } else {
        missing_effects(inferred.drop_last(), declared).push(inferred.last())
    }
}

impl<'a> FunctionChecker<'a> {
    /// The function's declared effects as compared at its boundary.
    pub fn declared_boundary_effects(&self) -> (r: Vec<String>)
        ensures
            r.deep_view() == (match self.function.effects {
                Some(es) => Seq::new(es@.len(), |i: int| resolved_effect(*self.environment, opt_string(self.function.module_name), es@[i]@)),
                None => Seq::<Seq<char>>::empty(),
            }),
    {
        let function = self.function;
        let mut out: Vec<String> = Vec::new();
        match &function.effects {
            None => {
                assert(out.deep_view() =~= Seq::<Seq<char>>::empty());
            },
            Some(es) => {
                let module = match &function.module_name {
                    Some(m) => Some(m.as_str()),
                    None => None,
                };
                assert(opt_str(module) == opt_string(function.module_name));
                let mut i: usize = 0;
                while i < es.len()
                    invariant
                        0 <= i <= es@.len(),
                        opt_str(module) == opt_string(function.module_name),
                        out.deep_view() == Seq::new(i as nat, |k: int| resolved_effect(*self.environment, opt_string(function.module_name), es@[k]@)),
                    decreases es.len() - i,
                {
                    let e = &es[i];
                    let resolved = if starts_with(e.as_str(), "...") {
                        e.clone()
                    } else {
                        match self.environment.user_effect_path(e.as_str(), module) {
                            Some(k) => self.environment.effects[k].qualified_name.clone(),
                            None => e.clone(),
                        }
                    };
                    assert(resolved@ == resolved_effect(*self.environment, opt_string(function.module_name), es@[i as int]@));
                    let ghost prev = out.deep_view();
                    out.push(resolved);
                    assert(out.deep_view() =~= prev.push(resolved@));
                    assert(out.deep_view() =~= Seq::new((i + 1) as nat, |k: int| resolved_effect(*self.environment, opt_string(function.module_name), es@[k]@)));
                    i += 1;
                }
            },
        }
        out
    }

    /// The first (at most three) uses of `effect`, and how many uses there are.
    pub fn effect_provenance(&self, effect: &str) -> (r: (Vec<usize>, usize))
        ensures
            r.1 == uses_of(self.inferred_effects@, effect@).len(),
            r.0@.len() == if r.1 < 3 { r.1 } else { 3 },
            forall|k: int| 0 <= k < r.0@.len() ==> (#[trigger] r.0@[k]) < self.inferred_effects@.len()
                && self.inferred_effects@[r.0@[k] as int] == uses_of(self.inferred_effects@, effect@)[k],
    {
        let uses = &self.inferred_effects;
        let mut picked: Vec<usize> = Vec::new();
        let mut count: usize = 0;
        let mut i: usize = 0;
        while i < uses.len()
            invariant
                0 <= i <= uses@.len(),
                count == uses_of(uses@.take(i as int), effect@).len(),
                count <= i,
                picked@.len() == if count < 3 { count } else { 3 },
                forall|k: int| 0 <= k < picked@.len() ==> (#[trigger] picked@[k]) < i
                    && uses@[picked@[k] as int] == uses_of(uses@.take(i as int), effect@)[k],
            decreases uses.len() - i,
        {
            proof {
                assert(uses@.take(i + 1).drop_last() =~= uses@.take(i as int));
            }
            if str_eq(uses[i].effect.as_str(), effect) {
                if count < 3 {
                    picked.push(i);
                }
                count += 1;
            }
            i += 1;
        }
        assert(uses@.take(uses@.len() as int) =~= uses@);
        (picked, count)
    }

    /// The diagnostic for an effect used in the body but not declared at the boundary.
    pub fn missing_effect_diagnostic(&self, boundary: &EffectBoundary, effect: &str, declared_effects: &Vec<String>, inferred_effects: &Vec<String>) -> (r: Diagnostic)
        ensures
            r.id@ == boundary.diagnostic_id@,
            r.severity == Severity::Error,
            r.kind == DiagnosticKind::Effect,
            r.message@ == boundary.subject@ + " uses undeclared effect `"@ + effect@ + "`"@,
            crate::diag::opt_span_view(r.span) == Some(self.function.span@),
            ({
                let uses = uses_of(self.inferred_effects@, effect@);
                let n = if uses.len() < 3 { uses.len() } else { 3 };
                &&& jsons(r.related@).len() == n
                &&& forall|k: int| 0 <= k < n ==> #[trigger] jsons(r.related@)[k] == provenance_note(uses[k])
            }),
            r.details@ == missing_effect_details_view(*self.function, boundary.kind@, effect@, declared_effects.deep_view(),
                inferred_effects.deep_view(), uses_of(self.inferred_effects@, effect@)),
    {
        let function = self.function;
        let (picked, count) = self.effect_provenance(effect);
        let mut message = string_of(boundary.subject);
        message.append(" uses undeclared effect `");
        message.append(effect);
        message.append("`");
        let mut provenance = ArrayBuilder::new();
        let mut j: usize = 0;
        let ghost uses = uses_of(self.inferred_effects@, effect@);
        while j < picked.len()
            invariant
                0 <= j <= picked@.len(),
                provenance.wf(),
                uses == uses_of(self.inferred_effects@, effect@),
                forall|k: int| 0 <= k < picked@.len() ==> (#[trigger] picked@[k]) < self.inferred_effects@.len()
                    && self.inferred_effects@[picked@[k] as int] == uses[k],
                provenance.elements() == Seq::new(j as nat, |k: int| provenance_entry(uses[k])),
            decreases picked.len() - j,
        {
            let u = &self.inferred_effects[picked[j]];
            let mut p = ObjectBuilder::new();
            p.push_str("symbol", u.symbol.as_str());
            p.push("span", span_json(&u.span));
            let entry = p.finish();
            assert(entry@->Object_0 =~= provenance_entry(uses[j as int])->Object_0);
            let ghost before = provenance.elements();
            provenance.push(entry);
            assert(provenance.elements() =~= Seq::new((j + 1) as nat, |k: int| provenance_entry(uses[k])));
            j += 1;
        }
        let mut b = ObjectBuilder::new();
        b.push_str("phase", "effect");
        b.push_string("node_id", function.node_id.display(function.kind.node_prefix()));
        match &function.name {
            Some(n) => b.push_str("function", n.as_str()),
            None => b.push_str("function", "<missing>"),
        }
        b.push("span", span_json(&function.span));
        b.push_str("effect", effect);
        b.push_str("boundary", boundary.kind);
        b.push("declared_effects", string_array(declared_effects.clone()));
        b.push("inferred_effects", string_array(inferred_effects.clone()));
        b.push("provenance", provenance.finish());
        b.push("provenance_truncated", JsonValue::Bool(count > picked.len()));
        b.push("omitted_path_count", JsonValue::Number((count - picked.len()) as i64));
        let details = b.finish();
        proof {
            let n: nat = if uses.len() < 3 { uses.len() } else { 3 };
            assert(picked@.len() == n);
            assert(details@->Object_0 =~= missing_effect_details_view(*function, boundary.kind@, effect@, declared_effects.deep_view(),
                inferred_effects.deep_view(), uses)->Object_0);
        }
        let mut d = Diagnostic::new(boundary.diagnostic_id, Severity::Error, DiagnosticKind::Effect, message, Some(function.span.copy()), details);
        let mut k: usize = 0;
        while k < picked.len()
            invariant
                0 <= k <= picked@.len(),
                d.id@ == boundary.diagnostic_id@,
                d.severity == Severity::Error,
                d.kind == DiagnosticKind::Effect,
                d.message@ == boundary.subject@ + " uses undeclared effect `"@ + effect@ + "`"@,
                crate::diag::opt_span_view(d.span) == Some(function.span@),
                d.related@.len() == k,
                d.details@ == missing_effect_details_view(*function, boundary.kind@, effect@, declared_effects.deep_view(),
                    inferred_effects.deep_view(), uses_of(self.inferred_effects@, effect@)),
                forall|m: int| 0 <= m < k ==> (#[trigger] d.related@[m])@ == provenance_note(uses_of(self.inferred_effects@, effect@)[m]),
                forall|m: int| 0 <= m < picked@.len() ==> (#[trigger] picked@[m]) < self.inferred_effects@.len()
                    && self.inferred_effects@[picked@[m] as int] == uses_of(self.inferred_effects@, effect@)[m],
            decreases picked.len() - k,
        {
            let u = &self.inferred_effects[picked[k]];
            let mut m = string_of("Call to `");
            m.append(u.symbol.as_str());
            m.append("` requires this effect.");
            d.related.push(note("effect_provenance", m, &u.span));
            k += 1;
        }
        d
    }

    /// Reports, at a test or public function, each effect the body uses that the
    /// function does not declare. A function that declares `effects []` is not checked.
    pub fn check_effect_boundaries(&mut self)
        ensures
            same_but_diagnostics(*old(self), *final(self)),
            final(self).diagnostics@.take(old(self).diagnostics@.len() as int) == old(self).diagnostics@,
            EffectBoundary::for_function_spec(*old(self).function) is None || (old(self).function.effects matches Some(es) && es@.len() == 0)
                ==> final(self).diagnostics == old(self).diagnostics,
            !(EffectBoundary::for_function_spec(*old(self).function) is None || (old(self).function.effects matches Some(es) && es@.len() == 0))
                ==> ({
                    let missing = boundary_missing_effects(*old(self));
                    &&& final(self).diagnostics@.len() == old(self).diagnostics@.len() + missing.len()
                    &&& forall|k: int| 0 <= k < missing.len() ==> (#[trigger] final(self).diagnostics@[old(self).diagnostics@.len() + k]).message@
                        == boundary_subject(*old(self).function) + " uses undeclared effect `"@ + missing[k] + "`"@
                }),
    {
        let boundary = match EffectBoundary::for_function(self.function) {
            Some(b) => b,
            None => {
                assert(self.diagnostics@.take(self.diagnostics@.len() as int) =~= self.diagnostics@);
                return;
            },
        };
        match &self.function.effects {
            Some(es) => {
                if es.len() == 0 {
                    assert(self.diagnostics@.take(self.diagnostics@.len() as int) =~= self.diagnostics@);
                    return;
                }
            },
            None => {},
        }
        let declared = self.declared_boundary_effects();
        let inferred = self.inferred_boundary_effects();
        let ghost start = self.diagnostics@;
        let ghost before = *self;
        let mut i: usize = 0;
        assert(start.take(start.len() as int) =~= start);
        while i < inferred.len()
            invariant
                0 <= i <= inferred@.len(),
                same_but_diagnostics(before, *self),
                self.diagnostics@.take(start.len() as int) == start,
                ({
                    let missing = missing_effects(inferred.deep_view().take(i as int), declared.deep_view());
                    &&& self.diagnostics@.len() == start.len() + missing.len()
                    &&& forall|k: int| 0 <= k < missing.len() ==> (#[trigger] self.diagnostics@[start.len() + k]).message@
                        == boundary.subject@ + " uses undeclared effect `"@ + missing[k] + "`"@
                }),
            decreases inferred.len() - i,
        {
            proof {
                assert(inferred.deep_view().take(i + 1).drop_last() =~= inferred.deep_view().take(i as int));
            }
            if !contains_str(&declared, inferred[i].as_str()) {
                let d = self.missing_effect_diagnostic(&boundary, inferred[i].as_str(), &declared, &inferred);
                let ghost pre = self.diagnostics@;
                self.push_diagnostic(d);
                proof {
                    assert(self.diagnostics@.take(start.len() as int) =~= start) by {
                        assert(pre.take(start.len() as int) == start);
                    }
                }
            }
            i += 1;
        }
        assert(inferred.deep_view().take(inferred@.len() as int) =~= inferred.deep_view());
    }
}

/// The subject named in missing-effect messages for a function's boundary.
pub open spec fn boundary_subject(function: Function) -> Seq<char> {
    if function.kind == FunctionKind::Test {
        "test declaration"@
    } else {
        "public function"@
    }
}

impl EffectBoundary {
    /// The boundary kind, diagnostic id and subject for a function, if it has one.
    pub open spec fn for_function_spec(function: Function) -> Option<(Seq<char>, Seq<char>)> {
        if function.kind == FunctionKind::Test {
            Some(("effect.missing_test"@, "test declaration"@))
        } else if function.visibility == Visibility::Public {
            Some(("effect.missing_public"@, "public function"@))
        } else {
            None
        }
    }
}

} // verus!
