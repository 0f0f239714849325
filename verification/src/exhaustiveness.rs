use vstd::prelude::*;

use crate::ast::{Expr, MatchArm};
use crate::checker::FunctionChecker;
use crate::diag::{Diagnostic, DiagnosticKind, Severity, SourceSpan, node_display, span_json};
use crate::env::{TypeEnvironment, descriptor_choice, opt_str};
use crate::infer::opt_module;
use crate::types::{TypeV, named0};
use crate::json::ObjectBuilder;
use crate::patterns::{MatchDomain, grew, match_pattern_coverage, invalid_qualified_constructor_recovery_cases, recovery_case, spec_coverage};
use crate::json::JsonV;
use crate::render::{render, render_type};
use crate::text::{contains_str, string_of};
use crate::types::Type;

verus! {

/// The domain of a scrutinee type: `Bool`, a declared algebraic data type, or none.
pub open spec fn domain_of(ty: TypeV, env: TypeEnvironment, module: Option<Seq<char>>) -> Option<MatchDomain> {
    if ty == named0("Bool"@) {
        Some(MatchDomain::Bool)
    } else if descriptor_choice(env.adts.descriptors@, ty, module) is Some {
        Some(MatchDomain::Adt)
    } else {
        None
    }
}

/// The cases of a domain, in declaration order.
pub open spec fn domain_cases(d: MatchDomain, ty: TypeV, env: TypeEnvironment, module: Option<Seq<char>>) -> Seq<Seq<char>> {
    match d {
        MatchDomain::Bool => seq!["false"@, "true"@],
        MatchDomain::Adt => match descriptor_choice(env.adts.descriptors@, ty, module) {
            Some(k) => Seq::new(env.adts.descriptors@[k].variants@.len(), |i: int| env.adts.descriptors@[k].variants@[i].coverage_case@),
            None => Seq::empty(),
        },
    }
}

/// The coverage of an arm's pattern.
pub open spec fn arm_coverage(arm: MatchArm, d: MatchDomain, ty: TypeV, c: FunctionChecker) -> (bool, Seq<Seq<char>>) {
    spec_coverage(arm.pattern, d, ty, *c.environment, opt_module(c.function.module_name))
}

/// Whether some arm's pattern catches every value of the scrutinee.
pub open spec fn some_arm_catches_all(arms: Seq<MatchArm>, d: MatchDomain, ty: TypeV, c: FunctionChecker) -> bool {
    exists|i: int| 0 <= i < arms.len() && (#[trigger] arm_coverage(arms[i], d, ty, c)).0
}

/// Whether `case` is among the cases some arm's pattern covers.
pub open spec fn case_covered(arms: Seq<MatchArm>, d: MatchDomain, ty: TypeV, c: FunctionChecker, case: Seq<char>) -> bool {
    exists|i: int| 0 <= i < arms.len() && (#[trigger] arm_coverage(arms[i], d, ty, c)).1.contains(case)
}

/// Whether some arm covers `case`, directly or by the case its lowercase-leaf
/// constructor path is taken to name.
pub open spec fn case_known(arms: Seq<MatchArm>, d: MatchDomain, ty: TypeV, c: FunctionChecker, case: Seq<char>) -> bool {
    case_covered(arms, d, ty, c, case)
        || exists|i: int| 0 <= i < arms.len() && #[trigger] recovery_case(arms[i].pattern, d, ty, *c.environment) == Some(case)
}

/// The first case of the domain, in declaration order, that no arm covers.
pub open spec fn first_missing(cases: Seq<Seq<char>>, arms: Seq<MatchArm>, d: MatchDomain, ty: TypeV, c: FunctionChecker) -> Option<int> {
    if exists|m: int| 0 <= m < cases.len() && !case_known(arms, d, ty, c, #[trigger] cases[m]) {
        Some(choose|m: int| 0 <= m < cases.len() && !case_known(arms, d, ty, c, #[trigger] cases[m])
            && forall|j: int| 0 <= j < m ==> case_known(arms, d, ty, c, #[trigger] cases[j]))
    } else {
        None
    }
}

/// The case a `match` is reported for: over a known domain with no catch-all arm, the
/// first uncovered case.
pub open spec fn non_exhaustive_case(arms: Seq<MatchArm>, ty: TypeV, c: FunctionChecker) -> Option<Seq<char>> {
    let module = opt_module(c.function.module_name);
    match domain_of(ty, *c.environment, module) {
        Some(d) => if some_arm_catches_all(arms, d, ty, c) {
            None
        } else {
            let cases = domain_cases(d, ty, *c.environment, module);
            match first_missing(cases, arms, d, ty, c) {
                Some(m) => Some(cases[m]),
                None => None,
            }
        },
        None => None,
    }
}

/// The details of a non-exhaustive `match` report.
pub open spec fn non_exhaustive_details(expr: Expr, ty: TypeV, case: Seq<char>) -> JsonV {
    JsonV::Object(seq![
        ("phase"@, JsonV::Str("type"@)),
        ("node_id"@, JsonV::Str(node_display(expr.node_id.index, "match"@))),
        ("scrutinee_type"@, JsonV::Str(render(ty))),
        ("missing_case"@, JsonV::Str(case)),
        ("constraint"@, JsonV::Str("match_exhaustiveness"@)),
    ])
}

impl<'a> FunctionChecker<'a> {
    /// Reports a `match` that misses a case of its scrutinee's type, naming the first
    /// missing case and the arms that prove the other cases. A match with a catch-all
    /// arm, or over a type whose cases are not known, is not reported.
    pub fn check_match_exhaustiveness(&mut self, expr: &Expr, scrutinee: &Expr, scrutinee_type: &Type, arms: &Vec<MatchArm>)
        ensures
            grew(*old(self), *final(self)),
            match non_exhaustive_case(arms@, scrutinee_type@, *old(self)) {
                None => final(self).diagnostics == old(self).diagnostics,
                Some(case) => crate::semantic::pushed_one(old(self).diagnostics@, final(self).diagnostics@)
                    && final(self).diagnostics@.last().id@ == "type.match_non_exhaustive"@
                    && final(self).diagnostics@.last().severity == Severity::Error
                    && final(self).diagnostics@.last().kind == DiagnosticKind::Type
                    && final(self).diagnostics@.last().message@ == "match is missing case "@ + case
                    && crate::diag::opt_span_view(final(self).diagnostics@.last().span) == Some(expr.span@)
                    && final(self).diagnostics@.last().details@ == non_exhaustive_details(*expr, scrutinee_type@, case),
            },
    {
        let ghost start = *self;
        let module = crate::patterns::module_of(&self.function.module_name);
        let domain = match MatchDomain::from_type(scrutinee_type, self.environment, module) {
            Some(d) => d,
            None => {
                proof { crate::infer::lemma_kept_scope_refl(start); }
                assert(self.diagnostics@.take(start.diagnostics@.len() as int) =~= start.diagnostics@);
                return;
            },
        };
        let ghost env = *self.environment;
        let ghost ty = scrutinee_type@;
        let mut covered: Vec<String> = Vec::new();
        let mut invalid_recovery_covered: Vec<String> = Vec::new();
        let mut proving_arms: Vec<(String, SourceSpan)> = Vec::new();
        let mut i: usize = 0;
        while i < arms.len()
            invariant
                0 <= i <= arms@.len(),
                *self == start,
                env == *self.environment,
                ty == scrutinee_type@,
                opt_str(module) == opt_module(self.function.module_name),
                Some(domain) == domain_of(scrutinee_type@, *self.environment, opt_module(self.function.module_name)),
                forall|j: int| 0 <= j < i ==> !(#[trigger] arm_coverage(arms@[j], domain, scrutinee_type@, *self)).0,
                forall|j: int, x: Seq<char>| 0 <= j < i && #[trigger] arm_coverage(arms@[j], domain, scrutinee_type@, *self).1.contains(x)
                    ==> covered.deep_view().contains(x),
                forall|x: Seq<char>| #[trigger] covered.deep_view().contains(x)
                    ==> exists|j: int| 0 <= j < i && #[trigger] arm_coverage(arms@[j], domain, scrutinee_type@, *self).1.contains(x),
                forall|x: Seq<char>| #[trigger] invalid_recovery_covered.deep_view().contains(x)
                    <==> exists|j: int| 0 <= j < i && #[trigger] recovery_case(arms@[j].pattern, domain, ty, env) == Some(x),
            decreases arms.len() - i,
        {
            let coverage = match_pattern_coverage(&arms[i].pattern, &domain, scrutinee_type, self.environment, module);
            if coverage.catches_all {
                assert(self.diagnostics@.take(start.diagnostics@.len() as int) =~= start.diagnostics@);
                assert(some_arm_catches_all(arms@, domain, scrutinee_type@, *self)) by {
                    assert(arm_coverage(arms@[i as int], domain, scrutinee_type@, *self).0);
                }
                return;
            }
            let recovered = invalid_qualified_constructor_recovery_cases(&arms[i].pattern, &domain, scrutinee_type, self.environment, module);
            let ghost before_inv = invalid_recovery_covered.deep_view();
            if recovered.len() == 1 {
                invalid_recovery_covered.push(recovered[0].clone());
                assert(invalid_recovery_covered.deep_view() =~= before_inv.push(recovered.deep_view()[0]));
            }
            proof {
                let inv = invalid_recovery_covered.deep_view();
                assert forall|x: Seq<char>| #[trigger] inv.contains(x)
                    <==> exists|j: int| 0 <= j < i + 1 && #[trigger] recovery_case(arms@[j].pattern, domain, ty, env) == Some(x) by {
                    if inv.contains(x) {
                        if before_inv.contains(x) {
                            let j = choose|j: int| 0 <= j < i && #[trigger] recovery_case(arms@[j].pattern, domain, ty, env) == Some(x);
                            assert(0 <= j < i + 1 && recovery_case(arms@[j].pattern, domain, ty, env) == Some(x));
                        } else {
                            let w = choose|w: int| 0 <= w < inv.len() && inv[w] == x;
                            assert(w == before_inv.len());
                            assert(recovery_case(arms@[i as int].pattern, domain, ty, env) == Some(x));
                        }
                    }
                    if exists|j: int| 0 <= j < i + 1 && #[trigger] recovery_case(arms@[j].pattern, domain, ty, env) == Some(x) {
                        let j = choose|j: int| 0 <= j < i + 1 && #[trigger] recovery_case(arms@[j].pattern, domain, ty, env) == Some(x);
                        if j < i {
                            assert(before_inv.contains(x));
                            let w = choose|w: int| 0 <= w < before_inv.len() && before_inv[w] == x;
                            assert(inv[w] == x);
                        } else {
                            assert(recovered.deep_view() == seq![x]);
                            assert(recovered@.len() == 1);
                            assert(inv =~= before_inv.push(x));
                            assert(inv[before_inv.len() as int] == x);
                        }
                    }
                }
            }
            let ghost old_covered = covered.deep_view();
            let mut k: usize = 0;
            while k < coverage.cases.len()
                invariant
                    0 <= k <= coverage.cases@.len(),
                    forall|x: Seq<char>| old_covered.contains(x) ==> covered.deep_view().contains(x),
                    forall|m: int| 0 <= m < k ==> covered.deep_view().contains(#[trigger] coverage.cases.deep_view()[m]),
                    forall|x: Seq<char>| #[trigger] covered.deep_view().contains(x) ==> old_covered.contains(x) || coverage.cases.deep_view().contains(x),
                decreases coverage.cases.len() - k,
            {
                let case = &coverage.cases[k];
                let ghost before = covered.deep_view();
                if !contains_str(&covered, case.as_str()) {
                    covered.push(case.clone());
                    proof {
                        assert(covered.deep_view() =~= before.push(case@));
                        assert forall|x: Seq<char>| before.contains(x) implies covered.deep_view().contains(x) by {
                            let w = choose|w: int| 0 <= w < before.len() && before[w] == x;
                            assert(covered.deep_view()[w] == x);
                        }
                        assert(covered.deep_view()[before.len() as int] == case@);
                        assert forall|x: Seq<char>| #[trigger] covered.deep_view().contains(x) implies old_covered.contains(x) || coverage.cases.deep_view().contains(x) by {
                            let w = choose|w: int| 0 <= w < covered.deep_view().len() && covered.deep_view()[w] == x;
                            if w < before.len() {
                                assert(before[w] == x);
                                assert(before.contains(x));
                            } else {
                                assert(coverage.cases.deep_view()[k as int] == x);
                            }
                        }
                    }
                    proving_arms.push((case.clone(), arms[i].pattern.span.copy()));
                }
                k += 1;
            }
            proof {
                assert forall|j: int, x: Seq<char>| 0 <= j < i + 1 && #[trigger] arm_coverage(arms@[j], domain, scrutinee_type@, *self).1.contains(x)
                    implies covered.deep_view().contains(x) by {
                    if j == i {
                        let w = choose|w: int| 0 <= w < coverage.cases.deep_view().len() && coverage.cases.deep_view()[w] == x;
                        assert(covered.deep_view().contains(coverage.cases.deep_view()[w]));
                    } else {
                        assert(old_covered.contains(x));
                    }
                }
                assert forall|x: Seq<char>| #[trigger] covered.deep_view().contains(x)
                    implies exists|j: int| 0 <= j < i + 1 && #[trigger] arm_coverage(arms@[j], domain, scrutinee_type@, *self).1.contains(x) by {
                    if old_covered.contains(x) {
                        let j = choose|j: int| 0 <= j < i && #[trigger] arm_coverage(arms@[j], domain, scrutinee_type@, *self).1.contains(x);
                        assert(0 <= j < i + 1 && arm_coverage(arms@[j], domain, scrutinee_type@, *self).1.contains(x));
                    } else {
                        assert(arm_coverage(arms@[i as int], domain, scrutinee_type@, *self).1.contains(x));
                    }
                }
            }
            i += 1;
        }
        proof {
            assert(!some_arm_catches_all(arms@, domain, scrutinee_type@, *self));
            assert forall|x: Seq<char>| case_known(arms@, domain, scrutinee_type@, *self, x)
                <==> (covered.deep_view().contains(x) || invalid_recovery_covered.deep_view().contains(x)) by {
                if case_covered(arms@, domain, scrutinee_type@, *self, x) {
                    let j = choose|j: int| 0 <= j < arms@.len() && (#[trigger] arm_coverage(arms@[j], domain, scrutinee_type@, *self)).1.contains(x);
                    assert(covered.deep_view().contains(x));
                }
                if covered.deep_view().contains(x) {
                    let j = choose|j: int| 0 <= j < arms@.len() && #[trigger] arm_coverage(arms@[j], domain, scrutinee_type@, *self).1.contains(x);
                    assert(case_covered(arms@, domain, scrutinee_type@, *self, x));
                }
            }
        }
        let cases = domain.cases(scrutinee_type, self.environment, module);
        let ghost cs = domain_cases(domain, scrutinee_type@, *self.environment, opt_module(self.function.module_name));
        assert(cases.deep_view() == cs);
        let mut missing: Option<usize> = None;
        let mut c: usize = 0;
        while c < cases.len() && missing.is_none()
            invariant
                0 <= c <= cases@.len(),
                cases.deep_view() == cs,
                forall|x: Seq<char>| case_known(arms@, domain, scrutinee_type@, *self, x)
                    <==> (covered.deep_view().contains(x) || invalid_recovery_covered.deep_view().contains(x)),
                missing matches Some(m) ==> m < cases@.len() && !case_known(arms@, domain, scrutinee_type@, *self, cs[m as int])
                    && forall|j: int| 0 <= j < m ==> case_known(arms@, domain, scrutinee_type@, *self, #[trigger] cs[j]),
                missing is None ==> forall|m: int| 0 <= m < c ==> case_known(arms@, domain, scrutinee_type@, *self, #[trigger] cs[m]),
            decreases cases.len() - c,
        {
            if !contains_str(&covered, cases[c].as_str()) && !contains_str(&invalid_recovery_covered, cases[c].as_str()) {
                assert(cs[c as int] == cases@[c as int]@);
                missing = Some(c);
            }
            assert(cs[c as int] == cases@[c as int]@);
            c += 1;
        }
        let missing_case = match missing {
            Some(m) => cases[m].clone(),
            None => {
                assert(self.diagnostics@.take(start.diagnostics@.len() as int) =~= start.diagnostics@);
                assert(first_missing(cs, arms@, domain, scrutinee_type@, *self) is None);
                return;
            },
        };
        proof {
            let m = missing->0 as int;
            assert(!case_known(arms@, domain, scrutinee_type@, *self, cs[m]));
            assert(exists|m: int| 0 <= m < cs.len() && !case_known(arms@, domain, scrutinee_type@, *self, #[trigger] cs[m]));
            assert(0 <= m < cs.len() && !case_known(arms@, domain, scrutinee_type@, *self, cs[m])
                && forall|j: int| 0 <= j < m ==> case_known(arms@, domain, scrutinee_type@, *self, #[trigger] cs[j]));
            let f = choose|f: int| 0 <= f < cs.len() && !case_known(arms@, domain, scrutinee_type@, *self, #[trigger] cs[f])
                && forall|j: int| 0 <= j < f ==> case_known(arms@, domain, scrutinee_type@, *self, #[trigger] cs[j]);
            if f < m { assert(case_known(arms@, domain, scrutinee_type@, *self, cs[f])); }
            if m < f { assert(case_known(arms@, domain, scrutinee_type@, *self, cs[m])); }
            assert(first_missing(cs, arms@, domain, scrutinee_type@, *self) == Some(m));
            assert(missing_case@ == cs[m]);
            assert(non_exhaustive_case(arms@, scrutinee_type@, start) == Some(missing_case@));
        }
        let rendered = render_type(scrutinee_type);
        let mut message = string_of("match is missing case ");
        message.append(missing_case.as_str());
        let mut b = ObjectBuilder::new();
        b.push_str("phase", "type");
        b.push_string("node_id", expr.node_id.display("match"));
        b.push_string("scrutinee_type", rendered.clone());
        b.push_string("missing_case", missing_case.clone());
        b.push_str("constraint", "match_exhaustiveness");
        let details = b.finish();
        let ghost mc = missing_case@;
        assert(details@ =~= non_exhaustive_details(*expr, scrutinee_type@, mc)) by {
            assert(details@->Object_0 =~= non_exhaustive_details(*expr, scrutinee_type@, mc)->Object_0);
        }
        let mut diagnostic = Diagnostic::new("type.match_non_exhaustive", Severity::Error, DiagnosticKind::Type, message, Some(expr.span.copy()), details);
        let mut note_message = string_of("Scrutinee has type `");
        note_message.append(rendered.as_str());
        note_message.append("`.");
        let mut n = ObjectBuilder::new();
        n.push_str("kind", "scrutinee_type");
        n.push_string("message", note_message);
        n.push("span", span_json(&scrutinee.span));
        diagnostic.related.push(n.finish());
        let mut p: usize = 0;
        while p < proving_arms.len()
            invariant
                0 <= p <= proving_arms@.len(),
                diagnostic.id@ == "type.match_non_exhaustive"@,
                crate::diag::opt_span_view(diagnostic.span) == Some(expr.span@),
                diagnostic.severity == Severity::Error,
                diagnostic.kind == DiagnosticKind::Type,
                diagnostic.message@ == "match is missing case "@ + mc,
                diagnostic.details@ == non_exhaustive_details(*expr, scrutinee_type@, mc),
            decreases proving_arms.len() - p,
        {
            let mut m = string_of("This arm covers ");
            m.append(proving_arms[p].0.as_str());
            m.append(".");
            let mut o = ObjectBuilder::new();
            o.push_str("kind", "covered_case");
            o.push_string("message", m);
            o.push("span", span_json(&proving_arms[p].1));
            diagnostic.related.push(o.finish());
            p += 1;
        }
        self.push_diagnostic(diagnostic);
        proof { crate::patterns::lemma_grew_push(start, *self); }
    }
}

} // verus!
