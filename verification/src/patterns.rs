use vstd::prelude::*;

use crate::ast::{MatchArm, Pattern, PatternKind, Expr};
use crate::body_diagnostics::{note, sfield};
use crate::checker::{FunctionChecker, PatternBinding, same_but_diagnostics};
use crate::diag::{Diagnostic, DiagnosticKind, Severity, SourceSpan, jsons, node_display, span_json};
use crate::env::{AdtRegistry, ConstructorLookup, TypeEnvironment, descriptor_choice, opt_str, variant_choice};
use crate::json::{JsonV, ObjectBuilder};
use crate::names::{initial_uppercase_qualified_constructor_name, invalid_qualified_constructor_pattern, spec_invalid_qualified_constructor};
use crate::render::{render, render_type};
use crate::semantic::{diag_is, pushed_one, type_details};
use crate::text::{contains_str, str_eq, string_of};
use crate::types::{Type, TypeV, named0};

verus! {

/// The kinds of scrutinee whose cases a `match` can enumerate.
#[derive(Clone, Copy, PartialEq, Eq, Structural)]
pub enum MatchDomain {
    Bool,
    Adt,
}

/// The module a function belongs to, as a string slice.
pub fn module_of(name: &Option<String>) -> (r: Option<&str>)
    ensures
        opt_str(r) == (match name { Some(s) => Some(s@), None => None }),
{
    match name {
        Some(s) => Some(s.as_str()),
        None => None,
    }
}

impl MatchDomain {
    /// `Bool`, or a declared algebraic data type.
    pub fn from_type(ty: &Type, environment: &TypeEnvironment, current_module: Option<&str>) -> (r: Option<MatchDomain>)
        ensures
            ty@ == named0("Bool"@) ==> r == Some(MatchDomain::Bool),
            ty@ != named0("Bool"@) ==> (r == Some(MatchDomain::Adt) <==> descriptor_choice(environment.adts.descriptors@, ty@, opt_str(current_module)) is Some),
            ty@ != named0("Bool"@) ==> r != Some(MatchDomain::Bool),
    {
        if ty.is_named0("Bool") {
            return Some(MatchDomain::Bool);
        }
        match environment.adts.descriptor_for_type_prefer_module(ty, current_module) {
            Some(_) => Some(MatchDomain::Adt),
            None => None,
        }
    }

    /// The cases a `match` over this domain must cover.
    pub fn cases(self, ty: &Type, environment: &TypeEnvironment, current_module: Option<&str>) -> (r: Vec<String>)
        ensures
            self == MatchDomain::Bool ==> r.deep_view() == seq!["false"@, "true"@],
            self == MatchDomain::Adt ==> match descriptor_choice(environment.adts.descriptors@, ty@, opt_str(current_module)) {
                Some(k) => r.deep_view() == Seq::new(environment.adts.descriptors@[k].variants@.len(), |i: int| environment.adts.descriptors@[k].variants@[i].coverage_case@),
                None => r.deep_view() == Seq::<Seq<char>>::empty(),
            },
    {
        let mut out: Vec<String> = Vec::new();
        match self {
            MatchDomain::Bool => {
                out.push(string_of("false"));
                out.push(string_of("true"));
                assert(out.deep_view() =~= seq!["false"@, "true"@]);
            },
            MatchDomain::Adt => {
                match environment.adts.descriptor_for_type_prefer_module(ty, current_module) {
                    Some(k) => {
                        let variants = &environment.adts.descriptors[k].variants;
                        let mut i: usize = 0;
                        while i < variants.len()
                            invariant
                                0 <= i <= variants@.len(),
                                out.deep_view() == Seq::new(i as nat, |j: int| variants@[j].coverage_case@),
                            decreases variants.len() - i,
                        {
                            let ghost prev = out.deep_view();
                            out.push(variants[i].coverage_case.clone());
                            assert(out.deep_view() =~= prev.push(variants@[i as int].coverage_case@));
                            assert(out.deep_view() =~= Seq::new((i + 1) as nat, |j: int| variants@[j].coverage_case@));
                            i += 1;
                        }
                    },
                    None => {
                        assert(out.deep_view() =~= Seq::<Seq<char>>::empty());
                    },
                }
            },
        }
        out
    }
}

/// What one `match` arm's pattern covers: everything, or the listed cases.
pub struct PatternCoverage {
    pub catches_all: bool,
    pub cases: Vec<String>,
}

/// The case a constructor pattern covers in an algebraic data type domain.
pub open spec fn constructor_case(name: Seq<Seq<char>>, ty: TypeV, env: TypeEnvironment, module: Option<Seq<char>>) -> Option<Seq<char>> {
    match descriptor_choice(env.adts.descriptors@, ty, module) {
        Some(k) => match variant_choice(name, env.adts.descriptors@[k]) {
            Some(v) => Some(env.adts.descriptors@[k].variants@[v].coverage_case@),
            None => None,
        },
        None => None,
    }
}

/// The coverage of one arm's pattern: wildcards and bindings cover everything; a
/// boolean literal covers its case in the `Bool` domain; a constructor with a valid
/// path covers its variant's case in an algebraic data type domain.
pub open spec fn spec_coverage(p: Pattern, domain: MatchDomain, ty: TypeV, env: TypeEnvironment, module: Option<Seq<char>>) -> (bool, Seq<Seq<char>>) {
    match p.kind {
        PatternKind::Wildcard | PatternKind::Binding(_) => (true, Seq::empty()),
        PatternKind::BoolLiteral(b) => if domain == MatchDomain::Bool {
            (false, seq![if b { "true"@ } else { "false"@ }])
        } else {
            (false, Seq::empty())
        },
        PatternKind::Constructor { name, .. } => if spec_invalid_qualified_constructor(name.deep_view()) || domain == MatchDomain::Bool {
            (false, Seq::empty())
        } else {
            match constructor_case(name.deep_view(), ty, env, module) {
                Some(c) => (false, seq![c]),
                None => (false, Seq::empty()),
            }
        },
        _ => (false, Seq::empty()),
    }
}

/// The case a constructor pattern names in the scrutinee's type, if any.
fn constructor_case_of(name: &Vec<String>, scrutinee_type: &Type, environment: &TypeEnvironment, current_module: Option<&str>) -> (r: Option<String>)
    ensures
        match r {
            Some(c) => constructor_case(name.deep_view(), scrutinee_type@, *environment, opt_str(current_module)) == Some(c@),
            None => constructor_case(name.deep_view(), scrutinee_type@, *environment, opt_str(current_module)) is None,
        },
{
    match environment.adts.descriptor_for_type_prefer_module(scrutinee_type, current_module) {
        Some(k) => match environment.adts.constructor_for_descriptor(name.as_slice(), k) {
            Some(v) => Some(environment.adts.descriptors[k].variants[v].coverage_case.clone()),
            None => None,
        },
        None => None,
    }
}

/// What a `match` arm's pattern covers.
pub fn match_pattern_coverage(pattern: &Pattern, domain: &MatchDomain, scrutinee_type: &Type, environment: &TypeEnvironment, current_module: Option<&str>) -> (r: PatternCoverage)
    ensures
        (r.catches_all, r.cases.deep_view()) == spec_coverage(*pattern, *domain, scrutinee_type@, *environment, opt_str(current_module)),
{
    let mut cases: Vec<String> = Vec::new();
    match &pattern.kind {
        PatternKind::Wildcard | PatternKind::Binding(_) => {
            assert(cases.deep_view() =~= Seq::<Seq<char>>::empty());
            PatternCoverage { catches_all: true, cases }
        },
        PatternKind::BoolLiteral(value) => {
            if *domain == MatchDomain::Bool {
                cases.push(string_of(if *value { "true" } else { "false" }));
                assert(cases.deep_view() =~= seq![if *value { "true"@ } else { "false"@ }]);
            } else {
                assert(cases.deep_view() =~= Seq::<Seq<char>>::empty());
            }
            PatternCoverage { catches_all: false, cases }
        },
        PatternKind::Constructor { name, .. } => {
            if invalid_qualified_constructor_pattern(name.as_slice()) || *domain == MatchDomain::Bool {
                assert(cases.deep_view() =~= Seq::<Seq<char>>::empty());
                return PatternCoverage { catches_all: false, cases };
            }
            match constructor_case_of(name, scrutinee_type, environment, current_module) {
                Some(c) => {
                    cases.push(c);
                    assert(cases.deep_view() =~= seq![c@]);
                },
                None => {
                    assert(cases.deep_view() =~= Seq::<Seq<char>>::empty());
                },
            }
            PatternCoverage { catches_all: false, cases }
        },
        _ => {
            assert(cases.deep_view() =~= Seq::<Seq<char>>::empty());
            PatternCoverage { catches_all: false, cases }
        },
    }
}

/// The case a lowercase-leaf qualified constructor pattern would cover once its leaf's
/// first letter is raised to uppercase, when that recovered constructor exists.
pub fn invalid_qualified_constructor_recovery_cases(pattern: &Pattern, domain: &MatchDomain, scrutinee_type: &Type, environment: &TypeEnvironment, current_module: Option<&str>) -> (r: Vec<String>)
    ensures
        r@.len() <= 1,
        r@.len() == 1 ==> pattern.kind is Constructor && *domain == MatchDomain::Adt
            && spec_invalid_qualified_constructor(pattern.kind->Constructor_name.deep_view()),
        match recovery_case(*pattern, *domain, scrutinee_type@, *environment) {
            Some(c) => r.deep_view() == seq![c],
            None => r@.len() == 0,
        },
{
    let mut out: Vec<String> = Vec::new();
    let name = match &pattern.kind {
        PatternKind::Constructor { name, .. } => name,
        _ => return out,
    };
    if !invalid_qualified_constructor_pattern(name.as_slice()) {
        return out;
    }
    if *domain != MatchDomain::Adt {
        return out;
    }
    let k = match environment.adts.descriptor_for_type(scrutinee_type) {
        Some(k) => k,
        None => return out,
    };
    let recovered = match initial_uppercase_qualified_constructor_name(name.as_slice()) {
        Some(r) => r,
        None => return out,
    };
    proof {
        let ds = environment.adts.descriptors@;
        let c = choose|c: int| 0 <= c < ds.len() && Some((#[trigger] ds[c]).name@) == crate::env::named_type_name(scrutinee_type@)
            && forall|j: int| 0 <= j < c ==> Some((#[trigger] ds[j]).name@) != crate::env::named_type_name(scrutinee_type@);
        if c < k { assert(Some(ds[c].name@) != crate::env::named_type_name(scrutinee_type@)); }
        if k < c { assert(Some(ds[k as int].name@) != crate::env::named_type_name(scrutinee_type@)); }
        assert(first_descriptor_named(ds, scrutinee_type@) == Some(k as int));
    }
    match environment.adts.constructor_for_descriptor(recovered.as_slice(), k) {
        Some(v) => {
            out.push(environment.adts.descriptors[k].variants[v].coverage_case.clone());
            assert(out.deep_view() =~= seq![environment.adts.descriptors@[k as int].variants@[v as int].coverage_case@]);
        },
        None => {},
    }
    out
}

/// The first declared type named like `ty`.
pub open spec fn first_descriptor_named(ds: Seq<crate::env::AdtDescriptor>, ty: TypeV) -> Option<int> {
    if exists|k: int| 0 <= k < ds.len() && Some((#[trigger] ds[k]).name@) == crate::env::named_type_name(ty) {
        Some(choose|c: int| 0 <= c < ds.len() && Some((#[trigger] ds[c]).name@) == crate::env::named_type_name(ty)
            && forall|j: int| 0 <= j < c ==> Some((#[trigger] ds[j]).name@) != crate::env::named_type_name(ty))
    } else {
        None
    }
}

/// The case a constructor pattern with a lowercase leaf is taken to cover: over a
/// declared type, the case of the variant its capitalized path names.
pub open spec fn recovery_case(p: Pattern, d: MatchDomain, ty: TypeV, env: TypeEnvironment) -> Option<Seq<char>> {
    match p.kind {
        PatternKind::Constructor { name, .. } => if spec_invalid_qualified_constructor(name.deep_view()) && d == MatchDomain::Adt {
            match first_descriptor_named(env.adts.descriptors@, ty) {
                Some(k) => match crate::names::spec_initial_uppercase(name.deep_view()) {
                    Some(rec) => match variant_choice(rec, env.adts.descriptors@[k]) {
                        Some(v) => Some(env.adts.descriptors@[k].variants@[v].coverage_case@),
                        None => None,
                    },
                    None => None,
                },
                None => None,
            }
        } else {
            None
        },
        _ => None,
    }
}

} // verus!

verus! {

/// The names a pattern binds, in order. With `recover`, a bare constructor-like name
/// with no arguments that is not a valid value name and resolves to no constructor
/// binds that name.
pub open spec fn bound_names(p: Pattern, recover: bool, adts: AdtRegistry) -> Seq<Seq<char>>
    decreases p, 0nat,
{
    match p.kind {
        PatternKind::Binding(n) => seq![n@],
        PatternKind::Record(fields) => {
            proof {
                assert(decreases_to!(fields => fields@));
            }
            field_names(fields@, fields@.len(), recover, adts)
        },
        PatternKind::Constructor { name, args } => {
            proof {
                assert(decreases_to!(args => args@));
            }
            if !spec_invalid_qualified_constructor(name.deep_view()) && recover && name@.len() == 1 && args@.len() == 0
                && !crate::names::starts_lower(name@[0]@)
                && crate::env::constructor_matches(adts.descriptors@, name.deep_view(), adts.descriptors@.len() as int) == 0 {
                seq![name@[0]@]
            } else {
                arg_names(args@, args@.len(), adts)
            }
        },
        _ => Seq::empty(),
    }
}

/// The names bound by the first `n` record pattern fields.
pub open spec fn field_names(fs: Seq<crate::ast::RecordPatternField>, n: nat, recover: bool, adts: AdtRegistry) -> Seq<Seq<char>>
    decreases fs, n,
{
    if n == 0 || n > fs.len() {
        Seq::empty()
    } else {
        proof {
            assert(decreases_to!(fs => fs[n - 1]));
            assert(decreases_to!(fs[n - 1] => fs[n - 1].pattern));
        }
        field_names(fs, (n - 1) as nat, recover, adts) + bound_names(fs[n - 1].pattern, recover, adts)
    }
}

/// The names bound by the first `n` constructor argument patterns.
pub open spec fn arg_names(args: Seq<Pattern>, n: nat, adts: AdtRegistry) -> Seq<Seq<char>>
    decreases args, n,
{
    if n == 0 || n > args.len() {
        Seq::empty()
    } else {
        proof {
            assert(decreases_to!(args => args[n - 1]));
        }
        arg_names(args, (n - 1) as nat, adts) + bound_names(args[n - 1], false, adts)
    }
}

/// The names of pattern bindings.
pub open spec fn binding_names(bs: Seq<PatternBinding>) -> Seq<Seq<char>> {
    Seq::new(bs.len(), |i: int| bs[i].name@)
}

/// `new` keeps `old` as its prefix and adds only diagnostics.
pub open spec fn grew(old: FunctionChecker, new: FunctionChecker) -> bool {
    &&& same_but_diagnostics(old, new)
    &&& new.diagnostics@.len() >= old.diagnostics@.len()
    &&& new.diagnostics@.take(old.diagnostics@.len() as int) == old.diagnostics@
}

pub proof fn lemma_grew_trans(a: FunctionChecker, b: FunctionChecker, c: FunctionChecker)
    requires
        grew(a, b),
        grew(b, c),
    ensures
        grew(a, c),
{
    assert(c.diagnostics@.take(a.diagnostics@.len() as int) =~= a.diagnostics@) by {
        assert(c.diagnostics@.take(b.diagnostics@.len() as int) == b.diagnostics@);
        assert(b.diagnostics@.take(a.diagnostics@.len() as int) == a.diagnostics@);
    }
}

pub proof fn lemma_grew_push(a: FunctionChecker, b: FunctionChecker)
    requires
        same_but_diagnostics(a, b),
        pushed_one(a.diagnostics@, b.diagnostics@),
    ensures
        grew(a, b),
{
}

proof fn lemma_grew_refl(a: FunctionChecker)
    ensures
        grew(a, a),
{
    assert(a.diagnostics@.take(a.diagnostics@.len() as int) =~= a.diagnostics@);
}

/// Appends `extra` to `out`.
fn append_bindings(out: &mut Vec<PatternBinding>, extra: Vec<PatternBinding>)
    ensures
        binding_names(final(out)@) == binding_names(old(out)@) + binding_names(extra@),
{
    let ghost a = out@;
    let ghost b = extra@;
    let mut extra = extra;
    out.append(&mut extra);
    assert(out@ =~= a + b);
    assert(binding_names(out@) =~= binding_names(a) + binding_names(b));
}

} // verus!

verus! {

impl Type {
    /// The type of the record field `name`, for a record type.
    pub fn record_field(&self, name: &str) -> (r: Option<&Type>)
        ensures
            r matches Some(t) ==> self@ is Record && exists|k: int| 0 <= k < self@->Record_0.len() && (#[trigger] self@->Record_0[k]).0 == name@ && self@->Record_0[k].1 == t@,
            r is None ==> !(self@ is Record && exists|k: int| 0 <= k < self@->Record_0.len() && (#[trigger] self@->Record_0[k]).0 == name@),
            match r {
                Some(t) => crate::types::record_field_type(self@, name@) == Some(t@),
                None => crate::types::record_field_type(self@, name@) is None,
            },
    {
        match self {
            Type::Record(fields) => {
                proof { crate::types::lemma_record_view(*fields); }
                let mut i: usize = 0;
                while i < fields.len()
                    invariant
                        0 <= i <= fields@.len(),
                        forall|j: int| 0 <= j < i ==> (#[trigger] fields@[j]).0@ != name@,
                    decreases fields.len() - i,
                {
                    if str_eq(fields[i].0.as_str(), name) {
                        assert(self@->Record_0[i as int] == (fields@[i as int].0@, fields@[i as int].1@));
                        proof {
                            let fv = self@->Record_0;
                            let c = choose|k: int| 0 <= k < fv.len() && (#[trigger] fv[k]).0 == name@
                                && forall|j: int| 0 <= j < k ==> (#[trigger] fv[j]).0 != name@;
                            assert forall|j: int| 0 <= j < i implies (#[trigger] fv[j]).0 != name@ by {
                                assert(fv[j] == (fields@[j].0@, fields@[j].1@));
                            }
                            if c < i { assert(fv[c].0 != name@); }
                            if i < c { assert(fv[i as int].0 != name@); }
                        }
                        return Some(&fields[i].1);
                    }
                    i += 1;
                }
                proof {
                    if exists|k: int| 0 <= k < self@->Record_0.len() && (#[trigger] self@->Record_0[k]).0 == name@ {
                        let k = choose|k: int| 0 <= k < self@->Record_0.len() && (#[trigger] self@->Record_0[k]).0 == name@;
                        assert(fields@[k].0@ == name@);
                    }
                }
                None
            },
            _ => {
                proof { crate::relations::lemma_kind_facts(self); }
                None
            },
        }
    }
}

/// The position of the first type parameter named `name`.
pub open spec fn param_position(ps: Seq<String>, name: Seq<char>) -> Option<int> {
    if exists|j: int| 0 <= j < ps.len() && (#[trigger] ps[j])@ == name {
        Some(choose|j: int| 0 <= j < ps.len() && (#[trigger] ps[j])@ == name && forall|k: int| 0 <= k < j ==> (#[trigger] ps[k])@ != name)
    } else {
        None
    }
}

/// The model of a constructor payload's type: unknown past the variant's fields; a
/// field naming the type's parameter at position `j` (with no arguments) becomes the
/// scrutinee's `j`-th type argument, or unknown when it has none; any other field
/// stays as declared.
pub open spec fn payload_type_view(scrutinee: TypeV, d: crate::env::AdtDescriptor, variant: int, index: int) -> TypeV {
    let fields = d.variants@[variant].fields@;
    if index >= fields.len() {
        TypeV::Unknown
    } else {
        let field = fields[index]@;
        match field {
            TypeV::Named { name, args } => if args.len() == 0 {
                match param_position(d.type_parameters@, name) {
                    Some(j) => match scrutinee {
                        TypeV::Named { args: actual, .. } => if j < actual.len() { actual[j] } else { TypeV::Unknown },
                        _ => TypeV::Unknown,
                    },
                    None => field,
                }
            } else {
                field
            },
            _ => field,
        }
    }
}

/// The type of a constructor's payload at `index`: the variant's field type, with a
/// field that is one of the type's parameters replaced by the scrutinee's argument.
pub fn payload_type(scrutinee_type: &Type, adts: &AdtRegistry, descriptor: usize, variant: usize, index: usize) -> (r: Type)
    requires
        descriptor < adts.descriptors@.len(),
        variant < adts.descriptors@[descriptor as int].variants@.len(),
    ensures
        r@ == payload_type_view(scrutinee_type@, adts.descriptors@[descriptor as int], variant as int, index as int),
{
    let d = &adts.descriptors[descriptor];
    let fields = &d.variants[variant].fields;
    if index >= fields.len() {
        return Type::Unknown;
    }
    let field = &fields[index];
    match field {
        Type::Named { name, args } => {
            if args.len() == 0 {
                let mut j: usize = 0;
                while j < d.type_parameters.len()
                    invariant
                        0 <= j <= d.type_parameters@.len(),
                        forall|k: int| 0 <= k < j ==> (#[trigger] d.type_parameters@[k])@ != name@,
                    decreases d.type_parameters.len() - j,
                {
                    if str_eq(d.type_parameters[j].as_str(), name.as_str()) {
                        proof {
                            let ps = d.type_parameters@;
                            let c = choose|c: int| 0 <= c < ps.len() && (#[trigger] ps[c])@ == name@ && forall|k: int| 0 <= k < c ==> (#[trigger] ps[k])@ != name@;
                            if c < j { assert(ps[c]@ != name@); }
                            if j < c { assert(ps[j as int]@ != name@); }
                            assert(param_position(ps, name@) == Some(j as int));
                        }
                        match scrutinee_type {
                            Type::Named { args: actual_args, .. } => {
                                if j < actual_args.len() {
                                    return actual_args[j].copy();
                                }
                            },
                            _ => {},
                        }
                        return Type::Unknown;
                    }
                    j += 1;
                }
            }
            field.copy()
        },
        _ => field.copy(),
    }
}

/// The type a declared type's values have, its parameters unknown.
pub open spec fn descriptor_type(d: crate::env::AdtDescriptor) -> TypeV {
    TypeV::Named { name: d.name@, args: Seq::new(d.type_parameters@.len(), |i: int| TypeV::Unknown) }
}

/// The one declared type with a variant the path names, when exactly one has.
pub open spec fn lone_declaring_type(ds: Seq<crate::env::AdtDescriptor>, path: Seq<Seq<char>>) -> Option<int> {
    if crate::env::constructor_matches(ds, path, ds.len() as int) == 1 {
        Some(choose|d: int| 0 <= d < ds.len() && crate::env::variant_choice(path, ds[d]) is Some)
    } else {
        None
    }
}

proof fn lemma_matches_unique(ds: Seq<crate::env::AdtDescriptor>, path: Seq<Seq<char>>, n: int, a: int, b: int)
    requires
        0 <= n <= ds.len(),
        0 <= a < n,
        0 <= b < n,
        crate::env::variant_choice(path, ds[a]) is Some,
        crate::env::variant_choice(path, ds[b]) is Some,
        crate::env::constructor_matches(ds, path, n) <= 1,
    ensures
        a == b,
    decreases n,
{
    lemma_matches_nonneg(ds, path, n - 1);
    if a != b {
        if a == n - 1 || b == n - 1 {
            let other = if a == n - 1 { b } else { a };
            lemma_matches_counts(ds, path, n - 1, other);
        } else {
            lemma_matches_unique(ds, path, n - 1, a, b);
        }
    }
}

proof fn lemma_matches_nonneg(ds: Seq<crate::env::AdtDescriptor>, path: Seq<Seq<char>>, n: int)
    requires
        0 <= n <= ds.len(),
    ensures
        crate::env::constructor_matches(ds, path, n) >= 0,
{
}

proof fn lemma_matches_counts(ds: Seq<crate::env::AdtDescriptor>, path: Seq<Seq<char>>, n: int, a: int)
    requires
        0 <= a < n <= ds.len(),
        crate::env::variant_choice(path, ds[a]) is Some,
    ensures
        crate::env::constructor_matches(ds, path, n) >= 1,
    decreases n,
{
    if a < n - 1 {
        lemma_matches_counts(ds, path, n - 1, a);
    }
}

proof fn lemma_lone_declaring_type(ds: Seq<crate::env::AdtDescriptor>, path: Seq<Seq<char>>, d: int)
    requires
        0 <= d < ds.len(),
        crate::env::variant_choice(path, ds[d]) is Some,
        crate::env::constructor_matches(ds, path, ds.len() as int) == 1,
    ensures
        lone_declaring_type(ds, path) == Some(d),
{
    let c = choose|c: int| 0 <= c < ds.len() && crate::env::variant_choice(path, ds[c]) is Some;
    lemma_matches_unique(ds, path, ds.len() as int, c, d);
}

/// When a constructor pattern with a lowercase leaf draws a type mismatch, the declared
/// type of the recovered constructor: the scrutinee's type is a declared type, the
/// path with its leaf capitalized names no variant of it, and exactly one declared
/// type has a variant of that name.
pub open spec fn invalid_qualified_mismatch(c: FunctionChecker, name: Seq<Seq<char>>, scrutinee: TypeV) -> Option<int> {
    let ds = c.environment.adts.descriptors@;
    match crate::env::descriptor_choice(ds, scrutinee, crate::infer::opt_module(c.function.module_name)) {
        Some(k) => match crate::names::spec_initial_uppercase(name) {
            Some(recovered) => if crate::env::variant_choice(recovered, ds[k]) is Some {
                None
            } else {
                lone_declaring_type(ds, recovered)
            },
            None => None,
        },
        None => None,
    }
}

impl<'a> FunctionChecker<'a> {
    /// Whether a constructor path resolves to one or more declared constructors.
    pub fn constructor_pattern_resolves(&self, name: &[String]) -> (r: bool)
        ensures
            r == (crate::env::constructor_matches(self.environment.adts.descriptors@, name.deep_view(), self.environment.adts.descriptors@.len() as int) > 0),
    {
        match self.environment.adts.constructor(name) {
            ConstructorLookup::Found(_, _) | ConstructorLookup::Ambiguous => true,
            ConstructorLookup::Missing => false,
        }
    }

    /// Reports a constructor pattern whose type is not the scrutinee's type.
    pub fn report_constructor_type_mismatch(&mut self, pattern: &Pattern, scrutinee_type: &Type, descriptor: usize)
        requires
            descriptor < old(self).environment.adts.descriptors@.len(),
        ensures
            same_but_diagnostics(*old(self), *final(self)),
            pushed_one(old(self).diagnostics@, final(self).diagnostics@),
            final(self).diagnostics@.last().id@ == "type.mismatch"@,
            final(self).diagnostics@.last().span matches Some(s) && s@ == pattern.span@,
            diag_is(final(self).diagnostics@.last(), "type.mismatch"@, DiagnosticKind::Type,
                "expected `"@ + render(scrutinee_type@) + "`, but found `"@
                    + render(descriptor_type(old(self).environment.adts.descriptors@[descriptor as int])) + "`"@,
                Some(pattern.span@),
                crate::semantic::type_details_view(node_display(pattern.node_id.index, "pattern"@), render(scrutinee_type@),
                    render(descriptor_type(old(self).environment.adts.descriptors@[descriptor as int])),
                    "inferred_expression"@, "constructor_pattern"@, "constructor_pattern"@,
                    seq![node_display(old(self).function.node_id.index, "fn"@), node_display(pattern.node_id.index, "pattern"@)]),
                Seq::empty()),
    {
        let d = &self.environment.adts.descriptors[descriptor];
        let mut args: Vec<Type> = Vec::new();
        let mut i: usize = 0;
        while i < d.type_parameters.len()
            invariant
                0 <= i <= d.type_parameters@.len(),
                args@.len() == i,
                forall|k: int| 0 <= k < i ==> args@[k] == Type::Unknown,
            decreases d.type_parameters.len() - i,
        {
            args.push(Type::Unknown);
            i += 1;
        }
        let ghost av = args@;
        let actual = Type::Named { name: d.name.clone(), args };
        proof {
            reveal_with_fuel(crate::types::type_view, 2);
            assert(actual == Type::Named { name: d.name, args: actual->Named_args });
            assert(actual->Named_args@ == av);
            assert forall|k: int| 0 <= k < av.len() implies crate::types::type_view(av[k]) == TypeV::Unknown by {
                assert(av[k] == Type::Unknown);
            }
            assert(actual@->Named_args =~= descriptor_type(*d)->Named_args);
            assert(actual@ == descriptor_type(*d));
        }
        let e = render_type(scrutinee_type);
        let a = render_type(&actual);
        let mut message = string_of("expected `");
        message.append(e.as_str());
        message.append("`, but found `");
        message.append(a.as_str());
        message.append("`");
        let mut related: Vec<String> = Vec::new();
        related.push(self.function.node_id.display("fn"));
        related.push(pattern.node_id.display("pattern"));
        assert(related.deep_view() =~= seq![node_display(self.function.node_id.index, "fn"@), node_display(pattern.node_id.index, "pattern"@)]);
        let details = type_details(pattern.node_id.display("pattern"), e.as_str(), a.as_str(), "inferred_expression", "constructor_pattern", "constructor_pattern", related);
        let diag = Diagnostic::new("type.mismatch", Severity::Error, DiagnosticKind::Type, message, Some(pattern.span.copy()), details);
        assert(jsons(diag.related@) =~= Seq::<JsonV>::empty());
        self.push_diagnostic(diag);
    }

    /// Reports a constructor pattern that names a constructor of another type.
    pub fn report_constructor_pattern_mismatch(&mut self, pattern: &Pattern, name: &[String], scrutinee_type: &Type)
        ensures
            same_but_diagnostics(*old(self), *final(self)),
            ({
                let n = crate::env::constructor_matches(old(self).environment.adts.descriptors@, name.deep_view(), old(self).environment.adts.descriptors@.len() as int);
                &&& n != 1 ==> final(self).diagnostics == old(self).diagnostics
                &&& n == 1 ==> pushed_one(old(self).diagnostics@, final(self).diagnostics@) && final(self).diagnostics@.last().id@ == "type.mismatch"@
            }),
    {
        match self.environment.adts.constructor(name) {
            ConstructorLookup::Found(d, _) => {
                self.report_constructor_type_mismatch(pattern, scrutinee_type, d);
            },
            _ => {},
        }
    }

    /// For a constructor pattern with a lowercase leaf, reports a type mismatch when the
    /// recovered (uppercase) constructor is not a variant of the scrutinee's type but is
    /// declared elsewhere.
    pub fn report_invalid_qualified_constructor_pattern_mismatch(&mut self, pattern: &Pattern, name: &[String], scrutinee_type: &Type)
        ensures
            same_but_diagnostics(*old(self), *final(self)),
            match invalid_qualified_mismatch(*old(self), name.deep_view(), scrutinee_type@) {
                Some(d) => pushed_one(old(self).diagnostics@, final(self).diagnostics@)
                    && diag_is(final(self).diagnostics@.last(), "type.mismatch"@, DiagnosticKind::Type,
                        "expected `"@ + render(scrutinee_type@) + "`, but found `"@
                            + render(descriptor_type(old(self).environment.adts.descriptors@[d])) + "`"@,
                        Some(pattern.span@),
                        crate::semantic::type_details_view(node_display(pattern.node_id.index, "pattern"@), render(scrutinee_type@),
                            render(descriptor_type(old(self).environment.adts.descriptors@[d])),
                            "inferred_expression"@, "constructor_pattern"@, "constructor_pattern"@,
                            seq![node_display(old(self).function.node_id.index, "fn"@), node_display(pattern.node_id.index, "pattern"@)]),
                        Seq::empty()),
                None => final(self).diagnostics == old(self).diagnostics,
            },
    {
        let module = module_of(&self.function.module_name);
        let k = match self.environment.adts.descriptor_for_type_prefer_module(scrutinee_type, module) {
            Some(k) => k,
            None => return,
        };
        let recovered = match initial_uppercase_qualified_constructor_name(name) {
            Some(r) => r,
            None => return,
        };
        if self.environment.adts.constructor_for_descriptor(recovered.as_slice(), k).is_some() {
            return;
        }
        match self.environment.adts.constructor(recovered.as_slice()) {
            ConstructorLookup::Found(d, _) => {
                proof {
                    let ds = self.environment.adts.descriptors@;
                    let rec = recovered.deep_view();
                    assert(lone_declaring_type(ds, rec) == Some(d as int)) by {
                        lemma_lone_declaring_type(ds, rec, d as int);
                    }
                }
                self.report_constructor_type_mismatch(pattern, scrutinee_type, d);
            },
            _ => {},
        }
    }

    /// The type of a record pattern field; a field the scrutinee's record type lacks is
    /// reported (unless the scrutinee's type is unknown) and has an unknown type.
    pub fn record_pattern_field_type(&mut self, pattern: &Pattern, field: &crate::ast::RecordPatternField, scrutinee_type: &Type) -> (r: Type)
        ensures
            same_but_diagnostics(*old(self), *final(self)),
            ({
                let present = scrutinee_type@ is Record && exists|k: int| 0 <= k < scrutinee_type@->Record_0.len() && (#[trigger] scrutinee_type@->Record_0[k]).0 == field.name@;
                &&& present ==> final(self).diagnostics == old(self).diagnostics
                    && exists|k: int| 0 <= k < scrutinee_type@->Record_0.len() && (#[trigger] scrutinee_type@->Record_0[k]).0 == field.name@ && scrutinee_type@->Record_0[k].1 == r@
                &&& !present ==> r@ == TypeV::Unknown
                &&& !present && scrutinee_type@ != TypeV::Unknown ==> pushed_one(old(self).diagnostics@, final(self).diagnostics@)
                    && final(self).diagnostics@.last().id@ == "type.field_missing"@
                    && final(self).diagnostics@.last().message@ == "type `"@ + render(scrutinee_type@) + "` has no field `"@ + field.name@ + "`"@
                &&& !present && scrutinee_type@ == TypeV::Unknown ==> final(self).diagnostics == old(self).diagnostics
            }),
    {
        match scrutinee_type.record_field(field.name.as_str()) {
            Some(t) => return t.copy(),
            None => {},
        }
        if !scrutinee_type.is_unknown() {
            let rendered = render_type(scrutinee_type);
            let mut message = string_of("type `");
            message.append(rendered.as_str());
            message.append("` has no field `");
            message.append(field.name.as_str());
            message.append("`");
            let mut expected = string_of("record field `");
            expected.append(field.name.as_str());
            expected.append("`");
            let mut related: Vec<String> = Vec::new();
            related.push(self.function.node_id.display("fn"));
            related.push(pattern.node_id.display("pattern"));
            let details = type_details(field.node_id.display("field"), expected.as_str(), rendered.as_str(), "record_pattern", "inferred_expression", "record_pattern", related);
            let d = Diagnostic::new("type.field_missing", Severity::Error, DiagnosticKind::Type, message, Some(field.span.copy()), details);
            self.push_diagnostic(d);
        }
        Type::Unknown
    }
}

} // verus!

verus! {

impl<'a> FunctionChecker<'a> {
    /// The bindings of `patterns`, each matched against an unknown type.
    pub fn unknown_pattern_bindings(&mut self, owner: &Pattern, patterns: &Vec<Pattern>) -> (r: Vec<PatternBinding>)
        requires
            forall|i: int| 0 <= i < patterns@.len() ==> decreases_to!(*owner => #[trigger] patterns@[i]),
        ensures
            grew(*old(self), *final(self)),
            binding_names(r@) == arg_names(patterns@, patterns@.len(), old(self).environment.adts),
        decreases owner, 0nat,
    {
        let ghost start = *self;
        proof { lemma_grew_refl(*self); }
        let mut out: Vec<PatternBinding> = Vec::new();
        let mut i: usize = 0;
        assert(binding_names(out@) =~= Seq::<Seq<char>>::empty());
        while i < patterns.len()
            invariant
                0 <= i <= patterns@.len(),
                grew(start, *self),
                forall|k: int| 0 <= k < patterns@.len() ==> decreases_to!(*owner => #[trigger] patterns@[k]),
                binding_names(out@) == arg_names(patterns@, i as nat, start.environment.adts),
            decreases patterns.len() - i,
        {
            assert(decreases_to!(*owner => patterns@[i as int]));
            let ghost mid = *self;
            let unknown = Type::Unknown;
            let bs = self.pattern_bindings(&patterns[i], &unknown);
            proof { lemma_grew_trans(start, mid, *self); }
            append_bindings(&mut out, bs);
            assert(arg_names(patterns@, (i + 1) as nat, start.environment.adts) == arg_names(patterns@, i as nat, start.environment.adts) + bound_names(patterns@[i as int], false, start.environment.adts));
            i += 1;
        }
        out
    }

    /// The bindings a `match` arm pattern introduces.
    pub fn pattern_bindings(&mut self, pattern: &Pattern, scrutinee_type: &Type) -> (r: Vec<PatternBinding>)
        ensures
            grew(*old(self), *final(self)),
            binding_names(r@) == bound_names(*pattern, false, old(self).environment.adts),
        decreases pattern, 3nat,
    {
        self.pattern_bindings_with_recovery(pattern, scrutinee_type, false)
    }

    /// The bindings a `let` pattern introduces; a bare unknown constructor-like name binds.
    pub fn let_pattern_bindings(&mut self, pattern: &Pattern, scrutinee_type: &Type) -> (r: Vec<PatternBinding>)
        ensures
            grew(*old(self), *final(self)),
            binding_names(r@) == bound_names(*pattern, true, old(self).environment.adts),
            pattern.kind is Binding ==> r@.len() == 1 && r@[0].name@ == pattern.kind->Binding_0@ && r@[0].ty@ == scrutinee_type@
                && *final(self) == *old(self),
    {
        self.pattern_bindings_with_recovery(pattern, scrutinee_type, true)
    }

    /// The bindings a pattern introduces, typed against the scrutinee's type, reporting
    /// constructor and record-field mismatches on the way.
    pub fn pattern_bindings_with_recovery(&mut self, pattern: &Pattern, scrutinee_type: &Type, recover_unknown_bare_constructor: bool) -> (r: Vec<PatternBinding>)
        ensures
            grew(*old(self), *final(self)),
            binding_names(r@) == bound_names(*pattern, recover_unknown_bare_constructor, old(self).environment.adts),
            pattern.kind is Binding ==> r@.len() == 1 && r@[0].name@ == pattern.kind->Binding_0@ && r@[0].ty@ == scrutinee_type@
                && r@[0].node_id == pattern.node_id && r@[0].span@ == pattern.span@,
            !(pattern.kind is Record || pattern.kind is Constructor) ==> *final(self) == *old(self),
        decreases pattern, 2nat,
    {
        let ghost start = *self;
        proof { lemma_grew_refl(*self); }
        match &pattern.kind {
            PatternKind::Binding(name) => {
                let mut out: Vec<PatternBinding> = Vec::new();
                out.push(PatternBinding { name: name.clone(), ty: scrutinee_type.copy(), node_id: pattern.node_id, span: pattern.span.copy() });
                assert(binding_names(out@) =~= seq![name@]);
                out
            },
            PatternKind::Record(fields) => {
                self.record_pattern_bindings(pattern, fields, scrutinee_type, recover_unknown_bare_constructor)
            },
            PatternKind::Constructor { name, args } => {
                if invalid_qualified_constructor_pattern(name.as_slice()) {
                    self.report_invalid_qualified_constructor_pattern_mismatch(pattern, name.as_slice(), scrutinee_type);
                    let ghost mid = *self;
                    proof { lemma_grew_refl(mid); }
                    assert(grew(start, mid));
                    let r = self.unknown_pattern_bindings(pattern, args);
                    proof { lemma_grew_trans(start, mid, *self); }
                    return r;
                }
                if recover_unknown_bare_constructor && name.len() == 1 && args.len() == 0
                    && crate::names::invalid_value_binding_name(name[0].as_str()) && !self.constructor_pattern_resolves(name.as_slice()) {
                    let mut out: Vec<PatternBinding> = Vec::new();
                    out.push(PatternBinding { name: name[0].clone(), ty: scrutinee_type.copy(), node_id: pattern.node_id, span: pattern.span.copy() });
                    assert(binding_names(out@) =~= seq![name@[0]@]);
                    return out;
                }
                self.constructor_pattern_bindings(pattern, name, args, scrutinee_type)
            },
            _ => {
                let out: Vec<PatternBinding> = Vec::new();
                assert(binding_names(out@) =~= Seq::<Seq<char>>::empty());
                out
            },
        }
    }

    /// The bindings of a constructor pattern's arguments, typed by the variant's payload
    /// when the constructor belongs to the scrutinee's type, else reported and unknown.
    pub fn constructor_pattern_bindings(&mut self, pattern: &Pattern, name: &Vec<String>, args: &Vec<Pattern>, scrutinee_type: &Type) -> (r: Vec<PatternBinding>)
        requires
            forall|i: int| 0 <= i < args@.len() ==> decreases_to!(*pattern => #[trigger] args@[i]),
        ensures
            grew(*old(self), *final(self)),
            binding_names(r@) == arg_names(args@, args@.len(), old(self).environment.adts),
        decreases pattern, 1nat,
    {
        let ghost start = *self;
        proof { lemma_grew_refl(*self); }
        let module = module_of(&self.function.module_name);
        let k = match self.environment.adts.descriptor_for_type_prefer_module(scrutinee_type, module) {
            Some(k) => k,
            None => return self.unknown_pattern_bindings(pattern, args),
        };
        match self.environment.adts.constructor_for_descriptor(name.as_slice(), k) {
            Some(v) => {
                let mut out: Vec<PatternBinding> = Vec::new();
                let mut i: usize = 0;
                assert(binding_names(out@) =~= Seq::<Seq<char>>::empty());
                while i < args.len()
                    invariant
                        0 <= i <= args@.len(),
                        grew(start, *self),
                        k < self.environment.adts.descriptors@.len(),
                        v < self.environment.adts.descriptors@[k as int].variants@.len(),
                        forall|j: int| 0 <= j < args@.len() ==> decreases_to!(*pattern => #[trigger] args@[j]),
                        binding_names(out@) == arg_names(args@, i as nat, start.environment.adts),
                    decreases args.len() - i,
                {
                    assert(decreases_to!(*pattern => args@[i as int]));
                    let ty = payload_type(scrutinee_type, &self.environment.adts, k, v, i);
                    let ghost mid = *self;
                    let bs = self.pattern_bindings(&args[i], &ty);
                    proof { lemma_grew_trans(start, mid, *self); }
                    append_bindings(&mut out, bs);
                    assert(arg_names(args@, (i + 1) as nat, start.environment.adts) == arg_names(args@, i as nat, start.environment.adts) + bound_names(args@[i as int], false, start.environment.adts));
                    i += 1;
                }
                out
            },
            None => {
                let ghost pre = *self;
                self.report_constructor_pattern_mismatch(pattern, name.as_slice(), scrutinee_type);
                let ghost mid = *self;
                proof {
                    if mid.diagnostics != pre.diagnostics {
                        lemma_grew_push(pre, mid);
                    } else {
                        lemma_grew_refl(pre);
                    }
                }
                let r = self.unknown_pattern_bindings(pattern, args);
                proof { lemma_grew_trans(start, mid, *self); }
                r
            },
        }
    }

    /// The bindings of a record pattern's fields; a field named twice is reported.
    pub fn record_pattern_bindings(&mut self, pattern: &Pattern, fields: &Vec<crate::ast::RecordPatternField>, scrutinee_type: &Type, recover_unknown_bare_constructor: bool) -> (r: Vec<PatternBinding>)
        requires
            forall|i: int| 0 <= i < fields@.len() ==> decreases_to!(*pattern => #[trigger] fields@[i].pattern),
        ensures
            grew(*old(self), *final(self)),
            binding_names(r@) == field_names(fields@, fields@.len(), recover_unknown_bare_constructor, old(self).environment.adts),
        decreases pattern, 1nat,
    {
        let ghost start = *self;
        proof { lemma_grew_refl(*self); }
        let mut out: Vec<PatternBinding> = Vec::new();
        let mut i: usize = 0;
        assert(binding_names(out@) =~= Seq::<Seq<char>>::empty());
        while i < fields.len()
            invariant
                0 <= i <= fields@.len(),
                grew(start, *self),
                forall|j: int| 0 <= j < fields@.len() ==> decreases_to!(*pattern => #[trigger] fields@[j].pattern),
                binding_names(out@) == field_names(fields@, i as nat, recover_unknown_bare_constructor, start.environment.adts),
            decreases fields.len() - i,
        {
            let field = &fields[i];
            let mut first: Option<usize> = None;
            let mut j: usize = 0;
            while j < i
                invariant
                    0 <= j <= i,
                    i < fields@.len(),
                    first matches Some(f) ==> f < i,
                decreases i - j,
            {
                if first.is_none() && str_eq(fields[j].name.as_str(), field.name.as_str()) {
                    first = Some(j);
                }
                j += 1;
            }
            match first {
                Some(f) => {
                    let ghost pre = *self;
                    let d = crate::checker::duplicate_name_diagnostic(field.name.as_str(), "record_field", "record pattern field",
                        field.node_id.display("field"), field.span.copy(), fields[f].node_id.display("field"), &fields[f].span);
                    self.push_diagnostic(d);
                    proof { lemma_grew_push(pre, *self); lemma_grew_trans(start, pre, *self); }
                },
                None => {},
            }
            let ghost mid = *self;
            let field_type = self.record_pattern_field_type(pattern, field, scrutinee_type);
            let ghost mid2 = *self;
            proof {
                if mid2.diagnostics != mid.diagnostics {
                    lemma_grew_push(mid, mid2);
                } else {
                    lemma_grew_refl(mid);
                }
                lemma_grew_trans(start, mid, mid2);
            }
            assert(decreases_to!(*pattern => fields@[i as int].pattern));
            let bs = self.pattern_bindings_with_recovery(&field.pattern, &field_type, recover_unknown_bare_constructor);
            proof { lemma_grew_trans(start, mid2, *self); }
            append_bindings(&mut out, bs);
            assert(field_names(fields@, (i + 1) as nat, recover_unknown_bare_constructor, start.environment.adts)
                == field_names(fields@, i as nat, recover_unknown_bare_constructor, start.environment.adts) + bound_names(fields@[i as int].pattern, recover_unknown_bare_constructor, start.environment.adts));
            i += 1;
        }
        out
    }

    /// Brings the bindings of a `match` arm's pattern into scope: invalid names become
    /// recoveries, duplicates are reported, the rest are bound in order.
    pub fn declare_match_pattern_bindings(&mut self, pattern: &Pattern, scrutinee_type: &Type)
        ensures
            crate::checker::scope_extended(*old(self), *final(self)),
            scope_names(final(self).bindings@) == scope_names(old(self).bindings@)
                + fresh_names(old(self).declared_names(), bound_names(*pattern, false, old(self).environment.adts)),
    {
        let ghost start = *self;
        let bindings = self.pattern_bindings(pattern, scrutinee_type);
        let ghost all = binding_names(bindings@);
        proof {
            crate::checker::lemma_scope_extended_refl(start);
            assert(crate::checker::scope_extended(start, *self));
            assert(scope_names(self.bindings@) =~= scope_names(start.bindings@) + Seq::<Seq<char>>::empty());
        }
        let mut bindings = bindings;
        while bindings.len() > 0
            invariant
                crate::checker::scope_extended(start, *self),
                scope_names(self.bindings@) + fresh_names(self.declared_names(), binding_names(bindings@))
                    == scope_names(start.bindings@) + fresh_names(start.declared_names(), all),
            decreases bindings@.len(),
        {
            let ghost rest = binding_names(bindings@);
            let binding = bindings.remove(0);
            let ghost pre = *self;
            proof {
                assert(rest[0] == binding.name@);
                assert(rest.drop_first() =~= binding_names(bindings@));
            }
            if !crate::names::valid_value_binding_name(binding.name.as_str()) {
                self.push_invalid_binding_recovery(binding);
                proof {
                    assert(self.bindings@.take(pre.bindings@.len() as int) =~= pre.bindings@);
                    assert(self.local_names@.take(pre.local_names@.len() as int) =~= pre.local_names@);
                    assert(self.diagnostics@.take(pre.diagnostics@.len() as int) =~= pre.diagnostics@);
                }
            } else {
                let ghost bname = binding.name@;
                let declared = self.declare_local_name(binding.name.as_str(), binding.node_id.display("pattern"), binding.span.copy(), "pattern binding");
                if declared {
                    self.bindings.push(crate::semantic::Binding { name: binding.name, ty: binding.ty });
                    proof {
                        assert(self.declared_names() =~= pre.declared_names().push(bname));
                        assert(scope_names(self.bindings@) =~= scope_names(pre.bindings@).push(bname));
                        assert(scope_names(pre.bindings@).push(bname) + fresh_names(pre.declared_names().push(bname), rest.drop_first())
                            =~= scope_names(pre.bindings@) + (seq![bname] + fresh_names(pre.declared_names().push(bname), rest.drop_first())));
                    }
                }
                proof {
                    assert(self.bindings@.take(pre.bindings@.len() as int) =~= pre.bindings@);
                    assert(self.invalid_binding_recoveries@.take(pre.invalid_binding_recoveries@.len() as int) =~= pre.invalid_binding_recoveries@);
                    assert(self.local_names@.take(pre.local_names@.len() as int) =~= pre.local_names@);
                    assert(self.diagnostics@.take(pre.diagnostics@.len() as int) =~= pre.diagnostics@);
                }
            }
            proof {
                crate::checker::lemma_scope_extended_trans(start, pre, *self);
            }
        }
        proof {
            assert(fresh_names(self.declared_names(), binding_names(bindings@)) =~= Seq::<Seq<char>>::empty());
            assert(scope_names(self.bindings@) + Seq::<Seq<char>>::empty() =~= scope_names(self.bindings@));
        }
    }
}

/// The names of the bindings in scope, in order.
pub open spec fn scope_names(bs: Seq<crate::semantic::Binding>) -> Seq<Seq<char>> {
    Seq::new(bs.len(), |i: int| bs[i].name@)
}

/// The names a pattern brings into scope, in order: each valid name not declared
/// before (in `declared` or earlier in the pattern).
pub open spec fn fresh_names(declared: Seq<Seq<char>>, names: Seq<Seq<char>>) -> Seq<Seq<char>>
    decreases names.len(),
{
    if names.len() == 0 {
        Seq::empty()
    } else {
        let n = names[0];
        if crate::names::starts_lower(n) && !declared.contains(n) {
            seq![n] + fresh_names(declared.push(n), names.drop_first())
        } else {
            fresh_names(declared, names.drop_first())
        }
    }
}

} // verus!
