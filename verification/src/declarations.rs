//! Module-level name checks: declarations that reuse a name, and names reserved for the
//! standard prelude.
use vstd::prelude::*;

use crate::ast::{
    EffectDecl, EffectOperationDecl, Function, FunctionKind, PublicAlias, PublicAliasKind, SurfaceModule, TypeDecl, UseDecl,
    UseOrigin, VariantDecl,
};
use crate::checker::duplicate_name_diagnostic;
use crate::diag::{jsons, node_display, opt_span_view, Diagnostic, DiagnosticKind, Severity, SourceSpan, SpanV};
use crate::effect_boundary::opt_string;
use crate::json::{JsonV, JsonValue, ObjectBuilder};
use crate::schema::SchemaDecl;
use crate::semantic::diag_is;
use crate::checker::{duplicate_details_view, duplicate_origin_view};
use crate::names_infer::{join_path, join_path_view};
use crate::text::{str_eq, string_of};

verus! {

/// The model of a diagnostic.
pub struct DiagV {
    pub id: Seq<char>,
    pub severity: Severity,
    pub kind: DiagnosticKind,
    pub message: Seq<char>,
    pub span: Option<SpanV>,
    pub details: JsonV,
    pub related: Seq<JsonV>,
}

/// The model of a diagnostic.
pub open spec fn diag_view(d: Diagnostic) -> DiagV {
    DiagV {
        id: d.id@,
        severity: d.severity,
        kind: d.kind,
        message: d.message@,
        span: opt_span_view(d.span),
        details: d.details@,
        related: jsons(d.related@),
    }
}

/// The models of a list of diagnostics.
pub open spec fn diag_views(ds: Seq<Diagnostic>) -> Seq<DiagV> {
    Seq::new(ds.len(), |i: int| diag_view(ds[i]))
}

/// A declared name to check for reuse: the module it is declared in, the declaration
/// that owns it (for constructors, their type), the name, what kind of declaration it
/// is, its displayed node id and its span.
pub struct NameEntry {
    pub scope: Option<String>,
    pub owner: Option<String>,
    pub name: String,
    pub subject: &'static str,
    pub node_id: String,
    pub span: SourceSpan,
}

/// The model of a declared name.
pub struct EntryV {
    pub scope: Option<Seq<char>>,
    pub owner: Option<Seq<char>>,
    pub name: Seq<char>,
    pub subject: Seq<char>,
    pub node_id: Seq<char>,
    pub span: SpanV,
}

impl View for NameEntry {
    type V = EntryV;

    open spec fn view(&self) -> EntryV {
        EntryV {
            scope: opt_string(self.scope),
            owner: opt_string(self.owner),
            name: self.name@,
            subject: self.subject@,
            node_id: self.node_id@,
            span: self.span@,
        }
    }
}

/// The models of a list of declared names.
pub open spec fn entry_views(es: Seq<NameEntry>) -> Seq<EntryV> {
    Seq::new(es.len(), |i: int| es[i]@)
}

/// Whether two declared names clash: same module, same owner, same name.
pub open spec fn same_key(a: EntryV, b: EntryV) -> bool {
    a.scope == b.scope && a.owner == b.owner && a.name == b.name
}

/// The first of `es[0..n]` that clashes with `e`.
pub open spec fn first_same(es: Seq<EntryV>, e: EntryV, n: int) -> Option<int>
    decreases n,
{
    if n <= 0 {
        None
    } else {
        match first_same(es, e, n - 1) {
            Some(j) => Some(j),
            None => if same_key(es[n - 1], e) { Some(n - 1) } else { None },
        }
    }
}

/// The model of the diagnostic for `e`, a later declaration of the name `first` declares.
pub open spec fn duplicate_view(e: EntryV, first: EntryV, namespace: Seq<char>) -> DiagV {
    DiagV {
        id: "name.duplicate"@,
        severity: Severity::Error,
        kind: DiagnosticKind::Name,
        message: "duplicate "@ + e.subject + " name `"@ + e.name + "`"@,
        span: Some(e.span),
        details: duplicate_details_view(e.name, namespace, e.node_id, first.node_id),
        related: seq![duplicate_origin_view(e.subject, first.span)],
    }
}

/// The diagnostic for the last of `es`, when an earlier one declares the same name.
pub open spec fn last_duplicate(es: Seq<EntryV>, namespace: Seq<char>) -> Seq<DiagV> {
    if es.len() == 0 {
        Seq::empty()
    } else {
        match first_same(es, es.last(), es.len() - 1) {
            Some(j) => seq![duplicate_view(es.last(), es[j], namespace)],
            None => Seq::empty(),
        }
    }
}

/// One diagnostic for each declaration of a name declared before, in order, each
/// pointing at the first declaration of the name.
pub open spec fn duplicate_report(es: Seq<EntryV>, namespace: Seq<char>) -> Seq<DiagV>
    decreases es.len(),
{
    if es.len() == 0 {
        Seq::empty()
    } else {
        duplicate_report(es.drop_last(), namespace) + last_duplicate(es, namespace)
    }
}

/// Whether two optional names are equal.
pub fn opt_text_eq(a: &Option<String>, b: &Option<String>) -> (r: bool)
    ensures
        r == (opt_string(*a) == opt_string(*b)),
{
    match (a, b) {
        (Some(x), Some(y)) => str_eq(x.as_str(), y.as_str()),
        (None, None) => true,
        _ => false,
    }
}

fn entries_clash(a: &NameEntry, b: &NameEntry) -> (r: bool)
    ensures
        r == same_key(a@, b@),
{
    opt_text_eq(&a.scope, &b.scope) && opt_text_eq(&a.owner, &b.owner) && str_eq(a.name.as_str(), b.name.as_str())
}

proof fn lemma_first_same_prefix(es: Seq<EntryV>, e: EntryV, n: int, m: int)
    requires
        0 <= n <= m <= es.len(),
    ensures
        first_same(es.take(m), e, n) == first_same(es, e, n),
    decreases n,
{
    if n > 0 {
        lemma_first_same_prefix(es, e, n - 1, m);
    }
}

proof fn lemma_first_same_found(es: Seq<EntryV>, e: EntryV, n: int)
    ensures
        first_same(es, e, n) matches Some(j) ==> 0 <= j < n && same_key(es[j], e),
    decreases n,
{
    if n > 0 {
        lemma_first_same_found(es, e, n - 1);
    }
}

proof fn lemma_first_same_stable(es: Seq<EntryV>, e: EntryV, k: int, n: int)
    requires
        k <= n,
        first_same(es, e, k) is Some,
    ensures
        first_same(es, e, n) == first_same(es, e, k),
    decreases n - k,
{
    if n > k {
        lemma_first_same_stable(es, e, k, n - 1);
    }
}

/// The first of `entries[0..n]` that clashes with `e`.
fn first_clash(entries: &Vec<NameEntry>, e: &NameEntry, n: usize) -> (r: Option<usize>)
    requires
        n <= entries@.len(),
    ensures
        match r {
            Some(j) => first_same(entry_views(entries@), e@, n as int) == Some(j as int),
            None => first_same(entry_views(entries@), e@, n as int) is None,
        },
{
    let ghost es = entry_views(entries@);
    let mut j: usize = 0;
    while j < n
        invariant
            0 <= j <= n <= entries@.len(),
            es == entry_views(entries@),
            first_same(es, e@, j as int) is None,
        decreases n - j,
    {
        if entries_clash(&entries[j], e) {
            proof { lemma_first_same_stable(es, e@, j + 1, n as int); }
            return Some(j);
        }
        j += 1;
    }
    None
}

/// Whether `d` is the diagnostic modelled by `v`.
proof fn lemma_diag_is_view(d: Diagnostic, v: DiagV)
    requires
        v.severity == Severity::Error,
        diag_is(d, v.id, v.kind, v.message, v.span, v.details, v.related),
    ensures
        diag_view(d) == v,
{
}

/// One diagnostic for each entry that declares a name an earlier entry declared,
/// pointing at the first declaration of the name; `namespace` says which names clash.
pub fn duplicate_entries(entries: &Vec<NameEntry>, namespace: &str) -> (r: Vec<Diagnostic>)
    ensures
        diag_views(r@) == duplicate_report(entry_views(entries@), namespace@),
{
    let ghost es = entry_views(entries@);
    let mut out: Vec<Diagnostic> = Vec::new();
    let mut i: usize = 0;
    assert(diag_views(out@) =~= duplicate_report(es.take(0), namespace@));
    while i < entries.len()
        invariant
            0 <= i <= entries@.len(),
            es == entry_views(entries@),
            diag_views(out@) == duplicate_report(es.take(i as int), namespace@),
        decreases entries.len() - i,
    {
        let ghost pre = es.take(i + 1);
        assert(pre.drop_last() =~= es.take(i as int));
        assert(pre.last() == es[i as int]);
        proof { lemma_first_same_prefix(es, es[i as int], i as int, i + 1); }
        let e = &entries[i];
        match first_clash(entries, e, i) {
            Some(j) => {
                proof { lemma_first_same_found(es, es[i as int], i as int); }
                let first = &entries[j];
                let d = duplicate_name_diagnostic(
                    e.name.as_str(),
                    namespace,
                    e.subject,
                    e.node_id.clone(),
                    e.span.copy(),
                    first.node_id.clone(),
                    &first.span,
                );
                proof { lemma_diag_is_view(d, duplicate_view(es[i as int], es[j as int], namespace@)); }
                let ghost before = out@;
                out.push(d);
                assert(diag_views(out@) =~= diag_views(before) + seq![diag_view(d)]);
            },
            None => {
                assert(last_duplicate(pre, namespace@) =~= Seq::<DiagV>::empty());
            },
        }
        assert(duplicate_report(pre, namespace@) == duplicate_report(es.take(i as int), namespace@) + last_duplicate(pre, namespace@));
        i += 1;
    }
    assert(es.take(es.len() as int) =~= es);
    out
}

proof fn lemma_distinct_report_empty(es: Seq<EntryV>, namespace: Seq<char>)
    requires
        forall|a: int, b: int| 0 <= a < b < es.len() ==> !same_key(#[trigger] es[a], #[trigger] es[b]),
    ensures
        duplicate_report(es, namespace).len() == 0,
    decreases es.len(),
{
    if es.len() > 0 {
        let init = es.drop_last();
        assert forall|a: int, b: int| 0 <= a < b < init.len() implies !same_key(#[trigger] init[a], #[trigger] init[b]) by {
            assert(init[a] == es[a] && init[b] == es[b]);
        }
        lemma_distinct_report_empty(init, namespace);
        lemma_first_same_found(es, es.last(), es.len() - 1);
    }
}

/// Declarations whose names all differ draw no duplicate-name diagnostic.
pub proof fn law_distinct_names_unreported(es: Seq<EntryV>, namespace: Seq<char>)
    requires
        forall|a: int, b: int| 0 <= a < b < es.len() ==> !same_key(#[trigger] es[a], #[trigger] es[b]),
    ensures
        duplicate_report(es, namespace) == Seq::<DiagV>::empty(),
{
    lemma_distinct_report_empty(es, namespace);
}

/// Every declaration of a name declared before draws exactly one diagnostic, and the
/// first declaration of a name draws none.
pub proof fn law_one_report_per_repeat(es: Seq<EntryV>, namespace: Seq<char>)
    ensures
        duplicate_report(es, namespace).len() == repeat_count(es),
    decreases es.len(),
{
    if es.len() > 0 {
        law_one_report_per_repeat(es.drop_last(), namespace);
    }
}

/// How many of `es` declare a name that an earlier one declared.
pub open spec fn repeat_count(es: Seq<EntryV>) -> nat
    decreases es.len(),
{
    if es.len() == 0 {
        0
    } else {
        repeat_count(es.drop_last()) + if first_same(es, es.last(), es.len() - 1) is Some { 1nat } else { 0nat }
    }
}

/// A copy of an optional name.
pub fn copy_opt(o: &Option<String>) -> (r: Option<String>)
    ensures
        opt_string(r) == opt_string(*o),
{
    match o {
        Some(s) => Some(s.clone()),
        None => None,
    }
}

/// The node kind a function declaration's node id is shown under.
pub open spec fn function_prefix(kind: FunctionKind) -> Seq<char> {
    match kind {
        FunctionKind::Function => "fn"@,
        FunctionKind::Test => "test"@,
    }
}

/// The names of the named functions, as declared names.
pub open spec fn function_entries(fs: Seq<Function>) -> Seq<EntryV>
    decreases fs.len(),
{
    if fs.len() == 0 {
        Seq::empty()
    } else {
        let init = function_entries(fs.drop_last());
        let f = fs.last();
        match f.name {
            Some(n) => init.push(EntryV {
                scope: opt_string(f.module_name),
                owner: None,
                name: n@,
                subject: "function declaration"@,
                node_id: node_display(f.node_id.index, function_prefix(f.kind)),
                span: f.span@,
            }),
            None => init,
        }
    }
}

/// The names of the named public aliases of the given kind, as declared names.
pub open spec fn alias_entries(als: Seq<PublicAlias>, kind: PublicAliasKind, subject: Seq<char>) -> Seq<EntryV>
    decreases als.len(),
{
    if als.len() == 0 {
        Seq::empty()
    } else {
        let init = alias_entries(als.drop_last(), kind, subject);
        let a = als.last();
        match a.name {
            Some(n) => if a.kind == kind {
                init.push(EntryV {
                    scope: opt_string(a.module_name),
                    owner: None,
                    name: n@,
                    subject,
                    node_id: node_display(a.node_id.index, "alias"@),
                    span: a.span@,
                })
            } else {
                init
            },
            None => init,
        }
    }
}

/// Adds the named public aliases of the given kind to `out`.
fn push_alias_entries(out: &mut Vec<NameEntry>, aliases: &Vec<PublicAlias>, kind: PublicAliasKind, subject: &'static str)
    ensures
        entry_views(final(out)@) == entry_views(old(out)@) + alias_entries(aliases@, kind, subject@),
{
    proof { reveal_strlit("alias"); }
    let ghost start = entry_views(out@);
    let mut i: usize = 0;
    assert(aliases@.take(0) =~= Seq::<PublicAlias>::empty());
    assert(entry_views(out@) =~= start + alias_entries(aliases@.take(0), kind, subject@));
    while i < aliases.len()
        invariant
            0 <= i <= aliases@.len(),
            entry_views(out@) == start + alias_entries(aliases@.take(i as int), kind, subject@),
        decreases aliases.len() - i,
    {
        let a = &aliases[i];
        assert(aliases@.take(i + 1).drop_last() =~= aliases@.take(i as int));
        assert(aliases@.take(i + 1).last() == aliases@[i as int]);
        match &a.name {
            Some(n) => {
                if a.kind == kind {
                    let ghost before = entry_views(out@);
                    let e = NameEntry {
                        scope: copy_opt(&a.module_name),
                        owner: None,
                        name: n.clone(),
                        subject,
                        node_id: a.node_id.display("alias"),
                        span: a.span.copy(),
                    };
                    out.push(e);
                    assert(entry_views(out@) =~= before.push(e@));
                }
            },
            None => {},
        }
        i += 1;
    }
    assert(aliases@.take(aliases@.len() as int) =~= aliases@);
}

/// One diagnostic for each function declaration or function alias that reuses a name
/// declared before it in the same module.
pub fn check_duplicate_function_names(module: &SurfaceModule) -> (r: Vec<Diagnostic>)
    ensures
        diag_views(r@) == duplicate_report(
            function_entries(module.functions@) + alias_entries(module.aliases@, PublicAliasKind::Function, "function alias"@),
            "function"@,
        ),
{
    let mut entries: Vec<NameEntry> = Vec::new();
    let fs = &module.functions;
    let mut i: usize = 0;
    assert(fs@.take(0) =~= Seq::<Function>::empty());
    assert(entry_views(entries@) =~= function_entries(fs@.take(0)));
    while i < fs.len()
        invariant
            0 <= i <= fs@.len(),
            entry_views(entries@) == function_entries(fs@.take(i as int)),
        decreases fs.len() - i,
    {
        let f = &fs[i];
        assert(fs@.take(i + 1).drop_last() =~= fs@.take(i as int));
        assert(fs@.take(i + 1).last() == fs@[i as int]);
        match &f.name {
            Some(n) => {
                let ghost before = entry_views(entries@);
                let e = NameEntry {
                    scope: copy_opt(&f.module_name),
                    owner: None,
                    name: n.clone(),
                    subject: "function declaration",
                    node_id: f.node_id.display(f.kind.node_prefix()),
                    span: f.span.copy(),
                };
                proof { reveal_strlit("function declaration"); }
                entries.push(e);
                assert(entry_views(entries@) =~= before.push(e@));
            },
            None => {},
        }
        i += 1;
    }
    assert(fs@.take(fs@.len() as int) =~= fs@);
    push_alias_entries(&mut entries, &module.aliases, PublicAliasKind::Function, "function alias");
    duplicate_entries(&entries, "function")
}

/// The names of the named type declarations, as declared names.
pub open spec fn type_entries(ts: Seq<TypeDecl>) -> Seq<EntryV>
    decreases ts.len(),
{
    if ts.len() == 0 {
        Seq::empty()
    } else {
        let init = type_entries(ts.drop_last());
        let t = ts.last();
        match t.name {
            Some(n) => init.push(EntryV {
                scope: opt_string(t.module_name),
                owner: None,
                name: n@,
                subject: "type declaration"@,
                node_id: node_display(t.node_id.index, "type"@),
                span: t.span@,
            }),
            None => init,
        }
    }
}

/// One diagnostic for each type declaration or type alias that reuses a name declared
/// before it in the same module.
pub fn check_duplicate_type_names(module: &SurfaceModule) -> (r: Vec<Diagnostic>)
    ensures
        diag_views(r@) == duplicate_report(
            type_entries(module.types@) + alias_entries(module.aliases@, PublicAliasKind::Type, "type alias"@),
            "type"@,
        ),
{
    proof {
        reveal_strlit("type declaration");
        reveal_strlit("type");
    }
    let mut entries: Vec<NameEntry> = Vec::new();
    let ts = &module.types;
    let mut i: usize = 0;
    assert(ts@.take(0) =~= Seq::<TypeDecl>::empty());
    assert(entry_views(entries@) =~= type_entries(ts@.take(0)));
    while i < ts.len()
        invariant
            0 <= i <= ts@.len(),
            entry_views(entries@) == type_entries(ts@.take(i as int)),
        decreases ts.len() - i,
    {
        let t = &ts[i];
        assert(ts@.take(i + 1).drop_last() =~= ts@.take(i as int));
        assert(ts@.take(i + 1).last() == ts@[i as int]);
        match &t.name {
            Some(n) => {
                let ghost before = entry_views(entries@);
                let e = NameEntry {
                    scope: copy_opt(&t.module_name),
                    owner: None,
                    name: n.clone(),
                    subject: "type declaration",
                    node_id: t.node_id.display("type"),
                    span: t.span.copy(),
                };
                entries.push(e);
                assert(entry_views(entries@) =~= before.push(e@));
            },
            None => {},
        }
        i += 1;
    }
    assert(ts@.take(ts@.len() as int) =~= ts@);
    push_alias_entries(&mut entries, &module.aliases, PublicAliasKind::Type, "type alias");
    duplicate_entries(&entries, "type")
}

/// The names of the named schema declarations, as declared names.
pub open spec fn schema_entries(ss: Seq<SchemaDecl>) -> Seq<EntryV>
    decreases ss.len(),
{
    if ss.len() == 0 {
        Seq::empty()
    } else {
        let init = schema_entries(ss.drop_last());
        let s = ss.last();
        match s.name {
            Some(n) => init.push(EntryV {
                scope: opt_string(s.module_name),
                owner: None,
                name: n@,
                subject: "schema declaration"@,
                node_id: node_display(s.node_id.index, "schema"@),
                span: s.span@,
            }),
            None => init,
        }
    }
}

/// One diagnostic for each schema declaration or schema alias that reuses a name
/// declared before it in the same module.
pub fn check_duplicate_schema_names(module: &SurfaceModule) -> (r: Vec<Diagnostic>)
    ensures
        diag_views(r@) == duplicate_report(
            schema_entries(module.schemas@) + alias_entries(module.aliases@, PublicAliasKind::Schema, "schema alias"@),
            "schema"@,
        ),
{
    proof {
        reveal_strlit("schema declaration");
        reveal_strlit("schema");
    }
    let mut entries: Vec<NameEntry> = Vec::new();
    let ss = &module.schemas;
    let mut i: usize = 0;
    assert(ss@.take(0) =~= Seq::<SchemaDecl>::empty());
    assert(entry_views(entries@) =~= schema_entries(ss@.take(0)));
    while i < ss.len()
        invariant
            0 <= i <= ss@.len(),
            entry_views(entries@) == schema_entries(ss@.take(i as int)),
        decreases ss.len() - i,
    {
        let s = &ss[i];
        assert(ss@.take(i + 1).drop_last() =~= ss@.take(i as int));
        assert(ss@.take(i + 1).last() == ss@[i as int]);
        match &s.name {
            Some(n) => {
                let ghost before = entry_views(entries@);
                let e = NameEntry {
                    scope: copy_opt(&s.module_name),
                    owner: None,
                    name: n.clone(),
                    subject: "schema declaration",
                    node_id: s.node_id.display("schema"),
                    span: s.span.copy(),
                };
                entries.push(e);
                assert(entry_views(entries@) =~= before.push(e@));
            },
            None => {},
        }
        i += 1;
    }
    assert(ss@.take(ss@.len() as int) =~= ss@);
    push_alias_entries(&mut entries, &module.aliases, PublicAliasKind::Schema, "schema alias");
    duplicate_entries(&entries, "schema")
}

/// The import aliases of the `use` declarations written in the source, as declared
/// names.
pub open spec fn use_entries(us: Seq<UseDecl>) -> Seq<EntryV>
    decreases us.len(),
{
    if us.len() == 0 {
        Seq::empty()
    } else {
        let init = use_entries(us.drop_last());
        let u = us.last();
        if u.origin == UseOrigin::Source {
            init.push(EntryV {
                scope: opt_string(u.module_name),
                owner: None,
                name: u.alias@,
                subject: "import alias"@,
                node_id: node_display(u.node_id.index, "use"@),
                span: u.span@,
            })
        } else {
            init
        }
    }
}

/// One diagnostic for each source `use` declaration whose alias an earlier one in the
/// same module already uses.
pub fn check_duplicate_use_aliases(module: &SurfaceModule) -> (r: Vec<Diagnostic>)
    ensures
        diag_views(r@) == duplicate_report(use_entries(module.uses@), "module"@),
{
    proof {
        reveal_strlit("import alias");
        reveal_strlit("use");
    }
    let mut entries: Vec<NameEntry> = Vec::new();
    let us = &module.uses;
    let mut i: usize = 0;
    assert(us@.take(0) =~= Seq::<UseDecl>::empty());
    assert(entry_views(entries@) =~= use_entries(us@.take(0)));
    while i < us.len()
        invariant
            0 <= i <= us@.len(),
            entry_views(entries@) == use_entries(us@.take(i as int)),
        decreases us.len() - i,
    {
        let u = &us[i];
        assert(us@.take(i + 1).drop_last() =~= us@.take(i as int));
        assert(us@.take(i + 1).last() == us@[i as int]);
        if u.origin == UseOrigin::Source {
            let ghost before = entry_views(entries@);
            let e = NameEntry {
                scope: copy_opt(&u.module_name),
                owner: None,
                name: u.alias.clone(),
                subject: "import alias",
                node_id: u.node_id.display("use"),
                span: u.span.copy(),
            };
            entries.push(e);
            assert(entry_views(entries@) =~= before.push(e@));
        }
        i += 1;
    }
    assert(us@.take(us@.len() as int) =~= us@);
    duplicate_entries(&entries, "module")
}

/// The named variants of a type, as declared names owned by the type.
pub open spec fn variant_entries(t: TypeDecl, vs: Seq<VariantDecl>) -> Seq<EntryV>
    decreases vs.len(),
{
    if vs.len() == 0 {
        Seq::empty()
    } else {
        let init = variant_entries(t, vs.drop_last());
        let v = vs.last();
        match v.name {
            Some(n) => init.push(EntryV {
                scope: opt_string(t.module_name),
                owner: opt_string(t.name),
                name: n@,
                subject: "constructor declaration"@,
                node_id: node_display(v.node_id.index, "variant"@),
                span: v.span@,
            }),
            None => init,
        }
    }
}

/// The named variants of all the types, in order.
pub open spec fn constructor_entries(ts: Seq<TypeDecl>) -> Seq<EntryV>
    decreases ts.len(),
{
    if ts.len() == 0 {
        Seq::empty()
    } else {
        constructor_entries(ts.drop_last()) + variant_entries(ts.last(), ts.last().variants@)
    }
}

/// One diagnostic for each constructor whose name its type already gave to an earlier
/// constructor.
pub fn check_duplicate_constructor_names(module: &SurfaceModule) -> (r: Vec<Diagnostic>)
    ensures
        diag_views(r@) == duplicate_report(constructor_entries(module.types@), "constructor"@),
{
    proof {
        reveal_strlit("constructor declaration");
        reveal_strlit("variant");
    }
    let mut entries: Vec<NameEntry> = Vec::new();
    let ts = &module.types;
    let mut i: usize = 0;
    assert(ts@.take(0) =~= Seq::<TypeDecl>::empty());
    assert(entry_views(entries@) =~= constructor_entries(ts@.take(0)));
    while i < ts.len()
        invariant
            0 <= i <= ts@.len(),
            entry_views(entries@) == constructor_entries(ts@.take(i as int)),
        decreases ts.len() - i,
    {
        let t = &ts[i];
        assert(ts@.take(i + 1).drop_last() =~= ts@.take(i as int));
        assert(ts@.take(i + 1).last() == ts@[i as int]);
        let ghost base = entry_views(entries@);
        let vs = &t.variants;
        let mut k: usize = 0;
        assert(vs@.take(0) =~= Seq::<VariantDecl>::empty());
        assert(entry_views(entries@) =~= base + variant_entries(*t, vs@.take(0)));
        while k < vs.len()
            invariant
                0 <= k <= vs@.len(),
                entry_views(entries@) == base + variant_entries(*t, vs@.take(k as int)),
            decreases vs.len() - k,
        {
            let v = &vs[k];
            assert(vs@.take(k + 1).drop_last() =~= vs@.take(k as int));
            assert(vs@.take(k + 1).last() == vs@[k as int]);
            match &v.name {
                Some(n) => {
                    let ghost before = entry_views(entries@);
                    let e = NameEntry {
                        scope: copy_opt(&t.module_name),
                        owner: copy_opt(&t.name),
                        name: n.clone(),
                        subject: "constructor declaration",
                        node_id: v.node_id.display("variant"),
                        span: v.span.copy(),
                    };
                    entries.push(e);
                    assert(entry_views(entries@) =~= before.push(e@));
                },
                None => {},
            }
            k += 1;
        }
        assert(vs@.take(vs@.len() as int) =~= vs@);
        i += 1;
    }
    assert(ts@.take(ts@.len() as int) =~= ts@);
    duplicate_entries(&entries, "constructor")
}

/// The names of the named effect declarations, as declared names.
pub open spec fn effect_entries(es: Seq<EffectDecl>) -> Seq<EntryV>
    decreases es.len(),
{
    if es.len() == 0 {
        Seq::empty()
    } else {
        let init = effect_entries(es.drop_last());
        match es.last().name {
            Some(n) => init.push(effect_entry(es.last(), n@)),
            None => init,
        }
    }
}

/// The declared name of a named effect.
pub open spec fn effect_entry(e: EffectDecl, name: Seq<char>) -> EntryV {
    EntryV {
        scope: opt_string(e.module_name),
        owner: None,
        name,
        subject: "effect declaration"@,
        node_id: node_display(e.node_id.index, "effect"@),
        span: e.span@,
    }
}

/// The names of an effect's named operations, as declared names.
pub open spec fn operation_entries(ops: Seq<EffectOperationDecl>) -> Seq<EntryV>
    decreases ops.len(),
{
    if ops.len() == 0 {
        Seq::empty()
    } else {
        let init = operation_entries(ops.drop_last());
        let o = ops.last();
        match o.name {
            Some(n) => init.push(EntryV {
                scope: None,
                owner: None,
                name: n@,
                subject: "effect operation declaration"@,
                node_id: node_display(o.node_id.index, "operation"@),
                span: o.name_span@,
            }),
            None => init,
        }
    }
}

/// For each named effect in order: the diagnostic for its name when an earlier effect
/// of the module declared it, then those for its own operations that repeat a name.
pub open spec fn effects_report(es: Seq<EffectDecl>) -> Seq<DiagV>
    decreases es.len(),
{
    if es.len() == 0 {
        Seq::empty()
    } else {
        match es.last().name {
            None => effects_report(es.drop_last()),
            Some(_) => effects_report(es.drop_last()) + last_duplicate(effect_entries(es), "effect"@)
                + duplicate_report(operation_entries(es.last().operations@), "operation"@),
        }
    }
}

/// The diagnostic for `e`, a later declaration of the name `first` declares.
fn duplicate_of(e: &NameEntry, first: &NameEntry, namespace: &str) -> (r: Diagnostic)
    ensures
        diag_view(r) == duplicate_view(e@, first@, namespace@),
{
    let d = duplicate_name_diagnostic(
        e.name.as_str(),
        namespace,
        e.subject,
        e.node_id.clone(),
        e.span.copy(),
        first.node_id.clone(),
        &first.span,
    );
    proof { lemma_diag_is_view(d, duplicate_view(e@, first@, namespace@)); }
    d
}

/// The named operations of an effect, as declared names.
fn operation_name_entries(ops: &Vec<EffectOperationDecl>) -> (r: Vec<NameEntry>)
    ensures
        entry_views(r@) == operation_entries(ops@),
{
    proof {
        reveal_strlit("effect operation declaration");
        reveal_strlit("operation");
    }
    let mut entries: Vec<NameEntry> = Vec::new();
    let mut i: usize = 0;
    assert(ops@.take(0) =~= Seq::<EffectOperationDecl>::empty());
    assert(entry_views(entries@) =~= operation_entries(ops@.take(0)));
    while i < ops.len()
        invariant
            0 <= i <= ops@.len(),
            entry_views(entries@) == operation_entries(ops@.take(i as int)),
        decreases ops.len() - i,
    {
        let o = &ops[i];
        assert(ops@.take(i + 1).drop_last() =~= ops@.take(i as int));
        assert(ops@.take(i + 1).last() == ops@[i as int]);
        match &o.name {
            Some(n) => {
                let ghost before = entry_views(entries@);
                let e = NameEntry {
                    scope: None,
                    owner: None,
                    name: n.clone(),
                    subject: "effect operation declaration",
                    node_id: o.node_id.display("operation"),
                    span: o.name_span.copy(),
                };
                entries.push(e);
                assert(entry_views(entries@) =~= before.push(e@));
            },
            None => {},
        }
        i += 1;
    }
    assert(ops@.take(ops@.len() as int) =~= ops@);
    entries
}

/// One diagnostic for each effect declaration that reuses an effect name declared
/// before it in the same module, and, within each named effect, for each operation
/// that reuses an operation name of that effect.
pub fn check_duplicate_effect_names(module: &SurfaceModule) -> (r: Vec<Diagnostic>)
    ensures
        diag_views(r@) == effects_report(module.effects@),
{
    proof {
        reveal_strlit("effect declaration");
        reveal_strlit("effect");
    }
    let es = &module.effects;
    let mut seen: Vec<NameEntry> = Vec::new();
    let mut out: Vec<Diagnostic> = Vec::new();
    let mut i: usize = 0;
    assert(es@.take(0) =~= Seq::<EffectDecl>::empty());
    assert(entry_views(seen@) =~= effect_entries(es@.take(0)));
    assert(diag_views(out@) =~= effects_report(es@.take(0)));
    while i < es.len()
        invariant
            0 <= i <= es@.len(),
            entry_views(seen@) == effect_entries(es@.take(i as int)),
            diag_views(out@) == effects_report(es@.take(i as int)),
        decreases es.len() - i,
    {
        let e = &es[i];
        let ghost pre = es@.take(i + 1);
        assert(pre.drop_last() =~= es@.take(i as int));
        assert(pre.last() == es@[i as int]);
        match &e.name {
            None => {},
            Some(n) => {
                let entry = NameEntry {
                    scope: copy_opt(&e.module_name),
                    owner: None,
                    name: n.clone(),
                    subject: "effect declaration",
                    node_id: e.node_id.display("effect"),
                    span: e.span.copy(),
                };
                let ghost old_seen = entry_views(seen@);
                let ghost ev = entry@;
                assert(ev == effect_entry(*e, n@));
                let ghost all = old_seen.push(ev);
                proof {
                    lemma_first_same_prefix(all, ev, old_seen.len() as int, old_seen.len() as int);
                    assert(all.take(old_seen.len() as int) =~= old_seen);
                }
                let clash = first_clash(&seen, &entry, seen.len());
                let ghost before = diag_views(out@);
                match clash {
                    Some(j) => {
                        proof { lemma_first_same_found(old_seen, ev, old_seen.len() as int); }
                        let d = duplicate_of(&entry, &seen[j], "effect");
                        out.push(d);
                        assert(diag_views(out@) =~= before + last_duplicate(all, "effect"@));
                    },
                    None => {
                        assert(last_duplicate(all, "effect"@) =~= Seq::<DiagV>::empty());
                        assert(diag_views(out@) =~= before + last_duplicate(all, "effect"@));
                    },
                }
                seen.push(entry);
                assert(entry_views(seen@) =~= all);
                let ops = operation_name_entries(&e.operations);
                let mut op_diags = duplicate_entries(&ops, "operation");
                let ghost mid = diag_views(out@);
                let ghost added = diag_views(op_diags@);
                out.append(&mut op_diags);
                assert(diag_views(out@) =~= mid + added);
            },
        }
        i += 1;
    }
    assert(es@.take(es@.len() as int) =~= es@);
    out
}

/// The module name the standard prelude has.
pub open spec fn prelude_module() -> Seq<char> {
    "prelude"@
}

/// Whether a span lies in the toolchain's own prelude file.
pub fn is_toolchain_standard_prelude(span: &SourceSpan) -> (r: bool)
    ensures
        r == (span.file@ == "prelude.veln"@),
{
    str_eq(span.file.as_str(), "prelude.veln")
}

/// The model of the diagnostic for a name that takes the prelude's name.
pub open spec fn reserved_prelude_view(node_id: Seq<char>, span: SpanV, namespace: Seq<char>, declaration_kind: Seq<char>, hint: Seq<char>) -> DiagV {
    DiagV {
        id: "name.reserved"@,
        severity: Severity::Error,
        kind: DiagnosticKind::Name,
        message: declaration_kind + " `prelude` conflicts with the standard prelude"@,
        span: Some(span),
        details: JsonV::Object(seq![
            ("phase"@, JsonV::Str("name"@)),
            ("node_id"@, JsonV::Str(node_id)),
            ("name"@, JsonV::Str(prelude_module())),
            ("namespace"@, JsonV::Str(namespace)),
            ("reserved_for"@, JsonV::Str("standard_prelude"@)),
        ]),
        related: seq![crate::effect_labels::repair_hint(hint)],
    }
}

/// The diagnostic for a declaration that takes the name of the standard prelude.
pub fn reserved_prelude_diagnostic(
    node_id: String,
    span: SourceSpan,
    namespace: &'static str,
    declaration_kind: &'static str,
    hint: &'static str,
) -> (r: Diagnostic)
    ensures
        diag_view(r) == reserved_prelude_view(node_id@, span@, namespace@, declaration_kind@, hint@),
{
    let ghost nid = node_id@;
    let ghost sp = span@;
    let mut message = string_of(declaration_kind);
    message.append(" `prelude` conflicts with the standard prelude");
    let mut b = ObjectBuilder::new();
    b.push_str("phase", "name");
    b.push_string("node_id", node_id);
    b.push_str("name", "prelude");
    b.push_str("namespace", namespace);
    b.push_str("reserved_for", "standard_prelude");
    let details = b.finish();
    let mut diagnostic = Diagnostic::new("name.reserved", Severity::Error, DiagnosticKind::Name, message, Some(span), details);
    diagnostic.related.push(crate::effect_labels::repair_hint_json(hint));
    proof {
        reveal_strlit("prelude");
        let v = reserved_prelude_view(nid, sp, namespace@, declaration_kind@, hint@);
        assert(diagnostic.details@->Object_0 =~= v.details->Object_0);
        assert(jsons(diagnostic.related@) =~= v.related);
    }
    diagnostic
}

/// The diagnostics for source `use` declarations whose alias is `prelude`, unless they
/// stand in a module under `std::`.
pub open spec fn reserved_use_report(us: Seq<UseDecl>) -> Seq<DiagV>
    decreases us.len(),
{
    if us.len() == 0 {
        Seq::empty()
    } else {
        let u = us.last();
        let init = reserved_use_report(us.drop_last());
        if u.origin == UseOrigin::Source && u.alias@ == prelude_module() && !(match u.module_name {
            Some(m) => crate::text::has_prefix(m@, "std::"@),
            None => false,
        }) {
            init.push(reserved_prelude_view(node_display(u.node_id.index, "use"@), u.span@, "module"@, "import alias"@,
                "Choose a non-conflicting import path."@))
        } else {
            init
        }
    }
}

/// The diagnostics for a module named `prelude` outside the toolchain's prelude file,
/// then for each source import alias `prelude` outside `std::` modules.
pub open spec fn reserved_prelude_report(module: SurfaceModule) -> Seq<DiagV> {
    let header = match module.module {
        Some(h) => if h.name@ == prelude_module() && h.span.file@ != "prelude.veln"@ {
            seq![reserved_prelude_view(node_display(h.node_id.index, "mod"@), h.span@, "module"@, "module identity"@,
                "Choose a non-conflicting module name."@)]
        } else {
            Seq::empty()
        },
        None => Seq::empty(),
    };
    header + reserved_use_report(module.uses@)
}

/// The diagnostics for names that take the name of the standard prelude.
pub fn check_reserved_prelude_aliases(module: &SurfaceModule) -> (r: Vec<Diagnostic>)
    ensures
        diag_views(r@) == reserved_prelude_report(*module),
{
    proof {
        reveal_strlit("prelude");
        reveal_strlit("std::");
    }
    let mut out: Vec<Diagnostic> = Vec::new();
    match &module.module {
        Some(h) => {
            if str_eq(h.name.as_str(), "prelude") && !is_toolchain_standard_prelude(&h.span) {
                let d = reserved_prelude_diagnostic(
                    h.node_id.display("mod"),
                    h.span.copy(),
                    "module",
                    "module identity",
                    "Choose a non-conflicting module name.",
                );
                out.push(d);
            }
        },
        None => {},
    }
    let ghost head = diag_views(out@);
    let us = &module.uses;
    let mut i: usize = 0;
    assert(us@.take(0) =~= Seq::<UseDecl>::empty());
    assert(diag_views(out@) =~= head + reserved_use_report(us@.take(0)));
    while i < us.len()
        invariant
            0 <= i <= us@.len(),
            us@ == module.uses@,
            diag_views(out@) == head + reserved_use_report(us@.take(i as int)),
        decreases us.len() - i,
    {
        let u = &us[i];
        assert(us@.take(i + 1).drop_last() =~= us@.take(i as int));
        assert(us@.take(i + 1).last() == us@[i as int]);
        let in_std = match &u.module_name {
            Some(m) => crate::text::starts_with(m.as_str(), "std::"),
            None => false,
        };
        if u.origin == UseOrigin::Source && str_eq(u.alias.as_str(), "prelude") && !in_std {
            let ghost before = diag_views(out@);
            let d = reserved_prelude_diagnostic(
                u.node_id.display("use"),
                u.span.copy(),
                "module",
                "import alias",
                "Choose a non-conflicting import path.",
            );
            out.push(d);
            assert(diag_views(out@) =~= before.push(diag_view(d)));
        }
        i += 1;
    }
    assert(us@.take(us@.len() as int) =~= us@);
    out
}

/// The model of the diagnostic for a public alias whose target names nothing of the
/// expected kind.
pub open spec fn unresolved_alias_view(alias: PublicAlias, expected_kind: Seq<char>) -> DiagV {
    let target = join_path_view(alias.target.deep_view());
    DiagV {
        id: "name.unresolved"@,
        severity: Severity::Error,
        kind: DiagnosticKind::Name,
        message: "unresolved "@ + expected_kind + " alias target `"@ + target + "`"@,
        span: Some(alias.span@),
        details: JsonV::Object(seq![
            ("phase"@, JsonV::Str("name"@)),
            ("node_id"@, JsonV::Str(node_display(alias.node_id.index, "alias"@))),
            ("expected_kind"@, JsonV::Str(expected_kind)),
            ("target"@, JsonV::Str(target)),
        ]),
        related: Seq::empty(),
    }
}

/// The diagnostic for a public alias whose target names nothing of the expected kind.
pub fn unresolved_alias_diagnostic(alias: &PublicAlias, expected_kind: &'static str) -> (r: Diagnostic)
    ensures
        diag_view(r) == unresolved_alias_view(*alias, expected_kind@),
{
    let target = join_path(alias.target.as_slice());
    let mut message = string_of("unresolved ");
    message.append(expected_kind);
    message.append(" alias target `");
    message.append(target.as_str());
    message.append("`");
    let mut b = ObjectBuilder::new();
    b.push_str("phase", "name");
    b.push_string("node_id", alias.node_id.display("alias"));
    b.push_str("expected_kind", expected_kind);
    b.push_string("target", target);
    let details = b.finish();
    let d = Diagnostic::new("name.unresolved", Severity::Error, DiagnosticKind::Name, message, Some(alias.span.copy()), details);
    proof {
        let v = unresolved_alias_view(*alias, expected_kind@);
        assert(d.details@->Object_0 =~= v.details->Object_0);
        assert(jsons(d.related@) =~= v.related);
        assert(d.message@ =~= v.message);
    }
    d
}

/// The model of the diagnostic for a schema alias whose target is private.
pub open spec fn private_alias_view(alias: PublicAlias) -> DiagV {
    let target = join_path_view(alias.target.deep_view());
    DiagV {
        id: "name.visibility"@,
        severity: Severity::Error,
        kind: DiagnosticKind::Name,
        message: "schema alias target `"@ + target + "` is private"@,
        span: Some(alias.span@),
        details: JsonV::Object(seq![
            ("phase"@, JsonV::Str("name"@)),
            ("node_id"@, JsonV::Str(node_display(alias.node_id.index, "alias"@))),
            ("expected_kind"@, JsonV::Str("schema"@)),
            ("target"@, JsonV::Str(target)),
            ("reason"@, JsonV::Str("private"@)),
        ]),
        related: Seq::empty(),
    }
}

/// The diagnostic for a schema alias whose target is private.
pub fn private_alias_diagnostic(alias: &PublicAlias) -> (r: Diagnostic)
    ensures
        diag_view(r) == private_alias_view(*alias),
{
    let target = join_path(alias.target.as_slice());
    let mut message = string_of("schema alias target `");
    message.append(target.as_str());
    message.append("` is private");
    let mut b = ObjectBuilder::new();
    b.push_str("phase", "name");
    b.push_string("node_id", alias.node_id.display("alias"));
    b.push_str("expected_kind", "schema");
    b.push_string("target", target);
    b.push_str("reason", "private");
    let details = b.finish();
    let d = Diagnostic::new("name.visibility", Severity::Error, DiagnosticKind::Name, message, Some(alias.span.copy()), details);
    proof {
        let v = private_alias_view(*alias);
        assert(d.details@->Object_0 =~= v.details->Object_0);
        assert(jsons(d.related@) =~= v.related);
        assert(d.message@ =~= v.message);
    }
    d
}

/// The model of the diagnostic for a public alias whose target is of another kind.
pub open spec fn alias_kind_mismatch_view(alias: PublicAlias, expected_kind: Seq<char>, actual_kind: Seq<char>) -> DiagV {
    let target = join_path_view(alias.target.deep_view());
    DiagV {
        id: "name.kind_mismatch"@,
        severity: Severity::Error,
        kind: DiagnosticKind::Name,
        message: "public alias target `"@ + target + "` is a "@ + actual_kind + ", not a "@ + expected_kind,
        span: Some(alias.span@),
        details: JsonV::Object(seq![
            ("phase"@, JsonV::Str("name"@)),
            ("node_id"@, JsonV::Str(node_display(alias.node_id.index, "alias"@))),
            ("expected_kind"@, JsonV::Str(expected_kind)),
            ("actual_kind"@, JsonV::Str(actual_kind)),
            ("target"@, JsonV::Str(target)),
        ]),
        related: Seq::empty(),
    }
}

/// The diagnostic for a public alias whose target is of another kind than the alias.
pub fn alias_kind_mismatch_diagnostic(alias: &PublicAlias, expected_kind: &'static str, actual_kind: &'static str) -> (r: Diagnostic)
    ensures
        diag_view(r) == alias_kind_mismatch_view(*alias, expected_kind@, actual_kind@),
{
    let target = join_path(alias.target.as_slice());
    let mut message = string_of("public alias target `");
    message.append(target.as_str());
    message.append("` is a ");
    message.append(actual_kind);
    message.append(", not a ");
    message.append(expected_kind);
    let mut b = ObjectBuilder::new();
    b.push_str("phase", "name");
    b.push_string("node_id", alias.node_id.display("alias"));
    b.push_str("expected_kind", expected_kind);
    b.push_str("actual_kind", actual_kind);
    b.push_string("target", target);
    let details = b.finish();
    let d = Diagnostic::new("name.kind_mismatch", Severity::Error, DiagnosticKind::Name, message, Some(alias.span.copy()), details);
    proof {
        let v = alias_kind_mismatch_view(*alias, expected_kind@, actual_kind@);
        assert(d.details@->Object_0 =~= v.details->Object_0);
        assert(jsons(d.related@) =~= v.related);
        assert(d.message@ =~= v.message);
    }
    d
}

} // verus!
