use vstd::prelude::*;

use crate::ast::{Function, FunctionKind, Visibility};
use crate::diag::{Diagnostic, DiagnosticKind, Severity, SourceSpan, SpanV, jsons, node_display, opt_span_view};
use crate::json::{ArrayBuilder, JsonV, JsonValue, ObjectBuilder, json_string};
use crate::names::effect_row_name;
use crate::predicate_text::{find_from, lemma_find_from, occurs_at, trim};
use crate::semantic::{diag_is, str_array};
use crate::text::{chars_of, has_prefix, string_of};
use crate::env::TypeEnvironment;
use crate::types::{Type, TypeV};

verus! {

/// The boundary an effect declaration is checked at.
pub open spec fn effect_boundary_name(f: Function) -> Seq<char> {
    if f.kind == FunctionKind::Test {
        "test_declaration"@
    } else if f.visibility == Visibility::Public {
        "public_function"@
    } else {
        "private_function"@
    }
}

/// The boundary an effect declaration is checked at.
pub fn declared_effect_boundary(function: &Function) -> (r: &'static str)
    ensures
        r@ == effect_boundary_name(*function),
{
    proof {
        reveal_strlit("test_declaration");
        reveal_strlit("public_function");
        reveal_strlit("private_function");
    }
    match function.kind {
        FunctionKind::Test => "test_declaration",
        FunctionKind::Function => if function.visibility == Visibility::Public { "public_function" } else { "private_function" },
    }
}

/// Where the declared effect at `index` is written, or else the function's span.
pub open spec fn effect_span_at(f: Function, index: int) -> SpanV {
    match f.effect_spans {
        Some(spans) => if 0 <= index < spans@.len() { spans@[index]@ } else { f.span@ },
        None => f.span@,
    }
}

/// Where the declared effect at `index` is written, or else the function's span.
pub fn declared_effect_span(function: &Function, index: usize) -> (r: SourceSpan)
    ensures
        r@ == effect_span_at(*function, index as int),
{
    match &function.effect_spans {
        Some(spans) => if index < spans.len() { spans[index].copy() } else { function.span.copy() },
        None => function.span.copy(),
    }
}

/// The details of an effect diagnostic: phase, node id and boundary.
pub open spec fn effect_details_view(node_id: Seq<char>, boundary: Seq<char>) -> JsonV {
    JsonV::Object(seq![
        ("phase"@, JsonV::Str("effect"@)),
        ("node_id"@, JsonV::Str(node_id)),
        ("boundary"@, JsonV::Str(boundary)),
    ])
}

/// The details of an effect diagnostic: phase, node id and boundary.
pub fn effect_details(node_id: String, boundary: &str) -> (r: JsonValue)
    ensures
        r@ == effect_details_view(node_id@, boundary@),
{
    let ghost n = node_id@;
    let mut b = ObjectBuilder::new();
    b.push_str("phase", "effect");
    b.push_string("node_id", node_id);
    b.push_str("boundary", boundary);
    let r = b.finish();
    assert(r@->Object_0 =~= effect_details_view(n, boundary@)->Object_0);
    r
}

/// The details of an effect row diagnostic.
pub open spec fn row_details_view(node_id: Seq<char>, row: Seq<char>, boundary: Seq<char>) -> JsonV {
    JsonV::Object(seq![
        ("phase"@, JsonV::Str("effect"@)),
        ("node_id"@, JsonV::Str(node_id)),
        ("row"@, JsonV::Str(row)),
        ("boundary"@, JsonV::Str(boundary)),
    ])
}

/// The node id of a function as its kind shows it.
pub open spec fn function_node(f: Function) -> Seq<char> {
    node_display(f.node_id.index, if f.kind == FunctionKind::Test { "test"@ } else { "fn"@ })
}

/// A diagnostic about an effect row tail, at `span` or else at the function.
pub fn effect_row_diagnostic(function: &Function, id: &str, message: String, row: &str, span: Option<SourceSpan>, boundary: &str) -> (r: Diagnostic)
    ensures
        r.id@ == id@,
        r.severity == Severity::Error,
        r.kind == DiagnosticKind::Effect,
        r.message@ == message@,
        opt_span_view(r.span) == Some(match span { Some(s) => s@, None => function.span@ }),
        r.details@ == row_details_view(function_node(*function), row@, boundary@),
        r.related@.len() == 0,
{
    let span = match span {
        Some(s) => s,
        None => function.span.copy(),
    };
    let node = function.node_id.display(function.kind.node_prefix());
    let ghost n = node@;
    let mut b = ObjectBuilder::new();
    b.push_str("phase", "effect");
    b.push_string("node_id", node);
    b.push_str("row", row);
    b.push_str("boundary", boundary);
    let details = b.finish();
    assert(details@->Object_0 =~= row_details_view(n, row@, boundary@)->Object_0);
    Diagnostic::new(id, Severity::Error, DiagnosticKind::Effect, message, Some(span), details)
}

/// Whether one of the first `n` effects is a row tail.
pub open spec fn row_before(effects: Seq<Seq<char>>, n: int) -> bool {
    exists|j: int| 0 <= j < n && has_prefix(#[trigger] effects[j], "..."@)
}

/// The ids of the row diagnostics for the first `n` declared effects: a second row tail,
/// a row tail that is not last, and a row tail the function does not bind.
pub open spec fn row_diagnostic_ids(effects: Seq<Seq<char>>, binder: Option<Seq<char>>, n: int) -> Seq<Seq<char>>
    decreases n,
{
    if n <= 0 || n > effects.len() {
        Seq::empty()
    } else {
        let before = row_diagnostic_ids(effects, binder, n - 1);
        let effect = effects[n - 1];
        if has_prefix(effect, "..."@) {
            let row = effect.skip(3);
            let a = if row_before(effects, n - 1) { before.push("effect.row_multiple"@) } else { before };
            let b = if n != effects.len() { a.push("effect.row_non_final"@) } else { a };
            if binder != Some(row) { b.push("effect.row_unbound"@) } else { b }
        } else {
            before
        }
    }
}

/// The id and details of each row diagnostic for the first `n` effects, as
/// `row_diagnostic_ids` orders them, with details naming the row and the boundary.
pub open spec fn row_reports(effects: Seq<Seq<char>>, binder: Option<Seq<char>>, node: Seq<char>, boundary: Seq<char>, n: int)
    -> Seq<(Seq<char>, JsonV)>
    decreases n,
{
    if n <= 0 || n > effects.len() {
        Seq::empty()
    } else {
        let before = row_reports(effects, binder, node, boundary, n - 1);
        let effect = effects[n - 1];
        if has_prefix(effect, "..."@) {
            let row = effect.skip(3);
            let details = row_details_view(node, row, boundary);
            let a = if row_before(effects, n - 1) { before.push(("effect.row_multiple"@, details)) } else { before };
            let b = if n != effects.len() { a.push(("effect.row_non_final"@, details)) } else { a };
            if binder != Some(row) { b.push(("effect.row_unbound"@, details)) } else { b }
        } else {
            before
        }
    }
}

/// The id and details of each of a list of diagnostics.
pub open spec fn diagnostic_reports(ds: Seq<Diagnostic>) -> Seq<(Seq<char>, JsonV)> {
    Seq::new(ds.len(), |i: int| (ds[i].id@, ds[i].details@))
}

/// The ids of a list of diagnostics.
pub open spec fn diagnostic_ids(ds: Seq<Diagnostic>) -> Seq<Seq<char>> {
    Seq::new(ds.len(), |i: int| ds[i].id@)
}

/// The binder's name, as a model.
pub open spec fn binder_view(b: Option<String>) -> Option<Seq<char>> {
    match b {
        Some(s) => Some(s@),
        None => None,
    }
}

/// Reports declared row tails that repeat, are not last, or are not bound.
pub fn check_effect_row_entries(function: &Function, effects: &Vec<String>, spans: Option<&Vec<SourceSpan>>, boundary: &str) -> (r: Vec<Diagnostic>)
    ensures
        diagnostic_ids(r@) == row_diagnostic_ids(effects.deep_view(), binder_view(function.effect_binder), effects@.len() as int),
        forall|i: int| 0 <= i < r@.len() ==> (#[trigger] r@[i]).kind == DiagnosticKind::Effect,
{
    let ghost es = effects.deep_view();
    let ghost binder = binder_view(function.effect_binder);
    let mut diagnostics: Vec<Diagnostic> = Vec::new();
    let mut row_seen = false;
    let mut index: usize = 0;
    proof { reveal_strlit("..."); }
    assert(diagnostic_ids(diagnostics@) =~= Seq::<Seq<char>>::empty());
    while index < effects.len()
        invariant
            0 <= index <= effects@.len(),
            es == effects.deep_view(),
            binder == binder_view(function.effect_binder),
            row_seen == row_before(es, index as int),
            diagnostic_ids(diagnostics@) == row_diagnostic_ids(es, binder, index as int),
            forall|i: int| 0 <= i < diagnostics@.len() ==> (#[trigger] diagnostics@[i]).kind == DiagnosticKind::Effect,
        decreases effects.len() - index,
    {
        let ghost before = diagnostics@;
        let effect = &effects[index];
        assert(effect@ == es[index as int]);
        match effect_row_name(effect.as_str()) {
            None => {
                proof {
                    assert(row_before(es, index + 1) == row_before(es, index as int)) by {
                        if row_before(es, index + 1) {
                            let j = choose|j: int| 0 <= j < index + 1 && has_prefix(#[trigger] es[j], "..."@);
                            assert(j != index);
                        }
                    }
                }
            },
            Some(row) => {
                let span = match spans {
                    Some(s) => if index < s.len() { Some(s[index].copy()) } else { None },
                    None => None,
                };
                let ghost mid0 = diagnostics@;
                if row_seen {
                    let span1 = match &span { Some(s) => Some(s.copy()), None => None };
                    diagnostics.push(effect_row_diagnostic(function, "effect.row_multiple", string_of("effect set has more than one row tail"), row.as_str(), span1, boundary));
                }
                let ghost mid1 = diagnostics@;
                if index + 1 != effects.len() {
                    let span2 = match &span { Some(s) => Some(s.copy()), None => None };
                    diagnostics.push(effect_row_diagnostic(function, "effect.row_non_final", string_of("effect row tail must be the final effect"), row.as_str(), span2, boundary));
                }
                let ghost mid2 = diagnostics@;
                let bound = match &function.effect_binder {
                    Some(b) => crate::text::str_eq(b.as_str(), row.as_str()),
                    None => false,
                };
                if !bound {
                    let mut message = string_of("effect row variable `");
                    message.append(row.as_str());
                    message.append("` is not bound");
                    diagnostics.push(effect_row_diagnostic(function, "effect.row_unbound", message, row.as_str(), span, boundary));
                }
                proof {
                    assert(has_prefix(es[index as int], "..."@));
                    assert(row_before(es, index + 1));
                    assert(diagnostic_ids(mid1) =~= if row_seen { diagnostic_ids(mid0).push("effect.row_multiple"@) } else { diagnostic_ids(mid0) });
                    assert(diagnostic_ids(mid2) =~= if index + 1 != effects@.len() { diagnostic_ids(mid1).push("effect.row_non_final"@) } else { diagnostic_ids(mid1) });
                    assert(diagnostic_ids(diagnostics@) =~= if binder != Some(row@) { diagnostic_ids(mid2).push("effect.row_unbound"@) } else { diagnostic_ids(mid2) });
                }
                row_seen = true;
            },
        }
        index += 1;
    }
    diagnostics
}


/// The first position, from `from` on, where `p` occurs in `v`.
pub fn find_chars(v: &Vec<char>, p: &Vec<char>, from: usize) -> (r: Option<usize>)
    ensures
        match r {
            Some(k) => find_from(v@, p@, from as int) == Some(k as int),
            None => find_from(v@, p@, from as int) is None,
        },
{
    let n = v.len();
    let m = p.len();
    if m > n || from > n - m {
        return None;
    }
    let last = n - m;
    let mut i = from;
    loop
        invariant
            n == v@.len(),
            m == p@.len(),
            m <= n,
            last == n - m,
            from <= i <= last,
            find_from(v@, p@, from as int) == find_from(v@, p@, i as int),
        decreases last - i,
    {
        let mut k: usize = 0;
        let mut same = true;
        while k < m
            invariant
                0 <= k <= m,
                i + m <= n,
                n == v@.len(),
                m == p@.len(),
                same == (forall|j: int| 0 <= j < k ==> v@[i + j] == p@[j]),
            decreases m - k,
        {
            if v[i + k] != p[k] {
                same = false;
            }
            k += 1;
        }
        proof {
            if same {
                assert(v@.subrange(i as int, i + m) =~= p@);
            } else {
                let j = choose|j: int| 0 <= j < m && v@[i + j] != p@[j];
                assert(v@.subrange(i as int, i + m)[j] != p@[j]);
            }
        }
        if same {
            return Some(i);
        }
        if i == last {
            assert(find_from(v@, p@, i + 1) is None);
            return None;
        }
        i += 1;
    }
}

/// Where, as a character position, `effect` is written inside an `effects [...]`
/// clause of the annotation, searching the clauses from position `from` on.
pub open spec fn effect_offset_from(a: Seq<char>, effect: Seq<char>, from: int) -> Option<int>
    decreases a.len() + 1 - from,
{
    if from < 0 || from > a.len() {
        None
    } else {
        match find_from(a, "effects"@, from) {
            None => None,
            Some(e) => match find_from(a, "["@, e) {
                None => None,
                Some(open) => match find_from(a, "]"@, open) {
                    None => None,
                    Some(close) => match find_from(a.subrange(open + 1, close), effect, 0) {
                        Some(k) => Some(open + 1 + k),
                        None => {
                            proof {
                                lemma_find_from(a, "effects"@, from);
                                lemma_find_from(a, "["@, e);
                                lemma_find_from(a, "]"@, open);
                            }
                            effect_offset_from(a, effect, close + 1)
                        },
                    },
                },
            },
        }
    }
}

/// Where, as a character position, `effect` is written inside an `effects [...]` clause.
pub fn effect_offset_in_effect_clause(annotation: &str, effect: &str) -> (r: Option<usize>)
    ensures
        match r {
            Some(k) => effect_offset_from(annotation@, effect@, 0) == Some(k as int),
            None => effect_offset_from(annotation@, effect@, 0) is None,
        },
{
    let a = chars_of(annotation);
    let effects_word = chars_of("effects");
    let open_bracket = chars_of("[");
    let close_bracket = chars_of("]");
    let e = chars_of(effect);
    proof {
        reveal_strlit("effects");
        reveal_strlit("[");
        reveal_strlit("]");
    }
    let n = a.len();
    let mut search_from: usize = 0;
    loop
        invariant
            n == a@.len(),
            a@ == annotation@,
            e@ == effect@,
            effects_word@ == "effects"@,
            open_bracket@ == "["@,
            close_bracket@ == "]"@,
            search_from <= a@.len(),
            effect_offset_from(annotation@, effect@, 0) == effect_offset_from(annotation@, effect@, search_from as int),
        decreases a@.len() - search_from,
    {
        let at = match find_chars(&a, &effects_word, search_from) {
            Some(k) => k,
            None => return None,
        };
        let open = match find_chars(&a, &open_bracket, at) {
            Some(k) => k,
            None => return None,
        };
        let close = match find_chars(&a, &close_bracket, open) {
            Some(k) => k,
            None => return None,
        };
        proof {
            lemma_find_from(annotation@, "effects"@, search_from as int);
            lemma_find_from(annotation@, "["@, at as int);
            lemma_find_from(annotation@, "]"@, open as int);
            assert(annotation@.subrange(open as int, open + 1)[0] == '[');
            assert(annotation@.subrange(close as int, close + 1)[0] == ']');
        }
        let inside: Vec<char> = {
            let mut v: Vec<char> = Vec::new();
            let mut j = open + 1;
            while j < close
                invariant
                    open + 1 <= j <= close,
                    close < a@.len(),
                    v@ == a@.subrange(open + 1, j as int),
                decreases close - j,
            {
                v.push(a[j]);
                assert(a@.subrange(open + 1, j + 1) =~= a@.subrange(open + 1, j as int).push(a@[j as int]));
                j += 1;
            }
            v
        };
        match find_chars(&inside, &e, 0) {
            Some(k) => {
                proof { lemma_find_from(inside@, e@, 0); }
                return Some(open + 1 + k);
            },
            None => {},
        }
        search_from = close + 1;
    }
}


pub proof fn lemma_effect_offset_bound(a: Seq<char>, effect: Seq<char>, from: int)
    ensures
        effect_offset_from(a, effect, from) matches Some(k) ==> 0 <= k && k + effect.len() <= a.len(),
    decreases a.len() + 1 - from,
{
    reveal_strlit("effects");
    reveal_strlit("[");
    reveal_strlit("]");
    if !(from < 0 || from > a.len()) {
        lemma_find_from(a, "effects"@, from);
        if let Some(e) = find_from(a, "effects"@, from) {
            lemma_find_from(a, "["@, e);
            if let Some(open) = find_from(a, "["@, e) {
                lemma_find_from(a, "]"@, open);
                if let Some(close) = find_from(a, "]"@, open) {
                    assert(a.subrange(open, open + 1)[0] == '[');
                    assert(a.subrange(close, close + 1)[0] == ']');
                    let inside = a.subrange(open + 1, close);
                    lemma_find_from(inside, effect, 0);
                    if find_from(inside, effect, 0) is None {
                        lemma_effect_offset_bound(a, effect, close + 1);
                    }
                }
            }
        }
    }
}

/// The span of `effect` inside an annotation written at `span`, when the annotation has
/// it in an `effects [...]` clause.
pub open spec fn effect_span_in(a: Seq<char>, span: SpanV, effect: Seq<char>) -> Option<SpanV> {
    match effect_offset_from(a, effect, 0) {
        Some(k) => Some(SpanV {
            file: span.file,
            start_line: span.start_line,
            start_column: (span.start_column + k) as u32,
            end_line: span.start_line,
            end_column: (span.start_column + k + effect.len()) as u32,
        }),
        None => None,
    }
}

/// The span of `effect` inside an annotation written at `annotation_span`.
pub fn type_effect_span(annotation: &str, annotation_span: &SourceSpan, effect: &str) -> (r: Option<SourceSpan>)
    requires
        annotation_span.start_column + annotation@.len() <= u32::MAX,
    ensures
        opt_span_view(r) == effect_span_in(annotation@, annotation_span@, effect@),
{
    let offset = match effect_offset_in_effect_clause(annotation, effect) {
        Some(k) => k,
        None => return None,
    };
    proof { lemma_effect_offset_bound(annotation@, effect@, 0); }
    let width = effect.unicode_len();
    let start = annotation_span.start_column + offset as u32;
    Some(SourceSpan {
        file: annotation_span.file.clone(),
        start_line: annotation_span.start_line,
        start_column: start,
        end_line: annotation_span.start_line,
        end_column: start + width as u32,
    })
}

/// The details of an unknown function-type effect diagnostic.
pub open spec fn unknown_type_effect_details(node_id: Seq<char>, effect: Seq<char>, boundary: Seq<char>, known: Seq<Seq<char>>) -> JsonV {
    JsonV::Object(seq![
        ("phase"@, JsonV::Str("effect"@)),
        ("node_id"@, JsonV::Str(node_id)),
        ("effect"@, JsonV::Str(effect)),
        ("boundary"@, JsonV::Str(boundary)),
        ("known_effects"@, str_array(known)),
    ])
}

/// The diagnostic for an effect in a function type that names no known effect.
pub fn unknown_type_effect_diagnostic(function: &Function, effect: &str, annotation: &str, annotation_span: &SourceSpan,
    boundary: &str, known_effects: &Vec<String>) -> (r: Diagnostic)
    requires
        annotation_span.start_column + annotation@.len() <= u32::MAX,
    ensures
        r.id@ == "effect.unknown"@,
        r.severity == Severity::Error,
        r.kind == DiagnosticKind::Effect,
        r.message@ == "function type effect `"@ + effect@ + "` is not known"@,
        opt_span_view(r.span) == effect_span_in(annotation@, annotation_span@, effect@),
        r.details@ == unknown_type_effect_details(function_node(*function), effect@, boundary@, known_effects.deep_view()),
        r.related@.len() == 0,
{
    let mut message = string_of("function type effect `");
    message.append(effect);
    message.append("` is not known");
    let node = function.node_id.display(function.kind.node_prefix());
    let ghost n = node@;
    let mut b = ObjectBuilder::new();
    b.push_str("phase", "effect");
    b.push_string("node_id", node);
    b.push_str("effect", effect);
    b.push_str("boundary", boundary);
    b.push("known_effects", crate::body_diagnostics::string_array(known_effects.clone()));
    let details = b.finish();
    assert(details@->Object_0 =~= unknown_type_effect_details(n, effect@, boundary@, known_effects.deep_view())->Object_0);
    Diagnostic::new("effect.unknown", Severity::Error, DiagnosticKind::Effect, message, type_effect_span(annotation, annotation_span, effect), details)
}


/// Whether an effect in a function type names nothing: it is not a row tail, not a
/// built-in label and not a declared user effect.
pub open spec fn names_no_effect(e: Seq<char>, env: TypeEnvironment, module: Option<Seq<char>>) -> bool {
    !has_prefix(e, "..."@) && !env.known_effect_labels.deep_view().contains(e)
        && crate::env::effect_choice(env.effects@, e, module) is None
}

/// The effects among the first `n` that name nothing, in order.
pub open spec fn unknown_in_effects(es: Seq<Seq<char>>, env: TypeEnvironment, module: Option<Seq<char>>, n: int) -> Seq<Seq<char>>
    decreases n,
{
    if n <= 0 || n > es.len() {
        Seq::empty()
    } else {
        let before = unknown_in_effects(es, env, module, n - 1);
        if names_no_effect(es[n - 1], env, module) { before.push(es[n - 1]) } else { before }
    }
}

/// The effects that name nothing in a type, in the order the type is read: a function
/// type's own effects, then its parameters, variadic parameter and result.
pub open spec fn unknown_type_effects(t: TypeV, env: TypeEnvironment, module: Option<Seq<char>>) -> Seq<Seq<char>>
    decreases t, 1int,
{
    match t {
        TypeV::Function { params, variadic, return_type, effects } => {
            let own = unknown_in_effects(effects, env, module, effects.len() as int);
            let in_params = unknown_in_types(params, env, module, params.len() as int);
            let in_variadic = match variadic {
                Some(v) => unknown_type_effects(*v, env, module),
                None => Seq::empty(),
            };
            own + in_params + in_variadic + unknown_type_effects(*return_type, env, module)
        },
        TypeV::Named { name, args } => unknown_in_types(args, env, module, args.len() as int),
        TypeV::Record(fields) => unknown_in_fields(fields, env, module, fields.len() as int),
        TypeV::Unknown => Seq::empty(),
    }
}

/// The unknown effects in the first `n` types, in order.
pub open spec fn unknown_in_types(ts: Seq<TypeV>, env: TypeEnvironment, module: Option<Seq<char>>, n: int) -> Seq<Seq<char>>
    decreases ts, n,
{
    if n <= 0 || n > ts.len() {
        Seq::empty()
    } else {
        unknown_in_types(ts, env, module, n - 1) + unknown_type_effects(ts[n - 1], env, module)
    }
}

/// The unknown effects in the types of the first `n` record fields, in order.
pub open spec fn unknown_in_fields(fs: Seq<(Seq<char>, TypeV)>, env: TypeEnvironment, module: Option<Seq<char>>, n: int) -> Seq<Seq<char>>
    decreases fs, n,
{
    if n <= 0 || n > fs.len() {
        Seq::empty()
    } else {
        unknown_in_fields(fs, env, module, n - 1) + unknown_type_effects(fs[n - 1].1, env, module)
    }
}

/// Whether every effect in `s` names nothing.
pub open spec fn all_name_nothing(s: Seq<Seq<char>>, env: TypeEnvironment, module: Option<Seq<char>>) -> bool {
    forall|i: int| 0 <= i < s.len() ==> names_no_effect(#[trigger] s[i], env, module)
}

proof fn lemma_all_name_nothing_concat(a: Seq<Seq<char>>, b: Seq<Seq<char>>, env: TypeEnvironment, module: Option<Seq<char>>)
    requires
        all_name_nothing(a, env, module),
        all_name_nothing(b, env, module),
    ensures
        all_name_nothing(a + b, env, module),
{
    assert forall|i: int| 0 <= i < (a + b).len() implies names_no_effect(#[trigger] (a + b)[i], env, module) by {
        if i < a.len() {
            assert((a + b)[i] == a[i]);
        } else {
            assert((a + b)[i] == b[i - a.len()]);
        }
    }
}

proof fn lemma_unknown_in_effects(es: Seq<Seq<char>>, env: TypeEnvironment, module: Option<Seq<char>>, n: int)
    ensures
        all_name_nothing(unknown_in_effects(es, env, module, n), env, module),
    decreases n,
{
    if n > 0 && n <= es.len() {
        lemma_unknown_in_effects(es, env, module, n - 1);
        let before = unknown_in_effects(es, env, module, n - 1);
        if names_no_effect(es[n - 1], env, module) {
            assert forall|i: int| 0 <= i < before.push(es[n - 1]).len() implies names_no_effect(#[trigger] before.push(es[n - 1])[i], env, module) by {
                if i < before.len() {
                    assert(before.push(es[n - 1])[i] == before[i]);
                }
            }
        }
    }
}

proof fn lemma_unknown_in_types(ts: Seq<TypeV>, env: TypeEnvironment, module: Option<Seq<char>>, n: int)
    ensures
        all_name_nothing(unknown_in_types(ts, env, module, n), env, module),
    decreases ts, n,
{
    if n > 0 && n <= ts.len() {
        lemma_unknown_in_types(ts, env, module, n - 1);
        law_unknown_type_effects_name_nothing(ts[n - 1], env, module);
        lemma_all_name_nothing_concat(unknown_in_types(ts, env, module, n - 1), unknown_type_effects(ts[n - 1], env, module), env, module);
    }
}

proof fn lemma_unknown_in_fields(fs: Seq<(Seq<char>, TypeV)>, env: TypeEnvironment, module: Option<Seq<char>>, n: int)
    ensures
        all_name_nothing(unknown_in_fields(fs, env, module, n), env, module),
    decreases fs, n,
{
    if n > 0 && n <= fs.len() {
        lemma_unknown_in_fields(fs, env, module, n - 1);
        law_unknown_type_effects_name_nothing(fs[n - 1].1, env, module);
        lemma_all_name_nothing_concat(unknown_in_fields(fs, env, module, n - 1), unknown_type_effects(fs[n - 1].1, env, module), env, module);
    }
}

/// Every effect that a function type annotation is reported for names nothing: it is not
/// a row tail, not a built-in label and not a declared user effect.
pub proof fn law_unknown_type_effects_name_nothing(t: TypeV, env: TypeEnvironment, module: Option<Seq<char>>)
    ensures
        all_name_nothing(unknown_type_effects(t, env, module), env, module),
    decreases t, 1int,
{
    match t {
        TypeV::Function { params, variadic, return_type, effects } => {
            lemma_unknown_in_effects(effects, env, module, effects.len() as int);
            lemma_unknown_in_types(params, env, module, params.len() as int);
            let own = unknown_in_effects(effects, env, module, effects.len() as int);
            let in_params = unknown_in_types(params, env, module, params.len() as int);
            let in_variadic = match variadic {
                Some(v) => unknown_type_effects(*v, env, module),
                None => Seq::empty(),
            };
            match variadic {
                Some(v) => law_unknown_type_effects_name_nothing(*v, env, module),
                None => {},
            }
            law_unknown_type_effects_name_nothing(*return_type, env, module);
            lemma_all_name_nothing_concat(own, in_params, env, module);
            lemma_all_name_nothing_concat(own + in_params, in_variadic, env, module);
            lemma_all_name_nothing_concat(own + in_params + in_variadic, unknown_type_effects(*return_type, env, module), env, module);
        },
        TypeV::Named { name, args } => lemma_unknown_in_types(args, env, module, args.len() as int),
        TypeV::Record(fields) => lemma_unknown_in_fields(fields, env, module, fields.len() as int),
        TypeV::Unknown => {},
    }
}

/// Whether a type is or holds a function type anywhere in its arguments or fields.
pub open spec fn mentions_function_type(t: TypeV) -> bool
    decreases t, 1int,
{
    match t {
        TypeV::Function { .. } => true,
        TypeV::Named { name, args } => function_in_types(args, args.len() as int),
        TypeV::Record(fields) => function_in_fields(fields, fields.len() as int),
        TypeV::Unknown => false,
    }
}

/// Whether one of the first `n` types mentions a function type.
pub open spec fn function_in_types(ts: Seq<TypeV>, n: int) -> bool
    decreases ts, n,
{
    if n <= 0 || n > ts.len() {
        false
    } else {
        function_in_types(ts, n - 1) || mentions_function_type(ts[n - 1])
    }
}

/// Whether the type of one of the first `n` record fields mentions a function type.
pub open spec fn function_in_fields(fs: Seq<(Seq<char>, TypeV)>, n: int) -> bool
    decreases fs, n,
{
    if n <= 0 || n > fs.len() {
        false
    } else {
        function_in_fields(fs, n - 1) || mentions_function_type(fs[n - 1].1)
    }
}

proof fn lemma_no_function_in_types(ts: Seq<TypeV>, env: TypeEnvironment, module: Option<Seq<char>>, n: int)
    requires
        !function_in_types(ts, n),
    ensures
        unknown_in_types(ts, env, module, n) == Seq::<Seq<char>>::empty(),
    decreases ts, n,
{
    if n > 0 && n <= ts.len() {
        lemma_no_function_in_types(ts, env, module, n - 1);
        law_no_function_type_no_unknown_effect(ts[n - 1], env, module);
        assert(Seq::<Seq<char>>::empty() + Seq::<Seq<char>>::empty() =~= Seq::<Seq<char>>::empty());
    }
}

proof fn lemma_no_function_in_fields(fs: Seq<(Seq<char>, TypeV)>, env: TypeEnvironment, module: Option<Seq<char>>, n: int)
    requires
        !function_in_fields(fs, n),
    ensures
        unknown_in_fields(fs, env, module, n) == Seq::<Seq<char>>::empty(),
    decreases fs, n,
{
    if n > 0 && n <= fs.len() {
        lemma_no_function_in_fields(fs, env, module, n - 1);
        law_no_function_type_no_unknown_effect(fs[n - 1].1, env, module);
        assert(Seq::<Seq<char>>::empty() + Seq::<Seq<char>>::empty() =~= Seq::<Seq<char>>::empty());
    }
}

/// A type that holds no function type has no effect to report, so checking its
/// annotation adds no unknown-effect diagnostic.
pub proof fn law_no_function_type_no_unknown_effect(t: TypeV, env: TypeEnvironment, module: Option<Seq<char>>)
    requires
        !mentions_function_type(t),
    ensures
        unknown_type_effects(t, env, module) == Seq::<Seq<char>>::empty(),
    decreases t, 1int,
{
    match t {
        TypeV::Named { name, args } => lemma_no_function_in_types(args, env, module, args.len() as int),
        TypeV::Record(fields) => lemma_no_function_in_fields(fields, env, module, fields.len() as int),
        _ => {},
    }
}

/// Whether `new` is `old` followed by one unknown-effect diagnostic for each effect of
/// `effects`, in order.
pub open spec fn reports_unknown_effects(old: Seq<Diagnostic>, new: Seq<Diagnostic>, effects: Seq<Seq<char>>) -> bool {
    &&& new.len() == old.len() + effects.len()
    &&& new.take(old.len() as int) == old
    &&& forall|i: int| 0 <= i < effects.len() ==> (#[trigger] new[old.len() + i]).id@ == "effect.unknown"@
        && new[old.len() + i].message@ == "function type effect `"@ + effects[i] + "` is not known"@
        && new[old.len() + i].kind == DiagnosticKind::Effect
}

/// Checking the effects of a type that holds no function type leaves the diagnostics as
/// they were.
pub proof fn law_no_function_type_reports_nothing(old: Seq<Diagnostic>, new: Seq<Diagnostic>, t: TypeV, env: TypeEnvironment,
    module: Option<Seq<char>>)
    requires
        reports_unknown_effects(old, new, unknown_type_effects(t, env, module)),
        !mentions_function_type(t),
    ensures
        new == old,
{
    law_no_function_type_no_unknown_effect(t, env, module);
    assert(new =~= new.take(old.len() as int));
}


proof fn lemma_reports_append(a: Seq<Diagnostic>, b: Seq<Diagnostic>, c: Seq<Diagnostic>, x: Seq<Seq<char>>, y: Seq<Seq<char>>)
    requires
        reports_unknown_effects(a, b, x),
        reports_unknown_effects(b, c, y),
    ensures
        reports_unknown_effects(a, c, x + y),
{
    assert(c.take(a.len() as int) =~= a) by {
        assert(c.take(b.len() as int).take(a.len() as int) =~= c.take(a.len() as int));
    }
    assert forall|i: int| 0 <= i < (x + y).len() implies (#[trigger] c[a.len() + i]).id@ == "effect.unknown"@
        && c[a.len() + i].message@ == "function type effect `"@ + (x + y)[i] + "` is not known"@
        && c[a.len() + i].kind == DiagnosticKind::Effect by {
        if i < x.len() {
            assert(c[a.len() + i] == c.take(b.len() as int)[a.len() + i]);
            assert(b[a.len() + i].id@ == "effect.unknown"@);
        } else {
            let j = i - x.len();
            assert(c[b.len() + j].id@ == "effect.unknown"@);
        }
    }
}

proof fn lemma_reports_none(a: Seq<Diagnostic>)
    ensures
        reports_unknown_effects(a, a, Seq::empty()),
{
    assert(a.take(a.len() as int) =~= a);
}

/// Reports each effect in a function type written in an annotation that names nothing.
pub fn collect_unknown_type_effects(ty: &Type, annotation: &str, annotation_span: &SourceSpan, function: &Function,
    environment: &TypeEnvironment, boundary: &str, diagnostics: &mut Vec<Diagnostic>)
    requires
        annotation_span.start_column + annotation@.len() <= u32::MAX,
    ensures
        reports_unknown_effects(old(diagnostics)@, final(diagnostics)@,
            unknown_type_effects(ty@, *environment, crate::infer::opt_module(function.module_name))),
    decreases ty,
{
    let ghost module = crate::infer::opt_module(function.module_name);
    let ghost start = diagnostics@;
    let current_module = crate::patterns::module_of(&function.module_name);
    proof { lemma_reports_none(start); }
    match ty {
        Type::Function { params, variadic, return_type, effects } => {
            proof { crate::types::lemma_function_view(*params, *variadic, *return_type, *effects); }
            let mut i: usize = 0;
            while i < effects.len()
                invariant
                    0 <= i <= effects@.len(),
                    crate::env::opt_str(current_module) == module,
                    annotation_span.start_column + annotation@.len() <= u32::MAX,
                    reports_unknown_effects(start, diagnostics@, unknown_in_effects(effects.deep_view(), *environment, module, i as int)),
                decreases effects.len() - i,
            {
                let effect = effects[i].as_str();
                let ghost before = diagnostics@;
                let is_row = effect_row_name(effect).is_some();
                let known = crate::text::contains_str(&environment.known_effect_labels, effect);
                let declared = environment.user_effect_path(effect, current_module).is_some();
                proof { reveal_strlit("..."); }
                if !is_row && !known && !declared {
                    let d = unknown_type_effect_diagnostic(function, effect, annotation, annotation_span, boundary, &environment.known_effect_labels);
                    diagnostics.push(d);
                    proof {
                        let items = unknown_in_effects(effects.deep_view(), *environment, module, i as int);
                        assert(unknown_in_effects(effects.deep_view(), *environment, module, i + 1) == items.push(effect@));
                        assert(diagnostics@.take(before.len() as int) =~= before);
                        assert(reports_unknown_effects(before, diagnostics@, seq![effect@]));
                        lemma_reports_append(start, before, diagnostics@, items, seq![effect@]);
                        assert(items + seq![effect@] =~= items.push(effect@));
                    }
                } else {
                    assert(unknown_in_effects(effects.deep_view(), *environment, module, i + 1) == unknown_in_effects(effects.deep_view(), *environment, module, i as int));
                }
                i += 1;
            }
            let ghost after_own = diagnostics@;
            let mut k: usize = 0;
            proof { lemma_reports_none(after_own); }
            while k < params.len()
                invariant
                    0 <= k <= params@.len(),
                    annotation_span.start_column + annotation@.len() <= u32::MAX,
                    reports_unknown_effects(after_own, diagnostics@, unknown_in_types(crate::types::types_view(params@), *environment, module, k as int)),
                decreases params.len() - k,
            {
                let ghost before = diagnostics@;
                assert(decreases_to!(*ty => params@[k as int]));
                collect_unknown_type_effects(&params[k], annotation, annotation_span, function, environment, boundary, diagnostics);
                proof {
                    lemma_reports_append(after_own, before, diagnostics@,
                        unknown_in_types(crate::types::types_view(params@), *environment, module, k as int),
                        unknown_type_effects(params@[k as int]@, *environment, module));
                }
                k += 1;
            }
            let ghost after_params = diagnostics@;
            proof { lemma_reports_none(after_params); }
            match variadic {
                Some(v) => {
                    assert(decreases_to!(*ty => **v));
                    collect_unknown_type_effects(v, annotation, annotation_span, function, environment, boundary, diagnostics);
                },
                None => {},
            }
            let ghost after_variadic = diagnostics@;
            collect_unknown_type_effects(return_type, annotation, annotation_span, function, environment, boundary, diagnostics);
            proof {
                let own = unknown_in_effects(effects.deep_view(), *environment, module, effects@.len() as int);
                let ps = unknown_in_types(crate::types::types_view(params@), *environment, module, params@.len() as int);
                let vs = match variadic { Some(v) => unknown_type_effects((**v)@, *environment, module), None => Seq::empty() };
                lemma_reports_append(start, after_own, after_params, own, ps);
                lemma_reports_append(start, after_params, after_variadic, own + ps, vs);
                lemma_reports_append(start, after_variadic, diagnostics@, own + ps + vs, unknown_type_effects((**return_type)@, *environment, module));
            }
        },
        Type::Named { name, args } => {
            proof { crate::types::lemma_named_view(*name, *args); }
            let mut k: usize = 0;
            while k < args.len()
                invariant
                    0 <= k <= args@.len(),
                    annotation_span.start_column + annotation@.len() <= u32::MAX,
                    reports_unknown_effects(start, diagnostics@, unknown_in_types(crate::types::types_view(args@), *environment, module, k as int)),
                decreases args.len() - k,
            {
                let ghost before = diagnostics@;
                assert(decreases_to!(*ty => args@[k as int]));
                collect_unknown_type_effects(&args[k], annotation, annotation_span, function, environment, boundary, diagnostics);
                proof {
                    lemma_reports_append(start, before, diagnostics@,
                        unknown_in_types(crate::types::types_view(args@), *environment, module, k as int),
                        unknown_type_effects(args@[k as int]@, *environment, module));
                }
                k += 1;
            }
        },
        Type::Record(fields) => {
            proof { crate::types::lemma_record_view(*fields); }
            let mut k: usize = 0;
            while k < fields.len()
                invariant
                    0 <= k <= fields@.len(),
                    annotation_span.start_column + annotation@.len() <= u32::MAX,
                    reports_unknown_effects(start, diagnostics@, unknown_in_fields(crate::types::fields_view(fields@), *environment, module, k as int)),
                decreases fields.len() - k,
            {
                let ghost before = diagnostics@;
                assert(decreases_to!(*ty => fields@[k as int].1));
                collect_unknown_type_effects(&fields[k].1, annotation, annotation_span, function, environment, boundary, diagnostics);
                proof {
                    lemma_reports_append(start, before, diagnostics@,
                        unknown_in_fields(crate::types::fields_view(fields@), *environment, module, k as int),
                        unknown_type_effects(fields@[k as int].1@, *environment, module));
                }
                k += 1;
            }
        },
        Type::Unknown => {},
    }
}


/// Whether a diagnostic id is one of the effect row diagnostics.
pub open spec fn is_row_diagnostic_id(id: Seq<char>) -> bool {
    id == "effect.row_multiple"@ || id == "effect.row_non_final"@ || id == "effect.row_unbound"@
}

/// The trimmed entries of a comma-separated list.
pub open spec fn trimmed_entries(text: Seq<char>) -> Seq<Seq<char>> {
    Seq::new(crate::predicate_text::split_on(text, ',').len(), |i: int| trim(crate::predicate_text::split_on(text, ',')[i]))
}

/// The ids of the row diagnostics of the `effects [...]` clauses of an annotation from
/// position `from` on: for each clause, those of its entries as a declared effect list.
pub open spec fn annotation_row_ids(a: Seq<char>, from: int, binder: Option<Seq<char>>) -> Seq<Seq<char>>
    decreases a.len() - from,
{
    if from < 0 || from > a.len() {
        Seq::empty()
    } else {
        match find_from(a, "effects"@, from) {
            None => Seq::empty(),
            Some(at) => match find_from(a, "["@, at) {
                None => Seq::empty(),
                Some(open) => match find_from(a, "]"@, open) {
                    None => Seq::empty(),
                    Some(close) => {
                        proof { lemma_find_from(a, "]"@, open); lemma_find_from(a, "["@, at); lemma_find_from(a, "effects"@, from); }
                        let entries = trimmed_entries(a.subrange(open + 1, close));
                        if close + 1 > from && close < a.len() && open + 1 <= close {
                            row_diagnostic_ids(entries, binder, entries.len() as int) + annotation_row_ids(a, close + 1, binder)
                        } else {
                            Seq::empty()
                        }
                    },
                },
            },
        }
    }
}

/// The id and details of the row diagnostics of the `effects [...]` clauses of an
/// annotation from position `from` on, in the order `annotation_row_ids` gives.
pub open spec fn annotation_row_reports(a: Seq<char>, from: int, binder: Option<Seq<char>>, node: Seq<char>, boundary: Seq<char>)
    -> Seq<(Seq<char>, JsonV)>
    decreases a.len() - from,
{
    if from < 0 || from > a.len() {
        Seq::empty()
    } else {
        match find_from(a, "effects"@, from) {
            None => Seq::empty(),
            Some(at) => match find_from(a, "["@, at) {
                None => Seq::empty(),
                Some(open) => match find_from(a, "]"@, open) {
                    None => Seq::empty(),
                    Some(close) => {
                        proof { lemma_find_from(a, "]"@, open); lemma_find_from(a, "["@, at); lemma_find_from(a, "effects"@, from); }
                        let entries = trimmed_entries(a.subrange(open + 1, close));
                        if close + 1 > from && close < a.len() && open + 1 <= close {
                            row_reports(entries, binder, node, boundary, entries.len() as int)
                                + annotation_row_reports(a, close + 1, binder, node, boundary)
                        } else {
                            Seq::empty()
                        }
                    },
                },
            },
        }
    }
}

/// The row tails written in the `effects [...]` clauses of a function type annotation:
/// reports a second row tail in a clause, one that is not last, and one that the
/// function does not bind.
pub fn check_annotation_effect_rows(annotation: &str, annotation_span: &SourceSpan, function: &Function, boundary: &str) -> (r: Vec<Diagnostic>)
    requires
        annotation_span.start_column + annotation@.len() <= u32::MAX,
    ensures
        forall|i: int| 0 <= i < r@.len() ==> is_row_diagnostic_id((#[trigger] r@[i]).id@) && r@[i].kind == DiagnosticKind::Effect,
        diagnostic_ids(r@) == annotation_row_ids(annotation@, 0, binder_view(function.effect_binder)),
        diagnostic_reports(r@) == annotation_row_reports(annotation@, 0, binder_view(function.effect_binder), function_node(*function), boundary@),
{
    let mut diagnostics: Vec<Diagnostic> = Vec::new();
    let a = chars_of(annotation);
    let effects_word = chars_of("effects");
    let open_bracket = chars_of("[");
    let close_bracket = chars_of("]");
    let n = a.len();
    let mut search_from: usize = 0;
    let ghost binder = binder_view(function.effect_binder);
    let ghost node = function_node(*function);
    proof {
        assert(diagnostic_reports(diagnostics@) + annotation_row_reports(annotation@, 0, binder, node, boundary@)
            =~= annotation_row_reports(annotation@, 0, binder, node, boundary@));
        reveal_strlit("effects");
        reveal_strlit("[");
        reveal_strlit("]");
        reveal_strlit("...");
        assert(diagnostic_ids(diagnostics@) + annotation_row_ids(annotation@, 0, binder) =~= annotation_row_ids(annotation@, 0, binder));
    }
    loop
        invariant
            n == a@.len(),
            a@ == annotation@,
            effects_word@ == "effects"@,
            open_bracket@ == "["@,
            close_bracket@ == "]"@,
            search_from <= n,
            binder == binder_view(function.effect_binder),
            annotation_span.start_column + annotation@.len() <= u32::MAX,
            forall|i: int| 0 <= i < diagnostics@.len() ==> is_row_diagnostic_id((#[trigger] diagnostics@[i]).id@) && diagnostics@[i].kind == DiagnosticKind::Effect,
            diagnostic_ids(diagnostics@) + annotation_row_ids(annotation@, search_from as int, binder) == annotation_row_ids(annotation@, 0, binder),
            node == function_node(*function),
            diagnostic_reports(diagnostics@) + annotation_row_reports(annotation@, search_from as int, binder, node, boundary@)
                == annotation_row_reports(annotation@, 0, binder, node, boundary@),
        decreases n - search_from,
    {
        let at = match find_chars(&a, &effects_word, search_from) {
            Some(k) => k,
            None => {
                assert(diagnostic_ids(diagnostics@) + Seq::<Seq<char>>::empty() =~= diagnostic_ids(diagnostics@));
                assert(diagnostic_reports(diagnostics@) + Seq::<(Seq<char>, JsonV)>::empty() =~= diagnostic_reports(diagnostics@));
                return diagnostics;
            },
        };
        let open = match find_chars(&a, &open_bracket, at) {
            Some(k) => k,
            None => {
                assert(diagnostic_ids(diagnostics@) + Seq::<Seq<char>>::empty() =~= diagnostic_ids(diagnostics@));
                assert(diagnostic_reports(diagnostics@) + Seq::<(Seq<char>, JsonV)>::empty() =~= diagnostic_reports(diagnostics@));
                return diagnostics;
            },
        };
        let close = match find_chars(&a, &close_bracket, open) {
            Some(k) => k,
            None => {
                assert(diagnostic_ids(diagnostics@) + Seq::<Seq<char>>::empty() =~= diagnostic_ids(diagnostics@));
                assert(diagnostic_reports(diagnostics@) + Seq::<(Seq<char>, JsonV)>::empty() =~= diagnostic_reports(diagnostics@));
                return diagnostics;
            },
        };
        proof {
            lemma_find_from(annotation@, "effects"@, search_from as int);
            lemma_find_from(annotation@, "["@, at as int);
            lemma_find_from(annotation@, "]"@, open as int);
            assert(annotation@.subrange(open as int, open + 1)[0] == '[');
            assert(annotation@.subrange(close as int, close + 1)[0] == ']');
        }
        let inside = crate::predicate_text::string_from(&a, open + 1, close);
        let pieces = crate::predicate_text::split_on_char(inside.as_str(), ',');
        let ghost entries = trimmed_entries(annotation@.subrange(open + 1, close as int));
        let ghost start_ids = diagnostic_ids(diagnostics@);
        let ghost start_reports = diagnostic_reports(diagnostics@);
        let mut row_seen = false;
        let mut index: usize = 0;
        assert(start_ids + row_diagnostic_ids(entries, binder, 0) =~= start_ids);
        assert(start_reports + row_reports(entries, binder, node, boundary@, 0) =~= start_reports);
        while index < pieces.len()
            invariant
                0 <= index <= pieces@.len(),
                entries.len() == pieces@.len(),
                pieces.deep_view() == crate::predicate_text::split_on(inside@, ','),
                inside@ == annotation@.subrange(open + 1, close as int),
                entries == trimmed_entries(annotation@.subrange(open + 1, close as int)),
                binder == binder_view(function.effect_binder),
                row_seen == row_before(entries, index as int),
                diagnostic_ids(diagnostics@) == start_ids + row_diagnostic_ids(entries, binder, index as int),
                node == function_node(*function),
                diagnostic_reports(diagnostics@) == start_reports + row_reports(entries, binder, node, boundary@, index as int),
                annotation_span.start_column + annotation@.len() <= u32::MAX,
                forall|i: int| 0 <= i < diagnostics@.len() ==> is_row_diagnostic_id((#[trigger] diagnostics@[i]).id@) && diagnostics@[i].kind == DiagnosticKind::Effect,
            decreases pieces.len() - index,
        {
            let entry = crate::predicate_text::trimmed(pieces[index].as_str());
            assert(entry@ == entries[index as int]);
            let ghost mid0 = diagnostics@;
            match effect_row_name(entry.as_str()) {
                Some(row) => {
                    if row_seen {
                        diagnostics.push(effect_row_diagnostic(function, "effect.row_multiple", string_of("effect set has more than one row tail"),
                            row.as_str(), type_effect_span(annotation, annotation_span, entry.as_str()), boundary));
                    }
                    let ghost mid1 = diagnostics@;
                    if index + 1 != pieces.len() {
                        diagnostics.push(effect_row_diagnostic(function, "effect.row_non_final", string_of("effect row tail must be the final effect"),
                            row.as_str(), type_effect_span(annotation, annotation_span, entry.as_str()), boundary));
                    }
                    let ghost mid2 = diagnostics@;
                    let bound = match &function.effect_binder {
                        Some(b) => crate::text::str_eq(b.as_str(), row.as_str()),
                        None => false,
                    };
                    if !bound {
                        let mut message = string_of("effect row variable `");
                        message.append(row.as_str());
                        message.append("` is not bound");
                        diagnostics.push(effect_row_diagnostic(function, "effect.row_unbound", message, row.as_str(),
                            type_effect_span(annotation, annotation_span, entry.as_str()), boundary));
                    }
                    proof {
                        assert(has_prefix(entries[index as int], "..."@));
                        assert(row_before(entries, index + 1));
                        assert(diagnostic_ids(mid1) =~= if row_seen { diagnostic_ids(mid0).push("effect.row_multiple"@) } else { diagnostic_ids(mid0) });
                        assert(diagnostic_ids(mid2) =~= if index + 1 != entries.len() { diagnostic_ids(mid1).push("effect.row_non_final"@) } else { diagnostic_ids(mid1) });
                        assert(diagnostic_ids(diagnostics@) =~= if binder != Some(row@) { diagnostic_ids(mid2).push("effect.row_unbound"@) } else { diagnostic_ids(mid2) });
                        assert(diagnostic_ids(diagnostics@) =~= start_ids + row_diagnostic_ids(entries, binder, index + 1));
                        let details = row_details_view(node, row@, boundary@);
                        assert(diagnostic_reports(mid1) =~= if row_seen { diagnostic_reports(mid0).push(("effect.row_multiple"@, details)) } else { diagnostic_reports(mid0) });
                        assert(diagnostic_reports(mid2) =~= if index + 1 != entries.len() { diagnostic_reports(mid1).push(("effect.row_non_final"@, details)) } else { diagnostic_reports(mid1) });
                        assert(diagnostic_reports(diagnostics@) =~= if binder != Some(row@) { diagnostic_reports(mid2).push(("effect.row_unbound"@, details)) } else { diagnostic_reports(mid2) });
                        assert(diagnostic_reports(diagnostics@) =~= start_reports + row_reports(entries, binder, node, boundary@, index + 1));
                    }
                    row_seen = true;
                },
                None => {
                    proof {
                        assert(row_before(entries, index + 1) == row_before(entries, index as int)) by {
                            if row_before(entries, index + 1) {
                                let j = choose|j: int| 0 <= j < index + 1 && has_prefix(#[trigger] entries[j], "..."@);
                                assert(j != index);
                            }
                        }
                    }
                },
            }
            index += 1;
        }
        proof {
            assert(diagnostic_ids(diagnostics@) + annotation_row_ids(annotation@, close + 1, binder)
                =~= start_ids + annotation_row_ids(annotation@, search_from as int, binder));
            assert(diagnostic_reports(diagnostics@) + annotation_row_reports(annotation@, close + 1, binder, node, boundary@)
                =~= start_reports + annotation_row_reports(annotation@, search_from as int, binder, node, boundary@));
        }
        search_from = close + 1;
    }
}


/// Whether every annotation of the function fits its span's columns when effect spans
/// are measured inside it.
pub open spec fn annotation_columns_fit(f: Function) -> bool {
    &&& forall|i: int| 0 <= i < f.params@.len() ==> columns_fit((#[trigger] f.params@[i]).ty, f.params@[i].ty_span)
    &&& columns_fit(f.return_type, f.return_type_span)
}

/// Whether an annotation's text fits the columns after the start of its span.
pub open spec fn columns_fit(a: Option<crate::ast::Annotation>, span: Option<SourceSpan>) -> bool {
    match (a, span) {
        (Some(x), Some(s)) => s.start_column + x.text@.len() <= u32::MAX,
        _ => true,
    }
}

/// Checks the effect labels of a function type annotation: its row tails, then, when it
/// parses, every effect that names nothing.
pub fn check_type_effect_labels(annotation: &crate::ast::Annotation, annotation_span: &SourceSpan, function: &Function,
    environment: &TypeEnvironment, boundary: &str) -> (r: Vec<Diagnostic>)
    requires
        annotation_span.start_column + annotation.text@.len() <= u32::MAX,
    ensures
        forall|i: int| 0 <= i < r@.len() ==> (#[trigger] r@[i]).kind == DiagnosticKind::Effect,
        annotation.parsed is Err ==> forall|i: int| 0 <= i < r@.len() ==> is_row_diagnostic_id((#[trigger] r@[i]).id@),
        ({
            let rows = annotation_row_ids(annotation.text@, 0, binder_view(function.effect_binder));
            &&& r@.len() >= rows.len()
            &&& diagnostic_ids(r@.take(rows.len() as int)) == rows
            &&& match annotation.parsed {
                Ok(t) => reports_unknown_effects(r@.take(rows.len() as int), r@,
                    unknown_type_effects(t@, *environment, crate::infer::opt_module(function.module_name))),
                Err(_) => r@.len() == rows.len(),
            }
        }),
{
    let mut diagnostics = check_annotation_effect_rows(annotation.text.as_str(), annotation_span, function, boundary);
    let ghost rows = diagnostics@;
    assert(diagnostics@.take(rows.len() as int) =~= rows);
    match &annotation.parsed {
        Ok(ty) => {
            collect_unknown_type_effects(ty, annotation.text.as_str(), annotation_span, function, environment, boundary, &mut diagnostics);
            proof {
                let u = unknown_type_effects(ty@, *environment, crate::infer::opt_module(function.module_name));
                assert forall|i: int| 0 <= i < diagnostics@.len() implies (#[trigger] diagnostics@[i]).kind == DiagnosticKind::Effect by {
                    if i < rows.len() {
                        assert(diagnostics@[i] == diagnostics@.take(rows.len() as int)[i]);
                    } else {
                        assert(diagnostics@[rows.len() + (i - rows.len())].kind == DiagnosticKind::Effect);
                    }
                }
                assert(diagnostics@.take(rows.len() as int) == rows);
            }
        },
        Err(_) => {},
    }
    diagnostics
}

/// Checks the effect labels written in the function's parameter and return annotations.
pub fn check_function_type_effect_labels(function: &Function, environment: &TypeEnvironment) -> (r: Vec<Diagnostic>)
    requires
        annotation_columns_fit(*function),
    ensures
        forall|i: int| 0 <= i < r@.len() ==> (#[trigger] r@[i]).kind == DiagnosticKind::Effect,
{
    let mut diagnostics: Vec<Diagnostic> = Vec::new();
    let mut i: usize = 0;
    while i < function.params.len()
        invariant
            0 <= i <= function.params@.len(),
            annotation_columns_fit(*function),
            forall|k: int| 0 <= k < diagnostics@.len() ==> (#[trigger] diagnostics@[k]).kind == DiagnosticKind::Effect,
        decreases function.params.len() - i,
    {
        let param = &function.params[i];
        match (&param.ty, &param.ty_span) {
            (Some(a), Some(span)) => {
                assert(columns_fit(function.params@[i as int].ty, function.params@[i as int].ty_span));
                let mut found = check_type_effect_labels(a, span, function, environment, "parameter_type");
                let ghost before = diagnostics@;
                let ghost more = found@;
                diagnostics.append(&mut found);
                assert forall|k: int| 0 <= k < diagnostics@.len() implies (#[trigger] diagnostics@[k]).kind == DiagnosticKind::Effect by {
                    if k >= before.len() {
                        assert(diagnostics@[k] == more[k - before.len()]);
                    }
                }
            },
            _ => {},
        }
        i += 1;
    }
    match (&function.return_type, &function.return_type_span) {
        (Some(a), Some(span)) => {
            let mut found = check_type_effect_labels(a, span, function, environment, "return_type");
            let ghost before = diagnostics@;
            let ghost more = found@;
            diagnostics.append(&mut found);
            assert forall|k: int| 0 <= k < diagnostics@.len() implies (#[trigger] diagnostics@[k]).kind == DiagnosticKind::Effect by {
                if k >= before.len() {
                    assert(diagnostics@[k] == more[k - before.len()]);
                }
            }
        },
        _ => {},
    }
    diagnostics
}

/// The details of an unknown declared effect diagnostic.
pub open spec fn unknown_declared_details_view(node_id: Seq<char>, effect: Seq<char>, boundary: Seq<char>, declared: Seq<Seq<char>>, known: Seq<Seq<char>>) -> JsonV {
    JsonV::Object(seq![
        ("phase"@, JsonV::Str("effect"@)),
        ("node_id"@, JsonV::Str(node_id)),
        ("effect"@, JsonV::Str(effect)),
        ("boundary"@, JsonV::Str(boundary)),
        ("declared_effects"@, str_array(declared)),
        ("known_effects"@, str_array(known)),
    ])
}

/// A repair hint note.
pub open spec fn repair_hint(message: Seq<char>) -> JsonV {
    JsonV::Object(seq![("kind"@, JsonV::Str("repair_hint"@)), ("message"@, JsonV::Str(message))])
}

pub(crate) fn repair_hint_json(message: &str) -> (r: JsonValue)
    ensures
        r@ == repair_hint(message@),
{
    let mut b = ObjectBuilder::new();
    b.push_str("kind", "repair_hint");
    b.push_str("message", message);
    let r = b.finish();
    assert(r@->Object_0 =~= repair_hint(message@)->Object_0);
    r
}

/// The diagnostic for a declared effect that names nothing.
pub fn unknown_declared_effect_diagnostic(function: &Function, declared_effects: &Vec<String>, effect: &str, effect_index: usize,
    node_prefix: &str, boundary: &str, known_effects: &Vec<String>) -> (r: Diagnostic)
    ensures
        diag_is(r, "effect.unknown"@, DiagnosticKind::Effect, "declared effect `"@ + effect@ + "` is not known"@,
            Some(effect_span_at(*function, effect_index as int)),
            unknown_declared_details_view(node_display(function.node_id.index, node_prefix@), effect@, boundary@,
                declared_effects.deep_view(), known_effects.deep_view()),
            seq![repair_hint("Use a known effect label or remove the declaration."@)]),
{
    let mut message = string_of("declared effect `");
    message.append(effect);
    message.append("` is not known");
    let node = function.node_id.display(node_prefix);
    let ghost n = node@;
    let mut b = ObjectBuilder::new();
    b.push_str("phase", "effect");
    b.push_string("node_id", node);
    b.push_str("effect", effect);
    b.push_str("boundary", boundary);
    b.push("declared_effects", crate::body_diagnostics::string_array(declared_effects.clone()));
    b.push("known_effects", crate::body_diagnostics::string_array(known_effects.clone()));
    let details = b.finish();
    assert(details@->Object_0 =~= unknown_declared_details_view(n, effect@, boundary@, declared_effects.deep_view(), known_effects.deep_view())->Object_0);
    let mut d = Diagnostic::new("effect.unknown", Severity::Error, DiagnosticKind::Effect, message,
        Some(declared_effect_span(function, effect_index)), details);
    let hint = repair_hint_json("Use a known effect label or remove the declaration.");
    let ghost hv = hint@;
    d.related.push(hint);
    assert(jsons(d.related@) =~= seq![hv]);
    d
}

/// The diagnostic for an `effects` clause that lists nothing.
pub fn empty_declared_effect_diagnostic(function: &Function, node_prefix: &str, boundary: &str) -> (r: Diagnostic)
    ensures
        diag_is(r, "effect.empty_declaration"@, DiagnosticKind::Effect,
            "empty effects list is not allowed on a "@ + (if function.kind == FunctionKind::Test { "test declaration"@ } else { "function declaration"@ }),
            Some(function.span@),
            effect_details_view(node_display(function.node_id.index, node_prefix@), boundary@),
            seq![
                repair_hint("Remove the clause when the inferred effect set is empty."@),
                repair_hint("Replace the empty list with non-empty effect labels when the body performs effects."@),
            ]),
{
    let mut message = string_of("empty effects list is not allowed on a ");
    match function.kind {
        FunctionKind::Test => message.append("test declaration"),
        FunctionKind::Function => message.append("function declaration"),
    }
    let details = effect_details(function.node_id.display(node_prefix), boundary);
    let mut d = Diagnostic::new("effect.empty_declaration", Severity::Error, DiagnosticKind::Effect, message, Some(function.span.copy()), details);
    let first = repair_hint_json("Remove the clause when the inferred effect set is empty.");
    let second = repair_hint_json("Replace the empty list with non-empty effect labels when the body performs effects.");
    let ghost fv = first@;
    let ghost sv = second@;
    d.related.push(first);
    d.related.push(second);
    assert(jsons(d.related@) =~= seq![fv, sv]);
    d
}

/// Whether a declared effect names nothing.
pub open spec fn declared_effect_unknown(e: Seq<char>, env: TypeEnvironment, module: Option<Seq<char>>) -> bool {
    names_no_effect(e, env, module)
}

/// The diagnostic for the declared effect at `index`, if it names nothing.
pub fn unknown_declared_effect_diagnostic_for(function: &Function, declared_effects: &Vec<String>, environment: &TypeEnvironment,
    effect: &str, index: usize, node_prefix: &str, boundary: &str) -> (r: Option<Diagnostic>)
    ensures
        r is Some == names_no_effect(effect@, *environment, crate::infer::opt_module(function.module_name)),
        r matches Some(d) ==> d.id@ == "effect.unknown"@ && d.kind == DiagnosticKind::Effect && d.message@ == "declared effect `"@ + effect@ + "` is not known"@,
{
    proof { reveal_strlit("..."); }
    if effect_row_name(effect).is_some() || crate::text::contains_str(&environment.known_effect_labels, effect) {
        return None;
    }
    let module = crate::patterns::module_of(&function.module_name);
    if environment.user_effect_path(effect, module).is_some() {
        return None;
    }
    Some(unknown_declared_effect_diagnostic(function, declared_effects, effect, index, node_prefix, boundary, &environment.known_effect_labels))
}

/// The diagnostics for the declared effects that name nothing, in order.
pub fn check_unknown_declared_effects(function: &Function, declared_effects: &Vec<String>, environment: &TypeEnvironment,
    node_prefix: &str, boundary: &str) -> (r: Vec<Diagnostic>)
    ensures
        r@.len() == unknown_in_effects(declared_effects.deep_view(), *environment, crate::infer::opt_module(function.module_name), declared_effects@.len() as int).len(),
        forall|i: int| 0 <= i < r@.len() ==> (#[trigger] r@[i]).id@ == "effect.unknown"@ && r@[i].kind == DiagnosticKind::Effect
            && r@[i].message@ == "declared effect `"@ + unknown_in_effects(declared_effects.deep_view(), *environment,
                crate::infer::opt_module(function.module_name), declared_effects@.len() as int)[i] + "` is not known"@,
{
    let ghost module = crate::infer::opt_module(function.module_name);
    let ghost es = declared_effects.deep_view();
    let mut out: Vec<Diagnostic> = Vec::new();
    let mut i: usize = 0;
    while i < declared_effects.len()
        invariant
            0 <= i <= declared_effects@.len(),
            es == declared_effects.deep_view(),
            out@.len() == unknown_in_effects(es, *environment, module, i as int).len(),
            forall|k: int| 0 <= k < out@.len() ==> (#[trigger] out@[k]).id@ == "effect.unknown"@ && out@[k].kind == DiagnosticKind::Effect
                && out@[k].message@ == "declared effect `"@ + unknown_in_effects(es, *environment, module, i as int)[k] + "` is not known"@,
        decreases declared_effects.len() - i,
    {
        let ghost before = unknown_in_effects(es, *environment, module, i as int);
        match unknown_declared_effect_diagnostic_for(function, declared_effects, environment, declared_effects[i].as_str(), i, node_prefix, boundary) {
            Some(d) => {
                out.push(d);
                assert(unknown_in_effects(es, *environment, module, i + 1) == before.push(es[i as int]));
            },
            None => {
                assert(unknown_in_effects(es, *environment, module, i + 1) == before);
            },
        }
        i += 1;
    }
    out
}

/// Whether `ds` is what a non-empty `effects` clause reports: the row diagnostics of
/// its entries, then one `effect.unknown` for each entry that names nothing, in order.
pub open spec fn declared_reports(f: Function, env: TypeEnvironment, ds: Seq<Diagnostic>) -> bool {
    let es = f.effects->0.deep_view();
    let rows = row_diagnostic_ids(es, binder_view(f.effect_binder), es.len() as int);
    let unknown = unknown_in_effects(es, env, crate::infer::opt_module(f.module_name), es.len() as int);
    &&& ds.len() == rows.len() + unknown.len()
    &&& diagnostic_ids(ds.take(rows.len() as int)) == rows
    &&& forall|i: int| 0 <= i < unknown.len() ==> (#[trigger] ds[rows.len() + i]).id@ == "effect.unknown"@
        && ds[rows.len() + i].message@ == "declared effect `"@ + unknown[i] + "` is not known"@
}

/// Checks a function's effect labels: those in its type annotations, then its declared
/// `effects` clause, which must not be empty, whose row tails must be single, last and
/// bound, and whose effects must name something.
pub fn check_declared_effect_labels(function: &Function, environment: &TypeEnvironment) -> (r: Vec<Diagnostic>)
    requires
        annotation_columns_fit(*function),
    ensures
        forall|i: int| 0 <= i < r@.len() ==> (#[trigger] r@[i]).kind == DiagnosticKind::Effect,
        function.effects matches Some(es) && es@.len() == 0 ==> r@.len() > 0 && r@.last().id@ == "effect.empty_declaration"@,
        function.effects matches Some(es) && es@.len() > 0 ==> exists|k: int| 0 <= k <= r@.len() && #[trigger] declared_reports(*function, *environment, r@.skip(k)),
{
    let mut diagnostics = check_function_type_effect_labels(function, environment);
    let declared = match &function.effects {
        Some(es) => es,
        None => return diagnostics,
    };
    let boundary = declared_effect_boundary(function);
    let node_prefix = function.kind.node_prefix();
    if declared.len() == 0 {
        diagnostics.push(empty_declared_effect_diagnostic(function, node_prefix, boundary));
        return diagnostics;
    }
    let spans = match &function.effect_spans {
        Some(s) => Some(s),
        None => None,
    };
    let mut rows = check_effect_row_entries(function, declared, spans, boundary);
    let ghost a = diagnostics@;
    let ghost b = rows@;
    diagnostics.append(&mut rows);
    let mut unknown = check_unknown_declared_effects(function, declared, environment, node_prefix, boundary);
    let ghost c = diagnostics@;
    let ghost u = unknown@;
    proof {
        assert forall|i: int| 0 <= i < u.len() implies (#[trigger] u[i]).kind == DiagnosticKind::Effect by {}
    }
    diagnostics.append(&mut unknown);
    proof {
        assert(diagnostics@ == a + b + u);
        assert(diagnostics@.skip(a.len() as int) =~= b + u);
        assert((b + u).take(b.len() as int) =~= b);
        assert(diagnostic_ids(b).len() == b.len());
        assert forall|i: int| 0 <= i < u.len() implies (#[trigger] (b + u)[b.len() + i]) == u[i] by {}
        assert(declared_reports(*function, *environment, diagnostics@.skip(a.len() as int)));
    }
    assert forall|k: int| 0 <= k < diagnostics@.len() implies (#[trigger] diagnostics@[k]).kind == DiagnosticKind::Effect by {
        if k < a.len() {
            assert(diagnostics@[k] == a[k]);
        } else if k < c.len() {
            assert(diagnostics@[k] == b[k - a.len()]);
        } else {
            assert(diagnostics@[k] == u[k - c.len()]);
        }
    }
    diagnostics
}

} // verus!
