use vstd::prelude::*;

use crate::ast::Expr;
use crate::checker::{FunctionChecker, same_but_diagnostics};
use crate::diag::{Diagnostic, DiagnosticKind, NodeId, Severity, SourceSpan, jsons, node_display};
use crate::env::{ConstructorLookup, FunctionSignature, constructor_matches, function_from, opt_str, signature_type, variant_choice};
use crate::infer::{kept_scope, last_binding_index, lemma_grew_kept, lemma_kept_scope_trans, opt_module, takes_expected};
use crate::json::{ArrayBuilder, JsonV, ObjectBuilder};
use crate::schema::{exact_width_binary_primitive_name, exact_width_primitives, exact_width_schema_primitive_diagnostic, primitive_details_view};
use crate::semantic::{ExpectedType, diag_is, pushed_one};
use crate::text::string_of;
use crate::types::{Type, TypeV};

verus! {

/// The segments of a path joined with `::`.
pub open spec fn join_path_view(segments: Seq<Seq<char>>) -> Seq<char>
    decreases segments.len(),
{
    if segments.len() == 0 {
        Seq::empty()
    } else if segments.len() == 1 {
        segments[0]
    } else {
        join_path_view(segments.drop_last()) + "::"@ + segments.last()
    }
}

/// The first `n` segments of a path joined with `::`.
pub fn join_path_prefix(segments: &Vec<String>, n: usize) -> (r: String)
    requires
        n <= segments@.len(),
    ensures
        r@ == join_path_view(segments.deep_view().take(n as int)),
{
    let ghost s = segments.deep_view();
    let mut out = String::new();
    let mut i: usize = 0;
    while i < n
        invariant
            0 <= i <= n <= segments@.len(),
            s == segments.deep_view(),
            out@ == join_path_view(s.take(i as int)),
        decreases n - i,
    {
        proof {
            assert(s.take(i + 1).drop_last() =~= s.take(i as int));
            assert(s.take(i + 1).last() == s[i as int]);
        }
        if i > 0 {
            out.append("::");
        }
        out.append(segments[i].as_str());
        proof {
            if i == 0 {
                assert(out@ =~= s.take(1)[0]);
            }
        }
        i += 1;
    }
    out
}

/// The function a qualified path names: the last segment in the module the other
/// segments spell.
pub open spec fn qualified_function(fs: Seq<FunctionSignature>, path: Seq<Seq<char>>) -> Option<int> {
    function_from(fs, path.last(), Some(join_path_view(path.drop_last())), 0)
}

/// Joins path segments with `::`.
pub fn join_path(segments: &[String]) -> (r: String)
    ensures
        r@ == join_path_view(segments.deep_view()),
{
    let ghost s = segments.deep_view();
    let mut out = String::new();
    let mut i: usize = 0;
    while i < segments.len()
        invariant
            0 <= i <= segments@.len(),
            s == segments.deep_view(),
            out@ == join_path_view(s.take(i as int)),
        decreases segments.len() - i,
    {
        proof {
            assert(s.take(i + 1).drop_last() =~= s.take(i as int));
            assert(s.take(i + 1).last() == s[i as int]);
        }
        if i > 0 {
            out.append("::");
        }
        out.append(segments[i].as_str());
        proof {
            if i == 0 {
                assert(out@ =~= s.take(1)[0]);
            }
        }
        i += 1;
    }
    assert(s.take(s.len() as int) =~= s);
    out
}

/// The details of an unresolved-name diagnostic.
pub open spec fn unresolved_details_view(node_id: Seq<char>, symbol: Seq<char>, namespace: Seq<char>) -> JsonV {
    JsonV::Object(seq![
        ("phase"@, JsonV::Str("name"@)),
        ("node_id"@, JsonV::Str(node_id)),
        ("symbol"@, JsonV::Str(symbol)),
        ("namespace"@, JsonV::Str(namespace)),
        ("resolution_status"@, JsonV::Str("unresolved"@)),
        ("candidates"@, JsonV::Array(Seq::empty())),
    ])
}

/// Whether `d` is the diagnostic for the unresolved `symbol` in `namespace`: an exact-width
/// binary primitive named as a value is reported as such, anything else as unresolved.
pub open spec fn is_unresolved_diagnostic(d: Diagnostic, node_id: NodeId, span: crate::diag::SpanV, symbol: Seq<char>, namespace: Seq<char>) -> bool {
    if namespace == "value"@ && exact_width_primitives().contains(symbol) {
        diag_is(d, "schema.exact_width_primitive"@, DiagnosticKind::Type,
            "binary schema primitive `"@ + symbol + "` can only be used in a `format binary` schema field"@, Some(span),
            primitive_details_view(node_display(node_id.index, "name"@), symbol, "value_position"@, None, None), Seq::empty())
    } else {
        diag_is(d, "name.unresolved"@, DiagnosticKind::Name, "unresolved "@ + namespace + " `"@ + symbol + "`"@, Some(span),
            unresolved_details_view(node_display(node_id.index, "name"@), symbol, namespace), Seq::empty())
    }
}

/// The type a constructor named without arguments has when nothing is expected: the
/// declared type with every type argument unknown.
pub open spec fn bare_constructor_type(name: Seq<char>, arity: nat) -> TypeV {
    TypeV::Named { name, args: Seq::new(arity, |i: int| TypeV::Unknown) }
}

/// The type of a name used as a value: a type whose name is the one declared type with
/// a variant the path names; unknown when several have; for a single segment, the
/// newest local binding's type (or the expected type, when that binding's type is
/// incomplete), else the function's type; unknown when nothing is named.
pub open spec fn name_result(c: FunctionChecker, path: Seq<Seq<char>>, expected: Option<&ExpectedType>, r: TypeV) -> bool {
    let ds = c.environment.adts.descriptors@;
    let matches = constructor_matches(ds, path, ds.len() as int);
    let fs = c.environment.functions@;
    let module = opt_module(c.function.module_name);
    &&& matches == 1 ==> r is Named
    &&& matches > 1 ==> r == TypeV::Unknown
    &&& matches == 0 && path.len() == 1 && last_binding_index(c.bindings@, path[0]) is Some ==> ({
        let k = last_binding_index(c.bindings@, path[0])->0;
        r == if takes_expected(c.bindings@[k].ty@, expected) { expected->0.ty@ } else { c.bindings@[k].ty@ }
    })
    &&& matches == 0 && path.len() == 1 && last_binding_index(c.bindings@, path[0]) is None
        && function_from(fs, path[0], module, 0) is Some
        ==> r == signature_type(fs[function_from(fs, path[0], module, 0)->0])
    &&& matches == 0 && path.len() > 1 && qualified_function(fs, path) is Some
        ==> r == signature_type(fs[qualified_function(fs, path)->0])
    &&& matches == 0 && (path.len() == 0 || (path.len() > 1 && qualified_function(fs, path) is None)
        || (path.len() == 1 && last_binding_index(c.bindings@, path[0]) is None && function_from(fs, path[0], module, 0) is None))
        ==> r == TypeV::Unknown
}

/// What inferring a name used as a value takes `a` to, with type `r`: no effect use is
/// recorded; a constructor reports an incomplete type when nothing is expected; a local
/// binding, a function or a qualified function reports nothing; several constructors
/// report an ambiguity; anything else is reported as unresolved.
pub open spec fn name_reported(a: FunctionChecker, b: FunctionChecker, path: Seq<Seq<char>>, expr: Expr,
    expected: Option<&ExpectedType>, r: TypeV) -> bool {
    let ds = a.environment.adts.descriptors@;
    let matches = constructor_matches(ds, path, ds.len() as int);
    let fs = a.environment.functions@;
    let module = opt_module(a.function.module_name);
    &&& b.inferred_effects == a.inferred_effects
    &&& matches == 1 ==> b.bindings == a.bindings && if expected is None && crate::types::contains_unknown(r) {
        pushed_one(a.diagnostics@, b.diagnostics@) && b.diagnostics@.last().id@ == "type.inference_ambiguous"@
    } else {
        b.diagnostics == a.diagnostics
    }
    &&& matches > 1 ==> pushed_one(a.diagnostics@, b.diagnostics@) && b.diagnostics@.last().id@ == "name.ambiguous"@
    &&& matches == 0 && path.len() == 1 && last_binding_index(a.bindings@, path[0]) is Some ==> ({
        let k = last_binding_index(a.bindings@, path[0])->0;
        &&& b.diagnostics == a.diagnostics
        &&& !takes_expected(a.bindings@[k].ty@, expected) ==> b.bindings == a.bindings
    })
    &&& matches == 0 && path.len() == 1 && last_binding_index(a.bindings@, path[0]) is None
        && function_from(fs, path[0], module, 0) is Some
        ==> b.diagnostics == a.diagnostics && b.bindings == a.bindings
    &&& matches == 0 && path.len() > 1 && qualified_function(fs, path) is Some
        ==> b.diagnostics == a.diagnostics && b.bindings == a.bindings
    &&& matches == 0 && (path.len() == 0 || (path.len() > 1 && qualified_function(fs, path) is None)
        || (path.len() == 1 && last_binding_index(a.bindings@, path[0]) is None && function_from(fs, path[0], module, 0) is None))
        ==> pushed_one(a.diagnostics@, b.diagnostics@)
        && is_unresolved_diagnostic(b.diagnostics@.last(), expr.node_id, expr.span@, join_path_view(path), "value"@)
}

impl<'a> FunctionChecker<'a> {
    /// Whether a bare name is shadowed: a binding of it is in scope, or a function of it
    /// is declared in the checked function's own module.
    pub fn bare_name_is_shadowed(&self, name: &str) -> (r: bool)
        ensures
            r == (last_binding_index(self.bindings@, name@) is Some
                || function_from(self.environment.functions@, name@, opt_module(self.function.module_name), 0) is Some),
    {
        if self.binding_position(name).is_some() {
            return true;
        }
        let module = crate::patterns::module_of(&self.function.module_name);
        self.environment.unqualified_function(name, module).is_some()
    }

    /// Reports a name that resolves to nothing.
    pub fn push_unresolved_name(&mut self, node_id: NodeId, span: SourceSpan, symbol: &str, namespace: &str)
        ensures
            same_but_diagnostics(*old(self), *final(self)),
            pushed_one(old(self).diagnostics@, final(self).diagnostics@),
            is_unresolved_diagnostic(final(self).diagnostics@.last(), node_id, span@, symbol@, namespace@),
    {
        if crate::text::str_eq(namespace, "value") {
            if let Some(primitive) = exact_width_binary_primitive_name(symbol) {
                let d = exact_width_schema_primitive_diagnostic(primitive, None, None, node_id.display("name"), span, "value_position");
                self.push_diagnostic(d);
                return;
            }
        }
        let mut message = string_of("unresolved ");
        message.append(namespace);
        message.append(" `");
        message.append(symbol);
        message.append("`");
        let ghost nid = node_display(node_id.index, "name"@);
        let mut b = ObjectBuilder::new();
        b.push_str("phase", "name");
        b.push_string("node_id", node_id.display("name"));
        b.push_str("symbol", symbol);
        b.push_str("namespace", namespace);
        b.push_str("resolution_status", "unresolved");
        b.push("candidates", ArrayBuilder::new().finish());
        let details = b.finish();
        let d = Diagnostic::new("name.unresolved", Severity::Error, DiagnosticKind::Name, message, Some(span), details);
        proof {
            assert(details@->Object_0 =~= unresolved_details_view(nid, symbol@, namespace@)->Object_0);
            assert(jsons(d.related@) =~= Seq::<JsonV>::empty());
        }
        self.push_diagnostic(d);
    }

    /// The type of a name used as a value: a constructor without arguments, a local
    /// binding, or a function; anything else is reported as unresolved.
    pub fn infer_name_path(&mut self, segments: &Vec<String>, expr: &Expr, expected: Option<&ExpectedType>) -> (r: Type)
        ensures
            kept_scope(*old(self), *final(self)),
            final(self).inferred_effects == old(self).inferred_effects,
            name_result(*old(self), segments.deep_view(), expected, r@),
            name_reported(*old(self), *final(self), segments.deep_view(), *expr, expected, r@),
    {
        let ghost start = *self;
        match self.environment.adts.constructor(segments.as_slice()) {
            ConstructorLookup::Found(d, _v) => {
                let descriptor = &self.environment.adts.descriptors[d];
                let arity = descriptor.type_parameters.len();
                let mut inferred = Type::Unknown;
                let mut from_expected = false;
                if let Some(e) = expected {
                    match &e.ty {
                        Type::Named { name, args } => {
                            if crate::text::str_eq(name.as_str(), descriptor.name.as_str()) && args.len() == arity {
                                proof { crate::types::lemma_named_view(*name, *args); }
                                inferred = e.ty.copy();
                                from_expected = true;
                            }
                        },
                        _ => {},
                    }
                }
                if !from_expected {
                    let mut args: Vec<Type> = Vec::new();
                    let mut i: usize = 0;
                    while i < arity
                        invariant
                            0 <= i <= arity,
                            args@.len() == i,
                            forall|j: int| 0 <= j < i ==> (#[trigger] args@[j])@ == TypeV::Unknown,
                        decreases arity - i,
                    {
                        args.push(Type::Unknown);
                        i += 1;
                    }
                    let n = descriptor.name.clone();
                    proof {
                        crate::types::lemma_named_view(n, args);
                    }
                    inferred = Type::Named { name: n, args };
                }
                assert(inferred@ is Named);
                if expected.is_none() && crate::types::type_contains_unknown(&inferred) {
                    let symbol = join_path(segments.as_slice());
                    self.push_ambiguous_constructor_type(expr.node_id, expr.span.copy(), symbol.as_str(), &inferred);
                    proof { crate::patterns::lemma_grew_push(start, *self); lemma_grew_kept(start, *self); }
                } else {
                    proof { crate::infer::lemma_kept_scope_refl(*self); }
                }
                inferred
            },
            ConstructorLookup::Ambiguous => {
                let symbol = join_path(segments.as_slice());
                self.push_ambiguous_name(expr.node_id, expr.span.copy(), symbol.as_str(), "value");
                proof { crate::patterns::lemma_grew_push(start, *self); lemma_grew_kept(start, *self); }
                Type::Unknown
            },
            ConstructorLookup::Missing => {
                proof { crate::infer::lemma_kept_scope_refl(start); }
                if segments.len() == 1 {
                    let name = segments[0].as_str();
                    assert(name@ == segments.deep_view()[0]);
                    if let Some(t) = self.infer_local_binding_name(name, expected) {
                        return t;
                    }
                    let module = match &self.function.module_name {
                        Some(m) => Some(m.as_str()),
                        None => None,
                    };
                    assert(opt_str(module) == opt_module(self.function.module_name));
                    match self.environment.unqualified_function(name, module) {
                        Some(f) => {
                            let t = self.environment.functions[f].ty();
                            return t;
                        },
                        None => {},
                    }
                } else if segments.len() > 1 {
                    let n = segments.len();
                    let prefix = join_path_prefix(segments, n - 1);
                    let last = segments[n - 1].as_str();
                    proof {
                        assert(segments.deep_view().take(n - 1) =~= segments.deep_view().drop_last());
                        assert(last@ == segments.deep_view().last());
                    }
                    match self.environment.unqualified_function(last, Some(prefix.as_str())) {
                        Some(f) => {
                            let t = self.environment.functions[f].ty();
                            return t;
                        },
                        None => {},
                    }
                }
                let ghost mid = *self;
                let symbol = join_path(segments.as_slice());
                self.push_unresolved_name(expr.node_id, expr.span.copy(), symbol.as_str(), "value");
                proof {
                    crate::patterns::lemma_grew_push(mid, *self);
                    lemma_grew_kept(mid, *self);
                    lemma_kept_scope_trans(start, mid, *self);
                }
                Type::Unknown
            },
        }
    }
}

} // verus!
