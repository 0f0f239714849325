use vstd::prelude::*;

use crate::ast::{Annotation, BodyLine, BodyLineKind, Expr, Function, FunctionKind, Param, Pattern, Visibility};
use crate::checker::{FunctionChecker, distinct_effects, same_but_diagnostics, statement_frame};
use crate::body_checks::last_binding_type;
use crate::effect_boundary::{boundary_subject, missing_effects, opt_string, resolved_effect, EffectBoundary};
use crate::diag::{Diagnostic, DiagnosticKind, NodeId, Severity, SourceSpan, jsons, node_display, opt_span_view};
use crate::env::{FunctionSignature, TypeEnvironment, function_from, opt_str};
use crate::infer::{kept_scope, opt_module};
use crate::expressions::expr_result;
use crate::json::JsonV;
use crate::relations::{assignable, is_assignable};
use crate::render::{render, render_type};
use crate::semantic::{ExpectedType, ExpectedTypeSource, diag_is, pushed_one, type_details, type_details_view, type_source_name};
use crate::text::string_of;
use crate::types::{Type, TypeV, contains_unknown, named0};

verus! {

/// The signature the environment holds for the checked function: the first function of
/// its name declared in its module.
pub open spec fn function_for_spec(c: FunctionChecker) -> Option<int> {
    match c.function.name {
        Some(n) => function_from(c.environment.functions@, n@, opt_module(c.function.module_name), 0),
        None => None,
    }
}

/// The return type an annotation declares, when it parsed.
pub open spec fn declared_type(a: Option<Annotation>) -> Option<TypeV> {
    match a {
        Some(an) => match an.parsed {
            Ok(t) => Some(t@),
            Err(_) => None,
        },
        None => None,
    }
}

/// The type a function body must return: the declared return type, else for a private
/// function the fully known return type inferred for its signature.
pub open spec fn return_expectation(c: FunctionChecker) -> Option<(TypeV, ExpectedTypeSource)> {
    match declared_type(c.function.return_type) {
        Some(t) => Some((t, ExpectedTypeSource::DeclaredReturn)),
        None => if c.function.visibility == Visibility::Private && c.function.kind == FunctionKind::Function {
            match function_for_spec(c) {
                Some(k) => if !contains_unknown(c.environment.functions@[k].return_type@) {
                    Some((c.environment.functions@[k].return_type@, ExpectedTypeSource::Inferred))
                } else {
                    None
                },
                None => None,
            }
        } else {
            None
        },
    }
}

/// Whether the last statement of a body is an expression.
pub open spec fn ends_with_expression(f: Function) -> bool {
    f.body@.len() > 0 && f.body@.last().kind is Expr
}

impl<'a> FunctionChecker<'a> {
    /// The position of the checked function's own signature in the environment.
    pub fn function_for(&self) -> (r: Option<usize>)
        ensures
            match r {
                Some(k) => function_for_spec(*self) == Some(k as int) && k < self.environment.functions@.len(),
                None => function_for_spec(*self) is None,
            },
    {
        match &self.function.name {
            Some(n) => {
                let module = crate::patterns::module_of(&self.function.module_name);
                self.environment.unqualified_function(n.as_str(), module)
            },
            None => None,
        }
    }

    /// The expectation an annotation sets when it parses; an annotation that does not
    /// parse is reported and sets none.
    pub fn parse_annotation(&mut self, annotation: &Annotation, origin_node_id: NodeId, origin_span: &SourceSpan,
        source: ExpectedTypeSource, origin_message: &'static str) -> (r: Option<ExpectedType>)
        ensures
            same_but_diagnostics(*old(self), *final(self)),
            crate::patterns::grew(*old(self), *final(self)),
            match annotation.parsed {
                Ok(t) => r matches Some(e) && e.ty@ == t@ && e.source == source && e.origin_node_id == origin_node_id
                    && opt_span_view(e.origin_span) == Some(origin_span@) && e.origin_message == origin_message
                    && final(self).diagnostics == old(self).diagnostics,
                Err(error) => r is None && pushed_one(old(self).diagnostics@, final(self).diagnostics@)
                    && final(self).diagnostics@.last().id@ == "type.invalid_annotation"@
                    && final(self).diagnostics@.last().message@ == "invalid type annotation `"@ + annotation.text@ + "`: "@ + error@,
            },
    {
        match &annotation.parsed {
            Ok(t) => {
                assert(self.diagnostics@.take(self.diagnostics@.len() as int) =~= self.diagnostics@);
                Some(ExpectedType {
                    ty: t.copy(),
                    source,
                    origin_node_id,
                    origin_span: Some(origin_span.copy()),
                    origin_message,
                })
            },
            Err(error) => {
                let ghost start = *self;
                self.push_invalid_type_annotation(annotation.text.as_str(), error.as_str(), origin_node_id, origin_span.copy());
                proof { crate::patterns::lemma_grew_push(start, *self); }
                None
            },
        }
    }

    /// Reports a return type annotation that does not parse.
    pub fn check_return_annotation(&mut self)
        ensures
            same_but_diagnostics(*old(self), *final(self)),
            crate::patterns::grew(*old(self), *final(self)),
            match old(self).function.return_type {
                Some(a) => match a.parsed {
                    Ok(_) => final(self).diagnostics == old(self).diagnostics,
                    Err(_) => pushed_one(old(self).diagnostics@, final(self).diagnostics@)
                        && final(self).diagnostics@.last().id@ == "type.invalid_annotation"@,
                },
                None => final(self).diagnostics == old(self).diagnostics,
            },
    {
        let function = self.function;
        match &function.return_type {
            Some(a) => {
                self.parse_annotation(a, function.node_id, &function.span, ExpectedTypeSource::DeclaredReturn, "Return type declared here.");
            },
            None => {
                assert(self.diagnostics@.take(self.diagnostics@.len() as int) =~= self.diagnostics@);
            },
        }
    }

    /// The type the body must return, with where that expectation came from.
    pub fn return_expected(&self, origin_node_id: NodeId) -> (r: Option<ExpectedType>)
        ensures
            match return_expectation(*self) {
                Some((t, source)) => r matches Some(e) && e.ty@ == t && e.source == source && e.origin_node_id == origin_node_id
                    && opt_span_view(e.origin_span) == Some(self.function.span@),
                None => r is None,
            },
    {
        let function = self.function;
        if let Some(a) = &function.return_type {
            if let Ok(t) = &a.parsed {
                return Some(ExpectedType {
                    ty: t.copy(),
                    source: ExpectedTypeSource::DeclaredReturn,
                    origin_node_id,
                    origin_span: Some(function.span.copy()),
                    origin_message: "Return type declared here.",
                });
            }
        }
        if !(function.visibility == Visibility::Private && function.kind == FunctionKind::Function) {
            return None;
        }
        match self.function_for() {
            Some(k) => {
                let t = &self.environment.functions[k].return_type;
                if crate::types::type_contains_unknown(t) {
                    None
                } else {
                    Some(ExpectedType {
                        ty: t.copy(),
                        source: ExpectedTypeSource::Inferred,
                        origin_node_id,
                        origin_span: Some(function.span.copy()),
                        origin_message: "Private return type inferred here.",
                    })
                }
            },
            None => None,
        }
    }

    /// Checks an expression statement; the last one is the body's value and must fit the
    /// return type.
    pub fn check_expr_line(&mut self, index: usize, line: &BodyLine, expr: &Expr)
        requires
            index < old(self).function.body@.len(),
        ensures
            statement_frame(*old(self), *final(self)),
            index + 1 == old(self).function.body@.len() ==> final(self).inferred_return_type is Some,
            index + 1 != old(self).function.body@.len() ==> final(self).inferred_return_type == old(self).inferred_return_type,
            exists|m: FunctionChecker, e: Option<ExpectedType>, t: TypeV|
                #[trigger] expr_line_stages(*old(self), m, *final(self), index as int, *line, *expr, e, t),
    {
        let ghost start = *self;
        let expected = self.return_expected(line.node_id);
        let actual = match &expected {
            Some(e) => self.infer_expr(expr, Some(e)),
            None => self.infer_expr(expr, None),
        };
        let ghost mid = *self;
        let ghost actual_view = actual@;
        proof { crate::infer::lemma_kept_is_statement(start, mid); }
        let n = self.function.body.len();
        if index + 1 != n {
            assert(expr_line_stages(start, mid, *self, index as int, *line, *expr, expected, actual_view));
            return;
        }
        let actual_copy = actual.copy();
        self.inferred_return_type = Some(actual);
        let ghost set = *self;
        proof {
            assert(self.diagnostics@.take(mid.diagnostics@.len() as int) =~= mid.diagnostics@);
            crate::checker::lemma_statement_frame_trans(start, mid, set);
        }
        if let Some(e) = &expected {
            self.check_assignable(expr, &e.ty, &actual_copy, e, "return_value");
            proof {
                reveal_strlit("return_value");
                crate::infer::lemma_grew_kept(set, *self);
                crate::infer::lemma_kept_is_statement(set, *self);
                crate::checker::lemma_statement_frame_trans(start, set, *self);
            }
        }
        assert(expr_line_stages(start, mid, *self, index as int, *line, *expr, expected, actual_view));
    }

    /// A body that does not end with an expression returns `Unit`, which must fit the
    /// return type.
    pub fn check_implicit_unit_return(&mut self)
        ensures
            ends_with_expression(*old(self).function) ==> *final(self) == *old(self),
            !ends_with_expression(*old(self).function) ==> ({
                let unit = named0("Unit"@);
                match return_expectation(*old(self)) {
                    None => final(self).inferred_return_type matches Some(t) && t@ == unit
                        && final(self).diagnostics == old(self).diagnostics,
                    Some((t, source)) => final(self).inferred_return_type == old(self).inferred_return_type
                        && if assignable(t, unit) {
                            final(self).diagnostics == old(self).diagnostics
                        } else {
                            pushed_one(old(self).diagnostics@, final(self).diagnostics@)
                            && diag_is(final(self).diagnostics@.last(), "type.mismatch"@, DiagnosticKind::Type,
                                "expected `"@ + render(t) + "`, but found `"@ + render(unit) + "`"@, Some(old(self).function.span@),
                                type_details_view(node_display(old(self).function.node_id.index, "fn"@), render(t), render(unit),
                                    type_source_name(source), "implicit_unit"@, "return_value"@,
                                    seq![node_display(old(self).function.node_id.index, "fn"@), node_display(old(self).function.node_id.index, "fn"@)]),
                                Seq::empty())
                        },
                }
            }),
            final(self).function == old(self).function,
            final(self).environment == old(self).environment,
            final(self).bindings == old(self).bindings,
            final(self).inferred_effects == old(self).inferred_effects,
            final(self).suppressed_diagnostic_indices == old(self).suppressed_diagnostic_indices,
            final(self).local_names == old(self).local_names,
            final(self).omitted_local_bindings == old(self).omitted_local_bindings,
            final(self).diagnostics@.len() >= old(self).diagnostics@.len(),
            final(self).diagnostics@.take(old(self).diagnostics@.len() as int) == old(self).diagnostics@,
    {
        let function = self.function;
        assert(self.diagnostics@.take(self.diagnostics@.len() as int) =~= self.diagnostics@);
        if function.body.len() > 0 {
            match &function.body[function.body.len() - 1].kind {
                BodyLineKind::Expr { .. } => {
                    return;
                },
                _ => {},
            }
        }
        let expected = match self.return_expected(function.node_id) {
            Some(e) => e,
            None => {
                self.inferred_return_type = Some(Type::unit_type());
                return;
            },
        };
        let actual = Type::unit_type();
        if is_assignable(&expected.ty, &actual) {
            return;
        }
        let e = render_type(&expected.ty);
        let a = render_type(&actual);
        let mut message = string_of("expected `");
        message.append(e.as_str());
        message.append("`, but found `");
        message.append(a.as_str());
        message.append("`");
        let mut related: Vec<String> = Vec::new();
        related.push(function.node_id.display("fn"));
        related.push(expected.origin_node_id.display("fn"));
        let ghost rel = related.deep_view();
        assert(rel =~= seq![node_display(function.node_id.index, "fn"@), node_display(function.node_id.index, "fn"@)]);
        let details = type_details(function.node_id.display("fn"), e.as_str(), a.as_str(), expected.source.as_type_source(), "implicit_unit", "return_value", related);
        let d = Diagnostic::new("type.mismatch", Severity::Error, DiagnosticKind::Type, message, Some(function.span.copy()), details);
        assert(jsons(d.related@) =~= Seq::<JsonV>::empty());
        self.push_diagnostic(d);
    }
}


/// The position of a parameter among the parameters before `node_id` that are not
/// variadic.
pub open spec fn plain_params_before(params: Seq<Param>, node_id: NodeId) -> nat
    decreases params.len(),
{
    if params.len() == 0 {
        0
    } else if params[0].node_id == node_id {
        0
    } else {
        (if params[0].is_variadic { 0nat } else { 1nat }) + plain_params_before(params.drop_first(), node_id)
    }
}

/// The number of variadic parameters.
pub open spec fn variadic_count(params: Seq<Param>) -> nat
    decreases params.len(),
{
    if params.len() == 0 {
        0
    } else {
        variadic_count(params.drop_last()) + if params.last().is_variadic { 1nat } else { 0nat }
    }
}

/// `List<item>`.
pub open spec fn list_of(item: TypeV) -> TypeV {
    TypeV::Named { name: "List"@, args: seq![item] }
}

/// The parameter type the signature inferred for a private function's parameter whose
/// annotation was omitted.
pub open spec fn inferred_parameter(c: FunctionChecker, p: Param) -> Option<TypeV> {
    if c.function.visibility != Visibility::Private || c.function.kind != FunctionKind::Function
        || !crate::body_checks::annotation_omitted(p) {
        None
    } else {
        match function_for_spec(c) {
            None => None,
            Some(k) => {
                let sig = c.environment.functions@[k];
                if p.is_variadic {
                    match sig.variadic {
                        Some(v) => Some(list_of(v@)),
                        None => None,
                    }
                } else {
                    let index = plain_params_before(c.function.params@, p.node_id);
                    if index < sig.params@.len() { Some(sig.params@[index as int]@) } else { None }
                }
            },
        }
    }
}

/// `List<item>` as a type.
fn list_type(item: Type) -> (r: Type)
    ensures
        r@ == list_of(item@),
{
    let ghost iv = item@;
    let mut args: Vec<Type> = Vec::new();
    args.push(item);
    let name = string_of("List");
    proof {
        crate::types::lemma_named_view(name, args);
        assert(crate::types::types_view(args@) =~= seq![iv]);
    }
    Type::Named { name, args }
}

impl<'a> FunctionChecker<'a> {
    /// The type a private function's signature inferred for a parameter whose annotation
    /// was omitted.
    pub fn inferred_private_parameter_type(&self, param: &Param) -> (r: Option<Type>)
        ensures
            match r {
                Some(t) => inferred_parameter(*self, *param) == Some(t@),
                None => inferred_parameter(*self, *param) is None,
            },
    {
        let function = self.function;
        if function.visibility != Visibility::Private || function.kind != FunctionKind::Function
            || !crate::body_checks::parameter_annotation_is_omitted(param) {
            return None;
        }
        let k = match self.function_for() {
            Some(k) => k,
            None => return None,
        };
        let signature = &self.environment.functions[k];
        if param.is_variadic {
            return match &signature.variadic {
                Some(v) => Some(list_type(v.copy())),
                None => None,
            };
        }
        let params = &function.params;
        let mut count: usize = 0;
        let mut i: usize = 0;
        assert(params@.skip(0) =~= params@);
        while i < params.len()
            invariant
                0 <= i <= params@.len(),
                count <= i,
                plain_params_before(params@, param.node_id) == count + plain_params_before(params@.skip(i as int), param.node_id),
            decreases params.len() - i,
        {
            assert(params@.skip(i as int).drop_first() =~= params@.skip(i + 1));
            if params[i].node_id == param.node_id {
                break;
            }
            if !params[i].is_variadic {
                count += 1;
            }
            i += 1;
        }
        proof {
            if i == params@.len() {
                assert(params@.skip(i as int).len() == 0);
            }
        }
        if count < signature.params.len() {
            Some(signature.params[count].copy())
        } else {
            None
        }
    }

    /// Reports a variadic parameter without an element type (unless a private function
    /// leaves it to inference), one that is not last, and a second variadic parameter.
    pub fn check_variadic_parameter_shape(&mut self, param: &Param, variadic_count: usize, private_omitted_parameter: bool)
        ensures
            same_but_diagnostics(*old(self), *final(self)),
            crate::patterns::grew(*old(self), *final(self)),
            !param.is_variadic ==> final(self).diagnostics == old(self).diagnostics,
            final(self).diagnostics@.len() <= old(self).diagnostics@.len() + 3,
    {
        let ghost start = *self;
        assert(self.diagnostics@.take(self.diagnostics@.len() as int) =~= self.diagnostics@);
        if !param.is_variadic {
            return;
        }
        let empty = match &param.ty {
            None => true,
            Some(a) => a.text.unicode_len() == 0,
        };
        if empty && !private_omitted_parameter {
            let ghost pre = *self;
            let mut message = string_of("variadic parameter `");
            message.append(param.name.as_str());
            message.append("` is missing an element type");
            self.push_variadic_parameter_diagnostic(param.node_id, param.span.copy(), "type.variadic_parameter_type", message, "element_type");
            proof { crate::patterns::lemma_grew_push(pre, *self); crate::patterns::lemma_grew_trans(start, pre, *self); }
        }
        let n = self.function.params.len();
        if n > 0 && self.function.params[n - 1].node_id != param.node_id {
            let ghost pre = *self;
            let mut message = string_of("variadic parameter `");
            message.append(param.name.as_str());
            message.append("` must be the final parameter");
            self.push_variadic_parameter_diagnostic(param.node_id, param.span.copy(), "type.variadic_parameter_position", message, "final_parameter");
            proof { crate::patterns::lemma_grew_push(pre, *self); crate::patterns::lemma_grew_trans(start, pre, *self); }
        }
        if variadic_count > 1 {
            let ghost pre = *self;
            self.push_variadic_parameter_diagnostic(param.node_id, param.span.copy(), "type.variadic_parameter_duplicate",
                string_of("function parameter list has more than one variadic parameter"), "single_variadic_parameter");
            proof { crate::patterns::lemma_grew_push(pre, *self); crate::patterns::lemma_grew_trans(start, pre, *self); }
        }
    }
}


/// Whether a private function leaves a parameter's annotation to inference.
pub open spec fn private_omitted(c: FunctionChecker, p: Param) -> bool {
    c.function.visibility == Visibility::Private && c.function.kind == FunctionKind::Function
        && crate::body_checks::annotation_omitted(p)
}

/// The type a parameter's annotation declares, when it is given and parses.
pub open spec fn declared_parameter(c: FunctionChecker, p: Param) -> Option<TypeV> {
    match p.ty {
        Some(a) => if p.is_variadic && a.text@.len() == 0 && private_omitted(c, p) {
            None
        } else {
            match a.parsed {
                Ok(t) => Some(t@),
                Err(_) => None,
            }
        },
        None => None,
    }
}

/// The type a parameter is bound with: the signature's type for its position, else a
/// fully known inferred type, else its declared type (a `List` of it when variadic),
/// else unknown.
pub open spec fn parameter_type(c: FunctionChecker, p: Param, index: int, sig: Option<int>) -> TypeV {
    let from_signature: Option<TypeV> = match sig {
        Some(k) => if 0 <= index < c.environment.functions@[k].params@.len() {
            Some(c.environment.functions@[k].params@[index]@)
        } else {
            None
        },
        None => None,
    };
    match from_signature {
        Some(t) => t,
        None => match inferred_parameter(c, p) {
            Some(t) if !contains_unknown(t) => t,
            _ => match declared_parameter(c, p) {
                Some(t) => if p.is_variadic { list_of(t) } else { t },
                None => TypeV::Unknown,
            },
        },
    }
}

impl<'a> FunctionChecker<'a> {
    /// Checks a parameter's annotation and shape, then binds the parameter.
    pub fn check_parameter_annotation(&mut self, param: &Param, index: usize, variadic_count: usize, signature: Option<usize>)
        requires
            signature matches Some(k) ==> k < old(self).environment.functions@.len(),
        ensures
            statement_frame(*old(self), *final(self)),
            final(self).inferred_return_type == old(self).inferred_return_type,
            crate::names::starts_lower(param.name@) && !old(self).declared_names().contains(param.name@)
                ==> final(self).bindings@.len() == old(self).bindings@.len() + 1
                && final(self).bindings@.last().name@ == param.name@
                && final(self).bindings@.last().ty@ == parameter_type(*old(self), *param, index as int,
                    match signature { Some(k) => Some(k as int), None => None }),
    {
        let ghost start = *self;
        let function = self.function;
        let private_omitted_parameter = function.visibility == Visibility::Private && function.kind == FunctionKind::Function
            && crate::body_checks::parameter_annotation_is_omitted(param);
        let inferred = self.inferred_private_parameter_type(param);
        let declared = match &param.ty {
            Some(a) => {
                if param.is_variadic && a.text.unicode_len() == 0 && private_omitted_parameter {
                    assert(self.diagnostics@.take(self.diagnostics@.len() as int) =~= self.diagnostics@);
                    None
                } else {
                    self.parse_annotation(a, param.node_id, &param.span, ExpectedTypeSource::DeclaredParameter, "Parameter type declared here.")
                }
            },
            None => {
                assert(self.diagnostics@.take(self.diagnostics@.len() as int) =~= self.diagnostics@);
                None
            },
        };
        let ghost parsed = *self;
        assert(match declared { Some(e) => declared_parameter(start, *param) == Some(e.ty@), None => declared_parameter(start, *param) is None });
        self.check_variadic_parameter_shape(param, variadic_count, private_omitted_parameter);
        let ghost shaped = *self;
        proof { crate::patterns::lemma_grew_trans(start, parsed, shaped); }
        let from_signature: Option<Type> = match signature {
            Some(k) => {
                let sig = &self.environment.functions[k];
                if index < sig.params.len() { Some(sig.params[index].copy()) } else { None }
            },
            None => None,
        };
        let binding_type = match from_signature {
            Some(t) => t,
            None => {
                let usable = match &inferred {
                    Some(t) => !crate::types::type_contains_unknown(t),
                    None => false,
                };
                if usable {
                    inferred.unwrap()
                } else {
                    match declared {
                        Some(e) => if param.is_variadic { list_type(e.ty) } else { e.ty },
                        None => Type::Unknown,
                    }
                }
            },
        };
        assert(binding_type@ == parameter_type(start, *param, index as int, match signature { Some(k) => Some(k as int), None => None }));
        self.admit_value_binding(param.name.as_str(), binding_type, param.node_id.display("param"), param.span.copy(), "parameter");
        proof {
            assert(statement_frame(start, shaped)) by {
                crate::infer::lemma_grew_kept(start, shaped);
                crate::infer::lemma_kept_is_statement(start, shaped);
            }
            assert(self.diagnostics@.take(shaped.diagnostics@.len() as int) =~= shaped.diagnostics@);
            assert forall|i: int| 0 <= i < shaped.bindings@.len() implies (#[trigger] self.bindings@[i]).name@ == shaped.bindings@[i].name@ by {
                if self.bindings@.len() > shaped.bindings@.len() {
                    assert(self.bindings@.take(shaped.bindings@.len() as int)[i] == self.bindings@[i]);
                }
            }
            assert(statement_frame(shaped, *self));
            crate::checker::lemma_statement_frame_trans(start, shaped, *self);
        }
    }

    /// Checks every parameter's annotation and binds the parameters, then checks the
    /// return annotation and the result binding's name.
    pub fn check_function_annotations(&mut self)
        ensures
            statement_frame(*old(self), *final(self)),
            final(self).inferred_return_type == old(self).inferred_return_type,
            exists|m: FunctionChecker| #[trigger] params_checked(*old(self), m, old(self).function.params@,
                old(self).function.params@.len() as int, function_for_spec(*old(self))) && statement_frame(m, *final(self)),
    {
        let ghost start = *self;
        let function = self.function;
        let params = &function.params;
        let mut variadic: usize = 0;
        let mut i: usize = 0;
        while i < params.len()
            invariant
                0 <= i <= params@.len(),
                variadic <= i,
            decreases params.len() - i,
        {
            if params[i].is_variadic {
                variadic += 1;
            }
            i += 1;
        }
        let signature = self.function_for();
        proof { crate::checker::lemma_statement_frame_refl(start); }
        let mut i: usize = 0;
        while i < params.len()
            invariant
                0 <= i <= params@.len(),
                statement_frame(start, *self),
                self.function == function,
                self.inferred_return_type == start.inferred_return_type,
                signature matches Some(k) ==> k < self.environment.functions@.len(),
                params_checked(start, *self, params@, i as int, function_for_spec(start)),
                function_for_spec(start) == (match signature { Some(k) => Some(k as int), None => None }),
                self.environment == start.environment,
            decreases params.len() - i,
        {
            let ghost before = *self;
            self.check_parameter_annotation(&params[i], i, variadic, signature);
            proof {
                crate::checker::lemma_statement_frame_trans(start, before, *self);
                let n: int = i + 1;
                assert(params_checked(start, before, params@, n - 1, function_for_spec(start)));
                assert(param_checked(before, *self, params@[n - 1], n - 1, function_for_spec(start)));
                assert(params_checked(start, *self, params@, n, function_for_spec(start)));
            }
            i += 1;
        }
        let ghost a = *self;
        self.check_return_annotation();
        let ghost b = *self;
        self.check_result_binding_name();
        proof {
            crate::infer::lemma_grew_kept(a, b);
            crate::infer::lemma_kept_is_statement(a, b);
            assert(self.diagnostics@.take(b.diagnostics@.len() as int) =~= b.diagnostics@);
            crate::checker::lemma_statement_frame_refl(b);
            assert(statement_frame(b, *self));
            crate::checker::lemma_statement_frame_trans(start, a, b);
            crate::checker::lemma_statement_frame_trans(start, b, *self);
            crate::checker::lemma_statement_frame_trans(a, b, *self);
            assert(params_checked(start, a, function.params@, function.params@.len() as int, function_for_spec(start)));
        }
    }
}


/// The stages of checking `let pattern: annotation = expr` from `a` to `b`: `s1` after
/// the annotation was parsed into the expectation `e`, `s2` after the initializer was
/// inferred with type `t`, `s3` after it was checked against the annotation, `s4` after
/// the pattern's form was checked, then its names bound; a plain binding pattern with a
/// fresh value name binds the annotated type, else the inferred one.
pub open spec fn let_stages(a: FunctionChecker, s1: FunctionChecker, s2: FunctionChecker, s3: FunctionChecker, s4: FunctionChecker,
    b: FunctionChecker, line: BodyLine, pattern: Pattern, annotation: Option<Annotation>, expr: Expr, e: Option<ExpectedType>, t: TypeV) -> bool {
    &&& match annotation {
        None => s1 == a && e is None,
        Some(an) => same_but_diagnostics(a, s1) && match an.parsed {
            Ok(ty) => e matches Some(ee) && ee.ty@ == ty@ && ee.source == ExpectedTypeSource::LocalAnnotation
                && ee.origin_node_id == line.node_id && s1.diagnostics == a.diagnostics,
            Err(error) => e is None && pushed_one(a.diagnostics@, s1.diagnostics@)
                && s1.diagnostics@.last().id@ == "type.invalid_annotation"@
                && s1.diagnostics@.last().message@ == "invalid type annotation `"@ + an.text@ + "`: "@ + error@,
        },
    }
    &&& match e {
        Some(ee) => crate::expressions::infer_reported(s1, s2, expr, Some(&ee), t),
        None => crate::expressions::infer_reported(s1, s2, expr, None, t),
    }
    &&& match e {
        Some(ee) => same_but_diagnostics(s2, s3)
            && (assignable(ee.ty@, t) ==> s3.diagnostics == s2.diagnostics)
            && (!assignable(ee.ty@, t) ==> pushed_one(s2.diagnostics@, s3.diagnostics@)
                && diag_is(s3.diagnostics@.last(), "type.mismatch"@, DiagnosticKind::Type,
                    "expected `"@ + render(ee.ty@) + "`, but found `"@ + render(t) + "`"@, Some(expr.span@),
                    type_details_view(node_display(expr.node_id.index, "expr"@), render(ee.ty@), render(t), "local_annotation"@,
                        "inferred_expression"@, "assignable"@,
                        seq![node_display(a.function.node_id.index, "fn"@), node_display(line.node_id.index, "expr"@), node_display(expr.node_id.index, "expr"@)]),
                    Seq::empty())),
        None => s3 == s2,
    }
    &&& same_but_diagnostics(s3, s4)
    &&& crate::body_checks::reports_refutable(s3.diagnostics@, s4.diagnostics@, crate::body_checks::refutable_parts(pattern))
    &&& statement_frame(s4, b)
    &&& b.inferred_return_type == a.inferred_return_type
    &&& match pattern.kind {
        crate::ast::PatternKind::Binding(name) => (crate::names::starts_lower(name@) && !s4.declared_names().contains(name@))
            ==> b.bindings@.len() == s4.bindings@.len() + 1 && b.bindings@.last().name@ == name@
                && b.bindings@.last().ty@ == (match e { Some(ee) => ee.ty@, None => t }),
        _ => true,
    }
}

/// Checking the parameter `param` at `index` took `a` to `b`: a fresh value name is bound
/// with the parameter's type.
pub open spec fn param_checked(a: FunctionChecker, b: FunctionChecker, param: Param, index: int, sig: Option<int>) -> bool {
    &&& statement_frame(a, b)
    &&& b.inferred_return_type == a.inferred_return_type
    &&& crate::names::starts_lower(param.name@) && !a.declared_names().contains(param.name@)
        ==> b.bindings@.len() == a.bindings@.len() + 1 && b.bindings@.last().name@ == param.name@
            && b.bindings@.last().ty@ == parameter_type(a, param, index, sig)
}

/// `b` is `a` after checking the first `n` parameters in order.
pub open spec fn params_checked(a: FunctionChecker, b: FunctionChecker, params: Seq<Param>, n: int, sig: Option<int>) -> bool
    decreases n,
{
    if n <= 0 {
        a == b
    } else {
        exists|m: FunctionChecker| params_checked(a, m, params, n - 1, sig) && #[trigger] param_checked(m, b, params[n - 1], n - 1, sig)
    }
}

/// The stages of checking the expression statement at `index` from `a` to `b`: the
/// expression is inferred into `m` with type `t` against the return expectation `e`;
/// the last statement is the body's value, which becomes the inferred return type and
/// is checked against the expectation.
pub open spec fn expr_line_stages(a: FunctionChecker, m: FunctionChecker, b: FunctionChecker, index: int, line: BodyLine, expr: Expr,
    e: Option<ExpectedType>, t: TypeV) -> bool {
    &&& match return_expectation(a) {
        Some((rt, source)) => e matches Some(ee) && ee.ty@ == rt && ee.source == source && ee.origin_node_id == line.node_id,
        None => e is None,
    }
    &&& match e {
        Some(ee) => crate::expressions::infer_reported(a, m, expr, Some(&ee), t),
        None => crate::expressions::infer_reported(a, m, expr, None, t),
    }
    &&& (index + 1 != a.function.body@.len() ==> b == m)
    &&& (index + 1 == a.function.body@.len() ==> ({
        &&& b.inferred_return_type matches Some(r) && r@ == t
        &&& b.bindings == m.bindings
        &&& b.inferred_effects == m.inferred_effects
        &&& match e {
            Some(ee) => (assignable(ee.ty@, t) ==> b.diagnostics == m.diagnostics)
                && (!assignable(ee.ty@, t) ==> pushed_one(m.diagnostics@, b.diagnostics@)
                    && diag_is(b.diagnostics@.last(), "type.mismatch"@, DiagnosticKind::Type,
                        "expected `"@ + render(ee.ty@) + "`, but found `"@ + render(t) + "`"@, Some(expr.span@),
                        type_details_view(node_display(expr.node_id.index, "expr"@), render(ee.ty@), render(t), type_source_name(ee.source),
                            "inferred_expression"@, "return_value"@,
                            seq![node_display(a.function.node_id.index, "fn"@), node_display(line.node_id.index, "expr"@), node_display(expr.node_id.index, "expr"@)]),
                        Seq::empty())),
            None => b.diagnostics == m.diagnostics,
        }
    }))
}

/// What checking one statement does: a `let` goes through its stages, an expression
/// statement through its own.
pub open spec fn line_checked(a: FunctionChecker, b: FunctionChecker, index: int, line: BodyLine) -> bool {
    match line.kind {
        BodyLineKind::Let { pattern, annotation, expr } => exists|s1: FunctionChecker, s2: FunctionChecker, s3: FunctionChecker,
            s4: FunctionChecker, e: Option<ExpectedType>, t: TypeV|
            #[trigger] let_stages(a, s1, s2, s3, s4, b, line, pattern, annotation, expr, e, t),
        BodyLineKind::Expr { expr } => exists|m: FunctionChecker, e: Option<ExpectedType>, t: TypeV|
            #[trigger] expr_line_stages(a, m, b, index, line, expr, e, t),
    }
}

/// `b` is `a` after checking the first `n` statements of `lines` in order.
pub open spec fn lines_checked(a: FunctionChecker, b: FunctionChecker, lines: Seq<BodyLine>, n: int) -> bool
    decreases n,
{
    if n <= 0 {
        a == b
    } else {
        exists|m: FunctionChecker| lines_checked(a, m, lines, n - 1) && #[trigger] line_checked(m, b, n - 1, lines[n - 1])
    }
}

/// The annotation an optional reference points to.
pub open spec fn annotation_value(a: Option<&Annotation>) -> Option<Annotation> {
    match a {
        Some(an) => Some(*an),
        None => None,
    }
}

/// Whether `pattern` is a plain binding of a value name not yet declared in `c`.
pub open spec fn binds_fresh_name(pattern: Pattern, c: FunctionChecker) -> bool {
    match pattern.kind {
        crate::ast::PatternKind::Binding(name) => crate::names::starts_lower(name@) && !c.declared_names().contains(name@),
        _ => false,
    }
}

impl<'a> FunctionChecker<'a> {
    /// Checks a `let`: the initializer against the annotation, the pattern's form, then
    /// binds the pattern's names with the annotated type, or else the inferred one.
    pub fn check_let_line(&mut self, line: &BodyLine, pattern: &Pattern, annotation: Option<&Annotation>, expr: &Expr)
        ensures
            statement_frame(*old(self), *final(self)),
            final(self).inferred_return_type == old(self).inferred_return_type,
            exists|s1: FunctionChecker, s2: FunctionChecker, s3: FunctionChecker, s4: FunctionChecker, e: Option<ExpectedType>, t: TypeV|
                #[trigger] let_stages(*old(self), s1, s2, s3, s4, *final(self), *line, *pattern, annotation_value(annotation), *expr, e, t),
    {
        let ghost start = *self;
        let expected = match annotation {
            Some(a) => self.parse_annotation(a, line.node_id, &line.span, ExpectedTypeSource::LocalAnnotation, "Type annotation declared here."),
            None => {
                assert(self.diagnostics@.take(self.diagnostics@.len() as int) =~= self.diagnostics@);
                None
            },
        };
        let ghost s1 = *self;
        let initializer_diagnostic_count = self.diagnostics.len();
        let actual = match &expected {
            Some(e) => self.infer_expr(expr, Some(e)),
            None => self.infer_expr(expr, None),
        };
        let ghost s2 = *self;
        let ghost actual_view = actual@;
        let initializer_has_diagnostic = self.diagnostics.len() != initializer_diagnostic_count;
        let deferred = if annotation.is_none() {
            self.deferred_ambiguous_initializer_diagnostic(initializer_diagnostic_count, expr, &actual)
        } else {
            None
        };
        if let Some(e) = &expected {
            self.check_assignable(expr, &e.ty, &actual, e, "assignable");
        } else {
            assert(self.diagnostics@.take(self.diagnostics@.len() as int) =~= self.diagnostics@);
        }
        let ghost s3 = *self;
        let pattern_diagnostic_count = self.diagnostics.len();
        self.check_let_pattern_supported(pattern);
        let ghost s4 = *self;
        let binding_type = match &expected {
            Some(e) => e.ty.copy(),
            None => actual,
        };
        let ghost binding_view = binding_type@;
        let bindings = self.let_pattern_bindings(pattern, &binding_type);
        let ghost s5 = *self;
        let pattern_has_diagnostic = self.diagnostics.len() != pattern_diagnostic_count;
        proof {
            crate::infer::lemma_grew_kept(start, s1);
            crate::infer::lemma_kept_is_statement(start, s1);
            crate::infer::lemma_kept_is_statement(s1, s2);
            crate::infer::lemma_grew_kept(s2, s3);
            crate::infer::lemma_kept_is_statement(s2, s3);
            crate::checker::lemma_statement_frame_refl(s3);
            assert(statement_frame(s3, s4));
            crate::infer::lemma_grew_kept(s4, s5);
            crate::infer::lemma_kept_is_statement(s4, s5);
            crate::checker::lemma_statement_frame_trans(start, s1, s2);
            crate::checker::lemma_statement_frame_trans(start, s2, s3);
            crate::checker::lemma_statement_frame_trans(start, s3, s4);
            crate::checker::lemma_statement_frame_trans(start, s4, s5);
        }
        let ghost binds_one = binds_fresh_name(*pattern, s4);
        let mut bindings = bindings;
        proof { crate::checker::lemma_statement_frame_refl(s4); }
        while bindings.len() > 0
            invariant
                statement_frame(start, *self),
                statement_frame(s4, *self),
                self.inferred_return_type == start.inferred_return_type,
                binds_one ==> (bindings@.len() == 1 && *self == s4 && bindings@[0].name@ == pattern.kind->Binding_0@
                    && bindings@[0].ty@ == binding_view)
                    || (bindings@.len() == 0 && self.bindings@.len() == s4.bindings@.len() + 1
                        && self.bindings@.last().name@ == pattern.kind->Binding_0@ && self.bindings@.last().ty@ == binding_view),
            decreases bindings@.len(),
        {
            let binding = bindings.remove(0);
            let ghost before = *self;
            self.bind_let_pattern(binding, annotation.is_none(), initializer_has_diagnostic, deferred, pattern_has_diagnostic);
            proof {
                crate::checker::lemma_statement_frame_trans(start, before, *self);
                crate::checker::lemma_statement_frame_trans(s4, before, *self);
            }
        }
        proof {
            assert(let_stages(start, s1, s2, s3, s4, *self, *line, *pattern, annotation_value(annotation), *expr, expected, actual_view));
        }
    }

    /// Checks one statement of the body.
    pub fn check_body_line(&mut self, index: usize, line: &BodyLine)
        requires
            index < old(self).function.body@.len(),
        ensures
            statement_frame(*old(self), *final(self)),
            line_checked(*old(self), *final(self), index as int, *line),
    {
        match &line.kind {
            BodyLineKind::Let { pattern, annotation, expr } => {
                let annotation = match annotation {
                    Some(a) => Some(a),
                    None => None,
                };
                self.check_let_line(line, pattern, annotation, expr);
            },
            BodyLineKind::Expr { expr } => self.check_expr_line(index, line, expr),
        }
    }

    /// Checks the whole function: its annotations and parameters, each statement, the
    /// implicit `Unit` return, that inference fixed every omitted type, the effect
    /// boundary, and finally drops the diagnostics that later uses withdrew.
    pub fn check_body(&mut self)
        ensures
            final(self).function == old(self).function,
            final(self).environment == old(self).environment,
            exists|s1: FunctionChecker, s2: FunctionChecker, s3: FunctionChecker, s4: FunctionChecker, s5: FunctionChecker|
                #[trigger] body_stages(*old(self), s1, s2, s3, s4, s5, *final(self)),
    {
        let ghost start = *self;
        let function = self.function;
        let environment = self.environment;
        self.check_function_annotations();
        let ghost s0 = *self;
        let mut index: usize = 0;
        while index < function.body.len()
            invariant
                0 <= index <= function.body@.len(),
                self.function == function,
                self.environment == environment,
                start.function == function,
                statement_frame(start, *self),
                lines_checked(s0, *self, function.body@, index as int),
            decreases function.body.len() - index,
        {
            let ghost before = *self;
            self.check_body_line(index, &function.body[index]);
            proof {
                crate::checker::lemma_statement_frame_trans(start, before, *self);
                let n: int = index + 1;
                assert(lines_checked(s0, before, function.body@, n - 1));
                assert(line_checked(before, *self, n - 1, function.body@[n - 1]));
                assert(lines_checked(s0, *self, function.body@, n));
            }
            index += 1;
        }
        let ghost s1 = *self;
        assert(lines_checked(s0, s1, start.function.body@, start.function.body@.len() as int));
        self.check_implicit_unit_return();
        let ghost s2 = *self;
        self.check_omitted_local_inference_complete();
        let ghost s3 = *self;
        self.check_private_inference_complete();
        let ghost s4 = *self;
        self.check_effect_boundaries();
        let ghost s5 = *self;
        self.remove_suppressed_diagnostics();
        assert(body_stages(start, s1, s2, s3, s4, s5, *self));
    }
}

/// What the implicit-result check does to the checker state: for a body not ending in an expression, the result is `Unit`, checked against the declared or expected result type.
pub open spec fn unit_return_step(a: FunctionChecker, b: FunctionChecker) -> bool {
    &&& (ends_with_expression(*a.function) ==> b == a)
    &&& (!ends_with_expression(*a.function) ==> ({
                let unit = named0("Unit"@);
                match return_expectation(a) {
                    None => b.inferred_return_type matches Some(t) && t@ == unit
                        && b.diagnostics == a.diagnostics,
                    Some((t, source)) => b.inferred_return_type == a.inferred_return_type
                        && if assignable(t, unit) {
                            b.diagnostics == a.diagnostics
                        } else {
                            pushed_one(a.diagnostics@, b.diagnostics@)
                            && diag_is(b.diagnostics@.last(), "type.mismatch"@, DiagnosticKind::Type,
                                "expected `"@ + render(t) + "`, but found `"@ + render(unit) + "`"@, Some(a.function.span@),
                                type_details_view(node_display(a.function.node_id.index, "fn"@), render(t), render(unit),
                                    type_source_name(source), "implicit_unit"@, "return_value"@,
                                    seq![node_display(a.function.node_id.index, "fn"@), node_display(a.function.node_id.index, "fn"@)]),
                                Seq::empty())
                        },
                }
            }))
    &&& (b.function == a.function)
    &&& (b.environment == a.environment)
    &&& (b.bindings == a.bindings)
    &&& (b.inferred_effects == a.inferred_effects)
    &&& (b.suppressed_diagnostic_indices == a.suppressed_diagnostic_indices)
    &&& (b.local_names == a.local_names)
    &&& (b.omitted_local_bindings == a.omitted_local_bindings)
    &&& (b.diagnostics@.len() >= a.diagnostics@.len())
    &&& (b.diagnostics@.take(a.diagnostics@.len() as int) == a.diagnostics@)
}

/// What the omitted-local check does to the checker state: it suppresses the deferred diagnostics of bindings whose type later uses fixed, and reports the others.
pub open spec fn omitted_step(a: FunctionChecker, b: FunctionChecker) -> bool {
    &&& (b.function == a.function)
    &&& (b.environment == a.environment)
    &&& (b.bindings == a.bindings)
    &&& (b.omitted_local_bindings == a.omitted_local_bindings)
    &&& (b.local_names == a.local_names)
    &&& (b.diagnostics@.len() >= a.diagnostics@.len())
    &&& (b.diagnostics@.take(a.diagnostics@.len() as int) == a.diagnostics@)
    &&& (forall|k: int| a.diagnostics@.len() <= k < b.diagnostics@.len()
                ==> (#[trigger] b.diagnostics@[k]).id@ == "type.local_inference_incomplete"@)
    &&& (forall|j: int| 0 <= j < a.omitted_local_bindings@.len()
                && !contains_unknown(last_binding_type(a.bindings@, (#[trigger] a.omitted_local_bindings@[j]).name@))
                && a.omitted_local_bindings@[j].deferred_initializer_diagnostic is Some
                ==> b.suppressed_diagnostic_indices@.contains(a.omitted_local_bindings@[j].deferred_initializer_diagnostic->0))
    &&& (forall|x: usize| a.suppressed_diagnostic_indices@.contains(x) ==> b.suppressed_diagnostic_indices@.contains(x))
}

/// What the effect boundary check does to the checker state: one report for each effect the body uses that a public function or test does not declare.
pub open spec fn effect_step(a: FunctionChecker, b: FunctionChecker) -> bool {
    &&& (same_but_diagnostics(a, b))
    &&& (b.diagnostics@.take(a.diagnostics@.len() as int) == a.diagnostics@)
    &&& (EffectBoundary::for_function_spec(*a.function) is None || (a.function.effects matches Some(es) && es@.len() == 0)
                ==> b.diagnostics == a.diagnostics)
    &&& (!(EffectBoundary::for_function_spec(*a.function) is None || (a.function.effects matches Some(es) && es@.len() == 0))
                ==> ({
                    let declared = match a.function.effects {
                        Some(es) => Seq::new(es@.len(), |i: int| resolved_effect(*a.environment, opt_string(a.function.module_name), es@[i]@)),
                        None => Seq::<Seq<char>>::empty(),
                    };
                    let missing = missing_effects(distinct_effects(a.inferred_effects@), declared);
                    &&& b.diagnostics@.len() == a.diagnostics@.len() + missing.len()
                    &&& forall|k: int| 0 <= k < missing.len() ==> (#[trigger] b.diagnostics@[a.diagnostics@.len() + k]).message@
                        == boundary_subject(*a.function) + " uses undeclared effect `"@ + missing[k] + "`"@
                }))
}

/// The stages of checking a function body, from `a` to `b`: annotations and
/// statements, the implicit result, omitted local bindings, private inference,
/// effect boundaries, then dropping the suppressed diagnostics.
pub open spec fn body_stages(a: FunctionChecker, s1: FunctionChecker, s2: FunctionChecker, s3: FunctionChecker, s4: FunctionChecker,
    s5: FunctionChecker, b: FunctionChecker) -> bool {
    &&& statement_frame(a, s1)
    &&& exists|s0: FunctionChecker| statement_frame(a, s0) && s0.inferred_return_type == a.inferred_return_type
        && #[trigger] lines_checked(s0, s1, a.function.body@, a.function.body@.len() as int)
    &&& unit_return_step(s1, s2)
    &&& omitted_step(s2, s3)
    &&& same_but_diagnostics(s3, s4)
    &&& crate::declarations::diag_views(s4.diagnostics@) == crate::declarations::diag_views(s3.diagnostics@) + crate::body_lines::private_inference_report(s3)
    &&& effect_step(s4, s5)
    &&& same_but_diagnostics(s5, b)
    &&& b.diagnostics@ == crate::checker::kept_diagnostics(s5.diagnostics@, s5.suppressed_diagnostic_indices@)
}

/// Whether `c` is a checker for `function` with nothing in scope and nothing reported.
pub open spec fn fresh_checker(c: FunctionChecker, function: &Function, environment: &TypeEnvironment) -> bool {
    &&& c.function == function
    &&& c.environment == environment
    &&& c.bindings@.len() == 0
    &&& c.invalid_binding_recoveries@.len() == 0
    &&& c.omitted_local_bindings@.len() == 0
    &&& c.local_names@.len() == 0
    &&& c.inferred_effects@.len() == 0
    &&& c.inferred_return_type is None
    &&& c.diagnostics@.len() == 0
    &&& c.suppressed_diagnostic_indices@.len() == 0
}

/// The diagnostics of checking one function against its environment: those a fresh
/// checker holds after going through the stages of `check_body`.
pub fn check_function_body(function: &Function, environment: &TypeEnvironment) -> (r: Vec<Diagnostic>)
    ensures
        exists|c0: FunctionChecker, s1: FunctionChecker, s2: FunctionChecker, s3: FunctionChecker, s4: FunctionChecker,
            s5: FunctionChecker, c: FunctionChecker|
            fresh_checker(c0, function, environment) && #[trigger] body_stages(c0, s1, s2, s3, s4, s5, c) && r@ == c.diagnostics@,
{
    let mut checker = FunctionChecker::new(function, environment);
    let ghost c0 = checker;
    checker.check_body();
    let ghost c = checker;
    proof {
        let (s1, s2, s3, s4, s5) = choose|s1: FunctionChecker, s2: FunctionChecker, s3: FunctionChecker, s4: FunctionChecker, s5: FunctionChecker|
            #[trigger] body_stages(c0, s1, s2, s3, s4, s5, c);
        assert(fresh_checker(c0, function, environment) && body_stages(c0, s1, s2, s3, s4, s5, c));
    }
    checker.diagnostics
}

} // verus!
