use vstd::prelude::*;

use crate::ast::Expr;
use crate::checker::{FunctionChecker, same_but_diagnostics};
use crate::diag::{Diagnostic, DiagnosticKind, NodeId, Severity, SourceSpan, SpanV, jsons, node_display};
use crate::effect_labels::{effect_details, effect_details_view};
use crate::env::{EffectOperationSignature, effect_choice};
use crate::expressions::expr_result;
use crate::infer::{kept_scope, lemma_grew_kept, lemma_kept_scope_refl, lemma_kept_scope_trans, lemma_size_all, opt_module, size_all};
use crate::names_infer::{join_path, join_path_view};
use crate::relations::assignable;
use crate::render::render;
use crate::semantic::{EffectUse, ExpectedType, ExpectedTypeSource, diag_is, pushed_one, type_details_view};
use crate::text::{str_eq, string_of};
use crate::types::{Type, TypeV};

verus! {

/// The first operation of an effect with the given name.
pub open spec fn operation_choice(ops: Seq<EffectOperationSignature>, name: Seq<char>) -> Option<int> {
    if exists|j: int| 0 <= j < ops.len() && (#[trigger] ops[j]).name@ == name {
        Some(choose|j: int| 0 <= j < ops.len() && (#[trigger] ops[j]).name@ == name
            && forall|i: int| 0 <= i < j ==> (#[trigger] ops[i]).name@ != name)
    } else {
        None
    }
}

/// Finds the first operation named `name`.
pub fn find_operation(ops: &Vec<EffectOperationSignature>, name: &str) -> (r: Option<usize>)
    ensures
        match r {
            Some(j) => j < ops@.len() && operation_choice(ops@, name@) == Some(j as int),
            None => operation_choice(ops@, name@) is None,
        },
{
    let mut i: usize = 0;
    while i < ops.len()
        invariant
            0 <= i <= ops@.len(),
            forall|j: int| 0 <= j < i ==> (#[trigger] ops@[j]).name@ != name@,
        decreases ops.len() - i,
    {
        if str_eq(ops[i].name.as_str(), name) {
            proof {
                let c = choose|j: int| 0 <= j < ops@.len() && (#[trigger] ops@[j]).name@ == name@
                    && forall|k: int| 0 <= k < j ==> (#[trigger] ops@[k]).name@ != name@;
                if c < i { assert(ops@[c].name@ != name@); }
                if i < c { assert(ops@[i as int].name@ != name@); }
            }
            return Some(i);
        }
        i += 1;
    }
    None
}

/// The effect (by position) and its operation (by position) that a `perform` names, when
/// both resolve.
pub closed spec fn performed(c: FunctionChecker, effect: Seq<Seq<char>>, operation: Seq<char>) -> Option<(int, int)> {
    match effect_choice(c.environment.effects@, join_path_view(effect), opt_module(c.function.module_name)) {
        Some(k) => match operation_choice(c.environment.effects@[k].operations@, operation) {
            Some(j) => Some((k, j)),
            None => None,
        },
        None => None,
    }
}

/// The type of a `perform`: the result type of the operation it names, else unknown.
/// Its definition is kept inside this module so that a type judgement that does not
/// concern a `perform` does not unfold it; `infer_perform` also states it openly, as
/// `operation_result`.
pub closed spec fn perform_type(c: FunctionChecker, effect: Seq<Seq<char>>, operation: Seq<char>) -> TypeV {
    match performed(c, effect, operation) {
        Some((k, j)) => c.environment.effects@[k].operations@[j].return_type@,
        None => TypeV::Unknown,
    }
}

/// The result type of the operation a `perform` names, unknown when the effect or the
/// operation does not resolve.
pub open spec fn operation_result(c: FunctionChecker, effect: Seq<Seq<char>>, operation: Seq<char>) -> TypeV {
    let es = c.environment.effects@;
    match effect_choice(es, join_path_view(effect), opt_module(c.function.module_name)) {
        Some(k) => match operation_choice(es[k].operations@, operation) {
            Some(j) => es[k].operations@[j].return_type@,
            None => TypeV::Unknown,
        },
        None => TypeV::Unknown,
    }
}

/// The parameter type for the argument at `i`, if there is one.
pub open spec fn param_at(params: Seq<TypeV>, i: int) -> Option<TypeV> {
    if 0 <= i < params.len() { Some(params[i]) } else { None }
}

/// The models of a list of types.
pub open spec fn type_views(ts: Seq<Type>) -> Seq<TypeV> {
    Seq::new(ts.len(), |i: int| ts[i]@)
}

/// One argument step: from `a`, `arg` is inferred into `m` with type `t` (against the
/// parameter type `param` by the expectation `e`, else against nothing), and `b` is `m`
/// with the mismatch reported when `t` does not fit the parameter.
pub open spec fn argument_step(a: FunctionChecker, m: FunctionChecker, b: FunctionChecker, arg: Expr, param: Option<TypeV>,
    origin: NodeId, t: TypeV, e: ExpectedType) -> bool {
    &&& kept_scope(a, m)
    &&& match param {
        None => expr_result(a, arg, None, t) && b == m,
        Some(p) => {
            &&& e.ty@ == p
            &&& e.source == ExpectedTypeSource::DeclaredParameter
            &&& e.origin_node_id == origin
            &&& expr_result(a, arg, Some(&e), t)
            &&& same_but_diagnostics(m, b)
            &&& assignable(p, t) ==> b.diagnostics == m.diagnostics
            &&& !assignable(p, t) ==> pushed_one(m.diagnostics@, b.diagnostics@)
                && diag_is(b.diagnostics@.last(), "type.mismatch"@, DiagnosticKind::Type,
                    "expected `"@ + render(p) + "`, but found `"@ + render(t) + "`"@, Some(arg.span@),
                    type_details_view(node_display(arg.node_id.index, "expr"@), render(p), render(t),
                        "declared_parameter"@, "inferred_expression"@, "call_argument"@,
                        seq![node_display(m.function.node_id.index, "fn"@), node_display(origin.index, "expr"@), node_display(arg.node_id.index, "expr"@)]),
                    Seq::empty())
        },
    }
}

/// `b` is `a` after checking one argument against its parameter type.
pub open spec fn argument_checked(a: FunctionChecker, b: FunctionChecker, arg: Expr, param: Option<TypeV>, origin: NodeId) -> bool {
    exists|m: FunctionChecker, t: TypeV, e: ExpectedType| #[trigger] argument_step(a, m, b, arg, param, origin, t, e)
}

/// `b` is `a` after checking the arguments in order, each against the parameter type at
/// its position, or against nothing past the last parameter.
pub open spec fn arguments_checked(a: FunctionChecker, b: FunctionChecker, args: Seq<Expr>, params: Seq<TypeV>, origin: NodeId) -> bool
    decreases args.len(),
{
    if args.len() == 0 {
        a == b
    } else {
        exists|m: FunctionChecker| arguments_checked(a, m, args.drop_last(), params, origin)
            && #[trigger] argument_checked(m, b, args.last(), param_at(params, args.len() - 1), origin)
    }
}

/// The effect use a resolved `perform` records.
pub open spec fn perform_use(u: EffectUse, qualified: Seq<char>, operation: Seq<char>, expr: Expr) -> bool {
    u.effect@ == qualified && u.symbol@ == qualified + "::"@ + operation && u.span@ == expr.span@
        && u.node_id == expr.node_id && u.kind@ == "perform_expression"@
}

/// What checking a `perform` leaves: with the effect and operation resolved, the
/// arguments checked against the operation's parameter types and the effect use
/// recorded; else the arguments inferred against nothing and an unknown-effect or
/// unknown-operation diagnostic reported.
pub open spec fn perform_reported(a: FunctionChecker, b: FunctionChecker, expr: Expr, effect: Seq<Seq<char>>, effect_span: SpanV,
    operation: Seq<char>, operation_span: SpanV, args: Seq<Expr>) -> bool {
    let es = a.environment.effects@;
    let details = effect_details_view(node_display(expr.node_id.index, "expr"@), "perform_expression"@);
    match effect_choice(es, join_path_view(effect), opt_module(a.function.module_name)) {
        None => exists|m: FunctionChecker| #[trigger] arguments_checked(a, m, args, Seq::empty(), expr.node_id)
            && same_but_diagnostics(m, b) && pushed_one(m.diagnostics@, b.diagnostics@)
            && diag_is(b.diagnostics@.last(), "effect.unknown"@, DiagnosticKind::Effect,
                "performed effect `"@ + join_path_view(effect) + "` is not known"@, Some(effect_span), details, Seq::empty()),
        Some(k) => match operation_choice(es[k].operations@, operation) {
            None => exists|m: FunctionChecker| #[trigger] arguments_checked(a, m, args, Seq::empty(), expr.node_id)
                && same_but_diagnostics(m, b) && pushed_one(m.diagnostics@, b.diagnostics@)
                && diag_is(b.diagnostics@.last(), "effect.unknown_operation"@, DiagnosticKind::Effect,
                    "effect `"@ + es[k].qualified_name@ + "` has no operation `"@ + operation + "`"@, Some(operation_span), details,
                    Seq::empty()),
            Some(j) => exists|m: FunctionChecker| #[trigger] arguments_checked(a, m, args,
                    type_views(es[k].operations@[j].params@), es[k].operations@[j].node_id)
                && kept_scope(m, b) && b.diagnostics@ == m.diagnostics@ && b.bindings@ == m.bindings@
                && b.inferred_effects@.len() == m.inferred_effects@.len() + 1
                && perform_use(b.inferred_effects@.last(), es[k].qualified_name@, operation, expr),
        },
    }
}

impl<'a> FunctionChecker<'a> {
    /// Checks call arguments in order: each against the parameter type at its position,
    /// reporting a mismatch, and past the last parameter against nothing.
    pub fn check_call_arguments(&mut self, args: &Vec<Expr>, params: &Vec<Type>, origin_node: NodeId, origin_span: &SourceSpan)
        ensures
            kept_scope(*old(self), *final(self)),
            arguments_checked(*old(self), *final(self), args@, type_views(params@), origin_node),
        decreases size_all(args@) + 1, 0nat,
    {
        let ghost start = *self;
        let ghost ps = type_views(params@);
        proof {
            lemma_kept_scope_refl(start);
            assert(args@.take(0) =~= Seq::<Expr>::empty());
        }
        let mut i: usize = 0;
        while i < args.len()
            invariant
                0 <= i <= args@.len(),
                ps == type_views(params@),
                kept_scope(start, *self),
                arguments_checked(start, *self, args@.take(i as int), ps, origin_node),
            decreases args.len() - i,
        {
            let arg = &args[i];
            let ghost mid = *self;
            proof { lemma_size_all(args@, i as int); }
            if i < params.len() {
                let expected = ExpectedType {
                    ty: params[i].copy(),
                    source: ExpectedTypeSource::DeclaredParameter,
                    origin_node_id: origin_node,
                    origin_span: Some(origin_span.copy()),
                    origin_message: "Callee parameter type declared here.",
                };
                let actual = self.infer_expr(arg, Some(&expected));
                let ghost m = *self;
                self.check_assignable(arg, &expected.ty, &actual, &expected, "call_argument");
                proof {
                    reveal_strlit("declared_parameter");
                    lemma_grew_kept(m, *self);
                    lemma_kept_scope_trans(mid, m, *self);
                    lemma_kept_scope_trans(start, mid, *self);
                    assert(ps[i as int] == params@[i as int]@);
                    assert(argument_step(mid, m, *self, *arg, param_at(ps, i as int), origin_node, actual@, expected));
                }
            } else {
                let actual = self.infer_expr(arg, None);
                proof {
                    lemma_kept_scope_trans(start, mid, *self);
                    let e = ExpectedType {
                        ty: Type::Unknown,
                        source: ExpectedTypeSource::DeclaredParameter,
                        origin_node_id: origin_node,
                        origin_span: None,
                        origin_message: "",
                    };
                    assert(argument_step(mid, *self, *self, *arg, param_at(ps, i as int), origin_node, actual@, e));
                }
            }
            proof {
                let s = args@.take(i + 1);
                assert(s.drop_last() =~= args@.take(i as int));
                assert(s.last() == args@[i as int]);
                assert(arguments_checked(start, mid, s.drop_last(), ps, origin_node));
                assert(argument_checked(mid, *self, s.last(), param_at(ps, s.len() - 1), origin_node));
                assert(arguments_checked(start, *self, s, ps, origin_node));
            }
            i += 1;
        }
        proof { assert(args@.take(args@.len() as int) =~= args@); }
    }

    /// Infers a `perform`: the performed effect and its operation are resolved, the
    /// arguments checked against the operation's parameter types, and the effect use
    /// recorded; the type is the operation's result type, unknown when either does not
    /// resolve, which is reported.
    pub fn infer_perform(&mut self, expr: &Expr, effect: &Vec<String>, effect_span: &SourceSpan, operation: &String,
        operation_span: &SourceSpan, args: &Vec<Expr>) -> (r: Type)
        ensures
            kept_scope(*old(self), *final(self)),
            r@ == perform_type(*old(self), effect.deep_view(), operation@),
            r@ == operation_result(*old(self), effect.deep_view(), operation@),
            perform_reported(*old(self), *final(self), *expr, effect.deep_view(), effect_span@, operation@, operation_span@, args@),
        decreases size_all(args@) + 1, 1nat,
    {
        let ghost start = *self;
        let segments = effect.as_slice();
        let path = join_path(segments);
        assert(segments.deep_view() =~= effect.deep_view());
        let module = crate::patterns::module_of(&self.function.module_name);
        let environment = self.environment;
        let details = effect_details(expr.node_id.display("expr"), "perform_expression");
        match environment.user_effect_path(path.as_str(), module) {
            None => {
                let empty: Vec<Type> = Vec::new();
                self.check_call_arguments(args, &empty, expr.node_id, &expr.span);
                let ghost m = *self;
                let mut message = string_of("performed effect `");
                message.append(path.as_str());
                message.append("` is not known");
                let d = Diagnostic::new("effect.unknown", Severity::Error, DiagnosticKind::Effect, message, Some(effect_span.copy()), details);
                assert(jsons(d.related@) =~= Seq::empty());
                self.diagnostics.push(d);
                proof {
                    assert(type_views(empty@) =~= Seq::<TypeV>::empty());
                    assert(self.diagnostics@.take(m.diagnostics@.len() as int) =~= m.diagnostics@);
                    assert(crate::patterns::grew(m, *self));
                    lemma_grew_kept(m, *self);
                    lemma_kept_scope_trans(start, m, *self);
                    assert(arguments_checked(start, m, args@, Seq::empty(), expr.node_id));
                }
                Type::Unknown
            },
            Some(k) => {
                let signature = &environment.effects[k];
                match find_operation(&signature.operations, operation.as_str()) {
                    None => {
                        let empty: Vec<Type> = Vec::new();
                        self.check_call_arguments(args, &empty, expr.node_id, &expr.span);
                        let ghost m = *self;
                        let mut message = string_of("effect `");
                        message.append(signature.qualified_name.as_str());
                        message.append("` has no operation `");
                        message.append(operation.as_str());
                        message.append("`");
                        let d = Diagnostic::new("effect.unknown_operation", Severity::Error, DiagnosticKind::Effect, message,
                            Some(operation_span.copy()), details);
                        assert(jsons(d.related@) =~= Seq::empty());
                        self.diagnostics.push(d);
                        proof {
                            assert(type_views(empty@) =~= Seq::<TypeV>::empty());
                            assert(self.diagnostics@.take(m.diagnostics@.len() as int) =~= m.diagnostics@);
                            assert(crate::patterns::grew(m, *self));
                            lemma_grew_kept(m, *self);
                            lemma_kept_scope_trans(start, m, *self);
                            assert(arguments_checked(start, m, args@, Seq::empty(), expr.node_id));
                        }
                        Type::Unknown
                    },
                    Some(j) => {
                        let op = &signature.operations[j];
                        self.check_call_arguments(args, &op.params, op.node_id, &op.name_span);
                        let ghost m = *self;
                        let mut symbol = signature.qualified_name.clone();
                        symbol.append("::");
                        symbol.append(operation.as_str());
                        let used = EffectUse {
                            effect: signature.qualified_name.clone(),
                            node_id: expr.node_id,
                            span: expr.span.copy(),
                            kind: "perform_expression",
                            symbol,
                        };
                        self.inferred_effects.push(used);
                        proof {
                            reveal_strlit("perform_expression");
                            lemma_kept_scope_refl(m);
                            assert(kept_scope(m, *self));
                            lemma_kept_scope_trans(start, m, *self);
                            assert(arguments_checked(start, m, args@, type_views(op.params@), op.node_id));
                        }
                        op.return_type.copy()
                    },
                }
            },
        }
    }
}

} // verus!
