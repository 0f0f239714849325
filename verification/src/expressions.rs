use vstd::prelude::*;

use crate::ast::{BinaryOp, Expr, ExprKind, IfBranch, MatchArm, PrefixOp};
use crate::checker::{FunctionChecker, same_but_diagnostics, scope_extended};
use crate::diag::{Diagnostic, DiagnosticKind, Severity, jsons, node_display};
use crate::infer::{
    expected_view, kept_scope, lemma_grew_kept, lemma_kept_scope_refl, lemma_kept_scope_trans, lemma_size_all,
    lemma_size_arms, lemma_size_branches, lemma_size_positive, numeric_type, size, size_all, size_arms,
    size_branches,
};
use crate::json::{JsonV, JsonValue, ObjectBuilder};
use crate::semantic::{ExpectedType, ExpectedTypeSource, diag_is, pushed_one, type_details_view};
use crate::relations::assignable;
use crate::render::render;
use crate::text::{push_signed_decimal, signed_decimal, string_of};
use crate::types::{Type, TypeV, named0};

verus! {

/// The element type a list is expected to have: the element type of an expected
/// `Vec`, else unknown.
pub open spec fn expected_item(expected: Option<&ExpectedType>) -> TypeV {
    match expected {
        Some(e) => match e.ty@ {
            TypeV::Named { name, args } => if name == "Vec"@ && args.len() == 1 { args[0] } else { TypeV::Unknown },
            _ => TypeV::Unknown,
        },
        None => TypeV::Unknown,
    }
}

/// Whether `r` is a list type that agrees with what was expected: a `Vec` whose element
/// type is the expected one when that is known or when the list is empty.
pub open spec fn list_result(expected: Option<&ExpectedType>, len: nat, r: TypeV) -> bool {
    r matches TypeV::Named { name, args } && name == "Vec"@ && args.len() == 1
        && ((expected_item(expected) != TypeV::Unknown || len == 0) ==> args[0] == expected_item(expected))
}

/// Whether a branching expression's type `r` agrees with a known expectation.
pub open spec fn follows_expected(expected: Option<&ExpectedType>, r: TypeV) -> bool {
    (expected matches Some(e) && e.ty@ != TypeV::Unknown) ==> r == expected->0.ty@
}

/// The result type of a prefix operator.
pub open spec fn prefix_result(c: FunctionChecker, op: PrefixOp, operand: Expr, expected: Option<&ExpectedType>, r: TypeV) -> bool {
    match op {
        PrefixOp::Not => r == named0("Bool"@),
        PrefixOp::BitwiseNot => r == named0("Int"@),
        PrefixOp::Negate => r == numeric_type(c, expected, seq![&operand]),
    }
}

/// Whether `op` compares by order.
pub open spec fn is_ordering(op: BinaryOp) -> bool {
    op == BinaryOp::Less || op == BinaryOp::LessEqual || op == BinaryOp::Greater || op == BinaryOp::GreaterEqual
}

/// Whether `op` is arithmetic on numbers.
pub open spec fn is_arithmetic(op: BinaryOp) -> bool {
    op == BinaryOp::Add || op == BinaryOp::Subtract || op == BinaryOp::Multiply || op == BinaryOp::Divide
}

/// The result type of a binary operator.
pub open spec fn binary_result(c: FunctionChecker, op: BinaryOp, left: Expr, right: Expr, expected: Option<&ExpectedType>, r: TypeV) -> bool {
    if op == BinaryOp::PipeGreater {
        r == TypeV::Unknown
    } else if is_arithmetic(op) {
        r == numeric_type(c, expected, seq![&left, &right])
    } else if op == BinaryOp::BitwiseOr || op == BinaryOp::BitwiseXor || op == BinaryOp::BitwiseAnd
        || op == BinaryOp::ShiftLeft || op == BinaryOp::ShiftRight || op == BinaryOp::ShiftRightLogical {
        r == named0("Int"@)
    } else {
        r == named0("Bool"@)
    }
}

/// How a shift operator is written.
pub open spec fn shift_text(op: BinaryOp) -> Seq<char> {
    if op == BinaryOp::ShiftLeft { "<<"@ } else if op == BinaryOp::ShiftRight { ">>"@ } else { ">>>"@ }
}

/// Whether an order comparison or arithmetic operator works on `Float` operands.
pub open spec fn operator_is_float(c: FunctionChecker, op: BinaryOp, left: Expr, right: Expr, expected: Option<&ExpectedType>) -> bool {
    let ordering = op == BinaryOp::Less || op == BinaryOp::LessEqual || op == BinaryOp::Greater || op == BinaryOp::GreaterEqual;
    let numeric = if ordering { numeric_type(c, None, seq![&left, &right]) } else { numeric_type(c, expected, seq![&left, &right]) };
    numeric == named0("Float"@) && (ordering || is_arithmetic(op))
}

/// The type both operands of a binary operator are checked against: `Bool` for `and`
/// and `or`, anything for equality, the numeric type for order comparisons and
/// arithmetic, else `Int`.
pub open spec fn operand_type_of(c: FunctionChecker, op: BinaryOp, left: Expr, right: Expr, expected: Option<&ExpectedType>) -> TypeV {
    let ordering = op == BinaryOp::Less || op == BinaryOp::LessEqual || op == BinaryOp::Greater || op == BinaryOp::GreaterEqual;
    if op == BinaryOp::Or || op == BinaryOp::And {
        named0("Bool"@)
    } else if op == BinaryOp::Equal || op == BinaryOp::NotEqual {
        TypeV::Unknown
    } else if ordering {
        numeric_type(c, None, seq![&left, &right])
    } else if is_arithmetic(op) {
        numeric_type(c, expected, seq![&left, &right])
    } else {
        named0("Int"@)
    }
}

/// The type diagnostic for an operand whose type does not fit the operator.
pub open spec fn operand_mismatch(c: FunctionChecker, operand: Expr, origin: Expr, expected: TypeV, actual: TypeV, d: Diagnostic) -> bool {
    diag_is(d, "type.mismatch"@, DiagnosticKind::Type, "expected `"@ + render(expected) + "`, but found `"@ + render(actual) + "`"@,
        Some(operand.span@),
        type_details_view(node_display(operand.node_id.index, "expr"@), render(expected), render(actual), "inferred"@,
            "inferred_expression"@, "operator_operand"@,
            seq![node_display(c.function.node_id.index, "fn"@), node_display(origin.node_id.index, "expr"@), node_display(operand.node_id.index, "expr"@)]),
        Seq::empty())
}

/// What the type of an expression is, as far as its form decides it.
pub open spec fn expr_result(c: FunctionChecker, e: Expr, expected: Option<&ExpectedType>, r: TypeV) -> bool {
    match e.kind {
        ExprKind::Missing => r == TypeV::Unknown,
        ExprKind::StringLiteral(_) => r == named0("String"@),
        ExprKind::IntLiteral { .. } => r == named0("Int"@),
        ExprKind::FloatLiteral(_) => r == named0("Float"@),
        ExprKind::BoolLiteral(_) => r == named0("Bool"@),
        ExprKind::Unit => r == named0("Unit"@),
        ExprKind::List(items) => list_result(expected, items@.len(), r),
        ExprKind::Match { .. } => follows_expected(expected, r),
        ExprKind::If { .. } => follows_expected(expected, r),
        ExprKind::Prefix { op, expr } => prefix_result(c, op, *expr, expected, r),
        ExprKind::Binary { op, left, right } => binary_result(c, op, *left, *right, expected, r),
        ExprKind::NamePath { segments } => crate::names_infer::name_result(c, segments.deep_view(), expected, r),
        ExprKind::Perform { effect, operation, .. } => r == crate::perform::perform_type(c, effect.deep_view(), operation@),
        // The type of a handled body depends on the state after the handler's arguments;
        // `infer_expr` states it through `handle_reported`.
        ExprKind::Handle { .. } => true,
        // The type of a field access depends on the base's type after inferring it;
        // `infer_expr` states it through `field_reported`.
        ExprKind::FieldAccess { .. } => true,
        ExprKind::Dict(entries) => r matches TypeV::Named { name, args } && name == "Dict"@ && args.len() == 2,
        // The type of a record literal depends on its fields' types after inferring
        // them; `infer_expr` states it through `record_reported`.
        ExprKind::Record(_) => true,
    }
}

/// The out-of-range count of a shift by a literal, if the shift has one.
pub open spec fn literal_shift_count(op: BinaryOp, e: Expr) -> Option<int> {
    if !(op == BinaryOp::ShiftLeft || op == BinaryOp::ShiftRight || op == BinaryOp::ShiftRightLogical) {
        None
    } else {
        let value: Option<int> = match e.kind {
            ExprKind::IntLiteral { text, value } => match value {
                Some(v) => Some(v as int),
                None => None,
            },
            ExprKind::Prefix { op: PrefixOp::Negate, expr } => match expr.kind {
                ExprKind::IntLiteral { text, value } => match value {
                    Some(v) => Some(if v == i64::MIN { v as int } else { -(v as int) }),
                    None => None,
                },
                _ => None,
            },
            _ => None,
        };
        match value {
            Some(v) => if 0 <= v <= 63 { None } else { Some(v) },
            None => None,
        }
    }
}

/// The count of a shift by a literal when it lies outside `0..=63`.
pub fn invalid_literal_shift_count(op: BinaryOp, expr: &Expr) -> (r: Option<i64>)
    ensures
        match r {
            Some(v) => literal_shift_count(op, *expr) == Some(v as int),
            None => literal_shift_count(op, *expr) is None,
        },
{
    if !(op == BinaryOp::ShiftLeft || op == BinaryOp::ShiftRight || op == BinaryOp::ShiftRightLogical) {
        return None;
    }
    let value: i64 = match &expr.kind {
        ExprKind::IntLiteral { value: Some(v), .. } => *v,
        ExprKind::Prefix { op: PrefixOp::Negate, expr: inner } => match &inner.kind {
            ExprKind::IntLiteral { value: Some(v), .. } => if *v == i64::MIN { *v } else { 0 - *v },
            _ => return None,
        },
        _ => return None,
    };
    if 0 <= value && value <= 63 {
        None
    } else {
        Some(value)
    }
}

/// The details of an invalid shift count diagnostic.
pub open spec fn shift_count_details_view(operator: Seq<char>, count: int) -> JsonV {
    JsonV::Object(seq![
        ("operator"@, JsonV::Str(operator)),
        ("actual_count"@, JsonV::Number(count)),
        ("minimum_count"@, JsonV::Number(0)),
        ("maximum_count"@, JsonV::Number(63)),
    ])
}

/// The details of a pipeline whose target is not a call.
pub open spec fn pipeline_target_details_view(node_id: Seq<char>) -> JsonV {
    JsonV::Object(seq![
        ("phase"@, JsonV::Str("type"@)),
        ("node_id"@, JsonV::Str(node_id)),
        ("expected"@, JsonV::Str("call"@)),
        ("actual"@, JsonV::Str("expression"@)),
        ("constraint"@, JsonV::Str("pipeline_target"@)),
    ])
}

/// Whether `e` is the expectation an `if` puts on its condition: `Bool`, inferred at
/// the `if`.
pub open spec fn condition_expectation(e: ExpectedType, if_expr: Expr) -> bool {
    e.ty@ == named0("Bool"@) && e.source == ExpectedTypeSource::Inferred && e.origin_node_id == if_expr.node_id
        && e.origin_message@ == "If condition expected `Bool` here."@
}

/// Whether `t` is the type inferred for `e` in `c` against the optional expectation `x`.
pub open spec fn inferred_against(c: FunctionChecker, e: Expr, x: Option<ExpectedType>, t: TypeV) -> bool {
    match x {
        Some(y) => expr_result(c, e, Some(&y), t),
        None => expr_result(c, e, None, t),
    }
}

/// Whether `x` carries the expectation `expected` on to a `match` arm.
pub open spec fn carries_expectation(expected: Option<&ExpectedType>, x: Option<ExpectedType>) -> bool {
    match expected {
        Some(e) => x matches Some(y) && y.ty@ == e.ty@ && y.source == e.source && y.origin_node_id == e.origin_node_id,
        None => x is None,
    }
}

/// What inferring a list literal takes `a` to, with type `r`: an empty list reports an
/// incomplete expected `Vec` type and else changes nothing; otherwise the items are
/// checked in order and the element type is the expected one, else the first item type
/// that is known.
pub open spec fn list_reported(a: FunctionChecker, b: FunctionChecker, list: Expr, items: Seq<Expr>, expected: Option<&ExpectedType>,
    r: TypeV) -> bool {
    &&& items.len() == 0 ==> if empty_list_ambiguous(expected) {
        pushed_one(a.diagnostics@, b.diagnostics@) && same_but_diagnostics(a, b)
        && diag_is(b.diagnostics@.last(), "type.inference_ambiguous"@, DiagnosticKind::Type,
            "empty "@ + "Vec"@ + " literal needs concrete type context"@, Some(list.span@),
            crate::body_diagnostics::ambiguous_collection_details_view(node_display(list.node_id.index, "expr"@), "Vec"@,
                expected->0.ty@), Seq::empty())
    } else {
        b == a
    }
    &&& items.len() > 0 ==> exists|ts: Seq<TypeV>| #[trigger] list_items_checked(a, b, list, items, items.len() as int, expected, ts)
        && r == (TypeV::Named { name: "Vec"@, args: seq![element_after(expected_item(expected), ts)] })
}

/// What inferring a binary operator takes `a` to, with type `r`: a pipeline reports its
/// target; a shift by a literal out of range is reported first; otherwise both operands
/// are inferred against the operator's operand type and each one that does not fit is
/// reported.
pub open spec fn binary_reported(a: FunctionChecker, b: FunctionChecker, op: BinaryOp, left: Expr, right: Expr,
    expected: Option<&ExpectedType>, r: TypeV) -> bool {
    &&& op == BinaryOp::PipeGreater ==> b.diagnostics@.len() > a.diagnostics@.len()
        && b.diagnostics@.last().id@ == "type.pipeline_target"@
        && b.diagnostics@.last().details@ == pipeline_target_details_view(node_display(right.node_id.index, "expr"@))
    &&& binary_result(a, op, left, right, expected, r)
    &&& literal_shift_count(op, right) is Some ==> b.diagnostics@.len() > a.diagnostics@.len()
        && diag_is(b.diagnostics@[a.diagnostics@.len() as int], "type.invalid_shift_count"@, DiagnosticKind::Type,
            "shift count "@ + signed_decimal(literal_shift_count(op, right)->0) + " is outside the permitted range 0 through 63"@,
            Some(right.span@), shift_count_details_view(shift_text(op), literal_shift_count(op, right)->0), Seq::empty())
    &&& op != BinaryOp::PipeGreater && !operator_is_float(a, op, left, right, expected) ==>
        exists|e: ExpectedType, c1: FunctionChecker, tl: TypeV, c2: FunctionChecker, tr: TypeV| {
            &&& e.ty@ == operand_type_of(a, op, left, right, expected)
            &&& e.source == ExpectedTypeSource::Inferred && e.origin_node_id == left.node_id
            &&& #[trigger] same_but_diagnostics(a, c1)
            &&& #[trigger] expr_result(c1, left, Some(&e), tl)
            &&& #[trigger] kept_scope(c1, c2)
            &&& #[trigger] expr_result(c2, right, Some(&e), tr)
            &&& !assignable(e.ty@, tl) ==> exists|k: int| 0 <= k < b.diagnostics@.len()
                && operand_mismatch(a, left, left, e.ty@, tl, #[trigger] b.diagnostics@[k])
            &&& !assignable(e.ty@, tr) ==> exists|k: int| 0 <= k < b.diagnostics@.len()
                && operand_mismatch(a, right, left, e.ty@, tr, #[trigger] b.diagnostics@[k])
        }
}

/// With nothing expected, an `if` has the type of its first branch once that is known.
pub open spec fn if_reported(a: FunctionChecker, then_branch: Expr, expected: Option<&ExpectedType>, r: TypeV) -> bool {
    expected is None ==> exists|c: FunctionChecker, t: TypeV| kept_scope(a, c)
        && #[trigger] inferred_against(c, then_branch, None, t) && (t != TypeV::Unknown ==> r == t)
}

/// With nothing expected, a `match` has the type of its first arm once that is known.
pub open spec fn match_reported(a: FunctionChecker, arms: Seq<MatchArm>, expected: Option<&ExpectedType>, r: TypeV) -> bool {
    expected is None && arms.len() > 0 ==> exists|m: FunctionChecker, c: FunctionChecker, t: TypeV| kept_scope(a, m)
        && #[trigger] scope_extended(m, c) && #[trigger] inferred_against(c, arms[0].expr, None, t) && (t != TypeV::Unknown ==> r == t)
}

/// What inferring `e` against `expected` takes `a` to, with type `r`: the scope is kept,
/// the type is what the expression's form decides, a literal changes nothing, and a name,
/// a list, a dictionary, a record, a binary operator, an `if`, a `match`, a `perform`, a `handle`
/// and a field access report what their own inference states.
pub open spec fn infer_reported(a: FunctionChecker, b: FunctionChecker, e: Expr, expected: Option<&ExpectedType>, r: TypeV) -> bool {
    &&& kept_scope(a, b)
    &&& expr_result(a, e, expected, r)
    &&& (e.kind is Missing || e.kind is StringLiteral || e.kind is IntLiteral || e.kind is FloatLiteral
        || e.kind is BoolLiteral || e.kind is Unit) ==> b == a
    &&& match e.kind {
        ExprKind::NamePath { segments } => crate::names_infer::name_reported(a, b, segments.deep_view(), e, expected, r),
        ExprKind::List(items) => list_reported(a, b, e, items@, expected, r),
        ExprKind::Binary { op, left, right } => binary_reported(a, b, op, *left, *right, expected, r),
        ExprKind::If { condition, then_branch, else_if_branches, else_branch } => if_reported(a, *then_branch, expected, r),
        ExprKind::Match { scrutinee, arms } => match_reported(a, arms@, expected, r),
        ExprKind::Handle { body, handler, handler_span, args } => crate::handle::handle_reported(a, b, e,
            *body, handler.deep_view(), handler_span@, args@, expected, r),
        ExprKind::Perform { effect, effect_span, operation, operation_span, args } => crate::perform::perform_reported(a,
            b, e, effect.deep_view(), effect_span@, operation@, operation_span@, args@),
        ExprKind::FieldAccess { base, field, field_span } => crate::field_access::field_reported(a, b, e, *base, field@,
            field_span@, r),
        ExprKind::Dict(entries) => crate::dicts::dict_reported(a, b, e, entries@, expected, r),
        ExprKind::Record(fields) => crate::records::record_reported(a, b, e, fields@, expected, r),
        _ => true,
    }
}

/// Whether an empty list is reported as ambiguous: its expected type is a `Vec` whose
/// type is incomplete.
pub open spec fn empty_list_ambiguous(expected: Option<&ExpectedType>) -> bool {
    expected matches Some(e) && (e.ty@ matches TypeV::Named { name, args } && name == "Vec"@ && args.len() == 1)
        && crate::types::contains_unknown(e.ty@)
}

/// The element type after items of types `ts` were inferred: `expected` while unknown,
/// then the first item type that fixes it.
pub open spec fn element_after(expected: TypeV, ts: Seq<TypeV>) -> TypeV
    decreases ts.len(),
{
    if ts.len() == 0 {
        expected
    } else {
        let prev = element_after(expected, ts.drop_last());
        if prev == TypeV::Unknown { ts.last() } else { prev }
    }
}

/// One collection item step: from `a`, `item` is inferred into `m` with type `t` against
/// the element type `element` (by the expectation `e`), and `b` is `m` with a mismatch
/// under `constraint` reported when `t` does not fit the element type.
pub open spec fn item_step(a: FunctionChecker, m: FunctionChecker, b: FunctionChecker, list: Expr, item: Expr, element: TypeV,
    constraint: Seq<char>, t: TypeV, e: ExpectedType) -> bool {
    &&& kept_scope(a, m)
    &&& e.ty@ == element
    &&& expr_result(a, item, Some(&e), t)
    &&& same_but_diagnostics(m, b)
    &&& crate::patterns::grew(m, b)
    &&& assignable(element, t) ==> b.diagnostics == m.diagnostics
    &&& !assignable(element, t) ==> pushed_one(m.diagnostics@, b.diagnostics@)
        && diag_is(b.diagnostics@.last(), "type.mismatch"@, DiagnosticKind::Type,
            "expected `"@ + render(element) + "`, but found `"@ + render(t) + "`"@, Some(item.span@),
            type_details_view(node_display(item.node_id.index, "expr"@), render(element), render(t),
                crate::semantic::type_source_name(e.source), "inferred_expression"@, constraint,
                seq![node_display(m.function.node_id.index, "fn"@), node_display(e.origin_node_id.index, "expr"@), node_display(item.node_id.index, "expr"@)]),
            Seq::empty())
}

/// `b` is `a` after checking one collection item against the element type `element`; `t`
/// is its type.
pub open spec fn item_checked(a: FunctionChecker, b: FunctionChecker, list: Expr, item: Expr, element: TypeV, constraint: Seq<char>,
    t: TypeV) -> bool {
    exists|m: FunctionChecker, e: ExpectedType| #[trigger] item_step(a, m, b, list, item, element, constraint, t, e)
}

/// `b` is `a` after checking the first `n` items of a list in order, with item types `ts`.
pub open spec fn list_items_checked(a: FunctionChecker, b: FunctionChecker, list: Expr, items: Seq<Expr>, n: int,
    expected: Option<&ExpectedType>, ts: Seq<TypeV>) -> bool
    decreases n,
{
    if n <= 0 {
        a == b && ts.len() == 0
    } else {
        ts.len() == n && exists|m: FunctionChecker| list_items_checked(a, m, list, items, n - 1, expected, ts.drop_last())
            && #[trigger] item_checked(m, b, list, items[n - 1], element_after(expected_item(expected), ts.drop_last()), "list_element"@,
                ts.last())
    }
}

/// An expectation that inference derived at `origin`.
fn inferred_expectation(ty: Type, origin: &Expr, message: &'static str) -> (r: ExpectedType)
    ensures
        r.ty@ == ty@,
        r.source == ExpectedTypeSource::Inferred,
        r.origin_node_id == origin.node_id,
        r.origin_message == message,
{
    ExpectedType {
        ty,
        source: ExpectedTypeSource::Inferred,
        origin_node_id: origin.node_id,
        origin_span: Some(origin.span.copy()),
        origin_message: message,
    }
}

impl<'a> FunctionChecker<'a> {
    /// Infers the type of an expression against an optional expectation, reporting
    /// what does not fit on the way.
    pub fn infer_expr(&mut self, expr: &Expr, expected: Option<&ExpectedType>) -> (r: Type)
        ensures
            kept_scope(*old(self), *final(self)),
            expr_result(*old(self), *expr, expected, r@),
            (expr.kind is Missing || expr.kind is StringLiteral || expr.kind is IntLiteral || expr.kind is FloatLiteral
                || expr.kind is BoolLiteral || expr.kind is Unit) ==> *final(self) == *old(self),
            infer_reported(*old(self), *final(self), *expr, expected, r@),
        decreases size(*expr), 2nat,
    {
        proof { lemma_kept_scope_refl(*self); }
        match &expr.kind {
            ExprKind::Missing => Type::Unknown,
            ExprKind::NamePath { segments } => self.infer_name_path(segments, expr, expected),
            ExprKind::StringLiteral(_) => Type::string_type(),
            ExprKind::IntLiteral { .. } => Type::int_type(),
            ExprKind::FloatLiteral(_) => Type::float_type(),
            ExprKind::BoolLiteral(_) => Type::bool_type(),
            ExprKind::Unit => Type::unit_type(),
            ExprKind::List(items) => self.infer_list(expr, items, expected),
            ExprKind::Match { scrutinee, arms } => self.infer_match(expr, scrutinee, arms, expected),
            ExprKind::If { condition, then_branch, else_if_branches, else_branch } => self.infer_if(
                expr,
                condition,
                then_branch,
                else_if_branches,
                else_branch,
                expected,
            ),
            ExprKind::Prefix { op, expr: operand } => self.infer_prefix(*op, operand, expected),
            ExprKind::Binary { op, left, right } => self.infer_binary(*op, left, right, expected),
            ExprKind::Perform { effect, effect_span, operation, operation_span, args } => self.infer_perform(
                expr,
                effect,
                effect_span,
                operation,
                operation_span,
                args,
            ),
            ExprKind::Handle { body, handler, handler_span, args } => self.infer_handle(expr, body, handler, handler_span, args, expected),
            ExprKind::FieldAccess { base, field, field_span } => self.infer_field_access(expr, base, field, field_span),
            ExprKind::Dict(entries) => self.infer_dict(expr, entries, expected),
            ExprKind::Record(fields) => self.infer_record(expr, fields, expected),
        }
    }

    /// Infers a list literal: each item is checked against the element type, which the
    /// expectation or else the first item type that is known fixes. An empty list whose
    /// expected `Vec` type is incomplete is reported as ambiguous.
    pub fn infer_list(&mut self, expr: &Expr, items: &Vec<Expr>, expected: Option<&ExpectedType>) -> (r: Type)
        ensures
            kept_scope(*old(self), *final(self)),
            list_result(expected, items@.len(), r@),
            list_reported(*old(self), *final(self), *expr, items@, expected, r@),
        decreases size_all(items@) + 1, 1nat,
    {
        let ghost start = *self;
        if items.len() == 0 {
            if let Some(e) = expected {
                if e.ty.vec_part().is_some() && crate::types::type_contains_unknown(&e.ty) {
                    self.push_ambiguous_empty_collection_type(expr.node_id, expr.span.copy(), "Vec", &e.ty);
                    proof {
                        reveal_strlit("Vec");
                        crate::patterns::lemma_grew_push(start, *self);
                        lemma_grew_kept(start, *self);
                        assert(empty_list_ambiguous(expected));
                    }
                }
            }
        }
        proof {
            if *self == start {
                lemma_kept_scope_refl(start);
                if items@.len() == 0 {
                    assert(!empty_list_ambiguous(expected));
                }
            }
        }
        let expected_element = match expected {
            Some(e) => match e.ty.vec_part() {
                Some(t) => t.copy(),
                None => Type::Unknown,
            },
            None => Type::Unknown,
        };
        assert(expected_element@ == expected_item(expected));
        let mut item_type = expected_element.copy();
        let ghost mut ts: Seq<TypeV> = Seq::empty();
        let ghost after_empty = *self;
        let mut i: usize = 0;
        while i < items.len()
            invariant
                0 <= i <= items@.len(),
                kept_scope(start, *self),
                items@.len() > 0 ==> list_items_checked(start, *self, *expr, items@, i as int, expected, ts),
                items@.len() == 0 ==> *self == after_empty,
                ts.len() == i,
                expected_element@ == expected_item(expected),
                item_type@ == element_after(expected_element@, ts),
                expected_element@ != TypeV::Unknown ==> item_type@ == expected_element@,
            decreases items.len() - i,
        {
            let item_expected = crate::boundary::collection_item_expected(item_type.copy(), expected, expr.node_id, expr.span.copy(), "Vec element type inferred here.");
            let ghost before = *self;
            let ghost before_ts = ts;
            proof { lemma_size_all(items@, i as int); }
            let actual = self.infer_expr(&items[i], Some(&item_expected));
            let ghost mid = *self;
            self.check_assignable(&items[i], &item_expected.ty, &actual, &item_expected, "list_element");
            proof {
                reveal_strlit("list_element");
                lemma_grew_kept(mid, *self);
                lemma_kept_scope_trans(before, mid, *self);
                lemma_kept_scope_trans(start, before, *self);
                ts = before_ts.push(actual@);
                assert(ts.drop_last() =~= before_ts);
                assert(item_step(before, mid, *self, *expr, items@[i as int], element_after(expected_item(expected), before_ts), "list_element"@,
                    actual@,
                    item_expected));
                assert(item_checked(before, *self, *expr, items@[i as int], element_after(expected_item(expected), before_ts), "list_element"@,
                    actual@));
                if i == 0 {
                    assert(list_items_checked(start, before, *expr, items@, 0, expected, before_ts));
                }
                assert(list_items_checked(start, *self, *expr, items@, i + 1, expected, ts));
            }
            if item_type.is_unknown() {
                item_type = actual;
            }
            i += 1;
        }
        Type::vec_of(item_type)
    }

    /// Infers a `match`: each arm is checked against the expectation, or else against the
    /// type of the first arm whose type is known; the arms must cover the scrutinee.
    pub fn infer_match(&mut self, expr: &Expr, scrutinee: &Expr, arms: &Vec<MatchArm>, expected: Option<&ExpectedType>) -> (r: Type)
        requires
            size(*expr) == 1 + size(*scrutinee) + size_arms(arms@),
        ensures
            kept_scope(*old(self), *final(self)),
            follows_expected(expected, r@),
            match_reported(*old(self), arms@, expected, r@),
        decreases size(*expr), 1nat,
    {
        let ghost start = *self;
        proof { lemma_size_positive(*scrutinee); }
        let scrutinee_type = self.infer_expr(scrutinee, None);
        let mut result_type = match expected {
            Some(e) => e.ty.copy(),
            None => Type::Unknown,
        };
        let ghost mut first: (FunctionChecker, FunctionChecker, TypeV) = (start, start, TypeV::Unknown);
        let mut i: usize = 0;
        while i < arms.len()
            invariant
                0 <= i <= arms@.len(),
                kept_scope(start, *self),
                size(*expr) == 1 + size(*scrutinee) + size_arms(arms@),
                follows_expected(expected, result_type@),
                i == 0 && expected is None ==> result_type@ == TypeV::Unknown,
                i > 0 && expected is None ==> kept_scope(start, first.0) && scope_extended(first.0, first.1)
                    && inferred_against(first.1, arms@[0].expr, None, first.2)
                    && (first.2 != TypeV::Unknown ==> result_type@ == first.2),
            decreases arms.len() - i,
        {
            let ghost before = *self;
            proof { lemma_size_arms(arms@, i as int); lemma_size_positive(*scrutinee); }
            self.infer_match_arm(expr, &arms[i], &scrutinee_type, expected, &mut result_type);
            proof {
                if i == 0 && expected is None {
                    let (c, x, t) = choose|c: FunctionChecker, x: Option<ExpectedType>, t: TypeV|
                        scope_extended(before, c) && carries_expectation(expected, x) && #[trigger] inferred_against(c, arms@[0].expr, x, t)
                        && result_type@ == t;
                    first = (before, c, t);
                }
                lemma_kept_scope_trans(start, before, *self);
            }
            i += 1;
        }
        proof {
            if expected is None && arms@.len() > 0 {
                assert(inferred_against(first.1, arms@[0].expr, None, first.2));
                assert(scope_extended(first.0, first.1));
            }
        }
        let ghost before = *self;
        self.check_match_exhaustiveness(expr, scrutinee, &scrutinee_type, arms);
        proof {
            lemma_grew_kept(before, *self);
            lemma_kept_scope_trans(start, before, *self);
        }
        result_type
    }

    /// Infers one `match` arm with its pattern's bindings in scope, which end with it.
    pub fn infer_match_arm(&mut self, match_expr: &Expr, arm: &MatchArm, scrutinee_type: &Type, expected: Option<&ExpectedType>, result_type: &mut Type)
        ensures
            kept_scope(*old(self), *final(self)),
            old(result_type)@ != TypeV::Unknown ==> final(result_type)@ == old(result_type)@,
            follows_expected(expected, old(result_type)@) ==> follows_expected(expected, final(result_type)@),
            old(result_type)@ == TypeV::Unknown ==> exists|c: FunctionChecker, x: Option<ExpectedType>, t: TypeV|
                scope_extended(*old(self), c) && carries_expectation(expected, x) && #[trigger] inferred_against(c, arm.expr, x, t)
                && final(result_type)@ == t,
        decreases size(arm.expr) + 1, 1nat,
    {
        let ghost start = *self;
        let saved_bindings = self.bindings.len();
        let saved_recoveries = self.invalid_binding_recoveries.len();
        let saved_names = self.local_names.len();
        self.declare_match_pattern_bindings(&arm.pattern, scrutinee_type);
        let ghost declared = *self;
        let ghost unknown_before = result_type@ == TypeV::Unknown;
        self.infer_match_arm_result(match_expr, arm, expected, result_type);
        proof {
            if unknown_before {
                let (x, t) = choose|x: Option<ExpectedType>, t: TypeV|
                    carries_expectation(expected, x) && #[trigger] inferred_against(declared, arm.expr, x, t) && result_type@ == t;
                assert(inferred_against(declared, arm.expr, x, t));
            }
        }
        let ghost inferred = *self;
        self.bindings.truncate(saved_bindings);
        self.invalid_binding_recoveries.truncate(saved_recoveries);
        self.local_names.truncate(saved_names);
        proof {
            assert(scope_extended(start, declared));
            assert(kept_scope(declared, inferred));
            assert(self.invalid_binding_recoveries@ =~= start.invalid_binding_recoveries@);
            assert(self.local_names@ =~= start.local_names@);
            assert forall|i: int| 0 <= i < start.bindings@.len() implies (#[trigger] self.bindings@[i]).name@ == start.bindings@[i].name@ by {
                assert(self.bindings@[i] == inferred.bindings@[i]);
                assert(declared.bindings@[i] == start.bindings@[i]);
            }
            assert forall|i: int| 0 <= i < start.bindings@.len() && (#[trigger] self.bindings@[i]).ty@ != start.bindings@[i].ty@
                implies crate::infer::refinable(start.bindings@[i].ty@) by {
                assert(self.bindings@[i] == inferred.bindings@[i]);
                assert(declared.bindings@[i] == start.bindings@[i]);
            }
            assert(self.diagnostics@.take(start.diagnostics@.len() as int) =~= start.diagnostics@) by {
                assert(inferred.diagnostics@.take(declared.diagnostics@.len() as int) == declared.diagnostics@);
                assert(declared.diagnostics@.take(start.diagnostics@.len() as int) == start.diagnostics@);
            }
        }
    }

    /// Infers a `match` arm's body and fixes the match's type from it if not yet known.
    pub fn infer_match_arm_result(&mut self, match_expr: &Expr, arm: &MatchArm, expected: Option<&ExpectedType>, result_type: &mut Type)
        ensures
            kept_scope(*old(self), *final(self)),
            old(result_type)@ != TypeV::Unknown ==> final(result_type)@ == old(result_type)@,
            follows_expected(expected, old(result_type)@) ==> follows_expected(expected, final(result_type)@),
            old(result_type)@ == TypeV::Unknown ==> exists|x: Option<ExpectedType>, t: TypeV|
                carries_expectation(expected, x) && #[trigger] inferred_against(*old(self), arm.expr, x, t) && final(result_type)@ == t,
        decreases size(arm.expr) + 1, 0nat,
    {
        let ghost start = *self;
        let arm_expected = match expected {
            Some(e) => Some(e.copy()),
            None => if !result_type.is_unknown() {
                Some(inferred_expectation(result_type.copy(), match_expr, "Match result type inferred here."))
            } else {
                None
            },
        };
        let actual = match &arm_expected {
            Some(e) => self.infer_expr(&arm.expr, Some(e)),
            None => self.infer_expr(&arm.expr, None),
        };
        let ghost mid = *self;
        if let Some(e) = &arm_expected {
            self.check_assignable(&arm.expr, &e.ty, &actual, e, "match_arm");
            proof { lemma_grew_kept(mid, *self); lemma_kept_scope_trans(start, mid, *self); }
        }
        let ghost unknown_before = result_type@ == TypeV::Unknown;
        let ghost actual_view = actual@;
        if result_type.is_unknown() {
            *result_type = actual;
        }
        proof {
            if unknown_before {
                assert(inferred_against(start, arm.expr, arm_expected, actual_view));
            }
        }
    }

    /// Infers an `if`: every condition must be a `Bool`, and every branch is checked
    /// against the expectation, or else against the first branch type that is known.
    pub fn infer_if(
        &mut self,
        expr: &Expr,
        condition: &Expr,
        then_branch: &Expr,
        else_if_branches: &Vec<IfBranch>,
        else_branch: &Expr,
        expected: Option<&ExpectedType>,
    ) -> (r: Type)
        requires
            size(*expr) == 1 + size(*condition) + size(*then_branch) + size_branches(else_if_branches@) + size(*else_branch),
        ensures
            kept_scope(*old(self), *final(self)),
            follows_expected(expected, r@),
            if_reported(*old(self), *then_branch, expected, r@),
        decreases size(*expr), 1nat,
    {
        let ghost start = *self;
        proof {
            lemma_size_positive(*condition);
            lemma_size_positive(*then_branch);
            lemma_size_positive(*else_branch);
        }
        self.check_if_condition(expr, condition);
        let mut result_type = match expected {
            Some(e) => e.ty.copy(),
            None => Type::Unknown,
        };
        let ghost a = *self;
        self.infer_if_branch(expr, then_branch, expected, &mut result_type);
        proof { lemma_kept_scope_trans(start, a, *self); }
        let ghost first_t = result_type@;
        proof {
            if expected is None {
                let (x, t) = choose|x: Option<ExpectedType>, t: TypeV|
                    carries_expectation(expected, x) && #[trigger] inferred_against(a, *then_branch, x, t) && result_type@ == t;
                assert(inferred_against(a, *then_branch, None, first_t));
            }
        }
        let mut i: usize = 0;
        while i < else_if_branches.len()
            invariant
                0 <= i <= else_if_branches@.len(),
                kept_scope(start, *self),
                first_t != TypeV::Unknown ==> result_type@ == first_t,
                size(*expr) == 1 + size(*condition) + size(*then_branch) + size_branches(else_if_branches@) + size(*else_branch),
                follows_expected(expected, result_type@),
            decreases else_if_branches.len() - i,
        {
            let ghost before = *self;
            proof { lemma_size_branches(else_if_branches@, i as int); }
            self.check_if_condition(expr, &else_if_branches[i].condition);
            let ghost mid = *self;
            self.infer_if_branch(expr, &else_if_branches[i].expr, expected, &mut result_type);
            proof {
                lemma_kept_scope_trans(before, mid, *self);
                lemma_kept_scope_trans(start, before, *self);
            }
            i += 1;
        }
        let ghost b = *self;
        self.infer_if_branch(expr, else_branch, expected, &mut result_type);
        proof {
            lemma_kept_scope_trans(start, b, *self);
            if expected is None {
                assert(inferred_against(a, *then_branch, None, first_t));
            }
        }
        result_type
    }

    /// Checks that a condition is a `Bool`.
    pub fn check_if_condition(&mut self, if_expr: &Expr, condition: &Expr)
        ensures
            kept_scope(*old(self), *final(self)),
            exists|e: ExpectedType, mid: FunctionChecker, t: TypeV| {
                &&& condition_expectation(e, *if_expr)
                &&& #[trigger] kept_scope(*old(self), mid)
                &&& #[trigger] expr_result(*old(self), *condition, Some(&e), t)
                &&& if assignable(named0("Bool"@), t) {
                    final(self).diagnostics == mid.diagnostics
                } else {
                    pushed_one(mid.diagnostics@, final(self).diagnostics@)
                    && diag_is(final(self).diagnostics@.last(), "type.mismatch"@, DiagnosticKind::Type,
                        "expected `"@ + render(named0("Bool"@)) + "`, but found `"@ + render(t) + "`"@, Some(condition.span@),
                        type_details_view(node_display(condition.node_id.index, "expr"@), render(named0("Bool"@)), render(t),
                            "inferred"@, "inferred_expression"@, "if_condition"@,
                            seq![node_display(old(self).function.node_id.index, "fn"@), node_display(if_expr.node_id.index, "expr"@),
                                node_display(condition.node_id.index, "expr"@)]),
                        Seq::empty())
                }
            },
        decreases size(*condition) + 1, 0nat,
    {
        let ghost start = *self;
        let expected = inferred_expectation(Type::bool_type(), if_expr, "If condition expected `Bool` here.");
        let actual = self.infer_expr(condition, Some(&expected));
        let ghost mid = *self;
        self.check_assignable(condition, &expected.ty, &actual, &expected, "if_condition");
        proof {
            lemma_grew_kept(mid, *self);
            lemma_kept_scope_trans(start, mid, *self);
            assert(condition_expectation(expected, *if_expr));
            assert(expr_result(start, *condition, Some(&expected), actual@));
        }
    }

    /// Infers one branch of an `if` and fixes the `if`'s type from it if not yet known.
    pub fn infer_if_branch(&mut self, if_expr: &Expr, branch_expr: &Expr, expected: Option<&ExpectedType>, result_type: &mut Type)
        ensures
            kept_scope(*old(self), *final(self)),
            old(result_type)@ != TypeV::Unknown ==> final(result_type)@ == old(result_type)@,
            follows_expected(expected, old(result_type)@) ==> follows_expected(expected, final(result_type)@),
            old(result_type)@ == TypeV::Unknown ==> exists|x: Option<ExpectedType>, t: TypeV|
                carries_expectation(expected, x) && #[trigger] inferred_against(*old(self), *branch_expr, x, t) && final(result_type)@ == t,
        decreases size(*branch_expr) + 1, 0nat,
    {
        let ghost start = *self;
        let branch_expected = match expected {
            Some(e) => Some(e.copy()),
            None => if !result_type.is_unknown() {
                Some(inferred_expectation(result_type.copy(), if_expr, "If result type inferred here."))
            } else {
                None
            },
        };
        let actual = match &branch_expected {
            Some(e) => self.infer_expr(branch_expr, Some(e)),
            None => self.infer_expr(branch_expr, None),
        };
        let ghost mid = *self;
        if let Some(e) = &branch_expected {
            self.check_assignable(branch_expr, &e.ty, &actual, e, "if_branch");
            proof { lemma_grew_kept(mid, *self); lemma_kept_scope_trans(start, mid, *self); }
        }
        let ghost unknown_before = result_type@ == TypeV::Unknown;
        let ghost actual_view = actual@;
        if result_type.is_unknown() {
            *result_type = actual;
        }
        proof {
            if unknown_before {
                assert(inferred_against(start, *branch_expr, branch_expected, actual_view));
            }
        }
    }

    /// Infers a prefix operator: `!` takes a `Bool`, `~` an `Int`, and `-` a number.
    pub fn infer_prefix(&mut self, op: PrefixOp, expr: &Expr, expected_result: Option<&ExpectedType>) -> (r: Type)
        ensures
            kept_scope(*old(self), *final(self)),
            prefix_result(*old(self), op, *expr, expected_result, r@),
        decreases size(*expr) + 1, 1nat,
    {
        let ghost start = *self;
        let operands: [&Expr; 1] = [expr];
        assert(operands@ =~= seq![expr]);
        let operand_type = match op {
            PrefixOp::Not => Type::bool_type(),
            PrefixOp::Negate => self.numeric_operand_type(expected_result, &operands),
            PrefixOp::BitwiseNot => Type::int_type(),
        };
        let float = operand_type.is_named0("Float");
        let message = if float { "Builtin operator parameter type inferred here." } else { "Operator operand type inferred here." };
        let expected = inferred_expectation(operand_type, expr, message);
        let actual = self.infer_expr(expr, Some(&expected));
        let ghost mid = *self;
        if float {
            self.check_numeric_operator_assignable(expr, &expected.ty, &actual, &expected);
        } else {
            self.check_assignable(expr, &expected.ty, &actual, &expected, "operator_operand");
        }
        proof { lemma_grew_kept(mid, *self); lemma_kept_scope_trans(start, mid, *self); }
        expected.ty
    }

    /// Infers a binary operator: both operands are checked against the operator's
    /// operand type, and the result is the operator's result type.
    pub fn infer_binary(&mut self, op: BinaryOp, left: &Expr, right: &Expr, expected_result: Option<&ExpectedType>) -> (r: Type)
        ensures
            kept_scope(*old(self), *final(self)),
            binary_reported(*old(self), *final(self), op, *left, *right, expected_result, r@),
        decreases size(*left) + size(*right) + 1, 1nat,
    {
        let ghost start = *self;
        proof { lemma_size_positive(*left); lemma_size_positive(*right); }
        if op == BinaryOp::PipeGreater {
            return self.infer_pipeline(left, right, expected_result);
        }
        if let Some(count) = invalid_literal_shift_count(op, right) {
            let operator = crate::boundary::shift_operator_text(op).unwrap();
            let mut message = string_of("shift count ");
            push_signed_decimal(&mut message, count);
            message.append(" is outside the permitted range 0 through 63");
            let mut b = ObjectBuilder::new();
            b.push_str("operator", operator);
            b.push("actual_count", JsonValue::Number(count));
            b.push("minimum_count", JsonValue::Number(0));
            b.push("maximum_count", JsonValue::Number(63));
            let details = b.finish();
            let d = Diagnostic::new("type.invalid_shift_count", Severity::Error, DiagnosticKind::Type, message, Some(right.span.copy()), details);
            proof {
                assert(d.details@->Object_0 =~= shift_count_details_view(shift_text(op), count as int)->Object_0);
                assert(jsons(d.related@) =~= Seq::<JsonV>::empty());
            }
            self.push_diagnostic(d);
            proof { crate::patterns::lemma_grew_push(start, *self); lemma_grew_kept(start, *self); }
        } else {
            proof { lemma_kept_scope_refl(start); }
        }
        let ghost after_shift = *self;
        let operands: [&Expr; 2] = [left, right];
        assert(operands@ =~= seq![left, right]);
        let ordering = op == BinaryOp::Less || op == BinaryOp::LessEqual || op == BinaryOp::Greater || op == BinaryOp::GreaterEqual;
        let numeric = if ordering {
            self.numeric_operand_type(None, &operands)
        } else {
            self.numeric_operand_type(expected_result, &operands)
        };
        let arithmetic = op == BinaryOp::Add || op == BinaryOp::Subtract || op == BinaryOp::Multiply || op == BinaryOp::Divide;
        proof {
            assert(numeric_type(after_shift, expected_result, seq![left, right]) == numeric_type(start, expected_result, seq![left, right]));
        }
        let float = numeric.is_named0("Float") && (ordering || arithmetic);
        let (operand_type, result_type) = if op == BinaryOp::Or || op == BinaryOp::And {
            (Type::bool_type(), Type::bool_type())
        } else if op == BinaryOp::Equal || op == BinaryOp::NotEqual {
            (Type::Unknown, Type::bool_type())
        } else if ordering {
            (numeric, Type::bool_type())
        } else if arithmetic {
            let copy = numeric.copy();
            (numeric, copy)
        } else {
            (Type::int_type(), Type::int_type())
        };
        let message = if float { "Builtin operator parameter type inferred here." } else { "Operator operand type inferred here." };
        let expected = inferred_expectation(operand_type.copy(), left, message);
        let ghost s1 = *self;
        let actual_left = self.infer_expr(left, Some(&expected));
        let ghost s2 = *self;
        if float {
            self.check_numeric_operator_assignable(left, &expected.ty, &actual_left, &expected);
        } else {
            self.check_assignable(left, &expected.ty, &actual_left, &expected, "operator_operand");
        }
        let ghost s3 = *self;
        let expected_right = if float { inferred_expectation(operand_type, right, message) } else { expected };
        let actual_right = self.infer_expr(right, Some(&expected_right));
        let ghost s4 = *self;
        if float {
            self.check_numeric_operator_assignable(right, &expected_right.ty, &actual_right, &expected_right);
        } else {
            self.check_assignable(right, &expected_right.ty, &actual_right, &expected_right, "operator_operand");
        }
        proof {
            lemma_grew_kept(s2, s3);
            lemma_grew_kept(s4, *self);
            lemma_kept_scope_trans(s1, s2, s3);
            lemma_kept_scope_trans(s1, s3, s4);
            lemma_kept_scope_trans(s1, s4, *self);
            lemma_kept_scope_trans(start, s1, *self);
            if !float && op != BinaryOp::PipeGreater {
                assert(expected.ty@ == operand_type_of(start, op, *left, *right, expected_result));
                assert(same_but_diagnostics(start, s1));
                assert(kept_scope(s3, s4));
                lemma_kept_scope_trans(s2, s3, s4);
                assert(kept_scope(s1, s2));
                if !assignable(expected.ty@, actual_left@) {
                    let k = s3.diagnostics@.len() - 1;
                    assert(self.diagnostics@.take(s3.diagnostics@.len() as int)[k] == s3.diagnostics@[k]);
                    assert(operand_mismatch(start, *left, *left, expected.ty@, actual_left@, self.diagnostics@[k]));
                }
                if !assignable(expected.ty@, actual_right@) {
                    let k = self.diagnostics@.len() - 1;
                    assert(operand_mismatch(start, *right, *left, expected.ty@, actual_right@, self.diagnostics@[k]));
                }
                assert(expr_result(s3, *right, Some(&expected_right), actual_right@));
            }
            if literal_shift_count(op, *right) is Some {
                assert(s1.diagnostics@[start.diagnostics@.len() as int].id@ == "type.invalid_shift_count"@);
                assert(self.diagnostics@.take(s1.diagnostics@.len() as int) == s1.diagnostics@);
                assert(self.diagnostics@[start.diagnostics@.len() as int] == self.diagnostics@.take(s1.diagnostics@.len() as int)[start.diagnostics@.len() as int]);
            }
        }
        result_type
    }

    /// A pipeline whose target is not a call: both sides are inferred on their own and the
    /// target is reported.
    #[verifier::rlimit(40)]
    pub fn infer_pipeline(&mut self, left: &Expr, right: &Expr, expected_result: Option<&ExpectedType>) -> (r: Type)
        ensures
            kept_scope(*old(self), *final(self)),
            r@ == TypeV::Unknown,
            final(self).diagnostics@.len() > old(self).diagnostics@.len(),
            final(self).diagnostics@.last().id@ == "type.pipeline_target"@,
            final(self).diagnostics@.last().details@ == pipeline_target_details_view(node_display(right.node_id.index, "expr"@)),
        decreases size(*left) + size(*right) + 1, 0nat,
    {
        let ghost start = *self;
        self.infer_expr(left, None);
        let ghost a = *self;
        self.infer_expr(right, None);
        let ghost b = *self;
        let mut o = ObjectBuilder::new();
        o.push_str("phase", "type");
        o.push_string("node_id", right.node_id.display("expr"));
        o.push_str("expected", "call");
        o.push_str("actual", "expression");
        o.push_str("constraint", "pipeline_target");
        let details = o.finish();
        proof {
            assert(details@->Object_0 =~= pipeline_target_details_view(node_display(right.node_id.index, "expr"@))->Object_0);
        }
        let d = Diagnostic::new("type.pipeline_target", Severity::Error, DiagnosticKind::Type, string_of("pipeline target is not a call"), Some(right.span.copy()), details);
        self.push_diagnostic(d);
        proof {
            crate::patterns::lemma_grew_push(b, *self);
            lemma_grew_kept(b, *self);
            lemma_kept_scope_trans(start, a, b);
            lemma_kept_scope_trans(start, b, *self);
        }
        Type::Unknown
    }
}

} // verus!
