use vstd::prelude::*;

use crate::ast::{BinaryOp, DictEntry, Expr, ExprKind, IfBranch, MatchArm, PrefixOp, RecordField};
use crate::checker::FunctionChecker;
use crate::env::{TypeEnvironment, function_from, opt_str, signature_type};
use crate::semantic::{Binding, ExpectedType};
use crate::text::str_eq;
use crate::types::{Type, TypeV, contains_unknown, named0};

verus! {

/// Whether a binding of this type may have its type fixed by a later use: it still
/// holds an unknown part, or it is the empty record that an empty `{}` produces.
pub open spec fn refinable(t: TypeV) -> bool {
    contains_unknown(t) || t == TypeV::Record(Seq::empty())
}

/// `b` is `a` after inferring the type of an expression: nothing was declared or
/// recorded, the bindings in scope keep their names, a binding's type changed only
/// where it could still be refined, and diagnostics were only added.
pub open spec fn kept_scope(a: FunctionChecker, b: FunctionChecker) -> bool {
    &&& a.function == b.function
    &&& a.environment == b.environment
    &&& a.invalid_binding_recoveries@ == b.invalid_binding_recoveries@
    &&& a.omitted_local_bindings@ == b.omitted_local_bindings@
    &&& a.local_names@ == b.local_names@
    &&& crate::checker::effects_extended(a.inferred_effects@, b.inferred_effects@)
    &&& a.inferred_return_type == b.inferred_return_type
    &&& a.suppressed_diagnostic_indices@ == b.suppressed_diagnostic_indices@
    &&& b.bindings@.len() == a.bindings@.len()
    &&& forall|i: int| 0 <= i < a.bindings@.len() ==> (#[trigger] b.bindings@[i]).name@ == a.bindings@[i].name@
    &&& forall|i: int| 0 <= i < a.bindings@.len() && (#[trigger] b.bindings@[i]).ty@ != a.bindings@[i].ty@
        ==> refinable(a.bindings@[i].ty@)
    &&& b.diagnostics@.len() >= a.diagnostics@.len()
    &&& b.diagnostics@.take(a.diagnostics@.len() as int) == a.diagnostics@
}

pub proof fn lemma_kept_scope_refl(a: FunctionChecker)
    ensures
        kept_scope(a, a),
{
    crate::checker::lemma_effects_extended_refl(a.inferred_effects@);
    assert(a.diagnostics@.take(a.diagnostics@.len() as int) =~= a.diagnostics@);
}

pub proof fn lemma_kept_scope_trans(a: FunctionChecker, b: FunctionChecker, c: FunctionChecker)
    requires
        kept_scope(a, b),
        kept_scope(b, c),
    ensures
        kept_scope(a, c),
{
    crate::checker::lemma_effects_extended_trans(a.inferred_effects@, b.inferred_effects@, c.inferred_effects@);
    assert(c.diagnostics@.take(a.diagnostics@.len() as int) =~= a.diagnostics@) by {
        assert(c.diagnostics@.take(b.diagnostics@.len() as int) == b.diagnostics@);
        assert(b.diagnostics@.take(a.diagnostics@.len() as int) == a.diagnostics@);
    }
    assert forall|i: int| 0 <= i < a.bindings@.len() && (#[trigger] c.bindings@[i]).ty@ != a.bindings@[i].ty@
        implies refinable(a.bindings@[i].ty@) by {
        if b.bindings@[i].ty@ == a.bindings@[i].ty@ {
        } else {
        }
        if b.bindings@[i].ty@ != a.bindings@[i].ty@ {
            assert(refinable(a.bindings@[i].ty@));
        } else {
            assert(c.bindings@[i].ty@ != b.bindings@[i].ty@);
        }
    }
}

pub proof fn lemma_kept_is_statement(a: FunctionChecker, b: FunctionChecker)
    requires
        kept_scope(a, b),
    ensures
        crate::checker::statement_frame(a, b),
{
}

pub proof fn lemma_grew_kept(a: FunctionChecker, b: FunctionChecker)
    requires
        crate::patterns::grew(a, b),
    ensures
        kept_scope(a, b),
{
    crate::checker::lemma_effects_extended_refl(a.inferred_effects@);
}

/// Whether a binding of type `current` takes the expected type on its next use.
pub open spec fn takes_expected(current: TypeV, expected: Option<&ExpectedType>) -> bool {
    expected matches Some(e) && !contains_unknown(e.ty@)
        && ((current == TypeV::Record(Seq::empty()) && is_dict(e.ty@)) || contains_unknown(current))
}

/// Whether `ty` is a dictionary type `Dict<K, V>`.
pub fn is_dict_type(ty: &Type) -> (r: bool)
    ensures
        r == is_dict(ty@),
{
    match ty {
        Type::Named { name, args } => {
            proof { crate::types::lemma_named_view(*name, *args); }
            str_eq(name.as_str(), "Dict") && args.len() == 2
        },
        _ => {
            proof { crate::relations::lemma_kind_facts(ty); }
            false
        },
    }
}

/// The type an optional expectation asks for, unknown when there is none.
pub open spec fn expected_view(expected: Option<&ExpectedType>) -> TypeV {
    match expected {
        Some(e) => e.ty@,
        None => TypeV::Unknown,
    }
}

/// The position of the innermost binding of `name`.
pub open spec fn last_binding_index(bs: Seq<Binding>, name: Seq<char>) -> Option<int>
    decreases bs.len(),
{
    if bs.len() == 0 {
        None
    } else if bs.last().name@ == name {
        Some(bs.len() - 1)
    } else {
        last_binding_index(bs.drop_last(), name)
    }
}

pub proof fn lemma_last_binding_index(bs: Seq<Binding>, name: Seq<char>)
    ensures
        last_binding_index(bs, name) matches Some(k) ==> 0 <= k < bs.len() && bs[k].name@ == name
            && forall|j: int| k < j < bs.len() ==> (#[trigger] bs[j]).name@ != name,
        last_binding_index(bs, name) is None ==> forall|j: int| 0 <= j < bs.len() ==> (#[trigger] bs[j]).name@ != name,
    decreases bs.len(),
{
    if bs.len() > 0 {
        let d = bs.drop_last();
        lemma_last_binding_index(d, name);
        if bs.last().name@ != name {
            assert forall|j: int| 0 <= j < bs.len() - 1 implies bs[j] == (#[trigger] d[j]) by {}
            match last_binding_index(d, name) {
                Some(k) => {
                    assert forall|j: int| k < j < bs.len() implies (#[trigger] bs[j]).name@ != name by {
                        if j < bs.len() - 1 {
                            assert(d[j] == bs[j]);
                        }
                    }
                },
                None => {
                    assert forall|j: int| 0 <= j < bs.len() implies (#[trigger] bs[j]).name@ != name by {
                        if j < bs.len() - 1 {
                            assert(d[j] == bs[j]);
                        }
                    }
                },
            }
        }
    }
}

/// Whether `t` is a dictionary type `Dict<K, V>`.
pub open spec fn is_dict(t: TypeV) -> bool {
    t matches TypeV::Named { name, args } && name == "Dict"@ && args.len() == 2
}

/// The type a name or literal has without inferring anything: literals by their kind,
/// a bare name by its innermost binding or else by the function it names, a list by
/// its first item.
pub open spec fn shallow_type(bs: Seq<Binding>, env: TypeEnvironment, module: Option<Seq<char>>, e: Expr) -> Option<TypeV>
    decreases e,
{
    match e.kind {
        ExprKind::IntLiteral { .. } => Some(named0("Int"@)),
        ExprKind::FloatLiteral(_) => Some(named0("Float"@)),
        ExprKind::BoolLiteral(_) => Some(named0("Bool"@)),
        ExprKind::NamePath { segments } => if segments@.len() == 1 {
            match last_binding_index(bs, segments@[0]@) {
                Some(k) => Some(bs[k].ty@),
                None => match function_from(env.functions@, segments@[0]@, module, 0) {
                    Some(f) => Some(signature_type(env.functions@[f])),
                    None => None,
                },
            }
        } else {
            None
        },
        ExprKind::List(items) => if items@.len() > 0 {
            proof {
                assert(decreases_to!(items => items@));
            }
            match shallow_type(bs, env, module, items@[0]) {
                Some(t) => Some(TypeV::Named { name: "Vec"@, args: seq![t] }),
                None => None,
            }
        } else {
            None
        },
        _ => None,
    }
}

/// The model of an optional module name.
pub open spec fn opt_module(m: Option<String>) -> Option<Seq<char>> {
    match m {
        Some(s) => Some(s@),
        None => None,
    }
}

/// The operand type of a numeric operator: `Float` when the result is expected to be a
/// `Float` or an operand is plainly a `Float`, else `Int`.
pub open spec fn numeric_type(c: FunctionChecker, expected_result: Option<&ExpectedType>, operands: Seq<&Expr>) -> TypeV {
    if (expected_result matches Some(e) && e.ty@ == named0("Float"@))
        || exists|i: int| 0 <= i < operands.len() && shallow_type(c.bindings@, *c.environment, opt_module(c.function.module_name), *(#[trigger] operands[i])) == Some(named0("Float"@)) {
        named0("Float"@)
    } else {
        named0("Int"@)
    }
}

impl<'a> FunctionChecker<'a> {
    /// The position of the innermost binding of `name`.
    pub fn binding_position(&self, name: &str) -> (r: Option<usize>)
        ensures
            match r {
                Some(k) => last_binding_index(self.bindings@, name@) == Some(k as int),
                None => last_binding_index(self.bindings@, name@) is None,
            },
    {
        let bs = &self.bindings;
        let mut i = bs.len();
        assert(bs@.take(bs@.len() as int) =~= bs@);
        while i > 0
            invariant
                i <= bs@.len(),
                last_binding_index(bs@, name@) == last_binding_index(bs@.take(i as int), name@),
            decreases i,
        {
            proof {
                assert(bs@.take(i as int).drop_last() =~= bs@.take(i - 1));
            }
            if str_eq(bs[i - 1].name.as_str(), name) {
                return Some(i - 1);
            }
            i -= 1;
        }
        None
    }

    /// The type a name or literal has without inferring anything.
    pub fn shallow_expr_type(&self, expr: &Expr) -> (r: Option<Type>)
        ensures
            match r {
                Some(t) => shallow_type(self.bindings@, *self.environment, opt_module(self.function.module_name), *expr) == Some(t@),
                None => shallow_type(self.bindings@, *self.environment, opt_module(self.function.module_name), *expr) is None,
            },
        decreases expr,
    {
        match &expr.kind {
            ExprKind::IntLiteral { .. } => Some(Type::int_type()),
            ExprKind::FloatLiteral(_) => Some(Type::float_type()),
            ExprKind::BoolLiteral(_) => Some(Type::bool_type()),
            ExprKind::NamePath { segments } => {
                if segments.len() != 1 {
                    return None;
                }
                let name = segments[0].as_str();
                assert(name@ == segments@[0]@);
                match self.binding_position(name) {
                    Some(k) => {
                        proof {
                            lemma_last_binding_index(self.bindings@, segments@[0]@);
                        }
                        let t = self.bindings[k].ty.copy();
                        Some(t)
                    },
                    None => {
                        let module = match &self.function.module_name {
                            Some(m) => Some(m.as_str()),
                            None => None,
                        };
                        assert(opt_str(module) == opt_module(self.function.module_name));
                        match self.environment.unqualified_function(segments[0].as_str(), module) {
                            Some(f) => {
                                let t = self.environment.functions[f].ty();
                                Some(t)
                            },
                            None => None,
                        }
                    },
                }
            },
            ExprKind::List(items) => {
                if items.len() == 0 {
                    return None;
                }
                assert(decreases_to!(*expr => items@[0]));
                match self.shallow_expr_type(&items[0]) {
                    Some(t) => {
                        Some(Type::vec_of(t))
                    },
                    None => None,
                }
            },
            _ => None,
        }
    }

    /// The type of a bare local name, if a binding of it is in scope. A binding whose
    /// type is not fixed yet takes the expected type when that one is fully known (an
    /// empty record takes an expected dictionary type).
    pub fn infer_local_binding_name(&mut self, name: &str, expected: Option<&ExpectedType>) -> (r: Option<Type>)
        ensures
            kept_scope(*old(self), *final(self)),
            final(self).diagnostics == old(self).diagnostics,
            final(self).inferred_effects == old(self).inferred_effects,
            match last_binding_index(old(self).bindings@, name@) {
                None => r is None && final(self).bindings == old(self).bindings,
                Some(k) => r is Some && if takes_expected(old(self).bindings@[k].ty@, expected) {
                    r->0@ == expected->0.ty@ && final(self).bindings@[k].ty@ == expected->0.ty@
                        && forall|j: int| 0 <= j < old(self).bindings@.len() && j != k ==> (#[trigger] final(self).bindings@[j]) == old(self).bindings@[j]
                } else {
                    r->0@ == old(self).bindings@[k].ty@ && final(self).bindings == old(self).bindings
                },
            },
    {
        let index = match self.binding_position(name) {
            Some(k) => k,
            None => {
                proof { lemma_kept_scope_refl(*self); }
                return None;
            },
        };
        proof {
            lemma_last_binding_index(self.bindings@, name@);
        }
        let ghost before = *self;
        if let Some(e) = expected {
            let current = &self.bindings[index].ty;
            let empty_record = match current {
                Type::Record(fields) => {
                    proof {
                        crate::types::lemma_record_view(*fields);
                        if fields@.len() == 0 {
                            assert(crate::types::fields_view(fields@) =~= Seq::<(Seq<char>, TypeV)>::empty());
                        } else {
                            assert(crate::types::fields_view(fields@).len() != 0);
                        }
                    }
                    fields.len() == 0
                },
                _ => {
                    proof { crate::relations::lemma_kind_facts(current); }
                    false
                },
            };
            assert(empty_record == (current@ == TypeV::Record(Seq::empty())));
            let known = !crate::types::type_contains_unknown(&e.ty);
            if known && ((empty_record && is_dict_type(&e.ty)) || crate::types::type_contains_unknown(current)) {
                let binding = Binding { name: self.bindings[index].name.clone(), ty: e.ty.copy() };
                self.bindings.set(index, binding);
                proof {
                    assert(refinable(before.bindings@[index as int].ty@));
                    assert(self.diagnostics@.take(before.diagnostics@.len() as int) =~= before.diagnostics@);
                }
                return Some(e.ty.copy());
            }
        }
        proof { lemma_kept_scope_refl(*self); }
        Some(self.bindings[index].ty.copy())
    }

    /// The operand type of a numeric operator.
    pub fn numeric_operand_type(&self, expected_result: Option<&ExpectedType>, operands: &[&Expr]) -> (r: Type)
        ensures
            r@ == numeric_type(*self, expected_result, operands@),
    {
        if let Some(e) = expected_result {
            if e.ty.is_named0("Float") {
                return Type::float_type();
            }
        }
        let mut i: usize = 0;
        while i < operands.len()
            invariant
                0 <= i <= operands@.len(),
                !(expected_result matches Some(e) && e.ty@ == named0("Float"@)),
                forall|j: int| 0 <= j < i ==> shallow_type(self.bindings@, *self.environment, opt_module(self.function.module_name), *(#[trigger] operands@[j])) != Some(named0("Float"@)),
            decreases operands.len() - i,
        {
            match self.shallow_expr_type(operands[i]) {
                Some(t) => {
                    if t.is_named0("Float") {
                        return Type::float_type();
                    }
                },
                None => {},
            }
            i += 1;
        }
        Type::int_type()
    }
}

} // verus!

verus! {

/// The number of expression nodes in `e`; inference recurses on smaller expressions.
pub open spec fn size(e: Expr) -> nat
    decreases e, 0nat,
{
    match e.kind {
        ExprKind::List(items) => {
            proof {
                assert(decreases_to!(items => items@));
            }
            1 + size_all(items@)
        },
        ExprKind::Match { scrutinee, arms } => {
            proof {
                assert(decreases_to!(arms => arms@));
            }
            1 + size(*scrutinee) + size_arms(arms@)
        },
        ExprKind::If { condition, then_branch, else_if_branches, else_branch } => {
            proof {
                assert(decreases_to!(else_if_branches => else_if_branches@));
            }
            1 + size(*condition) + size(*then_branch) + size_branches(else_if_branches@) + size(*else_branch)
        },
        ExprKind::Prefix { op, expr } => 1 + size(*expr),
        ExprKind::Binary { op, left, right } => 1 + size(*left) + size(*right),
        ExprKind::Perform { args, .. } => {
            proof {
                assert(decreases_to!(args => args@));
            }
            1 + size_all(args@)
        },
        ExprKind::Handle { body, args, .. } => {
            proof {
                assert(decreases_to!(args => args@));
            }
            1 + size(*body) + size_all(args@)
        },
        ExprKind::FieldAccess { base, .. } => 1 + size(*base),
        ExprKind::Dict(entries) => {
            proof {
                assert(decreases_to!(entries => entries@));
            }
            1 + size_entries(entries@)
        },
        ExprKind::Record(fields) => {
            proof {
                assert(decreases_to!(fields => fields@));
            }
            1 + size_fields(fields@)
        },
        _ => 1,
    }
}

/// The number of expression nodes in a list of expressions.
pub open spec fn size_all(s: Seq<Expr>) -> nat
    decreases s, 1nat,
{
    if s.len() == 0 {
        0
    } else {
        size_all(s.subrange(0, s.len() - 1)) + size(s[s.len() - 1])
    }
}

/// The number of expression nodes in the bodies of a list of `match` arms.
pub open spec fn size_arms(s: Seq<MatchArm>) -> nat
    decreases s, 1nat,
{
    if s.len() == 0 {
        0
    } else {
        size_arms(s.subrange(0, s.len() - 1)) + size(s[s.len() - 1].expr)
    }
}

/// The number of expression nodes in a list of `else if` branches.
pub open spec fn size_branches(s: Seq<IfBranch>) -> nat
    decreases s, 1nat,
{
    if s.len() == 0 {
        0
    } else {
        size_branches(s.subrange(0, s.len() - 1)) + size(s[s.len() - 1].condition) + size(s[s.len() - 1].expr)
    }
}

/// The number of expression nodes in the keys and values of dictionary entries.
pub open spec fn size_entries(s: Seq<DictEntry>) -> nat
    decreases s, 1nat,
{
    if s.len() == 0 {
        0
    } else {
        size_entries(s.subrange(0, s.len() - 1)) + size(s[s.len() - 1].key) + size(s[s.len() - 1].value)
    }
}

pub proof fn lemma_size_entries(s: Seq<DictEntry>, i: int)
    requires
        0 <= i < s.len(),
    ensures
        size(s[i].key) + size(s[i].value) <= size_entries(s),
    decreases s.len(),
{
    if i < s.len() - 1 {
        lemma_size_entries(s.subrange(0, s.len() - 1), i);
    }
}

/// The number of expression nodes in the values of record fields.
pub open spec fn size_fields(s: Seq<RecordField>) -> nat
    decreases s, 1nat,
{
    if s.len() == 0 {
        0
    } else {
        size_fields(s.subrange(0, s.len() - 1)) + size(s[s.len() - 1].expr)
    }
}

pub proof fn lemma_size_fields(s: Seq<RecordField>, i: int)
    requires
        0 <= i < s.len(),
    ensures
        size(s[i].expr) <= size_fields(s),
    decreases s.len(),
{
    if i < s.len() - 1 {
        lemma_size_fields(s.subrange(0, s.len() - 1), i);
    }
}

pub proof fn lemma_size_positive(e: Expr)
    ensures
        size(e) >= 1,
{
}

pub proof fn lemma_size_all(s: Seq<Expr>, i: int)
    requires
        0 <= i < s.len(),
    ensures
        size(s[i]) <= size_all(s),
    decreases s.len(),
{
    if i < s.len() - 1 {
        lemma_size_all(s.subrange(0, s.len() - 1), i);
    }
}

pub proof fn lemma_size_arms(s: Seq<MatchArm>, i: int)
    requires
        0 <= i < s.len(),
    ensures
        size(s[i].expr) <= size_arms(s),
    decreases s.len(),
{
    if i < s.len() - 1 {
        lemma_size_arms(s.subrange(0, s.len() - 1), i);
    }
}

pub proof fn lemma_size_branches(s: Seq<IfBranch>, i: int)
    requires
        0 <= i < s.len(),
    ensures
        size(s[i].condition) + size(s[i].expr) <= size_branches(s),
    decreases s.len(),
{
    if i < s.len() - 1 {
        lemma_size_branches(s.subrange(0, s.len() - 1), i);
    }
}

} // verus!
