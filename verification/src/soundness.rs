//! What the checks are for, stated over all inputs: which case a boolean pattern
//! covers, when a handler clause's binding count is reported, that a declared user
//! effect covers its uses at the boundary, and that the comparison reasoning behind
//! repairs only draws conclusions that hold for every value of the operands.
use vstd::prelude::*;

use crate::ast::{HandlerOperationClauseDecl, Pattern, PatternKind};
use crate::checker::FunctionChecker;
use crate::clause_implies::{clause_implies, literal_rules, Comparison};
use crate::clauses::{complementary, compact, normalized_view, reversed_operands};
use crate::disequality::{equality_excludes, parsed_comparison};
use crate::effect_boundary::{boundary_missing_effects, missing_effects, opt_string};
use crate::env::{EffectOperationSignature, EffectSignature, HandlerSignature, TypeEnvironment, effect_choice};
use crate::exhaustiveness::domain_cases;
use crate::handlers::{clause_bindings, repeated_bindings};
use crate::numeric::{literal, numeric_literal, order_literal};
use crate::patterns::{MatchDomain, spec_coverage};
use crate::predicate_text::trim;
use crate::text::{decimal, has_prefix};
use crate::types::TypeV;

verus! {

/// In the `Bool` domain a boolean literal pattern covers exactly the case written as
/// that literal: `true` covers "true", `false` covers "false"; the two are different
/// cases of the domain, and neither pattern catches everything.
pub proof fn law_bool_literal_covers_its_own_case(p: Pattern, ty: TypeV, env: TypeEnvironment, module: Option<Seq<char>>, b: bool)
    requires
        p.kind == PatternKind::BoolLiteral(b),
    ensures
        !spec_coverage(p, MatchDomain::Bool, ty, env, module).0,
        spec_coverage(p, MatchDomain::Bool, ty, env, module).1.len() == 1,
        spec_coverage(p, MatchDomain::Bool, ty, env, module).1[0] == (if b { "true"@ } else { "false"@ }),
        domain_cases(MatchDomain::Bool, ty, env, module).contains(spec_coverage(p, MatchDomain::Bool, ty, env, module).1[0]),
        !spec_coverage(p, MatchDomain::Bool, ty, env, module).1.contains(if b { "false"@ } else { "true"@ }),
{
    reveal_strlit("true");
    reveal_strlit("false");
    let cases = domain_cases(MatchDomain::Bool, ty, env, module);
    if b {
        assert(cases[1] == "true"@);
    } else {
        assert(cases[0] == "false"@);
    }
    assert("true"@ != "false"@) by {
        assert("true"@[0] != "false"@[0]);
    }
}

proof fn lemma_repeated_bindings_ids(ps: Seq<crate::ast::ClauseParam>, n: int, op: EffectOperationSignature, signature: HandlerSignature,
    effect: EffectSignature)
    ensures
        forall|i: int| 0 <= i < repeated_bindings(ps, n, op, signature, effect).len()
            ==> (#[trigger] repeated_bindings(ps, n, op, signature, effect)[i]).id == "handler.duplicate_operation_binding"@,
    decreases n,
{
    if n > 0 {
        lemma_repeated_bindings_ids(ps, n - 1, op, signature, effect);
        let before = repeated_bindings(ps, n - 1, op, signature, effect);
        assert forall|i: int| 0 <= i < repeated_bindings(ps, n, op, signature, effect).len()
            implies (#[trigger] repeated_bindings(ps, n, op, signature, effect)[i]).id == "handler.duplicate_operation_binding"@ by {
            if i < before.len() {
                assert(repeated_bindings(ps, n, op, signature, effect)[i] == before[i]);
            }
        }
    }
}

/// A handler clause's binding count is reported exactly when it differs from the
/// number of parameters of the operation it handles, whichever is larger, and the
/// report names both numbers.
pub proof fn law_clause_arity_reported_exactly_when_counts_differ(clause: HandlerOperationClauseDecl, op: EffectOperationSignature,
    signature: HandlerSignature, effect: EffectSignature)
    ensures
        (exists|i: int| 0 <= i < clause_bindings(clause, op, signature, effect).len()
            && (#[trigger] clause_bindings(clause, op, signature, effect)[i]).id == "handler.operation_clause_arity"@)
            <==> clause.params@.len() != op.params@.len(),
        clause.params@.len() != op.params@.len() ==> clause_bindings(clause, op, signature, effect)[0].message
            == "operation `"@ + op.name@ + "` expects "@ + decimal(op.params@.len()) + " parameter bindings, but clause declares "@
                + decimal(clause.params@.len()),
{
    reveal_strlit("handler.operation_clause_arity");
    reveal_strlit("handler.duplicate_operation_binding");
    let ds = clause_bindings(clause, op, signature, effect);
    let rest = repeated_bindings(clause.params@, clause.params@.len() as int, op, signature, effect);
    lemma_repeated_bindings_ids(clause.params@, clause.params@.len() as int, op, signature, effect);
    assert("handler.operation_clause_arity"@ != "handler.duplicate_operation_binding"@) by {
        assert("handler.operation_clause_arity"@[8] != "handler.duplicate_operation_binding"@[8]);
    }
    if clause.params@.len() != op.params@.len() {
        assert(ds[0].id == "handler.operation_clause_arity"@);
    } else {
        assert(ds == rest);
        assert forall|i: int| 0 <= i < ds.len() implies (#[trigger] ds[i]).id != "handler.operation_clause_arity"@ by {
            assert(rest[i].id == "handler.duplicate_operation_binding"@);
        }
    }
}

proof fn lemma_missing_not_declared(inferred: Seq<Seq<char>>, declared: Seq<Seq<char>>, x: Seq<char>)
    requires
        declared.contains(x),
    ensures
        !missing_effects(inferred, declared).contains(x),
    decreases inferred.len(),
{
    if inferred.len() > 0 {
        lemma_missing_not_declared(inferred.drop_last(), declared, x);
        let before = missing_effects(inferred.drop_last(), declared);
        if !declared.contains(inferred.last()) {
            assert(inferred.last() != x);
            assert forall|i: int| 0 <= i < before.push(inferred.last()).len() implies before.push(inferred.last())[i] != x by {
                if i < before.len() {
                    assert(before.push(inferred.last())[i] == before[i]);
                }
            }
        }
    }
}

/// At a function's effect boundary, a declared effect that names a user effect visible
/// from the function's module stands for that effect's qualified name: a use of that
/// effect in the body is never reported as undeclared. A declared name that names no
/// user effect covers the uses of that very name.
pub proof fn law_declared_user_effect_covers_its_uses(c: FunctionChecker, i: int)
    requires
        c.function.effects matches Some(es) && 0 <= i < es@.len(),
    ensures
        ({
            let e = c.function.effects->0@[i]@;
            let module = opt_string(c.function.module_name);
            &&& (!has_prefix(e, "..."@) && effect_choice(c.environment.effects@, e, module) matches Some(k))
                ==> !boundary_missing_effects(c).contains(c.environment.effects@[effect_choice(c.environment.effects@, e, module)->0].qualified_name@)
            &&& effect_choice(c.environment.effects@, e, module) is None ==> !boundary_missing_effects(c).contains(e)
        }),
{
    let es = c.function.effects->0;
    let module = opt_string(c.function.module_name);
    let declared = Seq::new(es@.len(), |j: int| crate::effect_boundary::resolved_effect(*c.environment, module, es@[j]@));
    let e = es@[i]@;
    assert(declared[i] == crate::effect_boundary::resolved_effect(*c.environment, module, e));
    if !has_prefix(e, "..."@) && effect_choice(c.environment.effects@, e, module) is Some {
        lemma_missing_not_declared(distinct_effects_of(c), declared, declared[i]);
    }
    if effect_choice(c.environment.effects@, e, module) is None {
        lemma_missing_not_declared(distinct_effects_of(c), declared, declared[i]);
    }
}

spec fn distinct_effects_of(c: FunctionChecker) -> Seq<Seq<char>> {
    crate::checker::distinct_effects(c.inferred_effects@)
}

/// Whether the comparison `c` is true when each operand text stands for the number
/// `value` gives it.
pub open spec fn comparison_holds(value: spec_fn(Seq<char>) -> int, c: Comparison) -> bool {
    let (a, b) = (value(c.0), value(c.2));
    if c.1 == "=="@ {
        a == b
    } else if c.1 == "!="@ {
        a != b
    } else if c.1 == "<"@ {
        a < b
    } else if c.1 == "<="@ {
        a <= b
    } else if c.1 == ">"@ {
        a > b
    } else if c.1 == ">="@ {
        a >= b
    } else {
        false
    }
}

/// Whether an operand text reads as no constant: no number, no constant expression, no
/// boolean or string literal.
pub open spec fn named_operand(t: Seq<char>) -> bool {
    order_literal(t) is None && numeric_literal(t) is None && literal(t) is None && literal(trim(t)) is None
}

proof fn lemma_operators_distinct()
    ensures
        "=="@ != "!="@, "=="@ != "<"@, "=="@ != "<="@, "=="@ != ">"@, "=="@ != ">="@,
        "!="@ != "<"@, "!="@ != "<="@, "!="@ != ">"@, "!="@ != ">="@,
        "<"@ != "<="@, "<"@ != ">"@, "<"@ != ">="@,
        "<="@ != ">"@, "<="@ != ">="@,
        ">"@ != ">="@,
{
    reveal_strlit("==");
    reveal_strlit("!=");
    reveal_strlit("<");
    reveal_strlit("<=");
    reveal_strlit(">");
    reveal_strlit(">=");
    assert("=="@[0] != "!="@[0]);
    assert("=="@[0] != "<="@[0]);
    assert("=="@[0] != ">="@[0]);
    assert("!="@[0] != "<="@[0]);
    assert("!="@[0] != ">="@[0]);
    assert("<="@[0] != ">="@[0]);
    assert("<"@[0] != ">"@[0]);
    assert("<"@.len() != "<="@.len());
    assert("<"@.len() != ">="@.len());
    assert("=="@.len() != "<"@.len());
    assert("!="@.len() != "<"@.len());
    assert("=="@.len() != ">"@.len());
    assert("!="@.len() != ">"@.len());
    assert(">"@.len() != "<="@.len());
    assert(">"@.len() != ">="@.len());
}

/// Comparing two named operands, a clause implies another only where the conclusion
/// is sound: under every assignment of numbers to operand texts that makes `required`
/// true, `wanted` is a comparison and is true too (so `x == y` never implies `x < y`).
pub proof fn law_clause_implication_sound(required: Seq<char>, wanted: Seq<char>, value: spec_fn(Seq<char>) -> int)
    requires
        parsed_comparison(required) matches Some(c) && named_operand(c.0) && named_operand(c.2),
        clause_implies(required, wanted),
        comparison_holds(value, parsed_comparison(required)->0),
    ensures
        parsed_comparison(wanted) matches Some(w) && comparison_holds(value, w),
{
    lemma_operators_distinct();
    let c = parsed_comparison(required)->0;
    if required != wanted {
        let w = parsed_comparison(wanted)->0;
        let gs = Seq::<Seq<Seq<char>>>::empty();
        assert(!literal_rules(gs, c, w));
        assert(!equality_excludes(gs, c, w));
    }
}

/// Two comparisons judged to cover every case together do so: under every assignment
/// of numbers to the compacted operand texts, one of them is true (`x < y` beside
/// `y < x` is never judged so, since both fail when `x == y`). The pair of a strict and
/// an inclusive order comparison whose operands run the same way is left out: it is
/// judged to cover every case too, though `x < y` and `x <= y` both fail for `x = 2`,
/// `y = 1`.
pub proof fn law_complementary_comparisons_cover_every_case(left: Seq<char>, right: Seq<char>, candidate: Seq<char>,
    value: spec_fn(Seq<char>) -> int)
    requires
        complementary(left, right, candidate),
        normalized_view(left) matches Some(a) && normalized_view(right) matches Some(b)
            && !(((a.1 == "<"@ && b.1 == "<="@) || (a.1 == "<="@ && b.1 == "<"@)) && !reversed_operands(a, b)),
    ensures
        ({
            let a = normalized_view(left)->0;
            let b = normalized_view(right)->0;
            comparison_holds(value, (compact(a.0), a.1, compact(a.2))) || comparison_holds(value, (compact(b.0), b.1, compact(b.2)))
        }),
{
    lemma_operators_distinct();
}

} // verus!
