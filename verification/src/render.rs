use vstd::prelude::*;

use crate::text::{string_of};
use crate::types::{Type, TypeV, lemma_function_view, lemma_named_view, lemma_record_view, types_view, fields_view};

verus! {

/// How a type is written in diagnostics: `Int`, `()`, `Vec<Int>`, `{a: Int}`,
/// `fn(Int, ...String) -> Bool effects [io]`, and `_` for an unknown part.
pub open spec fn render(t: TypeV) -> Seq<char>
    decreases t, 1nat,
{
    match t {
        TypeV::Unknown => "_"@,
        TypeV::Named { name, args } => if args.len() == 0 {
            if name == "Unit"@ {
                "()"@
            } else {
                name
            }
        } else {
            name + "<"@ + render_list(args) + ">"@
        },
        TypeV::Record(fields) => "{"@ + render_fields(fields) + "}"@,
        TypeV::Function { params, variadic, return_type, effects } => "fn("@ + render_list(params)
            + match variadic {
            Some(v) => (if params.len() == 0 { Seq::<char>::empty() } else { ", "@ }) + "..."@ + render(*v),
            None => Seq::<char>::empty(),
        } + ") -> "@ + render(*return_type) + if effects.len() == 0 {
            Seq::<char>::empty()
        } else {
            " effects ["@ + join_names(effects) + "]"@
        },
    }
}

/// The rendered types, separated by `, `.
pub open spec fn render_list(ts: Seq<TypeV>) -> Seq<char>
    decreases ts, 0nat,
{
    if ts.len() == 0 {
        Seq::empty()
    } else if ts.len() == 1 {
        render(ts[0])
    } else {
        render_list(ts.drop_last()) + ", "@ + render(ts.last())
    }
}

/// The rendered record fields `name: type`, separated by `, `.
pub open spec fn render_fields(fs: Seq<(Seq<char>, TypeV)>) -> Seq<char>
    decreases fs, 0nat,
{
    if fs.len() == 0 {
        Seq::empty()
    } else if fs.len() == 1 {
        fs[0].0 + ": "@ + render(fs[0].1)
    } else {
        render_fields(fs.drop_last()) + ", "@ + fs.last().0 + ": "@ + render(fs.last().1)
    }
}

/// Names separated by `, `.
pub open spec fn join_names(ns: Seq<Seq<char>>) -> Seq<char>
    decreases ns.len(),
{
    if ns.len() == 0 {
        Seq::empty()
    } else if ns.len() == 1 {
        ns[0]
    } else {
        join_names(ns.drop_last()) + ", "@ + ns.last()
    }
}

/// Joins names with `, `.
pub fn join_strings(ns: &Vec<String>) -> (r: String)
    ensures
        r@ == join_names(ns.deep_view()),
{
    let mut out = String::new();
    let mut i: usize = 0;
    while i < ns.len()
        invariant
            0 <= i <= ns@.len(),
            out@ == join_names(ns.deep_view().take(i as int)),
        decreases ns.len() - i,
    {
        let ghost before = out@;
        if i > 0 {
            out.append(", ");
        }
        out.append(ns[i].as_str());
        proof {
            let t = ns.deep_view().take(i + 1);
            assert(t.drop_last() =~= ns.deep_view().take(i as int));
            if i == 0 {
                assert(before =~= Seq::<char>::empty());
                assert(out@ =~= t[0]);
            } else {
                assert(out@ =~= join_names(t.drop_last()) + ", "@ + t.last());
            }
        }
        i += 1;
    }
    assert(ns.deep_view().take(ns@.len() as int) =~= ns.deep_view());
    out
}

/// Writes a type as diagnostics show it.
#[verifier::loop_isolation(false)]
pub fn render_type(ty: &Type) -> (r: String)
    ensures
        r@ == render(ty@),
    decreases ty,
{
    match ty {
        Type::Unknown => string_of("_"),
        Type::Named { name, args } => {
            proof {
                lemma_named_view(*name, *args);
            }
            if args.len() == 0 {
                if crate::text::str_eq(name.as_str(), "Unit") {
                    string_of("()")
                } else {
                    name.clone()
                }
            } else {
                let mut out = name.clone();
                out.append("<");
                let inner = render_items(ty, args);
                out.append(inner.as_str());
                out.append(">");
                out
            }
        },
        Type::Record(fields) => {
            proof {
                lemma_record_view(*fields);
            }
            let mut out = string_of("{");
            let mut i: usize = 0;
            while i < fields.len()
                invariant
                    0 <= i <= fields@.len(),
                    out@ == "{"@ + render_fields(fields_view(fields@).take(i as int)),
                decreases fields.len() - i,
            {
                assert(decreases_to!(*ty => fields@[i as int].1));
                let ghost before = out@;
                if i > 0 {
                    out.append(", ");
                }
                out.append(fields[i].0.as_str());
                out.append(": ");
                let t = render_type(&fields[i].1);
                out.append(t.as_str());
                proof {
                    let fv = fields_view(fields@);
                    let tk = fv.take(i + 1);
                    assert(tk.drop_last() =~= fv.take(i as int));
                    if i == 0 {
                        assert(fv.take(0) =~= Seq::<(Seq<char>, TypeV)>::empty());
                        assert(out@ =~= "{"@ + render_fields(tk));
                    } else {
                        assert(out@ =~= "{"@ + render_fields(tk));
                    }
                }
                i += 1;
            }
            assert(fields_view(fields@).take(fields@.len() as int) =~= fields_view(fields@));
            out.append("}");
            out
        },
        Type::Function { params, variadic, return_type, effects } => {
            proof {
                lemma_function_view(*params, *variadic, *return_type, *effects);
            }
            let mut out = string_of("fn(");
            let ps = render_items(ty, params);
            out.append(ps.as_str());
            match variadic {
                Some(v) => {
                    if params.len() > 0 {
                        out.append(", ");
                    }
                    out.append("...");
                    let vs = render_type(&**v);
                    out.append(vs.as_str());
                },
                None => {},
            }
            out.append(") -> ");
            let rs = render_type(&**return_type);
            out.append(rs.as_str());
            if effects.len() > 0 {
                out.append(" effects [");
                let es = join_strings(effects);
                out.append(es.as_str());
                out.append("]");
            }
            proof {
                let vpart = match variadic {
                    Some(v) => (if params@.len() == 0 { Seq::<char>::empty() } else { ", "@ }) + "..."@ + render((*v)@),
                    None => Seq::<char>::empty(),
                };
                let epart = if effects@.len() == 0 {
                    Seq::<char>::empty()
                } else {
                    " effects ["@ + join_names(effects.deep_view()) + "]"@
                };
                assert(out@ =~= "fn("@ + render_list(types_view(params@)) + vpart + ") -> "@ + render((**return_type)@) + epart);
            }
            out
        },
    }
}

/// The rendered `items` of `owner`, separated by `, `.
#[verifier::loop_isolation(false)]
fn render_items(owner: &Type, items: &Vec<Type>) -> (r: String)
    requires
        forall|i: int| 0 <= i < items@.len() ==> decreases_to!(*owner => #[trigger] items@[i]),
    ensures
        r@ == render_list(types_view(items@)),
    decreases owner, 0nat,
{
    let mut out = String::new();
    let mut i: usize = 0;
    while i < items.len()
        invariant
            0 <= i <= items@.len(),
            out@ == render_list(types_view(items@).take(i as int)),
        decreases items.len() - i,
    {
        assert(decreases_to!(*owner => items@[i as int]));
        if i > 0 {
            out.append(", ");
        }
        let t = render_type(&items[i]);
        out.append(t.as_str());
        proof {
            let tv = types_view(items@);
            let tk = tv.take(i + 1);
            assert(tk.drop_last() =~= tv.take(i as int));
            if i == 0 {
                assert(tv.take(0) =~= Seq::<TypeV>::empty());
                assert(out@ =~= render_list(tk));
            } else {
                assert(out@ =~= render_list(tk));
            }
        }
        i += 1;
    }
    assert(types_view(items@).take(items@.len() as int) =~= types_view(items@));
    out
}

} // verus!
