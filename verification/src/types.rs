use vstd::prelude::*;

use crate::text::{str_eq, string_of};

verus! {

/// A Veln type as the checker sees it.
pub enum Type {
    /// A type that inference has not fixed.
    Unknown,
    /// A nominal type with type arguments, such as `Vec<Int>`.
    Named { name: String, args: Vec<Type> },
    /// A record of named fields.
    Record(Vec<(String, Type)>),
    /// A function type with its effect row.
    Function {
        params: Vec<Type>,
        variadic: Option<Box<Type>>,
        return_type: Box<Type>,
        effects: Vec<String>,
    },
}

/// The model of a type: names are character sequences.
pub enum TypeV {
    Unknown,
    Named { name: Seq<char>, args: Seq<TypeV> },
    Record(Seq<(Seq<char>, TypeV)>),
    Function { params: Seq<TypeV>, variadic: Option<Box<TypeV>>, return_type: Box<TypeV>, effects: Seq<Seq<char>> },
}

pub open spec fn type_view(t: Type) -> TypeV
    decreases t,
{
    match t {
        Type::Unknown => TypeV::Unknown,
        Type::Named { name, args } => {
            proof {
                assert(decreases_to!(args => args@));
            }
            TypeV::Named {
                name: name@,
                args: Seq::new(
                    args@.len(),
                    |i: int|
                        if 0 <= i < args@.len() {
                            proof {
                                assert(decreases_to!(args@ => args@[i]));
                            }
                            type_view(args@[i])
                        } else {
                            TypeV::Unknown
                        },
                ),
            }
        },
        Type::Record(fields) => {
            proof {
                assert(decreases_to!(fields => fields@));
            }
            TypeV::Record(
                Seq::new(
                    fields@.len(),
                    |i: int|
                        if 0 <= i < fields@.len() {
                            proof {
                                assert(decreases_to!(fields@ => fields@[i]));
                                assert(decreases_to!(fields@[i] => fields@[i].1));
                            }
                            (fields@[i].0@, type_view(fields@[i].1))
                        } else {
                            (Seq::empty(), TypeV::Unknown)
                        },
                ),
            )
        },
        Type::Function { params, variadic, return_type, effects } => {
            proof {
                assert(decreases_to!(params => params@));
            }
            TypeV::Function {
                params: Seq::new(
                    params@.len(),
                    |i: int|
                        if 0 <= i < params@.len() {
                            proof {
                                assert(decreases_to!(params@ => params@[i]));
                            }
                            type_view(params@[i])
                        } else {
                            TypeV::Unknown
                        },
                ),
                variadic: match variadic {
                    Some(v) => Some(Box::new(type_view(*v))),
                    None => None,
                },
                return_type: Box::new(type_view(*return_type)),
                effects: effects.deep_view(),
            }
        },
    }
}

impl View for Type {
    type V = TypeV;

    open spec fn view(&self) -> TypeV {
        type_view(*self)
    }
}

/// The model of `Type::named(name, [])`.
pub open spec fn named0(name: Seq<char>) -> TypeV {
    TypeV::Named { name, args: Seq::empty() }
}

/// Whether a type mentions `Unknown` anywhere in its arguments, fields, parameters or result.
pub open spec fn contains_unknown(t: TypeV) -> bool
    decreases t,
{
    match t {
        TypeV::Unknown => true,
        TypeV::Named { args, .. } => exists|i: int| 0 <= i < args.len() && contains_unknown(#[trigger] args[i]),
        TypeV::Record(fields) => exists|i: int| 0 <= i < fields.len() && contains_unknown(#[trigger] fields[i].1),
        TypeV::Function { params, return_type, .. } =>
            (exists|i: int| 0 <= i < params.len() && contains_unknown(#[trigger] params[i]))
            || contains_unknown(*return_type),
    }
}

/// Tells whether a type still contains an unknown part.
#[verifier::loop_isolation(false)]
pub fn type_contains_unknown(ty: &Type) -> (r: bool)
    ensures
        r == contains_unknown(ty@),
    decreases ty,
{
    match ty {
        Type::Unknown => true,
        Type::Named { args, .. } => {
            let mut i: usize = 0;
            while i < args.len()
                invariant
                    0 <= i <= args@.len(),
                    ty@ == type_view(*ty),
                    forall|j: int| 0 <= j < i ==> !contains_unknown(#[trigger] args@[j]@),
                decreases args.len() - i,
            {
                assert(decreases_to!(*ty => args@[i as int]));
                if type_contains_unknown(&args[i]) {
                    assert(ty@->Named_args[i as int] == args@[i as int]@);
                    return true;
                }
                i += 1;
            }
            proof {
                let va = ty@->Named_args;
                if contains_unknown(ty@) {
                    let k = choose|k: int| 0 <= k < va.len() && contains_unknown(#[trigger] va[k]);
                    assert(va[k] == args@[k]@);
                }
            }
            false
        },
        Type::Record(fields) => {
            let mut i: usize = 0;
            while i < fields.len()
                invariant
                    0 <= i <= fields@.len(),
                    forall|j: int| 0 <= j < i ==> !contains_unknown(#[trigger] fields@[j].1@),
                decreases fields.len() - i,
            {
                assert(decreases_to!(*ty => fields@[i as int].1));
                if type_contains_unknown(&fields[i].1) {
                    assert(ty@->Record_0[i as int].1 == fields@[i as int].1@);
                    return true;
                }
                i += 1;
            }
            proof {
                let vf = ty@->Record_0;
                if contains_unknown(ty@) {
                    let k = choose|k: int| 0 <= k < vf.len() && contains_unknown(#[trigger] vf[k].1);
                    assert(vf[k].1 == fields@[k].1@);
                }
            }
            false
        },
        Type::Function { params, return_type, .. } => {
            let mut i: usize = 0;
            while i < params.len()
                invariant
                    0 <= i <= params@.len(),
                    forall|j: int| 0 <= j < i ==> !contains_unknown(#[trigger] params@[j]@),
                decreases params.len() - i,
            {
                assert(decreases_to!(*ty => params@[i as int]));
                if type_contains_unknown(&params[i]) {
                    assert(ty@->Function_params[i as int] == params@[i as int]@);
                    return true;
                }
                i += 1;
            }
            proof {
                let vp = ty@->Function_params;
                if exists|k: int| 0 <= k < vp.len() && contains_unknown(#[trigger] vp[k]) {
                    let k = choose|k: int| 0 <= k < vp.len() && contains_unknown(#[trigger] vp[k]);
                    assert(vp[k] == params@[k]@);
                }
            }
            type_contains_unknown(&**return_type)
        },
    }
}

} // verus!

verus! {

/// The models of a sequence of types.
pub open spec fn types_view(s: Seq<Type>) -> Seq<TypeV> {
    Seq::new(s.len(), |i: int| s[i]@)
}

/// The models of record fields.
pub open spec fn fields_view(s: Seq<(String, Type)>) -> Seq<(Seq<char>, TypeV)> {
    Seq::new(s.len(), |i: int| (s[i].0@, s[i].1@))
}

pub proof fn lemma_named_view(name: String, args: Vec<Type>)
    ensures
        (Type::Named { name, args })@ == (TypeV::Named { name: name@, args: types_view(args@) }),
{
    assert((Type::Named { name, args })@->Named_args =~= types_view(args@));
}

pub proof fn lemma_record_view(fields: Vec<(String, Type)>)
    ensures
        (Type::Record(fields))@ == TypeV::Record(fields_view(fields@)),
{
    assert((Type::Record(fields))@->Record_0 =~= fields_view(fields@));
}

pub proof fn lemma_function_view(params: Vec<Type>, variadic: Option<Box<Type>>, return_type: Box<Type>, effects: Vec<String>)
    ensures
        (Type::Function { params, variadic, return_type, effects })@ == (TypeV::Function {
            params: types_view(params@),
            variadic: match variadic { Some(v) => Some(Box::new((*v)@)), None => None },
            return_type: Box::new((*return_type)@),
            effects: effects.deep_view(),
        }),
{
    assert((Type::Function { params, variadic, return_type, effects })@->Function_params =~= types_view(params@));
}

impl Type {
    /// The named type `name` without arguments.
    pub fn named(name: &str) -> (r: Type)
        ensures
            r@ == named0(name@),
    {
        let args: Vec<Type> = Vec::new();
        let n = string_of(name);
        proof {
            lemma_named_view(n, args);
            assert(types_view(args@) =~= Seq::<TypeV>::empty());
        }
        Type::Named { name: n, args }
    }

    /// `Bool`.
    pub fn bool_type() -> (r: Type)
        ensures
            r@ == named0("Bool"@),
    {
        Type::named("Bool")
    }

    /// `Int`.
    pub fn int_type() -> (r: Type)
        ensures
            r@ == named0("Int"@),
    {
        Type::named("Int")
    }

    /// `Float`.
    pub fn float_type() -> (r: Type)
        ensures
            r@ == named0("Float"@),
    {
        Type::named("Float")
    }

    /// `String`.
    pub fn string_type() -> (r: Type)
        ensures
            r@ == named0("String"@),
    {
        Type::named("String")
    }

    /// `Unit`.
    pub fn unit_type() -> (r: Type)
        ensures
            r@ == named0("Unit"@),
    {
        Type::named("Unit")
    }

    /// `Vec<item>`.
    pub fn vec_of(item: Type) -> (r: Type)
        ensures
            r@ == (TypeV::Named { name: "Vec"@, args: seq![item@] }),
    {
        let ghost iv = item@;
        let mut args: Vec<Type> = Vec::new();
        args.push(item);
        let name = string_of("Vec");
        proof {
            lemma_named_view(name, args);
            assert(types_view(args@) =~= seq![iv]);
        }
        Type::Named { name, args }
    }

    /// A copy of this type.
    #[verifier::loop_isolation(false)]
    pub fn copy(&self) -> (r: Type)
        ensures
            r@ == self@,
        decreases self,
    {
        match self {
            Type::Unknown => Type::Unknown,
            Type::Named { name, args } => {
                let copied = copy_types(self, args);
                let n = name.clone();
                proof {
                    lemma_named_view(*name, *args);
                    lemma_named_view(n, copied);
                }
                Type::Named { name: n, args: copied }
            },
            Type::Record(fields) => {
                let mut out: Vec<(String, Type)> = Vec::new();
                let mut i: usize = 0;
                while i < fields.len()
                    invariant
                        0 <= i <= fields@.len(),
                        out@.len() == i,
                        forall|j: int| 0 <= j < i ==> (#[trigger] out@[j]).0@ == fields@[j].0@ && out@[j].1@ == fields@[j].1@,
                    decreases fields.len() - i,
                {
                    assert(decreases_to!(*self => fields@[i as int].1));
                    let t = fields[i].1.copy();
                    out.push((fields[i].0.clone(), t));
                    i += 1;
                }
                proof {
                    lemma_record_view(*fields);
                    lemma_record_view(out);
                    assert(fields_view(out@) =~= fields_view(fields@));
                }
                Type::Record(out)
            },
            Type::Function { params, variadic, return_type, effects } => {
                let p = copy_types(self, params);
                let v = match variadic {
                    Some(v) => Some(Box::new((&**v).copy())),
                    None => None,
                };
                let rt = Box::new((&**return_type).copy());
                let e = effects.clone();
                proof {
                    lemma_function_view(*params, *variadic, *return_type, *effects);
                    lemma_function_view(p, v, rt, e);
                }
                Type::Function { params: p, variadic: v, return_type: rt, effects: e }
            },
        }
    }

    /// The element type of `Vec<T>`.
    pub fn vec_part(&self) -> (r: Option<&Type>)
        ensures
            match r {
                Some(item) => self@ matches TypeV::Named { name, args } && name == "Vec"@ && args.len() == 1 && args[0] == item@,
                None => !(self@ matches TypeV::Named { name, args } && name == "Vec"@ && args.len() == 1),
            },
    {
        match self {
            Type::Named { name, args } => {
                proof {
                    lemma_named_view(*name, *args);
                }
                if str_eq(name.as_str(), "Vec") && args.len() == 1 {
                    Some(&args[0])
                } else {
                    None
                }
            },
            _ => None,
        }
    }

    /// The value and error types of `Result<T, E>`.
    pub fn result_parts(&self) -> (r: Option<(&Type, &Type)>)
        ensures
            match r {
                Some((v, e)) => self@ matches TypeV::Named { name, args } && name == "Result"@ && args.len() == 2 && args[0] == v@ && args[1] == e@,
                None => !(self@ matches TypeV::Named { name, args } && name == "Result"@ && args.len() == 2),
            },
    {
        match self {
            Type::Named { name, args } => {
                proof {
                    lemma_named_view(*name, *args);
                }
                if str_eq(name.as_str(), "Result") && args.len() == 2 {
                    Some((&args[0], &args[1]))
                } else {
                    None
                }
            },
            _ => None,
        }
    }

    /// The key and value types of `Dict<K, V>`.
    pub fn dict_parts(&self) -> (r: Option<(&Type, &Type)>)
        ensures
            match r {
                Some((k, v)) => self@ matches TypeV::Named { name, args } && name == "Dict"@ && args.len() == 2 && args[0] == k@ && args[1] == v@,
                None => !(self@ matches TypeV::Named { name, args } && name == "Dict"@ && args.len() == 2),
            },
    {
        match self {
            Type::Named { name, args } => {
                proof {
                    lemma_named_view(*name, *args);
                }
                if str_eq(name.as_str(), "Dict") && args.len() == 2 {
                    Some((&args[0], &args[1]))
                } else {
                    None
                }
            },
            _ => None,
        }
    }

    /// `Dict<key, value>`.
    pub fn dict_of(key: Type, value: Type) -> (r: Type)
        ensures
            r@ == (TypeV::Named { name: "Dict"@, args: seq![key@, value@] }),
    {
        let ghost kv = key@;
        let ghost vv = value@;
        let mut args: Vec<Type> = Vec::new();
        args.push(key);
        args.push(value);
        let name = string_of("Dict");
        proof {
            lemma_named_view(name, args);
            assert(types_view(args@) =~= seq![kv, vv]);
        }
        Type::Named { name, args }
    }

    /// Whether this is exactly the named type `name` without arguments.
    pub fn is_named0(&self, name: &str) -> (r: bool)
        ensures
            r == (self@ == named0(name@)),
    {
        match self {
            Type::Named { name: n, args } => {
                proof {
                    lemma_named_view(*n, *args);
                    if args@.len() == 0 {
                        assert(types_view(args@) =~= Seq::<TypeV>::empty());
                    } else {
                        assert(types_view(args@).len() != 0);
                    }
                }
                let same = str_eq(n.as_str(), name);
                same && args.len() == 0
            },
            _ => false,
        }
    }

    /// Whether this is the unknown type.
    pub fn is_unknown(&self) -> (r: bool)
        ensures
            r == (self@ == TypeV::Unknown),
    {
        match self {
            Type::Unknown => true,
            Type::Named { name, args } => {
                proof { lemma_named_view(*name, *args); }
                false
            },
            Type::Record(fields) => {
                proof { lemma_record_view(*fields); }
                false
            },
            Type::Function { params, variadic, return_type, effects } => {
                proof { lemma_function_view(*params, *variadic, *return_type, *effects); }
                false
            },
        }
    }

    /// Whether this is a function type.
    pub fn is_function(&self) -> (r: bool)
        ensures
            r == (self@ is Function),
    {
        match self {
            Type::Function { params, variadic, return_type, effects } => {
                proof { lemma_function_view(*params, *variadic, *return_type, *effects); }
                true
            },
            Type::Named { name, args } => {
                proof { lemma_named_view(*name, *args); }
                false
            },
            Type::Record(fields) => {
                proof { lemma_record_view(*fields); }
                false
            },
            Type::Unknown => false,
        }
    }
}

/// Copies of the types in `items`, which belong to `owner`.
fn copy_types(owner: &Type, items: &Vec<Type>) -> (r: Vec<Type>)
    requires
        forall|i: int| 0 <= i < items@.len() ==> decreases_to!(*owner => #[trigger] items@[i]),
    ensures
        types_view(r@) == types_view(items@),
    decreases owner, 0nat,
{
    let mut out: Vec<Type> = Vec::new();
    let mut i: usize = 0;
    while i < items.len()
        invariant
            0 <= i <= items@.len(),
            out@.len() == i,
            forall|k: int| 0 <= k < items@.len() ==> decreases_to!(*owner => #[trigger] items@[k]),
            forall|j: int| 0 <= j < i ==> (#[trigger] out@[j])@ == items@[j]@,
        decreases items.len() - i,
    {
        out.push(items[i].copy());
        i += 1;
    }
    assert(types_view(out@) =~= types_view(items@));
    out
}

/// Whether two lists of strings hold the same strings in order.
fn strings_equal(xs: &Vec<String>, ys: &Vec<String>) -> (r: bool)
    ensures
        r == (xs.deep_view() == ys.deep_view()),
{
    if xs.len() != ys.len() {
        assert(xs.deep_view().len() != ys.deep_view().len());
        return false;
    }
    let mut i: usize = 0;
    while i < xs.len()
        invariant
            0 <= i <= xs@.len(),
            xs@.len() == ys@.len(),
            forall|j: int| 0 <= j < i ==> (#[trigger] xs@[j])@ == ys@[j]@,
        decreases xs.len() - i,
    {
        if !str_eq(xs[i].as_str(), ys[i].as_str()) {
            assert(xs.deep_view()[i as int] != ys.deep_view()[i as int]);
            return false;
        }
        i += 1;
    }
    assert(xs.deep_view() =~= ys.deep_view());
    true
}

/// Whether two lists of types, the first belonging to `owner`, have equal models.
fn type_lists_equal(owner: &Type, xs: &Vec<Type>, ys: &Vec<Type>) -> (r: bool)
    requires
        forall|i: int| 0 <= i < xs@.len() ==> decreases_to!(*owner => #[trigger] xs@[i]),
    ensures
        r == (types_view(xs@) == types_view(ys@)),
    decreases owner, 0nat,
{
    if xs.len() != ys.len() {
        assert(types_view(xs@).len() != types_view(ys@).len());
        return false;
    }
    let mut i: usize = 0;
    while i < xs.len()
        invariant
            0 <= i <= xs@.len(),
            xs@.len() == ys@.len(),
            forall|k: int| 0 <= k < xs@.len() ==> decreases_to!(*owner => #[trigger] xs@[k]),
            forall|j: int| 0 <= j < i ==> (#[trigger] xs@[j])@ == ys@[j]@,
        decreases xs.len() - i,
    {
        if !types_equal(&xs[i], &ys[i]) {
            assert(types_view(xs@)[i as int] != types_view(ys@)[i as int]);
            return false;
        }
        i += 1;
    }
    assert(types_view(xs@) =~= types_view(ys@));
    true
}

/// Whether two types have the same model.
#[verifier::loop_isolation(false)]
pub fn types_equal(a: &Type, b: &Type) -> (r: bool)
    ensures
        r == (a@ == b@),
    decreases a, 1nat,
{
    proof {
        crate::relations::lemma_kind_facts(a);
        crate::relations::lemma_kind_facts(b);
    }
    match (a, b) {
        (Type::Unknown, Type::Unknown) => true,
        (Type::Named { name: n1, args: a1 }, Type::Named { name: n2, args: a2 }) => {
            proof {
                lemma_named_view(*n1, *a1);
                lemma_named_view(*n2, *a2);
            }
            if !str_eq(n1.as_str(), n2.as_str()) {
                return false;
            }
            assert forall|i: int| 0 <= i < a1@.len() implies decreases_to!(*a => #[trigger] a1@[i]) by {
                assert(decreases_to!(*a => *a1));
                assert(decreases_to!(*a1 => a1@));
            }
            type_lists_equal(a, a1, a2)
        },
        (Type::Record(f1), Type::Record(f2)) => {
            proof {
                lemma_record_view(*f1);
                lemma_record_view(*f2);
            }
            if f1.len() != f2.len() {
                assert(fields_view(f1@).len() != fields_view(f2@).len());
                return false;
            }
            let mut i: usize = 0;
            while i < f1.len()
                invariant
                    0 <= i <= f1@.len(),
                    f1@.len() == f2@.len(),
                    forall|j: int| 0 <= j < i ==> (#[trigger] f1@[j]).0@ == f2@[j].0@ && f1@[j].1@ == f2@[j].1@,
                decreases f1.len() - i,
            {
                assert(decreases_to!(*a => f1@[i as int].1));
                if !str_eq(f1[i].0.as_str(), f2[i].0.as_str()) || !types_equal(&f1[i].1, &f2[i].1) {
                    assert(fields_view(f1@)[i as int] != fields_view(f2@)[i as int]);
                    return false;
                }
                i += 1;
            }
            assert(fields_view(f1@) =~= fields_view(f2@));
            true
        },
        (Type::Function { params: p1, variadic: v1, return_type: r1, effects: e1 },
         Type::Function { params: p2, variadic: v2, return_type: r2, effects: e2 }) => {
            proof {
                lemma_function_view(*p1, *v1, *r1, *e1);
                lemma_function_view(*p2, *v2, *r2, *e2);
            }
            assert forall|i: int| 0 <= i < p1@.len() implies decreases_to!(*a => #[trigger] p1@[i]) by {
                assert(decreases_to!(*a => *p1));
                assert(decreases_to!(*p1 => p1@));
            }
            if !type_lists_equal(a, p1, p2) {
                return false;
            }
            let same_variadic = match (v1, v2) {
                (Some(x), Some(y)) => types_equal(&**x, &**y),
                (None, None) => true,
                _ => false,
            };
            if !same_variadic {
                return false;
            }
            if !types_equal(&**r1, &**r2) {
                return false;
            }
            strings_equal(e1, e2)
        },
        _ => false,
    }
}

/// The type of the first field named `name` in a record type.
pub open spec fn record_field_type(t: TypeV, name: Seq<char>) -> Option<TypeV> {
    match t {
        TypeV::Record(fields) => if exists|i: int| 0 <= i < fields.len() && (#[trigger] fields[i]).0 == name {
            Some(fields[choose|i: int| 0 <= i < fields.len() && (#[trigger] fields[i]).0 == name
                && forall|j: int| 0 <= j < i ==> (#[trigger] fields[j]).0 != name].1)
        } else {
            None
        },
        _ => None,
    }
}


} // verus!
