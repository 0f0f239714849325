use vstd::prelude::*;

use crate::diag::{NodeId, SourceSpan};
use crate::text::{str_eq};
use crate::types::{Type, TypeV};

verus! {

/// Whether two optional module names agree.
pub open spec fn same_module(a: Option<String>, b: Option<Seq<char>>) -> bool {
    match (a, b) {
        (Some(x), Some(y)) => x@ == y,
        (None, None) => true,
        _ => false,
    }
}

/// Tells whether two optional module names agree.
pub fn module_eq(a: &Option<String>, b: Option<&str>) -> (r: bool)
    ensures
        r == same_module(*a, match b { Some(s) => Some(s@), None => None }),
{
    match (a, b) {
        (Some(x), Some(y)) => str_eq(x.as_str(), y),
        (None, None) => true,
        _ => false,
    }
}

/// The model of an optional string slice.
pub open spec fn opt_str(o: Option<&str>) -> Option<Seq<char>> {
    match o {
        Some(s) => Some(s@),
        None => None,
    }
}

/// The signature of a declared function.
pub struct FunctionSignature {
    pub name: String,
    pub module_name: Option<String>,
    pub params: Vec<Type>,
    /// The element type of the trailing variadic parameter, if there is one.
    pub variadic: Option<Type>,
    pub return_type: Type,
    pub effects: Vec<String>,
}

/// One variant of an algebraic data type, with the case name used for exhaustiveness.
pub struct AdtVariant {
    pub name: String,
    pub coverage_case: String,
    pub fields: Vec<Type>,
}

/// A declared algebraic data type.
pub struct AdtDescriptor {
    pub name: String,
    pub module_name: Option<String>,
    pub type_parameters: Vec<String>,
    pub variants: Vec<AdtVariant>,
}

/// The declared algebraic data types.
pub struct AdtRegistry {
    pub descriptors: Vec<AdtDescriptor>,
}

/// An operation of a declared user effect: its parameter and result types, and where
/// its name is declared.
pub struct EffectOperationSignature {
    pub name: String,
    pub params: Vec<Type>,
    pub return_type: Type,
    pub node_id: NodeId,
    pub name_span: SourceSpan,
}

/// A declared user effect with its operations.
pub struct EffectSignature {
    pub name: String,
    pub qualified_name: String,
    pub module_name: Option<String>,
    pub operations: Vec<EffectOperationSignature>,
    pub span: SourceSpan,
}

/// An operation clause of a declared handler, by the operation it handles.
pub struct HandlerClauseSignature {
    pub operation: String,
}

/// A declared handler: the effect it handles, its parameter types, the effects its
/// clauses may use, and its operation clauses.
pub struct HandlerSignature {
    pub name: String,
    pub qualified_name: String,
    pub module_name: Option<String>,
    pub effect: String,
    pub params: Vec<Type>,
    pub effects: Vec<String>,
    pub operation_clauses: Vec<HandlerClauseSignature>,
}

/// The target module a test companion may reach private declarations of, and the
/// companion's path.
pub struct CompanionAccessTarget {
    pub companion_path: String,
    pub target_module: String,
}

/// How an effect path resolves: to a declared effect (by its position among the
/// environment's effects), to a private effect of a module other than the companion's
/// target, or to nothing.
pub enum UserEffectPathResolution {
    Found(usize),
    PrivateCompanionTargetMismatch { effect: usize, access: CompanionAccessTarget },
    Missing,
}

/// What the body checker may consult about the rest of the program.
pub struct TypeEnvironment {
    pub functions: Vec<FunctionSignature>,
    pub adts: AdtRegistry,
    pub effects: Vec<EffectSignature>,
    pub handlers: Vec<HandlerSignature>,
    /// The built-in effect labels, in the order diagnostics list them.
    pub known_effect_labels: Vec<String>,
}

/// The name of a named type, if it is one.
pub open spec fn named_type_name(t: TypeV) -> Option<Seq<char>> {
    match t {
        TypeV::Named { name, .. } => Some(name),
        _ => None,
    }
}

/// The descriptor chosen for a named type: the first descriptor with that name in
/// `current_module`, else the first with that name.
#[verifier::opaque]
pub open spec fn descriptor_choice(ds: Seq<AdtDescriptor>, t: TypeV, current_module: Option<Seq<char>>) -> Option<int> {
    match named_type_name(t) {
        None => None,
        Some(n) => if exists|k: int| 0 <= k < ds.len() && (#[trigger] ds[k]).name@ == n && same_module(ds[k].module_name, current_module) {
            Some(choose|k: int| 0 <= k < ds.len() && (#[trigger] ds[k]).name@ == n && same_module(ds[k].module_name, current_module)
                && forall|j: int| 0 <= j < k ==> !((#[trigger] ds[j]).name@ == n && same_module(ds[j].module_name, current_module)))
        } else if exists|k: int| 0 <= k < ds.len() && (#[trigger] ds[k]).name@ == n {
            Some(choose|k: int| 0 <= k < ds.len() && (#[trigger] ds[k]).name@ == n && forall|j: int| 0 <= j < k ==> (#[trigger] ds[j]).name@ != n)
        } else {
            None
        },
    }
}

impl AdtRegistry {
    /// The descriptor for a named type, preferring one declared in `current_module`.
    #[verifier::rlimit(40)]
    pub fn descriptor_for_type_prefer_module(&self, ty: &Type, current_module: Option<&str>) -> (r: Option<usize>)
        ensures
            match r {
                Some(k) => k < self.descriptors@.len() && descriptor_choice(self.descriptors@, ty@, opt_str(current_module)) == Some(k as int),
                None => descriptor_choice(self.descriptors@, ty@, opt_str(current_module)) is None,
            },
    {
        let name = match ty {
            Type::Named { name, args } => {
                proof { crate::types::lemma_named_view(*name, *args); }
                name
            },
            _ => {
                proof {
                    crate::relations::lemma_kind_facts(ty);
                    reveal(descriptor_choice);
                }
                return None;
            },
        };
        let ds = &self.descriptors;
        let ghost n = name@;
        let ghost cm = opt_str(current_module);
        let mut i: usize = 0;
        while i < ds.len()
            invariant
                0 <= i <= ds@.len(),
                named_type_name(ty@) == Some(n),
                forall|j: int| 0 <= j < i ==> !((#[trigger] ds@[j]).name@ == n && same_module(ds@[j].module_name, cm)),
            decreases ds.len() - i,
        {
            if str_eq(ds[i].name.as_str(), name.as_str()) && module_eq(&ds[i].module_name, current_module) {
                proof { lemma_first_match(ds@, n, cm, i as int); }
                return Some(i);
            }
            i += 1;
        }
        let mut k: usize = 0;
        while k < ds.len()
            invariant
                0 <= k <= ds@.len(),
                named_type_name(ty@) == Some(n),
                forall|j: int| 0 <= j < ds@.len() ==> !((#[trigger] ds@[j]).name@ == n && same_module(ds@[j].module_name, cm)),
                forall|j: int| 0 <= j < k ==> (#[trigger] ds@[j]).name@ != n,
            decreases ds.len() - k,
        {
            if str_eq(ds[k].name.as_str(), name.as_str()) {
                proof { lemma_first_name(ds@, n, cm, k as int); }
                return Some(k);
            }
            k += 1;
        }
        proof { reveal(descriptor_choice); }
        None
    }
}

proof fn lemma_first_match(ds: Seq<AdtDescriptor>, n: Seq<char>, cm: Option<Seq<char>>, i: int)
    requires
        0 <= i < ds.len(),
        ds[i].name@ == n && same_module(ds[i].module_name, cm),
        forall|j: int| 0 <= j < i ==> !((#[trigger] ds[j]).name@ == n && same_module(ds[j].module_name, cm)),
    ensures
        forall|t: TypeV| named_type_name(t) == Some(n) ==> descriptor_choice(ds, t, cm) == Some(i),
{
    reveal(descriptor_choice);
    assert forall|t: TypeV| named_type_name(t) == Some(n) implies descriptor_choice(ds, t, cm) == Some(i) by {
        let c = choose|k: int| 0 <= k < ds.len() && (#[trigger] ds[k]).name@ == n && same_module(ds[k].module_name, cm)
            && forall|j: int| 0 <= j < k ==> !((#[trigger] ds[j]).name@ == n && same_module(ds[j].module_name, cm));
        if c < i {
            assert(!(ds[c].name@ == n && same_module(ds[c].module_name, cm)));
        }
        if i < c {
            assert(!(ds[i].name@ == n && same_module(ds[i].module_name, cm)));
        }
    }
}

proof fn lemma_first_name(ds: Seq<AdtDescriptor>, n: Seq<char>, cm: Option<Seq<char>>, i: int)
    requires
        0 <= i < ds.len(),
        ds[i].name@ == n,
        forall|j: int| 0 <= j < ds.len() ==> !((#[trigger] ds[j]).name@ == n && same_module(ds[j].module_name, cm)),
        forall|j: int| 0 <= j < i ==> (#[trigger] ds[j]).name@ != n,
    ensures
        forall|t: TypeV| named_type_name(t) == Some(n) ==> descriptor_choice(ds, t, cm) == Some(i),
{
    reveal(descriptor_choice);
    assert forall|t: TypeV| named_type_name(t) == Some(n) implies descriptor_choice(ds, t, cm) == Some(i) by {
        let c = choose|k: int| 0 <= k < ds.len() && (#[trigger] ds[k]).name@ == n && forall|j: int| 0 <= j < k ==> (#[trigger] ds[j]).name@ != n;
        if c < i {
            assert(ds[c].name@ != n);
        }
        if i < c {
            assert(ds[i].name@ != n);
        }
    }
}

} // verus!

verus! {

/// The effect a declared effect annotation refers to: the effect whose qualified name
/// is the annotation, else the effect of that name declared in `current_module`.
pub open spec fn effect_choice(es: Seq<EffectSignature>, path: Seq<char>, current_module: Option<Seq<char>>) -> Option<int> {
    if exists|k: int| 0 <= k < es.len() && (#[trigger] es[k]).qualified_name@ == path {
        Some(choose|k: int| 0 <= k < es.len() && (#[trigger] es[k]).qualified_name@ == path && forall|j: int| 0 <= j < k ==> (#[trigger] es[j]).qualified_name@ != path)
    } else if exists|k: int| 0 <= k < es.len() && (#[trigger] es[k]).name@ == path && same_module(es[k].module_name, current_module) {
        Some(choose|k: int| 0 <= k < es.len() && (#[trigger] es[k]).name@ == path && same_module(es[k].module_name, current_module)
            && forall|j: int| 0 <= j < k ==> !((#[trigger] es[j]).name@ == path && same_module(es[j].module_name, current_module)))
    } else {
        None
    }
}

/// The handler a handler path names: the handler whose qualified name is the path, else
/// the handler of that name declared in `current_module`.
pub open spec fn handler_choice(hs: Seq<HandlerSignature>, path: Seq<char>, current_module: Option<Seq<char>>) -> Option<int> {
    if exists|k: int| 0 <= k < hs.len() && (#[trigger] hs[k]).qualified_name@ == path {
        Some(choose|k: int| 0 <= k < hs.len() && (#[trigger] hs[k]).qualified_name@ == path && forall|j: int| 0 <= j < k ==> (#[trigger] hs[j]).qualified_name@ != path)
    } else if exists|k: int| 0 <= k < hs.len() && (#[trigger] hs[k]).name@ == path && same_module(hs[k].module_name, current_module) {
        Some(choose|k: int| 0 <= k < hs.len() && (#[trigger] hs[k]).name@ == path && same_module(hs[k].module_name, current_module)
            && forall|j: int| 0 <= j < k ==> !((#[trigger] hs[j]).name@ == path && same_module(hs[j].module_name, current_module)))
    } else {
        None
    }
}

impl TypeEnvironment {
    /// The declared handler that a handler path names.
    pub fn user_handler_path(&self, path: &str, current_module: Option<&str>) -> (r: Option<usize>)
        ensures
            match r {
                Some(k) => k < self.handlers@.len() && handler_choice(self.handlers@, path@, opt_str(current_module)) == Some(k as int),
                None => handler_choice(self.handlers@, path@, opt_str(current_module)) is None,
            },
    {
        let hs = &self.handlers;
        let ghost cm = opt_str(current_module);
        let mut i: usize = 0;
        while i < hs.len()
            invariant
                0 <= i <= hs@.len(),
                forall|j: int| 0 <= j < i ==> (#[trigger] hs@[j]).qualified_name@ != path@,
            decreases hs.len() - i,
        {
            if str_eq(hs[i].qualified_name.as_str(), path) {
                proof {
                    let c = choose|k: int| 0 <= k < hs@.len() && (#[trigger] hs@[k]).qualified_name@ == path@ && forall|j: int| 0 <= j < k ==> (#[trigger] hs@[j]).qualified_name@ != path@;
                    if c < i { assert(hs@[c].qualified_name@ != path@); }
                    if i < c { assert(hs@[i as int].qualified_name@ != path@); }
                }
                return Some(i);
            }
            i += 1;
        }
        let mut k: usize = 0;
        while k < hs.len()
            invariant
                0 <= k <= hs@.len(),
                forall|j: int| 0 <= j < hs@.len() ==> (#[trigger] hs@[j]).qualified_name@ != path@,
                forall|j: int| 0 <= j < k ==> !((#[trigger] hs@[j]).name@ == path@ && same_module(hs@[j].module_name, cm)),
            decreases hs.len() - k,
        {
            if str_eq(hs[k].name.as_str(), path) && module_eq(&hs[k].module_name, current_module) {
                proof {
                    let c = choose|c: int| 0 <= c < hs@.len() && (#[trigger] hs@[c]).name@ == path@ && same_module(hs@[c].module_name, cm)
                        && forall|j: int| 0 <= j < c ==> !((#[trigger] hs@[j]).name@ == path@ && same_module(hs@[j].module_name, cm));
                    if c < k { assert(!(hs@[c].name@ == path@ && same_module(hs@[c].module_name, cm))); }
                    if k < c { assert(!(hs@[k as int].name@ == path@ && same_module(hs@[k as int].module_name, cm))); }
                }
                return Some(k);
            }
            k += 1;
        }
        None
    }

    /// The user effect that an effect annotation names.
    pub fn user_effect_path(&self, path: &str, current_module: Option<&str>) -> (r: Option<usize>)
        ensures
            match r {
                Some(k) => k < self.effects@.len() && effect_choice(self.effects@, path@, opt_str(current_module)) == Some(k as int),
                None => effect_choice(self.effects@, path@, opt_str(current_module)) is None,
            },
    {
        let es = &self.effects;
        let ghost cm = opt_str(current_module);
        let mut i: usize = 0;
        while i < es.len()
            invariant
                0 <= i <= es@.len(),
                forall|j: int| 0 <= j < i ==> (#[trigger] es@[j]).qualified_name@ != path@,
            decreases es.len() - i,
        {
            if str_eq(es[i].qualified_name.as_str(), path) {
                proof {
                    let c = choose|k: int| 0 <= k < es@.len() && (#[trigger] es@[k]).qualified_name@ == path@ && forall|j: int| 0 <= j < k ==> (#[trigger] es@[j]).qualified_name@ != path@;
                    if c < i { assert(es@[c].qualified_name@ != path@); }
                    if i < c { assert(es@[i as int].qualified_name@ != path@); }
                }
                return Some(i);
            }
            i += 1;
        }
        let mut k: usize = 0;
        while k < es.len()
            invariant
                0 <= k <= es@.len(),
                forall|j: int| 0 <= j < es@.len() ==> (#[trigger] es@[j]).qualified_name@ != path@,
                forall|j: int| 0 <= j < k ==> !((#[trigger] es@[j]).name@ == path@ && same_module(es@[j].module_name, cm)),
            decreases es.len() - k,
        {
            if str_eq(es[k].name.as_str(), path) && module_eq(&es[k].module_name, current_module) {
                proof {
                    let c = choose|c: int| 0 <= c < es@.len() && (#[trigger] es@[c]).name@ == path@ && same_module(es@[c].module_name, cm)
                        && forall|j: int| 0 <= j < c ==> !((#[trigger] es@[j]).name@ == path@ && same_module(es@[j].module_name, cm));
                    if c < k { assert(!(es@[c].name@ == path@ && same_module(es@[c].module_name, cm))); }
                    if k < c { assert(!(es@[k as int].name@ == path@ && same_module(es@[k as int].module_name, cm))); }
                }
                return Some(k);
            }
            k += 1;
        }
        None
    }
}

} // verus!

verus! {

/// Whether a constructor path names variant `v` of descriptor `d`: its last segment is
/// the variant's name and, when qualified, the segment before it is the type's name.
pub open spec fn names_variant(path: Seq<Seq<char>>, d: AdtDescriptor, v: int) -> bool {
    &&& path.len() > 0
    &&& 0 <= v < d.variants@.len()
    &&& d.variants@[v].name@ == path.last()
    &&& path.len() >= 2 ==> path[path.len() - 2] == d.name@
}

/// The first variant of `d` that the path names.
#[verifier::opaque]
pub open spec fn variant_choice(path: Seq<Seq<char>>, d: AdtDescriptor) -> Option<int> {
    if exists|v: int| names_variant(path, d, v) {
        Some(choose|v: int| names_variant(path, d, v) && forall|w: int| 0 <= w < v ==> !names_variant(path, d, w))
    } else {
        None
    }
}

/// The outcome of looking up a constructor across all declared types.
pub enum ConstructorLookup {
    Found(usize, usize),
    Ambiguous,
    Missing,
}

/// The number of declared types, among the first `n`, that have a variant the path names.
pub open spec fn constructor_matches(ds: Seq<AdtDescriptor>, path: Seq<Seq<char>>, n: int) -> nat
    decreases n,
{
    if n <= 0 || n > ds.len() {
        0
    } else {
        constructor_matches(ds, path, n - 1) + if variant_choice(path, ds[n - 1]) is Some { 1nat } else { 0nat }
    }
}

impl AdtRegistry {
    /// The variant of `descriptor` that a constructor path names.
    #[verifier::rlimit(40)]
    pub fn constructor_for_descriptor(&self, name: &[String], descriptor: usize) -> (r: Option<usize>)
        requires
            descriptor < self.descriptors@.len(),
        ensures
            match r {
                Some(v) => v < self.descriptors@[descriptor as int].variants@.len() && variant_choice(name.deep_view(), self.descriptors@[descriptor as int]) == Some(v as int),
                None => variant_choice(name.deep_view(), self.descriptors@[descriptor as int]) is None,
            },
    {
        let d = &self.descriptors[descriptor];
        let ghost path = name.deep_view();
        proof { reveal(variant_choice); }
        if name.len() == 0 {
            return None;
        }
        if name.len() >= 2 && !str_eq(name[name.len() - 2].as_str(), d.name.as_str()) {
            assert(path[path.len() - 2] == name@[name@.len() - 2]@);
            return None;
        }
        let leaf = name[name.len() - 1].as_str();
        let mut v: usize = 0;
        while v < d.variants.len()
            invariant
                0 <= v <= d.variants@.len(),
                name@.len() > 0,
                path == name.deep_view(),
                leaf@ == path.last(),
                name@.len() >= 2 ==> path[path.len() - 2] == d.name@,
                forall|w: int| 0 <= w < v ==> !names_variant(path, *d, w),
            decreases d.variants.len() - v,
        {
            if str_eq(d.variants[v].name.as_str(), leaf) {
                proof {
                    assert(names_variant(path, *d, v as int));
                    assert(names_variant(path, *d, v as int) && forall|w: int| 0 <= w < v ==> !names_variant(path, *d, w));
                    let c = choose|c: int| names_variant(path, *d, c) && forall|w: int| 0 <= w < c ==> !names_variant(path, *d, w);
                    if c < v { assert(!names_variant(path, *d, c)); }
                    if v < c { assert(!names_variant(path, *d, v as int)); }
                }
                return Some(v);
            }
            v += 1;
        }
        None
    }

    /// The first declared type whose name is the name of `ty`.
    pub fn descriptor_for_type(&self, ty: &Type) -> (r: Option<usize>)
        ensures
            match r {
                Some(k) => k < self.descriptors@.len() && named_type_name(ty@) == Some(self.descriptors@[k as int].name@)
                    && forall|j: int| 0 <= j < k ==> Some((#[trigger] self.descriptors@[j]).name@) != named_type_name(ty@),
                None => forall|j: int| 0 <= j < self.descriptors@.len() ==> Some((#[trigger] self.descriptors@[j]).name@) != named_type_name(ty@),
            },
    {
        let name = match ty {
            Type::Named { name, args } => {
                proof { crate::types::lemma_named_view(*name, *args); }
                name
            },
            _ => {
                proof { crate::relations::lemma_kind_facts(ty); }
                return None;
            },
        };
        let mut i: usize = 0;
        while i < self.descriptors.len()
            invariant
                0 <= i <= self.descriptors@.len(),
                named_type_name(ty@) == Some(name@),
                forall|j: int| 0 <= j < i ==> Some((#[trigger] self.descriptors@[j]).name@) != named_type_name(ty@),
            decreases self.descriptors.len() - i,
        {
            if str_eq(self.descriptors[i].name.as_str(), name.as_str()) {
                return Some(i);
            }
            i += 1;
        }
        None
    }

    /// Looks a constructor path up across all declared types: found when exactly one
    /// type has a variant it names, ambiguous when several do.
    #[verifier::rlimit(40)]
    pub fn constructor(&self, name: &[String]) -> (r: ConstructorLookup)
        ensures
            match r {
                ConstructorLookup::Found(d, v) => constructor_matches(self.descriptors@, name.deep_view(), self.descriptors@.len() as int) == 1
                    && d < self.descriptors@.len() && variant_choice(name.deep_view(), self.descriptors@[d as int]) == Some(v as int),
                ConstructorLookup::Ambiguous => constructor_matches(self.descriptors@, name.deep_view(), self.descriptors@.len() as int) > 1,
                ConstructorLookup::Missing => constructor_matches(self.descriptors@, name.deep_view(), self.descriptors@.len() as int) == 0,
            },
    {
        let mut found: Option<(usize, usize)> = None;
        let mut count: usize = 0;
        let mut i: usize = 0;
        while i < self.descriptors.len()
            invariant
                0 <= i <= self.descriptors@.len(),
                count == constructor_matches(self.descriptors@, name.deep_view(), i as int),
                count <= i,
                count == 0 <==> found is None,
                found matches Some((d, v)) ==> d < i && variant_choice(name.deep_view(), self.descriptors@[d as int]) == Some(v as int),
            decreases self.descriptors.len() - i,
        {
            match self.constructor_for_descriptor(name, i) {
                Some(v) => {
                    if count == 0 {
                        found = Some((i, v));
                    }
                    count += 1;
                },
                None => {},
            }
            i += 1;
        }
        if count == 0 {
            ConstructorLookup::Missing
        } else if count == 1 {
            let (d, v) = found.unwrap();
            ConstructorLookup::Found(d, v)
        } else {
            ConstructorLookup::Ambiguous
        }
    }
}

} // verus!

verus! {

/// The first function, from position `i` on, named `name` and declared in `current_module`.
pub open spec fn function_from(fs: Seq<FunctionSignature>, name: Seq<char>, current_module: Option<Seq<char>>, i: int) -> Option<int>
    decreases fs.len() - i,
{
    if i < 0 || i >= fs.len() {
        None
    } else if fs[i].name@ == name && same_module(fs[i].module_name, current_module) {
        Some(i)
    } else {
        function_from(fs, name, current_module, i + 1)
    }
}

/// The model of a function signature's type.
pub open spec fn signature_type(f: FunctionSignature) -> TypeV {
    TypeV::Function {
        params: crate::types::types_view(f.params@),
        variadic: match f.variadic {
            Some(v) => Some(Box::new(v@)),
            None => None,
        },
        return_type: Box::new(f.return_type@),
        effects: f.effects.deep_view(),
    }
}

proof fn lemma_function_from_found(fs: Seq<FunctionSignature>, name: Seq<char>, current_module: Option<Seq<char>>, i: int)
    requires
        function_from(fs, name, current_module, i) is Some,
    ensures
        ({
            let k = function_from(fs, name, current_module, i)->0;
            0 <= k < fs.len() && fs[k].name@ == name && same_module(fs[k].module_name, current_module)
        }),
    decreases fs.len() - i,
{
    if !(i < 0 || i >= fs.len()) && !(fs[i].name@ == name && same_module(fs[i].module_name, current_module)) {
        lemma_function_from_found(fs, name, current_module, i + 1);
    }
}

impl FunctionSignature {
    /// The function type of this signature.
    pub fn ty(&self) -> (r: Type)
        ensures
            r@ == signature_type(*self),
    {
        let mut params: Vec<Type> = Vec::new();
        let mut i: usize = 0;
        while i < self.params.len()
            invariant
                0 <= i <= self.params@.len(),
                params@.len() == i,
                forall|j: int| 0 <= j < i ==> (#[trigger] params@[j])@ == self.params@[j]@,
            decreases self.params.len() - i,
        {
            params.push(self.params[i].copy());
            i += 1;
        }
        let rt = Box::new(self.return_type.copy());
        let e = self.effects.clone();
        let variadic = match &self.variadic {
            Some(v) => Some(Box::new(v.copy())),
            None => None,
        };
        proof {
            crate::types::lemma_function_view(params, variadic, rt, e);
            assert(crate::types::types_view(params@) =~= crate::types::types_view(self.params@));
        }
        Type::Function { params, variadic, return_type: rt, effects: e }
    }
}

impl TypeEnvironment {
    /// The function a bare name refers to from `current_module`: the first one of that
    /// name declared in the same module.
    pub fn unqualified_function(&self, name: &str, current_module: Option<&str>) -> (r: Option<usize>)
        ensures
            match r {
                Some(k) => function_from(self.functions@, name@, opt_str(current_module), 0) == Some(k as int)
                    && k < self.functions@.len() && self.functions@[k as int].name@ == name@,
                None => function_from(self.functions@, name@, opt_str(current_module), 0) is None,
            },
    {
        let fs = &self.functions;
        let ghost cm = opt_str(current_module);
        let mut i: usize = 0;
        while i < fs.len()
            invariant
                0 <= i <= fs@.len(),
                function_from(fs@, name@, cm, 0) == function_from(fs@, name@, cm, i as int),
            decreases fs.len() - i,
        {
            if str_eq(fs[i].name.as_str(), name) && module_eq(&fs[i].module_name, current_module) {
                return Some(i);
            }
            i += 1;
        }
        None
    }
}

} // verus!
