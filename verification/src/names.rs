use vstd::prelude::*;

use crate::text::{chars_of, push_char, strip_prefix};

verus! {

/// Whether `c` is an ASCII lowercase letter.
pub open spec fn is_lower(c: char) -> bool {
    'a' <= c && c <= 'z'
}

/// Whether `c` is an ASCII uppercase letter.
pub open spec fn is_upper(c: char) -> bool {
    'A' <= c && c <= 'Z'
}

/// Whether a name starts with an ASCII lowercase letter.
pub open spec fn starts_lower(name: Seq<char>) -> bool {
    name.len() > 0 && is_lower(name[0])
}

/// Whether a name starts with an ASCII uppercase letter.
pub open spec fn starts_upper(name: Seq<char>) -> bool {
    name.len() > 0 && is_upper(name[0])
}

fn first_char(name: &str) -> (r: Option<char>)
    ensures
        match r {
            Some(c) => name@.len() > 0 && c == name@[0],
            None => name@.len() == 0,
        },
{
    if name.unicode_len() == 0 {
        None
    } else {
        Some(name.get_char(0))
    }
}

/// A value binding name must start with an ASCII lowercase letter.
pub fn valid_value_binding_name(name: &str) -> (r: bool)
    ensures
        r == starts_lower(name@),
{
    match first_char(name) {
        Some(c) => 'a' <= c && c <= 'z',
        None => false,
    }
}

/// The negation of `valid_value_binding_name`.
pub fn invalid_value_binding_name(name: &str) -> (r: bool)
    ensures
        r == !starts_lower(name@),
{
    !valid_value_binding_name(name)
}

/// A function name must start with an ASCII lowercase letter.
pub fn valid_function_name(name: &str) -> (r: bool)
    ensures
        r == starts_lower(name@),
{
    match first_char(name) {
        Some(c) => 'a' <= c && c <= 'z',
        None => false,
    }
}

/// A type name must start with an ASCII uppercase letter.
pub fn valid_type_name(name: &str) -> (r: bool)
    ensures
        r == starts_upper(name@),
{
    match first_char(name) {
        Some(c) => 'A' <= c && c <= 'Z',
        None => false,
    }
}

/// A qualified constructor pattern such as `Shape::circle` whose leaf starts lowercase.
pub open spec fn spec_invalid_qualified_constructor(name: Seq<Seq<char>>) -> bool {
    name.len() > 1 && starts_lower(name.last())
}

/// Whether a qualified constructor path has a lowercase leaf.
pub fn invalid_qualified_constructor_pattern(name: &[String]) -> (r: bool)
    ensures
        r == spec_invalid_qualified_constructor(name.deep_view()),
{
    if name.len() <= 1 {
        return false;
    }
    valid_value_binding_name(name[name.len() - 1].as_str())
}

/// The uppercase form of an ASCII lowercase letter.
pub open spec fn upper_of(c: char) -> char {
    ((c as u32) - 32) as char
}

/// The path with its leaf's first letter raised to uppercase, when that letter is ASCII lowercase.
pub open spec fn spec_initial_uppercase(name: Seq<Seq<char>>) -> Option<Seq<Seq<char>>> {
    if name.len() > 0 && starts_lower(name.last()) {
        let leaf = name.last();
        Some(name.drop_last().push(seq![upper_of(leaf[0])] + leaf.skip(1)))
    } else {
        None
    }
}

fn upper_ascii(c: char) -> (r: char)
    requires
        is_lower(c),
    ensures
        r == upper_of(c),
{
    let code = c as u8;
    let up = code - 32;
    let r = up as char;
    assert(r == upper_of(c)) by {
        assert(c as u32 == code as u32);
    }
    r
}

/// Recovers `Shape::Circle` from `Shape::circle`: the leaf's first letter, when ASCII
/// lowercase, is raised to uppercase.
pub fn initial_uppercase_qualified_constructor_name(name: &[String]) -> (r: Option<Vec<String>>)
    ensures
        match r {
            Some(v) => spec_initial_uppercase(name.deep_view()) == Some(v.deep_view()),
            None => spec_initial_uppercase(name.deep_view()) is None,
        },
{
    if name.len() == 0 {
        return None;
    }
    let last = name.len() - 1;
    let leaf = chars_of(name[last].as_str());
    if leaf.len() == 0 || !('a' <= leaf[0] && leaf[0] <= 'z') {
        return None;
    }
    let mut recovered: Vec<String> = Vec::new();
    let mut i: usize = 0;
    while i < last
        invariant
            0 <= i <= last,
            last == name@.len() - 1,
            recovered.deep_view() == name.deep_view().take(i as int),
        decreases last - i,
    {
        recovered.push(name[i].clone());
        assert(recovered.deep_view() =~= name.deep_view().take(i + 1));
        i += 1;
    }
    let mut new_leaf = String::new();
    push_char(&mut new_leaf, upper_ascii(leaf[0]));
    let mut k: usize = 1;
    while k < leaf.len()
        invariant
            1 <= k <= leaf@.len(),
            new_leaf@ == seq![upper_of(leaf@[0])] + leaf@.subrange(1, k as int),
        decreases leaf.len() - k,
    {
        push_char(&mut new_leaf, leaf[k]);
        assert(new_leaf@ =~= seq![upper_of(leaf@[0])] + leaf@.subrange(1, k + 1));
        k += 1;
    }
    recovered.push(new_leaf);
    proof {
        let nv = name.deep_view();
        assert(nv.drop_last() =~= nv.take(last as int));
        assert(leaf@.subrange(1, leaf@.len() as int) =~= nv.last().skip(1));
        assert(recovered.deep_view() =~= nv.drop_last().push(seq![upper_of(nv.last()[0])] + nv.last().skip(1)));
    }
    Some(recovered)
}

/// The row variable named by an effect such as `...e`, without the dots.
pub fn effect_row_name(effect: &str) -> (r: Option<String>)
    ensures
        match r {
            Some(row) => crate::text::has_prefix(effect@, "..."@) && row@ == effect@.skip(3),
            None => !crate::text::has_prefix(effect@, "..."@),
        },
{
    proof {
        reveal_strlit("...");
    }
    strip_prefix(effect, "...")
}

} // verus!
