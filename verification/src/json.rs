use vstd::prelude::*;

use crate::text::str_eq;

verus! {

/// A JSON value as carried in diagnostic details.
pub enum JsonValue {
    Null,
    Bool(bool),
    Number(i64),
    String(String),
    Array(Vec<JsonValue>),
    Object(Vec<(String, JsonValue)>),
}

/// The mathematical model of a JSON value: strings are character sequences.
pub enum JsonV {
    Null,
    Bool(bool),
    Number(int),
    Str(Seq<char>),
    Array(Seq<JsonV>),
    Object(Seq<(Seq<char>, JsonV)>),
}

pub open spec fn json_view(j: JsonValue) -> JsonV
    decreases j,
{
    match j {
        JsonValue::Null => JsonV::Null,
        JsonValue::Bool(b) => JsonV::Bool(b),
        JsonValue::Number(n) => JsonV::Number(n as int),
        JsonValue::String(s) => JsonV::Str(s@),
        JsonValue::Array(items) => {
            proof {
                assert(decreases_to!(items => items@));
            }
            JsonV::Array(
                Seq::new(
                    items@.len(),
                    |i: int|
                        if 0 <= i < items@.len() {
                            proof {
                                assert(decreases_to!(items@ => items@[i]));
                            }
                            json_view(items@[i])
                        } else {
                            JsonV::Null
                        },
                ),
            )
        },
        JsonValue::Object(entries) => {
            proof {
                assert(decreases_to!(entries => entries@));
            }
            JsonV::Object(
                Seq::new(
                    entries@.len(),
                    |i: int|
                        if 0 <= i < entries@.len() {
                            proof {
                                assert(decreases_to!(entries@ => entries@[i]));
                                assert(decreases_to!(entries@[i] => entries@[i].1));
                            }
                            (entries@[i].0@, json_view(entries@[i].1))
                        } else {
                            (Seq::empty(), JsonV::Null)
                        },
                ),
            )
        },
    }
}

impl View for JsonValue {
    type V = JsonV;

    open spec fn view(&self) -> JsonV {
        json_view(*self)
    }
}

} // verus!

verus! {

/// Builds a JSON string from a string slice.
pub fn json_str(s: &str) -> (r: JsonValue)
    ensures
        r@ == JsonV::Str(s@),
{
    JsonValue::String(s.to_string())
}

/// Builds a JSON string that takes ownership of `s`.
pub fn json_string(s: String) -> (r: JsonValue)
    ensures
        r@ == JsonV::Str(s@),
{
    JsonValue::String(s)
}

/// One named member of a JSON object.
pub fn json_member(name: &str, value: JsonValue) -> (r: (String, JsonValue))
    ensures
        r.0@ == name@,
        r.1@ == value@,
{
    (name.to_string(), value)
}

/// The model of an object built from `entries`.
pub open spec fn object_view(entries: Seq<(String, JsonValue)>) -> JsonV {
    JsonV::Object(Seq::new(entries.len(), |i: int| (entries[i].0@, entries[i].1@)))
}

/// The model of an array built from `items`.
pub open spec fn array_view(items: Seq<JsonValue>) -> JsonV {
    JsonV::Array(Seq::new(items.len(), |i: int| items[i]@))
}

/// The model of an object value is the model of its members.
pub proof fn lemma_object_view(entries: Vec<(String, JsonValue)>)
    ensures
        JsonValue::Object(entries)@ == object_view(entries@),
{
    let a = JsonValue::Object(entries)@->Object_0;
    let b = object_view(entries@)->Object_0;
    assert(a =~= b);
}

/// The model of an array value is the model of its items.
pub proof fn lemma_array_view(items: Vec<JsonValue>)
    ensures
        JsonValue::Array(items)@ == array_view(items@),
{
    let a = JsonValue::Array(items)@->Array_0;
    let b = array_view(items@)->Array_0;
    assert(a =~= b);
}

/// Builds a JSON object from its members, in order.
pub fn json_object(entries: Vec<(String, JsonValue)>) -> (r: JsonValue)
    ensures
        r@ == object_view(entries@),
{
    proof {
        lemma_object_view(entries);
    }
    JsonValue::Object(entries)
}

/// Builds a JSON array from its items, in order.
pub fn json_array(items: Vec<JsonValue>) -> (r: JsonValue)
    ensures
        r@ == array_view(items@),
{
    proof {
        lemma_array_view(items);
    }
    JsonValue::Array(items)
}

/// Whether a JSON object has a member `field` whose value is the string `expected`.
pub open spec fn spec_json_string_field_is(value: JsonV, field: Seq<char>, expected: Seq<char>) -> bool {
    match value {
        JsonV::Object(entries) => exists|i: int|
            0 <= i < entries.len() && #[trigger] entries[i].0 == field && entries[i].1 == JsonV::Str(expected),
        _ => false,
    }
}

/// Tells whether `value` is an object holding the string member `field == expected`.
pub fn json_string_field_is(value: &JsonValue, field: &str, expected: &str) -> (r: bool)
    ensures
        r == spec_json_string_field_is(value@, field@, expected@),
{
    match value {
        JsonValue::Object(entries) => {
            proof {
                lemma_object_view(*entries);
            }
            let mut i: usize = 0;
            while i < entries.len()
                invariant
                    0 <= i <= entries.len(),
                    value@ == object_view(entries@),
                    forall|j: int| 0 <= j < i ==> !(#[trigger] entries@[j].0@ == field@ && entries@[j].1@ == JsonV::Str(expected@)),
                decreases entries.len() - i,
            {
                let name_matches = str_eq(entries[i].0.as_str(), field);
                if name_matches {
                    match &entries[i].1 {
                        JsonValue::String(actual) => {
                            if str_eq(actual.as_str(), expected) {
                                assert(object_view(entries@)->Object_0[i as int].0 == field@);
                                return true;
                            }
                        },
                        _ => {},
                    }
                }
                i += 1;
            }
            proof {
                if spec_json_string_field_is(value@, field@, expected@) {
                    let es = object_view(entries@)->Object_0;
                    let k = choose|k: int| 0 <= k < es.len() && #[trigger] es[k].0 == field@ && es[k].1 == JsonV::Str(expected@);
                    assert(entries@[k].0@ == field@);
                }
            }
            false
        },
        _ => false,
    }
}

} // verus!

verus! {

/// A JSON object under construction; its model is the sequence of members pushed so far.
pub struct ObjectBuilder {
    entries: Vec<(String, JsonValue)>,
    model: Ghost<Seq<(Seq<char>, JsonV)>>,
}

impl ObjectBuilder {
    /// The members pushed so far, as models.
    pub closed spec fn members(&self) -> Seq<(Seq<char>, JsonV)> {
        self.model@
    }

    pub closed spec fn wf(&self) -> bool {
        self.model@ == Seq::new(self.entries@.len(), |i: int| (self.entries@[i].0@, self.entries@[i].1@))
    }

    /// An empty object.
    pub fn new() -> (r: ObjectBuilder)
        ensures
            r.wf(),
            r.members() == Seq::<(Seq<char>, JsonV)>::empty(),
    {
        let r = ObjectBuilder { entries: Vec::new(), model: Ghost(Seq::empty()) };
        assert(r.model@ =~= Seq::new(r.entries@.len(), |i: int| (r.entries@[i].0@, r.entries@[i].1@)));
        r
    }

    /// Appends the member `name: value`.
    pub fn push(&mut self, name: &str, value: JsonValue)
        requires
            old(self).wf(),
        ensures
            final(self).wf(),
            final(self).members() == old(self).members().push((name@, value@)),
    {
        let ghost vm = value@;
        self.entries.push((name.to_string(), value));
        self.model = Ghost(self.model@.push((name@, vm)));
        assert(self.model@ =~= Seq::new(self.entries@.len(), |i: int| (self.entries@[i].0@, self.entries@[i].1@)));
    }

    /// Appends the member `name: "text"`.
    pub fn push_str(&mut self, name: &str, text: &str)
        requires
            old(self).wf(),
        ensures
            final(self).wf(),
            final(self).members() == old(self).members().push((name@, JsonV::Str(text@))),
    {
        self.push(name, json_str(text));
    }

    /// Appends the member `name: text`, taking ownership of `text`.
    pub fn push_string(&mut self, name: &str, text: String)
        requires
            old(self).wf(),
        ensures
            final(self).wf(),
            final(self).members() == old(self).members().push((name@, JsonV::Str(text@))),
    {
        self.push(name, json_string(text));
    }

    /// The finished object.
    pub fn finish(self) -> (r: JsonValue)
        requires
            self.wf(),
        ensures
            r@ == JsonV::Object(self.members()),
    {
        let ghost m = self.model@;
        let r = json_object(self.entries);
        assert(r@->Object_0 =~= m);
        r
    }
}

/// A JSON array under construction; its model is the sequence of items pushed so far.
pub struct ArrayBuilder {
    items: Vec<JsonValue>,
    model: Ghost<Seq<JsonV>>,
}

impl ArrayBuilder {
    /// The items pushed so far, as models.
    pub closed spec fn elements(&self) -> Seq<JsonV> {
        self.model@
    }

    pub closed spec fn wf(&self) -> bool {
        self.model@ == Seq::new(self.items@.len(), |i: int| self.items@[i]@)
    }

    /// An empty array.
    pub fn new() -> (r: ArrayBuilder)
        ensures
            r.wf(),
            r.elements() == Seq::<JsonV>::empty(),
    {
        let r = ArrayBuilder { items: Vec::new(), model: Ghost(Seq::empty()) };
        assert(r.model@ =~= Seq::new(r.items@.len(), |i: int| r.items@[i]@));
        r
    }

    /// Appends one item.
    pub fn push(&mut self, value: JsonValue)
        requires
            old(self).wf(),
        ensures
            final(self).wf(),
            final(self).elements() == old(self).elements().push(value@),
    {
        let ghost vm = value@;
        self.items.push(value);
        self.model = Ghost(self.model@.push(vm));
        assert(self.model@ =~= Seq::new(self.items@.len(), |i: int| self.items@[i]@));
    }

    /// The finished array.
    pub fn finish(self) -> (r: JsonValue)
        requires
            self.wf(),
        ensures
            r@ == JsonV::Array(self.elements()),
    {
        let ghost m = self.model@;
        let r = json_array(self.items);
        assert(r@->Array_0 =~= m);
        r
    }
}

} // verus!
