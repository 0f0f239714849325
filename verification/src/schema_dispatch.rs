use vstd::prelude::*;

use crate::diag::{Diagnostic, DiagnosticKind, NodeId, Severity, jsons, node_display, span_json, span_json_view};
use crate::json::{ArrayBuilder, JsonV, JsonValue, ObjectBuilder, json_object, json_str, json_string, object_view};
use crate::schema::{SchemaDecl, SchemaField, schema_display_name};
use crate::semantic::diag_is;
use crate::text::{str_eq, string_of};

verus! {

/// Which generated helpers a dispatch payload schema exposes.
#[derive(Clone, Copy, PartialEq, Eq, Structural)]
pub struct SchemaHelperAvailability {
    pub decode: bool,
    pub encode: bool,
}

/// The payload a dispatch case carries.
pub enum SchemaDispatchCasePayload {
    Primitive { name: String },
    ReservedBits { width: i64, value: i64 },
    Schema { schema_name: String },
}

/// A field of a nested payload schema that keeps the generated helpers from handling it.
pub struct UnsupportedDispatchPayloadHelperField<'a> {
    pub schema_name: String,
    pub field: &'a SchemaField,
    pub field_path_display: String,
    pub layout_fact: String,
    pub reason: &'static str,
}

/// What keeps a dispatch payload's helpers from being generated.
pub enum UnsupportedDispatchPayloadHelperBlocker<'a> {
    Field(UnsupportedDispatchPayloadHelperField<'a>),
}

/// The model of a list of object members.
pub open spec fn members_view(v: Seq<(String, JsonValue)>) -> Seq<(Seq<char>, JsonV)> {
    Seq::new(v.len(), |i: int| (v[i].0@, v[i].1@))
}

/// A `{kind, name}` path step.
pub open spec fn path_step(kind: Seq<char>, name: Seq<char>) -> JsonV {
    JsonV::Object(seq![("kind"@, JsonV::Str(kind)), ("name"@, JsonV::Str(name))])
}

/// The path from a schema to one of its fields.
pub open spec fn field_path_view(schema_name: Seq<char>, field_name: Seq<char>) -> JsonV {
    JsonV::Array(seq![path_step("schema"@, schema_name), path_step("field"@, field_name)])
}

fn path_step_json(kind: &str, name: String) -> (r: JsonValue)
    ensures
        r@ == path_step(kind@, name@),
{
    let ghost n = name@;
    let mut b = ObjectBuilder::new();
    b.push_str("kind", kind);
    b.push_string("name", name);
    let r = b.finish();
    assert(r@->Object_0 =~= path_step(kind@, n)->Object_0);
    r
}

fn field_path_json(schema_name: String, field_name: String) -> (r: JsonValue)
    ensures
        r@ == field_path_view(schema_name@, field_name@),
{
    let ghost s = schema_name@;
    let ghost f = field_name@;
    let mut a = ArrayBuilder::new();
    a.push(path_step_json("schema", schema_name));
    a.push(path_step_json("field", field_name));
    let r = a.finish();
    assert(r@->Array_0 =~= field_path_view(s, f)->Array_0);
    r
}

/// The path from a dispatch field's schema to the field.
pub fn schema_dispatch_field_path(schema: &SchemaDecl, field: &SchemaField) -> (r: JsonValue)
    ensures
        r@ == field_path_view(schema_display_name(schema.name), field.name@),
{
    field_path_json(schema.display_name(), field.name.clone())
}

/// The members every dispatch diagnostic's details start with.
pub open spec fn dispatch_details_view(schema: SchemaDecl, field: SchemaField, reason: Seq<char>) -> Seq<(Seq<char>, JsonV)> {
    seq![
        ("phase"@, JsonV::Str("schema"@)),
        ("node_id"@, JsonV::Str(node_display(field.node_id.index, "schema-field"@))),
        ("schema"@, JsonV::Str(schema_display_name(schema.name))),
        ("field"@, JsonV::Str(field.name@)),
        ("field_path"@, field_path_view(schema_display_name(schema.name), field.name@)),
        ("reason"@, JsonV::Str(reason)),
    ]
}

/// The members every dispatch diagnostic's details start with.
pub fn schema_dispatch_details(schema: &SchemaDecl, field: &SchemaField, reason: &str) -> (r: Vec<(String, JsonValue)>)
    ensures
        members_view(r@) == dispatch_details_view(*schema, *field, reason@),
{
    let mut v: Vec<(String, JsonValue)> = Vec::new();
    v.push((string_of("phase"), json_str("schema")));
    v.push((string_of("node_id"), json_string(field.node_id.display("schema-field"))));
    v.push((string_of("schema"), json_string(schema.display_name())));
    v.push((string_of("field"), json_string(field.name.clone())));
    v.push((string_of("field_path"), schema_dispatch_field_path(schema, field)));
    v.push((string_of("reason"), json_str(reason)));
    assert(members_view(v@) =~= dispatch_details_view(*schema, *field, reason@));
    v
}

/// The directions, decode then encode, whose helpers a payload schema does not expose.
pub open spec fn unavailable_directions(a: SchemaHelperAvailability) -> Seq<JsonV> {
    let d: Seq<JsonV> = if a.decode { Seq::empty() } else { seq![JsonV::Str("decode"@)] };
    if a.encode { d } else { d.push(JsonV::Str("encode"@)) }
}

/// The directions whose helpers a payload schema does not expose.
pub fn dispatch_payload_unavailable_helper_directions(helper_availability: SchemaHelperAvailability) -> (r: Vec<JsonValue>)
    ensures
        Seq::new(r@.len(), |i: int| r@[i]@) == unavailable_directions(helper_availability),
{
    let mut directions: Vec<JsonValue> = Vec::new();
    if !helper_availability.decode {
        directions.push(json_str("decode"));
    }
    if !helper_availability.encode {
        directions.push(json_str("encode"));
    }
    assert(Seq::new(directions@.len(), |i: int| directions@[i]@) =~= unavailable_directions(helper_availability));
    directions
}

/// An object's members with one more member at the end; anything else unchanged.
pub open spec fn with_member(details: JsonV, name: Seq<char>, value: JsonV) -> JsonV {
    match details {
        JsonV::Object(fields) => JsonV::Object(fields.push((name, value))),
        _ => details,
    }
}

/// Adds to dispatch details the directions whose helpers are unavailable.
pub fn add_dispatch_payload_helper_unavailable_details(details: JsonValue, helper_availability: SchemaHelperAvailability) -> (r: JsonValue)
    ensures
        r@ == with_member(details@, "unavailable_helper_directions"@, JsonV::Array(unavailable_directions(helper_availability))),
{
    match details {
        JsonValue::Object(mut fields) => {
            let ghost before = fields@;
            proof { crate::json::lemma_object_view(fields); }
            let directions = dispatch_payload_unavailable_helper_directions(helper_availability);
            let array = crate::json::json_array(directions);
            fields.push((string_of("unavailable_helper_directions"), array));
            let r = json_object(fields);
            proof {
                assert(object_view(fields@)->Object_0 =~= object_view(before)->Object_0.push(("unavailable_helper_directions"@, JsonV::Array(unavailable_directions(helper_availability)))));
            }
            r
        },
        other => other,
    }
}

/// The path from a nested payload schema to the field that blocks its helpers.
pub fn dispatch_payload_unsupported_field_path(unsupported: &UnsupportedDispatchPayloadHelperField) -> (r: JsonValue)
    ensures
        r@ == field_path_view(unsupported.schema_name@, unsupported.field.name@),
{
    field_path_json(unsupported.schema_name.clone(), unsupported.field.name.clone())
}

/// The members describing a nested field that blocks the generated helpers.
pub open spec fn unsupported_field_members(u: UnsupportedDispatchPayloadHelperField) -> Seq<(Seq<char>, JsonV)> {
    seq![
        ("unsupported_nested_schema"@, JsonV::Str(u.schema_name@)),
        ("unsupported_nested_field"@, JsonV::Str(u.field.name@)),
        ("unsupported_nested_field_path"@, field_path_view(u.schema_name@, u.field.name@)),
        ("unsupported_nested_layout_reason"@, JsonV::Str(u.reason@)),
        ("unsupported_nested_layout_fact"@, JsonV::Str(u.layout_fact@)),
    ]
}

/// An object's members with more members at the end; anything else unchanged.
pub open spec fn with_members(details: JsonV, more: Seq<(Seq<char>, JsonV)>) -> JsonV {
    match details {
        JsonV::Object(fields) => JsonV::Object(fields + more),
        _ => details,
    }
}

/// Adds to dispatch details what blocks a nested field's helpers.
pub fn add_dispatch_payload_unsupported_field_details(details: JsonValue, unsupported: &UnsupportedDispatchPayloadHelperField) -> (r: JsonValue)
    ensures
        r@ == with_members(details@, unsupported_field_members(*unsupported)),
{
    match details {
        JsonValue::Object(mut fields) => {
            let ghost before = fields@;
            proof { crate::json::lemma_object_view(fields); }
            fields.push((string_of("unsupported_nested_schema"), json_string(unsupported.schema_name.clone())));
            fields.push((string_of("unsupported_nested_field"), json_string(unsupported.field.name.clone())));
            fields.push((string_of("unsupported_nested_field_path"), dispatch_payload_unsupported_field_path(unsupported)));
            fields.push((string_of("unsupported_nested_layout_reason"), json_str(unsupported.reason)));
            fields.push((string_of("unsupported_nested_layout_fact"), json_string(unsupported.layout_fact.clone())));
            let r = json_object(fields);
            proof {
                assert(object_view(fields@)->Object_0 =~= object_view(before)->Object_0 + unsupported_field_members(*unsupported));
            }
            r
        },
        other => other,
    }
}

/// Adds to dispatch details what blocks the payload's helpers.
pub fn add_dispatch_payload_unsupported_blocker_details(details: JsonValue, unsupported: &UnsupportedDispatchPayloadHelperBlocker) -> (r: JsonValue)
    ensures
        match unsupported {
            UnsupportedDispatchPayloadHelperBlocker::Field(f) => r@ == with_members(details@, unsupported_field_members(*f)),
        },
{
    match unsupported {
        UnsupportedDispatchPayloadHelperBlocker::Field(field) => add_dispatch_payload_unsupported_field_details(details, field),
    }
}

/// `s` without the `.` characters at its end.
pub open spec fn trim_trailing_dots(s: Seq<char>) -> Seq<char>
    decreases s.len(),
{
    if s.len() > 0 && s.last() == '.' {
        trim_trailing_dots(s.drop_last())
    } else {
        s
    }
}

/// `s` without the `.` characters at its end.
pub fn trim_end_dots(s: &str) -> (r: String)
    ensures
        r@ == trim_trailing_dots(s@),
{
    let chars = crate::text::chars_of(s);
    let mut n = chars.len();
    assert(s@.take(n as int) =~= s@);
    while n > 0 && chars[n - 1] == '.'
        invariant
            n <= s@.len(),
            chars@ == s@,
            trim_trailing_dots(s@) == trim_trailing_dots(s@.take(n as int)),
        decreases n,
    {
        assert(s@.take(n as int).drop_last() =~= s@.take(n - 1));
        n -= 1;
    }
    let mut out = String::new();
    let mut i: usize = 0;
    while i < n
        invariant
            i <= n,
            n <= s@.len(),
            chars@ == s@,
            out@ == s@.take(i as int),
        decreases n - i,
    {
        crate::text::push_char(&mut out, chars[i]);
        assert(s@.take(i + 1) =~= s@.take(i as int).push(chars@[i as int]));
        i += 1;
    }
    out
}

/// The note on a nested field that blocks the generated helpers.
pub open spec fn unsupported_field_related_view(u: UnsupportedDispatchPayloadHelperField) -> JsonV {
    JsonV::Object(seq![
        ("kind"@, JsonV::Str("unsupported_nested_field"@)),
        ("span"@, span_json_view(u.field.span@)),
        ("field_path"@, field_path_view(u.schema_name@, u.field.name@)),
        ("message"@, JsonV::Str("Nested dispatch payload field `"@ + u.field_path_display@
            + "` prevents generated decode and encode helpers: "@ + trim_trailing_dots(u.layout_fact@) + "."@)),
    ])
}

/// The note on a nested field that blocks the generated helpers.
pub fn dispatch_payload_unsupported_field_related(unsupported: &UnsupportedDispatchPayloadHelperField) -> (r: JsonValue)
    ensures
        r@ == unsupported_field_related_view(*unsupported),
{
    let layout_fact = trim_end_dots(unsupported.layout_fact.as_str());
    let mut message = string_of("Nested dispatch payload field `");
    message.append(unsupported.field_path_display.as_str());
    message.append("` prevents generated decode and encode helpers: ");
    message.append(layout_fact.as_str());
    message.append(".");
    let mut b = ObjectBuilder::new();
    b.push_str("kind", "unsupported_nested_field");
    b.push("span", span_json(&unsupported.field.span));
    b.push("field_path", dispatch_payload_unsupported_field_path(unsupported));
    b.push_string("message", message);
    let r = b.finish();
    assert(r@->Object_0 =~= unsupported_field_related_view(*unsupported)->Object_0);
    r
}

/// The note on what blocks the payload's helpers.
pub fn dispatch_payload_unsupported_blocker_related(unsupported: &UnsupportedDispatchPayloadHelperBlocker) -> (r: JsonValue)
    ensures
        match unsupported {
            UnsupportedDispatchPayloadHelperBlocker::Field(f) => r@ == unsupported_field_related_view(*f),
        },
{
    match unsupported {
        UnsupportedDispatchPayloadHelperBlocker::Field(field) => dispatch_payload_unsupported_field_related(field),
    }
}

/// The name a dispatch case's payload is reported under.
pub fn schema_dispatch_case_payload_name(payload: &SchemaDispatchCasePayload) -> (r: &str)
    ensures
        r@ == match payload {
            SchemaDispatchCasePayload::Primitive { .. } => "<primitive>"@,
            SchemaDispatchCasePayload::ReservedBits { .. } => "<reserved>"@,
            SchemaDispatchCasePayload::Schema { schema_name } => schema_name@,
        },
{
    proof {
        reveal_strlit("<primitive>");
        reveal_strlit("<reserved>");
    }
    match payload {
        SchemaDispatchCasePayload::Primitive { .. } => "<primitive>",
        SchemaDispatchCasePayload::ReservedBits { .. } => "<reserved>",
        SchemaDispatchCasePayload::Schema { schema_name } => schema_name.as_str(),
    }
}

/// The message on a payload schema's declaration, saying which helper it lacks.
pub open spec fn declaration_message(schema: Seq<char>, decode: Seq<char>, encode: Seq<char>, a: SchemaHelperAvailability) -> Seq<char> {
    if !a.decode {
        "Schema `"@ + schema + "` is declared here and does not expose the generated `"@ + decode
            + "` helper required for dispatch payload decoding."@
    } else if !a.encode {
        "Schema `"@ + schema + "` is declared here and does not expose the generated `"@ + encode
            + "` helper required for dispatch payload encoding."@
    } else {
        "Schema `"@ + schema + "` is declared here and exposes the generated dispatch payload helpers."@
    }
}

/// The message on a payload schema's declaration, saying which helper it lacks.
pub fn dispatch_payload_schema_declaration_message(payload_schema_name: &str, decode_helper: &str, encode_helper: &str,
    helper_availability: SchemaHelperAvailability) -> (r: String)
    ensures
        r@ == declaration_message(payload_schema_name@, decode_helper@, encode_helper@, helper_availability),
{
    let mut m = string_of("Schema `");
    m.append(payload_schema_name);
    if !helper_availability.decode {
        m.append("` is declared here and does not expose the generated `");
        m.append(decode_helper);
        m.append("` helper required for dispatch payload decoding.");
    } else if !helper_availability.encode {
        m.append("` is declared here and does not expose the generated `");
        m.append(encode_helper);
        m.append("` helper required for dispatch payload encoding.");
    } else {
        m.append("` is declared here and exposes the generated dispatch payload helpers.");
    }
    m
}

/// The message on the helper boundary, naming the helpers a payload schema must expose.
pub open spec fn boundary_message(decode: Seq<char>, encode: Seq<char>, a: SchemaHelperAvailability) -> Seq<char> {
    if a.decode == a.encode {
        "Dispatch payload schemas must expose generated decode helpers before parent decode helpers can use them, and generated encode helpers before parent encode helpers can use them; expected `"@
            + decode + "` and `"@ + encode + "`."@
    } else if !a.decode {
        "Dispatch payload schemas must expose generated decode helpers before parent decode helpers can use them; expected `"@
            + decode + "`."@
    } else {
        "Dispatch payload schemas must expose generated encode helpers before parent encode helpers can use them; expected `"@
            + encode + "`."@
    }
}

/// The message on the helper boundary, naming the helpers a payload schema must expose.
pub fn dispatch_payload_helper_boundary_message(decode_helper: &str, encode_helper: &str, helper_availability: SchemaHelperAvailability) -> (r: String)
    ensures
        r@ == boundary_message(decode_helper@, encode_helper@, helper_availability),
{
    let mut m = String::new();
    if helper_availability.decode == helper_availability.encode {
        m.append("Dispatch payload schemas must expose generated decode helpers before parent decode helpers can use them, and generated encode helpers before parent encode helpers can use them; expected `");
        m.append(decode_helper);
        m.append("` and `");
        m.append(encode_helper);
        m.append("`.");
    } else if !helper_availability.decode {
        m.append("Dispatch payload schemas must expose generated decode helpers before parent decode helpers can use them; expected `");
        m.append(decode_helper);
        m.append("`.");
    } else {
        m.append("Dispatch payload schemas must expose generated encode helpers before parent encode helpers can use them; expected `");
        m.append(encode_helper);
        m.append("`.");
    }
    proof {
        let e: Seq<char> = Seq::empty();
        assert(e + "Dispatch payload schemas must expose generated decode helpers before parent decode helpers can use them, and generated encode helpers before parent encode helpers can use them; expected `"@
            =~= "Dispatch payload schemas must expose generated decode helpers before parent decode helpers can use them, and generated encode helpers before parent encode helpers can use them; expected `"@);
        assert(e + "Dispatch payload schemas must expose generated decode helpers before parent decode helpers can use them; expected `"@
            =~= "Dispatch payload schemas must expose generated decode helpers before parent decode helpers can use them; expected `"@);
        assert(e + "Dispatch payload schemas must expose generated encode helpers before parent encode helpers can use them; expected `"@
            =~= "Dispatch payload schemas must expose generated encode helpers before parent encode helpers can use them; expected `"@);
    }
    m
}

/// The part of `reference` before its first `.`.
pub open spec fn reference_head(r: Seq<char>) -> Seq<char>
    decreases r.len(),
{
    if r.len() == 0 || r[0] == '.' {
        Seq::empty()
    } else {
        seq![r[0]] + reference_head(r.drop_first())
    }
}

/// The position of the first field with the given node id.
pub open spec fn field_index_by_node(fs: Seq<SchemaField>, id: NodeId) -> Option<int> {
    if exists|i: int| 0 <= i < fs.len() && (#[trigger] fs[i]).node_id == id {
        Some(choose|i: int| 0 <= i < fs.len() && (#[trigger] fs[i]).node_id == id && forall|j: int| 0 <= j < i ==> (#[trigger] fs[j]).node_id != id)
    } else {
        None
    }
}

/// The position of the first field with the given name.
pub open spec fn field_index_by_name(fs: Seq<SchemaField>, name: Seq<char>) -> Option<int> {
    if exists|i: int| 0 <= i < fs.len() && (#[trigger] fs[i]).name@ == name {
        Some(choose|i: int| 0 <= i < fs.len() && (#[trigger] fs[i]).name@ == name && forall|j: int| 0 <= j < i ==> (#[trigger] fs[j]).name@ != name)
    } else {
        None
    }
}

/// The part of a reference before its first `.`.
pub fn reference_head_of(reference: &str) -> (r: String)
    ensures
        r@ == reference_head(reference@),
{
    let chars = crate::text::chars_of(reference);
    let mut out = String::new();
    let mut i: usize = 0;
    assert(reference@.skip(0) =~= reference@);
    assert(out@ + reference_head(reference@.skip(0)) =~= reference_head(reference@));
    while i < chars.len() && chars[i] != '.'
        invariant
            i <= chars@.len(),
            chars@ == reference@,
            reference_head(reference@) == out@ + reference_head(reference@.skip(i as int)),
        decreases chars.len() - i,
    {
        assert(reference@.skip(i as int).drop_first() =~= reference@.skip(i + 1));
        crate::text::push_char(&mut out, chars[i]);
        assert(out@ + reference_head(reference@.skip(i + 1)) =~= out@.drop_last() + (seq![chars@[i as int]] + reference_head(reference@.skip(i + 1))));
        i += 1;
    }
    assert(reference@.skip(0) =~= reference@);
    out
}

/// The position of the first field with the given node id.
pub fn field_position_by_node(fs: &Vec<SchemaField>, id: NodeId) -> (r: Option<usize>)
    ensures
        match r {
            Some(k) => field_index_by_node(fs@, id) == Some(k as int),
            None => field_index_by_node(fs@, id) is None,
        },
{
    let mut i: usize = 0;
    while i < fs.len()
        invariant
            0 <= i <= fs@.len(),
            forall|j: int| 0 <= j < i ==> (#[trigger] fs@[j]).node_id != id,
        decreases fs.len() - i,
    {
        if fs[i].node_id == id {
            proof {
                assert(fs@[i as int].node_id == id);
                let k = choose|k: int| 0 <= k < fs@.len() && (#[trigger] fs@[k]).node_id == id && forall|j: int| 0 <= j < k ==> (#[trigger] fs@[j]).node_id != id;
                if k < i { assert(fs@[k].node_id != id); }
                if i < k { assert(fs@[i as int].node_id != id); }
            }
            return Some(i);
        }
        i += 1;
    }
    None
}

/// The position of the first field with the given name.
pub fn field_position_by_name(fs: &Vec<SchemaField>, name: &str) -> (r: Option<usize>)
    ensures
        match r {
            Some(k) => field_index_by_name(fs@, name@) == Some(k as int),
            None => field_index_by_name(fs@, name@) is None,
        },
{
    let mut i: usize = 0;
    while i < fs.len()
        invariant
            0 <= i <= fs@.len(),
            forall|j: int| 0 <= j < i ==> (#[trigger] fs@[j]).name@ != name@,
        decreases fs.len() - i,
    {
        if str_eq(fs[i].name.as_str(), name) {
            proof {
                assert(fs@[i as int].name@ == name@);
                let k = choose|k: int| 0 <= k < fs@.len() && (#[trigger] fs@[k]).name@ == name@ && forall|j: int| 0 <= j < k ==> (#[trigger] fs@[j]).name@ != name@;
                if k < i { assert(fs@[k].name@ != name@); }
                if i < k { assert(fs@[i as int].name@ != name@); }
            }
            return Some(i);
        }
        i += 1;
    }
    None
}

/// Whether the field that `reference` names is declared after `field`.
pub fn schema_field_declared_after(schema: &SchemaDecl, field: &SchemaField, reference: &str) -> (r: bool)
    ensures
        r == (field_index_by_node(schema.fields@, field.node_id) matches Some(current)
            && field_index_by_name(schema.fields@, reference_head(reference@)) matches Some(named)
            && named > current),
{
    let head = reference_head_of(reference);
    let current = field_position_by_node(&schema.fields, field.node_id);
    let named = field_position_by_name(&schema.fields, head.as_str());
    match (current, named) {
        (Some(c), Some(n)) => n > c,
        _ => false,
    }
}

/// Dispatch details followed by more members.
fn dispatch_diagnostic_details(schema: &SchemaDecl, field: &SchemaField, reason: &str, mut more: Vec<(String, JsonValue)>) -> (r: JsonValue)
    ensures
        r@ == JsonV::Object(dispatch_details_view(*schema, *field, reason@) + members_view(more@)),
{
    let mut fields = schema_dispatch_details(schema, field, reason);
    let ghost a = fields@;
    let ghost b = more@;
    fields.append(&mut more);
    let r = json_object(fields);
    assert(object_view(fields@)->Object_0 =~= members_view(a) + members_view(b));
    r
}

/// A dispatch diagnostic about a field reference.
pub fn schema_dispatch_reference_diagnostic(schema: &SchemaDecl, field: &SchemaField, reference: &str, role: &str, reason: &str,
    message: String, extra: Vec<(String, JsonValue)>) -> (r: Diagnostic)
    ensures
        diag_is(r, "schema.dispatch_reference"@, DiagnosticKind::Name, message@, Some(field.span@),
            JsonV::Object(dispatch_details_view(*schema, *field, reason@)
                + seq![("role"@, JsonV::Str(role@)), ("reference"@, JsonV::Str(reference@))] + members_view(extra@)),
            Seq::empty()),
{
    let mut more: Vec<(String, JsonValue)> = Vec::new();
    more.push((string_of("role"), json_str(role)));
    more.push((string_of("reference"), json_str(reference)));
    let ghost m = more@;
    let ghost e = extra@;
    let mut extra = extra;
    more.append(&mut extra);
    assert(members_view(more@) =~= seq![("role"@, JsonV::Str(role@)), ("reference"@, JsonV::Str(reference@))] + members_view(e));
    let details = dispatch_diagnostic_details(schema, field, reason, more);
    let d = Diagnostic::new("schema.dispatch_reference", Severity::Error, DiagnosticKind::Name, message, Some(field.span.copy()), details);
    proof {
        assert(dispatch_details_view(*schema, *field, reason@) + (seq![("role"@, JsonV::Str(role@)), ("reference"@, JsonV::Str(reference@))] + members_view(e))
            =~= dispatch_details_view(*schema, *field, reason@) + seq![("role"@, JsonV::Str(role@)), ("reference"@, JsonV::Str(reference@))] + members_view(e));
        assert(jsons(d.related@) =~= Seq::<JsonV>::empty());
    }
    d
}

/// A dispatch diagnostic about a case's payload.
pub fn schema_dispatch_payload_diagnostic(schema: &SchemaDecl, field: &SchemaField, tag: i64, payload_name: &str, reason: &str,
    message: String, extra: Vec<(String, JsonValue)>) -> (r: Diagnostic)
    ensures
        diag_is(r, "schema.dispatch_payload"@, DiagnosticKind::Type, message@, Some(field.span@),
            JsonV::Object(dispatch_details_view(*schema, *field, reason@)
                + seq![("case_tag"@, JsonV::Number(tag as int)), ("payload"@, JsonV::Str(payload_name@))] + members_view(extra@)),
            Seq::empty()),
{
    let mut more: Vec<(String, JsonValue)> = Vec::new();
    more.push((string_of("case_tag"), JsonValue::Number(tag)));
    more.push((string_of("payload"), json_str(payload_name)));
    let ghost e = extra@;
    let mut extra = extra;
    more.append(&mut extra);
    assert(members_view(more@) =~= seq![("case_tag"@, JsonV::Number(tag as int)), ("payload"@, JsonV::Str(payload_name@))] + members_view(e));
    let details = dispatch_diagnostic_details(schema, field, reason, more);
    let d = Diagnostic::new("schema.dispatch_payload", Severity::Error, DiagnosticKind::Type, message, Some(field.span.copy()), details);
    proof {
        assert(dispatch_details_view(*schema, *field, reason@) + (seq![("case_tag"@, JsonV::Number(tag as int)), ("payload"@, JsonV::Str(payload_name@))] + members_view(e))
            =~= dispatch_details_view(*schema, *field, reason@) + seq![("case_tag"@, JsonV::Number(tag as int)), ("payload"@, JsonV::Str(payload_name@))] + members_view(e));
        assert(jsons(d.related@) =~= Seq::<JsonV>::empty());
    }
    d
}

} // verus!
