use vstd::prelude::*;

use crate::diag::{Diagnostic, DiagnosticKind, NodeId, Severity, SourceSpan, SpanV, node_display, opt_span_view};
use crate::json::{JsonV, JsonValue, ObjectBuilder};
use crate::semantic::diag_is;
use crate::text::{str_eq, string_of};

verus! {

/// A field of a schema declaration: its name, the text of its type, node id and span.
pub struct SchemaField {
    pub name: String,
    pub ty: String,
    pub node_id: NodeId,
    pub span: SourceSpan,
}

/// A schema declaration as the checks see it.
pub struct SchemaDecl {
    pub name: Option<String>,
    pub module_name: Option<String>,
    /// The name of the declared `format`, if any (`binary` for binary schemas).
    pub format: Option<String>,
    pub fields: Vec<SchemaField>,
    pub node_id: NodeId,
    pub span: SourceSpan,
}

/// A schema's name as diagnostics print it.
pub open spec fn schema_display_name(name: Option<String>) -> Seq<char> {
    match name {
        Some(n) => n@,
        None => "<missing>"@,
    }
}

impl SchemaDecl {
    /// The schema's name, or `<missing>` when it has none.
    pub fn display_name(&self) -> (r: String)
        ensures
            r@ == schema_display_name(self.name),
    {
        match &self.name {
            Some(n) => n.clone(),
            None => string_of("<missing>"),
        }
    }
}

/// The exact-width binary integer primitives that only `format binary` schema fields accept.
pub open spec fn exact_width_primitives() -> Seq<Seq<char>> {
    seq![
        "UInt1"@, "UInt2"@, "UInt3"@, "UInt4"@, "UInt5"@, "UInt6"@, "UInt7"@, "UInt8"@,
        "UInt16be"@, "UInt16le"@, "UInt24be"@, "UInt24le"@, "UInt31be"@, "UInt31le"@,
        "UInt32be"@, "UInt32le"@, "UInt40be"@, "UInt40le"@, "UInt48be"@, "UInt48le"@,
        "UInt56be"@, "UInt56le"@, "UInt64be"@, "UInt64le"@,
    ]
}

/// The exact-width primitive `name` is, if it is one.
pub fn exact_width_binary_primitive_name(name: &str) -> (r: Option<&'static str>)
    ensures
        match r {
            Some(p) => p@ == name@ && exact_width_primitives().contains(name@),
            None => !exact_width_primitives().contains(name@),
        },
{
    let names: [&'static str; 24] = [
        "UInt1", "UInt2", "UInt3", "UInt4", "UInt5", "UInt6", "UInt7", "UInt8", "UInt16be",
        "UInt16le", "UInt24be", "UInt24le", "UInt31be", "UInt31le", "UInt32be", "UInt32le",
        "UInt40be", "UInt40le", "UInt48be", "UInt48le", "UInt56be", "UInt56le", "UInt64be",
        "UInt64le",
    ];
    proof {
        reveal_strlit("UInt1");
        reveal_strlit("UInt2");
        reveal_strlit("UInt3");
        reveal_strlit("UInt4");
        reveal_strlit("UInt5");
        reveal_strlit("UInt6");
        reveal_strlit("UInt7");
        reveal_strlit("UInt8");
        reveal_strlit("UInt16be");
        reveal_strlit("UInt16le");
        reveal_strlit("UInt24be");
        reveal_strlit("UInt24le");
        reveal_strlit("UInt31be");
        reveal_strlit("UInt31le");
        reveal_strlit("UInt32be");
        reveal_strlit("UInt32le");
        reveal_strlit("UInt40be");
        reveal_strlit("UInt40le");
        reveal_strlit("UInt48be");
        reveal_strlit("UInt48le");
        reveal_strlit("UInt56be");
        reveal_strlit("UInt56le");
        reveal_strlit("UInt64be");
        reveal_strlit("UInt64le");
        assert(names@.len() == 24);
        assert forall|k: int| 0 <= k < 24 implies (#[trigger] names@[k])@ == exact_width_primitives()[k] by {}
    }
    let mut i: usize = 0;
    while i < 24
        invariant
            0 <= i <= 24,
            names@.len() == 24,
            forall|k: int| 0 <= k < 24 ==> (#[trigger] names@[k])@ == exact_width_primitives()[k],
            forall|k: int| 0 <= k < i ==> exact_width_primitives()[k] != name@,
        decreases 24 - i,
    {
        if str_eq(names[i], name) {
            assert(exact_width_primitives()[i as int] == name@);
            return Some(names[i]);
        }
        i += 1;
    }
    proof {
        if exact_width_primitives().contains(name@) {
            let k = choose|k: int| 0 <= k < exact_width_primitives().len() && exact_width_primitives()[k] == name@;
            assert(exact_width_primitives()[k] != name@);
        }
    }
    None
}

/// The details of a diagnostic about a binary schema primitive: phase, node id,
/// primitive, reason, then the schema and field when known.
pub open spec fn primitive_details_view(node_id: Seq<char>, primitive: Seq<char>, reason: Seq<char>, schema: Option<Seq<char>>, field: Option<Seq<char>>) -> JsonV {
    let base = seq![
        ("phase"@, JsonV::Str("schema"@)),
        ("node_id"@, JsonV::Str(node_id)),
        ("primitive"@, JsonV::Str(primitive)),
        ("reason"@, JsonV::Str(reason)),
    ];
    let with_schema = match schema {
        Some(s) => base.push(("schema"@, JsonV::Str(s))),
        None => base,
    };
    JsonV::Object(match field {
        Some(f) => with_schema.push(("field"@, JsonV::Str(f))),
        None => with_schema,
    })
}

/// The display name of an optional schema.
pub open spec fn opt_schema_name(schema: Option<&SchemaDecl>) -> Option<Seq<char>> {
    match schema {
        Some(s) => Some(schema_display_name(s.name)),
        None => None,
    }
}

/// The name of an optional field.
pub open spec fn opt_field_name(field: Option<&SchemaField>) -> Option<Seq<char>> {
    match field {
        Some(f) => Some(f.name@),
        None => None,
    }
}

fn primitive_details(primitive: &str, schema: Option<&SchemaDecl>, field: Option<&SchemaField>, node_id: String, reason: &str) -> (r: JsonValue)
    ensures
        r@ == primitive_details_view(node_id@, primitive@, reason@, opt_schema_name(schema), opt_field_name(field)),
{
    let ghost nid = node_id@;
    let mut b = ObjectBuilder::new();
    b.push_str("phase", "schema");
    b.push_string("node_id", node_id);
    b.push_str("primitive", primitive);
    b.push_str("reason", reason);
    if let Some(s) = schema {
        b.push_string("schema", s.display_name());
    }
    if let Some(f) = field {
        b.push_string("field", f.name.clone());
    }
    let r = b.finish();
    proof {
        let v = primitive_details_view(nid, primitive@, reason@, opt_schema_name(schema), opt_field_name(field));
        assert(r@->Object_0 =~= v->Object_0);
    }
    r
}

/// The diagnostic for an exact-width primitive used outside a `format binary` field.
pub fn exact_width_schema_primitive_diagnostic(
    primitive: &str,
    schema: Option<&SchemaDecl>,
    field: Option<&SchemaField>,
    node_id: String,
    span: SourceSpan,
    reason: &str,
) -> (r: Diagnostic)
    ensures
        diag_is(
            r,
            "schema.exact_width_primitive"@,
            DiagnosticKind::Type,
            "binary schema primitive `"@ + primitive@ + "` can only be used in a `format binary` schema field"@,
            Some(span@),
            primitive_details_view(node_id@, primitive@, reason@, opt_schema_name(schema), opt_field_name(field)),
            Seq::empty(),
        ),
{
    let details = primitive_details(primitive, schema, field, node_id, reason);
    let mut message = string_of("binary schema primitive `");
    message.append(primitive);
    message.append("` can only be used in a `format binary` schema field");
    let d = Diagnostic::new("schema.exact_width_primitive", Severity::Error, DiagnosticKind::Type, message, Some(span), details);
    assert(crate::diag::jsons(d.related@) =~= Seq::<JsonV>::empty());
    d
}

/// The message for a lowercase binary primitive used where it is not supported.
pub open spec fn lowercase_position_message(primitive: Seq<char>, reason: Seq<char>) -> Seq<char> {
    if reason == "repeat_payload"@ {
        "binary schema primitive `"@ + primitive + "` is not yet supported in `Repeat` payload positions"@
    } else if reason == "dispatch_payload"@ {
        "binary schema primitive `"@ + primitive + "` is not yet supported in dispatch payload positions"@
    } else {
        "binary schema primitive `"@ + primitive + "` can only be used in a `format binary` schema field"@
    }
}

/// The diagnostic for a lowercase binary primitive with a given message.
pub fn lowercase_schema_primitive_diagnostic_with_message(
    primitive: &str,
    schema: Option<&SchemaDecl>,
    field: Option<&SchemaField>,
    node_id: String,
    span: SourceSpan,
    reason: &str,
    message: String,
) -> (r: Diagnostic)
    ensures
        diag_is(
            r,
            "schema.lowercase_primitive"@,
            DiagnosticKind::Type,
            message@,
            Some(span@),
            primitive_details_view(node_id@, primitive@, reason@, opt_schema_name(schema), opt_field_name(field)),
            Seq::empty(),
        ),
{
    let details = primitive_details(primitive, schema, field, node_id, reason);
    let d = Diagnostic::new("schema.lowercase_primitive", Severity::Error, DiagnosticKind::Type, message, Some(span), details);
    assert(crate::diag::jsons(d.related@) =~= Seq::<JsonV>::empty());
    d
}

/// The diagnostic for a lowercase binary primitive in a position that does not take one.
pub fn lowercase_schema_primitive_position_diagnostic(
    primitive: &str,
    schema: Option<&SchemaDecl>,
    field: Option<&SchemaField>,
    node_id: String,
    span: SourceSpan,
    reason: &str,
) -> (r: Diagnostic)
    ensures
        diag_is(
            r,
            "schema.lowercase_primitive"@,
            DiagnosticKind::Type,
            lowercase_position_message(primitive@, reason@),
            Some(span@),
            primitive_details_view(node_id@, primitive@, reason@, opt_schema_name(schema), opt_field_name(field)),
            Seq::empty(),
        ),
{
    let mut message = string_of("binary schema primitive `");
    message.append(primitive);
    if str_eq(reason, "repeat_payload") {
        message.append("` is not yet supported in `Repeat` payload positions");
    } else if str_eq(reason, "dispatch_payload") {
        message.append("` is not yet supported in dispatch payload positions");
    } else {
        message.append("` can only be used in a `format binary` schema field");
    }
    lowercase_schema_primitive_diagnostic_with_message(primitive, schema, field, node_id, span, reason, message)
}

/// The diagnostic for a schema named where an ordinary type is required.
pub fn schema_type_reference_diagnostic(schema: &SchemaDecl, node_id: String, span: SourceSpan, use_kind: &str) -> (r: Diagnostic)
    ensures
        diag_is(
            r,
            "type.schema_reference"@,
            DiagnosticKind::Type,
            "schema `"@ + schema_display_name(schema.name) + "` cannot be used as an ordinary type"@,
            Some(span@),
            JsonV::Object(seq![
                ("phase"@, JsonV::Str("type"@)),
                ("node_id"@, JsonV::Str(node_id@)),
                ("schema"@, JsonV::Str(schema_display_name(schema.name))),
                ("use_kind"@, JsonV::Str(use_kind@)),
            ]),
            Seq::empty(),
        ),
{
    let ghost nid = node_id@;
    let name = schema.display_name();
    let mut message = string_of("schema `");
    message.append(name.as_str());
    message.append("` cannot be used as an ordinary type");
    let mut b = ObjectBuilder::new();
    b.push_str("phase", "type");
    b.push_string("node_id", node_id);
    b.push_string("schema", name);
    b.push_str("use_kind", use_kind);
    let details = b.finish();
    let d = Diagnostic::new("type.schema_reference", Severity::Error, DiagnosticKind::Type, message, Some(span), details);
    proof {
        assert(details@->Object_0 =~= seq![
            ("phase"@, JsonV::Str("type"@)),
            ("node_id"@, JsonV::Str(nid)),
            ("schema"@, JsonV::Str(schema_display_name(schema.name))),
            ("use_kind"@, JsonV::Str(use_kind@)),
        ]);
        assert(crate::diag::jsons(d.related@) =~= Seq::<JsonV>::empty());
    }
    d
}

} // verus!

verus! {

/// The details of a diagnostic about one field of a schema: phase, node id, schema, then
/// the given members.
pub open spec fn schema_field_details_view(field: SchemaField, schema_name: Seq<char>, rest: Seq<(Seq<char>, JsonV)>) -> JsonV {
    JsonV::Object(seq![
        ("phase"@, JsonV::Str("schema"@)),
        ("node_id"@, JsonV::Str(node_display(field.node_id.index, "schema-field"@))),
        ("schema"@, JsonV::Str(schema_name)),
    ] + rest)
}

/// The diagnostic for a schema field whose binding name is used twice.
pub fn schema_composition_duplicate_binding_diagnostic(schema: &SchemaDecl, field: &SchemaField) -> (r: Diagnostic)
    ensures
        diag_is(r, "schema.composition_duplicate_binding"@, DiagnosticKind::Name,
            "duplicate schema field binding `"@ + field.name@ + "`"@, Some(field.span@),
            schema_field_details_view(*field, schema_display_name(schema.name), seq![
                ("binding"@, JsonV::Str(field.name@)),
                ("reason"@, JsonV::Str("duplicate_binding"@)),
            ]),
            Seq::empty()),
{
    let mut message = string_of("duplicate schema field binding `");
    message.append(field.name.as_str());
    message.append("`");
    let mut b = ObjectBuilder::new();
    b.push_str("phase", "schema");
    b.push_string("node_id", field.node_id.display("schema-field"));
    b.push_string("schema", schema.display_name());
    b.push_string("binding", field.name.clone());
    b.push_str("reason", "duplicate_binding");
    let details = b.finish();
    proof {
        assert(details@->Object_0 =~= schema_field_details_view(*field, schema_display_name(schema.name), seq![
            ("binding"@, JsonV::Str(field.name@)),
            ("reason"@, JsonV::Str("duplicate_binding"@)),
        ])->Object_0);
    }
    let d = Diagnostic::new("schema.composition_duplicate_binding", Severity::Error, DiagnosticKind::Name, message, Some(field.span.copy()), details);
    assert(crate::diag::jsons(d.related@) =~= Seq::<JsonV>::empty());
    d
}

/// The note on a schema's generated-helper boundary.
pub open spec fn helper_boundary_note(span: SpanV, message: Seq<char>) -> JsonV {
    JsonV::Object(seq![
        ("kind"@, JsonV::Str("schema_helper_boundary"@)),
        ("span"@, crate::diag::span_json_view(span)),
        ("message"@, JsonV::Str(message)),
    ])
}

fn helper_boundary_related(span: &SourceSpan, message: String) -> (r: JsonValue)
    ensures
        r@ == helper_boundary_note(span@, message@),
{
    let ghost m = message@;
    let mut b = ObjectBuilder::new();
    b.push_str("kind", "schema_helper_boundary");
    b.push("span", crate::diag::span_json(span));
    b.push_string("message", message);
    let r = b.finish();
    assert(r@->Object_0 =~= helper_boundary_note(span@, m)->Object_0);
    r
}

fn helper_field_details(schema_name: &str, field: &SchemaField, reason: &str) -> (r: JsonValue)
    ensures
        r@ == schema_field_details_view(*field, schema_name@, seq![
            ("field"@, JsonV::Str(field.name@)),
            ("field_type"@, JsonV::Str(field.ty@)),
            ("reason"@, JsonV::Str(reason@)),
        ]),
{
    let mut b = ObjectBuilder::new();
    b.push_str("phase", "schema");
    b.push_string("node_id", field.node_id.display("schema-field"));
    b.push_str("schema", schema_name);
    b.push_string("field", field.name.clone());
    b.push_string("field_type", field.ty.clone());
    b.push_str("reason", reason);
    let r = b.finish();
    assert(r@->Object_0 =~= schema_field_details_view(*field, schema_name@, seq![
        ("field"@, JsonV::Str(field.name@)),
        ("field_type"@, JsonV::Str(field.ty@)),
        ("reason"@, JsonV::Str(reason@)),
    ])->Object_0);
    r
}

/// The diagnostic for a format-neutral schema field whose type the generated decode
/// helper cannot produce.
pub fn format_neutral_schema_helper_diagnostic(schema: &SchemaDecl, field: &SchemaField) -> (r: Diagnostic)
    ensures
        r.id@ == "schema.format_neutral_decode_helper"@,
        r.kind == DiagnosticKind::Type,
        r.severity == Severity::Error,
        opt_span_view(r.span) == Some(field.span@),
        r.message@ == "format-neutral schema field `"@ + field.name@ + "` cannot expose a generated decode helper because `"@
            + field.ty@ + "` is not a recursive format-neutral visible shape made from scalar leaves, anonymous record fields, Option<T>, List<T>, Vec<T>, Dict<String, T>, Result<recursive visible shape, recursive visible shape>, or same-module or public imported source ADTs whose constructor payloads are recursive visible shapes"@,
        r.details@ == schema_field_details_view(*field, schema_display_name(schema.name), seq![
            ("field"@, JsonV::Str(field.name@)),
            ("field_type"@, JsonV::Str(field.ty@)),
            ("reason"@, JsonV::Str("unsupported_format_neutral_field_type"@)),
        ]),
        crate::diag::jsons(r.related@) == seq![helper_boundary_note(schema.span@,
            "Generated format-neutral decode helpers for schema `"@ + schema_display_name(schema.name)
            + "` accept recursive visible shapes made from scalar leaves, anonymous record fields, Option<T>, List<T>, Vec<T>, Dict<String, T>, Result<Ok, Err> when both payloads are recursive visible shapes, and same-module or public imported source ADTs whose constructor payloads are recursive visible shapes."@)],
{
    let schema_name = schema.display_name();
    let mut boundary = string_of("Generated format-neutral decode helpers for schema `");
    boundary.append(schema_name.as_str());
    boundary.append("` accept recursive visible shapes made from scalar leaves, anonymous record fields, Option<T>, List<T>, Vec<T>, Dict<String, T>, Result<Ok, Err> when both payloads are recursive visible shapes, and same-module or public imported source ADTs whose constructor payloads are recursive visible shapes.");
    let mut message = string_of("format-neutral schema field `");
    message.append(field.name.as_str());
    message.append("` cannot expose a generated decode helper because `");
    message.append(field.ty.as_str());
    message.append("` is not a recursive format-neutral visible shape made from scalar leaves, anonymous record fields, Option<T>, List<T>, Vec<T>, Dict<String, T>, Result<recursive visible shape, recursive visible shape>, or same-module or public imported source ADTs whose constructor payloads are recursive visible shapes");
    let details = helper_field_details(schema_name.as_str(), field, "unsupported_format_neutral_field_type");
    let mut d = Diagnostic::new("schema.format_neutral_decode_helper", Severity::Error, DiagnosticKind::Type, message, Some(field.span.copy()), details);
    let note = helper_boundary_related(&schema.span, boundary);
    let ghost nv = note@;
    d.related.push(note);
    assert(crate::diag::jsons(d.related@) =~= seq![nv]);
    d
}

/// The diagnostic for a format-neutral schema field whose type the generated encode
/// helper cannot take.
pub fn format_neutral_schema_encode_helper_diagnostic(schema_name: &str, schema_span: &SourceSpan, field: &SchemaField) -> (r: Diagnostic)
    ensures
        r.id@ == "schema.format_neutral_encode_helper"@,
        r.kind == DiagnosticKind::Type,
        r.severity == Severity::Error,
        opt_span_view(r.span) == Some(field.span@),
        r.message@ == "format-neutral schema field `"@ + field.name@ + "` cannot expose a generated encode helper because `"@
            + field.ty@ + "` is not a recursive format-neutral visible shape"@,
        r.details@ == schema_field_details_view(*field, schema_name@, seq![
            ("field"@, JsonV::Str(field.name@)),
            ("field_type"@, JsonV::Str(field.ty@)),
            ("reason"@, JsonV::Str("unsupported_format_neutral_encode_field_type"@)),
        ]),
        crate::diag::jsons(r.related@) == seq![helper_boundary_note(schema_span@,
            "Generated format-neutral encode helpers for schema `"@ + schema_name@
            + "` accept recursive visible shapes made from Int, Bool, Float, and String leaves, anonymous records, Option<T>, List<T>, Vec<T>, Dict<String, T>, Result<Ok, Err>, and eligible same-module or public imported source ADTs when every recursively visited child or constructor payload is also eligible."@)],
{
    let mut boundary = string_of("Generated format-neutral encode helpers for schema `");
    boundary.append(schema_name);
    boundary.append("` accept recursive visible shapes made from Int, Bool, Float, and String leaves, anonymous records, Option<T>, List<T>, Vec<T>, Dict<String, T>, Result<Ok, Err>, and eligible same-module or public imported source ADTs when every recursively visited child or constructor payload is also eligible.");
    let mut message = string_of("format-neutral schema field `");
    message.append(field.name.as_str());
    message.append("` cannot expose a generated encode helper because `");
    message.append(field.ty.as_str());
    message.append("` is not a recursive format-neutral visible shape");
    let details = helper_field_details(schema_name, field, "unsupported_format_neutral_encode_field_type");
    let mut d = Diagnostic::new("schema.format_neutral_encode_helper", Severity::Error, DiagnosticKind::Type, message, Some(field.span.copy()), details);
    let note = helper_boundary_related(schema_span, boundary);
    let ghost nv = note@;
    d.related.push(note);
    assert(crate::diag::jsons(d.related@) =~= seq![nv]);
    d
}

} // verus!
