use lib::diag::{NodeId, SourceSpan};
use lib::json::JsonValue;
use lib::schema::{
    exact_width_binary_primitive_name, exact_width_schema_primitive_diagnostic, format_neutral_schema_encode_helper_diagnostic,
    lowercase_schema_primitive_position_diagnostic, schema_composition_duplicate_binding_diagnostic, SchemaDecl, SchemaField,
};
use lib::schema_dispatch::{
    add_dispatch_payload_helper_unavailable_details, dispatch_payload_helper_boundary_message, dispatch_payload_schema_declaration_message,
    dispatch_payload_unavailable_helper_directions, dispatch_payload_unsupported_field_related, schema_dispatch_case_payload_name,
    schema_dispatch_details, schema_dispatch_payload_diagnostic, schema_field_declared_after, SchemaDispatchCasePayload,
    SchemaHelperAvailability, UnsupportedDispatchPayloadHelperField,
};
use lib::schema_layout::{
    packed_reserved_storage_bit_width, reserved_bits_adjacent_width_note, reserved_bits_argument_diagnostic,
    reserved_bits_supported_layout_family, starts_as_longer_identifier, suffix_packed_reserved_storage_bit_width,
    ReservedBitsArgumentReason,
};

fn span(line: u32) -> SourceSpan {
    SourceSpan { file: "schema.veln".to_string(), start_line: line, start_column: 1, end_line: line, end_column: 5 }
}

fn field(name: &str, ty: &str, id: u64) -> SchemaField {
    SchemaField { name: name.to_string(), ty: ty.to_string(), node_id: NodeId { index: id }, span: span(id as u32) }
}

fn schema(name: Option<&str>, fields: Vec<SchemaField>) -> SchemaDecl {
    SchemaDecl {
        name: name.map(|n| n.to_string()),
        module_name: None,
        format: Some("binary".to_string()),
        fields,
        node_id: NodeId { index: 1 },
        span: span(1),
    }
}

fn member<'a>(value: &'a JsonValue, key: &str) -> Option<&'a JsonValue> {
    match value {
        JsonValue::Object(entries) => entries.iter().find(|(k, _)| k == key).map(|(_, v)| v),
        _ => None,
    }
}

fn text(value: Option<&JsonValue>) -> String {
    match value {
        Some(JsonValue::String(s)) => s.clone(),
        _ => panic!("expected a string member"),
    }
}

#[test]
fn exact_width_primitives_are_recognized() {
    assert_eq!(exact_width_binary_primitive_name("UInt8"), Some("UInt8"));
    assert_eq!(exact_width_binary_primitive_name("UInt64le"), Some("UInt64le"));
    assert_eq!(exact_width_binary_primitive_name("UInt9"), None);
    assert_eq!(exact_width_binary_primitive_name("uint8"), None);
}

#[test]
fn primitive_diagnostics_carry_schema_and_field() {
    let s = schema(Some("Header"), vec![field("len", "UInt8", 2)]);
    let d = exact_width_schema_primitive_diagnostic("UInt8", Some(&s), Some(&s.fields[0]), "field#2".to_string(), span(2), "non_binary_format");
    assert_eq!(d.id, "schema.exact_width_primitive");
    assert_eq!(text(member(&d.details, "schema")), "Header");
    assert_eq!(text(member(&d.details, "field")), "len");
    let missing = schema(None, Vec::new());
    let d = lowercase_schema_primitive_position_diagnostic("u8", Some(&missing), None, "n#1".to_string(), span(1), "repeat_payload");
    assert_eq!(d.message, "binary schema primitive `u8` is not yet supported in `Repeat` payload positions");
    assert_eq!(text(member(&d.details, "schema")), "<missing>");
    assert!(member(&d.details, "field").is_none());
}

#[test]
fn duplicate_binding_and_encode_helper_diagnostics() {
    let s = schema(Some("Packet"), vec![field("tag", "UInt8", 2)]);
    let d = schema_composition_duplicate_binding_diagnostic(&s, &s.fields[0]);
    assert_eq!(d.message, "duplicate schema field binding `tag`");
    assert_eq!(text(member(&d.details, "node_id")), "schema-field#2");
    let d = format_neutral_schema_encode_helper_diagnostic("Packet", &s.span, &s.fields[0]);
    assert_eq!(d.message, "format-neutral schema field `tag` cannot expose a generated encode helper because `UInt8` is not a recursive format-neutral visible shape");
    assert_eq!(d.related.len(), 1);
}

#[test]
fn reserved_storage_units() {
    assert_eq!(packed_reserved_storage_bit_width(3), Some(8));
    assert_eq!(packed_reserved_storage_bit_width(8), None);
    assert_eq!(packed_reserved_storage_bit_width(31), Some(32));
    assert_eq!(suffix_packed_reserved_storage_bit_width(40), None);
    assert_eq!(suffix_packed_reserved_storage_bit_width(44), Some(48));
    assert_eq!(suffix_packed_reserved_storage_bit_width(5), Some(8));
}

#[test]
fn reserved_layout_families() {
    assert_eq!(reserved_bits_supported_layout_family(4, None, Some(4), Some(8)).0, "middle_reserved_bits");
    assert_eq!(reserved_bits_supported_layout_family(4, Some(4), Some(8), None).0, "suffix_reserved_group");
    assert_eq!(reserved_bits_supported_layout_family(4, None, Some(4), None).0, "packed_reserved_suffix");
    assert_eq!(reserved_bits_supported_layout_family(4, None, None, Some(4)).0, "packed_reserved_prefix");
    assert_eq!(reserved_bits_supported_layout_family(16, None, None, None).0, "byte_aligned_reserved_bits");
    assert_eq!(reserved_bits_supported_layout_family(3, None, None, None).0, "bit_packed_reserved_group");
}

#[test]
fn adjacent_width_notes() {
    let a = field("flags", "UInt4", 2);
    let b = field("kind", "UInt4", 3);
    assert_eq!(
        reserved_bits_adjacent_width_note(Some(&a), Some(4), Some(&b), Some(4)),
        "Adjacent visible field widths: previous `flags` is 4 bit(s); next `kind` is 4 bit(s)."
    );
    assert_eq!(
        reserved_bits_adjacent_width_note(None, None, None, None),
        "No adjacent visible exact-width field participates in this unsupported layout."
    );
}

#[test]
fn reserved_bits_argument_reasons() {
    let s = schema(Some("P"), vec![field("pad", "ReservedBits(4)", 2)]);
    let d = reserved_bits_argument_diagnostic(&s, &s.fields[0], ReservedBitsArgumentReason::Arity);
    assert_eq!(d.message, "`ReservedBits` requires width and value integer arguments");
    assert_eq!(text(member(&d.details, "reason")), "argument_count");
    let d = reserved_bits_argument_diagnostic(&s, &s.fields[0], ReservedBitsArgumentReason::Literal);
    assert_eq!(text(member(&d.details, "reason")), "non_literal_argument");
    assert!(starts_as_longer_identifier("Ext"));
    assert!(!starts_as_longer_identifier("(4, 0)"));
}

#[test]
fn dispatch_helper_directions_and_messages() {
    let none = SchemaHelperAvailability { decode: false, encode: false };
    let encode_only = SchemaHelperAvailability { decode: false, encode: true };
    let both = SchemaHelperAvailability { decode: true, encode: true };
    assert_eq!(dispatch_payload_unavailable_helper_directions(none).len(), 2);
    assert_eq!(dispatch_payload_unavailable_helper_directions(both).len(), 0);
    let details = add_dispatch_payload_helper_unavailable_details(JsonValue::Object(Vec::new()), encode_only);
    match member(&details, "unavailable_helper_directions") {
        Some(JsonValue::Array(items)) => assert_eq!(items.len(), 1),
        _ => panic!("directions should be listed"),
    }
    assert_eq!(
        dispatch_payload_schema_declaration_message("Inner", "decode_inner", "encode_inner", both),
        "Schema `Inner` is declared here and exposes the generated dispatch payload helpers."
    );
    assert_eq!(
        dispatch_payload_helper_boundary_message("decode_inner", "encode_inner", encode_only),
        "Dispatch payload schemas must expose generated decode helpers before parent decode helpers can use them; expected `decode_inner`."
    );
}

#[test]
fn dispatch_details_and_payload_names() {
    let s = schema(Some("Outer"), vec![field("tag", "UInt8", 2), field("body", "ByteView(len)", 3), field("len", "UInt8", 4)]);
    let members = schema_dispatch_details(&s, &s.fields[0], "unknown_payload");
    assert_eq!(members.len(), 6);
    assert_eq!(members[5].0, "reason");
    assert!(schema_field_declared_after(&s, &s.fields[1], "len.value"));
    assert!(!schema_field_declared_after(&s, &s.fields[2], "tag"));
    assert_eq!(schema_dispatch_case_payload_name(&SchemaDispatchCasePayload::Schema { schema_name: "Inner".to_string() }), "Inner");
    assert_eq!(schema_dispatch_case_payload_name(&SchemaDispatchCasePayload::ReservedBits { width: 4, value: 0 }), "<reserved>");
    let d = schema_dispatch_payload_diagnostic(&s, &s.fields[0], 3, "Inner", "missing_schema", "payload missing".to_string(), Vec::new());
    assert_eq!(d.id, "schema.dispatch_payload");
    match member(&d.details, "case_tag") {
        Some(JsonValue::Number(n)) => assert_eq!(*n, 3),
        _ => panic!("case tag should be a number"),
    }
}

#[test]
fn unsupported_field_note_trims_trailing_periods() {
    let f = field("pad", "ReservedBits(3, 0)", 2);
    let u = UnsupportedDispatchPayloadHelperField {
        schema_name: "Inner".to_string(),
        field: &f,
        field_path_display: "Inner.pad".to_string(),
        layout_fact: "layout is unsupported..".to_string(),
        reason: "unsupported_reserved_bits_layout",
    };
    let note = dispatch_payload_unsupported_field_related(&u);
    assert_eq!(
        text(member(&note, "message")),
        "Nested dispatch payload field `Inner.pad` prevents generated decode and encode helpers: layout is unsupported."
    );
}
