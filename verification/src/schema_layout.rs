use vstd::prelude::*;

use crate::diag::{Diagnostic, DiagnosticKind, Severity, jsons, node_display};
use crate::json::{JsonV, ObjectBuilder};
use crate::schema::{SchemaDecl, SchemaField, schema_display_name};
use crate::semantic::diag_is;
use crate::text::{decimal, push_decimal, string_of};

verus! {

/// The storage unit, in bits, that a reserved width packs into with a neighbouring
/// visible field: the next whole byte up to four bytes.
pub open spec fn packed_storage(bit_width: int) -> Option<int> {
    if 1 <= bit_width <= 7 {
        Some(8)
    } else if 9 <= bit_width <= 15 {
        Some(16)
    } else if 17 <= bit_width <= 23 {
        Some(24)
    } else if 25 <= bit_width <= 31 {
        Some(32)
    } else {
        None
    }
}

/// The storage unit a reserved width packs into after a visible field, which also
/// allows units of five and six bytes.
pub open spec fn suffix_packed_storage(bit_width: int) -> Option<int> {
    match packed_storage(bit_width) {
        Some(s) => Some(s),
        None => if 33 <= bit_width <= 39 {
            Some(40)
        } else if 41 <= bit_width <= 47 {
            Some(48)
        } else {
            None
        },
    }
}

/// The storage unit a reserved width packs into with a neighbouring visible field.
pub fn packed_reserved_storage_bit_width(bit_width: i64) -> (r: Option<i64>)
    ensures
        match r {
            Some(s) => packed_storage(bit_width as int) == Some(s as int),
            None => packed_storage(bit_width as int) is None,
        },
{
    if 1 <= bit_width && bit_width <= 7 {
        Some(8)
    } else if 9 <= bit_width && bit_width <= 15 {
        Some(16)
    } else if 17 <= bit_width && bit_width <= 23 {
        Some(24)
    } else if 25 <= bit_width && bit_width <= 31 {
        Some(32)
    } else {
        None
    }
}

/// The storage unit a reserved width packs into after a visible field.
pub fn suffix_packed_reserved_storage_bit_width(bit_width: i64) -> (r: Option<i64>)
    ensures
        match r {
            Some(s) => suffix_packed_storage(bit_width as int) == Some(s as int),
            None => suffix_packed_storage(bit_width as int) is None,
        },
{
    match packed_reserved_storage_bit_width(bit_width) {
        Some(s) => Some(s),
        None => if 33 <= bit_width && bit_width <= 39 {
            Some(40)
        } else if 41 <= bit_width && bit_width <= 47 {
            Some(48)
        } else {
            None
        },
    }
}

/// The supported layout family a reserved field is measured against, with the note
/// that explains it.
pub open spec fn layout_family(bit_width: int, previous_previous: Option<u8>, previous: Option<u8>, next: Option<u8>) -> (Seq<char>, Seq<char>) {
    if previous is Some && next is Some {
        ("middle_reserved_bits"@, "visible and reserved widths must complete one supported big-endian storage unit."@)
    } else if previous is Some && suffix_packed_storage(bit_width) is Some {
        if previous == Some(8u8) && (previous_previous matches Some(w) && w + 8 + bit_width == 16) && 1 <= bit_width <= 7 {
            ("suffix_reserved_group"@, "two visible widths plus the reserved width must complete the same two-byte big-endian storage unit."@)
        } else {
            ("packed_reserved_suffix"@, "the previous visible width plus the reserved width must complete one supported big-endian storage unit."@)
        }
    } else if next is Some && packed_storage(bit_width) is Some {
        ("packed_reserved_prefix"@, "the reserved width plus the next visible width must complete one supported big-endian storage unit."@)
    } else if bit_width > 0 && bit_width <= 32 && bit_width % 8 == 0 {
        ("byte_aligned_reserved_bits"@, "byte-aligned reserved fields are supported up to four bytes when the value fits the width."@)
    } else {
        ("bit_packed_reserved_group"@, "a bit-packed group must contain at least one visible field and complete one supported big-endian storage unit."@)
    }
}

/// The supported layout family a reserved field is measured against, with its note.
pub fn reserved_bits_supported_layout_family(bit_width: i64, previous_previous_visible_bit_width: Option<u8>,
    previous_visible_bit_width: Option<u8>, next_visible_bit_width: Option<u8>) -> (r: (&'static str, &'static str))
    ensures
        (r.0@, r.1@) == layout_family(bit_width as int, previous_previous_visible_bit_width, previous_visible_bit_width, next_visible_bit_width),
{
    if previous_visible_bit_width.is_some() && next_visible_bit_width.is_some() {
        return ("middle_reserved_bits", "visible and reserved widths must complete one supported big-endian storage unit.");
    }
    if previous_visible_bit_width.is_some() && suffix_packed_reserved_storage_bit_width(bit_width).is_some() {
        let group = match (previous_visible_bit_width, previous_previous_visible_bit_width) {
            (Some(8), Some(w)) => (w as i64) + 8 + bit_width == 16 && 1 <= bit_width && bit_width <= 7,
            _ => false,
        };
        if group {
            return ("suffix_reserved_group", "two visible widths plus the reserved width must complete the same two-byte big-endian storage unit.");
        }
        return ("packed_reserved_suffix", "the previous visible width plus the reserved width must complete one supported big-endian storage unit.");
    }
    if next_visible_bit_width.is_some() && packed_reserved_storage_bit_width(bit_width).is_some() {
        return ("packed_reserved_prefix", "the reserved width plus the next visible width must complete one supported big-endian storage unit.");
    }
    if bit_width > 0 && bit_width <= 32 && bit_width % 8 == 0 {
        return ("byte_aligned_reserved_bits", "byte-aligned reserved fields are supported up to four bytes when the value fits the width.");
    }
    ("bit_packed_reserved_group", "a bit-packed group must contain at least one visible field and complete one supported big-endian storage unit.")
}

/// One adjacent-width part of the note on a reserved field.
pub open spec fn width_part(position: Seq<char>, field: SchemaField, width: u8) -> Seq<char> {
    position + " `"@ + field.name@ + "` is "@ + decimal(width as nat) + " bit(s)"@
}

/// The parts joined with `; `.
pub open spec fn join_parts(parts: Seq<Seq<char>>) -> Seq<char> {
    if parts.len() == 0 {
        Seq::empty()
    } else if parts.len() == 1 {
        parts[0]
    } else {
        parts[0] + "; "@ + parts[1]
    }
}

/// The note naming the visible neighbours' widths of a reserved field.
pub open spec fn adjacent_width_note(previous_field: Option<&SchemaField>, previous_width: Option<u8>, next_field: Option<&SchemaField>, next_width: Option<u8>) -> Seq<char> {
    let first: Seq<Seq<char>> = match (previous_field, previous_width) {
        (Some(f), Some(w)) => seq![width_part("previous"@, *f, w)],
        _ => Seq::empty(),
    };
    let parts = match (next_field, next_width) {
        (Some(f), Some(w)) => first.push(width_part("next"@, *f, w)),
        _ => first,
    };
    if parts.len() == 0 {
        "No adjacent visible exact-width field participates in this unsupported layout."@
    } else {
        "Adjacent visible field widths: "@ + join_parts(parts) + "."@
    }
}

fn width_part_text(position: &str, field: &SchemaField, width: u8) -> (r: String)
    ensures
        r@ == width_part(position@, *field, width),
{
    let mut s = string_of(position);
    s.append(" `");
    s.append(field.name.as_str());
    s.append("` is ");
    push_decimal(&mut s, width as u64);
    s.append(" bit(s)");
    s
}

/// The note naming the visible neighbours' widths of a reserved field.
pub fn reserved_bits_adjacent_width_note(previous_field: Option<&SchemaField>, previous_visible_bit_width: Option<u8>,
    next_field: Option<&SchemaField>, next_visible_bit_width: Option<u8>) -> (r: String)
    ensures
        r@ == adjacent_width_note(previous_field, previous_visible_bit_width, next_field, next_visible_bit_width),
{
    let mut parts: Vec<String> = Vec::new();
    if let (Some(f), Some(w)) = (previous_field, previous_visible_bit_width) {
        parts.push(width_part_text("previous", f, w));
    }
    if let (Some(f), Some(w)) = (next_field, next_visible_bit_width) {
        parts.push(width_part_text("next", f, w));
    }
    if parts.len() == 0 {
        return string_of("No adjacent visible exact-width field participates in this unsupported layout.");
    }
    let mut s = string_of("Adjacent visible field widths: ");
    s.append(parts[0].as_str());
    if parts.len() > 1 {
        s.append("; ");
        s.append(parts[1].as_str());
    }
    s.append(".");
    s
}

/// Why the arguments of `ReservedBits` were refused.
#[derive(Clone, Copy, PartialEq, Eq, Structural)]
pub enum ReservedBitsArgumentReason {
    Arity,
    Literal,
}

/// The details every `ReservedBits` primitive diagnostic carries.
pub open spec fn reserved_bits_details_view(schema: SchemaDecl, field: SchemaField, reason: Seq<char>) -> JsonV {
    JsonV::Object(seq![
        ("phase"@, JsonV::Str("schema"@)),
        ("node_id"@, JsonV::Str(node_display(field.node_id.index, "schema-field"@))),
        ("schema"@, JsonV::Str(schema_display_name(schema.name))),
        ("field"@, JsonV::Str(field.name@)),
        ("primitive"@, JsonV::Str("ReservedBits"@)),
        ("reason"@, JsonV::Str(reason)),
    ])
}

fn reserved_bits_primitive_diagnostic(schema: &SchemaDecl, field: &SchemaField, reason: &str, message: &str) -> (r: Diagnostic)
    ensures
        diag_is(r, "schema.reserved_bits_primitive"@, DiagnosticKind::Type, message@, Some(field.span@),
            reserved_bits_details_view(*schema, *field, reason@), Seq::empty()),
{
    let mut b = ObjectBuilder::new();
    b.push_str("phase", "schema");
    b.push_string("node_id", field.node_id.display("schema-field"));
    b.push_string("schema", schema.display_name());
    b.push_string("field", field.name.clone());
    b.push_str("primitive", "ReservedBits");
    b.push_str("reason", reason);
    let details = b.finish();
    assert(details@->Object_0 =~= reserved_bits_details_view(*schema, *field, reason@)->Object_0);
    let d = Diagnostic::new("schema.reserved_bits_primitive", Severity::Error, DiagnosticKind::Type, string_of(message), Some(field.span.copy()), details);
    assert(jsons(d.related@) =~= Seq::<JsonV>::empty());
    d
}

/// The diagnostic for `ReservedBits` in a schema that is not `format binary`.
pub fn reserved_bits_format_diagnostic(schema: &SchemaDecl, field: &SchemaField) -> (r: Diagnostic)
    ensures
        diag_is(r, "schema.reserved_bits_primitive"@, DiagnosticKind::Type,
            "`ReservedBits` can only be used in a `format binary` schema field"@, Some(field.span@),
            reserved_bits_details_view(*schema, *field, "non_binary_format"@), Seq::empty()),
{
    reserved_bits_primitive_diagnostic(schema, field, "non_binary_format", "`ReservedBits` can only be used in a `format binary` schema field")
}

/// The reason text and message of a refused `ReservedBits` argument list.
pub open spec fn argument_reason(reason: ReservedBitsArgumentReason) -> (Seq<char>, Seq<char>) {
    match reason {
        ReservedBitsArgumentReason::Arity => ("argument_count"@, "`ReservedBits` requires width and value integer arguments"@),
        ReservedBitsArgumentReason::Literal => ("non_literal_argument"@, "`ReservedBits` arguments must be literal non-negative integers"@),
    }
}

/// The diagnostic for refused `ReservedBits` arguments.
pub fn reserved_bits_argument_diagnostic(schema: &SchemaDecl, field: &SchemaField, reason: ReservedBitsArgumentReason) -> (r: Diagnostic)
    ensures
        diag_is(r, "schema.reserved_bits_primitive"@, DiagnosticKind::Type, argument_reason(reason).1, Some(field.span@),
            reserved_bits_details_view(*schema, *field, argument_reason(reason).0), Seq::empty()),
{
    proof {
        reveal_strlit("argument_count");
        reveal_strlit("non_literal_argument");
        reveal_strlit("`ReservedBits` requires width and value integer arguments");
        reveal_strlit("`ReservedBits` arguments must be literal non-negative integers");
    }
    match reason {
        ReservedBitsArgumentReason::Arity => reserved_bits_primitive_diagnostic(schema, field, "argument_count",
            "`ReservedBits` requires width and value integer arguments"),
        ReservedBitsArgumentReason::Literal => reserved_bits_primitive_diagnostic(schema, field, "non_literal_argument",
            "`ReservedBits` arguments must be literal non-negative integers"),
    }
}

/// Whether `c` is an ASCII letter or digit or `_`.
pub open spec fn is_word_char(c: char) -> bool {
    ('a' <= c <= 'z') || ('A' <= c <= 'Z') || ('0' <= c <= '9') || c == '_'
}

/// Whether text after a primitive's name continues an identifier, so that the name is
/// only the start of a longer one.
pub fn starts_as_longer_identifier(text: &str) -> (r: bool)
    ensures
        r == (text@.len() > 0 && is_word_char(text@[0])),
{
    let chars = crate::text::chars_of(text);
    if chars.len() == 0 {
        return false;
    }
    let c = chars[0];
    ('a' <= c && c <= 'z') || ('A' <= c && c <= 'Z') || ('0' <= c && c <= '9') || c == '_'
}

} // verus!
