//! One-line `(name: type, ...)` summaries of Parquet schemas.

use vstd::prelude::*;
use crate::parquet_types::{ConvertedType, LogicalType, PhysicalType, SchemaKind, SchemaType,
    TimeUnit};
use crate::text::{dec_int, fmt_i64, join, join_push};

verus! {

/// `decimal(p,s)`.
pub open spec fn spec_decimal_text(precision: i32, scale: i32) -> Seq<char> {
    "decimal("@ + dec_int(precision as int) + ","@ + dec_int(scale as int) + ")"@
}

/// Whether the logical type is a decimal.
pub open spec fn is_decimal(lt: Option<LogicalType>) -> bool {
    lt matches Some(LogicalType::Decimal { .. })
}

/// Whether the logical type is an integer of this width and signedness.
pub open spec fn is_integer(lt: Option<LogicalType>, width: i8, signed: bool) -> bool {
    lt == Some(LogicalType::Integer { bit_width: width, is_signed: signed })
}

/// Whether the logical type is a timestamp of this unit and UTC adjustment.
pub open spec fn is_timestamp(lt: Option<LogicalType>, unit: TimeUnit, utc: bool) -> bool {
    lt == Some(LogicalType::Timestamp { is_adjusted_to_u_t_c: utc, unit })
}

/// Whether the logical type is a time of this unit.
pub open spec fn is_time(lt: Option<LogicalType>, u: TimeUnit) -> bool {
    lt matches Some(LogicalType::Time { unit, .. }) && unit == u
}

/// Brief name of a 32-bit integer column.
pub open spec fn spec_int32_name(lt: Option<LogicalType>, ct: ConvertedType, precision: i32, scale: i32) -> Seq<char> {
    if lt == Some(LogicalType::Date) {
        "date"@
    } else if is_integer(lt, 8, true) {
        "int8"@
    } else if is_integer(lt, 16, true) {
        "int16"@
    } else if is_integer(lt, 32, true) {
        "int32"@
    } else if is_integer(lt, 8, false) {
        "uint8"@
    } else if is_integer(lt, 16, false) {
        "uint16"@
    } else if is_integer(lt, 32, false) {
        "uint32"@
    } else if is_decimal(lt) {
        spec_decimal_text(precision, scale)
    } else if is_time(lt, TimeUnit::MILLIS) {
        "time[ms]"@
    } else {
        match ct {
            ConvertedType::DATE => "date"@,
            ConvertedType::INT_8 => "int8"@,
            ConvertedType::INT_16 => "int16"@,
            ConvertedType::UINT_8 => "uint8"@,
            ConvertedType::UINT_16 => "uint16"@,
            ConvertedType::UINT_32 => "uint32"@,
            ConvertedType::DECIMAL => spec_decimal_text(precision, scale),
            ConvertedType::TIME_MILLIS => "time[ms]"@,
            _ => "int32"@,
        }
    }
}

/// Brief name of a 64-bit integer column.
pub open spec fn spec_int64_name(lt: Option<LogicalType>, ct: ConvertedType, precision: i32, scale: i32) -> Seq<char> {
    if is_integer(lt, 64, true) {
        "int64"@
    } else if is_integer(lt, 64, false) {
        "uint64"@
    } else if is_timestamp(lt, TimeUnit::MILLIS, true) {
        "timestamp[ms,UTC]"@
    } else if is_timestamp(lt, TimeUnit::MICROS, true) {
        "timestamp[us,UTC]"@
    } else if is_timestamp(lt, TimeUnit::NANOS, true) {
        "timestamp[ns,UTC]"@
    } else if is_timestamp(lt, TimeUnit::MILLIS, false) {
        "timestamp[ms]"@
    } else if is_timestamp(lt, TimeUnit::MICROS, false) {
        "timestamp[us]"@
    } else if is_timestamp(lt, TimeUnit::NANOS, false) {
        "timestamp[ns]"@
    } else if is_time(lt, TimeUnit::MICROS) {
        "time[us]"@
    } else if is_decimal(lt) {
        spec_decimal_text(precision, scale)
    } else {
        match ct {
            ConvertedType::UINT_64 => "uint64"@,
            ConvertedType::DECIMAL => spec_decimal_text(precision, scale),
            ConvertedType::TIMESTAMP_MILLIS => "timestamp[ms]"@,
            ConvertedType::TIMESTAMP_MICROS => "timestamp[us]"@,
            ConvertedType::TIME_MICROS => "time[us]"@,
            _ => "int64"@,
        }
    }
}

/// Brief name of a variable-length byte array column.
pub open spec fn spec_byte_array_name(lt: Option<LogicalType>, ct: ConvertedType, precision: i32, scale: i32) -> Seq<char> {
    if lt == Some(LogicalType::String) {
        "utf8"@
    } else if lt == Some(LogicalType::Json) {
        "json"@
    } else if lt == Some(LogicalType::Bson) {
        "bson"@
    } else if lt == Some(LogicalType::Enum) {
        "enum"@
    } else if is_decimal(lt) {
        spec_decimal_text(precision, scale)
    } else {
        match ct {
            ConvertedType::UTF8 => "utf8"@,
            ConvertedType::JSON => "json"@,
            ConvertedType::BSON => "bson"@,
            ConvertedType::ENUM => "enum"@,
            ConvertedType::DECIMAL => spec_decimal_text(precision, scale),
            _ => "bytes"@,
        }
    }
}

/// Brief name of a fixed-length byte array column.
pub open spec fn spec_fixed_len_name(
    lt: Option<LogicalType>,
    ct: ConvertedType,
    type_length: i32,
    precision: i32,
    scale: i32,
) -> Seq<char> {
    if lt == Some(LogicalType::Uuid) {
        "uuid"@
    } else if is_decimal(lt) {
        spec_decimal_text(precision, scale)
    } else if lt == Some(LogicalType::Float16) {
        "float16"@
    } else if ct == ConvertedType::DECIMAL {
        spec_decimal_text(precision, scale)
    } else {
        "bytes("@ + dec_int(type_length as int) + ")"@
    }
}

/// Brief name of a primitive column, by its physical type and annotations.
pub open spec fn spec_primitive_name(
    physical: PhysicalType,
    lt: Option<LogicalType>,
    ct: ConvertedType,
    type_length: i32,
    precision: i32,
    scale: i32,
) -> Seq<char> {
    match physical {
        PhysicalType::BOOLEAN => "bool"@,
        PhysicalType::INT32 => spec_int32_name(lt, ct, precision, scale),
        PhysicalType::INT64 => spec_int64_name(lt, ct, precision, scale),
        PhysicalType::INT96 => "timestamp"@,
        PhysicalType::FLOAT => "float32"@,
        PhysicalType::DOUBLE => "float64"@,
        PhysicalType::BYTE_ARRAY => spec_byte_array_name(lt, ct, precision, scale),
        PhysicalType::FIXED_LEN_BYTE_ARRAY => spec_fixed_len_name(
            lt,
            ct,
            type_length,
            precision,
            scale,
        ),
    }
}

/// Whether a group is annotated as a list.
pub open spec fn is_list_group(t: SchemaType) -> bool {
    t.logical_type == Some(LogicalType::List) || t.converted_type == ConvertedType::LIST
}

/// Whether a group is annotated as a map.
pub open spec fn is_map_group(t: SchemaType) -> bool {
    t.logical_type == Some(LogicalType::Mapping) || t.converted_type == ConvertedType::MAP
        || t.converted_type == ConvertedType::MAP_KEY_VALUE
}

/// Brief type name of a schema node: the primitive table above for columns;
/// `list<item>` for a LIST group (its item is the first field of its first
/// field when that is a group, else the first field itself); `map<key,value>`
/// for a MAP group (the first two fields of its first field, when that is a
/// group holding two); `struct` for any other group; `unknown` for a missing part.
pub open spec fn spec_type_name(t: SchemaType) -> Seq<char>
    decreases t,
{
    match t.kind {
        SchemaKind::Primitive { physical_type, type_length, precision, scale } => spec_primitive_name(
            physical_type,
            t.logical_type,
            t.converted_type,
            type_length,
            precision,
            scale,
        ),
        SchemaKind::Group { fields } => {
            if is_list_group(t) {
                let item = if fields@.len() == 0 {
                    "unknown"@
                } else {
                    match fields@[0].kind {
                        SchemaKind::Group { fields: inner } => if inner@.len() == 0 {
                            "unknown"@
                        } else {
                            spec_type_name(inner@[0])
                        },
                        SchemaKind::Primitive { .. } => spec_type_name(fields@[0]),
                    }
                };
                "list<"@ + item + ">"@
            } else if is_map_group(t) {
                let kv: (Seq<char>, Seq<char>) = if fields@.len() == 0 {
                    ("unknown"@, "unknown"@)
                } else {
                    match fields@[0].kind {
                        SchemaKind::Group { fields: inner } => if inner@.len() < 2 {
                            ("unknown"@, "unknown"@)
                        } else {
                            (spec_type_name(inner@[0]), spec_type_name(inner@[1]))
                        },
                        SchemaKind::Primitive { .. } => ("unknown"@, "unknown"@),
                    }
                };
                "map<"@ + kv.0 + ","@ + kv.1 + ">"@
            } else {
                "struct"@
            }
        },
    }
}

fn decimal_text(precision: i32, scale: i32) -> (s: String)
    ensures
        s@ == spec_decimal_text(precision, scale),
{
    let mut s = String::from_str("decimal(");
    s.append(fmt_i64(precision as i64).as_str());
    s.append(",");
    s.append(fmt_i64(scale as i64).as_str());
    s.append(")");
    s
}

fn int32_name(lt: Option<LogicalType>, ct: ConvertedType, precision: i32, scale: i32) -> (s: String)
    ensures
        s@ == spec_int32_name(lt, ct, precision, scale),
{
    match lt {
        Some(LogicalType::Date) => String::from_str("date"),
        Some(LogicalType::Integer { bit_width: 8, is_signed: true }) => String::from_str("int8"),
        Some(LogicalType::Integer { bit_width: 16, is_signed: true }) => String::from_str("int16"),
        Some(LogicalType::Integer { bit_width: 32, is_signed: true }) => String::from_str("int32"),
        Some(LogicalType::Integer { bit_width: 8, is_signed: false }) => String::from_str("uint8"),
        Some(LogicalType::Integer { bit_width: 16, is_signed: false }) => String::from_str(
            "uint16",
        ),
        Some(LogicalType::Integer { bit_width: 32, is_signed: false }) => String::from_str(
            "uint32",
        ),
        Some(LogicalType::Decimal { .. }) => decimal_text(precision, scale),
        Some(LogicalType::Time { unit: TimeUnit::MILLIS, .. }) => String::from_str("time[ms]"),
        _ => match ct {
            ConvertedType::DATE => String::from_str("date"),
            ConvertedType::INT_8 => String::from_str("int8"),
            ConvertedType::INT_16 => String::from_str("int16"),
            ConvertedType::UINT_8 => String::from_str("uint8"),
            ConvertedType::UINT_16 => String::from_str("uint16"),
            ConvertedType::UINT_32 => String::from_str("uint32"),
            ConvertedType::DECIMAL => decimal_text(precision, scale),
            ConvertedType::TIME_MILLIS => String::from_str("time[ms]"),
            _ => String::from_str("int32"),
        },
    }
}

fn int64_name(lt: Option<LogicalType>, ct: ConvertedType, precision: i32, scale: i32) -> (s: String)
    ensures
        s@ == spec_int64_name(lt, ct, precision, scale),
{
    match lt {
        Some(LogicalType::Integer { bit_width: 64, is_signed: true }) => String::from_str("int64"),
        Some(LogicalType::Integer { bit_width: 64, is_signed: false }) => String::from_str(
            "uint64",
        ),
        Some(LogicalType::Timestamp { unit: TimeUnit::MILLIS, is_adjusted_to_u_t_c: true }) =>
            String::from_str("timestamp[ms,UTC]"),
        Some(LogicalType::Timestamp { unit: TimeUnit::MICROS, is_adjusted_to_u_t_c: true }) =>
            String::from_str("timestamp[us,UTC]"),
        Some(LogicalType::Timestamp { unit: TimeUnit::NANOS, is_adjusted_to_u_t_c: true }) =>
            String::from_str("timestamp[ns,UTC]"),
        Some(LogicalType::Timestamp { unit: TimeUnit::MILLIS, is_adjusted_to_u_t_c: false }) =>
            String::from_str("timestamp[ms]"),
        Some(LogicalType::Timestamp { unit: TimeUnit::MICROS, is_adjusted_to_u_t_c: false }) =>
            String::from_str("timestamp[us]"),
        Some(LogicalType::Timestamp { unit: TimeUnit::NANOS, is_adjusted_to_u_t_c: false }) =>
            String::from_str("timestamp[ns]"),
        Some(LogicalType::Time { unit: TimeUnit::MICROS, .. }) => String::from_str("time[us]"),
        Some(LogicalType::Decimal { .. }) => decimal_text(precision, scale),
        _ => match ct {
            ConvertedType::UINT_64 => String::from_str("uint64"),
            ConvertedType::DECIMAL => decimal_text(precision, scale),
            ConvertedType::TIMESTAMP_MILLIS => String::from_str("timestamp[ms]"),
            ConvertedType::TIMESTAMP_MICROS => String::from_str("timestamp[us]"),
            ConvertedType::TIME_MICROS => String::from_str("time[us]"),
            _ => String::from_str("int64"),
        },
    }
}

fn byte_array_name(lt: Option<LogicalType>, ct: ConvertedType, precision: i32, scale: i32) -> (s: String)
    ensures
        s@ == spec_byte_array_name(lt, ct, precision, scale),
{
    match lt {
        Some(LogicalType::String) => String::from_str("utf8"),
        Some(LogicalType::Json) => String::from_str("json"),
        Some(LogicalType::Bson) => String::from_str("bson"),
        Some(LogicalType::Enum) => String::from_str("enum"),
        Some(LogicalType::Decimal { .. }) => decimal_text(precision, scale),
        _ => match ct {
            ConvertedType::UTF8 => String::from_str("utf8"),
            ConvertedType::JSON => String::from_str("json"),
            ConvertedType::BSON => String::from_str("bson"),
            ConvertedType::ENUM => String::from_str("enum"),
            ConvertedType::DECIMAL => decimal_text(precision, scale),
            _ => String::from_str("bytes"),
        },
    }
}

fn fixed_len_name(
    lt: Option<LogicalType>,
    ct: ConvertedType,
    type_length: i32,
    precision: i32,
    scale: i32,
) -> (s: String)
    ensures
        s@ == spec_fixed_len_name(lt, ct, type_length, precision, scale),
{
    match lt {
        Some(LogicalType::Uuid) => String::from_str("uuid"),
        Some(LogicalType::Decimal { .. }) => decimal_text(precision, scale),
        Some(LogicalType::Float16) => String::from_str("float16"),
        _ => match ct {
            ConvertedType::DECIMAL => decimal_text(precision, scale),
            _ => {
                let mut s = String::from_str("bytes(");
                s.append(fmt_i64(type_length as i64).as_str());
                s.append(")");
                s
            },
        },
    }
}

fn primitive_name_of(
    physical: PhysicalType,
    lt: Option<LogicalType>,
    ct: ConvertedType,
    type_length: i32,
    precision: i32,
    scale: i32,
) -> (s: String)
    ensures
        s@ == spec_primitive_name(physical, lt, ct, type_length, precision, scale),
{
    match physical {
        PhysicalType::BOOLEAN => String::from_str("bool"),
        PhysicalType::INT32 => int32_name(lt, ct, precision, scale),
        PhysicalType::INT64 => int64_name(lt, ct, precision, scale),
        PhysicalType::INT96 => String::from_str("timestamp"),
        PhysicalType::FLOAT => String::from_str("float32"),
        PhysicalType::DOUBLE => String::from_str("float64"),
        PhysicalType::BYTE_ARRAY => byte_array_name(lt, ct, precision, scale),
        PhysicalType::FIXED_LEN_BYTE_ARRAY => fixed_len_name(lt, ct, type_length, precision, scale),
    }
}

fn is_list(t: &SchemaType) -> (b: bool)
    ensures
        b == is_list_group(*t),
{
    let lt_list = match t.logical_type {
        Some(LogicalType::List) => true,
        _ => false,
    };
    let ct_list = match t.converted_type {
        ConvertedType::LIST => true,
        _ => false,
    };
    lt_list || ct_list
}

fn is_map(t: &SchemaType) -> (b: bool)
    ensures
        b == is_map_group(*t),
{
    let lt_map = match t.logical_type {
        Some(LogicalType::Mapping) => true,
        _ => false,
    };
    let ct_map = match t.converted_type {
        ConvertedType::MAP => true,
        ConvertedType::MAP_KEY_VALUE => true,
        _ => false,
    };
    lt_map || ct_map
}

/// The brief name of a primitive column: its physical type read through its
/// logical and converted annotations; never empty.
pub fn primitive_type_name(field: &SchemaType) -> (s: String)
    requires
        field.kind is Primitive,
    ensures
        s@ == spec_type_name(*field),
        s@.len() > 0,
{
    proof {
        law_primitive_name_nonempty(*field);
    }
    match &field.kind {
        SchemaKind::Primitive { physical_type, type_length, precision, scale } => primitive_name_of(
            *physical_type,
            field.logical_type,
            field.converted_type,
            *type_length,
            *precision,
            *scale,
        ),
        SchemaKind::Group { .. } => String::new(),
    }
}

/// Maps a schema node to its brief human-readable type name.
pub fn brief_type_name(field: &SchemaType) -> (s: String)
    ensures
        s@ == spec_type_name(*field),
    decreases field,
{
    match &field.kind {
        SchemaKind::Primitive { .. } => primitive_type_name(field),
        SchemaKind::Group { fields } => {
            if is_list(field) {
                let item = if fields.len() == 0 {
                    String::from_str("unknown")
                } else {
                    match &fields[0].kind {
                        SchemaKind::Group { fields: inner } => if inner.len() == 0 {
                            String::from_str("unknown")
                        } else {
                            brief_type_name(&inner[0])
                        },
                        SchemaKind::Primitive { .. } => brief_type_name(&fields[0]),
                    }
                };
                let mut s = String::from_str("list<");
                s.append(item.as_str());
                s.append(">");
                s
            } else if is_map(field) {
                let (k, v) = if fields.len() == 0 {
                    (String::from_str("unknown"), String::from_str("unknown"))
                } else {
                    match &fields[0].kind {
                        SchemaKind::Group { fields: inner } => if inner.len() < 2 {
                            (String::from_str("unknown"), String::from_str("unknown"))
                        } else {
                            (brief_type_name(&inner[0]), brief_type_name(&inner[1]))
                        },
                        SchemaKind::Primitive { .. } => (
                            String::from_str("unknown"),
                            String::from_str("unknown"),
                        ),
                    }
                };
                let mut s = String::from_str("map<");
                s.append(k.as_str());
                s.append(",");
                s.append(v.as_str());
                s.append(">");
                s
            } else {
                String::from_str("struct")
            }
        },
    }
}

/// The `name: type` part of the brief for one field.
pub open spec fn spec_field_brief(f: SchemaType) -> Seq<char> {
    f.name@ + ": "@ + spec_type_name(f)
}

/// The one-line summary of a group's top-level fields: `(a: t1, b: t2)`,
/// or `()` for a group without fields.
pub open spec fn spec_schema_brief(fields: Seq<SchemaType>) -> Seq<char> {
    if fields.len() == 0 {
        "()"@
    } else {
        "("@ + join(Seq::new(fields.len(), |i: int| spec_field_brief(fields[i])), ", "@) + ")"@
    }
}

/// Returns the comma-separated `(name: type)` summary of the top-level
/// columns of a root (group) schema node.
pub fn schema_brief(schema: &SchemaType) -> (s: String)
    requires
        schema.kind is Group,
    ensures
        s@ == spec_schema_brief(schema.kind->Group_fields@),
{
    let fields = match &schema.kind {
        SchemaKind::Group { fields } => fields,
        SchemaKind::Primitive { .. } => {
            return String::new();
        },
    };
    if fields.len() == 0 {
        return String::from_str("()");
    }
    let ghost parts = Seq::new(fields@.len(), |i: int| spec_field_brief(fields@[i]));
    let mut acc = String::new();
    let mut i: usize = 0;
    while i < fields.len()
        invariant
            0 <= i <= fields.len(),
            parts.len() == fields.len(),
            forall|j: int| 0 <= j < fields.len() ==> parts[j] == spec_field_brief(#[trigger] fields@[j]),
            acc@ == join(parts.take(i as int), ", "@),
        decreases fields.len() - i,
    {
        let mut part = String::new();
        part.append(fields[i].name.as_str());
        part.append(": ");
        part.append(brief_type_name(&fields[i]).as_str());
        join_push(&mut acc, i, part.as_str(), ", ", Ghost(parts));
        i = i + 1;
    }
    assert(parts.take(fields.len() as int) =~= parts);
    let mut s = String::from_str("(");
    s.append(acc.as_str());
    s.append(")");
    s
}

/// The brief name of a primitive column is never empty, whatever its
/// physical type and annotations.
pub proof fn law_primitive_name_nonempty(t: SchemaType)
    requires
        t.kind is Primitive,
    ensures
        spec_type_name(t).len() > 0,
{
    reveal_strlit("bool");
    reveal_strlit("timestamp");
    reveal_strlit("float32");
    reveal_strlit("float64");
    reveal_strlit("date");
    reveal_strlit("int8");
    reveal_strlit("int16");
    reveal_strlit("int32");
    reveal_strlit("uint8");
    reveal_strlit("uint16");
    reveal_strlit("uint32");
    reveal_strlit("time[ms]");
    reveal_strlit("int64");
    reveal_strlit("uint64");
    reveal_strlit("timestamp[ms,UTC]");
    reveal_strlit("timestamp[us,UTC]");
    reveal_strlit("timestamp[ns,UTC]");
    reveal_strlit("timestamp[ms]");
    reveal_strlit("timestamp[us]");
    reveal_strlit("timestamp[ns]");
    reveal_strlit("time[us]");
    reveal_strlit("utf8");
    reveal_strlit("json");
    reveal_strlit("bson");
    reveal_strlit("enum");
    reveal_strlit("bytes");
    reveal_strlit("uuid");
    reveal_strlit("float16");
    reveal_strlit("decimal(");
    reveal_strlit("bytes(");
}

} // verus!
