use pqls::parquet_types::{
    ConvertedType, LogicalType, PhysicalType, SchemaKind, SchemaType, TimeUnit,
};
use pqls::s3::schema_brief::{brief_type_name, primitive_type_name, schema_brief};

/// The converted type that the parquet schema builder fills in for a
/// logical type.
fn converted_for(logical: Option<LogicalType>) -> ConvertedType {
    match logical {
        Some(LogicalType::String) => ConvertedType::UTF8,
        Some(LogicalType::Date) => ConvertedType::DATE,
        Some(LogicalType::Uuid) => ConvertedType::NONE,
        Some(LogicalType::Timestamp { unit: TimeUnit::MILLIS, .. }) => ConvertedType::TIMESTAMP_MILLIS,
        Some(LogicalType::Timestamp { unit: TimeUnit::MICROS, .. }) => ConvertedType::TIMESTAMP_MICROS,
        Some(LogicalType::Time { unit: TimeUnit::MILLIS, .. }) => ConvertedType::TIME_MILLIS,
        Some(LogicalType::Time { unit: TimeUnit::MICROS, .. }) => ConvertedType::TIME_MICROS,
        Some(LogicalType::Integer { bit_width, is_signed }) => match (bit_width, is_signed) {
            (8, true) => ConvertedType::INT_8,
            (16, true) => ConvertedType::INT_16,
            (32, true) => ConvertedType::INT_32,
            (64, true) => ConvertedType::INT_64,
            (8, false) => ConvertedType::UINT_8,
            (16, false) => ConvertedType::UINT_16,
            (32, false) => ConvertedType::UINT_32,
            (64, false) => ConvertedType::UINT_64,
            _ => ConvertedType::NONE,
        },
        _ => ConvertedType::NONE,
    }
}

fn primitive_with_len(
    name: &str,
    physical: PhysicalType,
    logical: Option<LogicalType>,
    len: i32,
) -> SchemaType {
    SchemaType {
        name: name.to_string(),
        logical_type: logical,
        converted_type: converted_for(logical),
        kind: SchemaKind::Primitive {
            physical_type: physical,
            type_length: len,
            precision: -1,
            scale: -1,
        },
    }
}

fn primitive(name: &str, physical: PhysicalType, logical: Option<LogicalType>) -> SchemaType {
    primitive_with_len(name, physical, logical, -1)
}

fn make_schema(fields: Vec<SchemaType>) -> SchemaType {
    SchemaType {
        name: "schema".to_string(),
        logical_type: None,
        converted_type: ConvertedType::NONE,
        kind: SchemaKind::Group { fields },
    }
}

fn ts(unit: TimeUnit, utc: bool) -> Option<LogicalType> {
    Some(LogicalType::Timestamp { is_adjusted_to_u_t_c: utc, unit })
}

fn int_type(bit_width: i8, is_signed: bool) -> Option<LogicalType> {
    Some(LogicalType::Integer { bit_width, is_signed })
}

#[test]
fn test_schema_brief_basic() {
    let schema = make_schema(vec![
        primitive("id", PhysicalType::INT64, None),
        primitive("ts", PhysicalType::INT64, ts(TimeUnit::MILLIS, true)),
        primitive("price", PhysicalType::DOUBLE, None),
        primitive("qty", PhysicalType::INT32, None),
        primitive("side", PhysicalType::BYTE_ARRAY, Some(LogicalType::String)),
    ]);

    let brief = schema_brief(&schema);
    assert_eq!(
        brief,
        "(id: int64, ts: timestamp[ms,UTC], price: float64, qty: int32, side: utf8)"
    );
}

#[test]
fn test_type_name_bool() {
    let f = primitive("x", PhysicalType::BOOLEAN, None);
    assert_eq!(brief_type_name(&f), "bool");
}

#[test]
fn test_type_name_int32_date() {
    let f = primitive("d", PhysicalType::INT32, Some(LogicalType::Date));
    assert_eq!(brief_type_name(&f), "date");
}

#[test]
fn test_type_name_int32_signed_integers() {
    let f8 = primitive("x", PhysicalType::INT32, int_type(8, true));
    let f16 = primitive("x", PhysicalType::INT32, int_type(16, true));
    let f32_ = primitive("x", PhysicalType::INT32, int_type(32, true));
    assert_eq!(brief_type_name(&f8), "int8");
    assert_eq!(brief_type_name(&f16), "int16");
    assert_eq!(brief_type_name(&f32_), "int32");
}

#[test]
fn test_type_name_int32_unsigned_integers() {
    let f8 = primitive("x", PhysicalType::INT32, int_type(8, false));
    let f16 = primitive("x", PhysicalType::INT32, int_type(16, false));
    let f32_ = primitive("x", PhysicalType::INT32, int_type(32, false));
    assert_eq!(brief_type_name(&f8), "uint8");
    assert_eq!(brief_type_name(&f16), "uint16");
    assert_eq!(brief_type_name(&f32_), "uint32");
}

#[test]
fn test_type_name_int64_timestamps() {
    let ms_utc = primitive("t", PhysicalType::INT64, ts(TimeUnit::MILLIS, true));
    let us_utc = primitive("t", PhysicalType::INT64, ts(TimeUnit::MICROS, true));
    let ns_utc = primitive("t", PhysicalType::INT64, ts(TimeUnit::NANOS, true));
    let ms = primitive("t", PhysicalType::INT64, ts(TimeUnit::MILLIS, false));
    let us = primitive("t", PhysicalType::INT64, ts(TimeUnit::MICROS, false));
    let ns = primitive("t", PhysicalType::INT64, ts(TimeUnit::NANOS, false));
    assert_eq!(brief_type_name(&ms_utc), "timestamp[ms,UTC]");
    assert_eq!(brief_type_name(&us_utc), "timestamp[us,UTC]");
    assert_eq!(brief_type_name(&ns_utc), "timestamp[ns,UTC]");
    assert_eq!(brief_type_name(&ms), "timestamp[ms]");
    assert_eq!(brief_type_name(&us), "timestamp[us]");
    assert_eq!(brief_type_name(&ns), "timestamp[ns]");
}

#[test]
fn test_type_name_float_double() {
    let f = primitive("f", PhysicalType::FLOAT, None);
    let d = primitive("d", PhysicalType::DOUBLE, None);
    assert_eq!(brief_type_name(&f), "float32");
    assert_eq!(brief_type_name(&d), "float64");
}

#[test]
fn test_type_name_byte_array_utf8() {
    let f = primitive("s", PhysicalType::BYTE_ARRAY, Some(LogicalType::String));
    assert_eq!(brief_type_name(&f), "utf8");
}

#[test]
fn test_type_name_byte_array_raw() {
    let f = primitive("b", PhysicalType::BYTE_ARRAY, None);
    assert_eq!(brief_type_name(&f), "bytes");
}

#[test]
fn test_type_name_fixed_len_uuid() {
    let f = primitive_with_len(
        "u",
        PhysicalType::FIXED_LEN_BYTE_ARRAY,
        Some(LogicalType::Uuid),
        16,
    );
    assert_eq!(brief_type_name(&f), "uuid");
}

#[test]
fn test_type_name_fixed_len_bytes() {
    let f = primitive_with_len("b", PhysicalType::FIXED_LEN_BYTE_ARRAY, None, 12);
    assert_eq!(brief_type_name(&f), "bytes(12)");
}

#[test]
fn test_type_name_int96() {
    let f = primitive("t", PhysicalType::INT96, None);
    assert_eq!(brief_type_name(&f), "timestamp");
}

#[test]
fn test_type_name_int64_uint64() {
    let f = primitive("x", PhysicalType::INT64, int_type(64, false));
    assert_eq!(brief_type_name(&f), "uint64");
}

#[test]
fn test_type_name_time_millis() {
    let f = primitive(
        "t",
        PhysicalType::INT32,
        Some(LogicalType::Time { is_adjusted_to_u_t_c: false, unit: TimeUnit::MILLIS }),
    );
    assert_eq!(brief_type_name(&f), "time[ms]");
}

#[test]
fn test_type_name_time_micros() {
    let f = primitive(
        "t",
        PhysicalType::INT64,
        Some(LogicalType::Time { is_adjusted_to_u_t_c: false, unit: TimeUnit::MICROS }),
    );
    assert_eq!(brief_type_name(&f), "time[us]");
}

#[test]
fn test_schema_brief_empty() {
    let schema = make_schema(vec![]);
    assert_eq!(schema_brief(&schema), "()");
}

#[test]
fn decimal_and_converted_fallbacks() {
    let mut d = primitive("d", PhysicalType::INT64, None);
    d.converted_type = ConvertedType::DECIMAL;
    d.kind = SchemaKind::Primitive {
        physical_type: PhysicalType::INT64,
        type_length: -1,
        precision: 10,
        scale: 2,
    };
    assert_eq!(brief_type_name(&d), "decimal(10,2)");
    let mut u = primitive("u", PhysicalType::INT32, None);
    u.converted_type = ConvertedType::UINT_16;
    assert_eq!(brief_type_name(&u), "uint16");
}

#[test]
fn list_and_map_groups() {
    let item = primitive("item", PhysicalType::INT32, None);
    let list_group = SchemaType {
        name: "list".to_string(),
        logical_type: None,
        converted_type: ConvertedType::NONE,
        kind: SchemaKind::Group { fields: vec![item] },
    };
    let list = SchemaType {
        name: "xs".to_string(),
        logical_type: Some(LogicalType::List),
        converted_type: ConvertedType::LIST,
        kind: SchemaKind::Group { fields: vec![list_group] },
    };
    assert_eq!(brief_type_name(&list), "list<int32>");

    let kv = SchemaType {
        name: "key_value".to_string(),
        logical_type: None,
        converted_type: ConvertedType::NONE,
        kind: SchemaKind::Group {
            fields: vec![
                primitive("key", PhysicalType::BYTE_ARRAY, Some(LogicalType::String)),
                primitive("value", PhysicalType::INT64, None),
            ],
        },
    };
    let map = SchemaType {
        name: "m".to_string(),
        logical_type: Some(LogicalType::Mapping),
        converted_type: ConvertedType::MAP,
        kind: SchemaKind::Group { fields: vec![kv] },
    };
    assert_eq!(brief_type_name(&map), "map<utf8,int64>");

    let plain = SchemaType {
        name: "s".to_string(),
        logical_type: None,
        converted_type: ConvertedType::NONE,
        kind: SchemaKind::Group { fields: vec![] },
    };
    assert_eq!(brief_type_name(&plain), "struct");
    assert_eq!(schema_brief(&make_schema(vec![list, map])), "(xs: list<int32>, m: map<utf8,int64>)");
}

#[test]
fn primitive_names_without_annotation() {
    assert_eq!(primitive_type_name(&primitive("a", PhysicalType::INT32, None)), "int32");
    assert_eq!(primitive_type_name(&primitive("b", PhysicalType::INT64, None)), "int64");
    assert_eq!(primitive_type_name(&primitive("c", PhysicalType::BYTE_ARRAY, None)), "bytes");
    assert_eq!(primitive_type_name(&primitive("d", PhysicalType::INT96, None)), "timestamp");
    assert_eq!(
        primitive_type_name(&primitive_with_len("e", PhysicalType::FIXED_LEN_BYTE_ARRAY, None, 12)),
        "bytes(12)"
    );
    assert_eq!(
        primitive_type_name(&primitive("f", PhysicalType::BYTE_ARRAY, Some(LogicalType::String))),
        "utf8"
    );
}
