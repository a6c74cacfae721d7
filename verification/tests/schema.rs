use pqls::parquet_types::{ConvertedType, LogicalType, PhysicalType, Repetition, TimeUnit};
use pqls::schema::{
    column_names, format_field_type, get_logical_type_str, emit_json, emit_text, schema_fields,
    unknown_column_error, ColumnInfo,
};

fn col(
    name: &str,
    physical: PhysicalType,
    logical: Option<LogicalType>,
    converted: ConvertedType,
    repetition: Option<Repetition>,
) -> ColumnInfo {
    ColumnInfo {
        name: name.to_string(),
        physical_type: physical,
        logical_type: logical,
        converted_type: converted,
        repetition,
    }
}

fn taxi_columns() -> Vec<ColumnInfo> {
    vec![
        col(
            "VendorID",
            PhysicalType::INT32,
            Some(LogicalType::Integer { bit_width: 32, is_signed: true }),
            ConvertedType::INT_32,
            Some(Repetition::OPTIONAL),
        ),
        col(
            "tpep_pickup_datetime",
            PhysicalType::INT64,
            Some(LogicalType::Timestamp { is_adjusted_to_u_t_c: false, unit: TimeUnit::MICROS }),
            ConvertedType::TIMESTAMP_MICROS,
            Some(Repetition::OPTIONAL),
        ),
        col("trip_distance", PhysicalType::DOUBLE, None, ConvertedType::NONE, None),
        col("flag", PhysicalType::BYTE_ARRAY, None, ConvertedType::UTF8, Some(Repetition::REQUIRED)),
        col("tags", PhysicalType::BYTE_ARRAY, None, ConvertedType::NONE, Some(Repetition::REPEATED)),
    ]
}

#[test]
fn logical_type_labels() {
    let cols = taxi_columns();
    assert_eq!(get_logical_type_str(&cols[0]), Some("INT(32, true)".to_string()));
    assert_eq!(get_logical_type_str(&cols[1]), Some("TIMESTAMP_MICROS".to_string()));
    assert_eq!(get_logical_type_str(&cols[2]), None);
    assert_eq!(get_logical_type_str(&cols[3]), Some("UTF8".to_string()));
    let dec = col(
        "d",
        PhysicalType::INT64,
        Some(LogicalType::Decimal { scale: 2, precision: 10 }),
        ConvertedType::DECIMAL,
        None,
    );
    assert_eq!(get_logical_type_str(&dec), Some("DECIMAL(10,2)".to_string()));
    let time = col(
        "t",
        PhysicalType::INT32,
        Some(LogicalType::Time { is_adjusted_to_u_t_c: false, unit: TimeUnit::MILLIS }),
        ConvertedType::TIME_MILLIS,
        None,
    );
    assert_eq!(
        get_logical_type_str(&time),
        Some("Time { is_adjusted_to_u_t_c: false, unit: MILLIS(MilliSeconds) }".to_string())
    );
    let unknown = col("u", PhysicalType::INT32, Some(LogicalType::Unknown), ConvertedType::DATE, None);
    assert_eq!(get_logical_type_str(&unknown), Some("DATE".to_string()));
    assert_eq!(format_field_type(&cols[0]), "INT32 INT(32, true)");
    assert_eq!(format_field_type(&cols[2]), "DOUBLE");
}

#[test]
fn schema_text_lines_follow_schema_order() {
    let cols = taxi_columns();
    assert_eq!(
        emit_text(&cols, &Some(vec!["trip_distance".to_string(), "VendorID".to_string()])),
        vec!["VendorID INT32 INT(32, true)", "trip_distance DOUBLE"]
    );
    assert_eq!(emit_text(&cols, &None).len(), 5);
}

#[test]
fn schema_fields_keep_schema_index() {
    let cols = taxi_columns();
    let fields = schema_fields(&cols, &Some(vec!["trip_distance".to_string(), "VendorID".to_string()]));
    assert_eq!(fields.len(), 2);
    assert_eq!(fields[0].index, 0);
    assert_eq!(fields[0].name, "VendorID");
    assert_eq!(fields[0].physical_type, "INT32");
    assert_eq!(fields[0].logical_type, Some("INT(32, true)".to_string()));
    assert_eq!(fields[0].repetition, "OPTIONAL");
    assert_eq!(fields[1].index, 2);
    assert_eq!(fields[1].logical_type, None);
    assert_eq!(fields[1].repetition, "REQUIRED");
    let all = schema_fields(&cols, &None);
    assert_eq!(all[3].repetition, "REQUIRED");
    assert_eq!(all[4].repetition, "REPEATED");

    let doc = emit_json("/data/t.parquet".to_string(), 7, 1, Some("w".to_string()), &cols, &None);
    assert_eq!(doc.file, "/data/t.parquet");
    assert_eq!(doc.num_rows, 7);
    assert_eq!(doc.num_row_groups, 1);
    assert_eq!(doc.created_by, Some("w".to_string()));
    assert_eq!(doc.fields.len(), 5);
}

#[test]
fn unknown_columns_are_reported() {
    let names = column_names(&taxi_columns());
    assert_eq!(names[0], "VendorID");
    assert_eq!(unknown_column_error(&names, &vec!["VendorID".to_string()]), None);
    let short = vec!["id".to_string(), "ts".to_string()];
    assert_eq!(
        unknown_column_error(&short, &vec!["id".to_string(), "xyz".to_string(), "q".to_string()]),
        Some("error: unknown column: \"xyz\"; valid columns: id, ts".to_string())
    );
    assert_eq!(
        unknown_column_error(&vec![], &vec!["a".to_string()]),
        Some("error: unknown column: \"a\"; valid columns: ".to_string())
    );
}

#[test]
fn logical_labels_for_agents() {
    let d = col(
        "d",
        PhysicalType::INT64,
        Some(LogicalType::Decimal { scale: 2, precision: 10 }),
        ConvertedType::DECIMAL,
        None,
    );
    let t = col(
        "t",
        PhysicalType::INT64,
        Some(LogicalType::Timestamp { is_adjusted_to_u_t_c: true, unit: TimeUnit::MICROS }),
        ConvertedType::TIMESTAMP_MICROS,
        None,
    );
    let i = col(
        "i",
        PhysicalType::INT32,
        Some(LogicalType::Integer { bit_width: 32, is_signed: true }),
        ConvertedType::INT_32,
        None,
    );
    let p = col("p", PhysicalType::INT64, None, ConvertedType::NONE, None);
    assert_eq!(get_logical_type_str(&d), Some("DECIMAL(10,2)".to_string()));
    assert_eq!(get_logical_type_str(&t), Some("TIMESTAMP_MICROS".to_string()));
    assert_eq!(get_logical_type_str(&i), Some("INT(32, true)".to_string()));
    assert_eq!(get_logical_type_str(&p), None);
    assert_eq!(format_field_type(&d), "INT64 DECIMAL(10,2)");
}
