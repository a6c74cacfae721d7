use pqls::inspect::{
    all_no_stats, detail_lines, format_statistics, overview_lines, scan_stats_lines,
    strip_trailing_dot_zero, ColumnChunkInfo, ColumnStats, RowGroupInfo, ScanColumn, StatValues,
};
use pqls::parquet_types::{ConvertedType, LogicalType, PhysicalType, Repetition, TimeUnit};
use pqls::schema::ColumnInfo;

fn column(name: &str, physical: PhysicalType, logical: Option<LogicalType>) -> ColumnInfo {
    ColumnInfo {
        name: name.to_string(),
        physical_type: physical,
        logical_type: logical,
        converted_type: ConvertedType::NONE,
        repetition: Some(Repetition::OPTIONAL),
    }
}

fn test_columns() -> Vec<ColumnInfo> {
    vec![
        column("id", PhysicalType::INT64, None),
        column("name", PhysicalType::BYTE_ARRAY, Some(LogicalType::String)),
        column("score", PhysicalType::DOUBLE, None),
    ]
}

fn int64_stats(min: i64, max: i64, nulls: u64) -> Option<ColumnStats> {
    Some(ColumnStats {
        values: StatValues::Int64 { min: Some(min), max: Some(max) },
        null_count: Some(nulls),
    })
}

#[test]
fn test_inspect_file_default() {
    let lines = overview_lines("test.parquet", 5, 1, 1234, &test_columns(), false);
    let output = lines.join("\n");
    assert!(output.contains("rows:"), "missing rows line: {output}");
    assert!(output.contains('5'.to_string().as_str()), "row count missing: {output}");
    assert!(output.contains("schema:"), "missing schema: {output}");
    assert!(output.contains("id"), "missing column id: {output}");
    assert!(output.contains("name"), "missing column name: {output}");
    assert!(output.contains("score"), "missing column score: {output}");
}

#[test]
fn overview_lines_exact() {
    let lines = overview_lines("data/t.parquet", 5, 2, 1024, &test_columns(), false);
    assert_eq!(
        lines,
        vec![
            "data/t.parquet",
            "  rows:        5",
            "  row groups:  2",
            "  file size:   1 KiB",
            "  schema:",
            "    [0] id (INT64)",
            "    [1] name (BYTE_ARRAY [STRING])",
            "    [2] score (DOUBLE)",
        ]
    );
    let quiet = overview_lines("data/t.parquet", 5, 2, 1024, &test_columns(), true);
    assert_eq!(quiet, vec!["data/t.parquet\t5\t1 KiB"]);
}

#[test]
fn strip_trailing_dot_zero_removes_suffix() {
    assert_eq!(strip_trailing_dot_zero("42.0".into()), "42");
    assert_eq!(strip_trailing_dot_zero("3.14".into()), "3.14");
    assert_eq!(strip_trailing_dot_zero("2024-01-01T00:00:00Z".into()), "2024-01-01T00:00:00Z");
}

#[test]
fn strip_trailing_dot_zero_edge_cases() {
    assert_eq!(strip_trailing_dot_zero("-7.0".into()), "-7");
    assert_eq!(strip_trailing_dot_zero("+7.0".into()), "+7");
    assert_eq!(strip_trailing_dot_zero(".0".into()), ".0");
    assert_eq!(strip_trailing_dot_zero("1.50".into()), "1.50");
    assert_eq!(strip_trailing_dot_zero("x.0".into()), "x.0");
    assert_eq!(strip_trailing_dot_zero("9223372036854775807.0".into()), "9223372036854775807");
    assert_eq!(strip_trailing_dot_zero("9223372036854775808.0".into()), "9223372036854775808.0");
    assert_eq!(strip_trailing_dot_zero("-9223372036854775808.0".into()), "-9223372036854775808");
}

#[test]
fn format_statistics_by_type() {
    let i32s = ColumnStats {
        values: StatValues::Int32 { min: Some(-3), max: None },
        null_count: Some(2),
    };
    assert_eq!(format_statistics(&i32s), "min=Some(-3) max=None nulls=2");
    let bools = ColumnStats {
        values: StatValues::Boolean { min: Some(false), max: Some(true) },
        null_count: None,
    };
    assert_eq!(format_statistics(&bools), "min=Some(false) max=Some(true) nulls=0");
    let doubles = ColumnStats {
        values: StatValues::Double { min: Some("10.5".to_string()), max: Some("50.0".to_string()) },
        null_count: Some(0),
    };
    assert_eq!(format_statistics(&doubles), "min=Some(10.5) max=Some(50.0) nulls=0");
    let bytes = ColumnStats {
        values: StatValues::ByteArray {
            min: Some(b"alice".to_vec()),
            max: Some(b"say \"hi\"".to_vec()),
        },
        null_count: Some(1),
    };
    assert_eq!(
        format_statistics(&bytes),
        "min=Some(\"alice\") max=Some(\"say \\\"hi\\\"\") nulls=1"
    );
    let invalid = ColumnStats {
        values: StatValues::ByteArray { min: Some(vec![0x61, 0xff]), max: None },
        null_count: Some(0),
    };
    assert_eq!(format_statistics(&invalid), "min=Some(\"a\u{fffd}\") max=None nulls=0");
    let int96 = ColumnStats { values: StatValues::Int96, null_count: Some(4) };
    assert_eq!(format_statistics(&int96), "nulls=4");
    let fixed = ColumnStats { values: StatValues::FixedLenByteArray, null_count: None };
    assert_eq!(format_statistics(&fixed), "nulls=0");
}

fn two_row_groups() -> Vec<RowGroupInfo> {
    vec![
        RowGroupInfo {
            num_rows: 3,
            compressed_size: 2048,
            columns: vec![
                ColumnChunkInfo { name: "id".to_string(), stats: int64_stats(1, 3, 0) },
                ColumnChunkInfo { name: "name".to_string(), stats: None },
            ],
        },
        RowGroupInfo {
            num_rows: 2,
            compressed_size: 100,
            columns: vec![
                ColumnChunkInfo { name: "id".to_string(), stats: int64_stats(4, 5, 1) },
                ColumnChunkInfo { name: "name".to_string(), stats: None },
            ],
        },
    ]
}

#[test]
fn detail_lines_with_stats() {
    let rgs = two_row_groups();
    assert!(!all_no_stats(&rgs));
    assert_eq!(
        detail_lines(&rgs, &None, false, false),
        vec![
            "  row groups:",
            "    row group 0 — 3 rows, 2 KiB compressed",
            "      id → min=Some(1) max=Some(3) nulls=0",
            "      name → (no stats)",
            "    row group 1 — 2 rows, 100 B compressed",
            "      id → min=Some(4) max=Some(5) nulls=1",
            "      name → (no stats)",
        ]
    );
    assert_eq!(
        detail_lines(&rgs, &Some(vec!["id".to_string()]), true, false),
        vec!["0\tid\tmin=Some(1) max=Some(3) nulls=0", "1\tid\tmin=Some(4) max=Some(5) nulls=1"]
    );
}

#[test]
fn detail_lines_without_stats_note_or_scan() {
    let rgs = vec![RowGroupInfo {
        num_rows: 5,
        compressed_size: 10,
        columns: vec![ColumnChunkInfo { name: "id".to_string(), stats: None }],
    }];
    assert!(all_no_stats(&rgs));
    assert_eq!(
        detail_lines(&rgs, &None, false, false),
        vec![
            "  row groups:",
            "    row group 0 — 5 rows, 10 B compressed",
            "# note: no column statistics — file was written without stats (common with Arrow writers)",
            "#       run with --scan-stats to compute min/max from data (reads full file)",
        ]
    );
    assert_eq!(
        detail_lines(&rgs, &None, false, true),
        vec!["  row groups:", "    row group 0 — 5 rows, 10 B compressed"]
    );
}

#[test]
fn scan_stats_lines_format() {
    let cols = vec![
        ScanColumn {
            name: "id".to_string(),
            min: Some("1.0".to_string()),
            max: Some("5.0".to_string()),
            null_count: Some(0),
            n_distinct: Some(5),
        },
        ScanColumn {
            name: "name".to_string(),
            min: Some("alice".to_string()),
            max: None,
            null_count: Some(2),
            n_distinct: Some(4),
        },
        ScanColumn { name: "x".to_string(), min: None, max: None, null_count: None, n_distinct: None },
    ];
    assert_eq!(
        scan_stats_lines(&cols, &None),
        vec![
            "  scan stats (file-level):",
            "    id → min=1 max=5 nulls=0 n_distinct=5",
            "    name → min=alice max=null nulls=2 n_distinct=3",
            "    x → min=null max=null nulls=0 n_distinct=?",
        ]
    );
    assert_eq!(
        scan_stats_lines(&cols, &Some(vec!["x".to_string()])),
        vec!["  scan stats (file-level):", "    x → min=null max=null nulls=0 n_distinct=?"]
    );
}

#[test]
fn overview_type_uses_logical_label() {
    let cols = vec![column(
        "ts",
        PhysicalType::INT64,
        Some(LogicalType::Timestamp { is_adjusted_to_u_t_c: true, unit: TimeUnit::MICROS }),
    )];
    let lines = overview_lines("f", 0, 0, 0, &cols, false);
    assert_eq!(lines[5], "    [0] ts (INT64 [TIMESTAMP_MICROS])");
}
