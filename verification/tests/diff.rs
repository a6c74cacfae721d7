use pqls::diff::{column_types, diff_schemas, emit_text, DiffOutcome, TypeInfo};
use pqls::cli::diff_exit_code;
use pqls::parquet_types::{ConvertedType, LogicalType, PhysicalType};
use pqls::schema::ColumnInfo;

fn t(physical: &str, logical: Option<&str>) -> TypeInfo {
    TypeInfo { physical: physical.to_string(), logical: logical.map(|s| s.to_string()) }
}

fn field(name: &str, physical: &str, logical: Option<&str>) -> (String, TypeInfo) {
    (name.to_string(), t(physical, logical))
}

#[test]
fn identical_schemas() {
    let a = vec![field("id", "INT64", None), field("ts", "INT64", Some("TIMESTAMP_MILLIS"))];
    let b = vec![field("id", "INT64", None), field("ts", "INT64", Some("TIMESTAMP_MILLIS"))];
    let outcome = diff_schemas(&a, &b);
    assert!(matches!(outcome, DiffOutcome::Identical));
    assert_eq!(diff_exit_code(&outcome), 0);
    assert_eq!(emit_text(&outcome), Vec::<String>::new());
}

#[test]
fn added_removed_changed_in_union_order() {
    let a = vec![field("id", "INT64", None), field("old", "DOUBLE", None), field("v", "INT32", None)];
    let b = vec![
        field("new", "BYTE_ARRAY", Some("STRING")),
        field("id", "INT64", None),
        field("v", "INT64", None),
    ];
    let outcome = diff_schemas(&a, &b);
    assert_eq!(diff_exit_code(&outcome), 1);
    match &outcome {
        DiffOutcome::Different { added, removed, changed, union_order } => {
            assert_eq!(added.len(), 1);
            assert_eq!(added[0].name, "new");
            assert_eq!(removed.len(), 1);
            assert_eq!(removed[0].name, "old");
            assert_eq!(changed.len(), 1);
            assert_eq!(changed[0].name, "v");
            assert_eq!(union_order, &vec!["id", "old", "v", "new"]);
        }
        DiffOutcome::Identical => panic!("schemas differ"),
    }
    assert_eq!(
        emit_text(&outcome),
        vec!["- old DOUBLE", "~ v INT32 → INT64", "+ new BYTE_ARRAY STRING"]
    );
}

#[test]
fn type_info_display() {
    assert_eq!(t("INT64", None).display(), "INT64");
    assert_eq!(t("INT64", Some("TIMESTAMP_MICROS")).display(), "INT64 TIMESTAMP_MICROS");
}

#[test]
fn column_types_from_schema() {
    let cols = vec![
        ColumnInfo {
            name: "s".to_string(),
            physical_type: PhysicalType::BYTE_ARRAY,
            logical_type: Some(LogicalType::String),
            converted_type: ConvertedType::UTF8,
            repetition: None,
        },
        ColumnInfo {
            name: "n".to_string(),
            physical_type: PhysicalType::INT32,
            logical_type: None,
            converted_type: ConvertedType::NONE,
            repetition: None,
        },
    ];
    let types = column_types(&cols);
    assert_eq!(types[0].0, "s");
    assert_eq!(types[0].1.display(), "BYTE_ARRAY STRING");
    assert_eq!(types[1].1.display(), "INT32");
}

#[test]
fn swapping_schemas_swaps_the_report() {
    let a = vec![field("id", "INT64", None), field("old", "DOUBLE", None), field("v", "INT32", None)];
    let b = vec![field("new", "BYTE_ARRAY", Some("STRING")), field("id", "INT64", None), field("v", "INT64", None)];
    match (diff_schemas(&a, &b), diff_schemas(&b, &a)) {
        (
            DiffOutcome::Different { added: ab_added, removed: ab_removed, changed: ab_changed, .. },
            DiffOutcome::Different { added: ba_added, removed: ba_removed, changed: ba_changed, .. },
        ) => {
            assert_eq!(ab_added[0].name, ba_removed[0].name);
            assert_eq!(ab_removed[0].name, ba_added[0].name);
            assert_eq!(ab_changed[0].from.display(), ba_changed[0].to.display());
            assert_eq!(ab_changed[0].to.display(), ba_changed[0].from.display());
        }
        _ => panic!("both orders differ"),
    }
}
