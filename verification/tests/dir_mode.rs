use pqls::dir_mode::{
    aggregate_partitions, empty_listing_lines, file_listing_lines, listing_total_lines,
    listing_totals, parse_hive_partition, partition_table_lines, FileSummary, PartitionEntry,
    PathPart,
};
use pqls::parquet_types::PhysicalType;

fn parts(path: &str) -> Vec<PathPart> {
    path.split('/')
        .filter(|s| !s.is_empty())
        .map(|s| PathPart { raw: s.as_bytes().to_vec(), text: Some(s.to_string()) })
        .collect()
}

#[test]
fn test_directory_partition_discovery() {
    let root = parts("/data/ds");
    let a = parse_hive_partition(&Some(parts("/data/ds/part=A")), &root);
    let b = parse_hive_partition(&Some(parts("/data/ds/part=B")), &root);
    assert_eq!(a, "part=A");
    assert_eq!(b, "part=B");
    let entries = vec![
        PartitionEntry { partition: a, rows: 2, size_bytes: 100 },
        PartitionEntry { partition: b, rows: 3, size_bytes: 200 },
    ];
    let groups = aggregate_partitions(&entries).unwrap();
    assert_eq!(groups.len(), 2, "should find both partition files");
    let total_rows: i64 = groups.iter().map(|g| g.1.rows).sum();
    assert_eq!(total_rows, 5, "total rows should be 5");
}

#[test]
fn hive_partition_names() {
    let root = parts("/data/ds");
    assert_eq!(
        parse_hive_partition(&Some(parts("/data/ds/year=2024/misc/month=01")), &root),
        "year=2024/month=01"
    );
    assert_eq!(parse_hive_partition(&Some(parts("/data/ds")), &root), "(root)");
    assert_eq!(parse_hive_partition(&Some(parts("/other/x=1")), &root), "(root)");
    assert_eq!(parse_hive_partition(&None, &root), "(root)");
}

#[test]
fn partitions_grouped_in_name_order() {
    let entries = vec![
        PartitionEntry { partition: "p=b".to_string(), rows: 1, size_bytes: 10 },
        PartitionEntry { partition: "p=a".to_string(), rows: 2, size_bytes: 20 },
        PartitionEntry { partition: "p=b".to_string(), rows: 3, size_bytes: 30 },
    ];
    let groups = aggregate_partitions(&entries).unwrap();
    assert_eq!(groups.len(), 2);
    assert_eq!(groups[0].0, "p=a");
    assert_eq!((groups[1].1.rows, groups[1].1.files, groups[1].1.size_bytes), (4, 2, 40));
    assert_eq!(
        partition_table_lines(&groups),
        vec![
            "partition          rows     files  size",
            "p=a                   2         1  20 B",
            "p=b                   4         2  40 B",
        ]
    );
    let overflow = vec![
        PartitionEntry { partition: "x".to_string(), rows: i64::MAX, size_bytes: 0 },
        PartitionEntry { partition: "x".to_string(), rows: 1, size_bytes: 0 },
    ];
    assert!(aggregate_partitions(&overflow).is_none());
}

#[test]
fn directory_listing_lines() {
    let f = FileSummary {
        path: "d/a.parquet".to_string(),
        num_rows: 3,
        num_row_groups: 1,
        file_size: 2048,
        columns: vec![("id".to_string(), PhysicalType::INT64), ("v".to_string(), PhysicalType::DOUBLE)],
    };
    assert_eq!(
        file_listing_lines(&f, true, false),
        vec!["d/a.parquet  rows=3  row_groups=1  size=2 KiB", "    [0] id (INT64)", "    [1] v (DOUBLE)"]
    );
    assert_eq!(file_listing_lines(&f, true, true), vec!["d/a.parquet\t3\t2 KiB"]);
    assert_eq!(listing_totals(&vec![f]), Some((3, 2048)));
    assert_eq!(
        listing_total_lines(1, 3, 2048, false),
        vec!["---", "total: 1 files, 3 rows, 2 KiB"]
    );
    assert_eq!(listing_total_lines(1, 3, 2048, true), vec!["total\t3\t2 KiB"]);
    assert_eq!(empty_listing_lines("d", false), vec!["d: no parquet files found"]);
    assert_eq!(empty_listing_lines("d", true), Vec::<String>::new());
}
