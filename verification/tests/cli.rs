use pqls::cli::{is_s3_path, parse_columns, validate_sample, Cli, Mode, USAGE_EXIT_CODE};
use pqls::s3::path::S3Path;

fn cli(path: &str) -> Cli {
    Cli {
        path: path.to_string(),
        path_b: None,
        diff: false,
        detail: false,
        recursive: false,
        csv: false,
        head: None,
        quiet: false,
        schema: false,
        json: false,
        ndjson: false,
        sample: None,
        columns: None,
        kv_meta: false,
        scan_stats: false,
        partition_stats: false,
        check: false,
        deep: false,
    }
}

#[test]
fn local_file_regression() {
    assert_eq!(cli("test.parquet").command(false), Ok(Mode::Inspect));
}

#[test]
fn local_dir_recursive_regression() {
    let mut c = cli("/tmp/data/");
    c.recursive = true;
    assert_eq!(c.command(true), Ok(Mode::ListDirectory));
}

#[test]
fn s3_invalid_bucket_exits_2() {
    let c = cli("s3://-invalid-bucket/key.parquet");
    assert_eq!(c.command(false), Ok(Mode::S3));
    let err = S3Path::parse(&c.path).unwrap_err();
    let stderr = err.message();
    assert_eq!(USAGE_EXIT_CODE, 2);
    assert!(
        stderr.contains("invalid") || stderr.contains("bucket"),
        "stderr should describe the invalid bucket: {stderr}"
    );
}

#[test]
fn s3_csv_flag_not_supported_exits_2() {
    let mut c = cli("s3://my-bucket/prefix/");
    c.csv = true;
    let stderr = c.command(false).unwrap_err();
    assert_eq!(USAGE_EXIT_CODE, 2);
    assert!(
        stderr.contains("not supported") || stderr.contains("csv"),
        "stderr should mention unsupported flag: {stderr}"
    );
    assert_eq!(stderr, "error: --csv is not supported for S3 paths");
}

#[test]
fn s3_json_listing_is_allowed() {
    let mut c = cli("s3://my-bucket/events/2024/");
    c.json = true;
    assert_eq!(c.command(false), Ok(Mode::S3));
    let mut h = cli("s3://my-bucket/k.parquet");
    h.head = Some(3);
    assert_eq!(h.command(false), Err("error: --head is not supported for S3 paths".to_string()));
    assert!(is_s3_path("s3://b"));
    assert!(!is_s3_path("s3:/b"));
}

#[test]
fn validate_sample_accepts_positive_numbers() {
    assert_eq!(validate_sample("10"), Ok(10));
    assert_eq!(validate_sample("+7"), Ok(7));
    assert_eq!(validate_sample("18446744073709551615"), Ok(u64::MAX));
    assert_eq!(validate_sample("0"), Err("--sample N must be > 0".to_string()));
    assert_eq!(validate_sample("abc"), Err("'abc' is not a valid number".to_string()));
    assert_eq!(validate_sample("-1"), Err("'-1' is not a valid number".to_string()));
    assert_eq!(validate_sample(""), Err("'' is not a valid number".to_string()));
    assert_eq!(
        validate_sample("18446744073709551616"),
        Err("'18446744073709551616' is not a valid number".to_string())
    );
}

#[test]
fn usage_errors_in_order() {
    let mut d = cli("a.parquet");
    d.diff = true;
    assert_eq!(
        d.usage_error(),
        Some("error: --diff requires two path arguments: pqls --diff A.parquet B.parquet".to_string())
    );
    let mut j = cli("a.parquet");
    j.json = true;
    assert_eq!(
        j.usage_error(),
        Some("error: --json requires --schema, --kv-meta, --check, --partition-stats, or --diff".to_string())
    );
    let mut p = cli("dir");
    p.partition_stats = true;
    assert_eq!(p.usage_error(), Some("error: --partition-stats requires -r".to_string()));
    let mut s = cli("a.parquet");
    s.sample = Some(5);
    assert_eq!(
        s.usage_error(),
        Some("error: --sample requires --ndjson or --csv; did you mean: pqls --ndjson --sample 5 FILE".to_string())
    );
    let mut st = cli("a.parquet");
    st.scan_stats = true;
    assert_eq!(st.usage_error(), Some("error: --scan-stats requires -d / --detail".to_string()));
    assert_eq!(st.command(false), Err("error: --scan-stats requires -d / --detail".to_string()));
    st.detail = true;
    assert_eq!(st.usage_error(), None);
}

#[test]
fn command_modes() {
    let mut c = cli("a.parquet");
    c.schema = true;
    assert_eq!(c.command(false), Ok(Mode::SchemaText));
    c.json = true;
    assert_eq!(c.command(false), Ok(Mode::SchemaJson));
    let mut k = cli("a.parquet");
    k.kv_meta = true;
    assert_eq!(k.command(false), Ok(Mode::KvMetaText));
    let mut d = cli("a.parquet");
    d.diff = true;
    d.path_b = Some("b.parquet".to_string());
    assert_eq!(d.command(false), Ok(Mode::Diff));
    let mut n = cli("a.parquet");
    n.ndjson = true;
    n.sample = Some(2);
    assert_eq!(n.command(false), Ok(Mode::Ndjson));
    let mut ch = cli("a.parquet");
    ch.check = true;
    assert_eq!(ch.command(false), Ok(Mode::Check));
}

#[test]
fn parse_columns_splits_and_trims() {
    assert_eq!(parse_columns("id,ts"), vec!["id", "ts"]);
    assert_eq!(parse_columns(" id , ts\t,\u{3000}v "), vec!["id", "ts", "v"]);
    assert_eq!(parse_columns("a,,b,"), vec!["a", "", "b", ""]);
    assert_eq!(parse_columns(""), vec![""]);
}
