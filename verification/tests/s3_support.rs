use pqls::s3::error::{classify_code, from_get_err, from_head_err, from_list_err, S3Error, SdkErrorInfo};
use pqls::s3::footer::{footer_range, footer_step, footer_step_is_defined, FooterBuffer, FooterStep};
use pqls::s3::list::{
    after_page, emit_plain, emit_quiet, epoch_to_date, is_parquet_key, listing_row, no_files_message,
    sort_rows_by_key, ListingRow, PageStep,
};

fn service(code: &str, status: u16) -> SdkErrorInfo {
    SdkErrorInfo::Service { code: Some(code.to_string()), status, message: "m".to_string() }
}

#[test]
fn auth_failure() {
    let e = from_head_err(service("AccessDenied", 403), "test-bucket/secret.parquet");
    let stderr = e.message().to_lowercase();
    assert!(stderr.contains("access") || stderr.contains("iam"), "stderr should mention access/IAM: {stderr}");
    let untyped = from_head_err(
        SdkErrorInfo::Service { code: None, status: 403, message: "Forbidden".to_string() },
        "b/k",
    );
    assert!(matches!(untyped, S3Error::AccessDenied(_)));
}

#[test]
fn bucket_not_found() {
    let e = from_list_err(service("NoSuchBucket", 404), "no-such-bucket");
    let stderr = e.message();
    assert!(stderr.contains("bucket") && stderr.contains("exist"), "stderr should mention bucket: {stderr}");
    assert_eq!(stderr, "s3://no-such-bucket: bucket does not exist");
}

#[test]
fn key_not_found() {
    let e = from_head_err(service("NoSuchKey", 404), "test-bucket/missing.parquet");
    let stderr = e.message();
    assert!(stderr.contains("not found") || stderr.contains("object"), "stderr should mention key not found: {stderr}");
    assert_eq!(stderr, "s3://test-bucket/missing.parquet: object not found");
    let untyped = from_head_err(
        SdkErrorInfo::Service { code: None, status: 404, message: "x".to_string() },
        "b/k",
    );
    assert!(matches!(untyped, S3Error::ObjectNotFound(_)));
}

#[test]
fn empty_prefix() {
    let stderr = no_files_message("test-bucket", "empty/");
    assert!(stderr.contains("no parquet"), "stderr should say no parquet files found: {stderr}");
    assert_eq!(stderr, "pqls: no parquet files found under s3://test-bucket/empty/");
}

#[test]
fn error_classification() {
    assert_eq!(classify_code("NoSuchBucket"), "no_such_bucket");
    assert_eq!(classify_code("NotFound"), "not_found");
    assert_eq!(classify_code("AuthFailure"), "invalid_credentials");
    assert_eq!(classify_code("CredentialsError"), "no_credentials");
    assert_eq!(classify_code("PermanentRedirect"), "region_mismatch");
    assert_eq!(classify_code("Throttling"), "");
    let g = from_get_err(service("NoSuchKey", 404), "b/k");
    assert!(matches!(g, S3Error::ObjectNotFound(_)));
    let l = from_list_err(service("NoSuchKey", 404), "b/p");
    assert!(matches!(l, S3Error::Network { .. }));
    let other = from_get_err(SdkErrorInfo::Other { message: "timeout".to_string() }, "b/k");
    assert_eq!(other.message(), "fetching s3://b/k: timeout");
    let region = from_head_err(service("PermanentRedirect", 301), "b/k");
    assert_eq!(region.message(), "s3://b/k: bucket is in region the correct region — set AWS_REGION=the correct region");
}

fn parquet_tail(metadata: &[u8]) -> Vec<u8> {
    let mut v = metadata.to_vec();
    v.extend_from_slice(&(metadata.len() as u32).to_le_bytes());
    v.extend_from_slice(b"PAR1");
    v
}

#[test]
fn footer_fits_in_first_request() {
    let r = footer_range(100, "b/k").unwrap();
    assert_eq!(r.range_start, 0);
    assert_eq!(r.header, "bytes=0-99");
    let big = footer_range(1_000_000, "b/k").unwrap();
    assert_eq!(big.range_start, 1_000_000 - 65536);
    assert_eq!(big.header, "bytes=934464-999999");
    match footer_range(7, "b/k") {
        Err(e) => assert_eq!(e.message(), "s3://b/k: file too small to be valid parquet (7 bytes)"),
        Ok(_) => panic!("7 bytes cannot be parquet"),
    }

    let mut object = b"PAR1 some row data ".to_vec();
    object.extend(parquet_tail(b"META"));
    let size = object.len() as u64;
    let buf = bytes::Bytes::from(object.clone());
    assert!(footer_step_is_defined(&buf, size, 0));
    match footer_step(buf, size, 0, "b/k").unwrap() {
        FooterStep::Done(f) => {
            assert_eq!(f.file_size, size);
            assert_eq!(f.bytes.to_vec(), object[object.len() - 12..].to_vec());
            assert_eq!(f.footer_start(), size - 12);
            assert!(f.abs_to_rel(size - 13).is_err());
            assert_eq!(f.abs_to_rel(size - 12), Ok(0));
            assert_eq!(f.get_bytes(size - 12, 4).unwrap().to_vec(), b"META".to_vec());
        }
        FooterStep::Refetch { .. } => panic!("footer fits"),
    }
}

#[test]
fn footer_longer_than_first_request() {
    let meta = vec![7u8; 70_000];
    let mut object = vec![0u8; 100];
    object.extend(parquet_tail(&meta));
    let size = object.len() as u64;
    let start = size - 65536;
    let tail = bytes::Bytes::from(object[start as usize..].to_vec());
    match footer_step(tail, size, start, "b/k").unwrap() {
        FooterStep::Refetch { header } => {
            assert_eq!(header, format!("bytes={}-{}", size - 70_008, size - 1));
        }
        FooterStep::Done(_) => panic!("footer does not fit"),
    }
    let not_parquet = bytes::Bytes::from(vec![1u8; 16]);
    match footer_step(not_parquet, 16, 0, "b/k") {
        Err(e) => assert_eq!(e.message(), "s3://b/k: not a valid parquet file (bad footer magic)"),
        Ok(_) => panic!("no magic"),
    }
    let fb = FooterBuffer { bytes: bytes::Bytes::from(vec![1u8, 2, 3]), file_size: 10 };
    assert!(fb.is_well_formed());
    assert_eq!(fb.len(), 10);
}

fn row(key: &str, size: u64, modified: &str, brief: &str) -> ListingRow {
    ListingRow {
        key: key.to_string(),
        size_bytes: size,
        modified: modified.to_string(),
        schema_brief: brief.to_string(),
    }
}

#[test]
fn listing_lines_and_order() {
    let rows = sort_rows_by_key(vec![
        row("events/b.parquet", 2048, "2024-01-02", "(x: int64)"),
        row("events/a.parquet", 10, "2024-01-01", "(y: utf8)"),
    ]);
    assert_eq!(rows[0].key, "events/a.parquet");
    assert_eq!(
        emit_quiet(&rows),
        vec![
            "events/a.parquet\t10\t2024-01-01\t(y: utf8)",
            "events/b.parquet\t2048\t2024-01-02\t(x: int64)",
        ]
    );
    assert_eq!(
        emit_plain(&rows, "events/"),
        vec![
            "FILENAME   SIZE   MODIFIED    SCHEMA_BRIEF",
            "a.parquet  10 B   2024-01-01  (y: utf8)",
            "b.parquet  2 KiB  2024-01-02  (x: int64)",
        ]
    );
    assert!(is_parquet_key("data/X.PARQUET"));
    assert!(!is_parquet_key("data/x.parquet.tmp"));
    assert!(!is_parquet_key("parquet"));
}

#[test]
fn epoch_dates() {
    assert_eq!(epoch_to_date(0), "1970-01-01");
    assert_eq!(epoch_to_date(951_782_400), "2000-02-29");
    assert_eq!(epoch_to_date(1_702_857_600), "2023-12-18");
    assert_eq!(epoch_to_date(86_399), "1970-01-01");
}

#[test]
fn listing_rows_and_pages() {
    let r = listing_row(Some("k.parquet".to_string()), Some(5), Some(0), "(a: bool)".to_string());
    assert_eq!((r.key.as_str(), r.size_bytes, r.modified.as_str()), ("k.parquet", 5, "1970-01-01"));
    let blank = listing_row(None, None, None, String::new());
    assert_eq!((blank.key.as_str(), blank.size_bytes, blank.modified.as_str()), ("", 0, "unknown"));
    match after_page(Some(true), Some("t1".to_string())) {
        PageStep::Next { token } => assert_eq!(token, Some("t1".to_string())),
        PageStep::Done => panic!("truncated page continues"),
    }
    assert!(matches!(after_page(Some(false), Some("t".to_string())), PageStep::Done));
    assert!(matches!(after_page(None, None), PageStep::Done));
}

#[test]
fn later_times_sort_later() {
    let times = [0i64, 86_399, 86_400, 951_782_400, 1_702_857_600, 4_102_444_799];
    let dates: Vec<String> = times.iter().map(|t| epoch_to_date(*t)).collect();
    let mut sorted = dates.clone();
    sorted.sort();
    assert_eq!(dates, sorted);
    assert_eq!(epoch_to_date(4_102_444_799), "2099-12-31");
}

#[test]
fn footer_buffer_reads_and_their_errors() {
    // Buffer holds the last 3 bytes of a 10-byte object: offsets 7, 8, 9.
    let fb = FooterBuffer { bytes: bytes::Bytes::from(vec![1u8, 2, 3]), file_size: 10 };
    assert_eq!(fb.footer_start(), 7);
    assert_eq!(fb.get_read(8).unwrap().to_vec(), vec![2u8, 3]);
    assert_eq!(fb.get_bytes(7, 2).unwrap().to_vec(), vec![1u8, 2]);
    assert_eq!(
        fb.get_read(6).unwrap_err(),
        "requested offset 6 is before footer buffer start 7"
    );
    assert_eq!(
        fb.get_bytes(5, 1).unwrap_err(),
        "requested offset 5 is before footer buffer start 7"
    );
    assert_eq!(
        fb.get_bytes(8, 3).unwrap_err(),
        "footer buffer read [1..4) exceeds buffer length 3"
    );
}
