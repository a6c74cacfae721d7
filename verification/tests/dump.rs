use pqls::dump::{csv_row_limit, ndjson_row_limit};
use pqls::dir_mode::listing_total_lines;

#[test]
fn head_limits() {
    assert_eq!(csv_row_limit(Some(3)), Some(3));
    assert_eq!(csv_row_limit(Some(0)), None);
    assert_eq!(csv_row_limit(None), None);
    assert_eq!(csv_row_limit(Some(4_294_967_297)), Some(1));
    assert_eq!(ndjson_row_limit(Some(0), None), Some(0));
    assert_eq!(ndjson_row_limit(Some(5), Some(2)), None);
    assert_eq!(ndjson_row_limit(None, None), None);
}

#[test]
fn binary_sizes() {
    assert_eq!(listing_total_lines(0, 0, 0, true), vec!["total\t0\t0 B"]);
    assert_eq!(listing_total_lines(0, 0, 1024, true), vec!["total\t0\t1 KiB"]);
    assert_eq!(listing_total_lines(0, 0, 1536, true), vec!["total\t0\t1.50 KiB"]);
}
