//! S3 support: `s3://` paths, error classification, footer fetching plans,
//! listings and one-line schema summaries.

pub mod dates;
pub mod error;
pub mod footer;
pub mod path;
pub mod schema_brief;
pub mod list;
pub mod parquet_key;
