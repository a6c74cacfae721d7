//! Verified core of `pqls`, a lister for Apache Parquet files and datasets.
//!
//! The library holds the decisions and the text that the command-line tool
//! produces; reading files, talking to S3 and printing live in the binary.

pub mod text;
pub mod check;
pub mod cli;
pub mod diff;
pub mod dir_mode;
pub mod dump;
pub mod inspect;
pub mod kv_meta;
pub mod parquet_types;
pub mod s3;
pub mod sample;
pub mod schema;
pub mod size;
