[package]
name = "pqls"
version = "0.1.0"
edition = "2021"
publish = false

[dependencies]
anyhow = "1"
arrow-array = "54"
arrow-ipc = "54"
aws-config = { version = "1.8", default-features = false, features = ["behavior-version-latest", "rt-tokio", "rustls"] }
aws-sdk-s3 = { version = "1.78", default-features = false, features = ["rt-tokio", "rustls"] }
base64 = "0.22"
bytes = "1"
clap = { version = "4", default-features = false, features = ["std", "derive", "help", "usage", "error-context"] }
futures = "0.3"
humansize = "2"
parquet = { version = "54", default-features = false, features = ["arrow", "snap", "flate2", "zstd"] }
polars = { version = "0.46", default-features = false, features = ["lazy", "parquet", "csv", "json", "ipc_streaming", "dtype-datetime", "temporal", "random", "timezones"] }
rand = "0.8"
serde = { version = "1", features = ["derive"] }
serde_json = "1"
tokio = { version = "1", features = ["rt-multi-thread"] }
walkdir = "2"
