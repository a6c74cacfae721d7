use pqls::s3::path::{validate_bucket, S3Path, S3PathError};

#[test]
fn object_with_key() {
    assert_eq!(
        S3Path::parse("s3://bucket/key.parquet"),
        Ok(S3Path::Object {
            bucket: "bucket".to_string(),
            key: "key.parquet".to_string(),
        })
    );
}

#[test]
fn prefix_with_trailing_slash() {
    assert_eq!(
        S3Path::parse("s3://bucket/prefix/"),
        Ok(S3Path::Prefix {
            bucket: "bucket".to_string(),
            prefix: "prefix/".to_string(),
        })
    );
}

#[test]
fn prefix_bucket_slash_only() {
    assert_eq!(
        S3Path::parse("s3://bucket/"),
        Ok(S3Path::Prefix {
            bucket: "bucket".to_string(),
            prefix: "".to_string(),
        })
    );
}

#[test]
fn prefix_bucket_no_slash() {
    assert_eq!(
        S3Path::parse("s3://bucket"),
        Ok(S3Path::Prefix {
            bucket: "bucket".to_string(),
            prefix: "".to_string(),
        })
    );
}

#[test]
fn empty_bucket_error() {
    assert_eq!(S3Path::parse("s3://"), Err(S3PathError::EmptyBucket));
}

#[test]
fn missing_scheme_error() {
    assert_eq!(
        S3Path::parse("/local/path"),
        Err(S3PathError::MissingScheme)
    );
}

#[test]
fn invalid_bucket_uppercase() {
    assert_eq!(
        S3Path::parse("s3://UPPER/key"),
        Err(S3PathError::InvalidBucket("UPPER".to_string()))
    );
}

#[test]
fn invalid_bucket_too_short() {
    assert_eq!(
        S3Path::parse("s3://a/key"),
        Err(S3PathError::InvalidBucket("a".to_string()))
    );
}

#[test]
fn invalid_bucket_leading_hyphen() {
    assert_eq!(
        S3Path::parse("s3://-bad/key"),
        Err(S3PathError::InvalidBucket("-bad".to_string()))
    );
}

#[test]
fn invalid_bucket_trailing_hyphen() {
    assert_eq!(
        S3Path::parse("s3://bad-/key"),
        Err(S3PathError::InvalidBucket("bad-".to_string()))
    );
}

#[test]
fn valid_bucket_with_hyphens_and_digits() {
    assert!(S3Path::parse("s3://my-bucket-123/data/").is_ok());
}

#[test]
fn nested_key_path() {
    assert_eq!(
        S3Path::parse("s3://bucket/a/b/c.parquet"),
        Ok(S3Path::Object {
            bucket: "bucket".to_string(),
            key: "a/b/c.parquet".to_string(),
        })
    );
}

#[test]
fn bucket_of_63_characters_is_valid_and_64_is_not() {
    let b63 = "a".repeat(63);
    let b64 = "a".repeat(64);
    assert!(S3Path::parse(&format!("s3://{b63}/k")).is_ok());
    assert_eq!(
        S3Path::parse(&format!("s3://{b64}/k")),
        Err(S3PathError::InvalidBucket(b64.clone()))
    );
}

#[test]
fn path_error_messages() {
    assert_eq!(S3PathError::MissingScheme.message(), "path must start with s3://");
    assert_eq!(S3PathError::EmptyBucket.message(), "s3:// path has no bucket name");
    assert_eq!(
        S3PathError::InvalidBucket("-bad".to_string()).message(),
        "invalid S3 bucket name \"-bad\": must be 3-63 lowercase letters, digits, or hyphens; no leading/trailing hyphen"
    );
}

#[test]
fn bucket_naming_rule() {
    assert_eq!(validate_bucket("my-bucket-01"), Ok(()));
    assert_eq!(validate_bucket("abc"), Ok(()));
    assert_eq!(validate_bucket(&"a".repeat(63)), Ok(()));
    assert_eq!(validate_bucket("ab"), Err(()));
    assert_eq!(validate_bucket(&"a".repeat(64)), Err(()));
    assert_eq!(validate_bucket("My-Bucket"), Err(()));
    assert_eq!(validate_bucket("my_bucket"), Err(()));
    assert_eq!(validate_bucket("-bucket"), Err(()));
    assert_eq!(validate_bucket("bucket-"), Err(()));
    assert_eq!(validate_bucket("bücket"), Err(()));
}
