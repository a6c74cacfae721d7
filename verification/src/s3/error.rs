//! S3 failures: classification of service error codes and the user-facing
//! messages.

use vstd::prelude::*;
use crate::text::{dec, fmt_u64, str_eq};

verus! {

/// A failure while talking to S3 or reading what it returned.
#[derive(Debug)]
pub enum S3Error {
    BucketNotFound(String),
    ObjectNotFound(String),
    AccessDenied(String),
    InvalidCredentials,
    NoCredentials,
    RegionMismatch { location: String, region: String },
    NotParquet(String),
    FileTooSmall { location: String, size: u64 },
    Network { location: String, source: String },
}

/// What the library reads of an SDK error: a service error with its code
/// (if the response carried one), HTTP status and text, or any other failure
/// with its text.
#[derive(Debug)]
pub enum SdkErrorInfo {
    Service { code: Option<String>, status: u16, message: String },
    Other { message: String },
}

/// Model of an [`S3Error`].
pub enum S3ErrorModel {
    BucketNotFound(Seq<char>),
    ObjectNotFound(Seq<char>),
    AccessDenied(Seq<char>),
    InvalidCredentials,
    NoCredentials,
    RegionMismatch { location: Seq<char>, region: Seq<char> },
    NotParquet(Seq<char>),
    FileTooSmall { location: Seq<char>, size: u64 },
    Network { location: Seq<char>, source: Seq<char> },
}

impl View for S3Error {
    type V = S3ErrorModel;

    open spec fn view(&self) -> S3ErrorModel {
        match self {
            S3Error::BucketNotFound(b) => S3ErrorModel::BucketNotFound(b@),
            S3Error::ObjectNotFound(p) => S3ErrorModel::ObjectNotFound(p@),
            S3Error::AccessDenied(p) => S3ErrorModel::AccessDenied(p@),
            S3Error::InvalidCredentials => S3ErrorModel::InvalidCredentials,
            S3Error::NoCredentials => S3ErrorModel::NoCredentials,
            S3Error::RegionMismatch { location, region } => S3ErrorModel::RegionMismatch {
                location: location@,
                region: region@,
            },
            S3Error::NotParquet(p) => S3ErrorModel::NotParquet(p@),
            S3Error::FileTooSmall { location, size } => S3ErrorModel::FileTooSmall {
                location: location@,
                size: *size,
            },
            S3Error::Network { location, source } => S3ErrorModel::Network {
                location: location@,
                source: source@,
            },
        }
    }
}

/// The user-facing text of an S3 failure.
pub open spec fn spec_s3_message(e: S3ErrorModel) -> Seq<char> {
    match e {
        S3ErrorModel::BucketNotFound(b) => "s3://"@ + b + ": bucket does not exist"@,
        S3ErrorModel::ObjectNotFound(p) => "s3://"@ + p + ": object not found"@,
        S3ErrorModel::AccessDenied(p) => "s3://"@ + p
            + ": access denied — ensure IAM policy allows s3:GetObject (and s3:ListBucket for prefix listing)"@,
        S3ErrorModel::InvalidCredentials =>
            "AWS credentials invalid — check AWS_ACCESS_KEY_ID / AWS_PROFILE"@,
        S3ErrorModel::NoCredentials =>
            "No AWS credentials found — set AWS_ACCESS_KEY_ID + AWS_SECRET_ACCESS_KEY, configure ~/.aws/credentials, or attach an IAM role"@,
        S3ErrorModel::RegionMismatch { location, region } => "s3://"@ + location
            + ": bucket is in region "@ + region + " — set AWS_REGION="@ + region,
        S3ErrorModel::NotParquet(p) => "s3://"@ + p + ": not a valid parquet file (bad footer magic)"@,
        S3ErrorModel::FileTooSmall { location, size } => "s3://"@ + location
            + ": file too small to be valid parquet ("@ + dec(size as nat) + " bytes)"@,
        S3ErrorModel::Network { location, source } => "fetching s3://"@ + location + ": "@ + source,
    }
}

impl S3Error {
    /// The user-facing text of the failure.
    pub fn message(&self) -> (s: String)
        ensures
            s@ == spec_s3_message(self@),
    {
        match self {
            S3Error::BucketNotFound(b) => {
                let mut s = String::from_str("s3://");
                s.append(b.as_str());
                s.append(": bucket does not exist");
                s
            },
            S3Error::ObjectNotFound(p) => {
                let mut s = String::from_str("s3://");
                s.append(p.as_str());
                s.append(": object not found");
                s
            },
            S3Error::AccessDenied(p) => {
                let mut s = String::from_str("s3://");
                s.append(p.as_str());
                s.append(
                    ": access denied — ensure IAM policy allows s3:GetObject (and s3:ListBucket for prefix listing)",
                );
                s
            },
            S3Error::InvalidCredentials => String::from_str(
                "AWS credentials invalid — check AWS_ACCESS_KEY_ID / AWS_PROFILE",
            ),
            S3Error::NoCredentials => String::from_str(
                "No AWS credentials found — set AWS_ACCESS_KEY_ID + AWS_SECRET_ACCESS_KEY, configure ~/.aws/credentials, or attach an IAM role",
            ),
            S3Error::RegionMismatch { location, region } => {
                let mut s = String::from_str("s3://");
                s.append(location.as_str());
                s.append(": bucket is in region ");
                s.append(region.as_str());
                s.append(" — set AWS_REGION=");
                s.append(region.as_str());
                s
            },
            S3Error::NotParquet(p) => {
                let mut s = String::from_str("s3://");
                s.append(p.as_str());
                s.append(": not a valid parquet file (bad footer magic)");
                s
            },
            S3Error::FileTooSmall { location, size } => {
                let mut s = String::from_str("s3://");
                s.append(location.as_str());
                s.append(": file too small to be valid parquet (");
                s.append(fmt_u64(*size).as_str());
                s.append(" bytes)");
                s
            },
            S3Error::Network { location, source } => {
                let mut s = String::from_str("fetching s3://");
                s.append(location.as_str());
                s.append(": ");
                s.append(source.as_str());
                s
            },
        }
    }
}

/// The category of an S3 error code; the empty text for codes without one.
pub open spec fn spec_classify_code(code: Seq<char>) -> Seq<char> {
    if code == "NoSuchBucket"@ {
        "no_such_bucket"@
    } else if code == "NoSuchKey"@ || code == "NotFound"@ {
        "not_found"@
    } else if code == "AccessDenied"@ {
        "access_denied"@
    } else if code == "InvalidClientTokenId"@ || code == "AuthFailure"@ || code
        == "InvalidAccessKeyId"@ {
        "invalid_credentials"@
    } else if code == "NoCredentialProviders"@ || code == "CredentialsError"@ {
        "no_credentials"@
    } else if code == "PermanentRedirect"@ || code == "AuthorizationHeaderMalformed"@ {
        "region_mismatch"@
    } else {
        ""@
    }
}

/// Maps an S3 error code to its category.
pub fn classify_code(code: &str) -> (c: &'static str)
    ensures
        c@ == spec_classify_code(code@),
{
    if str_eq(code, "NoSuchBucket") {
        "no_such_bucket"
    } else if str_eq(code, "NoSuchKey") || str_eq(code, "NotFound") {
        "not_found"
    } else if str_eq(code, "AccessDenied") {
        "access_denied"
    } else if str_eq(code, "InvalidClientTokenId") || str_eq(code, "AuthFailure") || str_eq(
        code,
        "InvalidAccessKeyId",
    ) {
        "invalid_credentials"
    } else if str_eq(code, "NoCredentialProviders") || str_eq(code, "CredentialsError") {
        "no_credentials"
    } else if str_eq(code, "PermanentRedirect") || str_eq(code, "AuthorizationHeaderMalformed") {
        "region_mismatch"
    } else {
        ""
    }
}

/// The error for a classified code, when the category decides one.
pub open spec fn spec_from_category(cat: Seq<char>, location: Seq<char>, not_found_counts: bool) -> Option<S3ErrorModel> {
    if cat == "no_such_bucket"@ {
        Some(S3ErrorModel::BucketNotFound(location))
    } else if not_found_counts && cat == "not_found"@ {
        Some(S3ErrorModel::ObjectNotFound(location))
    } else if cat == "access_denied"@ {
        Some(S3ErrorModel::AccessDenied(location))
    } else if cat == "invalid_credentials"@ {
        Some(S3ErrorModel::InvalidCredentials)
    } else if cat == "no_credentials"@ {
        Some(S3ErrorModel::NoCredentials)
    } else if cat == "region_mismatch"@ {
        Some(
            S3ErrorModel::RegionMismatch { location, region: "the correct region"@ },
        )
    } else {
        None
    }
}

/// The error code of a service error; empty when the response had none.
pub open spec fn code_of(code: Option<String>) -> Seq<char> {
    match code {
        Some(c) => c@,
        None => ""@,
    }
}

/// Classification of a failed HEAD request: by error code first; without a
/// known code, HTTP 403 means access denied and 404 object not found (HEAD
/// responses carry no body); anything else is a network failure.
pub open spec fn spec_from_head_err(info: SdkErrorInfo, location: Seq<char>) -> S3ErrorModel {
    match info {
        SdkErrorInfo::Service { code, status, message } => match spec_from_category(
            spec_classify_code(code_of(code)),
            location,
            true,
        ) {
            Some(e) => e,
            None => if status == 403 {
                S3ErrorModel::AccessDenied(location)
            } else if status == 404 {
                S3ErrorModel::ObjectNotFound(location)
            } else {
                S3ErrorModel::Network { location, source: message@ }
            },
        },
        SdkErrorInfo::Other { message } => S3ErrorModel::Network { location, source: message@ },
    }
}

/// Classification of a failed GET (or, without `not_found`, LIST) request:
/// by error code, else a network failure.
pub open spec fn spec_from_coded_err(info: SdkErrorInfo, location: Seq<char>, not_found_counts: bool) -> S3ErrorModel {
    match info {
        SdkErrorInfo::Service { code, status, message } => match spec_from_category(
            spec_classify_code(code_of(code)),
            location,
            not_found_counts,
        ) {
            Some(e) => e,
            None => S3ErrorModel::Network { location, source: message@ },
        },
        SdkErrorInfo::Other { message } => S3ErrorModel::Network { location, source: message@ },
    }
}

fn from_category(cat: &str, location: &str, not_found_counts: bool) -> (r: Option<S3Error>)
    ensures
        match r {
            Some(e) => spec_from_category(cat@, location@, not_found_counts) == Some(e@),
            None => spec_from_category(cat@, location@, not_found_counts) is None,
        },
{
    if str_eq(cat, "no_such_bucket") {
        Some(S3Error::BucketNotFound(String::from_str(location)))
    } else if not_found_counts && str_eq(cat, "not_found") {
        Some(S3Error::ObjectNotFound(String::from_str(location)))
    } else if str_eq(cat, "access_denied") {
        Some(S3Error::AccessDenied(String::from_str(location)))
    } else if str_eq(cat, "invalid_credentials") {
        Some(S3Error::InvalidCredentials)
    } else if str_eq(cat, "no_credentials") {
        Some(S3Error::NoCredentials)
    } else if str_eq(cat, "region_mismatch") {
        Some(
            S3Error::RegionMismatch {
                location: String::from_str(location),
                region: String::from_str("the correct region"),
            },
        )
    } else {
        None
    }
}

fn code_text(code: &Option<String>) -> (s: &str)
    ensures
        s@ == code_of(*code),
{
    match code {
        Some(c) => c.as_str(),
        None => "",
    }
}

/// Classifies a failed HEAD request on `location`.
pub fn from_head_err(info: SdkErrorInfo, location: &str) -> (e: S3Error)
    ensures
        e@ == spec_from_head_err(info, location@),
{
    match info {
        SdkErrorInfo::Service { code, status, message } => {
            let cat = classify_code(code_text(&code));
            match from_category(cat, location, true) {
                Some(e) => e,
                None => if status == 403 {
                    S3Error::AccessDenied(String::from_str(location))
                } else if status == 404 {
                    S3Error::ObjectNotFound(String::from_str(location))
                } else {
                    S3Error::Network { location: String::from_str(location), source: message }
                },
            }
        },
        SdkErrorInfo::Other { message } => S3Error::Network {
            location: String::from_str(location),
            source: message,
        },
    }
}

fn from_coded_err(info: SdkErrorInfo, location: &str, not_found_counts: bool) -> (e: S3Error)
    ensures
        e@ == spec_from_coded_err(info, location@, not_found_counts),
{
    match info {
        SdkErrorInfo::Service { code, status, message } => {
            let cat = classify_code(code_text(&code));
            match from_category(cat, location, not_found_counts) {
                Some(e) => e,
                None => S3Error::Network { location: String::from_str(location), source: message },
            }
        },
        SdkErrorInfo::Other { message } => S3Error::Network {
            location: String::from_str(location),
            source: message,
        },
    }
}

/// Classifies a failed GET request on `location`.
pub fn from_get_err(info: SdkErrorInfo, location: &str) -> (e: S3Error)
    ensures
        e@ == spec_from_coded_err(info, location@, true),
{
    from_coded_err(info, location, true)
}

/// Classifies a failed LIST request on `location` (a missing key is no
/// category of its own there).
pub fn from_list_err(info: SdkErrorInfo, location: &str) -> (e: S3Error)
    ensures
        e@ == spec_from_coded_err(info, location@, false),
{
    from_coded_err(info, location, false)
}

} // verus!
