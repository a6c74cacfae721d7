//! Parsing of `s3://bucket/key` and `s3://bucket/prefix/` paths.

use vstd::prelude::*;
use crate::text::{chars_of, find_char, index_or_len, lemma_index_or_len,
    lemma_index_or_len_unique, slice_chars, starts_with_chars, string_from_chars};

verus! {

/// An S3 location: one object, or every object under a prefix.
#[derive(Debug, PartialEq)]
pub enum S3Path {
    Object { bucket: String, key: String },
    Prefix { bucket: String, prefix: String },
}

/// Why a string is not an S3 path.
#[derive(Debug, PartialEq)]
pub enum S3PathError {
    MissingScheme,
    EmptyBucket,
    InvalidBucket(String),
}

/// The mathematical value of an [`S3Path`].
pub enum S3PathModel {
    Object { bucket: Seq<char>, key: Seq<char> },
    Prefix { bucket: Seq<char>, prefix: Seq<char> },
}

/// The mathematical value of an [`S3PathError`].
pub enum S3PathErrorModel {
    MissingScheme,
    EmptyBucket,
    InvalidBucket(Seq<char>),
}

impl View for S3Path {
    type V = S3PathModel;

    open spec fn view(&self) -> S3PathModel {
        match self {
            S3Path::Object { bucket, key } => S3PathModel::Object { bucket: bucket@, key: key@ },
            S3Path::Prefix { bucket, prefix } => S3PathModel::Prefix {
                bucket: bucket@,
                prefix: prefix@,
            },
        }
    }
}

impl View for S3PathError {
    type V = S3PathErrorModel;

    open spec fn view(&self) -> S3PathErrorModel {
        match self {
            S3PathError::MissingScheme => S3PathErrorModel::MissingScheme,
            S3PathError::EmptyBucket => S3PathErrorModel::EmptyBucket,
            S3PathError::InvalidBucket(name) => S3PathErrorModel::InvalidBucket(name@),
        }
    }
}

/// The model of a parse result.
pub open spec fn parse_result_model(r: Result<S3Path, S3PathError>) -> Result<
    S3PathModel,
    S3PathErrorModel,
> {
    match r {
        Ok(p) => Ok(p@),
        Err(e) => Err(e@),
    }
}

/// Characters allowed in a bucket name: lowercase ASCII letters, digits, `-`.
pub open spec fn bucket_char_ok(c: char) -> bool {
    ('a' <= c && c <= 'z') || ('0' <= c && c <= '9') || c == '-'
}

/// S3 bucket naming rules: 3 to 63 allowed characters, no leading or
/// trailing hyphen.
pub open spec fn valid_bucket(name: Seq<char>) -> bool {
    &&& 3 <= name.len() <= 63
    &&& forall|i: int| 0 <= i < name.len() ==> bucket_char_ok(#[trigger] name[i])
    &&& name[0] != '-'
    &&& name[name.len() - 1] != '-'
}

/// The scheme that every S3 path starts with.
pub open spec fn scheme() -> Seq<char> {
    seq!['s', '3', ':', '/', '/']
}

/// What `S3Path::parse` gives for a string: the part after `s3://` is split at
/// its first `/` into the bucket and the rest; an empty rest, or one that
/// ends in `/`, names a prefix, any other rest names an object.
pub open spec fn spec_parse(raw: Seq<char>) -> Result<S3PathModel, S3PathErrorModel> {
    if !scheme().is_prefix_of(raw) {
        Err(S3PathErrorModel::MissingScheme)
    } else {
        let after = raw.skip(5);
        let cut = index_or_len(after, '/');
        let bucket = after.take(cut);
        let path = if cut < after.len() { after.skip(cut + 1) } else { Seq::<char>::empty() };
        if after.len() == 0 || bucket.len() == 0 {
            Err(S3PathErrorModel::EmptyBucket)
        } else if !valid_bucket(bucket) {
            Err(S3PathErrorModel::InvalidBucket(bucket))
        } else if path.len() == 0 || path[path.len() - 1] == '/' {
            Ok(S3PathModel::Prefix { bucket, prefix: path })
        } else {
            Ok(S3PathModel::Object { bucket, key: path })
        }
    }
}

fn is_bucket_char(c: char) -> (b: bool)
    ensures
        b == bucket_char_ok(c),
{
    ('a' <= c && c <= 'z') || ('0' <= c && c <= '9') || c == '-'
}

fn bucket_chars_valid(name: &Vec<char>) -> (ok: bool)
    ensures
        ok == valid_bucket(name@),
{
    if name.len() < 3 || name.len() > 63 {
        return false;
    }
    let mut i: usize = 0;
    while i < name.len()
        invariant
            0 <= i <= name.len(),
            forall|j: int| 0 <= j < i ==> bucket_char_ok(#[trigger] name@[j]),
        decreases name.len() - i,
    {
        if !is_bucket_char(name[i]) {
            return false;
        }
        i = i + 1;
    }
    if name[0] == '-' || name[name.len() - 1] == '-' {
        return false;
    }
    true
}

/// Checks a bucket name against the S3 naming rules: 3 to 63 characters,
/// only lowercase ASCII letters, digits and `-`, no `-` first or last.
pub fn validate_bucket(name: &str) -> (r: Result<(), ()>)
    ensures
        r is Ok <==> valid_bucket(name@),
{
    let chars = chars_of(name);
    if bucket_chars_valid(&chars) {
        Ok(())
    } else {
        Err(())
    }
}

impl S3Path {
    /// Parses an `s3://bucket/key` (object) or `s3://bucket/prefix/` (prefix) path.
    pub fn parse(raw: &str) -> (res: Result<S3Path, S3PathError>)
        ensures
            parse_result_model(res) == spec_parse(raw@),
    {
        let chars = chars_of(raw);
        if !starts_with_chars(&chars, "s3://") {
            proof {
                reveal_strlit("s3://");
                assert("s3://"@ == scheme());
            }
            return Err(S3PathError::MissingScheme);
        }
        proof {
            reveal_strlit("s3://");
            assert("s3://"@ == scheme());
        }
        let after = slice_chars(&chars, 5, chars.len());
        assert(after@ == raw@.skip(5));
        if after.len() == 0 {
            return Err(S3PathError::EmptyBucket);
        }
        let cut = find_char(&after, '/');
        proof {
            lemma_index_or_len(after@, '/');
        }
        let bucket_chars = slice_chars(&after, 0, cut);
        assert(bucket_chars@ == after@.take(cut as int));
        let path_chars = if cut < after.len() {
            slice_chars(&after, cut + 1, after.len())
        } else {
            Vec::new()
        };
        assert(path_chars@ == if (cut as int) < after@.len() {
            after@.skip(cut + 1)
        } else {
            Seq::<char>::empty()
        });
        if bucket_chars.len() == 0 {
            return Err(S3PathError::EmptyBucket);
        }
        let bucket = string_from_chars(&bucket_chars);
        if validate_bucket(bucket.as_str()).is_err() {
            return Err(S3PathError::InvalidBucket(bucket));
        }
        let path = string_from_chars(&path_chars);
        if path_chars.len() == 0 || path_chars[path_chars.len() - 1] == '/' {
            Ok(S3Path::Prefix { bucket, prefix: path })
        } else {
            Ok(S3Path::Object { bucket, key: path })
        }
    }
}

/// The user-facing text of a path error.
pub open spec fn spec_error_message(e: S3PathErrorModel) -> Seq<char> {
    match e {
        S3PathErrorModel::MissingScheme => "path must start with s3://"@,
        S3PathErrorModel::EmptyBucket => "s3:// path has no bucket name"@,
        S3PathErrorModel::InvalidBucket(name) => "invalid S3 bucket name \""@ + name
            + "\": must be 3-63 lowercase letters, digits, or hyphens; no leading/trailing hyphen"@,
    }
}

impl S3PathError {
    /// The user-facing text of the error.
    pub fn message(&self) -> (s: String)
        ensures
            s@ == spec_error_message(self@),
    {
        match self {
            S3PathError::MissingScheme => String::from_str("path must start with s3://"),
            S3PathError::EmptyBucket => String::from_str("s3:// path has no bucket name"),
            S3PathError::InvalidBucket(name) => {
                let mut s = String::from_str("invalid S3 bucket name \"");
                s.append(name.as_str());
                s.append(
                    "\": must be 3-63 lowercase letters, digits, or hyphens; no leading/trailing hyphen",
                );
                s
            },
        }
    }
}

/// Path grammar: for a valid bucket name `b` and any rest `p`,
/// `s3://b/p` names the prefix `p` when `p` is empty or ends in `/`, and the
/// object `p` otherwise; `s3://b` names the empty prefix of `b`.
pub proof fn law_parse_grammar(bucket: Seq<char>, path: Seq<char>)
    requires
        valid_bucket(bucket),
    ensures
        spec_parse(scheme() + bucket + seq!['/'] + path) == if path.len() == 0 || path[path.len()
            - 1] == '/' {
            Ok::<S3PathModel, S3PathErrorModel>(S3PathModel::Prefix { bucket, prefix: path })
        } else {
            Ok::<S3PathModel, S3PathErrorModel>(S3PathModel::Object { bucket, key: path })
        },
        spec_parse(scheme() + bucket) == Ok::<S3PathModel, S3PathErrorModel>(
            S3PathModel::Prefix { bucket, prefix: Seq::<char>::empty() },
        ),
{
    let raw = scheme() + bucket + seq!['/'] + path;
    assert(scheme().is_prefix_of(raw)) by {
        assert(raw.subrange(0, 5) =~= scheme());
    }
    let after = raw.skip(5);
    assert(after =~= bucket + seq!['/'] + path);
    assert forall|j: int| 0 <= j < bucket.len() implies after[j] != '/' by {
        assert(after[j] == bucket[j]);
        assert(bucket_char_ok(bucket[j]));
    }
    lemma_index_or_len_unique(after, '/', bucket.len() as int);
    assert(after.take(bucket.len() as int) =~= bucket);
    assert(after.skip(bucket.len() + 1int) =~= path);

    let raw2 = scheme() + bucket;
    assert(scheme().is_prefix_of(raw2)) by {
        assert(raw2.subrange(0, 5) =~= scheme());
    }
    let after2 = raw2.skip(5);
    assert(after2 =~= bucket);
    assert forall|j: int| 0 <= j < bucket.len() implies after2[j] != '/' by {
        assert(bucket_char_ok(bucket[j]));
    }
    lemma_index_or_len_unique(after2, '/', bucket.len() as int);
    assert(after2.take(bucket.len() as int) =~= bucket);
}

/// Bucket rule: after `s3://`, a bucket name without `/` followed by `/` and
/// any rest is rejected as an invalid bucket exactly when it breaks the naming
/// rules (3 to 63 characters, only lowercase ASCII letters, digits and `-`,
/// no `-` first or last); an empty name is reported as missing.
pub proof fn law_bucket_rule(bucket: Seq<char>, path: Seq<char>)
    requires
        forall|j: int| 0 <= j < bucket.len() ==> bucket[j] != '/',
    ensures
        bucket.len() == 0 ==> spec_parse(scheme() + bucket + seq!['/'] + path)
            == Err::<S3PathModel, S3PathErrorModel>(S3PathErrorModel::EmptyBucket),
        bucket.len() > 0 ==> ((spec_parse(scheme() + bucket + seq!['/'] + path)
            == Err::<S3PathModel, S3PathErrorModel>(S3PathErrorModel::InvalidBucket(bucket)))
            <==> !valid_bucket(bucket)),
{
    let raw = scheme() + bucket + seq!['/'] + path;
    assert(scheme().is_prefix_of(raw)) by {
        assert(raw.subrange(0, 5) =~= scheme());
    }
    let after = raw.skip(5);
    assert(after =~= bucket + seq!['/'] + path);
    assert forall|j: int| 0 <= j < bucket.len() implies after[j] != '/' by {
        assert(after[j] == bucket[j]);
    }
    lemma_index_or_len_unique(after, '/', bucket.len() as int);
    assert(after.take(bucket.len() as int) =~= bucket);
}

} // verus!
