//! The command line: the options, the checks on how they combine, the
//! `--sample` and `--columns` values, and which mode a command runs.

use vstd::prelude::*;
use crate::diff::DiffOutcome;
use crate::text::{chars_of, dec, find_char, index_or_len, lemma_index_or_len, lemma_strs_push,
    parse_u64, slice_chars, spec_parse_u64, starts_with_chars, string_from_chars, strs};

verus! {

/// The options of `pqls`, as the command line gives them.
#[derive(Debug)]
pub struct Cli {
    /// A `.parquet` file, a directory, or an `s3://` location.
    pub path: String,
    /// The second file of `--diff`.
    pub path_b: Option<String>,
    pub diff: bool,
    pub detail: bool,
    pub recursive: bool,
    pub csv: bool,
    pub head: Option<u64>,
    pub quiet: bool,
    pub schema: bool,
    pub json: bool,
    pub ndjson: bool,
    pub sample: Option<u64>,
    pub columns: Option<String>,
    pub kv_meta: bool,
    pub scan_stats: bool,
    pub partition_stats: bool,
    pub check: bool,
    pub deep: bool,
}

/// What `--sample` accepts: a decimal `u64` (an optional `+` allowed) above
/// zero; otherwise the message of the rejection.
pub open spec fn spec_validate_sample(s: Seq<char>) -> Result<u64, Seq<char>> {
    match spec_parse_u64(s) {
        None => Err("'"@ + s + "' is not a valid number"@),
        Some(n) => if n == 0 {
            Err("--sample N must be > 0"@)
        } else {
            Ok(n)
        },
    }
}

/// Parses the value of `--sample` (see [`spec_validate_sample`]).
pub fn validate_sample(s: &str) -> (r: Result<u64, String>)
    ensures
        match r {
            Ok(n) => spec_validate_sample(s@) == Ok::<u64, Seq<char>>(n),
            Err(m) => spec_validate_sample(s@) == Err::<u64, Seq<char>>(m@),
        },
{
    match parse_u64(s) {
        None => {
            let mut m = String::from_str("'");
            m.append(s);
            m.append("' is not a valid number");
            Err(m)
        },
        Some(n) => {
            if n == 0 {
                Err(String::from_str("--sample N must be > 0"))
            } else {
                Ok(n)
            }
        },
    }
}

/// The first misuse of the options that `pqls` rejects before doing any
/// work, as the line it prints; each exits with status 2.
pub open spec fn spec_usage_error(c: Cli) -> Option<Seq<char>> {
    if c.diff && c.path_b is None {
        Some("error: --diff requires two path arguments: pqls --diff A.parquet B.parquet"@)
    } else if c.json && !c.schema && !c.kv_meta && !c.check && !c.partition_stats && !c.diff {
        Some("error: --json requires --schema, --kv-meta, --check, --partition-stats, or --diff"@)
    } else if c.partition_stats && !c.recursive {
        Some("error: --partition-stats requires -r"@)
    } else if c.sample is Some && !c.ndjson && !c.csv {
        Some(
            "error: --sample requires --ndjson or --csv; did you mean: pqls --ndjson --sample "@
                + dec(c.sample->0 as nat) + " FILE"@,
        )
    } else if c.scan_stats && !c.detail {
        Some("error: --scan-stats requires -d / --detail"@)
    } else {
        None
    }
}

/// The exit status of a usage error.
pub const USAGE_EXIT_CODE: i32 = 2;

impl Cli {
    /// The first misuse of the options (see [`spec_usage_error`]).
    pub fn usage_error(&self) -> (r: Option<String>)
        ensures
            match r {
                Some(m) => spec_usage_error(*self) == Some(m@),
                None => spec_usage_error(*self) is None,
            },
    {
        if self.diff && self.path_b.is_none() {
            Some(
                String::from_str(
                    "error: --diff requires two path arguments: pqls --diff A.parquet B.parquet",
                ),
            )
        } else if self.json && !self.schema && !self.kv_meta && !self.check && !self.partition_stats
            && !self.diff {
            Some(
                String::from_str(
                    "error: --json requires --schema, --kv-meta, --check, --partition-stats, or --diff",
                ),
            )
        } else if self.partition_stats && !self.recursive {
            Some(String::from_str("error: --partition-stats requires -r"))
        } else if self.sample.is_some() && !self.ndjson && !self.csv {
            let n = match self.sample {
                Some(n) => n,
                None => 0,
            };
            let mut m = String::from_str(
                "error: --sample requires --ndjson or --csv; did you mean: pqls --ndjson --sample ",
            );
            m.append(crate::text::fmt_u64(n).as_str());
            m.append(" FILE");
            Some(m)
        } else if self.scan_stats && !self.detail {
            Some(String::from_str("error: --scan-stats requires -d / --detail"))
        } else {
            None
        }
    }
}

/// Whether `c` is white space in the sense of Unicode's `White_Space`
/// property, as `char::is_whitespace` has it.
pub open spec fn is_white_space(c: char) -> bool {
    ('\t' <= c && c <= '\r') || c == ' ' || c == '\u{85}' || c == '\u{A0}' || c == '\u{1680}' || (
    '\u{2000}' <= c && c <= '\u{200A}') || c == '\u{2028}' || c == '\u{2029}' || c == '\u{202F}'
        || c == '\u{205F}' || c == '\u{3000}'
}

fn white_space(c: char) -> (b: bool)
    ensures
        b == is_white_space(c),
{
    ('\t' <= c && c <= '\r') || c == ' ' || c == '\u{85}' || c == '\u{A0}' || c == '\u{1680}' || (
    '\u{2000}' <= c && c <= '\u{200A}') || c == '\u{2028}' || c == '\u{2029}' || c == '\u{202F}'
        || c == '\u{205F}' || c == '\u{3000}'
}

/// The text without leading white space.
pub open spec fn trim_start(s: Seq<char>) -> Seq<char>
    decreases s.len(),
{
    if s.len() > 0 && is_white_space(s[0]) {
        trim_start(s.drop_first())
    } else {
        s
    }
}

/// The text without trailing white space.
pub open spec fn trim_end(s: Seq<char>) -> Seq<char>
    decreases s.len(),
{
    if s.len() > 0 && is_white_space(s.last()) {
        trim_end(s.drop_last())
    } else {
        s
    }
}

/// The text without leading and trailing white space, as `str::trim` gives it.
pub open spec fn trim(s: Seq<char>) -> Seq<char> {
    trim_end(trim_start(s))
}

proof fn lemma_trim_start_at(s: Seq<char>, a: int)
    requires
        0 <= a <= s.len(),
        forall|j: int| 0 <= j < a ==> is_white_space(#[trigger] s[j]),
        a < s.len() ==> !is_white_space(s[a]),
    ensures
        trim_start(s) == s.skip(a),
    decreases a,
{
    if a > 0 {
        assert forall|j: int| 0 <= j < a - 1 implies is_white_space(#[trigger] s.drop_first()[j]) by {
            assert(s.drop_first()[j] == s[j + 1]);
        }
        lemma_trim_start_at(s.drop_first(), a - 1);
        assert(s.drop_first().skip(a - 1) =~= s.skip(a));
    } else {
        assert(s.skip(0) =~= s);
    }
}

proof fn lemma_trim_end_at(s: Seq<char>, b: int)
    requires
        0 <= b <= s.len(),
        forall|j: int| b <= j < s.len() ==> is_white_space(#[trigger] s[j]),
        b > 0 ==> !is_white_space(s[b - 1]),
    ensures
        trim_end(s) == s.take(b),
    decreases s.len() - b,
{
    if b < s.len() {
        assert forall|j: int| b <= j < s.drop_last().len() implies is_white_space(
            #[trigger] s.drop_last()[j],
        ) by {
            assert(s.drop_last()[j] == s[j]);
        }
        lemma_trim_end_at(s.drop_last(), b);
        assert(s.drop_last().take(b) =~= s.take(b));
    } else {
        assert(s.take(b) =~= s);
    }
}

/// Trims white space from both ends of a text (see [`trim`]).
pub fn trim_chars(v: &Vec<char>) -> (r: Vec<char>)
    ensures
        r@ == trim(v@),
{
    let mut a: usize = 0;
    while a < v.len() && white_space(v[a])
        invariant
            0 <= a <= v.len(),
            forall|j: int| 0 <= j < a ==> is_white_space(#[trigger] v@[j]),
        decreases v.len() - a,
    {
        a = a + 1;
    }
    proof {
        lemma_trim_start_at(v@, a as int);
    }
    let mut b: usize = v.len();
    while b > a && white_space(v[b - 1])
        invariant
            a <= b <= v.len(),
            forall|j: int| b <= j < v.len() ==> is_white_space(#[trigger] v@[j]),
        decreases b - a,
    {
        b = b - 1;
    }
    let r = slice_chars(v, a, b);
    proof {
        let t = v@.skip(a as int);
        assert forall|j: int| b - a <= j < t.len() implies is_white_space(#[trigger] t[j]) by {
            assert(t[j] == v@[a + j]);
        }
        if b > a {
            assert(t[b - a - 1] == v@[b - 1]);
        }
        lemma_trim_end_at(t, (b - a) as int);
        assert(t.take(b - a) =~= v@.subrange(a as int, b as int));
    }
    r
}

/// The pieces of a text between commas, as `str::split(',')` gives them.
pub open spec fn split_commas(s: Seq<char>) -> Seq<Seq<char>>
    decreases s.len(),
{
    let k = index_or_len(s, ',');
    if k >= s.len() {
        seq![s]
    } else {
        proof {
            lemma_index_or_len(s, ',');
        }
        seq![s.take(k)] + split_commas(s.skip(k + 1))
    }
}

/// The column names of `--columns`: the pieces between commas, each trimmed
/// of white space.
pub open spec fn spec_parse_columns(s: Seq<char>) -> Seq<Seq<char>> {
    split_commas(s).map_values(|p: Seq<char>| trim(p))
}

/// Splits the value of `--columns` into trimmed names (see
/// [`spec_parse_columns`]); empty pieces stay, as empty names.
pub fn parse_columns(s: &str) -> (names: Vec<String>)
    ensures
        strs(names@) == spec_parse_columns(s@),
{
    let mut names: Vec<String> = Vec::new();
    let mut rest = chars_of(s);
    loop
        invariant
            strs(names@) + spec_parse_columns(rest@) == spec_parse_columns(s@),
        decreases rest.len(),
    {
        let k = find_char(&rest, ',');
        proof {
            lemma_index_or_len(rest@, ',');
        }
        let piece = slice_chars(&rest, 0, k);
        let name = string_from_chars(&trim_chars(&piece));
        proof {
            lemma_strs_push(names@, name);
        }
        names.push(name);
        if k == rest.len() {
            assert(piece@ =~= rest@);
            assert(spec_parse_columns(rest@) =~= seq![trim(rest@)]);
            assert(strs(names@) =~= spec_parse_columns(s@));
            return names;
        }
        let next = slice_chars(&rest, k + 1, rest.len());
        assert(piece@ =~= rest@.take(k as int));
        assert(next@ =~= rest@.skip(k + 1));
        assert(spec_parse_columns(rest@) =~= seq![trim(rest@.take(k as int))] + spec_parse_columns(
            next@,
        ));
        assert(strs(names@) + spec_parse_columns(next@) =~= spec_parse_columns(s@));
        rest = next;
    }
}

/// What a command does.
#[derive(Clone, Copy, Debug, PartialEq, Eq, Structural)]
pub enum Mode {
    /// A schema, or a listing, of S3 objects.
    S3,
    Diff,
    Csv,
    Ndjson,
    SchemaJson,
    SchemaText,
    KvMetaJson,
    KvMetaText,
    PartitionStats,
    Check,
    ListDirectory,
    Inspect,
}

/// Whether a path names an S3 location rather than a local one.
pub open spec fn is_s3_location(path: Seq<char>) -> bool {
    path.len() >= 5 && path.take(5) == "s3://"@
}

/// Whether a path names an S3 location (it starts with `s3://`).
pub fn is_s3_path(path: &str) -> (b: bool)
    ensures
        b == is_s3_location(path@),
{
    let v = chars_of(path);
    proof {
        reveal_strlit("s3://");
    }
    let b = starts_with_chars(&v, "s3://");
    assert(b ==> path@.take(5) =~= "s3://"@);
    b
}

/// The first option given that S3 locations do not support, as its flag.
pub open spec fn spec_s3_unsupported(c: Cli) -> Option<Seq<char>> {
    if c.csv {
        Some("--csv"@)
    } else if c.ndjson {
        Some("--ndjson"@)
    } else if c.diff {
        Some("--diff"@)
    } else if c.kv_meta {
        Some("--kv-meta"@)
    } else if c.check {
        Some("--check"@)
    } else if c.partition_stats {
        Some("--partition-stats"@)
    } else if c.scan_stats {
        Some("--scan-stats"@)
    } else if c.sample is Some {
        Some("--sample"@)
    } else if c.head is Some {
        Some("--head"@)
    } else {
        None
    }
}

fn s3_unsupported(c: &Cli) -> (r: Option<&'static str>)
    ensures
        match r {
            Some(f) => spec_s3_unsupported(*c) == Some(f@),
            None => spec_s3_unsupported(*c) is None,
        },
{
    if c.csv {
        Some("--csv")
    } else if c.ndjson {
        Some("--ndjson")
    } else if c.diff {
        Some("--diff")
    } else if c.kv_meta {
        Some("--kv-meta")
    } else if c.check {
        Some("--check")
    } else if c.partition_stats {
        Some("--partition-stats")
    } else if c.scan_stats {
        Some("--scan-stats")
    } else if c.sample.is_some() {
        Some("--sample")
    } else if c.head.is_some() {
        Some("--head")
    } else {
        None
    }
}

/// The mode of a local command whose options passed [`spec_usage_error`]:
/// the first that applies, in this order; a path that is a directory is
/// listed, any other is inspected.
pub open spec fn spec_local_mode(c: Cli, path_is_dir: bool) -> Mode {
    if c.diff {
        Mode::Diff
    } else if c.csv {
        Mode::Csv
    } else if c.ndjson {
        Mode::Ndjson
    } else if c.schema && c.json {
        Mode::SchemaJson
    } else if c.schema {
        Mode::SchemaText
    } else if c.kv_meta && c.json {
        Mode::KvMetaJson
    } else if c.kv_meta {
        Mode::KvMetaText
    } else if c.partition_stats {
        Mode::PartitionStats
    } else if c.check {
        Mode::Check
    } else if path_is_dir {
        Mode::ListDirectory
    } else {
        Mode::Inspect
    }
}

/// What a command does, or the line it fails with (exit status 2). An S3
/// location takes the S3 mode unless an option it does not support is given;
/// a local path is held to [`spec_usage_error`] and then takes its mode.
pub open spec fn spec_command(c: Cli, path_is_dir: bool) -> Result<Mode, Seq<char>> {
    if is_s3_location(c.path@) {
        match spec_s3_unsupported(c) {
            Some(flag) => Err("error: "@ + flag + " is not supported for S3 paths"@),
            None => Ok(Mode::S3),
        }
    } else {
        match spec_usage_error(c) {
            Some(m) => Err(m),
            None => Ok(spec_local_mode(c, path_is_dir)),
        }
    }
}

impl Cli {
    /// What the command does (see [`spec_command`]); `path_is_dir` tells
    /// whether a local path is a directory.
    pub fn command(&self, path_is_dir: bool) -> (r: Result<Mode, String>)
        ensures
            match r {
                Ok(m) => spec_command(*self, path_is_dir) == Ok::<Mode, Seq<char>>(m),
                Err(e) => spec_command(*self, path_is_dir) == Err::<Mode, Seq<char>>(e@),
            },
    {
        if is_s3_path(self.path.as_str()) {
            return match s3_unsupported(self) {
                Some(flag) => {
                    let mut m = String::from_str("error: ");
                    m.append(flag);
                    m.append(" is not supported for S3 paths");
                    Err(m)
                },
                None => Ok(Mode::S3),
            };
        }
        match self.usage_error() {
            Some(m) => {
                return Err(m);
            },
            None => {},
        }
        let m = if self.diff {
            Mode::Diff
        } else if self.csv {
            Mode::Csv
        } else if self.ndjson {
            Mode::Ndjson
        } else if self.schema && self.json {
            Mode::SchemaJson
        } else if self.schema {
            Mode::SchemaText
        } else if self.kv_meta && self.json {
            Mode::KvMetaJson
        } else if self.kv_meta {
            Mode::KvMetaText
        } else if self.partition_stats {
            Mode::PartitionStats
        } else if self.check {
            Mode::Check
        } else if path_is_dir {
            Mode::ListDirectory
        } else {
            Mode::Inspect
        };
        Ok(m)
    }
}

/// The exit status of `--diff`: 0 when the schemas are identical, else 1.
pub fn diff_exit_code(outcome: &DiffOutcome) -> (code: i32)
    ensures
        code == if outcome is Identical {
            0i32
        } else {
            1i32
        },
{
    match outcome {
        DiffOutcome::Identical => 0,
        _ => 1,
    }
}

/// `--sample` accepts exactly the texts that `str::parse::<u64>` accepts
/// (see [`spec_parse_u64`]) with a value above zero, and gives that value.
pub proof fn law_validate_sample(s: Seq<char>)
    ensures
        (spec_validate_sample(s) is Ok) <==> (spec_parse_u64(s) is Some && spec_parse_u64(s)->0 > 0),
        spec_validate_sample(s) is Ok ==> spec_validate_sample(s)->Ok_0 == spec_parse_u64(s)->0,
{
}

} // verus!
