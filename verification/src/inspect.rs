//! What `pqls FILE` prints for one file: the overview and schema listing, and
//! with `--detail` the column statistics of each row group, or the file-level
//! statistics computed by a scan when the file has none.

use vstd::prelude::*;
use crate::parquet_types::spec_physical_name;
use crate::schema::{ColumnInfo, column_selected, get_logical_type_str, is_selected,
    spec_logical_type_str};
use crate::size::{format_size_binary, human_size};
use crate::text::{chars_of, debug_quoted, debug_text, dec, dec_int, fmt_i64, fmt_u64,
    from_utf8_lossy, is_i64_text, lemma_strs_push, parses_as_i64, slice_chars, string_from_chars,
    strs, utf8_lossy};

verus! {

/// Minimum and maximum of a column chunk, by physical type, as the footer
/// records them.
#[derive(Debug)]
#[allow(inconsistent_fields)]
pub enum StatValues {
    Boolean { min: Option<bool>, max: Option<bool> },
    Int32 { min: Option<i32>, max: Option<i32> },
    Int64 { min: Option<i64>, max: Option<i64> },
    Int96,
    /// Bounds of a `FLOAT` column, each as the text `{:?}` gives for the value.
    Float { min: Option<String>, max: Option<String> },
    /// Bounds of a `DOUBLE` column, each as the text `{:?}` gives for the value.
    Double { min: Option<String>, max: Option<String> },
    ByteArray { min: Option<Vec<u8>>, max: Option<Vec<u8>> },
    FixedLenByteArray,
}

/// The statistics of a column chunk.
#[derive(Debug)]
pub struct ColumnStats {
    pub values: StatValues,
    pub null_count: Option<u64>,
}

/// `Some(..)` around a rendered value, as `{:?}` shows an `Option`.
pub open spec fn debug_some(inner: Seq<char>) -> Seq<char> {
    "Some("@ + inner + ")"@
}

/// An optional boolean as `{:?}` shows it.
pub open spec fn debug_opt_bool(o: Option<bool>) -> Seq<char> {
    match o {
        Some(b) => debug_some(if b { "true"@ } else { "false"@ }),
        None => "None"@,
    }
}

/// An optional `i32` as `{:?}` shows it.
pub open spec fn debug_opt_i32(o: Option<i32>) -> Seq<char> {
    match o {
        Some(v) => debug_some(dec_int(v as int)),
        None => "None"@,
    }
}

/// An optional `i64` as `{:?}` shows it.
pub open spec fn debug_opt_i64(o: Option<i64>) -> Seq<char> {
    match o {
        Some(v) => debug_some(dec_int(v as int)),
        None => "None"@,
    }
}

/// An optional value given as its rendered text.
pub open spec fn debug_opt_text(o: Option<String>) -> Seq<char> {
    match o {
        Some(t) => debug_some(t@),
        None => "None"@,
    }
}

/// An optional byte string, shown as the quoted text it reads as.
pub open spec fn debug_opt_bytes(o: Option<Vec<u8>>) -> Seq<char> {
    match o {
        Some(b) => debug_some(debug_text(utf8_lossy(b@))),
        None => "None"@,
    }
}

/// `min=.. max=.. nulls=..` from the three rendered parts.
pub open spec fn min_max_text(min: Seq<char>, max: Seq<char>, nulls: Seq<char>) -> Seq<char> {
    "min="@ + min + " max="@ + max + " nulls="@ + nulls
}

/// The statistics text of a column chunk: `min=.. max=.. nulls=..`, or only
/// the null count for `INT96` and fixed-length byte arrays. A missing null
/// count reads as 0.
pub open spec fn spec_format_statistics(s: ColumnStats) -> Seq<char> {
    let nulls = dec(
        match s.null_count {
            Some(n) => n as nat,
            None => 0,
        },
    );
    match s.values {
        StatValues::Boolean { min, max } => min_max_text(
            debug_opt_bool(min),
            debug_opt_bool(max),
            nulls,
        ),
        StatValues::Int32 { min, max } => min_max_text(debug_opt_i32(min), debug_opt_i32(max), nulls),
        StatValues::Int64 { min, max } => min_max_text(debug_opt_i64(min), debug_opt_i64(max), nulls),
        StatValues::Float { min, max } => min_max_text(
            debug_opt_text(min),
            debug_opt_text(max),
            nulls,
        ),
        StatValues::Double { min, max } => min_max_text(
            debug_opt_text(min),
            debug_opt_text(max),
            nulls,
        ),
        StatValues::ByteArray { min, max } => min_max_text(
            debug_opt_bytes(min),
            debug_opt_bytes(max),
            nulls,
        ),
        StatValues::Int96 => "nulls="@ + nulls,
        StatValues::FixedLenByteArray => "nulls="@ + nulls,
    }
}

fn some_text(inner: String) -> (s: String)
    ensures
        s@ == debug_some(inner@),
{
    let mut s = String::from_str("Some(");
    s.append(inner.as_str());
    s.append(")");
    s
}

fn opt_bool_text(o: Option<bool>) -> (s: String)
    ensures
        s@ == debug_opt_bool(o),
{
    match o {
        Some(b) => some_text(
            if b {
                String::from_str("true")
            } else {
                String::from_str("false")
            },
        ),
        None => String::from_str("None"),
    }
}

fn opt_i64_text(o: Option<i64>) -> (s: String)
    ensures
        s@ == debug_opt_i64(o),
{
    match o {
        Some(v) => some_text(fmt_i64(v)),
        None => String::from_str("None"),
    }
}

fn opt_i32_text(o: Option<i32>) -> (s: String)
    ensures
        s@ == debug_opt_i32(o),
{
    match o {
        Some(v) => some_text(fmt_i64(v as i64)),
        None => String::from_str("None"),
    }
}

fn opt_given_text(o: &Option<String>) -> (s: String)
    ensures
        s@ == debug_opt_text(*o),
{
    match o {
        Some(t) => some_text(t.clone()),
        None => String::from_str("None"),
    }
}

fn opt_bytes_text(o: &Option<Vec<u8>>) -> (s: String)
    ensures
        s@ == debug_opt_bytes(*o),
{
    match o {
        Some(b) => {
            let t = from_utf8_lossy(b);
            some_text(debug_quoted(t.as_str()))
        },
        None => String::from_str("None"),
    }
}

fn min_max(min: String, max: String, nulls: &String) -> (s: String)
    ensures
        s@ == min_max_text(min@, max@, nulls@),
{
    let mut s = String::from_str("min=");
    s.append(min.as_str());
    s.append(" max=");
    s.append(max.as_str());
    s.append(" nulls=");
    s.append(nulls.as_str());
    s
}

/// The statistics text of a column chunk (see [`spec_format_statistics`]).
pub fn format_statistics(stats: &ColumnStats) -> (s: String)
    ensures
        s@ == spec_format_statistics(*stats),
{
    let nulls = fmt_u64(
        match stats.null_count {
            Some(n) => n,
            None => 0,
        },
    );
    match &stats.values {
        StatValues::Boolean { min, max } => min_max(opt_bool_text(*min), opt_bool_text(*max), &nulls),
        StatValues::Int32 { min, max } => min_max(opt_i32_text(*min), opt_i32_text(*max), &nulls),
        StatValues::Int64 { min, max } => min_max(opt_i64_text(*min), opt_i64_text(*max), &nulls),
        StatValues::Float { min, max } => min_max(opt_given_text(min), opt_given_text(max), &nulls),
        StatValues::Double { min, max } => min_max(opt_given_text(min), opt_given_text(max), &nulls),
        StatValues::ByteArray { min, max } => min_max(
            opt_bytes_text(min),
            opt_bytes_text(max),
            &nulls,
        ),
        StatValues::Int96 => {
            let mut s = String::from_str("nulls=");
            s.append(nulls.as_str());
            s
        },
        StatValues::FixedLenByteArray => {
            let mut s = String::from_str("nulls=");
            s.append(nulls.as_str());
            s
        },
    }
}

/// A column chunk of a row group: its column's name and its statistics, if
/// the writer stored any.
#[derive(Debug)]
pub struct ColumnChunkInfo {
    pub name: String,
    pub stats: Option<ColumnStats>,
}

/// A row group as the footer describes it.
#[derive(Debug)]
pub struct RowGroupInfo {
    pub num_rows: i64,
    pub compressed_size: i64,
    pub columns: Vec<ColumnChunkInfo>,
}

/// Whether no column chunk of any row group carries statistics.
pub open spec fn has_no_stats(rgs: Seq<RowGroupInfo>) -> bool {
    forall|i: int, j: int|
        0 <= i < rgs.len() && 0 <= j < rgs[i].columns.len() ==> (#[trigger] rgs[i].columns@[j]).stats is None
}

/// Whether no column chunk of any row group carries statistics.
pub fn all_no_stats(rgs: &Vec<RowGroupInfo>) -> (b: bool)
    ensures
        b == has_no_stats(rgs@),
{
    let mut i: usize = 0;
    while i < rgs.len()
        invariant
            0 <= i <= rgs.len(),
            forall|a: int, j: int|
                0 <= a < i && 0 <= j < rgs@[a].columns.len() ==> (#[trigger] rgs@[a].columns@[j]).stats is None,
        decreases rgs.len() - i,
    {
        let cols = &rgs[i].columns;
        let mut j: usize = 0;
        while j < cols.len()
            invariant
                0 <= i < rgs.len(),
                cols == &rgs@[i as int].columns,
                0 <= j <= cols.len(),
                forall|a: int, k: int|
                    0 <= a < i && 0 <= k < rgs@[a].columns.len() ==> (#[trigger] rgs@[a].columns@[k]).stats is None,
                forall|k: int| 0 <= k < j ==> (#[trigger] cols@[k]).stats is None,
            decreases cols.len() - j,
        {
            if cols[j].stats.is_some() {
                return false;
            }
            j = j + 1;
        }
        i = i + 1;
    }
    true
}

/// The statistics text of a chunk, or `(no stats)`.
pub open spec fn chunk_stats_text(c: ColumnChunkInfo) -> Seq<char> {
    match c.stats {
        Some(s) => spec_format_statistics(s),
        None => "(no stats)"@,
    }
}

/// The line of a chunk of row group `rg`: indented with an arrow, or
/// tab-separated with the row group's index when quiet.
pub open spec fn spec_chunk_line(rg: nat, c: ColumnChunkInfo, quiet: bool) -> Seq<char> {
    if quiet {
        dec(rg) + "\t"@ + c.name@ + "\t"@ + chunk_stats_text(c)
    } else {
        "      "@ + c.name@ + " → "@ + chunk_stats_text(c)
    }
}

/// The lines of the selected chunks of row group `rg`, in column order.
pub open spec fn spec_chunk_lines(
    rg: nat,
    cols: Seq<ColumnChunkInfo>,
    filter: Option<Vec<String>>,
    quiet: bool,
) -> Seq<Seq<char>>
    decreases cols.len(),
{
    if cols.len() == 0 {
        Seq::empty()
    } else {
        let prev = spec_chunk_lines(rg, cols.drop_last(), filter, quiet);
        if column_selected(filter, cols.last().name@) {
            prev.push(spec_chunk_line(rg, cols.last(), quiet))
        } else {
            prev
        }
    }
}

/// The heading line of row group `i`.
pub open spec fn spec_row_group_header(i: nat, rg: RowGroupInfo) -> Seq<char> {
    "    row group "@ + dec(i) + " — "@ + dec_int(rg.num_rows as int) + " rows, "@ + human_size(
        rg.compressed_size as u64,
    ) + " compressed"@
}

/// The lines of the row groups: each one's heading (unless quiet), then its
/// chunk lines when statistics are shown.
pub open spec fn spec_row_group_lines(
    rgs: Seq<RowGroupInfo>,
    filter: Option<Vec<String>>,
    quiet: bool,
    show_stats: bool,
) -> Seq<Seq<char>>
    decreases rgs.len(),
{
    if rgs.len() == 0 {
        Seq::empty()
    } else {
        let i = (rgs.len() - 1) as nat;
        let prev = spec_row_group_lines(rgs.drop_last(), filter, quiet, show_stats);
        let head = if quiet {
            Seq::empty()
        } else {
            seq![spec_row_group_header(i, rgs.last())]
        };
        let body = if show_stats {
            spec_chunk_lines(i, rgs.last().columns@, filter, quiet)
        } else {
            Seq::empty()
        };
        prev + head + body
    }
}

/// The two lines printed when the file has no statistics and no scan was asked for.
pub open spec fn spec_no_stats_note() -> Seq<Seq<char>> {
    seq![
        "# note: no column statistics — file was written without stats (common with Arrow writers)"@,
        "#       run with --scan-stats to compute min/max from data (reads full file)"@,
    ]
}

/// The `--detail` lines: a heading (unless quiet), the row groups with the
/// statistics of the selected columns, and, when no chunk has statistics and
/// no scan was asked for, a note saying so. With no statistics at all, no
/// chunk line is printed.
pub open spec fn spec_detail_lines(
    rgs: Seq<RowGroupInfo>,
    filter: Option<Vec<String>>,
    quiet: bool,
    scan_stats: bool,
) -> Seq<Seq<char>> {
    let none = has_no_stats(rgs);
    (if quiet {
        Seq::empty()
    } else {
        seq!["  row groups:"@]
    }) + spec_row_group_lines(rgs, filter, quiet, !none) + (if none && !scan_stats {
        spec_no_stats_note()
    } else {
        Seq::empty()
    })
}

fn push_line(out: &mut Vec<String>, line: String)
    ensures
        strs(final(out)@) == strs(old(out)@).push(line@),
{
    proof {
        lemma_strs_push(out@, line);
    }
    out.push(line);
}

fn push_chunk_lines(
    out: &mut Vec<String>,
    rg: usize,
    cols: &Vec<ColumnChunkInfo>,
    filter: &Option<Vec<String>>,
    quiet: bool,
)
    ensures
        strs(final(out)@) == strs(old(out)@) + spec_chunk_lines(rg as nat, cols@, *filter, quiet),
{
    let ghost start = strs(out@);
    let mut j: usize = 0;
    while j < cols.len()
        invariant
            0 <= j <= cols.len(),
            strs(out@) == start + spec_chunk_lines(rg as nat, cols@.take(j as int), *filter, quiet),
        decreases cols.len() - j,
    {
        assert(cols@.take(j + 1).drop_last() =~= cols@.take(j as int));
        let c = &cols[j];
        if is_selected(filter, c.name.as_str()) {
            let stats = match &c.stats {
                Some(st) => format_statistics(st),
                None => String::from_str("(no stats)"),
            };
            let mut line;
            if quiet {
                line = fmt_u64(rg as u64);
                line.append("\t");
                line.append(c.name.as_str());
                line.append("\t");
            } else {
                line = String::from_str("      ");
                line.append(c.name.as_str());
                line.append(" → ");
            }
            line.append(stats.as_str());
            push_line(out, line);
            assert(strs(out@) =~= start + spec_chunk_lines(rg as nat, cols@.take(j + 1), *filter, quiet));
        }
        j = j + 1;
    }
    assert(cols@.take(cols.len() as int) =~= cols@);
}

/// The `--detail` lines (see [`spec_detail_lines`]). When no chunk has
/// statistics and `scan_stats` is set, the caller scans the file and prints
/// [`scan_stats_lines`] after these.
pub fn detail_lines(
    rgs: &Vec<RowGroupInfo>,
    filter: &Option<Vec<String>>,
    quiet: bool,
    scan_stats: bool,
) -> (lines: Vec<String>)
    ensures
        strs(lines@) == spec_detail_lines(rgs@, *filter, quiet, scan_stats),
{
    let none = all_no_stats(rgs);
    let mut out: Vec<String> = Vec::new();
    if !quiet {
        push_line(&mut out, String::from_str("  row groups:"));
    }
    let ghost start = strs(out@);
    let mut i: usize = 0;
    while i < rgs.len()
        invariant
            0 <= i <= rgs.len(),
            none == has_no_stats(rgs@),
            strs(out@) == start + spec_row_group_lines(rgs@.take(i as int), *filter, quiet, !none),
        decreases rgs.len() - i,
    {
        assert(rgs@.take(i + 1).drop_last() =~= rgs@.take(i as int));
        let ghost before = strs(out@);
        let rg = &rgs[i];
        if !quiet {
            let mut line = String::from_str("    row group ");
            line.append(fmt_u64(i as u64).as_str());
            line.append(" — ");
            line.append(fmt_i64(rg.num_rows).as_str());
            line.append(" rows, ");
            let size = format_size_binary(#[verifier::truncate] (rg.compressed_size as u64));
            line.append(size.as_str());
            line.append(" compressed");
            push_line(&mut out, line);
        }
        let ghost mid = strs(out@);
        if !none {
            push_chunk_lines(&mut out, i, &rg.columns, filter, quiet);
        }
        proof {
            let head = if quiet {
                Seq::<Seq<char>>::empty()
            } else {
                seq![spec_row_group_header(i as nat, rgs@[i as int])]
            };
            let body = if !none {
                spec_chunk_lines(i as nat, rgs@[i as int].columns@, *filter, quiet)
            } else {
                Seq::<Seq<char>>::empty()
            };
            assert(mid =~= before + head);
            assert(strs(out@) =~= mid + body);
            assert(spec_row_group_lines(rgs@.take(i + 1), *filter, quiet, !none) == spec_row_group_lines(
                rgs@.take(i as int),
                *filter,
                quiet,
                !none,
            ) + head + body);
            assert(strs(out@) =~= start + spec_row_group_lines(rgs@.take(i + 1), *filter, quiet, !none));
        }
        i = i + 1;
    }
    assert(rgs@.take(rgs.len() as int) =~= rgs@);
    if none && !scan_stats {
        push_line(
            &mut out,
            String::from_str(
                "# note: no column statistics — file was written without stats (common with Arrow writers)",
            ),
        );
        push_line(
            &mut out,
            String::from_str(
                "#       run with --scan-stats to compute min/max from data (reads full file)",
            ),
        );
    }
    assert(strs(out@) =~= spec_detail_lines(rgs@, *filter, quiet, scan_stats));
    out
}

/// The type text of a column in the overview: `INT64` or `INT64 [TIMESTAMP_MICROS]`.
pub open spec fn spec_overview_type(col: ColumnInfo) -> Seq<char> {
    match spec_logical_type_str(col.logical_type, col.converted_type) {
        Some(l) => spec_physical_name(col.physical_type) + " ["@ + l + "]"@,
        None => spec_physical_name(col.physical_type),
    }
}

/// The overview line of column `i`.
pub open spec fn spec_overview_column_line(i: nat, col: ColumnInfo) -> Seq<char> {
    "    ["@ + dec(i) + "] "@ + col.name@ + " ("@ + spec_overview_type(col) + ")"@
}

/// What `pqls FILE` prints first: the path, row count, row group count, file
/// size and one line per column; or, when quiet, one tab-separated line of
/// path, rows and size.
pub open spec fn spec_overview_lines(
    path: Seq<char>,
    num_rows: i64,
    num_row_groups: usize,
    file_size: u64,
    cols: Seq<ColumnInfo>,
    quiet: bool,
) -> Seq<Seq<char>> {
    if quiet {
        seq![path + "\t"@ + dec_int(num_rows as int) + "\t"@ + human_size(file_size)]
    } else {
        seq![
            path,
            "  rows:        "@ + dec_int(num_rows as int),
            "  row groups:  "@ + dec(num_row_groups as nat),
            "  file size:   "@ + human_size(file_size),
            "  schema:"@,
        ] + Seq::new(cols.len(), |i: int| spec_overview_column_line(i as nat, cols[i]))
    }
}

/// The overview of a file (see [`spec_overview_lines`]).
pub fn overview_lines(
    path: &str,
    num_rows: i64,
    num_row_groups: usize,
    file_size: u64,
    cols: &Vec<ColumnInfo>,
    quiet: bool,
) -> (lines: Vec<String>)
    ensures
        strs(lines@) == spec_overview_lines(path@, num_rows, num_row_groups, file_size, cols@, quiet),
{
    let mut out: Vec<String> = Vec::new();
    let size = format_size_binary(file_size);
    if quiet {
        let mut line = String::from_str(path);
        line.append("\t");
        line.append(fmt_i64(num_rows).as_str());
        line.append("\t");
        line.append(size.as_str());
        push_line(&mut out, line);
        assert(strs(out@) =~= spec_overview_lines(path@, num_rows, num_row_groups, file_size, cols@, quiet));
        return out;
    }
    push_line(&mut out, String::from_str(path));
    let mut line = String::from_str("  rows:        ");
    line.append(fmt_i64(num_rows).as_str());
    push_line(&mut out, line);
    let mut line = String::from_str("  row groups:  ");
    line.append(fmt_u64(num_row_groups as u64).as_str());
    push_line(&mut out, line);
    let mut line = String::from_str("  file size:   ");
    line.append(size.as_str());
    push_line(&mut out, line);
    push_line(&mut out, String::from_str("  schema:"));
    let ghost start = strs(out@);
    let mut i: usize = 0;
    while i < cols.len()
        invariant
            0 <= i <= cols.len(),
            strs(out@) == start + Seq::new(
                i as nat,
                |k: int| spec_overview_column_line(k as nat, cols@[k]),
            ),
        decreases cols.len() - i,
    {
        let col = &cols[i];
        let mut line = String::from_str("    [");
        line.append(fmt_u64(i as u64).as_str());
        line.append("] ");
        line.append(col.name.as_str());
        line.append(" (");
        let mut ty = col.physical_type.debug_name();
        match get_logical_type_str(col) {
            Some(lt) => {
                ty.append(" [");
                ty.append(lt.as_str());
                ty.append("]");
            },
            None => {},
        }
        assert(ty@ == spec_overview_type(*col));
        line.append(ty.as_str());
        line.append(")");
        assert(line@ == spec_overview_column_line(i as nat, cols@[i as int]));
        push_line(&mut out, line);
        assert(strs(out@) =~= start + Seq::new(
            (i + 1) as nat,
            |k: int| spec_overview_column_line(k as nat, cols@[k]),
        ));
        i = i + 1;
    }
    assert(strs(out@) =~= spec_overview_lines(path@, num_rows, num_row_groups, file_size, cols@, quiet));
    out
}

/// Drops a trailing `.0` when what precedes it reads as an `i64`, so that a
/// whole float shows like an integer: `42.0` becomes `42`; `3.14` and other
/// texts stay as they are.
pub open spec fn spec_strip_trailing_dot_zero(s: Seq<char>) -> Seq<char> {
    if s.len() >= 2 && s[s.len() - 2] == '.' && s[s.len() - 1] == '0' && parses_as_i64(
        s.take(s.len() - 2),
    ) {
        s.take(s.len() - 2)
    } else {
        s
    }
}

/// Drops a trailing `.0` after an integer (see [`spec_strip_trailing_dot_zero`]).
pub fn strip_trailing_dot_zero(s: String) -> (r: String)
    ensures
        r@ == spec_strip_trailing_dot_zero(s@),
{
    let v = chars_of(s.as_str());
    let n = v.len();
    if n >= 2 && v[n - 2] == '.' && v[n - 1] == '0' {
        let prefix = string_from_chars(&slice_chars(&v, 0, n - 2));
        assert(prefix@ =~= s@.take(n - 2));
        if is_i64_text(prefix.as_str()) {
            return prefix;
        }
    }
    s
}

/// The values that a full scan computed for one column; each is absent when
/// the scan gave none for it.
#[derive(Debug)]
pub struct ScanColumn {
    pub name: String,
    /// The minimum, as text.
    pub min: Option<String>,
    /// The maximum, as text.
    pub max: Option<String>,
    pub null_count: Option<i64>,
    /// The number of distinct values, a null counting as one value.
    pub n_distinct: Option<i64>,
}

/// A scanned minimum or maximum as shown: without a `.0` after an integer, or `null`.
pub open spec fn scan_value_text(v: Option<String>) -> Seq<char> {
    match v {
        Some(t) => spec_strip_trailing_dot_zero(t@),
        None => "null"@,
    }
}

/// The scanned null count; 0 when the scan gave none.
pub open spec fn scan_nulls(c: ScanColumn) -> int {
    match c.null_count {
        Some(n) => n as int,
        None => 0,
    }
}

/// The distinct count shown: nulls are not counted as a value; `?` when the
/// scan gave none.
pub open spec fn scan_distinct_text(c: ScanColumn) -> Seq<char> {
    match c.n_distinct {
        Some(raw) => dec_int(
            raw - if scan_nulls(c) > 0 {
                1int
            } else {
                0int
            },
        ),
        None => "?"@,
    }
}

/// The scan line of a column.
pub open spec fn spec_scan_line(c: ScanColumn) -> Seq<char> {
    "    "@ + c.name@ + " → min="@ + scan_value_text(c.min) + " max="@ + scan_value_text(c.max)
        + " nulls="@ + dec_int(scan_nulls(c)) + " n_distinct="@ + scan_distinct_text(c)
}

/// The scan lines of the selected columns, in schema order.
pub open spec fn spec_scan_lines(cols: Seq<ScanColumn>, filter: Option<Vec<String>>) -> Seq<
    Seq<char>,
>
    decreases cols.len(),
{
    if cols.len() == 0 {
        Seq::empty()
    } else {
        let prev = spec_scan_lines(cols.drop_last(), filter);
        if column_selected(filter, cols.last().name@) {
            prev.push(spec_scan_line(cols.last()))
        } else {
            prev
        }
    }
}

/// Whether the distinct count of a column can have its null taken off
/// without leaving the `i64` range.
pub open spec fn scan_counts_fit(c: ScanColumn) -> bool {
    c.n_distinct is Some && scan_nulls(c) > 0 ==> c.n_distinct->0 > i64::MIN
}

fn scan_line(c: &ScanColumn) -> (line: String)
    requires
        scan_counts_fit(*c),
    ensures
        line@ == spec_scan_line(*c),
{
    let mut line = String::from_str("    ");
    line.append(c.name.as_str());
    line.append(" → min=");
    let min = match &c.min {
        Some(t) => strip_trailing_dot_zero(t.clone()),
        None => String::from_str("null"),
    };
    line.append(min.as_str());
    line.append(" max=");
    let max = match &c.max {
        Some(t) => strip_trailing_dot_zero(t.clone()),
        None => String::from_str("null"),
    };
    line.append(max.as_str());
    line.append(" nulls=");
    let nulls: i64 = match c.null_count {
        Some(n) => n,
        None => 0,
    };
    line.append(fmt_i64(nulls).as_str());
    line.append(" n_distinct=");
    let distinct = match c.n_distinct {
        Some(raw) => fmt_i64(
            raw - if nulls > 0 {
                1i64
            } else {
                0i64
            },
        ),
        None => String::from_str("?"),
    };
    line.append(distinct.as_str());
    line
}

/// The file-level statistics from a scan: a heading, then one line per
/// selected column, in schema order.
pub fn scan_stats_lines(cols: &Vec<ScanColumn>, filter: &Option<Vec<String>>) -> (lines: Vec<
    String,
>)
    requires
        forall|k: int| 0 <= k < cols.len() ==> scan_counts_fit(#[trigger] cols@[k]),
    ensures
        strs(lines@) == seq!["  scan stats (file-level):"@] + spec_scan_lines(cols@, *filter),
{
    let mut out: Vec<String> = Vec::new();
    push_line(&mut out, String::from_str("  scan stats (file-level):"));
    let ghost start = strs(out@);
    let mut i: usize = 0;
    while i < cols.len()
        invariant
            0 <= i <= cols.len(),
            forall|k: int| 0 <= k < cols.len() ==> scan_counts_fit(#[trigger] cols@[k]),
            strs(out@) == start + spec_scan_lines(cols@.take(i as int), *filter),
        decreases cols.len() - i,
    {
        assert(cols@.take(i + 1).drop_last() =~= cols@.take(i as int));
        if is_selected(filter, cols[i].name.as_str()) {
            let line = scan_line(&cols[i]);
            push_line(&mut out, line);
        }
        i = i + 1;
    }
    assert(cols@.take(cols.len() as int) =~= cols@);
    out
}

/// Statistics put each bound in its place: for every physical type with
/// bounds, the text is `min=`, the minimum as `{:?}` shows it, ` max=`, the
/// maximum, ` nulls=` and the null count (0 when unknown); types without
/// bounds show only the null count. `FLOAT` and `DOUBLE` bounds given as the
/// same texts read the same.
pub proof fn law_statistics_bounds_in_place(s: ColumnStats)
    ensures
        ({
            let nulls = dec(
                match s.null_count {
                    Some(n) => n as nat,
                    None => 0,
                },
            );
            let text = spec_format_statistics(s);
            match s.values {
                StatValues::Boolean { min, max } => text == "min="@ + debug_opt_bool(min)
                    + " max="@ + debug_opt_bool(max) + " nulls="@ + nulls,
                StatValues::Int32 { min, max } => text == "min="@ + debug_opt_i32(min) + " max="@
                    + debug_opt_i32(max) + " nulls="@ + nulls,
                StatValues::Int64 { min, max } => text == "min="@ + debug_opt_i64(min) + " max="@
                    + debug_opt_i64(max) + " nulls="@ + nulls,
                StatValues::Float { min, max } => text == "min="@ + debug_opt_text(min) + " max="@
                    + debug_opt_text(max) + " nulls="@ + nulls,
                StatValues::Double { min, max } => text == "min="@ + debug_opt_text(min)
                    + " max="@ + debug_opt_text(max) + " nulls="@ + nulls,
                StatValues::ByteArray { min, max } => text == "min="@ + debug_opt_bytes(min)
                    + " max="@ + debug_opt_bytes(max) + " nulls="@ + nulls,
                StatValues::Int96 => text == "nulls="@ + nulls,
                StatValues::FixedLenByteArray => text == "nulls="@ + nulls,
            }
        }),
        forall|min: Option<String>, max: Option<String>|
            #[trigger] spec_format_statistics(
                ColumnStats { values: StatValues::Float { min, max }, null_count: s.null_count },
            ) == spec_format_statistics(
                ColumnStats { values: StatValues::Double { min, max }, null_count: s.null_count },
            ),
{
}

} // verus!
