//! Directory mode: the per-file listing of a dataset, Hive partition names,
//! and per-partition totals (`--partition-stats`).

use vstd::prelude::*;
use crate::parquet_types::{PhysicalType, spec_physical_name};
use crate::size::{format_size_binary, human_size};
use crate::text::{max_width, byte_len, chars_le, chars_lt, chars_of, dec, dec_int, fmt_i64, fmt_u64, join, join_push,
    lemma_chars_le_antisym, lemma_chars_le_refl, lemma_chars_le_total, lemma_chars_le_trans,
    lemma_strs_push, max_width_exec, pad_left,
    pad_right, push_pad_left, push_pad_right, str_eq, str_le, strs};

verus! {

/// What the listing reads of one Parquet file.
pub struct FileSummary {
    /// The path as displayed.
    pub path: String,
    pub num_rows: i64,
    pub num_row_groups: usize,
    pub file_size: u64,
    /// Leaf columns: name and physical type.
    pub columns: Vec<(String, PhysicalType)>,
}

/// The listing line of one file.
pub open spec fn spec_file_line(f: FileSummary, quiet: bool) -> Seq<char> {
    if !quiet {
        f.path@ + "  rows="@ + dec_int(f.num_rows as int) + "  row_groups="@ + dec(
            f.num_row_groups as nat,
        ) + "  size="@ + human_size(f.file_size)
    } else {
        f.path@ + "\t"@ + dec_int(f.num_rows as int) + "\t"@ + human_size(f.file_size)
    }
}

/// The column summary line of column `i` (detail mode, not quiet).
pub open spec fn spec_column_line(i: nat, name: Seq<char>, p: PhysicalType) -> Seq<char> {
    "    ["@ + dec(i) + "] "@ + name + " ("@ + spec_physical_name(p) + ")"@
}

/// The lines printed for one file: its line, then in detail mode (and not
/// quiet) one line per column.
pub open spec fn spec_file_lines(f: FileSummary, detail: bool, quiet: bool) -> Seq<Seq<char>> {
    seq![spec_file_line(f, quiet)] + if detail && !quiet {
        Seq::new(
            f.columns@.len(),
            |i: int| spec_column_line(i as nat, f.columns@[i].0@, f.columns@[i].1),
        )
    } else {
        Seq::empty()
    }
}

/// The lines printed for one file of a directory listing.
pub fn file_listing_lines(f: &FileSummary, detail: bool, quiet: bool) -> (lines: Vec<String>)
    ensures
        strs(lines@) == spec_file_lines(*f, detail, quiet),
{
    let mut lines: Vec<String> = Vec::new();
    let mut l = f.path.clone();
    if !quiet {
        l.append("  rows=");
        l.append(fmt_i64(f.num_rows).as_str());
        l.append("  row_groups=");
        l.append(fmt_u64(f.num_row_groups as u64).as_str());
        l.append("  size=");
        l.append(format_size_binary(f.file_size).as_str());
    } else {
        l.append("\t");
        l.append(fmt_i64(f.num_rows).as_str());
        l.append("\t");
        l.append(format_size_binary(f.file_size).as_str());
    }
    lines.push(l);
    let ghost expected = spec_file_lines(*f, detail, quiet);
    if detail && !quiet {
        let mut i: usize = 0;
        while i < f.columns.len()
            invariant
                0 <= i <= f.columns.len(),
                detail && !quiet,
                expected == spec_file_lines(*f, detail, quiet),
                strs(lines@) == expected.take(i + 1),
            decreases f.columns.len() - i,
        {
            let mut c = String::from_str("    [");
            c.append(fmt_u64(i as u64).as_str());
            c.append("] ");
            c.append(f.columns[i].0.as_str());
            c.append(" (");
            c.append(f.columns[i].1.debug_name().as_str());
            c.append(")");
            let ghost before = strs(lines@);
            lines.push(c);
            assert(strs(lines@) =~= before.push(c@));
            assert(expected[i + 1] == c@);
            assert(strs(lines@) =~= expected.take(i + 2));
            i = i + 1;
        }
        assert(expected.take(f.columns.len() + 1) =~= expected);
    } else {
        assert(strs(lines@) =~= expected);
    }
    lines
}

/// Total rows and bytes over the files, as integers.
pub open spec fn total_rows(fs: Seq<FileSummary>) -> int
    decreases fs.len(),
{
    if fs.len() == 0 {
        0
    } else {
        total_rows(fs.drop_last()) + fs.last().num_rows
    }
}

/// The bytes of the files, summed.
pub open spec fn total_size(fs: Seq<FileSummary>) -> int
    decreases fs.len(),
{
    if fs.len() == 0 {
        0
    } else {
        total_size(fs.drop_last()) + fs.last().file_size
    }
}

/// Every running total stays within `i64` (rows) and `u64` (bytes).
pub open spec fn totals_fit(fs: Seq<FileSummary>) -> bool {
    forall|k: int|
        0 <= k <= fs.len() ==> i64::MIN <= #[trigger] total_rows(fs.take(k)) <= i64::MAX
            && total_size(fs.take(k)) <= u64::MAX
}

/// The running totals of rows and bytes over the files; `None` when a
/// running total leaves its integer type (where the plain sum overflows).
pub fn listing_totals(files: &Vec<FileSummary>) -> (r: Option<(i64, u64)>)
    ensures
        match r {
            Some((rows, size)) => totals_fit(files@) && rows == total_rows(files@) && size
                == total_size(files@),
            None => !totals_fit(files@),
        },
{
    let mut rows: i64 = 0;
    let mut size: u64 = 0;
    let mut i: usize = 0;
    assert(files@.take(0) =~= Seq::<FileSummary>::empty());
    while i < files.len()
        invariant
            0 <= i <= files.len(),
            rows == total_rows(files@.take(i as int)),
            size == total_size(files@.take(i as int)),
            forall|k: int|
                0 <= k <= i ==> i64::MIN <= #[trigger] total_rows(files@.take(k)) <= i64::MAX
                    && total_size(files@.take(k)) <= u64::MAX,
        decreases files.len() - i,
    {
        assert(files@.take(i + 1).drop_last() =~= files@.take(i as int));
        let r = rows.checked_add(files[i].num_rows);
        let s = size.checked_add(files[i].file_size);
        match (r, s) {
            (Some(r2), Some(s2)) => {
                rows = r2;
                size = s2;
            },
            _ => {
                assert(!(i64::MIN <= total_rows(files@.take(i + 1)) <= i64::MAX && total_size(
                    files@.take(i + 1),
                ) <= u64::MAX));
                return None;
            },
        }
        i = i + 1;
    }
    assert(files@.take(files.len() as int) =~= files@);
    Some((rows, size))
}

/// The closing lines of a listing of `n` files.
pub open spec fn spec_total_lines(n: nat, rows: i64, size: u64, quiet: bool) -> Seq<Seq<char>> {
    if !quiet {
        seq!["---"@, "total: "@ + dec(n) + " files, "@ + dec_int(rows as int) + " rows, "@ + human_size(size)]
    } else {
        seq!["total\t"@ + dec_int(rows as int) + "\t"@ + human_size(size)]
    }
}

/// The closing lines of a directory listing.
pub fn listing_total_lines(n_files: usize, rows: i64, size: u64, quiet: bool) -> (lines: Vec<String>)
    ensures
        strs(lines@) == spec_total_lines(n_files as nat, rows, size, quiet),
{
    let mut lines: Vec<String> = Vec::new();
    if !quiet {
        let a = String::from_str("---");
        let mut b = String::from_str("total: ");
        b.append(fmt_u64(n_files as u64).as_str());
        b.append(" files, ");
        b.append(fmt_i64(rows).as_str());
        b.append(" rows, ");
        b.append(format_size_binary(size).as_str());
        lines.push(a);
        lines.push(b);
        assert(strs(lines@) =~= spec_total_lines(n_files as nat, rows, size, quiet));
    } else {
        let mut a = String::from_str("total\t");
        a.append(fmt_i64(rows).as_str());
        a.append("\t");
        a.append(format_size_binary(size).as_str());
        lines.push(a);
        assert(strs(lines@) =~= spec_total_lines(n_files as nat, rows, size, quiet));
    }
    lines
}

/// The message for a directory without Parquet files (none when quiet).
pub open spec fn spec_empty_listing(root: Seq<char>, quiet: bool) -> Seq<Seq<char>> {
    if quiet {
        Seq::empty()
    } else {
        seq![root + ": no parquet files found"@]
    }
}

/// The lines printed for a directory without Parquet files.
pub fn empty_listing_lines(root: &str, quiet: bool) -> (lines: Vec<String>)
    ensures
        strs(lines@) == spec_empty_listing(root@, quiet),
{
    let mut lines: Vec<String> = Vec::new();
    if !quiet {
        let mut l = String::from_str(root);
        l.append(": no parquet files found");
        lines.push(l);
        assert(strs(lines@) =~= spec_empty_listing(root@, quiet));
    } else {
        assert(strs(lines@) =~= spec_empty_listing(root@, quiet));
    }
    lines
}

/// One component of a path: its bytes (as the OS holds them) and, when they
/// are UTF-8, its text.
pub struct PathPart {
    pub raw: Vec<u8>,
    pub text: Option<String>,
}

/// The raw bytes of path components.
pub open spec fn raws(ps: Seq<PathPart>) -> Seq<Seq<u8>> {
    ps.map_values(|p: PathPart| p.raw@)
}

/// The texts of the components that hold a `=` (Hive `key=value` directories).
pub open spec fn hive_parts(rel: Seq<PathPart>) -> Seq<Seq<char>>
    decreases rel.len(),
{
    if rel.len() == 0 {
        Seq::empty()
    } else {
        let prev = hive_parts(rel.drop_last());
        match rel.last().text {
            Some(t) => if t@.contains('=') {
                prev.push(t@)
            } else {
                prev
            },
            None => prev,
        }
    }
}

/// The partition of a file: the `key=value` components of its directory
/// below the dataset root, joined with `/`; `(root)` when there are none,
/// when the file has no directory, or when that directory is not under the root.
pub open spec fn spec_hive_partition(parent: Option<Seq<PathPart>>, root: Seq<PathPart>) -> Seq<char> {
    match parent {
        None => "(root)"@,
        Some(p) => if raws(root).is_prefix_of(raws(p)) {
            let hp = hive_parts(p.skip(root.len() as int));
            if hp.len() == 0 {
                "(root)"@
            } else {
                join(hp, "/"@)
            }
        } else {
            "(root)"@
        },
    }
}

fn bytes_eq(a: &Vec<u8>, b: &Vec<u8>) -> (r: bool)
    ensures
        r == (a@ == b@),
{
    if a.len() != b.len() {
        return false;
    }
    let mut i: usize = 0;
    while i < a.len()
        invariant
            0 <= i <= a.len(),
            a.len() == b.len(),
            forall|j: int| 0 <= j < i ==> a@[j] == b@[j],
        decreases a.len() - i,
    {
        if a[i] != b[i] {
            return false;
        }
        i = i + 1;
    }
    assert(a@ =~= b@);
    true
}

fn has_eq_sign(s: &str) -> (r: bool)
    ensures
        r == s@.contains('='),
{
    let v = chars_of(s);
    let mut i: usize = 0;
    while i < v.len()
        invariant
            0 <= i <= v.len(),
            v@ == s@,
            forall|j: int| 0 <= j < i ==> v@[j] != '=',
        decreases v.len() - i,
    {
        if v[i] == '=' {
            return true;
        }
        i = i + 1;
    }
    false
}

/// The text of a path component when it is a Hive `key=value` component.
pub open spec fn hive_text(c: PathPart) -> Option<Seq<char>> {
    match c.text {
        Some(t) => if t@.contains('=') {
            Some(t@)
        } else {
            None
        },
        None => None,
    }
}

proof fn lemma_hive_parts_filter(rel: Seq<PathPart>)
    ensures
        hive_parts(rel) == rel.filter_map(|c: PathPart| hive_text(c)),
    decreases rel.len(),
{
    if rel.len() > 0 {
        lemma_hive_parts_filter(rel.drop_last());
        let prev = rel.drop_last().filter_map(|c: PathPart| hive_text(c));
        match hive_text(rel.last()) {
            Some(t) => assert(prev.push(t) =~= prev + seq![t]),
            None => {},
        }
    }
}

/// Hive rule: the partition of a file is `(root)` when the file has no
/// directory, when that directory is not under the root (component by
/// component), or when none of its components below the root holds `=`;
/// otherwise it is those `key=value` components, in path order, joined with
/// `/`.
pub proof fn law_hive_partition(parent: Option<Seq<PathPart>>, root: Seq<PathPart>)
    ensures
        spec_hive_partition(parent, root) == match parent {
            None => "(root)"@,
            Some(p) => {
                let keyed = p.skip(root.len() as int).filter_map(|c: PathPart| hive_text(c));
                if raws(root).is_prefix_of(raws(p)) && keyed.len() > 0 {
                    join(keyed, "/"@)
                } else {
                    "(root)"@
                }
            },
        },
{
    match parent {
        Some(p) => lemma_hive_parts_filter(p.skip(root.len() as int)),
        None => {},
    }
}

/// Names the Hive partition of a file from its directory's components
/// (`None` when the path has no parent) and the dataset root's components.
#[verifier::loop_isolation(false)]
pub fn parse_hive_partition(parent: &Option<Vec<PathPart>>, root: &Vec<PathPart>) -> (s: String)
    ensures
        s@ == spec_hive_partition(
            match parent {
                Some(p) => Some(p@),
                None => None,
            },
            root@,
        ),
{
    let p = match parent {
        Some(p) => p,
        None => {
            return String::from_str("(root)");
        },
    };
    assert(raws(root@).len() == root@.len());
    assert(raws(p@).len() == p@.len());
    if root.len() > p.len() {
        return String::from_str("(root)");
    }
    let mut i: usize = 0;
    while i < root.len()
        invariant
            0 <= i <= root.len(),
            root.len() <= p.len(),
            forall|j: int| 0 <= j < i ==> root@[j].raw@ == p@[j].raw@,
        decreases root.len() - i,
    {
        if !bytes_eq(&root[i].raw, &p[i].raw) {
            assert(raws(root@)[i as int] == root@[i as int].raw@);
            assert(raws(p@)[i as int] == p@[i as int].raw@);
            assert(!raws(root@).is_prefix_of(raws(p@))) by {
                if raws(root@).is_prefix_of(raws(p@)) {
                    assert(raws(root@)[i as int] == raws(p@).subrange(0, root@.len() as int)[i as int]);
                }
            }
            return String::from_str("(root)");
        }
        i = i + 1;
    }
    assert(raws(root@) =~= raws(p@).subrange(0, root@.len() as int));
    let ghost rel = p@.skip(root.len() as int);
    let mut parts: Vec<String> = Vec::new();
    let mut k: usize = root.len();
    while k < p.len()
        invariant
            root.len() <= k <= p.len(),
            rel == p@.skip(root.len() as int),
            strs(parts@) == hive_parts(rel.take(k - root.len())),
        decreases p.len() - k,
    {
        let ghost n = k - root.len();
        assert(rel.take(n + 1).drop_last() =~= rel.take(n));
        assert(rel.take(n + 1).last() == p@[k as int]);
        match &p[k].text {
            Some(t) => {
                if has_eq_sign(t.as_str()) {
                    let tc = t.clone();
                    proof {
                        lemma_strs_push(parts@, tc);
                    }
                    parts.push(tc);
                }
            },
            None => {},
        }
        k = k + 1;
    }
    assert(rel.take(p.len() - root.len()) =~= rel);
    if parts.len() == 0 {
        return String::from_str("(root)");
    }
    let ghost hp = strs(parts@);
    let mut acc = String::new();
    let mut j: usize = 0;
    while j < parts.len()
        invariant
            0 <= j <= parts.len(),
            hp == strs(parts@),
            acc@ == join(hp.take(j as int), "/"@),
        decreases parts.len() - j,
    {
        join_push(&mut acc, j, parts[j].as_str(), "/", Ghost(hp));
        j = j + 1;
    }
    assert(hp.take(parts.len() as int) =~= hp);
    acc
}

/// One file of a partitioned dataset: its partition name, rows and bytes.
pub struct PartitionEntry {
    pub partition: String,
    pub rows: i64,
    pub size_bytes: u64,
}

/// Totals of one partition.
#[derive(Debug)]
pub struct PartitionStat {
    pub rows: i64,
    pub files: usize,
    pub size_bytes: u64,
}

/// Rows of the entries in partition `key`.
pub open spec fn group_rows(es: Seq<PartitionEntry>, key: Seq<char>) -> int
    decreases es.len(),
{
    if es.len() == 0 {
        0
    } else {
        group_rows(es.drop_last(), key) + if es.last().partition@ == key {
            es.last().rows as int
        } else {
            0
        }
    }
}

/// Number of entries in partition `key`.
pub open spec fn group_files(es: Seq<PartitionEntry>, key: Seq<char>) -> int
    decreases es.len(),
{
    if es.len() == 0 {
        0
    } else {
        group_files(es.drop_last(), key) + if es.last().partition@ == key {
            1int
        } else {
            0
        }
    }
}

/// Bytes of the entries in partition `key`.
pub open spec fn group_size(es: Seq<PartitionEntry>, key: Seq<char>) -> int
    decreases es.len(),
{
    if es.len() == 0 {
        0
    } else {
        group_size(es.drop_last(), key) + if es.last().partition@ == key {
            es.last().size_bytes as int
        } else {
            0
        }
    }
}

/// Whether some entry lies in partition `key`.
pub open spec fn in_entries(es: Seq<PartitionEntry>, key: Seq<char>) -> bool {
    exists|j: int| 0 <= j < es.len() && (#[trigger] es[j]).partition@ == key
}

/// Each partition's running totals stay within their integer types as the
/// entries are added in order.
pub open spec fn groups_fit(es: Seq<PartitionEntry>) -> bool {
    forall|k: int| 0 <= k < es.len() ==> #[trigger] fits_at(es, k)
}

/// The running totals of entry `k`'s partition fit after adding it.
pub open spec fn fits_at(es: Seq<PartitionEntry>, k: int) -> bool {
    i64::MIN <= group_rows(es.take(k + 1), es[k].partition@) <= i64::MAX && group_size(
        es.take(k + 1),
        es[k].partition@,
    ) <= u64::MAX
}

spec fn prefix_fits(es: Seq<PartitionEntry>, n: int) -> bool {
    forall|k: int| 0 <= k < n ==> #[trigger] fits_at(es, k)
}

proof fn lemma_prefix_fits_step(es: Seq<PartitionEntry>, n: int)
    requires
        0 <= n < es.len(),
        prefix_fits(es, n),
        fits_at(es, n),
    ensures
        prefix_fits(es, n + 1),
{
}

/// `out` lists each partition of the entries once, in name order, with its totals.
pub open spec fn is_grouping(out: Seq<(String, PartitionStat)>, es: Seq<PartitionEntry>) -> bool {
    &&& forall|i: int, j: int| 0 <= i < j < out.len() ==> chars_lt(out[i].0@, out[j].0@)
    &&& forall|i: int|
        0 <= i < out.len() ==> {
            let (k, st) = #[trigger] out[i];
            &&& in_entries(es, k@)
            &&& st.rows == group_rows(es, k@)
            &&& st.files == group_files(es, k@)
            &&& st.size_bytes == group_size(es, k@)
        }
    &&& forall|j: int|
        0 <= j < es.len() ==> exists|i: int|
            0 <= i < out.len() && (#[trigger] out[i]).0@ == (#[trigger] es[j]).partition@
}

/// Groups the files by partition, in partition-name order, with per-partition
/// rows, file counts and bytes; `None` when a running total overflows.
pub fn aggregate_partitions(entries: &Vec<PartitionEntry>) -> (r: Option<Vec<(String, PartitionStat)>>)
    ensures
        match r {
            Some(out) => groups_fit(entries@) && is_grouping(out@, entries@),
            None => !groups_fit(entries@),
        },
{
    let ghost es = entries@;
    let mut out: Vec<(String, PartitionStat)> = Vec::new();
    let mut n: usize = 0;
    while n < entries.len()
        invariant
            0 <= n <= entries.len(),
            es == entries@,
            is_grouping(out@, es.take(n as int)),
            prefix_fits(es, n as int),
        decreases entries.len() - n,
    {
        let e = &entries[n];
        let ghost prev = es.take(n as int);
        let ghost next = es.take(n + 1);
        let ghost key = e.partition@;
        assert(next.drop_last() =~= prev);
        assert(next.last() == *e);
        assert forall|k: Seq<char>| k != key implies #[trigger] group_rows(next, k) == group_rows(prev, k)
            && group_files(next, k) == group_files(prev, k) && group_size(next, k) == group_size(
            prev,
            k,
        ) by {}
        assert forall|k: Seq<char>| in_entries(prev, k) implies #[trigger] in_entries(next, k) by {
            let j = choose|j: int| 0 <= j < prev.len() && (#[trigger] prev[j]).partition@ == k;
            assert(next[j] == prev[j]);
        }
        assert(in_entries(next, key)) by {
            assert(next[n as int].partition@ == key);
        }
        // Find the partition, or the place where it belongs.
        let mut p: usize = 0;
        while p < out.len() && !str_le(e.partition.as_str(), out[p].0.as_str())
            invariant
                0 <= p <= out.len(),
                key == e.partition@,
                forall|i: int| 0 <= i < p ==> !chars_le(key, #[trigger] out@[i].0@),
            decreases out.len() - p,
        {
            p = p + 1;
        }
        let found = p < out.len() && str_eq(e.partition.as_str(), out[p].0.as_str());
        if found {
            assert(out@[p as int].0@ == key);
            assert(out@[p as int].1.rows == group_rows(prev, key));
            assert(group_rows(next, key) == group_rows(prev, key) + e.rows);
            assert(group_size(next, key) == group_size(prev, key) + e.size_bytes);
            assert(group_files(next, key) == group_files(prev, key) + 1);
            let r = out[p].1.rows.checked_add(e.rows);
            let z = out[p].1.size_bytes.checked_add(e.size_bytes);
            match (r, z) {
                (Some(r2), Some(z2)) => {
                    proof {
                        lemma_group_files_le(prev, key);
                    }
                    let files = out[p].1.files + 1;
                    let name = out[p].0.clone();
                    let ghost old_out = out@;
                    out.set(p, (name, PartitionStat { rows: r2, files, size_bytes: z2 }));
                    assert(is_grouping(out@, next)) by {
                        assert forall|i: int| 0 <= i < out@.len() && i != p implies out@[i] == old_out[i] by {}
                        assert(out@[p as int].0@ == key);
                        assert forall|i: int| 0 <= i < out@.len() implies {
                            let (k, st) = #[trigger] out@[i];
                            &&& in_entries(next, k@)
                            &&& st.rows == group_rows(next, k@)
                            &&& st.files == group_files(next, k@)
                            &&& st.size_bytes == group_size(next, k@)
                        } by {
                            if i != p {
                                assert(out@[i] == old_out[i]);
                                if i < p {
                                    assert(chars_lt(old_out[i].0@, old_out[p as int].0@));
                                } else {
                                    assert(chars_lt(old_out[p as int].0@, old_out[i].0@));
                                }
                                assert(old_out[i].0@ != key);
                                assert(in_entries(prev, old_out[i].0@));
                            }
                        }
                        assert forall|j: int| 0 <= j < next.len() implies exists|i: int|
                            0 <= i < out@.len() && (#[trigger] out@[i]).0@ == (#[trigger] next[j]).partition@ by {
                            if j < n {
                                assert(next[j] == prev[j]);
                                let i = choose|i: int| 0 <= i < old_out.len() && (#[trigger] old_out[i]).0@ == prev[j].partition@;
                                assert(out@[i].0@ == old_out[i].0@);
                            } else {
                                assert(out@[p as int].0@ == key);
                            }
                        }
                    }
                },
                _ => {
                    assert(!groups_fit(entries@)) by {
                        assert(es.take(n + 1) == next);
                        assert(es[n as int].partition@ == key);
                        assert(!fits_at(es, n as int));
                    }
                    return None;
                },
            }
        } else {
            let ghost old_out = out@;
            proof {
                if p < out@.len() {
                    assert(chars_le(key, out@[p as int].0@));
                    assert(key != out@[p as int].0@);
                }
                assert forall|i: int| 0 <= i < p implies chars_lt(#[trigger] old_out[i].0@, key) by {
                    lemma_chars_le_total(key, old_out[i].0@);
                    lemma_chars_le_refl(key);
                }
                assert forall|i: int| p <= i < old_out.len() implies chars_lt(key, #[trigger] old_out[i].0@) by {
                    if i > p {
                        assert(chars_lt(old_out[p as int].0@, old_out[i].0@));
                        lemma_chars_le_trans(key, old_out[p as int].0@, old_out[i].0@);
                        if key == old_out[i].0@ {
                            lemma_chars_le_antisym(old_out[p as int].0@, key);
                        }
                    }
                }
                assert(!in_entries(prev, key)) by {
                    if in_entries(prev, key) {
                        let j = choose|j: int| 0 <= j < prev.len() && (#[trigger] prev[j]).partition@ == key;
                        let i = choose|i: int| 0 <= i < old_out.len() && (#[trigger] old_out[i]).0@ == prev[j].partition@;
                        if i < p {
                            lemma_chars_le_refl(key);
                        }
                    }
                }
                assert(group_rows(prev, key) == 0 && group_files(prev, key) == 0 && group_size(prev, key) == 0) by {
                    lemma_group_zero(prev, key);
                }
            }
            out.insert(
                p,
                (e.partition.clone(), PartitionStat { rows: e.rows, files: 1, size_bytes: e.size_bytes }),
            );
            assert(is_grouping(out@, next)) by {
                assert forall|i: int| 0 <= i < p implies out@[i] == old_out[i] by {}
                assert forall|i: int| p < i < out@.len() implies out@[i] == old_out[i - 1] by {}
                assert forall|j: int| 0 <= j < next.len() implies exists|i: int|
                    0 <= i < out@.len() && (#[trigger] out@[i]).0@ == (#[trigger] next[j]).partition@ by {
                    if j < n {
                        assert(next[j] == prev[j]);
                        let i = choose|i: int| 0 <= i < old_out.len() && (#[trigger] old_out[i]).0@ == prev[j].partition@;
                        if i < p {
                            assert(out@[i] == old_out[i]);
                        } else {
                            assert(out@[i + 1] == old_out[i]);
                        }
                    } else {
                        assert(out@[p as int].0@ == key);
                    }
                }
            }
        }
        assert(i64::MIN <= group_rows(next, key) <= i64::MAX && group_size(next, key) <= u64::MAX);
        assert(es.take(n + 1) == next);
        assert(es[n as int].partition@ == key);
        assert(fits_at(es, n as int));
        proof {
            lemma_prefix_fits_step(es, n as int);
        }
        n = n + 1;
    }
    assert(es.take(entries.len() as int) =~= es);
    Some(out)
}

/// One line of the partition table.
pub open spec fn spec_partition_line(
    name: Seq<char>,
    rows: Seq<char>,
    files: Seq<char>,
    size: Seq<char>,
    w: nat,
) -> Seq<char> {
    pad_right(name, w) + "  "@ + pad_left(rows, 12) + "  "@ + pad_left(files, 8) + "  "@ + size
}

/// The names of the partitions, in order.
pub open spec fn partition_names(groups: Seq<(String, PartitionStat)>) -> Seq<Seq<char>> {
    groups.map_values(|g: (String, PartitionStat)| g.0@)
}

/// The partition table: a header, then one line per partition, the name
/// column as wide as the widest name in bytes and at least 9.
pub open spec fn spec_partition_table(groups: Seq<(String, PartitionStat)>) -> Seq<Seq<char>> {
    let w = max_width(partition_names(groups), 9);
    seq![spec_partition_line("partition"@, "rows"@, "files"@, "size"@, w)] + Seq::new(
        groups.len(),
        |i: int|
            spec_partition_line(
                groups[i].0@,
                dec_int(groups[i].1.rows as int),
                dec(groups[i].1.files as nat),
                human_size(groups[i].1.size_bytes),
                w,
            ),
    )
}

fn partition_line(name: &str, rows: &str, files: &str, size: &str, w: usize) -> (s: String)
    ensures
        s@ == spec_partition_line(name@, rows@, files@, size@, w as nat),
{
    let mut s = String::new();
    push_pad_right(&mut s, name, w);
    s.append("  ");
    push_pad_left(&mut s, rows, 12);
    s.append("  ");
    push_pad_left(&mut s, files, 8);
    s.append("  ");
    s.append(size);
    s
}

/// The text table of `--partition-stats`.
pub fn partition_table_lines(groups: &Vec<(String, PartitionStat)>) -> (lines: Vec<String>)
    ensures
        strs(lines@) == spec_partition_table(groups@),
{
    let mut names: Vec<String> = Vec::new();
    let mut i: usize = 0;
    while i < groups.len()
        invariant
            0 <= i <= groups.len(),
            strs(names@) == partition_names(groups@).take(i as int),
        decreases groups.len() - i,
    {
        let nm = groups[i].0.clone();
        proof {
            lemma_strs_push(names@, nm);
        }
        names.push(nm);
        assert(strs(names@) =~= partition_names(groups@).take(i + 1));
        i = i + 1;
    }
    assert(partition_names(groups@).take(groups.len() as int) =~= partition_names(groups@));
    let w = max_width_exec(&names, 9);
    let ghost expected = spec_partition_table(groups@);
    let mut lines: Vec<String> = Vec::new();
    let h = partition_line("partition", "rows", "files", "size", w);
    proof {
        lemma_strs_push(lines@, h);
    }
    lines.push(h);
    assert(strs(lines@) =~= expected.take(1));
    let mut j: usize = 0;
    while j < groups.len()
        invariant
            0 <= j <= groups.len(),
            w == max_width(partition_names(groups@), 9),
            expected == spec_partition_table(groups@),
            strs(lines@) == expected.take(j + 1),
        decreases groups.len() - j,
    {
        let g = &groups[j];
        let l = partition_line(
            g.0.as_str(),
            fmt_i64(g.1.rows).as_str(),
            fmt_u64(g.1.files as u64).as_str(),
            format_size_binary(g.1.size_bytes).as_str(),
            w,
        );
        proof {
            lemma_strs_push(lines@, l);
        }
        lines.push(l);
        assert(strs(lines@) =~= expected.take(j + 2));
        j = j + 1;
    }
    assert(expected.take(groups.len() + 1) =~= expected);
    lines
}

/// Sum of `f` over the entries in partition `key`.
pub open spec fn group_sum(es: Seq<PartitionEntry>, key: Seq<char>, f: spec_fn(PartitionEntry) -> int) -> int
    decreases es.len(),
{
    if es.len() == 0 {
        0
    } else {
        group_sum(es.drop_last(), key, f) + if es.last().partition@ == key {
            f(es.last())
        } else {
            0
        }
    }
}

/// Sum of `f` over all entries.
pub open spec fn entries_sum(es: Seq<PartitionEntry>, f: spec_fn(PartitionEntry) -> int) -> int
    decreases es.len(),
{
    if es.len() == 0 {
        0
    } else {
        entries_sum(es.drop_last(), f) + f(es.last())
    }
}

/// Sum over the keys of `ks` of the per-partition sums.
pub open spec fn keys_sum(ks: Seq<Seq<char>>, es: Seq<PartitionEntry>, f: spec_fn(PartitionEntry) -> int) -> int
    decreases ks.len(),
{
    if ks.len() == 0 {
        0
    } else {
        keys_sum(ks.drop_last(), es, f) + group_sum(es, ks.last(), f)
    }
}

proof fn lemma_keys_sum_step(ks: Seq<Seq<char>>, es: Seq<PartitionEntry>, f: spec_fn(PartitionEntry) -> int)
    requires
        es.len() > 0,
        ks.no_duplicates(),
        ks.contains(es.last().partition@),
    ensures
        keys_sum(ks, es, f) == keys_sum(ks, es.drop_last(), f) + f(es.last()),
    decreases ks.len(),
{
    let key = es.last().partition@;
    if ks.len() > 0 {
        if ks.last() == key {
            assert(!ks.drop_last().contains(key)) by {
                if ks.drop_last().contains(key) {
                    let i = choose|i: int| 0 <= i < ks.drop_last().len() && ks.drop_last()[i] == key;
                    assert(ks[i] == ks[ks.len() - 1]);
                }
            }
            lemma_keys_sum_absent(ks.drop_last(), es, f);
        } else {
            let i = choose|i: int| 0 <= i < ks.len() && ks[i] == key;
            assert(ks.drop_last()[i] == key);
            assert(ks.drop_last().no_duplicates()) by {
                assert forall|a: int, b: int| 0 <= a < b < ks.drop_last().len() implies ks.drop_last()[a] != ks.drop_last()[b] by {
                    assert(ks[a] != ks[b]);
                }
            }
            lemma_keys_sum_step(ks.drop_last(), es, f);
        }
    }
}

proof fn lemma_keys_sum_absent(ks: Seq<Seq<char>>, es: Seq<PartitionEntry>, f: spec_fn(PartitionEntry) -> int)
    requires
        es.len() > 0,
        !ks.contains(es.last().partition@),
    ensures
        keys_sum(ks, es, f) == keys_sum(ks, es.drop_last(), f),
    decreases ks.len(),
{
    if ks.len() > 0 {
        assert(!ks.drop_last().contains(es.last().partition@)) by {
            if ks.drop_last().contains(es.last().partition@) {
                let i = choose|i: int| 0 <= i < ks.drop_last().len() && ks.drop_last()[i] == es.last().partition@;
                assert(ks[i] == ks.drop_last()[i]);
            }
        }
        assert(ks[ks.len() - 1] == ks.last());
        lemma_keys_sum_absent(ks.drop_last(), es, f);
    }
}

proof fn lemma_keys_sum_total(ks: Seq<Seq<char>>, es: Seq<PartitionEntry>, f: spec_fn(PartitionEntry) -> int)
    requires
        ks.no_duplicates(),
        forall|j: int| 0 <= j < es.len() ==> ks.contains(#[trigger] es[j].partition@),
    ensures
        keys_sum(ks, es, f) == entries_sum(es, f),
    decreases es.len(),
{
    if es.len() == 0 {
        lemma_keys_sum_empty(ks, es, f);
    } else {
        assert(ks.contains(es[es.len() - 1].partition@));
        assert forall|j: int| 0 <= j < es.drop_last().len() implies ks.contains(#[trigger] es.drop_last()[j].partition@) by {
            assert(es.drop_last()[j] == es[j]);
        }
        lemma_keys_sum_total(ks, es.drop_last(), f);
        lemma_keys_sum_step(ks, es, f);
    }
}

proof fn lemma_keys_sum_empty(ks: Seq<Seq<char>>, es: Seq<PartitionEntry>, f: spec_fn(PartitionEntry) -> int)
    requires
        es.len() == 0,
    ensures
        keys_sum(ks, es, f) == 0,
    decreases ks.len(),
{
    if ks.len() > 0 {
        lemma_keys_sum_empty(ks.drop_last(), es, f);
    }
}

proof fn lemma_group_sums(es: Seq<PartitionEntry>, key: Seq<char>)
    ensures
        group_rows(es, key) == group_sum(es, key, |e: PartitionEntry| e.rows as int),
        group_files(es, key) == group_sum(es, key, |e: PartitionEntry| 1int),
        group_size(es, key) == group_sum(es, key, |e: PartitionEntry| e.size_bytes as int),
    decreases es.len(),
{
    if es.len() > 0 {
        lemma_group_sums(es.drop_last(), key);
    }
}

/// Sum of a per-partition quantity over the partition table.
pub open spec fn stats_sum(out: Seq<(String, PartitionStat)>, f: spec_fn(PartitionStat) -> int) -> int
    decreases out.len(),
{
    if out.len() == 0 {
        0
    } else {
        stats_sum(out.drop_last(), f) + f(out.last().1)
    }
}

proof fn lemma_stats_sum_keys(out: Seq<(String, PartitionStat)>, es: Seq<PartitionEntry>)
    requires
        forall|i: int|
            0 <= i < out.len() ==> {
                let (k, st) = #[trigger] out[i];
                &&& st.rows == group_rows(es, k@)
                &&& st.files == group_files(es, k@)
                &&& st.size_bytes == group_size(es, k@)
            },
    ensures
        stats_sum(out, |st: PartitionStat| st.rows as int) == keys_sum(partition_names(out), es, |e: PartitionEntry| e.rows as int),
        stats_sum(out, |st: PartitionStat| st.files as int) == keys_sum(partition_names(out), es, |e: PartitionEntry| 1int),
        stats_sum(out, |st: PartitionStat| st.size_bytes as int) == keys_sum(partition_names(out), es, |e: PartitionEntry| e.size_bytes as int),
    decreases out.len(),
{
    if out.len() > 0 {
        assert forall|i: int| 0 <= i < out.drop_last().len() implies {
            let (k, st) = #[trigger] out.drop_last()[i];
            &&& st.rows == group_rows(es, k@)
            &&& st.files == group_files(es, k@)
            &&& st.size_bytes == group_size(es, k@)
        } by {
            assert(out.drop_last()[i] == out[i]);
        }
        lemma_stats_sum_keys(out.drop_last(), es);
        assert(partition_names(out).drop_last() =~= partition_names(out.drop_last()));
        assert(partition_names(out).last() == out.last().0@);
        assert(out[out.len() - 1] == out.last());
        lemma_group_sums(es, out.last().0@);
    }
}

/// Partition-stats law: the per-partition rows, file counts and bytes add up
/// to the dataset's total rows, number of files and total bytes.
pub proof fn law_partition_totals(out: Seq<(String, PartitionStat)>, es: Seq<PartitionEntry>)
    requires
        is_grouping(out, es),
    ensures
        stats_sum(out, |st: PartitionStat| st.rows as int) == entries_sum(es, |e: PartitionEntry| e.rows as int),
        stats_sum(out, |st: PartitionStat| st.files as int) == es.len(),
        stats_sum(out, |st: PartitionStat| st.size_bytes as int) == entries_sum(es, |e: PartitionEntry| e.size_bytes as int),
{
    let ks = partition_names(out);
    assert(ks.no_duplicates()) by {
        assert forall|a: int, b: int| 0 <= a < ks.len() && 0 <= b < ks.len() && a != b implies ks[a] != ks[b] by {
            if a < b {
                assert(chars_lt(out[a].0@, out[b].0@));
            } else {
                assert(chars_lt(out[b].0@, out[a].0@));
            }
        }
    }
    assert forall|j: int| 0 <= j < es.len() implies ks.contains(#[trigger] es[j].partition@) by {
        let i = choose|i: int| 0 <= i < out.len() && (#[trigger] out[i]).0@ == (#[trigger] es[j]).partition@;
        assert(ks[i] == es[j].partition@);
    }
    lemma_stats_sum_keys(out, es);
    lemma_keys_sum_total(ks, es, |e: PartitionEntry| e.rows as int);
    lemma_keys_sum_total(ks, es, |e: PartitionEntry| 1int);
    lemma_keys_sum_total(ks, es, |e: PartitionEntry| e.size_bytes as int);
    lemma_count(es);
}

proof fn lemma_count(es: Seq<PartitionEntry>)
    ensures
        entries_sum(es, |e: PartitionEntry| 1int) == es.len(),
    decreases es.len(),
{
    if es.len() > 0 {
        lemma_count(es.drop_last());
    }
}

proof fn lemma_group_files_le(es: Seq<PartitionEntry>, key: Seq<char>)
    ensures
        0 <= group_files(es, key) <= es.len(),
    decreases es.len(),
{
    if es.len() > 0 {
        lemma_group_files_le(es.drop_last(), key);
    }
}

proof fn lemma_group_zero(es: Seq<PartitionEntry>, key: Seq<char>)
    requires
        !in_entries(es, key),
    ensures
        group_rows(es, key) == 0,
        group_files(es, key) == 0,
        group_size(es, key) == 0,
    decreases es.len(),
{
    if es.len() > 0 {
        assert(!in_entries(es.drop_last(), key)) by {
            if in_entries(es.drop_last(), key) {
                let j = choose|j: int| 0 <= j < es.drop_last().len() && (#[trigger] es.drop_last()[j]).partition@ == key;
                assert(es[j] == es.drop_last()[j]);
            }
        }
        assert(es.last() == es[es.len() - 1]);
        lemma_group_zero(es.drop_last(), key);
    }
}

} // verus!
