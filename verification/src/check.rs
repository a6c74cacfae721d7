//! Integrity check (`--check`): footer-level checks of every column chunk's
//! offsets against the file size, and the outcome that collects all errors.

use vstd::prelude::*;
use crate::text::{dec, dec_int, fmt_i64, fmt_u64, lemma_strs_push, strs};

verus! {

/// The exit status of `--check` for a corrupt or invalid file (0 when valid).
pub const INVALID_FILE_EXIT_CODE: i32 = 2;

/// Result of checking a file.
#[derive(Debug)]
pub enum CheckOutcome {
    Valid,
    Invalid(Vec<String>),
}

/// What the check reads of one column chunk's metadata.
pub struct ColumnChunkMeta {
    pub name: String,
    pub data_page_offset: i64,
    pub compressed_size: i64,
    pub dictionary_page_offset: Option<i64>,
}

/// `a + b` on `u64`, saturating at the maximum.
pub open spec fn sat_add(a: int, b: int) -> int {
    if a + b > u64::MAX {
        u64::MAX as int
    } else {
        a + b
    }
}

/// The start of an error about a column chunk: its row group and column.
pub open spec fn chunk_prefix(rg: nat, name: Seq<char>) -> Seq<char> {
    "row_group="@ + dec(rg) + " col="@ + name + ": "@
}

/// The errors of one column chunk: negative offset or size (and nothing
/// more); otherwise data running past the end of the file, and a dictionary
/// page offset that is negative or not inside the file.
pub open spec fn chunk_errors(rg: nat, c: ColumnChunkMeta, file_size: u64) -> Seq<Seq<char>> {
    let pre = chunk_prefix(rg, c.name@);
    if c.data_page_offset < 0 || c.compressed_size < 0 {
        seq![
            pre + "negative offset or size ("@ + dec_int(c.data_page_offset as int) + ", "@
                + dec_int(c.compressed_size as int) + ")"@,
        ]
    } else {
        let data: Seq<Seq<char>> = if sat_add(c.data_page_offset as int, c.compressed_size as int)
            > file_size {
            seq![
                pre + "data_page_offset "@ + dec_int(c.data_page_offset as int)
                    + " exceeds file size "@ + dec(file_size as nat),
            ]
        } else {
            Seq::empty()
        };
        let dict: Seq<Seq<char>> = match c.dictionary_page_offset {
            Some(d) => if d < 0 || d >= file_size {
                seq![
                    pre + "dictionary_page_offset "@ + dec_int(d as int) + " exceeds file size "@
                        + dec(file_size as nat),
                ]
            } else {
                Seq::empty()
            },
            None => Seq::empty(),
        };
        data + dict
    }
}

/// The errors of the first `cols.len()` chunks of row group `rg`.
pub open spec fn row_group_errors(rg: nat, cols: Seq<ColumnChunkMeta>, file_size: u64) -> Seq<Seq<char>>
    decreases cols.len(),
{
    if cols.len() == 0 {
        Seq::empty()
    } else {
        row_group_errors(rg, cols.drop_last(), file_size) + chunk_errors(rg, cols.last(), file_size)
    }
}

/// The errors of all row groups, in order.
pub open spec fn metadata_errors_spec(rgs: Seq<Vec<ColumnChunkMeta>>, file_size: u64) -> Seq<Seq<char>>
    decreases rgs.len(),
{
    if rgs.len() == 0 {
        Seq::empty()
    } else {
        metadata_errors_spec(rgs.drop_last(), file_size) + row_group_errors(
            (rgs.len() - 1) as nat,
            rgs.last()@,
            file_size,
        )
    }
}

fn push_all(out: &mut Vec<String>, more: Vec<String>)
    ensures
        strs(final(out)@) == strs(old(out)@) + strs(more@),
{
    let mut i: usize = 0;
    let ghost start = strs(out@);
    while i < more.len()
        invariant
            0 <= i <= more.len(),
            strs(out@) == start + strs(more@).take(i as int),
        decreases more.len() - i,
    {
        let s = more[i].clone();
        proof {
            lemma_strs_push(out@, s);
        }
        out.push(s);
        assert(strs(more@).take(i + 1) =~= strs(more@).take(i as int).push(more@[i as int]@));
        assert(strs(out@) =~= start + strs(more@).take(i + 1));
        i = i + 1;
    }
    assert(strs(more@).take(more.len() as int) =~= strs(more@));
}

fn chunk_check(rg: usize, c: &ColumnChunkMeta, file_size: u64) -> (errs: Vec<String>)
    ensures
        strs(errs@) == chunk_errors(rg as nat, *c, file_size),
{
    let mut pre = String::from_str("row_group=");
    pre.append(fmt_u64(rg as u64).as_str());
    pre.append(" col=");
    pre.append(c.name.as_str());
    pre.append(": ");
    let mut errs: Vec<String> = Vec::new();
    if c.data_page_offset < 0 || c.compressed_size < 0 {
        let mut m = pre.clone();
        m.append("negative offset or size (");
        m.append(fmt_i64(c.data_page_offset).as_str());
        m.append(", ");
        m.append(fmt_i64(c.compressed_size).as_str());
        m.append(")");
        errs.push(m);
        assert(strs(errs@) =~= chunk_errors(rg as nat, *c, file_size));
        return errs;
    }
    let end = (c.data_page_offset as u64).saturating_add(c.compressed_size as u64);
    if end > file_size {
        let mut m = pre.clone();
        m.append("data_page_offset ");
        m.append(fmt_i64(c.data_page_offset).as_str());
        m.append(" exceeds file size ");
        m.append(fmt_u64(file_size).as_str());
        errs.push(m);
    }
    let ghost data = strs(errs@);
    match c.dictionary_page_offset {
        Some(d) => {
            if d < 0 || d as u64 >= file_size {
                let mut m = pre.clone();
                m.append("dictionary_page_offset ");
                m.append(fmt_i64(d).as_str());
                m.append(" exceeds file size ");
                m.append(fmt_u64(file_size).as_str());
                proof {
                    lemma_strs_push(errs@, m);
                }
                errs.push(m);
            }
        },
        None => {},
    }
    assert(strs(errs@) =~= chunk_errors(rg as nat, *c, file_size));
    errs
}

/// The footer-level errors of all column chunks of all row groups.
pub fn metadata_errors(row_groups: &Vec<Vec<ColumnChunkMeta>>, file_size: u64) -> (errs: Vec<String>)
    ensures
        strs(errs@) == metadata_errors_spec(row_groups@, file_size),
{
    let mut errs: Vec<String> = Vec::new();
    let mut r: usize = 0;
    assert(strs(errs@) =~= Seq::<Seq<char>>::empty());
    while r < row_groups.len()
        invariant
            0 <= r <= row_groups.len(),
            strs(errs@) == metadata_errors_spec(row_groups@.take(r as int), file_size),
        decreases row_groups.len() - r,
    {
        let cols = &row_groups[r];
        let ghost before = strs(errs@);
        let mut c: usize = 0;
        assert(row_group_errors(r as nat, cols@.take(0), file_size) =~= Seq::<Seq<char>>::empty());
        while c < cols.len()
            invariant
                0 <= c <= cols.len(),
                cols == row_groups@[r as int],
                strs(errs@) == before + row_group_errors(r as nat, cols@.take(c as int), file_size),
            decreases cols.len() - c,
        {
            let more = chunk_check(r, &cols[c], file_size);
            push_all(&mut errs, more);
            assert(cols@.take(c + 1).drop_last() =~= cols@.take(c as int));
            assert(cols@.take(c + 1).last() == cols@[c as int]);
            c = c + 1;
        }
        assert(cols@.take(cols.len() as int) =~= cols@);
        assert(row_groups@.take(r + 1).drop_last() =~= row_groups@.take(r as int));
        assert(row_groups@.take(r + 1).last() == row_groups@[r as int]);
        r = r + 1;
    }
    assert(row_groups@.take(row_groups.len() as int) =~= row_groups@);
    errs
}

/// Model of a check outcome: `None` when valid, else the errors.
pub open spec fn outcome_errors(o: CheckOutcome) -> Option<Seq<Seq<char>>> {
    match o {
        CheckOutcome::Valid => None,
        CheckOutcome::Invalid(errs) => Some(strs(errs@)),
    }
}

/// Decides the outcome of checking a file: a footer that cannot be read gives
/// its error alone; otherwise the footer-level errors followed by the errors
/// of reading every page (`deep_errors`, empty unless `--deep`), and the file
/// is valid when there are none.
pub fn check_file(
    footer: Result<Vec<Vec<ColumnChunkMeta>>, String>,
    file_size: u64,
    deep_errors: Vec<String>,
) -> (o: CheckOutcome)
    ensures
        outcome_errors(o) == match footer {
            Err(e) => Some(seq![e@]),
            Ok(rgs) => {
                let all = metadata_errors_spec(rgs@, file_size) + strs(deep_errors@);
                if all.len() == 0 {
                    None
                } else {
                    Some(all)
                }
            },
        },
{
    match footer {
        Err(e) => {
            let mut v: Vec<String> = Vec::new();
            v.push(e);
            assert(strs(v@) =~= seq![e@]);
            CheckOutcome::Invalid(v)
        },
        Ok(rgs) => {
            let mut errs = metadata_errors(&rgs, file_size);
            push_all(&mut errs, deep_errors);
            if errs.len() == 0 {
                assert(strs(errs@).len() == 0);
                CheckOutcome::Valid
            } else {
                CheckOutcome::Invalid(errs)
            }
        },
    }
}

/// A failure found while reading every page of a file.
pub enum DeepFailure {
    OpenRowGroup { row_group: usize, error: String },
    PageReader { row_group: usize, column: String, error: String },
    PageRead { row_group: usize, column: String, error: String },
}

/// The error text of a failure found by the deep check.
pub open spec fn spec_deep_message(f: DeepFailure) -> Seq<char> {
    match f {
        DeepFailure::OpenRowGroup { row_group, error } => "row_group="@ + dec(row_group as nat)
            + ": failed to open: "@ + error@,
        DeepFailure::PageReader { row_group, column, error } => chunk_prefix(
            row_group as nat,
            column@,
        ) + "page reader error: "@ + error@,
        DeepFailure::PageRead { row_group, column, error } => chunk_prefix(
            row_group as nat,
            column@,
        ) + "page read error: "@ + error@,
    }
}

/// The error text of a failure found by the deep check.
pub fn deep_message(f: &DeepFailure) -> (s: String)
    ensures
        s@ == spec_deep_message(*f),
{
    match f {
        DeepFailure::OpenRowGroup { row_group, error } => {
            let mut s = String::from_str("row_group=");
            s.append(fmt_u64(*row_group as u64).as_str());
            s.append(": failed to open: ");
            s.append(error.as_str());
            s
        },
        DeepFailure::PageReader { row_group, column, error } => {
            let mut s = String::from_str("row_group=");
            s.append(fmt_u64(*row_group as u64).as_str());
            s.append(" col=");
            s.append(column.as_str());
            s.append(": ");
            s.append("page reader error: ");
            s.append(error.as_str());
            s
        },
        DeepFailure::PageRead { row_group, column, error } => {
            let mut s = String::from_str("row_group=");
            s.append(fmt_u64(*row_group as u64).as_str());
            s.append(" col=");
            s.append(column.as_str());
            s.append(": ");
            s.append("page read error: ");
            s.append(error.as_str());
            s
        },
    }
}

/// The text report of an invalid file: one `ERROR ...` line per error.
pub fn error_lines(errors: &Vec<String>) -> (lines: Vec<String>)
    ensures
        lines.len() == errors.len(),
        forall|i: int| 0 <= i < errors.len() ==> (#[trigger] lines@[i])@ == "ERROR "@ + errors@[i]@,
{
    let mut lines: Vec<String> = Vec::new();
    let mut i: usize = 0;
    while i < errors.len()
        invariant
            0 <= i <= errors.len(),
            lines.len() == i,
            forall|j: int| 0 <= j < i ==> (#[trigger] lines@[j])@ == "ERROR "@ + errors@[j]@,
        decreases errors.len() - i,
    {
        let mut l = String::from_str("ERROR ");
        l.append(errors[i].as_str());
        lines.push(l);
        i = i + 1;
    }
    lines
}

proof fn lemma_row_group_has_chunk(rg: nat, cols: Seq<ColumnChunkMeta>, file_size: u64, j: int, x: Seq<char>)
    requires
        0 <= j < cols.len(),
        chunk_errors(rg, cols[j], file_size).contains(x),
    ensures
        row_group_errors(rg, cols, file_size).contains(x),
    decreases cols.len(),
{
    let front = row_group_errors(rg, cols.drop_last(), file_size);
    let last = chunk_errors(rg, cols.last(), file_size);
    if j == cols.len() - 1 {
        let k = choose|k: int| 0 <= k < last.len() && last[k] == x;
        assert((front + last)[front.len() + k] == x);
    } else {
        assert(cols.drop_last()[j] == cols[j]);
        lemma_row_group_has_chunk(rg, cols.drop_last(), file_size, j, x);
        let k = choose|k: int| 0 <= k < front.len() && front[k] == x;
        assert((front + last)[k] == x);
    }
}

proof fn lemma_file_has_row_group(rgs: Seq<Vec<ColumnChunkMeta>>, file_size: u64, r: int, x: Seq<char>)
    requires
        0 <= r < rgs.len(),
        row_group_errors(r as nat, rgs[r]@, file_size).contains(x),
    ensures
        metadata_errors_spec(rgs, file_size).contains(x),
    decreases rgs.len(),
{
    let front = metadata_errors_spec(rgs.drop_last(), file_size);
    let last = row_group_errors((rgs.len() - 1) as nat, rgs.last()@, file_size);
    if r == rgs.len() - 1 {
        let k = choose|k: int| 0 <= k < last.len() && last[k] == x;
        assert((front + last)[front.len() + k] == x);
    } else {
        assert(rgs.drop_last()[r] == rgs[r]);
        lemma_file_has_row_group(rgs.drop_last(), file_size, r, x);
        let k = choose|k: int| 0 <= k < front.len() && front[k] == x;
        assert((front + last)[k] == x);
    }
}

/// Overrunning chunks are reported: in any row group (the first included),
/// a column chunk with non-negative offset and size whose data runs past the
/// end of the file yields the error `row_group=R col=C: data_page_offset O
/// exceeds file size S` among the footer-level errors, so the file is invalid.
pub proof fn law_overrunning_chunk_reported(
    rgs: Seq<Vec<ColumnChunkMeta>>,
    file_size: u64,
    r: int,
    j: int,
)
    requires
        0 <= r < rgs.len(),
        0 <= j < rgs[r]@.len(),
        rgs[r]@[j].data_page_offset >= 0,
        rgs[r]@[j].compressed_size >= 0,
        rgs[r]@[j].data_page_offset + rgs[r]@[j].compressed_size > file_size,
    ensures
        metadata_errors_spec(rgs, file_size).contains(
            "row_group="@ + dec(r as nat) + " col="@ + rgs[r]@[j].name@ + ": "@
                + "data_page_offset "@ + dec_int(rgs[r]@[j].data_page_offset as int)
                + " exceeds file size "@ + dec(file_size as nat),
        ),
        metadata_errors_spec(rgs, file_size).len() > 0,
{
    let c = rgs[r]@[j];
    let x = "row_group="@ + dec(r as nat) + " col="@ + c.name@ + ": "@ + "data_page_offset "@
        + dec_int(c.data_page_offset as int) + " exceeds file size "@ + dec(file_size as nat);
    let errs = chunk_errors(r as nat, c, file_size);
    assert(errs[0] =~= x);
    assert(errs.contains(x));
    lemma_row_group_has_chunk(r as nat, rgs[r]@, file_size, j, x);
    lemma_file_has_row_group(rgs, file_size, r, x);
}

/// The errors of a chunk do not depend on its row group but for the
/// `row_group=R col=C: ` prefix: in any two row groups the same chunk gives
/// as many errors, each the prefix of its row group followed by the same text.
pub proof fn law_chunk_errors_same_in_every_row_group(
    rg1: nat,
    rg2: nat,
    c: ColumnChunkMeta,
    file_size: u64,
)
    ensures
        chunk_errors(rg1, c, file_size).len() == chunk_errors(rg2, c, file_size).len(),
        forall|i: int|
            0 <= i < chunk_errors(rg1, c, file_size).len() ==> {
                let e1 = #[trigger] chunk_errors(rg1, c, file_size)[i];
                let e2 = chunk_errors(rg2, c, file_size)[i];
                let p1 = "row_group="@ + dec(rg1) + " col="@ + c.name@ + ": "@;
                let p2 = "row_group="@ + dec(rg2) + " col="@ + c.name@ + ": "@;
                &&& p1.is_prefix_of(e1)
                &&& p2.is_prefix_of(e2)
                &&& e1.skip(p1.len() as int) == e2.skip(p2.len() as int)
            },
{
    let e1s = chunk_errors(rg1, c, file_size);
    let e2s = chunk_errors(rg2, c, file_size);
    let p1 = chunk_prefix(rg1, c.name@);
    let p2 = chunk_prefix(rg2, c.name@);
    assert forall|i: int| 0 <= i < e1s.len() implies {
        let e1 = #[trigger] e1s[i];
        let e2 = e2s[i];
        &&& p1.is_prefix_of(e1)
        &&& p2.is_prefix_of(e2)
        &&& e1.skip(p1.len() as int) == e2.skip(p2.len() as int)
    } by {
        let e1 = e1s[i];
        let e2 = e2s[i];
        let t = e1.skip(p1.len() as int);
        assert(e1 =~= p1 + t);
        assert(e2 =~= p2 + t);
        assert(e1.subrange(0, p1.len() as int) =~= p1);
        assert(e2.subrange(0, p2.len() as int) =~= p2);
        assert(e2.skip(p2.len() as int) =~= t);
    }
}

} // verus!
