//! S3 prefix listings: which keys are Parquet files, their order, the
//! modification date text, and the quiet and plain listing lines.

use vstd::prelude::*;
use crate::size::{format_size_binary, human_size};
use crate::text::{max_width, max_width_exec, byte_len, chars_le, lemma_chars_le_total, lemma_chars_le_trans, str_le, chars_of, dec, dec_int_zero_pad, fmt_i64_zero_pad, fmt_u64, pad_right,
    push_pad_right, lemma_strs_push, slice_chars, starts_with_chars, string_from_chars, strs, trim_start_char};

verus! {

/// Gregorian leap-year rule.
pub open spec fn is_leap_year(y: int) -> bool {
    (y % 4 == 0 && y % 100 != 0) || y % 400 == 0
}

/// Days in year `y`.
pub open spec fn days_in_year(y: int) -> int {
    if is_leap_year(y) {
        366
    } else {
        365
    }
}

/// Days of month `m` (1-based) in a leap or common year.
pub open spec fn days_in_month(leap: bool, m: int) -> int {
    if m == 2 {
        if leap {
            29
        } else {
            28
        }
    } else if m == 4 || m == 6 || m == 9 || m == 11 {
        30
    } else {
        31
    }
}

/// Starting in year `y` with `d` days into it, the year reached and the day
/// offset within that year.
pub open spec fn civil_year(y: int, d: int) -> (int, int)
    decreases d,
{
    if d < days_in_year(y) {
        (y, d)
    } else {
        civil_year(y + 1, d - days_in_year(y))
    }
}

/// Starting in month `m` with `d` days into it, the month reached (at most
/// 13) and the day offset within it.
pub open spec fn civil_month(leap: bool, m: int, d: int) -> (int, int)
    decreases 13 - m,
{
    if m > 12 || d < days_in_month(leap, m) {
        (m, d)
    } else {
        civil_month(leap, m + 1, d - days_in_month(leap, m))
    }
}

/// Division that rounds toward zero, as Rust's `/` does.
pub open spec fn trunc_div(a: int, b: int) -> int {
    if a >= 0 {
        a / b
    } else {
        -((-a) / b)
    }
}

/// The `YYYY-MM-DD` text for a Unix time in seconds: whole days since the
/// epoch (rounded toward zero, taken as an `i32`), counted forward through
/// years from 1970 and then through that year's months.
pub open spec fn spec_epoch_to_date(secs: i64) -> Seq<char> {
    let days = #[verifier::truncate] (trunc_div(secs as int, 86400) as i32);
    let (y, dy) = civil_year(1970, days as int);
    let (m, dm) = civil_month(is_leap_year(y), 1, dy);
    dec_int_zero_pad(y, 4) + "-"@ + dec_int_zero_pad(m, 2) + "-"@ + dec_int_zero_pad(
        dm + 1,
        2,
    )
}

/// Days from 1970-01-01 to the first day of year `y`.
pub open spec fn days_before_year(y: int) -> int
    decreases y - 1970,
{
    if y <= 1970 {
        0
    } else {
        days_before_year(y - 1) + days_in_year(y - 1)
    }
}

/// Days from the first of the year to the first day of month `m`.
pub open spec fn days_before_month(leap: bool, m: int) -> int
    decreases m,
{
    if m <= 1 {
        0
    } else {
        days_before_month(leap, m - 1) + days_in_month(leap, m - 1)
    }
}

pub(crate) proof fn lemma_civil_year(y0: int, d: int)
    requires
        y0 >= 1970,
        d >= 0,
    ensures
        civil_year(y0, d).0 >= y0,
        0 <= civil_year(y0, d).1 < days_in_year(civil_year(y0, d).0),
        days_before_year(y0) + d == days_before_year(civil_year(y0, d).0) + civil_year(y0, d).1,
    decreases d,
{
    if d >= days_in_year(y0) {
        lemma_civil_year(y0 + 1, d - days_in_year(y0));
    }
}

proof fn lemma_year_is_twelve_months(leap: bool)
    ensures
        days_before_month(leap, 13) == if leap {
            366int
        } else {
            365int
        },
{
    reveal_with_fuel(days_before_month, 13);
}

proof fn lemma_civil_month(leap: bool, m0: int, d: int)
    requires
        1 <= m0 <= 12,
        d >= 0,
        days_before_month(leap, m0) + d < days_before_month(leap, 13),
    ensures
        1 <= civil_month(leap, m0, d).0 <= 12,
        0 <= civil_month(leap, m0, d).1 < days_in_month(leap, civil_month(leap, m0, d).0),
        days_before_month(leap, m0) + d == days_before_month(leap, civil_month(leap, m0, d).0)
            + civil_month(leap, m0, d).1,
    decreases 13 - m0,
{
    if d >= days_in_month(leap, m0) {
        if m0 == 12 {
            assert(days_before_month(leap, 13) == days_before_month(leap, 12) + days_in_month(
                leap,
                12,
            ));
        } else {
            lemma_civil_month(leap, m0 + 1, d - days_in_month(leap, m0));
        }
    }
}

/// Calendar law: for a non-negative day count since 1970-01-01 the date that
/// `epoch_to_date` renders is a real date (month 1 to 12, day within the
/// month) and lies exactly that many days after 1970-01-01.
pub proof fn law_epoch_date_is_calendar_date(days: int)
    requires
        days >= 0,
    ensures
        ({
            let (y, dy) = civil_year(1970, days);
            let leap = is_leap_year(y);
            let (m, dm) = civil_month(leap, 1, dy);
            &&& y >= 1970
            &&& 1 <= m <= 12
            &&& 0 <= dm < days_in_month(leap, m)
            &&& days == days_before_year(y) + days_before_month(leap, m) + dm
        }),
{
    lemma_civil_year(1970, days);
    let (y, dy) = civil_year(1970, days);
    let leap = is_leap_year(y);
    lemma_year_is_twelve_months(leap);
    lemma_civil_month(leap, 1, dy);
}

/// Whether `y` is a leap year.
fn is_leap(y: i32) -> (b: bool)
    ensures
        b == is_leap_year(y as int),
{
    (y % 4 == 0 && y % 100 != 0) || y % 400 == 0
}

fn year_len(y: i32) -> (n: i32)
    ensures
        n == days_in_year(y as int),
{
    if is_leap(y) {
        366
    } else {
        365
    }
}

fn month_len(leap: bool, m: i32) -> (n: i32)
    ensures
        n == days_in_month(leap, m as int),
{
    if m == 2 {
        if leap {
            29
        } else {
            28
        }
    } else if m == 4 || m == 6 || m == 9 || m == 11 {
        30
    } else {
        31
    }
}

/// Converts a Unix time in seconds to a `YYYY-MM-DD` string.
pub fn epoch_to_date(secs: i64) -> (s: String)
    ensures
        s@ == spec_epoch_to_date(secs),
{
    let q: i64 = secs / 86_400;
    assert(q == trunc_div(secs as int, 86400));
    let days = #[verifier::truncate] (q as i32);
    let mut y: i32 = 1970;
    let mut d: i32 = days;
    while d >= year_len(y)
        invariant
            civil_year(1970, days as int) == civil_year(y as int, d as int),
            1970 <= y,
            365 * (y - 1970) <= days - d,
        decreases d,
    {
        let diy: i32 = year_len(y);
        d = d - diy;
        y = y + 1;
    }
    assert(civil_year(1970, days as int) == (y as int, d as int));
    let leap = is_leap(y);
    let ghost dy = d;
    let mut m: i32 = 1;
    while m <= 12 && d >= month_len(leap, m)
        invariant
            civil_month(leap, 1, dy as int) == civil_month(leap, m as int, d as int),
            1 <= m <= 13,
            d < 366,
        decreases 13 - m,
    {
        d = d - month_len(leap, m);
        m = m + 1;
    }
    assert(civil_month(leap, 1, dy as int) == (m as int, d as int));
    let mut s = fmt_i64_zero_pad(y as i64, 4);
    s.append("-");
    s.append(fmt_i64_zero_pad(m as i64, 2).as_str());
    s.append("-");
    s.append(fmt_i64_zero_pad((d + 1) as i64, 2).as_str());
    s
}

/// One `.parquet` object of a listing, with its one-line schema summary.
#[derive(Debug)]
pub struct ListingRow {
    pub key: String,
    pub size_bytes: u64,
    pub modified: String,
    pub schema_brief: String,
}

/// Where a stable insertion puts `x` into `s`: after the last run of
/// entries whose key does not exceed `x`'s key, scanning from the end.
pub open spec fn insert_pos(s: Seq<ListingRow>, x: ListingRow) -> int
    decreases s.len(),
{
    if s.len() == 0 {
        0
    } else if chars_le(s.last().key@, x.key@) {
        s.len() as int
    } else {
        insert_pos(s.drop_last(), x)
    }
}

/// The rows in key order, as a stable sort by key leaves them: each row in
/// turn inserted after the sorted rows whose key is not greater.
pub open spec fn spec_sort_by_key(rows: Seq<ListingRow>) -> Seq<ListingRow>
    decreases rows.len(),
{
    if rows.len() == 0 {
        Seq::empty()
    } else {
        let s = spec_sort_by_key(rows.drop_last());
        s.insert(insert_pos(s, rows.last()), rows.last())
    }
}

/// Rows ordered by key.
pub open spec fn sorted_by_key(s: Seq<ListingRow>) -> bool {
    forall|i: int, j: int| 0 <= i < j < s.len() ==> chars_le(s[i].key@, s[j].key@)
}

proof fn lemma_insert_pos(s: Seq<ListingRow>, x: ListingRow)
    ensures
        0 <= insert_pos(s, x) <= s.len(),
        insert_pos(s, x) > 0 ==> chars_le(s[insert_pos(s, x) - 1].key@, x.key@),
        forall|j: int| insert_pos(s, x) <= j < s.len() ==> !chars_le(s[j].key@, x.key@),
    decreases s.len(),
{
    if s.len() > 0 && !chars_le(s.last().key@, x.key@) {
        lemma_insert_pos(s.drop_last(), x);
        assert forall|j: int| insert_pos(s, x) <= j < s.len() implies !chars_le(
            s[j].key@,
            x.key@,
        ) by {
            if j < s.len() - 1 {
                assert(s[j] == s.drop_last()[j]);
            }
        }
    }
}

proof fn lemma_insert_keeps_sorted(s: Seq<ListingRow>, x: ListingRow)
    requires
        sorted_by_key(s),
    ensures
        sorted_by_key(s.insert(insert_pos(s, x), x)),
{
    let p = insert_pos(s, x);
    lemma_insert_pos(s, x);
    s.insert_ensures(p, x);
    let t = s.insert(p, x);
    assert forall|i: int, j: int| 0 <= i < j < t.len() implies chars_le(t[i].key@, t[j].key@) by {
        if j < p {
        } else if j == p {
            if i < p - 1 {
                lemma_chars_le_trans(s[i].key@, s[p - 1].key@, x.key@);
            }
        } else if i < p {
            lemma_chars_le_total(s[j - 1].key@, x.key@);
            if i < p - 1 {
                lemma_chars_le_trans(s[i].key@, s[p - 1].key@, x.key@);
            }
            lemma_chars_le_trans(s[i].key@, x.key@, s[j - 1].key@);
        } else if i == p {
            lemma_chars_le_total(s[j - 1].key@, x.key@);
        } else {
            assert(t[i] == s[i - 1]);
        }
    }
}

/// Ordering law: sorting by key yields the same rows, ordered by key.
pub proof fn law_sort_by_key(rows: Seq<ListingRow>)
    ensures
        sorted_by_key(spec_sort_by_key(rows)),
        spec_sort_by_key(rows).to_multiset() == rows.to_multiset(),
    decreases rows.len(),
{
    broadcast use vstd::seq_lib::to_multiset_insert;
    broadcast use vstd::multiset::group_multiset_axioms;

    if rows.len() > 0 {
        law_sort_by_key(rows.drop_last());
        let s = spec_sort_by_key(rows.drop_last());
        lemma_insert_keeps_sorted(s, rows.last());
        lemma_insert_pos(s, rows.last());
        let p = insert_pos(s, rows.last());
        assert(rows =~= rows.drop_last().push(rows.last()));
        vstd::seq_lib::to_multiset_build(rows.drop_last(), rows.last());
        vstd::seq_lib::to_multiset_insert(s, p, rows.last());
        assert(spec_sort_by_key(rows) == s.insert(p, rows.last()));
        assert(spec_sort_by_key(rows).to_multiset() == s.to_multiset().insert(rows.last()));
        assert(rows.to_multiset() == rows.drop_last().to_multiset().insert(rows.last()));
    } else {
        assert(rows =~= Seq::<ListingRow>::empty());
        assert(spec_sort_by_key(rows) =~= Seq::<ListingRow>::empty());
    }
}

/// Orders listing rows by key, keeping rows with equal keys in their order.
pub fn sort_rows_by_key(rows: Vec<ListingRow>) -> (out: Vec<ListingRow>)
    ensures
        out@ == spec_sort_by_key(rows@),
{
    let ghost all = rows@;
    let mut rest = rows;
    let total = rest.len();
    let mut out: Vec<ListingRow> = Vec::new();
    let mut n: usize = 0;
    assert(all.take(0) =~= Seq::<ListingRow>::empty());
    assert(all.skip(0) =~= all);
    while rest.len() > 0
        invariant
            n + rest.len() == total,
            total == all.len(),
            rest@ == all.skip(n as int),
            out@ == spec_sort_by_key(all.take(n as int)),
        decreases rest.len(),
    {
        let x = rest.remove(0);
        assert(x == all[n as int]);
        assert(all.take(n + 1).drop_last() =~= all.take(n as int));
        assert(all.take(n + 1).last() == x);
        let ghost s = out@;
        let mut p: usize = out.len();
        assert(s.take(p as int) =~= s);
        while p > 0 && !str_le(out[p - 1].key.as_str(), x.key.as_str())
            invariant
                p <= out.len(),
                out@ == s,
                insert_pos(s, x) == insert_pos(s.take(p as int), x),
            decreases p,
        {
            assert(s.take(p as int).last() == s[p - 1]);
            assert(s.take(p as int).drop_last() =~= s.take(p - 1));
            p = p - 1;
        }
        proof {
            if p > 0 {
                assert(s.take(p as int).last() == s[p - 1]);
            }
            assert(insert_pos(s.take(p as int), x) == p);
        }
        out.insert(p, x);
        n = n + 1;
        assert(rest@ =~= all.skip(n as int));
    }
    assert(all.take(all.len() as int) =~= all);
    out
}

/// ASCII lower-casing of one character.
pub open spec fn ascii_lower(c: char) -> char {
    if 'A' <= c && c <= 'Z' {
        ((c as int) + 32) as char
    } else {
        c
    }
}

/// Whether a key names a Parquet file: it ends in `.parquet`, ignoring case.
/// (Only ASCII letters lower-case to the letters of `.parquet`, so comparing
/// the last eight characters ASCII-case-insensitively decides this.)
pub open spec fn spec_is_parquet_key(key: Seq<char>) -> bool {
    key.len() >= 8 && forall|i: int|
        0 <= i < 8 ==> ascii_lower(#[trigger] key[key.len() - 8 + i]) == ".parquet"@[i]
}

fn lower(c: char) -> (r: char)
    ensures
        r == ascii_lower(c),
{
    if 'A' <= c && c <= 'Z' {
        ((c as u8) + 32) as char
    } else {
        c
    }
}

/// Whether an object key ends in `.parquet` (case-insensitive).
pub fn is_parquet_key(key: &str) -> (b: bool)
    ensures
        b == spec_is_parquet_key(key@),
{
    proof {
        reveal_strlit(".parquet");
    }
    let v = chars_of(key);
    let suffix = chars_of(".parquet");
    if v.len() < 8 || suffix.len() != 8 {
        return false;
    }
    let off = v.len() - 8;
    let mut i: usize = 0;
    while i < 8
        invariant
            0 <= i <= 8,
            v@ == key@,
            suffix@ == ".parquet"@,
            suffix.len() == 8,
            off + 8 == v.len(),
            forall|j: int| 0 <= j < i ==> ascii_lower(#[trigger] v@[off + j]) == ".parquet"@[j],
        decreases 8 - i,
    {
        if lower(v[off + i]) != suffix[i] {
            assert(ascii_lower(key@[key@.len() - 8 + i]) != ".parquet"@[i as int]);
            return false;
        }
        i = i + 1;
    }
    true
}

/// The quiet listing line of a row: key, size in bytes, date, schema, tab-separated.
pub open spec fn spec_quiet_line(key: Seq<char>, size: u64, modified: Seq<char>, brief: Seq<char>) -> Seq<char> {
    key + "\t"@ + dec(size as nat) + "\t"@ + modified + "\t"@ + brief
}

/// The `--quiet` listing: one tab-separated line per row.
pub fn emit_quiet(rows: &Vec<ListingRow>) -> (lines: Vec<String>)
    ensures
        lines.len() == rows.len(),
        forall|i: int|
            0 <= i < rows.len() ==> (#[trigger] lines@[i])@ == spec_quiet_line(
                rows@[i].key@,
                rows@[i].size_bytes,
                rows@[i].modified@,
                rows@[i].schema_brief@,
            ),
{
    let mut lines: Vec<String> = Vec::new();
    let mut i: usize = 0;
    while i < rows.len()
        invariant
            0 <= i <= rows.len(),
            lines.len() == i,
            forall|j: int|
                0 <= j < i ==> (#[trigger] lines@[j])@ == spec_quiet_line(
                    rows@[j].key@,
                    rows@[j].size_bytes,
                    rows@[j].modified@,
                    rows@[j].schema_brief@,
                ),
        decreases rows.len() - i,
    {
        let r = &rows[i];
        let mut l = r.key.clone();
        l.append("\t");
        l.append(fmt_u64(r.size_bytes).as_str());
        l.append("\t");
        l.append(r.modified.as_str());
        l.append("\t");
        l.append(r.schema_brief.as_str());
        lines.push(l);
        i = i + 1;
    }
    lines
}

/// The file name shown for a key: the listing prefix removed when the key
/// starts with it, then any leading `/` removed.
pub open spec fn spec_display_name(key: Seq<char>, prefix: Seq<char>) -> Seq<char> {
    trim_start_char(
        if prefix.is_prefix_of(key) {
            key.skip(prefix.len() as int)
        } else {
            key
        },
        '/',
    )
}

fn display_name(key: &str, prefix: &str) -> (s: String)
    ensures
        s@ == spec_display_name(key@, prefix@),
{
    let v = chars_of(key);
    let p = chars_of(prefix);
    let start: usize = if starts_with_chars(&v, prefix) {
        p.len()
    } else {
        0
    };
    let ghost rest = if prefix@.is_prefix_of(key@) {
        key@.skip(prefix@.len() as int)
    } else {
        key@
    };
    assert(v@.skip(start as int) == rest);
    let mut i: usize = start;
    while i < v.len() && v[i] == '/'
        invariant
            start <= i <= v.len(),
            trim_start_char(rest, '/') == trim_start_char(v@.skip(i as int), '/'),
        decreases v.len() - i,
    {
        assert(v@.skip(i as int).drop_first() =~= v@.skip(i + 1));
        i = i + 1;
    }
    let out = slice_chars(&v, i, v.len());
    assert(out@ =~= v@.skip(i as int));
    string_from_chars(&out)
}

/// One line of the plain listing: three left-aligned columns of the given
/// widths, two spaces apart, then the schema summary.
pub open spec fn spec_plain_line(
    c0: Seq<char>,
    c1: Seq<char>,
    c2: Seq<char>,
    c3: Seq<char>,
    w0: nat,
    w1: nat,
    w2: nat,
) -> Seq<char> {
    pad_right(c0, w0) + "  "@ + pad_right(c1, w1) + "  "@ + pad_right(c2, w2) + "  "@ + c3
}

/// The shown file names of the rows.
pub open spec fn names_of(rows: Seq<ListingRow>, prefix: Seq<char>) -> Seq<Seq<char>> {
    rows.map_values(|r: ListingRow| spec_display_name(r.key@, prefix))
}

/// The shown sizes of the rows.
pub open spec fn sizes_of(rows: Seq<ListingRow>) -> Seq<Seq<char>> {
    rows.map_values(|r: ListingRow| human_size(r.size_bytes))
}

/// The shown dates of the rows.
pub open spec fn dates_of(rows: Seq<ListingRow>) -> Seq<Seq<char>> {
    rows.map_values(|r: ListingRow| r.modified@)
}

/// The plain listing: a header line, then one line per row, with each column
/// as wide as its widest entry or header (widths in bytes, as `str::len`
/// counts them).
pub open spec fn spec_plain_listing(rows: Seq<ListingRow>, prefix: Seq<char>) -> Seq<Seq<char>> {
    let w0 = max_width(names_of(rows, prefix), 8);
    let w1 = max_width(sizes_of(rows), 4);
    let w2 = max_width(dates_of(rows), 8);
    seq![spec_plain_line("FILENAME"@, "SIZE"@, "MODIFIED"@, "SCHEMA_BRIEF"@, w0, w1, w2)]
        + Seq::new(
        rows.len(),
        |i: int|
            spec_plain_line(
                names_of(rows, prefix)[i],
                sizes_of(rows)[i],
                dates_of(rows)[i],
                rows[i].schema_brief@,
                w0,
                w1,
                w2,
            ),
    )
}

fn plain_line(c0: &str, c1: &str, c2: &str, c3: &str, w0: usize, w1: usize, w2: usize) -> (s: String)
    ensures
        s@ == spec_plain_line(c0@, c1@, c2@, c3@, w0 as nat, w1 as nat, w2 as nat),
{
    let mut s = String::new();
    push_pad_right(&mut s, c0, w0);
    s.append("  ");
    push_pad_right(&mut s, c1, w1);
    s.append("  ");
    push_pad_right(&mut s, c2, w2);
    s.append("  ");
    s.append(c3);
    s
}

/// The plain listing lines (header first) for rows listed under `prefix`.
pub fn emit_plain(rows: &Vec<ListingRow>, prefix: &str) -> (lines: Vec<String>)
    ensures
        strs(lines@) == spec_plain_listing(rows@, prefix@),
{
    let mut names: Vec<String> = Vec::new();
    let mut sizes: Vec<String> = Vec::new();
    let mut dates: Vec<String> = Vec::new();
    let mut i: usize = 0;
    while i < rows.len()
        invariant
            0 <= i <= rows.len(),
            strs(names@) == names_of(rows@, prefix@).take(i as int),
            strs(sizes@) == sizes_of(rows@).take(i as int),
            strs(dates@) == dates_of(rows@).take(i as int),
        decreases rows.len() - i,
    {
        let ghost r = rows@[i as int];
        assert(names_of(rows@, prefix@)[i as int] == spec_display_name(r.key@, prefix@));
        assert(sizes_of(rows@)[i as int] == human_size(r.size_bytes));
        assert(dates_of(rows@)[i as int] == r.modified@);
        let nm = display_name(rows[i].key.as_str(), prefix);
        let sz = format_size_binary(rows[i].size_bytes);
        let dt = rows[i].modified.clone();
        proof {
            lemma_strs_push(names@, nm);
            lemma_strs_push(sizes@, sz);
            lemma_strs_push(dates@, dt);
        }
        names.push(nm);
        sizes.push(sz);
        dates.push(dt);
        assert(strs(names@) =~= names_of(rows@, prefix@).take(i + 1));
        assert(strs(sizes@) =~= sizes_of(rows@).take(i + 1));
        assert(strs(dates@) =~= dates_of(rows@).take(i + 1));
        i = i + 1;
    }
    assert(names_of(rows@, prefix@).take(rows.len() as int) =~= names_of(rows@, prefix@));
    assert(sizes_of(rows@).take(rows.len() as int) =~= sizes_of(rows@));
    assert(dates_of(rows@).take(rows.len() as int) =~= dates_of(rows@));
    let w0 = max_width_exec(&names, 8);
    let w1 = max_width_exec(&sizes, 4);
    let w2 = max_width_exec(&dates, 8);
    let mut lines: Vec<String> = Vec::new();
    lines.push(plain_line("FILENAME", "SIZE", "MODIFIED", "SCHEMA_BRIEF", w0, w1, w2));
    let ghost expected = spec_plain_listing(rows@, prefix@);
    let mut j: usize = 0;
    while j < rows.len()
        invariant
            0 <= j <= rows.len(),
            names.len() == rows.len(),
            sizes.len() == rows.len(),
            dates.len() == rows.len(),
            strs(names@) == names_of(rows@, prefix@),
            strs(sizes@) == sizes_of(rows@),
            strs(dates@) == dates_of(rows@),
            w0 == max_width(names_of(rows@, prefix@), 8),
            w1 == max_width(sizes_of(rows@), 4),
            w2 == max_width(dates_of(rows@), 8),
            expected == spec_plain_listing(rows@, prefix@),
            strs(lines@) == expected.take(j + 1),
        decreases rows.len() - j,
    {
        let l = plain_line(
            names[j].as_str(),
            sizes[j].as_str(),
            dates[j].as_str(),
            rows[j].schema_brief.as_str(),
            w0,
            w1,
            w2,
        );
        proof {
            lemma_strs_push(lines@, l);
        }
        lines.push(l);
        assert(strs(names@)[j as int] == names[j as int]@);
        assert(strs(sizes@)[j as int] == sizes[j as int]@);
        assert(strs(dates@)[j as int] == dates[j as int]@);
        assert(expected[j + 1] == spec_plain_line(
            names_of(rows@, prefix@)[j as int],
            sizes_of(rows@)[j as int],
            dates_of(rows@)[j as int],
            rows@[j as int].schema_brief@,
            w0 as nat,
            w1 as nat,
            w2 as nat,
        ));
        assert(strs(lines@) =~= expected.take(j + 2));
        j = j + 1;
    }
    assert(expected.take(rows.len() + 1) =~= expected);
    lines
}

/// The listing row of an object: its key (empty when the listing gave none),
/// its size in bytes (0 when absent), the date of its last modification
/// (`unknown` when absent), and its schema brief.
pub fn listing_row(
    key: Option<String>,
    size: Option<i64>,
    modified_secs: Option<i64>,
    schema_brief: String,
) -> (row: ListingRow)
    ensures
        row.key@ == match key {
            Some(k) => k@,
            None => Seq::<char>::empty(),
        },
        row.size_bytes == match size {
            Some(n) => n as u64,
            None => 0u64,
        },
        row.modified@ == match modified_secs {
            Some(t) => spec_epoch_to_date(t),
            None => "unknown"@,
        },
        row.schema_brief == schema_brief,
{
    let key = match key {
        Some(k) => k,
        None => String::new(),
    };
    let size_bytes: u64 = match size {
        Some(n) => #[verifier::truncate] (n as u64),
        None => 0,
    };
    let modified = match modified_secs {
        Some(t) => epoch_to_date(t),
        None => String::from_str("unknown"),
    };
    ListingRow { key, size_bytes, modified, schema_brief }
}

/// The line printed to stderr when a prefix holds no Parquet object.
pub fn no_files_message(bucket: &str, prefix: &str) -> (m: String)
    ensures
        m@ == "pqls: no parquet files found under s3://"@ + bucket@ + "/"@ + prefix@,
{
    let mut m = String::from_str("pqls: no parquet files found under s3://");
    m.append(bucket);
    m.append("/");
    m.append(prefix);
    m
}

/// What to do after a page of a listing: stop, or ask for the next page with
/// the continuation token the page gave.
#[derive(Debug)]
pub enum PageStep {
    Done,
    Next { token: Option<String> },
}

/// The step after a listing page: another request only when the page says
/// it was truncated, carrying its continuation token.
pub fn after_page(is_truncated: Option<bool>, next_token: Option<String>) -> (step: PageStep)
    ensures
        match step {
            PageStep::Done => is_truncated != Some(true),
            PageStep::Next { token } => is_truncated == Some(true) && token == next_token,
        },
{
    match is_truncated {
        Some(true) => PageStep::Next { token: next_token },
        _ => PageStep::Done,
    }
}

} // verus!
