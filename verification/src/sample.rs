//! Random row sampling (`--sample N`): which rows to read, as a Parquet row
//! selection, so that only the pages holding them are decoded.

use vstd::prelude::*;
use parquet::arrow::arrow_reader::RowSelection;
use crate::text::{dec, fmt_u64};

verus! {

#[verifier::external_type_specification]
#[verifier::external_body]
pub struct ExRowSelection(parquet::arrow::arrow_reader::RowSelection);

/// The selectors that a `RowSelection` holds, in order, each as a pair of
/// whether it skips and how many rows it covers.
pub uninterp spec fn selection_runs(selection: RowSelection) -> Seq<(bool, usize)>;

/// A run of rows to read or to skip.
#[derive(Clone, Copy, Debug, PartialEq, Eq, Structural)]
pub struct Selector {
    pub row_count: usize,
    pub skip: bool,
}

/// Selectors as (skip, row count) pairs.
pub open spec fn runs(sels: Seq<Selector>) -> Seq<(bool, usize)> {
    sels.map_values(|s: Selector| (s.skip, s.row_count))
}

/// Row by row, whether a run of selectors reads the row (`true`) or skips it.
pub open spec fn expand(rs: Seq<(bool, usize)>) -> Seq<bool>
    decreases rs.len(),
{
    if rs.len() == 0 {
        Seq::empty()
    } else {
        expand(rs.drop_last()) + Seq::new(rs.last().1 as nat, |_i: int| !rs.last().0)
    }
}

/// The number of rows that selectors cover.
pub open spec fn run_total(rs: Seq<(bool, usize)>) -> int
    decreases rs.len(),
{
    if rs.len() == 0 {
        0
    } else {
        run_total(rs.drop_last()) + rs.last().1
    }
}

/// Builds a `RowSelection` by calling `RowSelection::from` on the selectors.
/// The contract states what the parquet source shows: the selection reads and
/// skips the same rows as the selectors, and it holds no empty selector and
/// no two consecutive selectors of the same kind (adjacent ones are merged,
/// which cannot overflow when the selectors cover at most `usize::MAX` rows).
#[verifier::external_body]
fn row_selection_from(selectors: &Vec<Selector>) -> (r: RowSelection)
    requires
        run_total(runs(selectors@)) <= usize::MAX,
    ensures
        expand(selection_runs(r)) == expand(runs(selectors@)),
        forall|k: int| 0 <= k < selection_runs(r).len() ==> #[trigger] selection_runs(r)[k].1 > 0,
        forall|k: int|
            0 <= k < selection_runs(r).len() - 1 ==> #[trigger] selection_runs(r)[k].0 != selection_runs(
                r,
            )[k + 1].0,
{
    let v: Vec<parquet::arrow::arrow_reader::RowSelector> = selectors.iter().map(
        |s| parquet::arrow::arrow_reader::RowSelector { row_count: s.row_count, skip: s.skip },
    ).collect();
    RowSelection::from(v)
}

/// The first row after the given indices: one past the last, or 0.
pub open spec fn next_row(idx: Seq<usize>) -> int {
    if idx.len() == 0 {
        0
    } else {
        idx.last() + 1
    }
}

/// The selectors for row indices: before each index, a skip over the rows
/// since the previous index (when there are any), then a select of one row.
pub open spec fn spec_row_selectors(idx: Seq<usize>) -> Seq<Selector>
    decreases idx.len(),
{
    if idx.len() == 0 {
        Seq::empty()
    } else {
        let prev = next_row(idx.drop_last());
        let i = idx.last();
        spec_row_selectors(idx.drop_last()) + (if i > prev {
            seq![Selector { row_count: (i - prev) as usize, skip: true }]
        } else {
            Seq::empty()
        }) + seq![Selector { row_count: 1, skip: false }]
    }
}

/// Whether the indices strictly ascend.
pub open spec fn strictly_increasing(idx: Seq<usize>) -> bool {
    forall|a: int, b: int| 0 <= a < b < idx.len() ==> idx[a] < idx[b]
}

/// The selectors for sorted row indices (see [`spec_row_selectors`]).
pub fn row_selectors(sorted_indices: &[usize]) -> (r: Vec<Selector>)
    requires
        forall|k: int| 0 <= k < sorted_indices@.len() ==> sorted_indices@[k] < usize::MAX,
    ensures
        r@ == spec_row_selectors(sorted_indices@),
{
    let ghost idx = sorted_indices@;
    let mut selectors: Vec<Selector> = Vec::new();
    let mut prev: usize = 0;
    let mut n: usize = 0;
    while n < sorted_indices.len()
        invariant
            0 <= n <= sorted_indices.len(),
            idx == sorted_indices@,
            forall|k: int| 0 <= k < idx.len() ==> idx[k] < usize::MAX,
            prev == next_row(idx.take(n as int)),
            selectors@ == spec_row_selectors(idx.take(n as int)),
        decreases sorted_indices.len() - n,
    {
        assert(idx.take(n + 1).drop_last() =~= idx.take(n as int));
        let i = sorted_indices[n];
        if i > prev {
            selectors.push(Selector { row_count: i - prev, skip: true });
        }
        selectors.push(Selector { row_count: 1, skip: false });
        prev = i + 1;
        n = n + 1;
    }
    assert(idx.take(sorted_indices.len() as int) =~= idx);
    selectors
}

proof fn lemma_runs_concat(a: Seq<Selector>, b: Seq<Selector>)
    ensures
        runs(a + b) == runs(a) + runs(b),
{
    assert(runs(a + b) =~= runs(a) + runs(b));
}

proof fn lemma_expand_concat(a: Seq<(bool, usize)>, b: Seq<(bool, usize)>)
    ensures
        expand(a + b) == expand(a) + expand(b),
        run_total(a + b) == run_total(a) + run_total(b),
    decreases b.len(),
{
    if b.len() == 0 {
        assert(a + b =~= a);
        assert(expand(a) + expand(b) =~= expand(a));
    } else {
        lemma_expand_concat(a, b.drop_last());
        assert((a + b).drop_last() =~= a + b.drop_last());
        assert((a + b).last() == b.last());
        assert(expand(a + b) =~= expand(a) + expand(b));
    }
}

proof fn lemma_expand_single(x: (bool, usize))
    ensures
        expand(seq![x]) == Seq::new(x.1 as nat, |_i: int| !x.0),
{
    let one = seq![x];
    assert(one.drop_last() =~= Seq::<(bool, usize)>::empty());
    assert(one.last() == x);
    assert(expand(one.drop_last()) =~= Seq::<bool>::empty());
    assert(expand(one) == expand(one.drop_last()) + Seq::new(x.1 as nat, |_i: int| !x.0));
    assert(expand(one) =~= Seq::new(x.1 as nat, |_i: int| !x.0));
}

proof fn lemma_expand_len(rs: Seq<(bool, usize)>)
    ensures
        expand(rs).len() == run_total(rs),
    decreases rs.len(),
{
    if rs.len() > 0 {
        lemma_expand_len(rs.drop_last());
    }
}

/// The rows that the selectors of [`spec_row_selectors`] cover, and which
/// of them they read.
proof fn lemma_row_selectors(idx: Seq<usize>)
    requires
        strictly_increasing(idx),
    ensures
        run_total(runs(spec_row_selectors(idx))) == next_row(idx),
        expand(runs(spec_row_selectors(idx))).len() == next_row(idx),
        forall|r: int|
            0 <= r < next_row(idx) ==> (expand(runs(spec_row_selectors(idx)))[r] <==> exists|k: int|
                0 <= k < idx.len() && idx[k] == r),
    decreases idx.len(),
{
    if idx.len() > 0 {
        let front = idx.drop_last();
        let prev = next_row(front);
        let i = idx.last();
        assert(strictly_increasing(front));
        lemma_row_selectors(front);
        let gap = if i > prev {
            seq![Selector { row_count: (i - prev) as usize, skip: true }]
        } else {
            Seq::<Selector>::empty()
        };
        let one = seq![Selector { row_count: 1, skip: false }];
        let base = spec_row_selectors(front);
        assert(spec_row_selectors(idx) == base + gap + one);
        lemma_runs_concat(base + gap, one);
        lemma_runs_concat(base, gap);
        lemma_expand_concat(runs(base) + runs(gap), runs(one));
        lemma_expand_concat(runs(base), runs(gap));
        lemma_expand_len(runs(spec_row_selectors(idx)));
        if front.len() > 0 {
            assert(front.last() < i) by {
                assert(idx[front.len() - 1] < idx[idx.len() - 1]);
            }
        }
        assert(i >= prev);
        let e = expand(runs(spec_row_selectors(idx)));
        let eb = expand(runs(base));
        assert(runs(one) =~= seq![(false, 1usize)]);
        assert(expand(runs(one)) =~= seq![true]) by {
            lemma_expand_single((false, 1usize));
        }
        if i > prev {
            assert(runs(gap) =~= seq![(true, (i - prev) as usize)]);
            assert(expand(runs(gap)) =~= Seq::new((i - prev) as nat, |_j: int| false)) by {
                lemma_expand_single((true, (i - prev) as usize));
            }
        } else {
            assert(runs(gap) =~= Seq::<(bool, usize)>::empty());
        }
        assert(e.len() == i + 1);
        assert forall|r: int| 0 <= r < next_row(idx) implies (e[r] <==> exists|k: int|
            0 <= k < idx.len() && idx[k] == r) by {
            if r < prev {
                assert(e[r] == eb[r]);
                if eb[r] {
                    let k = choose|k: int| 0 <= k < front.len() && front[k] == r;
                    assert(idx[k] == r);
                } else if exists|k: int| 0 <= k < idx.len() && idx[k] == r {
                    let k = choose|k: int| 0 <= k < idx.len() && idx[k] == r;
                    assert(k < front.len());
                    assert(front[k] == r);
                }
            } else if r < i {
                assert(!e[r]);
                if exists|k: int| 0 <= k < idx.len() && idx[k] == r {
                    let k = choose|k: int| 0 <= k < idx.len() && idx[k] == r;
                    if k < front.len() {
                        assert(idx[k] <= front.last()) by {
                            if k < front.len() - 1 {
                                assert(idx[k] < idx[front.len() - 1]);
                            }
                        }
                    }
                }
            } else {
                assert(e[r]);
                assert(idx[idx.len() - 1] == r);
            }
        }
    }
}

/// What the selection of sorted, distinct row indices reads: it covers the
/// rows up to the last index, and reads exactly the rows at the indices.
pub proof fn law_row_selection_reads_indices(idx: Seq<usize>)
    requires
        strictly_increasing(idx),
    ensures
        expand(runs(spec_row_selectors(idx))).len() == next_row(idx),
        forall|r: int|
            0 <= r < next_row(idx) ==> (expand(runs(spec_row_selectors(idx)))[r] <==> exists|k: int|
                0 <= k < idx.len() && idx[k] == r),
{
    lemma_row_selectors(idx);
}

/// The Parquet row selection that reads the rows at the given indices, sorted
/// ascending: a skip over the rows before each index, then a select of one
/// row (see [`spec_row_selectors`] and [`law_row_selection_reads_indices`]).
pub fn indices_to_row_selection(sorted_indices: &[usize]) -> (r: RowSelection)
    requires
        forall|k: int| 0 <= k < sorted_indices@.len() ==> sorted_indices@[k] < usize::MAX,
        run_total(runs(spec_row_selectors(sorted_indices@))) <= usize::MAX,
    ensures
        expand(selection_runs(r)) == expand(runs(spec_row_selectors(sorted_indices@))),
        forall|k: int| 0 <= k < selection_runs(r).len() ==> #[trigger] selection_runs(r)[k].1 > 0,
        forall|k: int|
            0 <= k < selection_runs(r).len() - 1 ==> #[trigger] selection_runs(r)[k].0 != selection_runs(
                r,
            )[k + 1].0,
{
    let selectors = row_selectors(sorted_indices);
    row_selection_from(&selectors)
}

/// Draws `amount` distinct indices below `length`, in random order, by calling
/// `rand::seq::index::sample` with the thread's generator. The contract states
/// what holds of every draw, as rand documents it.
#[verifier::external_body]
fn random_indices(length: usize, amount: usize) -> (v: Vec<usize>)
    requires
        amount <= length,
    ensures
        v.len() == amount,
        v@.no_duplicates(),
        forall|k: int| 0 <= k < v.len() ==> #[trigger] v@[k] < length,
{
    rand::seq::index::sample(&mut rand::thread_rng(), length, amount).into_vec()
}

/// Sorts indices ascending by calling `sort_unstable`: the same indices, in
/// order.
#[verifier::external_body]
fn sort_indices(v: &mut Vec<usize>)
    ensures
        final(v)@.to_multiset() == old(v)@.to_multiset(),
        forall|a: int, b: int| 0 <= a < b < final(v)@.len() ==> final(v)@[a] <= final(v)@[b],
{
    v.sort_unstable()
}

/// Whether row `row` is read by a selection that reads, row by row, `e`.
pub open spec fn reads_row(e: Seq<bool>, row: int) -> bool {
    0 <= row < e.len() && e[row]
}

/// A draw decides the sample: sorting distinct drawn row indices and building
/// their selection reads exactly the drawn rows, and nothing after the last
/// of them.
pub proof fn law_sorted_draw_reads_drawn(drawn: Seq<usize>, sorted: Seq<usize>)
    requires
        drawn.no_duplicates(),
        sorted.to_multiset() == drawn.to_multiset(),
        forall|a: int, b: int| 0 <= a < b < sorted.len() ==> sorted[a] <= sorted[b],
    ensures
        strictly_increasing(sorted),
        sorted.len() == drawn.len(),
        forall|row: int|
            reads_row(#[trigger] expand(runs(spec_row_selectors(sorted))), row) <==> exists|k: int|
                0 <= k < drawn.len() && drawn[k] == row,
        expand(runs(spec_row_selectors(sorted))).len() > 0 ==> exists|k: int|
            0 <= k < drawn.len() && drawn[k] == expand(runs(spec_row_selectors(sorted))).len() - 1,
{
    let s = sorted;
    s.to_multiset_ensures();
    drawn.to_multiset_ensures();
    assert(s.len() == drawn.len());
    drawn.lemma_multiset_has_no_duplicates();
    assert forall|x: usize| s.to_multiset().contains(x) implies s.to_multiset().count(x) == 1 by {}
    s.lemma_multiset_has_no_duplicates_conv();
    assert forall|a: int, b: int| 0 <= a < b < s.len() implies s[a] < s[b] by {
        assert(s[a] <= s[b]);
        assert(s[a] != s[b]);
    }
    assert(strictly_increasing(s));
    lemma_row_selectors(s);
    let e = expand(runs(spec_row_selectors(s)));
    assert forall|row: int| reads_row(#[trigger] expand(runs(spec_row_selectors(sorted))), row)
        <==> exists|k: int| 0 <= k < drawn.len() && drawn[k] == row by {
        if reads_row(e, row) {
            let k = choose|k: int| 0 <= k < s.len() && s[k] == row;
            assert(s.contains(s[k]));
            assert(s.to_multiset().count(s[k]) > 0);
            assert(drawn.to_multiset().count(s[k]) > 0);
            assert(drawn.contains(s[k]));
        }
        if exists|k: int| 0 <= k < drawn.len() && drawn[k] == row {
            let j = choose|j: int| 0 <= j < drawn.len() && drawn[j] == row;
            assert(drawn.contains(drawn[j]));
            assert(drawn.to_multiset().count(drawn[j]) > 0);
            assert(s.to_multiset().count(drawn[j]) > 0);
            assert(s.contains(drawn[j]));
            let k = choose|k: int| 0 <= k < s.len() && s[k] == drawn[j];
            assert(s[k] <= s[s.len() - 1]) by {
                if k < s.len() - 1 {
                    assert(s[k] < s[s.len() - 1]);
                }
            }
            assert(row < next_row(s));
        }
    }
    if e.len() > 0 {
        assert(s.contains(s[s.len() - 1]));
        assert(s.to_multiset().count(s[s.len() - 1]) > 0);
        assert(drawn.to_multiset().count(s[s.len() - 1]) > 0);
        assert(drawn.contains(s[s.len() - 1]));
    }
}

/// The selection for a draw of distinct row indices: the indices sorted, then
/// turned into a row selection (see [`law_sorted_draw_reads_drawn`]). It
/// reads exactly the drawn rows and ends at the last of them.
pub fn draw_selection(drawn: Vec<usize>) -> (r: RowSelection)
    requires
        drawn@.no_duplicates(),
        forall|k: int| 0 <= k < drawn.len() ==> #[trigger] drawn@[k] < usize::MAX,
    ensures
        forall|row: int|
            reads_row(#[trigger] expand(selection_runs(r)), row) <==> exists|k: int|
                0 <= k < drawn.len() && drawn@[k] == row,
        expand(selection_runs(r)).len() > 0 ==> exists|k: int|
            0 <= k < drawn.len() && drawn@[k] == expand(selection_runs(r)).len() - 1,
        exists|s: Seq<usize>|
            #![trigger spec_row_selectors(s)]
            strictly_increasing(s) && s.to_multiset() == drawn@.to_multiset() && expand(
                selection_runs(r),
            ) == expand(runs(spec_row_selectors(s))),
{
    let mut indices = drawn;
    let ghost d = indices@;
    sort_indices(&mut indices);
    let ghost s = indices@;
    proof {
        law_sorted_draw_reads_drawn(d, s);
        s.to_multiset_ensures();
        d.to_multiset_ensures();
        assert forall|k: int| 0 <= k < s.len() implies s[k] < usize::MAX by {
            assert(s.contains(s[k]));
            assert(s.to_multiset().count(s[k]) > 0);
            assert(d.to_multiset().count(s[k]) > 0);
            assert(d.contains(s[k]));
        }
        lemma_row_selectors(s);
    }
    let selection = indices_to_row_selection(indices.as_slice());
    assert(expand(selection_runs(selection)) == expand(runs(spec_row_selectors(s))));
    selection
}

/// The row count of the file as the sampler reads it.
pub open spec fn total_rows(num_rows: i64) -> u64 {
    num_rows as u64
}

/// For `--sample n`: when `n` is below the file's row count, a selection of
/// `n` rows drawn at random; otherwise `None`, and every row is read. Each
/// draw selects `n` distinct rows before the end of the file.
pub fn sample_selection(n: u64, num_rows: i64) -> (r: Option<RowSelection>)
    requires
        total_rows(num_rows) <= usize::MAX,
    ensures
        r is Some <==> n < total_rows(num_rows),
        r is Some ==> exists|s: Seq<usize>|
            #![trigger spec_row_selectors(s)]
            s.len() == n && strictly_increasing(s) && (forall|k: int|
                0 <= k < s.len() ==> s[k] < total_rows(num_rows)) && expand(selection_runs(r->0))
                == expand(runs(spec_row_selectors(s))),
{
    let total: u64 = #[verifier::truncate] (num_rows as u64);
    if n >= total {
        return None;
    }
    let drawn = random_indices(total as usize, n as usize);
    let selection = draw_selection(drawn);
    proof {
        let s = choose|s: Seq<usize>|
            #![trigger spec_row_selectors(s)]
            strictly_increasing(s) && s.to_multiset() == drawn@.to_multiset() && expand(
                selection_runs(selection),
            ) == expand(runs(spec_row_selectors(s)));
        s.to_multiset_ensures();
        drawn@.to_multiset_ensures();
        assert(s.len() == drawn@.len());
        assert forall|k: int| 0 <= k < s.len() implies s[k] < total by {
            assert(s.contains(s[k]));
            assert(s.to_multiset().count(s[k]) > 0);
            assert(drawn@.to_multiset().count(s[k]) > 0);
            assert(drawn@.contains(s[k]));
        }
    }
    Some(selection)
}

/// The warning for `--sample n` when `n` exceeds the file's row count.
pub open spec fn spec_sample_warning(n: u64, num_rows: i64) -> Option<Seq<char>> {
    if n > total_rows(num_rows) {
        Some(
            "warning: --sample "@ + dec(n as nat) + " exceeds file row count "@ + dec(
                total_rows(num_rows) as nat,
            ) + "; returning all rows"@,
        )
    } else {
        None
    }
}

/// The warning for `--sample n` when `n` exceeds the file's row count.
pub fn sample_warning(n: u64, num_rows: i64) -> (r: Option<String>)
    ensures
        match r {
            Some(s) => spec_sample_warning(n, num_rows) == Some(s@),
            None => spec_sample_warning(n, num_rows) is None,
        },
{
    let total: u64 = #[verifier::truncate] (num_rows as u64);
    if n > total {
        let mut s = String::from_str("warning: --sample ");
        s.append(fmt_u64(n).as_str());
        s.append(" exceeds file row count ");
        s.append(fmt_u64(total).as_str());
        s.append("; returning all rows");
        Some(s)
    } else {
        None
    }
}

} // verus!
