use parquet::arrow::arrow_reader::RowSelector;
use pqls::sample::{
    indices_to_row_selection, row_selectors, sample_selection, sample_warning, Selector,
};

fn selectors_of(sel: parquet::arrow::arrow_reader::RowSelection) -> Vec<RowSelector> {
    sel.into()
}

#[test]
fn indices_to_row_selection_basic() {
    // indices [0, 2, 4] in a 5-row file → select, skip1, select, skip1, select
    let sel = indices_to_row_selection(&[0, 2, 4]);
    assert_eq!(
        selectors_of(sel),
        vec![
            RowSelector::select(1),
            RowSelector::skip(1),
            RowSelector::select(1),
            RowSelector::skip(1),
            RowSelector::select(1),
        ]
    );
}

#[test]
fn indices_to_row_selection_contiguous() {
    // indices [1, 2, 3] → skip1, select, select, select (adjacent selects merge)
    let sel = indices_to_row_selection(&[1, 2, 3]);
    assert_eq!(selectors_of(sel), vec![RowSelector::skip(1), RowSelector::select(3)]);
}

#[test]
fn indices_to_row_selection_empty() {
    let sel = indices_to_row_selection(&[]);
    assert_eq!(sel.row_count(), 0);
    assert_eq!(selectors_of(sel), vec![]);
}

#[test]
fn row_selectors_exact() {
    assert_eq!(
        row_selectors(&[3, 7, 8, 15]),
        vec![
            Selector { row_count: 3, skip: true },
            Selector { row_count: 1, skip: false },
            Selector { row_count: 3, skip: true },
            Selector { row_count: 1, skip: false },
            Selector { row_count: 1, skip: false },
            Selector { row_count: 6, skip: true },
            Selector { row_count: 1, skip: false },
        ]
    );
    // The selection reads exactly the rows at the indices.
    let sel = indices_to_row_selection(&[3, 7, 8, 15]);
    assert_eq!(sel.row_count(), 4);
    assert_eq!(sel.skipped_row_count(), 12);
}

#[test]
fn sample_selection_draws_distinct_rows() {
    for _ in 0..20 {
        let sel = sample_selection(3, 10).expect("3 of 10 rows are sampled");
        assert_eq!(sel.row_count(), 3);
        assert!(sel.row_count() + sel.skipped_row_count() <= 10);
    }
    assert!(sample_selection(10, 10).is_none());
    assert!(sample_selection(11, 10).is_none());
    let all_but_one = sample_selection(9, 10).unwrap();
    assert_eq!(all_but_one.row_count(), 9);
}

#[test]
fn sample_warning_when_n_exceeds_rows() {
    assert_eq!(
        sample_warning(11, 10),
        Some("warning: --sample 11 exceeds file row count 10; returning all rows".to_string())
    );
    assert_eq!(sample_warning(10, 10), None);
    assert_eq!(sample_warning(3, 10), None);
}
