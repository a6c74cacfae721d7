use pqls::check::{
    check_file, deep_message, error_lines, metadata_errors, CheckOutcome, ColumnChunkMeta,
    DeepFailure,
};

fn chunk(name: &str, offset: i64, size: i64, dict: Option<i64>) -> ColumnChunkMeta {
    ColumnChunkMeta {
        name: name.to_string(),
        data_page_offset: offset,
        compressed_size: size,
        dictionary_page_offset: dict,
    }
}

#[test]
fn metadata_errors_for_bad_offsets() {
    let rgs = vec![
        vec![chunk("a", 4, 10, Some(4)), chunk("b", -1, 10, None)],
        vec![chunk("c", 90, 20, Some(100))],
    ];
    assert_eq!(
        metadata_errors(&rgs, 100),
        vec![
            "row_group=0 col=b: negative offset or size (-1, 10)",
            "row_group=1 col=c: data_page_offset 90 exceeds file size 100",
            "row_group=1 col=c: dictionary_page_offset 100 exceeds file size 100",
        ]
    );
}

#[test]
fn check_outcomes() {
    let ok = check_file(Ok(vec![vec![chunk("a", 4, 10, None)]]), 100, vec![]);
    assert!(matches!(ok, CheckOutcome::Valid));
    match check_file(Err("bad footer".to_string()), 100, vec![]) {
        CheckOutcome::Invalid(errs) => assert_eq!(errs, vec!["bad footer"]),
        CheckOutcome::Valid => panic!("unreadable footer is invalid"),
    }
    let deep = deep_message(&DeepFailure::PageRead {
        row_group: 0,
        column: "a".to_string(),
        error: "eof".to_string(),
    });
    assert_eq!(deep, "row_group=0 col=a: page read error: eof");
    match check_file(Ok(vec![vec![chunk("a", 4, 10, None)]]), 100, vec![deep]) {
        CheckOutcome::Invalid(errs) => {
            assert_eq!(error_lines(&errs), vec!["ERROR row_group=0 col=a: page read error: eof"])
        }
        CheckOutcome::Valid => panic!("page errors make the file invalid"),
    }
    assert_eq!(
        deep_message(&DeepFailure::OpenRowGroup { row_group: 2, error: "x".to_string() }),
        "row_group=2: failed to open: x"
    );
}
